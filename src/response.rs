//! What is answered: the route a request takes and the bytes of each reply head.
use vstd::prelude::*;
use crate::text::{append_str, chars_of, decimal, push_decimal, string_of, chars_equal};

verus! {

broadcast use vstd::string::group_string_axioms;

/// The statuses this responder answers with.
#[derive(Clone, Copy, Debug, PartialEq, Eq, Structural)]
pub enum Status {
    Success,
    NotFound,
    RequestTimeout,
    PayloadTooLarge,
    HeaderFieldsTooLarge,
    NotImplemented,
}

/// The numeric code of a status.
pub open spec fn code_of(s: Status) -> u16 {
    match s {
        Status::Success => 200,
        Status::NotFound => 404,
        Status::RequestTimeout => 408,
        Status::PayloadTooLarge => 413,
        Status::HeaderFieldsTooLarge => 431,
        Status::NotImplemented => 501,
    }
}

/// The reason phrase of a status.
pub open spec fn reason_of(s: Status) -> Seq<char> {
    match s {
        Status::Success => "OK"@,
        Status::NotFound => "Not Found"@,
        Status::RequestTimeout => "Request Timeout"@,
        Status::PayloadTooLarge => "Payload Too Large"@,
        Status::HeaderFieldsTooLarge => "Request Header Fields Too Large"@,
        Status::NotImplemented => "Not Implemented"@,
    }
}

impl Status {
    /// The numeric status code.
    pub fn code(&self) -> (r: u16)
        ensures
            r == code_of(*self),
    {
        match self {
            Status::Success => 200,
            Status::NotFound => 404,
            Status::RequestTimeout => 408,
            Status::PayloadTooLarge => 413,
            Status::HeaderFieldsTooLarge => 431,
            Status::NotImplemented => 501,
        }
    }

    /// The reason phrase of the status line.
    pub fn reason(&self) -> (r: &'static str)
        ensures
            r@ == reason_of(*self),
    {
        match self {
            Status::Success => "OK",
            Status::NotFound => "Not Found",
            Status::RequestTimeout => "Request Timeout",
            Status::PayloadTooLarge => "Payload Too Large",
            Status::HeaderFieldsTooLarge => "Request Header Fields Too Large",
            Status::NotImplemented => "Not Implemented",
        }
    }
}

/// The replies that can be written: the plain-text `OK`, the icon, or a
/// status with an empty body.
#[derive(Clone, Copy, Debug, PartialEq, Eq, Structural)]
pub enum Reply {
    Text,
    Icon,
    Bare(Status),
}

/// Length in bytes of the icon that the icon reply carries.
pub const ICON_LEN: usize = 130;

/// The status a reply carries.
pub open spec fn status_of(r: Reply) -> Status {
    match r {
        Reply::Text => Status::Success,
        Reply::Icon => Status::Success,
        Reply::Bare(s) => s,
    }
}

/// `HTTP/1.1 <code> <reason>` and its line end.
pub open spec fn status_line(s: Status) -> Seq<char> {
    "HTTP/1.1 "@ + decimal(code_of(s) as nat) + " "@ + reason_of(s) + "\r\n"@
}

/// The header fields after the status line, up to and including the blank line.
pub open spec fn fields_of(r: Reply) -> Seq<char> {
    match r {
        Reply::Text => "Connection: close\r\nContent-Type: text/plain; charset=utf-8\r\nX-Content-Type-Options: nosniff\r\nX-Frame-Options: DENY\r\nContent-Length: 2\r\n\r\n"@,
        Reply::Icon => "Connection: close\r\nContent-Type: image/png\r\nCache-Control: public, max-age=86400\r\nX-Content-Type-Options: nosniff\r\nX-Frame-Options: DENY\r\nContent-Length: 130\r\n\r\n"@,
        Reply::Bare(_) => "Connection: close\r\nX-Content-Type-Options: nosniff\r\nX-Frame-Options: DENY\r\nContent-Length: 0\r\n\r\n"@,
    }
}

/// The whole head of a reply: status line, then header fields.
pub open spec fn head_text(r: Reply) -> Seq<char> {
    status_line(status_of(r)) + fields_of(r)
}

/// The body of the plain-text reply.
pub open spec fn text_body_spec() -> Seq<char> {
    "OK"@
}

impl Reply {
    /// The status this reply carries.
    pub fn status(&self) -> (r: Status)
        ensures
            r == status_of(*self),
    {
        match self {
            Reply::Text => Status::Success,
            Reply::Icon => Status::Success,
            Reply::Bare(s) => *s,
        }
    }

    fn fields(&self) -> (r: &'static str)
        ensures
            r@ == fields_of(*self),
    {
        match self {
            Reply::Text => "Connection: close\r\nContent-Type: text/plain; charset=utf-8\r\nX-Content-Type-Options: nosniff\r\nX-Frame-Options: DENY\r\nContent-Length: 2\r\n\r\n",
            Reply::Icon => "Connection: close\r\nContent-Type: image/png\r\nCache-Control: public, max-age=86400\r\nX-Content-Type-Options: nosniff\r\nX-Frame-Options: DENY\r\nContent-Length: 130\r\n\r\n",
            Reply::Bare(_) => "Connection: close\r\nX-Content-Type-Options: nosniff\r\nX-Frame-Options: DENY\r\nContent-Length: 0\r\n\r\n",
        }
    }

    /// The status line and header fields of this reply, ending in the blank line.
    pub fn head(&self) -> (r: String)
        ensures
            r@ == head_text(*self),
    {
        let status = self.status();
        let mut digits: Vec<char> = Vec::new();
        push_decimal(&mut digits, status.code() as usize);
        let mut r = String::new();
        append_str(&mut r, "HTTP/1.1 ");
        let code = string_of(&digits, 0, digits.len());
        append_str(&mut r, code.as_str());
        append_str(&mut r, " ");
        append_str(&mut r, status.reason());
        append_str(&mut r, "\r\n");
        append_str(&mut r, self.fields());
        assert(digits@ =~= decimal(code_of(status) as nat));
        assert(r@ =~= head_text(*self));
        r
    }
}

/// The body of the plain-text reply.
pub fn text_body() -> (r: &'static str)
    ensures
        r@ == text_body_spec(),
{
    "OK"
}

/// Where a request goes, from its method and path.
#[derive(Clone, Copy, Debug, PartialEq, Eq, Structural)]
pub enum Route {
    /// The health answer; `body` is false for `HEAD`.
    Root { body: bool },
    /// The icon; `body` is false for `HEAD`.
    Favicon { body: bool },
    /// A `HEAD` to any other path.
    NotFound,
    /// A method other than `GET` and `HEAD`.
    UnsupportedMethod,
    /// A `GET` to any other path: its body is read and dropped, then 404.
    DrainThenNotFound,
}

/// `GET` and `HEAD` to `/` (and to `/favicon.ico` where it is served) are
/// answered; `HEAD` elsewhere gets 404; other methods get 501; `GET`
/// elsewhere has its body drained, then 404.
pub open spec fn route_of(method: Seq<char>, path: Seq<char>, show_favicon: bool) -> Route {
    let get = method == "GET"@;
    let head = method == "HEAD"@;
    if (get || head) && path == "/"@ {
        Route::Root { body: get }
    } else if (get || head) && path == "/favicon.ico"@ && show_favicon {
        Route::Favicon { body: get }
    } else if head {
        Route::NotFound
    } else if !get {
        Route::UnsupportedMethod
    } else {
        Route::DrainThenNotFound
    }
}

/// The reply a route gets at once, with whether its body is written; none
/// for a route whose body must be read first.
pub open spec fn reply_of(route: Route) -> Option<(Reply, bool)> {
    match route {
        Route::Root { body } => Some((Reply::Text, body)),
        Route::Favicon { body } => Some((Reply::Icon, body)),
        Route::NotFound => Some((Reply::Bare(Status::NotFound), false)),
        Route::UnsupportedMethod => Some((Reply::Bare(Status::NotImplemented), false)),
        Route::DrainThenNotFound => None,
    }
}

/// The route of a request with this method and path.
pub fn route(method: &str, path: &str, show_favicon: bool) -> (r: Route)
    ensures
        r == route_of(method@, path@, show_favicon),
{
    let m = chars_of(method);
    let p = chars_of(path);
    let get = chars_equal(&m, "GET");
    let head = chars_equal(&m, "HEAD");
    if (get || head) && chars_equal(&p, "/") {
        Route::Root { body: get }
    } else if (get || head) && chars_equal(&p, "/favicon.ico") && show_favicon {
        Route::Favicon { body: get }
    } else if head {
        Route::NotFound
    } else if !get {
        Route::UnsupportedMethod
    } else {
        Route::DrainThenNotFound
    }
}

impl Route {
    /// The reply this route gets at once, with whether its body is written.
    pub fn reply(&self) -> (r: Option<(Reply, bool)>)
        ensures
            r == reply_of(*self),
    {
        match self {
            Route::Root { body } => Some((Reply::Text, *body)),
            Route::Favicon { body } => Some((Reply::Icon, *body)),
            Route::NotFound => Some((Reply::Bare(Status::NotFound), false)),
            Route::UnsupportedMethod => Some((Reply::Bare(Status::NotImplemented), false)),
            Route::DrainThenNotFound => None,
        }
    }
}

} // verus!
