//! Reading a request out of its header block: request line, framing headers,
//! client address, the log entry, and the route taken.
use vstd::prelude::*;
use vstd::string::StrSliceExecFns;
use vstd::string::StringExecFns;
use crate::response::{route, route_of, Route, Status};
use crate::text::{
    append_str, decimal, push_decimal, sanitize, sanitize_range, string_of,
    chars_of, find_char, folded_contains, folded_contains_exec, folded_starts_with,
    folded_starts_with_exec, index_of, lines, first_line, parse_capped_range, is_number,
    unsigned_digits, digits_value,
    sanitized, split_lines, trim, trim_end_range, trim_start, trim_start_range, equals_str,
    lemma_index_of_facts, lemma_index_of_found, lemma_index_of_absent, is_white_space,
};

verus! {

broadcast use vstd::string::group_string_axioms;

/// Largest request body accepted, in bytes.
pub const MAX_BODY_SIZE: usize = 1024 * 1024;

/// The method of a request line: the text before its first space, or nothing
/// when the line has no space.
pub open spec fn request_method(line: Seq<char>) -> Seq<char> {
    let k = index_of(line, ' ');
    if k < line.len() {
        line.take(k as int)
    } else {
        Seq::empty()
    }
}

/// The path of a request line: after the method and any white space, the text
/// up to the next space (or the end), cut at its first `?`. A `#` is kept.
pub open spec fn request_path(line: Seq<char>) -> Seq<char> {
    let k = index_of(line, ' ');
    if k < line.len() {
        let rest = trim_start(line.skip(k + 1 as int));
        let token = rest.take(index_of(rest, ' ') as int);
        token.take(index_of(token, '?') as int)
    } else {
        Seq::empty()
    }
}

/// Splits a request line into its method and its path, the query cut off.
pub fn parse_request_line(request_line: &str) -> (r: (&str, &str))
    ensures
        r.0@ == request_method(request_line@),
        r.1@ == request_path(request_line@),
{
    let v = chars_of(request_line);
    let n = v.len();
    let k = find_char(&v, 0, n, ' ');
    assert(v@.subrange(0, n as int) =~= request_line@);
    if k == n {
        let e = request_line.substring_char(0, 0);
        assert(e@ =~= Seq::<char>::empty());
        return (e, e);
    }
    proof {
        lemma_index_of_facts(request_line@, ' ');
    }
    let a = trim_start_range(&v, k + 1, n);
    let t = find_char(&v, a, n, ' ');
    let b = a + t;
    let q = find_char(&v, a, b, '?');
    proof {
        let rest = trim_start(request_line@.skip(k + 1));
        assert(v@.subrange(k + 1, n as int) =~= request_line@.skip(k + 1));
        assert(rest == v@.subrange(a as int, n as int));
        lemma_index_of_facts(rest, ' ');
        let token = rest.take(index_of(rest, ' ') as int);
        assert(token =~= v@.subrange(a as int, b as int));
        assert(token.take(q as int) =~= v@.subrange(a as int, a + q));
    }
    let method = request_line.substring_char(0, k);
    assert(method@ =~= request_line@.take(k as int));
    let path = request_line.substring_char(a, a + q);
    (method, path)
}

/// Why a header block's framing is refused.
#[derive(Clone, Copy, Debug, PartialEq, Eq, Structural)]
pub enum HeaderError {
    /// More than one `Content-Length` line.
    DuplicateHeader,
    /// A `Content-Length` value that is not a non-negative decimal number.
    MalformedHeader,
    /// A declared body larger than [`MAX_BODY_SIZE`].
    BodyTooLarge,
}

/// A `Transfer-Encoding` line that names `chunked`, in any case.
pub open spec fn is_chunked_line(l: Seq<char>) -> bool {
    folded_starts_with(l, "transfer-encoding:"@) && folded_contains(l, "chunked"@)
}

pub open spec fn declares_chunked(ls: Seq<Seq<char>>) -> bool {
    exists|i: int| 0 <= i < ls.len() && #[trigger] is_chunked_line(ls[i])
}

/// A `Content-Length` line, in any case.
pub open spec fn is_length_line(l: Seq<char>) -> bool {
    folded_starts_with(l, "content-length:"@)
}

pub open spec fn has_length_line(ls: Seq<Seq<char>>) -> bool {
    exists|i: int| 0 <= i < ls.len() && #[trigger] is_length_line(ls[i])
}

/// The value of a `Content-Length` line: white space trimmed, one leading
/// `+` dropped. It is a length where it is one or more ASCII digits.
pub open spec fn length_digits(l: Seq<char>) -> Seq<char> {
    unsigned_digits(trim(l.skip(15)))
}

/// The declared body length of the header lines `ls`, scanned in order: the
/// first `Content-Length` line decides, unless a later one repeats it.
pub open spec fn content_length_in(ls: Seq<Seq<char>>) -> Result<usize, HeaderError>
    decreases ls.len(),
{
    if ls.len() == 0 {
        Ok(0)
    } else if is_length_line(ls[0]) {
        let d = length_digits(ls[0]);
        if !is_number(d) {
            Err(HeaderError::MalformedHeader)
        } else if digits_value(d) > MAX_BODY_SIZE {
            Err(HeaderError::BodyTooLarge)
        } else if has_length_line(ls.drop_first()) {
            Err(HeaderError::DuplicateHeader)
        } else {
            Ok(digits_value(d) as usize)
        }
    } else {
        content_length_in(ls.drop_first())
    }
}

fn is_chunked_line_exec(l: &Vec<char>) -> (r: bool)
    ensures
        r == is_chunked_line(l@),
{
    assert(l@.subrange(0, l@.len() as int) =~= l@);
    folded_starts_with_exec(l, 0, l.len(), "transfer-encoding:") && folded_contains_exec(
        l,
        0,
        l.len(),
        "chunked",
    )
}

fn is_length_line_exec(l: &Vec<char>) -> (r: bool)
    ensures
        r == is_length_line(l@),
{
    assert(l@.subrange(0, l@.len() as int) =~= l@);
    folded_starts_with_exec(l, 0, l.len(), "content-length:")
}

fn chunked_in_lines(ls: &Vec<Vec<char>>) -> (r: bool)
    ensures
        r == declares_chunked(ls@.map_values(|l: Vec<char>| l@)),
{
    let ghost views = ls@.map_values(|l: Vec<char>| l@);
    let mut i: usize = 0;
    while i < ls.len()
        invariant
            i <= ls.len(),
            views == ls@.map_values(|l: Vec<char>| l@),
            forall|j: int| 0 <= j < i ==> !#[trigger] is_chunked_line(views[j]),
        decreases ls.len() - i,
    {
        if is_chunked_line_exec(&ls[i]) {
            assert(is_chunked_line(views[i as int]));
            return true;
        }
        i = i + 1;
    }
    false
}

fn length_line_in(ls: &Vec<Vec<char>>, from: usize) -> (r: bool)
    requires
        from <= ls.len(),
    ensures
        r == has_length_line(ls@.map_values(|l: Vec<char>| l@).skip(from as int)),
{
    let ghost views = ls@.map_values(|l: Vec<char>| l@);
    let ghost tail = views.skip(from as int);
    let mut i: usize = from;
    while i < ls.len()
        invariant
            from <= i <= ls.len(),
            views == ls@.map_values(|l: Vec<char>| l@),
            tail == views.skip(from as int),
            forall|j: int| 0 <= j < i - from ==> !#[trigger] is_length_line(tail[j]),
        decreases ls.len() - i,
    {
        if is_length_line_exec(&ls[i]) {
            assert(is_length_line(tail[i - from]));
            return true;
        }
        i = i + 1;
    }
    false
}

proof fn lemma_length_scan_skips(ls: Seq<Seq<char>>, i: int)
    requires
        0 <= i < ls.len(),
        !is_length_line(ls[i]),
    ensures
        content_length_in(ls.skip(i)) == content_length_in(ls.skip(i + 1)),
{
    assert(ls.skip(i).drop_first() =~= ls.skip(i + 1));
}

fn content_length_of_lines(ls: &Vec<Vec<char>>) -> (r: Result<usize, HeaderError>)
    ensures
        r == content_length_in(ls@.map_values(|l: Vec<char>| l@)),
{
    let ghost views = ls@.map_values(|l: Vec<char>| l@);
    let mut i: usize = 0;
    assert(views.skip(0) =~= views);
    while i < ls.len()
        invariant
            i <= ls.len(),
            views == ls@.map_values(|l: Vec<char>| l@),
            content_length_in(views.skip(i as int)) == content_length_in(views),
        decreases ls.len() - i,
    {
        let l = &ls[i];
        if is_length_line_exec(l) {
            let ghost rest = views.skip(i as int);
            assert(rest[0] == l@);
            assert(rest.drop_first() =~= views.skip(i + 1));
            let n = l.len();
            proof {
                reveal_strlit("content-length:");
            }
            assert(n >= 15);
            let a = trim_start_range(l, 15, n);
            let b = trim_end_range(l, a, n);
            proof {
                assert(l@.subrange(15, n as int) =~= l@.skip(15));
                assert(trim(l@.skip(15)) == l@.subrange(a as int, b as int));
            }
            match parse_capped_range(l, a, b, MAX_BODY_SIZE) {
                None => {
                    return Err(HeaderError::MalformedHeader);
                },
                Some(value) => {
                    if value > MAX_BODY_SIZE {
                        return Err(HeaderError::BodyTooLarge);
                    }
                    if length_line_in(ls, i + 1) {
                        return Err(HeaderError::DuplicateHeader);
                    }
                    return Ok(value);
                },
            }
        }
        proof {
            lemma_length_scan_skips(views, i as int);
        }
        i = i + 1;
    }
    assert(views.skip(i as int) =~= Seq::<Seq<char>>::empty());
    Ok(0)
}

/// Whether some header line is a `Transfer-Encoding` line naming `chunked`.
pub fn has_chunked_transfer_encoding(headers: &str) -> (r: bool)
    ensures
        r == declares_chunked(lines(headers@)),
{
    let ls = split_lines(headers);
    assert(ls@.map_values(|l: Vec<char>| l@) =~= lines(headers@));
    chunked_in_lines(&ls)
}

/// The declared body length of a header block; 0 where no line declares one.
pub fn extract_content_length(headers: &str) -> (r: Result<usize, HeaderError>)
    ensures
        r == content_length_in(lines(headers@)),
{
    let ls = split_lines(headers);
    assert(ls@.map_values(|l: Vec<char>| l@) =~= lines(headers@));
    content_length_of_lines(&ls)
}

} // verus!

verus! {

/// The value of a header line that forwards the client's address, in either
/// of the two spellings honoured.
pub open spec fn forwarded_value(l: Seq<char>) -> Option<Seq<char>> {
    if l.len() >= 16 && (l.take(16) == "X-Forwarded-For:"@ || l.take(16) == "x-forwarded-for:"@) {
        Some(l.skip(16))
    } else {
        None
    }
}

/// The first comma-separated token of a value, white space trimmed first.
pub open spec fn first_token(v: Seq<char>) -> Seq<char> {
    let t = trim(v);
    t.take(index_of(t, ',') as int)
}

/// The forwarded address of the first line that forwards one.
pub open spec fn forwarded_for(ls: Seq<Seq<char>>) -> Option<Seq<char>>
    decreases ls.len(),
{
    if ls.len() == 0 {
        None
    } else {
        match forwarded_value(ls[0]) {
            Some(v) => Some(first_token(v)),
            None => forwarded_for(ls.drop_first()),
        }
    }
}

/// The client address logged: the forwarded one where a line gives it, else
/// the socket's peer, else `unknown`; sanitized either way.
pub open spec fn client_address_of(ls: Seq<Seq<char>>, socket_peer: Option<Seq<char>>) -> Seq<
    char,
> {
    match forwarded_for(ls) {
        Some(t) => sanitized(t),
        None => match socket_peer {
            Some(p) => sanitized(p),
            None => "unknown"@,
        },
    }
}

/// The characters of the socket's peer address, if known.
pub open spec fn peer_view(socket_peer: Option<&str>) -> Option<Seq<char>> {
    match socket_peer {
        Some(p) => Some(p@),
        None => None,
    }
}

fn client_address_of_lines(ls: &Vec<Vec<char>>, socket_peer: Option<&str>) -> (r: String)
    ensures
        r@ == client_address_of(ls@.map_values(|l: Vec<char>| l@), peer_view(socket_peer)),
{
    let ghost views = ls@.map_values(|l: Vec<char>| l@);
    let mut i: usize = 0;
    assert(views.skip(0) =~= views);
    while i < ls.len()
        invariant
            i <= ls.len(),
            views == ls@.map_values(|l: Vec<char>| l@),
            forwarded_for(views.skip(i as int)) == forwarded_for(views),
        decreases ls.len() - i,
    {
        let l = &ls[i];
        let n = l.len();
        let ghost rest = views.skip(i as int);
        assert(rest[0] == l@);
        assert(rest.drop_first() =~= views.skip(i + 1));
        if n >= 16 && (equals_str(l, 0, 16, "X-Forwarded-For:") || equals_str(
            l,
            0,
            16,
            "x-forwarded-for:",
        )) {
            let a = trim_start_range(l, 16, n);
            let b = trim_end_range(l, a, n);
            let c = find_char(l, a, b, ',');
            proof {
                assert(l@.subrange(0, 16) =~= l@.take(16));
                assert(l@.subrange(16, n as int) =~= l@.skip(16));
                let t = trim(l@.skip(16));
                assert(t == l@.subrange(a as int, b as int));
                assert(t.take(c as int) =~= l@.subrange(a as int, a + c));
            }
            return sanitize_range(l, a, a + c);
        }
        proof {
            assert(l@.subrange(0, 16) =~= l@.take(16));
        }
        i = i + 1;
    }
    assert(views.skip(i as int) =~= Seq::<Seq<char>>::empty());
    match socket_peer {
        Some(p) => sanitize(p),
        None => String::from_str("unknown"),
    }
}

/// The address to log for a request: the first `X-Forwarded-For` (or
/// `x-forwarded-for`) line's first token, else the socket's peer, else `unknown`.
pub fn client_address(headers: &str, socket_peer: Option<&str>) -> (r: String)
    ensures
        r@ == client_address_of(lines(headers@), peer_view(socket_peer)),
{
    let ls = split_lines(headers);
    assert(ls@.map_values(|l: Vec<char>| l@) =~= lines(headers@));
    client_address_of_lines(&ls, socket_peer)
}

/// The byte count logged: header bytes plus declared body, saturating.
pub open spec fn logged_bytes(header_bytes: nat, content_length: usize) -> nat {
    if header_bytes + content_length > usize::MAX {
        usize::MAX as nat
    } else {
        (header_bytes + content_length) as nat
    }
}

/// The log entry `<peer> "<request line>" <count> bytes`.
pub open spec fn log_entry_of(peer: Seq<char>, request_line: Seq<char>, count: nat) -> Seq<char> {
    peer + " \""@ + sanitized(request_line) + "\" "@ + decimal(count) + " bytes"@
}

/// Formats the log entry for one request; `peer` is already sanitized.
pub fn log_entry(peer: &str, request_line: &str, count: usize) -> (r: String)
    ensures
        r@ == log_entry_of(peer@, request_line@, count as nat),
{
    let mut digits: Vec<char> = Vec::new();
    push_decimal(&mut digits, count);
    let line = sanitize(request_line);
    let number = string_of(&digits, 0, digits.len());
    let mut r = String::from_str(peer);
    append_str(&mut r, " \"");
    append_str(&mut r, line.as_str());
    append_str(&mut r, "\" ");
    append_str(&mut r, number.as_str());
    append_str(&mut r, " bytes");
    assert(digits@ =~= decimal(count as nat));
    assert(r@ =~= log_entry_of(peer@, request_line@, count as nat));
    r
}

} // verus!

verus! {

/// The status answering a refused header block.
pub open spec fn status_for_error(e: HeaderError) -> Status {
    match e {
        HeaderError::DuplicateHeader => Status::HeaderFieldsTooLarge,
        HeaderError::MalformedHeader => Status::HeaderFieldsTooLarge,
        HeaderError::BodyTooLarge => Status::PayloadTooLarge,
    }
}

impl HeaderError {
    /// The status that answers this error.
    pub fn status(&self) -> (r: Status)
        ensures
            r == status_for_error(*self),
    {
        match self {
            HeaderError::DuplicateHeader => Status::HeaderFieldsTooLarge,
            HeaderError::MalformedHeader => Status::HeaderFieldsTooLarge,
            HeaderError::BodyTooLarge => Status::PayloadTooLarge,
        }
    }
}

/// What becomes of a request once its header block is in.
pub enum Verdict {
    /// Refused: answer with this status and close. Nothing is logged.
    Reject(Status),
    /// Accepted: submit the log entry, then follow the route.
    Proceed { log_entry: String, content_length: usize, route: Route },
}

/// `r` is the verdict on the header block `headers`, where `socket_peer` is
/// the connection's peer address, if known.
pub open spec fn is_verdict_on(
    r: Verdict,
    headers: &str,
    socket_peer: Option<Seq<char>>,
    show_favicon: bool,
) -> bool {
    let ls = lines(headers@);
    let line = first_line(headers@);
    if declares_chunked(ls) {
        r == Verdict::Reject(Status::NotImplemented)
    } else {
        match content_length_in(ls) {
            Err(e) => r == Verdict::Reject(status_for_error(e)),
            Ok(n) => r matches Verdict::Proceed { log_entry, content_length, route }
                && log_entry@ == log_entry_of(
                client_address_of(ls, socket_peer),
                line,
                logged_bytes(headers.len() as nat, n),
            ) && content_length == n && route == route_of(
                request_method(line),
                request_path(line),
                show_favicon,
            ),
        }
    }
}

/// Validates a complete header block and decides what follows: chunked
/// bodies are refused first, then a bad `Content-Length`; otherwise the log
/// entry, the declared body length and the route.
pub fn inspect(headers: &str, socket_peer: Option<&str>, show_favicon: bool) -> (r: Verdict)
    ensures
        is_verdict_on(r, headers, peer_view(socket_peer), show_favicon),
{
    let ls = split_lines(headers);
    assert(ls@.map_values(|l: Vec<char>| l@) =~= lines(headers@));
    if chunked_in_lines(&ls) {
        return Verdict::Reject(Status::NotImplemented);
    }
    let n = match content_length_of_lines(&ls) {
        Err(e) => {
            return Verdict::Reject(e.status());
        },
        Ok(n) => n,
    };
    let peer = client_address_of_lines(&ls, socket_peer);
    let first = if ls.len() > 0 {
        string_of(&ls[0], 0, ls[0].len())
    } else {
        String::new()
    };
    assert(first@ == first_line(headers@)) by {
        if ls.len() > 0 {
            assert(ls[0]@.subrange(0, ls[0]@.len() as int) =~= ls[0]@);
        }
    }
    let size = headers.len();
    let count = if size > usize::MAX - n {
        usize::MAX
    } else {
        size + n
    };
    let entry = log_entry(peer.as_str(), first.as_str(), count);
    let (method, path) = parse_request_line(first.as_str());
    let route = route(method, path, show_favicon);
    Verdict::Proceed { log_entry: entry, content_length: n, route }
}

} // verus!

verus! {

/// The request target `p[?q][#f]`.
pub open spec fn target_of(p: Seq<char>, q: Option<Seq<char>>, f: Option<Seq<char>>) -> Seq<char> {
    p + match q {
        Some(q) => seq!['?'] + q,
        None => Seq::empty(),
    } + match f {
        Some(f) => seq!['#'] + f,
        None => Seq::empty(),
    }
}

/// The request line `m p[?q][#f] HTTP/1.1`.
pub open spec fn line_of(
    m: Seq<char>,
    p: Seq<char>,
    q: Option<Seq<char>>,
    f: Option<Seq<char>>,
) -> Seq<char> {
    m + seq![' '] + target_of(p, q, f) + " HTTP/1.1"@
}

/// `c` does not occur in `s`.
pub open spec fn lacks(s: Seq<char>, c: char) -> bool {
    forall|i: int| 0 <= i < s.len() ==> s[i] != c
}

proof fn lemma_lacks_concat(a: Seq<char>, b: Seq<char>, c: char)
    requires
        lacks(a, c),
        lacks(b, c),
    ensures
        lacks(a + b, c),
{
    assert forall|i: int| 0 <= i < (a + b).len() implies (a + b)[i] != c by {
        if i >= a.len() {
            assert((a + b)[i] == b[i - a.len()]);
        }
    }
}

/// For a request line `m p[?q][#f] HTTP/1.1`, the method is `m` and the path
/// is `p` followed by `#f` where there is a fragment: the query is cut off.
/// It holds where no part holds a space, `p` and `f` hold no `?`, the target
/// does not begin with white space, and not both a query and a fragment are
/// present (the fragment follows the query and is cut off with it).
pub proof fn lemma_path_of_request_line(
    m: Seq<char>,
    p: Seq<char>,
    q: Option<Seq<char>>,
    f: Option<Seq<char>>,
)
    requires
        lacks(m, ' '),
        lacks(p, ' '),
        lacks(p, '?'),
        q matches Some(q) ==> lacks(q, ' '),
        f matches Some(f) ==> lacks(f, ' ') && lacks(f, '?'),
        !(q is Some && f is Some),
        target_of(p, q, f).len() > 0,
        !is_white_space(target_of(p, q, f)[0]),
    ensures
        request_method(line_of(m, p, q, f)) == m,
        request_path(line_of(m, p, q, f)) == p + match f {
            Some(f) => seq!['#'] + f,
            None => Seq::<char>::empty(),
        },
{
    reveal_strlit(" HTTP/1.1");
    let t = target_of(p, q, f);
    let line = line_of(m, p, q, f);
    let qs = match q {
        Some(q) => seq!['?'] + q,
        None => Seq::<char>::empty(),
    };
    let fs = match f {
        Some(f) => seq!['#'] + f,
        None => Seq::<char>::empty(),
    };
    let tail = " HTTP/1.1"@;
    assert(line =~= m + (seq![' '] + (t + tail)));
    assert(line[m.len() as int] == ' ');
    lemma_index_of_found(line, ' ', m.len() as int);
    assert(line.take(m.len() as int) =~= m);
    let rest = line.skip(m.len() + 1 as int);
    assert(rest =~= t + tail);
    assert(trim_start(rest) == rest);
    // The target holds no space.
    if let Some(qq) = q {
        assert(lacks(seq!['?'] + qq, ' ')) by {
            lemma_lacks_concat(seq!['?'], qq, ' ');
        }
    }
    if let Some(ff) = f {
        assert(lacks(seq!['#'] + ff, ' ')) by {
            lemma_lacks_concat(seq!['#'], ff, ' ');
        }
        assert(lacks(seq!['#'] + ff, '?')) by {
            lemma_lacks_concat(seq!['#'], ff, '?');
        }
    }
    assert(lacks(qs, ' '));
    assert(lacks(fs, ' '));
    lemma_lacks_concat(p, qs, ' ');
    lemma_lacks_concat(p + qs, fs, ' ');
    assert(t =~= p + qs + fs);
    assert(rest[t.len() as int] == ' ');
    lemma_index_of_found(rest, ' ', t.len() as int);
    assert(rest.take(t.len() as int) =~= t);
    if q is Some {
        assert(fs =~= Seq::<char>::empty());
        assert(t[p.len() as int] == '?');
        lemma_index_of_found(t, '?', p.len() as int);
        assert(t.take(p.len() as int) =~= p);
    } else {
        assert(qs =~= Seq::<char>::empty());
        assert(lacks(fs, '?'));
        lemma_lacks_concat(p, fs, '?');
        assert(t =~= p + fs);
        lemma_index_of_absent(t, '?');
        assert(t.take(t.len() as int) =~= t);
    }
}

/// A chunked request is refused with 501 whatever its method and path.
pub proof fn lemma_chunked_refused(
    r: Verdict,
    headers: &str,
    socket_peer: Option<Seq<char>>,
    show_favicon: bool,
)
    requires
        is_verdict_on(r, headers, socket_peer, show_favicon),
        declares_chunked(lines(headers@)),
    ensures
        r == Verdict::Reject(Status::NotImplemented),
{
}

/// A first `Content-Length` line whose value is a number above
/// [`MAX_BODY_SIZE`], however many digits it has, refuses the request with
/// 413 from the header block alone, before any body byte is read; unless the
/// block is chunked, which 501 answers first.
pub proof fn lemma_oversized_length_refused(
    r: Verdict,
    headers: &str,
    socket_peer: Option<Seq<char>>,
    show_favicon: bool,
    i: int,
)
    requires
        is_verdict_on(r, headers, socket_peer, show_favicon),
        !declares_chunked(lines(headers@)),
        0 <= i < lines(headers@).len(),
        is_length_line(lines(headers@)[i]),
        forall|j: int| 0 <= j < i ==> !is_length_line(#[trigger] lines(headers@)[j]),
        is_number(length_digits(lines(headers@)[i])),
        digits_value(length_digits(lines(headers@)[i])) > MAX_BODY_SIZE,
    ensures
        content_length_in(lines(headers@)) == Err::<usize, HeaderError>(HeaderError::BodyTooLarge),
        r == Verdict::Reject(Status::PayloadTooLarge),
{
    let ls = lines(headers@);
    lemma_first_length_line_decides(ls, i);
}

proof fn lemma_first_length_line_decides(ls: Seq<Seq<char>>, i: int)
    requires
        0 <= i < ls.len(),
        is_length_line(ls[i]),
        forall|j: int| 0 <= j < i ==> !is_length_line(#[trigger] ls[j]),
    ensures
        content_length_in(ls) == content_length_in(ls.skip(i)),
    decreases i,
{
    if i > 0 {
        assert(!is_length_line(ls[0]));
        let rest = ls.drop_first();
        assert forall|j: int| 0 <= j < i - 1 implies !is_length_line(#[trigger] rest[j]) by {
            assert(rest[j] == ls[j + 1]);
        }
        lemma_first_length_line_decides(rest, i - 1);
        assert(rest.skip(i - 1) =~= ls.skip(i));
    } else {
        assert(ls.skip(0) =~= ls);
    }
}

} // verus!
