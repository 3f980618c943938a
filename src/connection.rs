//! The per-connection read machines. The caller performs each read and hands
//! its outcome in as an event; these decide what the outcome means.
use vstd::prelude::*;
use vstd::utf8::{decode_utf8, valid_utf8};
use crate::request::MAX_BODY_SIZE;
use crate::response::{Reply, Status};

verus! {

/// Largest header block accepted, in bytes.
pub const MAX_HEADER_SIZE: usize = 8192;

/// Bytes asked for by each header read.
pub const HEADER_READ_LEN: usize = 512;

/// Bytes asked for at most by each body read.
pub const BODY_READ_LEN: usize = 4096;

/// Time allowed for the whole header block, in milliseconds.
pub const HEADER_DEADLINE_MS: u64 = 5000;

/// Time allowed for the whole body, in milliseconds.
pub const BODY_DEADLINE_MS: u64 = 5000;

/// The time allowed for reading a whole body, in milliseconds.
pub fn body_timeout_duration() -> (r: u64)
    ensures
        r == BODY_DEADLINE_MS,
{
    BODY_DEADLINE_MS
}

/// Time allowed for one socket read or write, in milliseconds.
pub const SOCKET_TIMEOUT_MS: u64 = 5000;

/// `\r\n\r\n` starts at `i` in `b`.
pub open spec fn terminator_at(b: Seq<u8>, i: int) -> bool {
    0 <= i && i + 4 <= b.len() && b[i] == 13u8 && b[i + 1] == 10u8 && b[i + 2] == 13u8 && b[i + 3]
        == 10u8
}

/// `b` holds the blank line that ends a header block.
pub open spec fn has_terminator(b: Seq<u8>) -> bool {
    exists|i: int| #[trigger] terminator_at(b, i)
}

/// What `String::from_utf8_lossy` makes of `b`.
pub uninterp spec fn lossy_text(b: Seq<u8>) -> Seq<char>;

/// Relies on `String::from_utf8_lossy`: each invalid sequence becomes U+FFFD,
/// and valid UTF-8 decodes as it stands.
#[verifier::external_body]
fn decode_lossy(b: &[u8]) -> (r: String)
    ensures
        r@ == lossy_text(b@),
        valid_utf8(b@) ==> r@ == decode_utf8(b@),
{
    String::from_utf8_lossy(b).into_owned()
}

/// What one attempt to read from the connection gave.
pub enum ReadEvent {
    /// These bytes arrived (none: the peer closed the connection).
    Data(Vec<u8>),
    /// The time allowed ran out before this read.
    DeadlinePassed,
}

/// Where reading the header block stands after an event.
#[derive(Clone, Copy, Debug, PartialEq, Eq, Structural)]
pub enum HeaderStep {
    /// No blank line yet: read again.
    NeedMore,
    /// The blank line arrived; the block is complete.
    Complete,
    /// The block would grow past [`MAX_HEADER_SIZE`].
    TooLarge,
    /// The header deadline passed.
    TimedOut,
    /// The peer closed the connection before the blank line.
    UnexpectedEof,
}

/// Where the first blank line of `b` starts.
pub open spec fn first_terminator(b: Seq<u8>) -> int {
    choose|i: int| terminator_at(b, i) && forall|k: int| 0 <= k < i ==> !terminator_at(b, k)
}

/// Where the header block within `b` ends: just after its first blank line.
pub open spec fn block_end(b: Seq<u8>) -> int {
    first_terminator(b) + 4
}

/// `b` holds a blank line that ends within [`MAX_HEADER_SIZE`] bytes.
pub open spec fn ends_within_limit(b: Seq<u8>) -> bool {
    has_terminator(b) && block_end(b) <= MAX_HEADER_SIZE
}

/// What taking in the bytes `d` does to a reader that holds `before`: the
/// step answered, the header bytes kept, and the bytes past the blank line.
pub open spec fn takes_data(
    before: Seq<u8>,
    d: Seq<u8>,
    r: HeaderStep,
    after: Seq<u8>,
    surplus: Seq<u8>,
) -> bool {
    let all = before + d;
    if d.len() == 0 {
        r == HeaderStep::UnexpectedEof && after == before && surplus.len() == 0
    } else if ends_within_limit(all) {
        &&& r == HeaderStep::Complete
        &&& after == all.take(block_end(all))
        &&& surplus == all.skip(block_end(all))
    } else if all.len() > MAX_HEADER_SIZE {
        r == HeaderStep::TooLarge && after == before && surplus.len() == 0
    } else {
        r == HeaderStep::NeedMore && after == all && surplus.len() == 0
    }
}

proof fn lemma_least_terminator(b: Seq<u8>, i: int)
    requires
        terminator_at(b, i),
    ensures
        exists|m: int|
            terminator_at(b, m) && forall|k: int| 0 <= k < m ==> !terminator_at(b, k),
    decreases i,
{
    if exists|k: int| 0 <= k < i && terminator_at(b, k) {
        let k = choose|k: int| 0 <= k < i && terminator_at(b, k);
        lemma_least_terminator(b, k);
    } else {
        assert(terminator_at(b, i) && forall|k: int| 0 <= k < i ==> !terminator_at(b, k));
    }
}

proof fn lemma_first_terminator_is(b: Seq<u8>, m: int)
    requires
        terminator_at(b, m),
        forall|k: int| 0 <= k < m ==> !terminator_at(b, k),
    ensures
        first_terminator(b) == m,
{
    let c = first_terminator(b);
    assert(terminator_at(b, c) && forall|k: int| 0 <= k < c ==> !terminator_at(b, k));
    if c < m {
        assert(!terminator_at(b, c));
    } else if m < c {
        assert(!terminator_at(b, m));
    }
}

/// Appends `src[lo..hi]` to `dst`.
fn push_range(dst: &mut Vec<u8>, src: &Vec<u8>, lo: usize, hi: usize)
    requires
        lo <= hi <= src.len(),
    ensures
        final(dst)@ == old(dst)@ + src@.subrange(lo as int, hi as int),
{
    let mut i = lo;
    while i < hi
        invariant
            lo <= i <= hi <= src.len(),
            dst@ == old(dst)@ + src@.subrange(lo as int, i as int),
        decreases hi - i,
    {
        dst.push(src[i]);
        assert(src@.subrange(lo as int, i + 1) =~= src@.subrange(lo as int, i as int).push(
            src@[i as int],
        ));
        i = i + 1;
    }
}

/// The byte at `j` of `a` followed by `b`.
fn byte_of(a: &Vec<u8>, b: &Vec<u8>, j: usize) -> (r: u8)
    requires
        j < a.len() + b.len(),
    ensures
        r == (a@ + b@)[j as int],
{
    if j < a.len() {
        a[j]
    } else {
        b[j - a.len()]
    }
}

/// With no blank line starting where one would end within `lim`, the first
/// blank line, if any, ends past `lim`; and with `lim` the whole length, there
/// is none.
proof fn lemma_no_block_within(b: Seq<u8>, lim: int)
    requires
        forall|k: int| 0 <= k && k + 4 <= lim ==> !#[trigger] terminator_at(b, k),
    ensures
        has_terminator(b) ==> block_end(b) > lim,
        lim == b.len() ==> !has_terminator(b),
{
    if has_terminator(b) {
        let w = choose|w: int| terminator_at(b, w);
        lemma_least_terminator(b, w);
        let m = choose|m: int|
            terminator_at(b, m) && forall|k: int| 0 <= k < m ==> !terminator_at(b, k);
        lemma_first_terminator_is(b, m);
    }
}

/// The first place at or after `start`, with room before `lim`, where the
/// bytes of `a` followed by `b` hold a blank line.
fn find_terminator(a: &Vec<u8>, b: &Vec<u8>, start: usize, lim: usize) -> (r: Option<usize>)
    requires
        lim <= MAX_HEADER_SIZE,
        lim <= a.len() + b.len(),
        start <= lim,
        forall|k: int| 0 <= k < start ==> !#[trigger] terminator_at(a@ + b@, k),
    ensures
        r matches Some(j) ==> terminator_at(a@ + b@, j as int) && j + 4 <= lim && forall|k: int|
            0 <= k < j ==> !#[trigger] terminator_at(a@ + b@, k),
        r is None ==> forall|k: int|
            0 <= k && k + 4 <= lim ==> !#[trigger] terminator_at(a@ + b@, k),
{
    let ghost all = a@ + b@;
    let mut j = start;
    while j + 4 <= lim
        invariant
            all == a@ + b@,
            lim <= MAX_HEADER_SIZE,
            lim <= a.len() + b.len(),
            j <= lim,
            forall|k: int| 0 <= k < j ==> !#[trigger] terminator_at(all, k),
        decreases lim - j,
    {
        if byte_of(a, b, j) == 13 && byte_of(a, b, j + 1) == 10 && byte_of(a, b, j + 2) == 13
            && byte_of(a, b, j + 3) == 10 {
            assert(terminator_at(all, j as int));
            return Some(j);
        }
        j = j + 1;
    }
    assert forall|k: int| 0 <= k && k + 4 <= lim implies !#[trigger] terminator_at(all, k) by {
        if k >= j {
            assert(k + 4 > lim);
        }
    }
    None
}

/// Accumulates a header block, bounded in size, until its blank line; what
/// the last read brought past the blank line is kept apart.
pub struct HeaderReader {
    buf: Vec<u8>,
    rest: Vec<u8>,
}

impl HeaderReader {
    /// The header bytes received so far: once complete, up to and including
    /// the blank line.
    pub closed spec fn bytes(&self) -> Seq<u8> {
        self.buf@
    }

    /// The bytes that arrived after the blank line, in the read that brought it.
    pub closed spec fn surplus(&self) -> Seq<u8> {
        self.rest@
    }

    /// Still reading: within bounds, no blank line yet, nothing past it.
    pub open spec fn reading(&self) -> bool {
        &&& self.bytes().len() <= MAX_HEADER_SIZE
        &&& !has_terminator(self.bytes())
        &&& self.surplus().len() == 0
    }

    /// A reader that has received nothing yet.
    pub fn new() -> (r: HeaderReader)
        ensures
            r.bytes() == Seq::<u8>::empty(),
            r.reading(),
    {
        HeaderReader { buf: Vec::new(), rest: Vec::new() }
    }

    /// Takes in the outcome of one read. The block is complete once a blank
    /// line ends within [`MAX_HEADER_SIZE`] bytes, and ends there; it is too
    /// large once more bytes than that arrived without one.
    pub fn step(&mut self, event: ReadEvent) -> (r: HeaderStep)
        requires
            old(self).reading(),
        ensures
            match event {
                ReadEvent::DeadlinePassed => r == HeaderStep::TimedOut && final(self).bytes() == old(
                    self,
                ).bytes() && final(self).surplus() == old(self).surplus(),
                ReadEvent::Data(d) => takes_data(
                    old(self).bytes(),
                    d@,
                    r,
                    final(self).bytes(),
                    final(self).surplus(),
                ),
            },
            r == HeaderStep::NeedMore ==> final(self).reading(),
    {
        match event {
            ReadEvent::DeadlinePassed => HeaderStep::TimedOut,
            ReadEvent::Data(d) => self.take(&d),
        }
    }

    /// Only the bytes that can start a blank line together with the new data
    /// are searched: the old ones held none.
    fn take(&mut self, d: &Vec<u8>) -> (r: HeaderStep)
        requires
            old(self).reading(),
        ensures
            takes_data(old(self).bytes(), d@, r, final(self).bytes(), final(self).surplus()),
            r == HeaderStep::NeedMore ==> final(self).reading(),
    {
        let n = d.len();
        if n == 0 {
            return HeaderStep::UnexpectedEof;
        }
        let ghost before = self.buf@;
        let ghost all = self.buf@ + d@;
        let blen = self.buf.len();
        let over = n > MAX_HEADER_SIZE - blen;
        let lim = if over {
            MAX_HEADER_SIZE
        } else {
            blen + n
        };
        let start = if blen >= 3 {
            blen - 3
        } else {
            0
        };
        proof {
            assert forall|k: int| 0 <= k < start implies !#[trigger] terminator_at(all, k) by {
                if terminator_at(all, k) {
                    assert(terminator_at(before, k));
                }
            }
        }
        match find_terminator(&self.buf, d, start, lim) {
            Some(j) => {
                proof {
                    lemma_first_terminator_is(all, j as int);
                    if j + 4 <= blen {
                        assert(terminator_at(before, j as int));
                    }
                }
                let cut = j + 4 - blen;
                push_range(&mut self.buf, d, 0, cut);
                push_range(&mut self.rest, d, cut, n);
                assert(self.buf@ =~= all.take(j + 4));
                assert(self.rest@ =~= all.skip(j + 4));
                HeaderStep::Complete
            },
            None => {
                proof {
                    lemma_no_block_within(all, lim as int);
                }
                if over {
                    return HeaderStep::TooLarge;
                }
                push_range(&mut self.buf, d, 0, n);
                assert(self.buf@ =~= all);
                HeaderStep::NeedMore
            },
        }
    }

    /// How many bytes arrived after the blank line.
    pub fn surplus_len(&self) -> (r: usize)
        ensures
            r == self.surplus().len(),
    {
        self.rest.len()
    }

    /// The header block as text, invalid UTF-8 replaced.
    pub fn text(&self) -> (r: String)
        ensures
            r@ == lossy_text(self.bytes()),
            valid_utf8(self.bytes()) ==> r@ == decode_utf8(self.bytes()),
    {
        decode_lossy(self.buf.as_slice())
    }
}

impl HeaderStep {
    /// The reply that ends a header read that failed; none where the peer is
    /// gone or the block is complete or still arriving.
    pub fn reply(&self) -> (r: Option<Reply>)
        ensures
            r == match *self {
                HeaderStep::TooLarge => Some(Reply::Bare(Status::HeaderFieldsTooLarge)),
                HeaderStep::TimedOut => Some(Reply::Bare(Status::RequestTimeout)),
                _ => None::<Reply>,
            },
    {
        match self {
            HeaderStep::TooLarge => Some(Reply::Bare(Status::HeaderFieldsTooLarge)),
            HeaderStep::TimedOut => Some(Reply::Bare(Status::RequestTimeout)),
            _ => None,
        }
    }
}

/// Where draining a body stands after an event.
#[derive(Clone, Copy, Debug, PartialEq, Eq, Structural)]
pub enum BodyStep {
    /// Bytes remain: read again.
    NeedMore,
    /// The whole declared body has been read.
    Done,
    /// The body deadline passed.
    TimedOut,
    /// The peer closed the connection before the whole body arrived.
    UnexpectedEof,
}

/// Reads and drops a declared body of known length.
pub struct BodyDrain {
    remaining: usize,
}

impl BodyDrain {
    /// Bytes of the body still to read.
    pub closed spec fn left(&self) -> nat {
        self.remaining as nat
    }

    /// Starts draining a body of `length` bytes of which `received` came
    /// already, along with the header block; a length over [`MAX_BODY_SIZE`]
    /// is refused.
    pub fn new(length: usize, received: usize) -> (r: Result<BodyDrain, Status>)
        ensures
            length > MAX_BODY_SIZE ==> r == Err::<BodyDrain, Status>(Status::PayloadTooLarge),
            length <= MAX_BODY_SIZE ==> r is Ok && r->Ok_0.left() == if received >= length {
                0
            } else {
                length - received
            },
    {
        if length > MAX_BODY_SIZE {
            Err(Status::PayloadTooLarge)
        } else if received >= length {
            Ok(BodyDrain { remaining: 0 })
        } else {
            Ok(BodyDrain { remaining: length - received })
        }
    }

    /// Whether the whole body has been read.
    pub fn is_done(&self) -> (r: bool)
        ensures
            r == (self.left() == 0),
    {
        self.remaining == 0
    }

    /// How many bytes the next read may ask for.
    pub fn next_read_len(&self) -> (r: usize)
        ensures
            r == if self.left() < BODY_READ_LEN {
                self.left()
            } else {
                BODY_READ_LEN as nat
            },
    {
        if self.remaining < BODY_READ_LEN {
            self.remaining
        } else {
            BODY_READ_LEN
        }
    }

    /// Takes in the outcome of one read of at most [`Self::next_read_len`] bytes.
    pub fn step(&mut self, event: ReadEvent) -> (r: BodyStep)
        requires
            old(self).left() > 0,
            event matches ReadEvent::Data(d) ==> d@.len() <= old(self).left(),
        ensures
            match event {
                ReadEvent::DeadlinePassed => r == BodyStep::TimedOut && final(self).left() == old(
                    self,
                ).left(),
                ReadEvent::Data(d) => if d@.len() == 0 {
                    r == BodyStep::UnexpectedEof && final(self).left() == old(self).left()
                } else {
                    &&& final(self).left() == old(self).left() - d@.len()
                    &&& r == (if final(self).left() == 0 {
                        BodyStep::Done
                    } else {
                        BodyStep::NeedMore
                    })
                },
            },
    {
        match event {
            ReadEvent::DeadlinePassed => BodyStep::TimedOut,
            ReadEvent::Data(d) => {
                if d.len() == 0 {
                    BodyStep::UnexpectedEof
                } else {
                    self.remaining = self.remaining - d.len();
                    if self.remaining == 0 {
                        BodyStep::Done
                    } else {
                        BodyStep::NeedMore
                    }
                }
            },
        }
    }
}

impl BodyStep {
    /// The reply once draining has ended: 404 after the whole body, 408 on
    /// the deadline, none where the peer is gone.
    pub fn reply(&self) -> (r: Option<Reply>)
        ensures
            r == match *self {
                BodyStep::Done => Some(Reply::Bare(Status::NotFound)),
                BodyStep::TimedOut => Some(Reply::Bare(Status::RequestTimeout)),
                _ => None::<Reply>,
            },
    {
        match self {
            BodyStep::Done => Some(Reply::Bare(Status::NotFound)),
            BodyStep::TimedOut => Some(Reply::Bare(Status::RequestTimeout)),
            _ => None,
        }
    }
}

} // verus!
