//! Character-level helpers over `str` contents, stated on `Seq<char>`.
use vstd::prelude::*;
use vstd::string::StringExecFns;

verus! {

broadcast use vstd::string::group_string_axioms;

/// Unicode `White_Space`, the set that `char::is_whitespace` and `str::trim` go by.
pub open spec fn is_white_space(c: char) -> bool {
    let u = c as u32;
    (0x9 <= u && u <= 0xd) || u == 0x20 || u == 0x85 || u == 0xa0 || u == 0x1680 || (0x2000 <= u
        && u <= 0x200a) || u == 0x2028 || u == 0x2029 || u == 0x202f || u == 0x205f || u == 0x3000
}

/// Unicode general category `Cc`, the set that `char::is_control` goes by.
pub open spec fn is_control(c: char) -> bool {
    let u = c as u32;
    u <= 0x1f || (0x7f <= u && u <= 0x9f)
}

/// `c` equals the lower-case ASCII character `t` once `c` is lower-cased as ASCII.
pub open spec fn folds_to(c: char, t: char) -> bool {
    c == t || (0x61 <= (t as u32) && (t as u32) <= 0x7a && (c as u32) == (t as u32) - 32)
}

/// `pat` occurs in `s` at position `i`, ignoring ASCII case (`pat` is lower case).
pub open spec fn folded_match_at(s: Seq<char>, i: int, pat: Seq<char>) -> bool {
    0 <= i && i + pat.len() <= s.len() && forall|k: int|
        0 <= k < pat.len() ==> #[trigger] folds_to(s[i + k], pat[k])
}

/// `s` starts with `pat`, ignoring ASCII case.
pub open spec fn folded_starts_with(s: Seq<char>, pat: Seq<char>) -> bool {
    folded_match_at(s, 0, pat)
}

/// `pat` occurs somewhere in `s`, ignoring ASCII case.
pub open spec fn folded_contains(s: Seq<char>, pat: Seq<char>) -> bool {
    exists|i: int| folded_match_at(s, i, pat)
}

/// Position of the first `c` in `s`, or `s.len()` when there is none.
pub open spec fn index_of(s: Seq<char>, c: char) -> nat
    decreases s.len(),
{
    if s.len() == 0 {
        0
    } else if s[0] == c {
        0
    } else {
        1 + index_of(s.drop_first(), c)
    }
}

/// `s` without its leading white space.
pub open spec fn trim_start(s: Seq<char>) -> Seq<char>
    decreases s.len(),
{
    if s.len() > 0 && is_white_space(s[0]) {
        trim_start(s.drop_first())
    } else {
        s
    }
}

/// `s` without its trailing white space.
pub open spec fn trim_end(s: Seq<char>) -> Seq<char>
    decreases s.len(),
{
    if s.len() > 0 && is_white_space(s.last()) {
        trim_end(s.drop_last())
    } else {
        s
    }
}

/// `s` without white space at either end.
pub open spec fn trim(s: Seq<char>) -> Seq<char> {
    trim_end(trim_start(s))
}

/// A line as `str::lines` yields it: one `\r` before the `\n` is dropped.
pub open spec fn strip_cr(l: Seq<char>) -> Seq<char> {
    if l.len() > 0 && l.last() == '\r' {
        l.drop_last()
    } else {
        l
    }
}

/// The lines of `s`, split as `str::lines` does: at each `\n`, with a final
/// line only where text follows the last `\n`.
pub open spec fn lines(s: Seq<char>) -> Seq<Seq<char>>
    decreases s.len(),
{
    if s.len() == 0 {
        Seq::empty()
    } else {
        let k = index_of(s, '\n');
        if k < s.len() {
            seq![strip_cr(s.take(k as int))] + lines(s.skip(k + 1 as int))
        } else {
            seq![s]
        }
    }
}

/// The first line of `s`, or nothing when `s` has no lines.
pub open spec fn first_line(s: Seq<char>) -> Seq<char> {
    if lines(s).len() > 0 {
        lines(s)[0]
    } else {
        Seq::empty()
    }
}

/// An ASCII decimal digit.
pub open spec fn is_digit(c: char) -> bool {
    0x30 <= (c as u32) && (c as u32) <= 0x39
}

/// The value of the ASCII digit `c`.
pub open spec fn digit_value(c: char) -> nat {
    ((c as u32) - 0x30) as nat
}

/// Every character of `s` is an ASCII digit.
pub open spec fn all_digits(s: Seq<char>) -> bool {
    forall|i: int| 0 <= i < s.len() ==> #[trigger] is_digit(s[i])
}

/// The number that the decimal digits `s` write.
pub open spec fn digits_value(s: Seq<char>) -> nat
    decreases s.len(),
{
    if s.len() == 0 {
        0
    } else {
        digits_value(s.drop_last()) * 10 + digit_value(s.last())
    }
}

/// What `str::parse::<usize>` accepts: an optional `+`, then one or more ASCII
/// digits whose value fits in `usize`.
pub open spec fn parse_usize(s: Seq<char>) -> Option<usize> {
    let d = unsigned_digits(s);
    if d.len() > 0 && all_digits(d) && digits_value(d) <= usize::MAX {
        Some(digits_value(d) as usize)
    } else {
        None
    }
}

/// `s` without one leading `+`.
pub open spec fn unsigned_digits(s: Seq<char>) -> Seq<char> {
    if s.len() > 0 && s[0] == '+' {
        s.drop_first()
    } else {
        s
    }
}

/// The ASCII digit for `d` below ten.
pub open spec fn digit_char(d: nat) -> char {
    ((d + 0x30) as u8) as char
}

/// `n` in decimal, as `usize`'s `Display` writes it.
pub open spec fn decimal(n: nat) -> Seq<char>
    decreases n,
{
    if n < 10 {
        seq![digit_char(n)]
    } else {
        decimal(n / 10) + seq![digit_char(n % 10)]
    }
}

/// A character as it may stand in a log line: control characters and `"` become `?`.
pub open spec fn sanitize_char(c: char) -> char {
    if is_control(c) || c == '"' {
        '?'
    } else {
        c
    }
}

/// `s` with each character sanitized.
pub open spec fn sanitized(s: Seq<char>) -> Seq<char> {
    s.map_values(|c: char| sanitize_char(c))
}

/// The first occurrence found by a scan is `index_of`.
pub proof fn lemma_index_of_found(s: Seq<char>, c: char, k: int)
    requires
        0 <= k < s.len(),
        s[k] == c,
        forall|j: int| 0 <= j < k ==> s[j] != c,
    ensures
        index_of(s, c) == k,
    decreases k,
{
    if k > 0 {
        lemma_index_of_found(s.drop_first(), c, k - 1);
    }
}

/// With no occurrence, `index_of` is the length.
pub proof fn lemma_index_of_absent(s: Seq<char>, c: char)
    requires
        forall|j: int| 0 <= j < s.len() ==> s[j] != c,
    ensures
        index_of(s, c) == s.len(),
    decreases s.len(),
{
    if s.len() > 0 {
        lemma_index_of_absent(s.drop_first(), c);
    }
}

/// `index_of` is within bounds, points at `c` when below the length, and
/// nothing before it is `c`.
pub proof fn lemma_index_of_facts(s: Seq<char>, c: char)
    ensures
        index_of(s, c) <= s.len(),
        index_of(s, c) < s.len() ==> s[index_of(s, c) as int] == c,
        forall|j: int| 0 <= j < index_of(s, c) ==> s[j] != c,
    decreases s.len(),
{
    if s.len() > 0 && s[0] != c {
        lemma_index_of_facts(s.drop_first(), c);
        assert forall|j: int| 0 <= j < index_of(s, c) implies s[j] != c by {
            if j > 0 {
                assert(s[j] == s.drop_first()[j - 1]);
            }
        }
    }
}

proof fn lemma_digits_value_prefix(s: Seq<char>, k: int)
    requires
        0 <= k <= s.len(),
    ensures
        digits_value(s.take(k)) <= digits_value(s),
    decreases s.len() - k,
{
    if k < s.len() {
        lemma_digits_value_prefix(s, k + 1);
        assert(s.take(k + 1).drop_last() =~= s.take(k));
        let x = digits_value(s.take(k));
        assert(x * 10 + digit_value(s[k]) >= x) by (nonlinear_arith);
    } else {
        assert(s.take(k) =~= s);
    }
}

/// Relies on `String::push`: appends one character to the string.
#[verifier::external_body]
fn push_char(s: &mut String, c: char)
    ensures
        final(s)@ == old(s)@.push(c),
{
    s.push(c)
}

/// The characters of `s`, in order.
pub fn chars_of(s: &str) -> (r: Vec<char>)
    ensures
        r@ == s@,
{
    let mut r: Vec<char> = Vec::new();
    for c in it: s.chars()
        invariant
            it.seq() == s@,
            r@ == it.seq().take(it.index() as int),
    {
        r.push(c);
    }
    r
}

/// A string holding the characters `v[lo..hi]`.
pub fn string_of(v: &Vec<char>, lo: usize, hi: usize) -> (r: String)
    requires
        lo <= hi <= v.len(),
    ensures
        r@ == v@.subrange(lo as int, hi as int),
{
    let mut r = String::new();
    let mut i = lo;
    while i < hi
        invariant
            lo <= i <= hi <= v.len(),
            r@ == v@.subrange(lo as int, i as int),
        decreases hi - i,
    {
        push_char(&mut r, v[i]);
        assert(v@.subrange(lo as int, i + 1) =~= v@.subrange(lo as int, i as int).push(v@[i as int]));
        i = i + 1;
    }
    r
}

/// Whether `c` is Unicode white space.
pub fn is_white_space_char(c: char) -> (r: bool)
    ensures
        r == is_white_space(c),
{
    let u = c as u32;
    (0x9 <= u && u <= 0xd) || u == 0x20 || u == 0x85 || u == 0xa0 || u == 0x1680 || (0x2000 <= u
        && u <= 0x200a) || u == 0x2028 || u == 0x2029 || u == 0x202f || u == 0x205f || u == 0x3000
}

/// Whether `v[lo..hi]` holds exactly the characters of `lit`.
pub fn equals_str(v: &Vec<char>, lo: usize, hi: usize, lit: &str) -> (r: bool)
    requires
        lo <= hi <= v.len(),
    ensures
        r == (v@.subrange(lo as int, hi as int) == lit@),
{
    let w = chars_of(lit);
    if hi - lo != w.len() {
        return false;
    }
    let mut k: usize = 0;
    while k < w.len()
        invariant
            lo <= hi <= v.len(),
            hi - lo == w.len(),
            w@ == lit@,
            k <= w.len(),
            forall|j: int| 0 <= j < k ==> v@[lo + j] == w@[j],
        decreases w.len() - k,
    {
        if v[lo + k] != w[k] {
            assert(v@.subrange(lo as int, hi as int)[k as int] != lit@[k as int]);
            return false;
        }
        k = k + 1;
    }
    assert(v@.subrange(lo as int, hi as int) =~= lit@);
    true
}

/// Whether `v` holds exactly the characters of `lit`.
pub fn chars_equal(v: &Vec<char>, lit: &str) -> (r: bool)
    ensures
        r == (v@ == lit@),
{
    assert(v@.subrange(0, v@.len() as int) =~= v@);
    equals_str(v, 0, v.len(), lit)
}

/// Whether `pat` (lower case) occurs in `v[lo..hi]` at `i`, ignoring ASCII case.
fn folded_match_at_exec(v: &Vec<char>, lo: usize, hi: usize, i: usize, pat: &Vec<char>) -> (r:
    bool)
    requires
        lo <= i <= hi <= v.len(),
    ensures
        r == folded_match_at(v@.subrange(lo as int, hi as int), i - lo, pat@),
{
    if hi - i < pat.len() {
        return false;
    }
    let ghost s = v@.subrange(lo as int, hi as int);
    let mut k: usize = 0;
    while k < pat.len()
        invariant
            lo <= i <= hi <= v.len(),
            s == v@.subrange(lo as int, hi as int),
            i + pat.len() <= hi,
            k <= pat.len(),
            forall|j: int| 0 <= j < k ==> #[trigger] folds_to(s[i - lo + j], pat@[j]),
        decreases pat.len() - k,
    {
        let c = v[i + k];
        let t = pat[k];
        let ok = c == t || (0x61 <= (t as u32) && (t as u32) <= 0x7a && (c as u32) == (t as u32)
            - 32);
        assert(s[i - lo + k] == c);
        if !ok {
            assert(!folds_to(s[i - lo + k], pat@[k as int]));
            return false;
        }
        k = k + 1;
    }
    true
}

/// Whether `v[lo..hi]` starts with `pat` (lower case), ignoring ASCII case.
pub fn folded_starts_with_exec(v: &Vec<char>, lo: usize, hi: usize, pat: &str) -> (r: bool)
    requires
        lo <= hi <= v.len(),
    ensures
        r == folded_starts_with(v@.subrange(lo as int, hi as int), pat@),
{
    let p = chars_of(pat);
    folded_match_at_exec(v, lo, hi, lo, &p)
}

/// Whether `pat` (lower case) occurs in `v[lo..hi]`, ignoring ASCII case.
pub fn folded_contains_exec(v: &Vec<char>, lo: usize, hi: usize, pat: &str) -> (r: bool)
    requires
        lo <= hi <= v.len(),
    ensures
        r == folded_contains(v@.subrange(lo as int, hi as int), pat@),
{
    let p = chars_of(pat);
    let ghost s = v@.subrange(lo as int, hi as int);
    if p.len() > hi - lo {
        return false;
    }
    let last = hi - p.len();
    let mut i = lo;
    loop
        invariant
            lo <= i <= last,
            last + p.len() == hi,
            hi <= v.len(),
            p@ == pat@,
            s == v@.subrange(lo as int, hi as int),
            forall|j: int| 0 <= j < i - lo ==> !folded_match_at(s, j, pat@),
        ensures
            forall|j: int| 0 <= j <= last - lo ==> !folded_match_at(s, j, pat@),
        decreases last - i,
    {
        if folded_match_at_exec(v, lo, hi, i, &p) {
            return true;
        }
        if i == last {
            break;
        }
        i = i + 1;
    }
    assert forall|j: int| !folded_match_at(s, j, pat@) by {
        if 0 <= j && j + pat@.len() <= s.len() {
            assert(j <= last - lo);
        }
    }
    false
}

/// Position of the first `c` in `v[lo..hi]`, relative to `lo`, or `hi - lo`.
pub fn find_char(v: &Vec<char>, lo: usize, hi: usize, c: char) -> (r: usize)
    requires
        lo <= hi <= v.len(),
    ensures
        r == index_of(v@.subrange(lo as int, hi as int), c),
        r <= hi - lo,
{
    let ghost s = v@.subrange(lo as int, hi as int);
    let mut i = lo;
    while i < hi
        invariant
            lo <= i <= hi <= v.len(),
            s == v@.subrange(lo as int, hi as int),
            forall|j: int| 0 <= j < i - lo ==> s[j] != c,
        decreases hi - i,
    {
        if v[i] == c {
            proof {
                lemma_index_of_found(s, c, i - lo);
            }
            return i - lo;
        }
        i = i + 1;
    }
    proof {
        lemma_index_of_absent(s, c);
    }
    hi - lo
}

/// Start bound `a` such that `v[a..hi]` is `v[lo..hi]` without its leading white space.
pub fn trim_start_range(v: &Vec<char>, lo: usize, hi: usize) -> (r: usize)
    requires
        lo <= hi <= v.len(),
    ensures
        lo <= r <= hi,
        v@.subrange(r as int, hi as int) == trim_start(v@.subrange(lo as int, hi as int)),
{
    let mut i = lo;
    while i < hi && is_white_space_char(v[i])
        invariant
            lo <= i <= hi <= v.len(),
            trim_start(v@.subrange(i as int, hi as int)) == trim_start(
                v@.subrange(lo as int, hi as int),
            ),
        decreases hi - i,
    {
        assert(v@.subrange(i as int, hi as int).drop_first() =~= v@.subrange(i + 1, hi as int));
        i = i + 1;
    }
    i
}

/// End bound `b` such that `v[lo..b]` is `v[lo..hi]` without its trailing white space.
pub fn trim_end_range(v: &Vec<char>, lo: usize, hi: usize) -> (r: usize)
    requires
        lo <= hi <= v.len(),
    ensures
        lo <= r <= hi,
        v@.subrange(lo as int, r as int) == trim_end(v@.subrange(lo as int, hi as int)),
{
    let mut i = hi;
    while i > lo && is_white_space_char(v[i - 1])
        invariant
            lo <= i <= hi <= v.len(),
            trim_end(v@.subrange(lo as int, i as int)) == trim_end(
                v@.subrange(lo as int, hi as int),
            ),
        decreases i - lo,
    {
        assert(v@.subrange(lo as int, i as int).drop_last() =~= v@.subrange(lo as int, i - 1));
        i = i - 1;
    }
    i
}

/// The lines of `s`, as `str::lines` yields them.
pub fn split_lines(s: &str) -> (r: Vec<Vec<char>>)
    ensures
        r.len() == lines(s@).len(),
        forall|i: int| 0 <= i < r.len() ==> #[trigger] r[i]@ == lines(s@)[i],
{
    let v = chars_of(s);
    let mut r: Vec<Vec<char>> = Vec::new();
    let mut start: usize = 0;
    assert(v@.skip(0) =~= s@);
    while start < v.len()
        invariant
            v@ == s@,
            start <= v.len(),
            r.len() + lines(v@.skip(start as int)).len() == lines(s@).len(),
            forall|i: int| 0 <= i < r.len() ==> #[trigger] r[i]@ == lines(s@)[i],
            forall|i: int|
                0 <= i < lines(v@.skip(start as int)).len() ==> #[trigger] lines(
                    v@.skip(start as int),
                )[i] == lines(s@)[r.len() + i],
        decreases v.len() - start,
    {
        let ghost rest = v@.skip(start as int);
        let k = find_char(&v, start, v.len(), '\n');
        assert(v@.subrange(start as int, v.len() as int) =~= rest);
        proof {
            lemma_index_of_facts(rest, '\n');
        }
        let mut end = start + k;
        if k < v.len() - start {
            if end > start && v[end - 1] == '\r' {
                end = end - 1;
            }
            let line = copy_range(&v, start, end);
            assert(line@ =~= strip_cr(rest.take(k as int)));
            assert(rest.skip(k + 1) =~= v@.skip(start + k + 1));
            assert(lines(rest) == seq![strip_cr(rest.take(k as int))] + lines(rest.skip(k + 1)));
            assert(lines(rest)[0] == line@);
            let ghost rest2 = v@.skip(start + k + 1);
            assert forall|i: int| 0 <= i < lines(rest2).len() implies #[trigger] lines(rest2)[i]
                == lines(s@)[r.len() + 1 + i] by {
                assert(lines(rest2)[i] == lines(rest)[i + 1]);
            }
            assert(lines(s@)[r.len() as int] == line@);
            r.push(line);
            start = start + k + 1;
        } else {
            let line = copy_range(&v, start, v.len());
            assert(line@ =~= rest);
            assert(lines(rest) == seq![rest]);
            assert(lines(rest)[0] == line@);
            assert(lines(s@)[r.len() as int] == line@);
            r.push(line);
            start = v.len();
            assert(v@.skip(start as int) =~= Seq::<char>::empty());
        }
    }
    r
}

/// A copy of `v[lo..hi]`.
pub fn copy_range(v: &Vec<char>, lo: usize, hi: usize) -> (r: Vec<char>)
    requires
        lo <= hi <= v.len(),
    ensures
        r@ == v@.subrange(lo as int, hi as int),
{
    let mut r: Vec<char> = Vec::new();
    let mut i = lo;
    while i < hi
        invariant
            lo <= i <= hi <= v.len(),
            r@ == v@.subrange(lo as int, i as int),
        decreases hi - i,
    {
        r.push(v[i]);
        assert(v@.subrange(lo as int, i + 1) =~= v@.subrange(lo as int, i as int).push(v@[i as int]));
        i = i + 1;
    }
    r
}

/// `v[lo..hi]` read as `str::parse::<usize>` reads it.
pub fn parse_usize_range(v: &Vec<char>, lo: usize, hi: usize) -> (r: Option<usize>)
    requires
        lo <= hi <= v.len(),
    ensures
        r == parse_usize(v@.subrange(lo as int, hi as int)),
{
    let ghost s = v@.subrange(lo as int, hi as int);
    let mut start = lo;
    if lo < hi && v[lo] == '+' {
        start = lo + 1;
    }
    let ghost d = v@.subrange(start as int, hi as int);
    assert(d =~= unsigned_digits(s));
    if start == hi {
        return None;
    }
    let mut value: usize = 0;
    let mut i = start;
    while i < hi
        invariant
            lo <= start < hi <= v.len(),
            start <= i <= hi,
            s == v@.subrange(lo as int, hi as int),
            d == unsigned_digits(s),
            d == v@.subrange(start as int, hi as int),
            all_digits(d.take(i - start)),
            value == digits_value(d.take(i - start)),
        decreases hi - i,
    {
        let c = v[i];
        let ghost k = i - start;
        assert(d[k] == c);
        assert(d.take(k + 1).drop_last() =~= d.take(k));
        if !((c as u32) >= 0x30 && (c as u32) <= 0x39) {
            assert(!is_digit(d[k]));
            return None;
        }
        let digit = ((c as u32) - 0x30) as usize;
        assert(digits_value(d.take(k + 1)) == value * 10 + digit);
        if value > (usize::MAX - digit) / 10 {
            assert(value * 10 + digit > usize::MAX) by (nonlinear_arith)
                requires
                    value > (usize::MAX - digit) / 10,
                    digit <= 9,
            ;
            proof {
                lemma_digits_value_prefix(d, k + 1);
            }
            return None;
        }
        assert(value * 10 + digit <= usize::MAX) by (nonlinear_arith)
            requires
                value <= (usize::MAX - digit) / 10,
                digit <= 9,
        ;
        value = value * 10 + digit;
        i = i + 1;
    }
    assert(d.take(hi - start) =~= d);
    Some(value)
}

/// One or more ASCII digits.
pub open spec fn is_number(d: Seq<char>) -> bool {
    d.len() > 0 && all_digits(d)
}

/// The value of `v[lo..hi]`, an optional `+` and then digits, with any value
/// above `cap` read as `cap + 1`; none where it is not such a number.
pub fn parse_capped_range(v: &Vec<char>, lo: usize, hi: usize, cap: usize) -> (r: Option<usize>)
    requires
        lo <= hi <= v.len(),
        cap <= 100_000_000,
    ensures
        r == if is_number(unsigned_digits(v@.subrange(lo as int, hi as int))) {
            Some(
                if digits_value(unsigned_digits(v@.subrange(lo as int, hi as int))) > cap {
                    (cap + 1) as usize
                } else {
                    digits_value(unsigned_digits(v@.subrange(lo as int, hi as int))) as usize
                },
            )
        } else {
            None::<usize>
        },
{
    let ghost s = v@.subrange(lo as int, hi as int);
    let mut start = lo;
    if lo < hi && v[lo] == '+' {
        start = lo + 1;
    }
    let ghost d = v@.subrange(start as int, hi as int);
    assert(d =~= unsigned_digits(s));
    if start == hi {
        return None;
    }
    let mut value: usize = 0;
    let mut i = start;
    while i < hi
        invariant
            lo <= start < hi <= v.len(),
            start <= i <= hi,
            cap <= 100_000_000,
            s == v@.subrange(lo as int, hi as int),
            d == unsigned_digits(s),
            d == v@.subrange(start as int, hi as int),
            all_digits(d.take(i - start)),
            value == if digits_value(d.take(i - start)) > cap {
                cap + 1
            } else {
                digits_value(d.take(i - start)) as int
            },
        decreases hi - i,
    {
        let c = v[i];
        let ghost k = i - start;
        assert(d[k] == c);
        assert(d.take(k + 1).drop_last() =~= d.take(k));
        if !((c as u32) >= 0x30 && (c as u32) <= 0x39) {
            assert(!is_digit(d[k]));
            return None;
        }
        let digit = ((c as u32) - 0x30) as usize;
        let ghost before = digits_value(d.take(k));
        assert(digits_value(d.take(k + 1)) == before * 10 + digit);
        if value > cap {
            assert(before * 10 + digit >= before) by (nonlinear_arith);
        } else {
            assert(value * 10 + digit <= 1_000_000_009) by (nonlinear_arith)
                requires
                    value <= 100_000_000,
                    digit <= 9,
            ;
            value = value * 10 + digit;
            if value > cap {
                value = cap + 1;
            }
        }
        i = i + 1;
    }
    assert(d.take(hi - start) =~= d);
    Some(value)
}

/// Appends the decimal digits of `n` to `out`.
pub fn push_decimal(out: &mut Vec<char>, n: usize)
    ensures
        final(out)@ == old(out)@ + decimal(n as nat),
    decreases n,
{
    if n >= 10 {
        push_decimal(out, n / 10);
    }
    let d = (n % 10) as u8;
    out.push((d + 0x30) as char);
    assert(n < 10 ==> n % 10 == n);
}

/// `input` with every control character and `"` replaced by `?`.
pub fn sanitize(input: &str) -> (r: String)
    ensures
        r@ == sanitized(input@),
{
    let v = chars_of(input);
    assert(v@.subrange(0, v.len() as int) =~= input@);
    sanitize_range(&v, 0, v.len())
}

/// `v[lo..hi]` with every control character and `"` replaced by `?`.
pub fn sanitize_range(v: &Vec<char>, lo: usize, hi: usize) -> (r: String)
    requires
        lo <= hi <= v.len(),
    ensures
        r@ == sanitized(v@.subrange(lo as int, hi as int)),
{
    let mut r = String::new();
    let mut i: usize = lo;
    while i < hi
        invariant
            lo <= i <= hi <= v.len(),
            r@ == sanitized(v@.subrange(lo as int, i as int)),
        decreases hi - i,
    {
        let c = v[i];
        let u = c as u32;
        let d = if u <= 0x1f || (0x7f <= u && u <= 0x9f) || c == '"' {
            '?'
        } else {
            c
        };
        assert(sanitized(v@.subrange(lo as int, i + 1)) =~= sanitized(
            v@.subrange(lo as int, i as int),
        ).push(sanitize_char(c)));
        push_char(&mut r, d);
        i = i + 1;
    }
    r
}

/// Appends the characters of `s` to `out`.
pub fn append_str(out: &mut String, s: &str)
    ensures
        final(out)@ == old(out)@ + s@,
{
    out.append(s);
}

} // verus!
