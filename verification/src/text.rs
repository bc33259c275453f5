//! Byte-level vocabulary shared by the readers and the tokenizer.
//!
//! History files are byte streams that need not be valid text, so everything
//! here works on `&[u8]` and is specified over `Seq<u8>`.

use bstr::ByteSlice;
use vstd::prelude::*;
use vstd::utf8::valid_utf8;

verus! {

/// ASCII whitespace: space, tab, line feed, form feed and carriage return.
pub open spec fn is_space(b: u8) -> bool {
    b == 0x20 || b == 0x09 || b == 0x0a || b == 0x0c || b == 0x0d
}

/// Whether the byte is ASCII whitespace.
pub fn byte_is_space(b: u8) -> (r: bool)
    ensures
        r == is_space(b),
{
    b == 0x20 || b == 0x09 || b == 0x0a || b == 0x0c || b == 0x0d
}

/// Index of the first `b` in `s`, or `s.len()` when `s` holds none.
pub open spec fn position(s: Seq<u8>, b: u8) -> int
    decreases s.len(),
{
    if s.len() == 0 || s[0] == b {
        0
    } else {
        1 + position(s.drop_first(), b)
    }
}

/// `position` is the least index that holds `b`.
pub proof fn lemma_position(s: Seq<u8>, b: u8)
    ensures
        0 <= position(s, b) <= s.len(),
        forall|j: int| 0 <= j < position(s, b) ==> s[j] != b,
        position(s, b) < s.len() ==> s[position(s, b)] == b,
    decreases s.len(),
{
    if s.len() == 0 || s[0] == b {
    } else {
        let t = s.drop_first();
        lemma_position(t, b);
        assert forall|j: int| 0 <= j < position(s, b) implies s[j] != b by {
            if j > 0 {
                assert(s[j] == t[j - 1]);
            }
        }
        if position(s, b) < s.len() {
            assert(s[position(s, b)] == t[position(t, b)]);
        }
    }
}

/// Any index with the properties of `position` is `position`.
pub proof fn lemma_position_is(s: Seq<u8>, b: u8, i: int)
    requires
        0 <= i <= s.len(),
        forall|j: int| 0 <= j < i ==> s[j] != b,
        i < s.len() ==> s[i] == b,
    ensures
        position(s, b) == i,
{
    lemma_position(s, b);
    let p = position(s, b);
    if p < i {
        assert(s[p] == b);
    } else if i < p {
        assert(s[i] == b);
    }
}

/// Whether `b` occurs in `s`.
pub open spec fn has_byte(s: Seq<u8>, b: u8) -> bool {
    position(s, b) < s.len()
}

/// `bstr::ByteSlice::find_byte`: the index of the first occurrence of `b`,
/// or `None` when `b` does not occur.
#[verifier::external_body]
fn first_occurrence(s: &[u8], b: u8) -> (r: Option<usize>)
    ensures
        r is Some ==> r->0 < s@.len() && s@[r->0 as int] == b,
        r is Some ==> forall|j: int| 0 <= j < r->0 ==> s@[j] != b,
        r is None ==> forall|j: int| 0 <= j < s@.len() ==> s@[j] != b,
{
    s.find_byte(b)
}

/// The index of the first `b` in `s`, if any.
pub fn find_byte(s: &[u8], b: u8) -> (r: Option<usize>)
    ensures
        r == (if has_byte(s@, b) {
            Some(position(s@, b) as usize)
        } else {
            None
        }),
{
    let r = first_occurrence(s, b);
    proof {
        match r {
            Some(i) => {
                lemma_position_is(s@, b, i as int);
            },
            None => {
                lemma_position_is(s@, b, s@.len() as int);
            },
        }
    }
    r
}

/// Whether `b` occurs in `s`.
pub fn contains_byte(s: &[u8], b: u8) -> (r: bool)
    ensures
        r == has_byte(s@, b),
{
    find_byte(s, b).is_some()
}

/// Whether `s` begins with `p`.
pub fn starts_with(s: &[u8], p: &[u8]) -> (r: bool)
    ensures
        r == p@.is_prefix_of(s@),
{
    if p.len() > s.len() {
        return false;
    }
    let mut i: usize = 0;
    while i < p.len()
        invariant
            i <= p.len() <= s.len(),
            forall|j: int| 0 <= j < i ==> s@[j] == p@[j],
        decreases p.len() - i,
    {
        if s[i] != p[i] {
            return false;
        }
        i += 1;
    }
    assert(p@ =~= s@.subrange(0, p@.len() as int));
    true
}

/// Whether two byte strings are equal.
pub fn same_bytes(a: &[u8], b: &[u8]) -> (r: bool)
    ensures
        r == (a@ == b@),
{
    if a.len() != b.len() {
        return false;
    }
    let r = starts_with(a, b);
    proof {
        if r {
            assert(a@ =~= b@);
        }
    }
    r
}

/// `bstr::ByteSlice::to_str`: succeeds exactly on valid UTF-8, so this
/// says whether a physical line is decodable text.
#[verifier::external_body]
pub(crate) fn is_text(s: &[u8]) -> (r: bool)
    ensures
        r == valid_utf8(s@),
{
    s.to_str().is_ok()
}

/// `s` without its trailing line feeds and carriage returns.
pub open spec fn without_line_end(s: Seq<u8>) -> Seq<u8>
    decreases s.len(),
{
    if s.len() > 0 && (s.last() == 0x0a || s.last() == 0x0d) {
        without_line_end(s.drop_last())
    } else {
        s
    }
}

/// A line without its line end is the front of the line.
pub proof fn lemma_without_line_end(s: Seq<u8>)
    ensures
        without_line_end(s).is_prefix_of(s),
    decreases s.len(),
{
    if s.len() > 0 && (s.last() == 0x0a || s.last() == 0x0d) {
        lemma_without_line_end(s.drop_last());
    }
}

/// The line without its trailing line feeds and carriage returns.
pub fn trim_line_end(line: &[u8]) -> (r: &[u8])
    ensures
        r@ == without_line_end(line@),
{
    let mut end: usize = line.len();
    assert(line@.take(end as int) =~= line@);
    while end > 0 && (line[end - 1] == 0x0a || line[end - 1] == 0x0d)
        invariant
            end <= line.len(),
            without_line_end(line@) == without_line_end(line@.take(end as int)),
        decreases end,
    {
        assert(line@.take(end as int).drop_last() =~= line@.take(end - 1));
        end -= 1;
    }
    &line[0..end]
}

/// Bytes of a three-byte whitespace character: U+1680, U+2000 to U+200A,
/// U+2028, U+2029, U+202F, U+205F and U+3000.
pub open spec fn is_wide_space(a: u8, b: u8, c: u8) -> bool {
    ||| (a == 0xe1 && b == 0x9a && c == 0x80)
    ||| (a == 0xe2 && b == 0x80 && (0x80 <= c <= 0x8a || c == 0xa8 || c == 0xa9 || c == 0xaf))
    ||| (a == 0xe2 && b == 0x81 && c == 0x9f)
    ||| (a == 0xe3 && b == 0x80 && c == 0x80)
}

/// Length in bytes of the whitespace character that `s` begins with, or 0.
/// Whitespace is the Unicode property White_Space: U+0009 to U+000D, the
/// space, U+0085, U+00A0 and the three-byte characters above.
pub open spec fn leading_space(s: Seq<u8>) -> nat {
    if s.len() >= 1 && (0x09 <= s[0] <= 0x0d || s[0] == 0x20) {
        1
    } else if s.len() >= 2 && s[0] == 0xc2 && (s[1] == 0x85 || s[1] == 0xa0) {
        2
    } else if s.len() >= 3 && is_wide_space(s[0], s[1], s[2]) {
        3
    } else {
        0
    }
}

/// Length in bytes of the whitespace character that `s` ends with, or 0.
pub open spec fn trailing_space(s: Seq<u8>) -> nat {
    let n = s.len() as int;
    if n >= 1 && (0x09 <= s[n - 1] <= 0x0d || s[n - 1] == 0x20) {
        1
    } else if n >= 2 && s[n - 2] == 0xc2 && (s[n - 1] == 0x85 || s[n - 1] == 0xa0) {
        2
    } else if n >= 3 && is_wide_space(s[n - 3], s[n - 2], s[n - 1]) {
        3
    } else {
        0
    }
}

/// `s` without its leading whitespace characters.
pub open spec fn trim_start(s: Seq<u8>) -> Seq<u8>
    decreases s.len(),
{
    if leading_space(s) == 0 {
        s
    } else {
        trim_start(s.skip(leading_space(s) as int))
    }
}

/// `s` without its trailing whitespace characters.
pub open spec fn trim_end(s: Seq<u8>) -> Seq<u8>
    decreases s.len(),
{
    if trailing_space(s) == 0 {
        s
    } else {
        trim_end(s.take(s.len() - trailing_space(s)))
    }
}

/// `s` without whitespace characters at either end.
pub open spec fn trim(s: Seq<u8>) -> Seq<u8> {
    trim_end(trim_start(s))
}

fn leading_space_at(s: &[u8], from: usize) -> (n: usize)
    requires
        from <= s@.len(),
    ensures
        n == leading_space(s@.skip(from as int)),
        from + n <= s@.len(),
{
    let rest = s.len() - from;
    if rest >= 1 && ((0x09 <= s[from] && s[from] <= 0x0d) || s[from] == 0x20) {
        1
    } else if rest >= 2 && s[from] == 0xc2 && (s[from + 1] == 0x85 || s[from + 1] == 0xa0) {
        2
    } else if rest >= 3 {
        let a = s[from];
        let b = s[from + 1];
        let c = s[from + 2];
        if (a == 0xe1 && b == 0x9a && c == 0x80) || (a == 0xe2 && b == 0x80 && ((0x80 <= c && c
            <= 0x8a) || c == 0xa8 || c == 0xa9 || c == 0xaf)) || (a == 0xe2 && b == 0x81 && c
            == 0x9f) || (a == 0xe3 && b == 0x80 && c == 0x80) {
            3
        } else {
            0
        }
    } else {
        0
    }
}

fn trailing_space_at(s: &[u8], to: usize) -> (n: usize)
    requires
        to <= s@.len(),
    ensures
        n == trailing_space(s@.take(to as int)),
        n <= to,
{
    if to >= 1 && ((0x09 <= s[to - 1] && s[to - 1] <= 0x0d) || s[to - 1] == 0x20) {
        1
    } else if to >= 2 && s[to - 2] == 0xc2 && (s[to - 1] == 0x85 || s[to - 1] == 0xa0) {
        2
    } else if to >= 3 {
        let a = s[to - 3];
        let b = s[to - 2];
        let c = s[to - 1];
        if (a == 0xe1 && b == 0x9a && c == 0x80) || (a == 0xe2 && b == 0x80 && ((0x80 <= c && c
            <= 0x8a) || c == 0xa8 || c == 0xa9 || c == 0xaf)) || (a == 0xe2 && b == 0x81 && c
            == 0x9f) || (a == 0xe3 && b == 0x80 && c == 0x80) {
            3
        } else {
            0
        }
    } else {
        0
    }
}

/// `s` without its leading whitespace characters.
pub fn trim_start_bytes(s: &[u8]) -> (r: &[u8])
    ensures
        r@ == trim_start(s@),
{
    let mut from: usize = 0;
    assert(s@.skip(0) =~= s@);
    let mut n = leading_space_at(s, from);
    while n > 0
        invariant
            from + n <= s.len(),
            n == leading_space(s@.skip(from as int)),
            trim_start(s@) == trim_start(s@.skip(from as int)),
        decreases s.len() - from,
    {
        assert(s@.skip(from as int).skip(n as int) =~= s@.skip(from + n));
        from += n;
        n = leading_space_at(s, from);
    }
    assert(s@.skip(from as int) =~= s@.subrange(from as int, s@.len() as int));
    &s[from..s.len()]
}

/// `s` without its trailing whitespace characters.
pub fn trim_end_bytes(s: &[u8]) -> (r: &[u8])
    ensures
        r@ == trim_end(s@),
{
    let mut to: usize = s.len();
    assert(s@.take(to as int) =~= s@);
    let mut n = trailing_space_at(s, to);
    while n > 0
        invariant
            n <= to <= s.len(),
            n == trailing_space(s@.take(to as int)),
            trim_end(s@) == trim_end(s@.take(to as int)),
        decreases to,
    {
        assert(s@.take(to as int).take(to - n) =~= s@.take(to - n));
        to -= n;
        n = trailing_space_at(s, to);
    }
    &s[0..to]
}

/// `s` without whitespace characters at either end.
pub fn trim_bytes(s: &[u8]) -> (r: &[u8])
    ensures
        r@ == trim(s@),
{
    trim_end_bytes(trim_start_bytes(s))
}

} // verus!
