//! Physical lines of a byte stream.

use crate::text::{find_byte, lemma_position, position};
use bstr::ByteSlice;
use vstd::prelude::*;

verus! {

/// The pieces of `s` between its bytes `sep`: one more than it has such
/// bytes, so the last piece is empty when `s` ends in one.
pub open spec fn split_on(s: Seq<u8>, sep: u8) -> Seq<Seq<u8>>
    decreases s.len(),
{
    let p = position(s, sep);
    if 0 <= p < s.len() {
        seq![s.take(p)] + split_on(s.skip(p + 1), sep)
    } else {
        seq![s]
    }
}

/// The pieces of `s` between its line feeds.
pub open spec fn split_lines(s: Seq<u8>) -> Seq<Seq<u8>> {
    split_on(s, '\n' as u8)
}

/// One piece of a byte stream and where the next one begins.
#[derive(Clone, Copy, Debug)]
pub struct Piece {
    /// First byte of the piece.
    pub start: usize,
    /// One past its last byte: the separator, or the end of the stream.
    pub end: usize,
    /// Whether a separator ends the piece, so that another piece follows.
    pub more: bool,
}

/// The piece of `bytes` that begins at `from`, where `sep` separates pieces.
pub fn piece_with(bytes: &[u8], from: usize, sep: u8) -> (r: Piece)
    requires
        from <= bytes@.len(),
    ensures
        r.start == from,
        from <= r.end <= bytes@.len(),
        r.more ==> r.end < bytes@.len(),
        split_on(bytes@.skip(from as int), sep) == (if r.more {
            seq![bytes@.subrange(from as int, r.end as int)] + split_on(
                bytes@.skip(r.end + 1),
                sep,
            )
        } else {
            seq![bytes@.subrange(from as int, r.end as int)]
        }),
{
    let n = bytes.len();
    let rest = &bytes[from..n];
    assert(rest@ =~= bytes@.skip(from as int));
    proof {
        lemma_position(rest@, sep);
    }
    match find_byte(rest, sep) {
        Some(i) => {
            assert(rest@.take(i as int) =~= bytes@.subrange(from as int, from + i));
            assert(rest@.skip(i + 1) =~= bytes@.skip(from + i + 1));
            Piece { start: from, end: from + i, more: true }
        },
        None => {
            assert(rest@ =~= bytes@.subrange(from as int, n as int));
            Piece { start: from, end: n, more: false }
        },
    }
}

/// The line of `bytes` that begins at `from`.
pub fn piece_at(bytes: &[u8], from: usize) -> (r: Piece)
    requires
        from <= bytes@.len(),
    ensures
        r.start == from,
        from <= r.end <= bytes@.len(),
        r.more ==> r.end < bytes@.len(),
        split_lines(bytes@.skip(from as int)) == (if r.more {
            seq![bytes@.subrange(from as int, r.end as int)] + split_lines(
                bytes@.skip(r.end + 1),
            )
        } else {
            seq![bytes@.subrange(from as int, r.end as int)]
        }),
{
    piece_with(bytes, from, '\n' as u8)
}

/// `t` without the carriage return that it ends with, if it ends with one.
pub open spec fn without_cr(t: Seq<u8>) -> Seq<u8> {
    if t.len() > 0 && t.last() == '\r' as u8 {
        t.drop_last()
    } else {
        t
    }
}

/// The first line of a non-empty `s`, without its terminator. A terminator
/// is a line feed, or a carriage return and a line feed.
pub open spec fn first_line(s: Seq<u8>) -> Seq<u8> {
    let p = position(s, '\n' as u8);
    if 0 <= p < s.len() {
        without_cr(s.take(p))
    } else {
        s
    }
}

/// What follows the first line of `s` and its terminator.
pub open spec fn after_first_line(s: Seq<u8>) -> Seq<u8> {
    let p = position(s, '\n' as u8);
    if 0 <= p < s.len() {
        s.skip(p + 1)
    } else {
        Seq::empty()
    }
}

/// The lines of `s` without their terminators. There is no line after the
/// last terminator, and an empty `s` has no line.
pub open spec fn text_lines(s: Seq<u8>) -> Seq<Seq<u8>>
    decreases s.len(),
{
    if s.len() == 0 {
        Seq::empty()
    } else {
        proof {
            lemma_position(s, '\n' as u8);
        }
        seq![first_line(s)] + text_lines(after_first_line(s))
    }
}

/// The first line and what follows it are cut from the stream, and what
/// follows is shorter than the stream.
pub proof fn lemma_after_first_line(s: Seq<u8>)
    requires
        s.len() > 0,
    ensures
        after_first_line(s).len() < s.len(),
        first_line(s).len() + after_first_line(s).len() <= s.len(),
{
    lemma_position(s, '\n' as u8);
}

/// `bstr::Lines`, the iterator over the lines of a byte string, held as an
/// opaque value.
#[verifier::external_type_specification]
#[verifier::external_body]
pub struct ExLines<'a>(bstr::Lines<'a>);

/// The bytes that a line iterator has not handed out yet: what its
/// `as_bytes` returns.
pub uninterp spec fn unread(it: bstr::Lines<'_>) -> Seq<u8>;

/// `bstr::ByteSlice::lines`: an iterator that has all of `bytes` before it.
#[verifier::external_body]
pub(crate) fn lines_of<'a>(bytes: &'a [u8]) -> (it: bstr::Lines<'a>)
    ensures
        unread(it) == bytes@,
{
    bytes.lines()
}

/// `Iterator::next` of `bstr::Lines`: with nothing left it returns `None`;
/// otherwise it hands out the bytes up to the first line feed, without that
/// line feed and without a carriage return just before it, and keeps what
/// follows the line feed. Where there is no line feed it hands out all that
/// is left.
#[verifier::external_body]
pub(crate) fn next_line<'a>(it: &mut bstr::Lines<'a>) -> (r: Option<&'a [u8]>)
    ensures
        unread(*old(it)).len() == 0 ==> r is None && unread(*final(it)) == unread(*old(it)),
        unread(*old(it)).len() > 0 ==> r is Some && r->0@ == first_line(unread(*old(it)))
            && unread(*final(it)) == after_first_line(unread(*old(it))),
{
    it.next()
}

} // verus!
