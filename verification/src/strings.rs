//! Building text for display, as bytes of UTF-8.

use vstd::prelude::*;
use vstd::string::StringSliceAdditionalSpecFns;

verus! {

/// `n` times the bytes `piece`.
pub open spec fn repeated(piece: Seq<u8>, n: nat) -> Seq<u8>
    decreases n,
{
    if n == 0 {
        Seq::empty()
    } else {
        repeated(piece, (n - 1) as nat) + piece
    }
}

/// Appends `n` times the bytes `piece`.
pub fn push_repeated(out: &mut Vec<u8>, piece: &[u8], n: usize)
    ensures
        final(out)@ == old(out)@ + repeated(piece@, n as nat),
{
    let ghost start = out@;
    let mut i: usize = 0;
    assert(start + repeated(piece@, 0) =~= start);
    while i < n
        invariant
            i <= n,
            out@ == start + repeated(piece@, i as nat),
        decreases n - i,
    {
        out.extend_from_slice(piece);
        assert(out@ =~= start + repeated(piece@, (i + 1) as nat));
        i += 1;
    }
}

/// The byte of the decimal digit `d`.
pub open spec fn digit(d: nat) -> u8 {
    ('0' as u8 + d) as u8
}

/// The decimal numeral of `n`, without leading zeros.
pub open spec fn decimal(n: nat) -> Seq<u8>
    decreases n,
{
    if n < 10 {
        seq![digit(n)]
    } else {
        decimal(n / 10).push(digit(n % 10))
    }
}

/// Appends the decimal numeral of `n`.
pub fn push_decimal(out: &mut Vec<u8>, n: u128)
    ensures
        final(out)@ == old(out)@ + decimal(n as nat),
    decreases n,
{
    let ghost start = out@;
    if n >= 10 {
        push_decimal(out, n / 10);
    }
    out.push('0' as u8 + (n % 10) as u8);
    assert(out@ =~= start + decimal(n as nat));
}

/// The decimal numeral of `n`.
pub fn decimal_bytes(n: usize) -> (out: Vec<u8>)
    ensures
        out@ == decimal(n as nat),
{
    let mut out: Vec<u8> = Vec::new();
    push_decimal(&mut out, n as u128);
    assert(Seq::<u8>::empty() + decimal(n as nat) =~= decimal(n as nat));
    out
}

/// `s` behind as many spaces as it takes to fill `width` bytes.
pub open spec fn right_aligned(s: Seq<u8>, width: nat) -> Seq<u8> {
    if s.len() >= width {
        s
    } else {
        repeated(seq![' ' as u8], (width - s.len()) as nat) + s
    }
}

/// Appends `s`, right-aligned in a field of `width` bytes.
pub fn push_right_aligned(out: &mut Vec<u8>, s: &[u8], width: usize)
    ensures
        final(out)@ == old(out)@ + right_aligned(s@, width as nat),
{
    let ghost start = out@;
    let len = s.len();
    if len < width {
        let space: [u8; 1] = [' ' as u8];
        assert(space@ =~= seq![' ' as u8]);
        push_repeated(out, space.as_slice(), width - len);
    }
    out.extend_from_slice(s);
    assert(out@ =~= start + right_aligned(s@, width as nat));
}

/// Appends the bytes of a string.
pub fn push_str(out: &mut Vec<u8>, s: &str)
    ensures
        final(out)@ == old(out)@ + s.spec_bytes(),
{
    out.extend_from_slice(s.as_bytes());
}

} // verus!
