//! Reading decimal numbers.

use vstd::prelude::*;

verus! {

/// Whether the byte is a decimal digit.
pub open spec fn is_digit(b: u8) -> bool {
    '0' as u8 <= b <= '9' as u8
}

/// The number that the digits `s` write.
pub open spec fn digits_value(s: Seq<u8>) -> nat
    decreases s.len(),
{
    if s.len() == 0 {
        0
    } else {
        digits_value(s.drop_last()) * 10 + (s.last() - '0' as u8) as nat
    }
}

/// Whether `s` is one digit or more and nothing else.
pub open spec fn all_digits(s: Seq<u8>) -> bool {
    s.len() > 0 && forall|i: int| 0 <= i < s.len() ==> is_digit(#[trigger] s[i])
}

/// What follows the sign of `s`, if it has one.
pub open spec fn unsigned_part(s: Seq<u8>) -> Seq<u8> {
    if s.len() > 0 && (s[0] == '-' as u8 || s[0] == '+' as u8) {
        s.skip(1)
    } else {
        s
    }
}

/// The integer that `s` writes: digits behind at most one sign, with a
/// value that fits 64 bits.
pub open spec fn integer_of(s: Seq<u8>) -> Option<int> {
    let magnitude = digits_value(unsigned_part(s)) as int;
    let value = if s.len() > 0 && s[0] == '-' as u8 {
        -magnitude
    } else {
        magnitude
    };
    if all_digits(unsigned_part(s)) && i64::MIN <= value <= i64::MAX {
        Some(value)
    } else {
        None
    }
}

/// Reads an integer.
pub fn parse_integer(s: &[u8]) -> (r: Option<i64>)
    ensures
        r is Some <==> integer_of(s@) is Some,
        r is Some ==> r->0 == integer_of(s@)->0,
{
    let n = s.len();
    if n == 0 {
        return None;
    }
    let negative = s[0] == '-' as u8;
    let start: usize = if negative || s[0] == '+' as u8 {
        1
    } else {
        0
    };
    let ghost body = unsigned_part(s@);
    assert(body =~= s@.skip(start as int));
    if start >= n {
        return None;
    }
    let mut acc: u128 = 0;
    let mut over = false;
    let mut i: usize = start;
    assert(body.take(0) =~= Seq::<u8>::empty());
    while i < n
        invariant
            start <= i <= n,
            n == s@.len(),
            body == s@.skip(start as int),
            body == unsigned_part(s@),
            forall|j: int| 0 <= j < i - start ==> is_digit(#[trigger] body[j]),
            !over ==> acc == digits_value(body.take(i - start)) && acc <= 0x8000_0000_0000_0000,
            over ==> digits_value(body.take(i - start)) > 0x8000_0000_0000_0000,
        decreases n - i,
    {
        let b = s[i];
        assert(body[i - start] == b);
        if !('0' as u8 <= b && b <= '9' as u8) {
            assert(!is_digit(body[i - start]));
            assert(!all_digits(body));
            return None;
        }
        proof {
            assert(body.take(i - start + 1).drop_last() =~= body.take(i - start));
            assert(body.take(i - start + 1).last() == b);
        }
        if !over {
            acc = acc * 10 + (b - '0' as u8) as u128;
            if acc > 0x8000_0000_0000_0000 {
                over = true;
            }
        }
        i += 1;
    }
    assert(body.take(n - start) =~= body);
    if over {
        None
    } else if negative {
        if acc == 0x8000_0000_0000_0000 {
            Some(i64::MIN)
        } else {
            Some(-(acc as i64))
        }
    } else if acc > 0x7fff_ffff_ffff_ffff {
        None
    } else {
        Some(acc as i64)
    }
}

/// The size that `s` writes: digits behind at most one `+`, with a value
/// that fits this machine.
pub open spec fn size_written(s: Seq<u8>) -> Option<usize> {
    let body = if s.len() > 0 && s[0] == '+' as u8 {
        s.skip(1)
    } else {
        s
    };
    if all_digits(body) && digits_value(body) <= usize::MAX {
        Some(digits_value(body) as usize)
    } else {
        None
    }
}

/// Reads a size.
pub fn parse_size(s: &[u8]) -> (r: Option<usize>)
    ensures
        r == size_written(s@),
{
    let n = s.len();
    let start: usize = if n > 0 && s[0] == '+' as u8 {
        1
    } else {
        0
    };
    let ghost body = if s@.len() > 0 && s@[0] == '+' as u8 {
        s@.skip(1)
    } else {
        s@
    };
    assert(body =~= s@.skip(start as int));
    if start >= n {
        return None;
    }
    let mut acc: usize = 0;
    let mut over = false;
    let mut i: usize = start;
    assert(body.take(0) =~= Seq::<u8>::empty());
    while i < n
        invariant
            start <= i <= n,
            n == s@.len(),
            body == s@.skip(start as int),
            size_written(s@) == (if all_digits(body) && digits_value(body) <= usize::MAX {
                Some(digits_value(body) as usize)
            } else {
                None
            }),
            forall|j: int| 0 <= j < i - start ==> is_digit(#[trigger] body[j]),
            !over ==> acc == digits_value(body.take(i - start)),
            over ==> digits_value(body.take(i - start)) > usize::MAX,
        decreases n - i,
    {
        let b = s[i];
        assert(body[i - start] == b);
        if !('0' as u8 <= b && b <= '9' as u8) {
            assert(!is_digit(body[i - start]));
            assert(!all_digits(body));
            return None;
        }
        proof {
            assert(body.take(i - start + 1).drop_last() =~= body.take(i - start));
            assert(body.take(i - start + 1).last() == b);
        }
        if !over {
            let d = (b - '0' as u8) as usize;
            if acc > (usize::MAX - d) / 10 {
                over = true;
            } else {
                acc = acc * 10 + d;
            }
        }
        i += 1;
    }
    assert(body.take(n - start) =~= body);
    if over {
        None
    } else {
        Some(acc)
    }
}

} // verus!
