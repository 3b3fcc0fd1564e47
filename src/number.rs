//! Decimal integers written in ASCII, as judgment grades and cutoffs are.
use vstd::prelude::*;

verus! {

pub open spec fn is_digit(c: u8) -> bool {
    48 <= c <= 57
}

pub open spec fn all_digits(s: Seq<u8>) -> bool {
    forall|i: int| 0 <= i < s.len() ==> is_digit(#[trigger] s[i])
}

/// The value of a string of decimal digits, most significant first.
pub open spec fn digits_value(s: Seq<u8>) -> nat
    decreases s.len(),
{
    if s.len() == 0 {
        0
    } else {
        digits_value(s.drop_last()) * 10 + (s.last() - 48) as nat
    }
}

/// An optional sign followed by one or more decimal digits, as Rust's
/// integer parsing reads it; `None` for anything else.
pub open spec fn decimal_value(s: Seq<u8>) -> Option<int> {
    if s.len() > 1 && s[0] == 45u8 && all_digits(s.drop_first()) {
        Some(-(digits_value(s.drop_first()) as int))
    } else if s.len() > 1 && s[0] == 43u8 && all_digits(s.drop_first()) {
        Some(digits_value(s.drop_first()) as int)
    } else if s.len() > 0 && all_digits(s) {
        Some(digits_value(s) as int)
    } else {
        None
    }
}

pub open spec fn fits_i32(v: int) -> bool {
    -0x8000_0000 <= v <= 0x7fff_ffff
}

/// What reading `s` as an `i32` gives: its decimal value where that fits.
pub open spec fn i32_value(s: Seq<u8>) -> Option<i32> {
    match decimal_value(s) {
        Some(v) => if fits_i32(v) { Some(v as i32) } else { None },
        None => None,
    }
}

/// What reading `s` as a `usize` gives: a nonnegative decimal value that fits.
pub open spec fn usize_value(s: Seq<u8>) -> Option<usize> {
    match decimal_value(s) {
        Some(v) => if 0 <= v <= usize::MAX && !(s.len() > 0 && s[0] == 45u8) {
            Some(v as usize)
        } else {
            None
        },
        None => None,
    }
}

proof fn lemma_digits_prefix(s: Seq<u8>, j: int)
    requires
        0 <= j <= s.len(),
        all_digits(s),
    ensures
        digits_value(s.subrange(0, j)) <= digits_value(s),
    decreases s.len(),
{
    if j < s.len() {
        assert(s.drop_last().subrange(0, j) =~= s.subrange(0, j));
        lemma_digits_prefix(s.drop_last(), j);
    } else {
        assert(s.subrange(0, j) =~= s);
    }
}

/// Reads the digits `s[start..]`, giving up once the value passes `limit`.
fn read_digits(s: &[u8], start: usize, limit: u64) -> (r: Option<u64>)
    requires
        start < s@.len(),
    ensures
        match r {
            Some(v) => all_digits(s@.subrange(start as int, s@.len() as int))
                && v as int == digits_value(s@.subrange(start as int, s@.len() as int))
                && v <= limit,
            None => !all_digits(s@.subrange(start as int, s@.len() as int))
                || digits_value(s@.subrange(start as int, s@.len() as int)) > limit,
        },
{
    let ghost t = s@.subrange(start as int, s@.len() as int);
    let mut acc: u64 = 0;
    let mut i: usize = start;
    while i < s.len()
        invariant
            start <= i <= s@.len(),
            t == s@.subrange(start as int, s@.len() as int),
            all_digits(t.subrange(0, i - start)),
            acc as int == digits_value(t.subrange(0, i - start)),
            acc <= limit,
        decreases s.len() - i,
    {
        let c = s[i];
        if c < 48 || c > 57 {
            assert(t[i - start] == c);
            return None;
        }
        assert(t.subrange(0, i + 1 - start).drop_last() =~= t.subrange(0, i - start));
        let next: Option<u64> = match acc.checked_mul(10) {
            Some(m) => m.checked_add((c - 48) as u64),
            None => None,
        };
        let over = match next {
            Some(n) => n > limit,
            None => true,
        };
        if over {
            proof {
                if all_digits(t) {
                    lemma_digits_prefix(t, i + 1 - start);
                }
            }
            return None;
        }
        acc = next.unwrap();
        i = i + 1;
    }
    assert(t.subrange(0, i - start) =~= t);
    Some(acc)
}

/// Reads a signed 32-bit integer written in decimal.
pub fn parse_i32(s: &[u8]) -> (r: Option<i32>)
    ensures
        r == i32_value(s@),
{
    if s.len() == 0 {
        return None;
    }
    let neg = s[0] == 45u8;
    let signed = neg || s[0] == 43u8;
    if signed && s.len() == 1 {
        return None;
    }
    let start: usize = if signed { 1 } else { 0 };
    let limit: u64 = if neg { 0x8000_0000 } else { 0x7fff_ffff };
    assert(s@.subrange(1, s@.len() as int) =~= s@.drop_first());
    assert(s@.subrange(0, s@.len() as int) =~= s@);
    match read_digits(s, start, limit) {
        Some(v) => {
            if neg {
                Some((0 - (v as i64)) as i32)
            } else {
                Some(v as i32)
            }
        },
        None => {
            proof {
                if !signed && s@.len() > 0 && all_digits(s@) {
                    assert(is_digit(s@[0]));
                }
            }
            None
        },
    }
}

/// Reads an unsigned machine-size integer written in decimal.
pub fn parse_usize(s: &[u8]) -> (r: Option<usize>)
    ensures
        r == usize_value(s@),
{
    if s.len() == 0 {
        return None;
    }
    if s[0] == 45u8 {
        return None;
    }
    let signed = s[0] == 43u8;
    if signed && s.len() == 1 {
        return None;
    }
    let start: usize = if signed { 1 } else { 0 };
    assert(s@.subrange(1, s@.len() as int) =~= s@.drop_first());
    assert(s@.subrange(0, s@.len() as int) =~= s@);
    let limit: u64 = usize::MAX as u64;
    match read_digits(s, start, limit) {
        Some(v) => Some(v as usize),
        None => None,
    }
}

} // verus!
