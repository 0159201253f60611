//! Decimal numbers written and read as text.

use vstd::prelude::*;

verus! {

/// The character for a digit `0..=9`.
pub open spec fn digit_char(d: nat) -> char {
    ((d + 48) as u8) as char
}

/// The value of a digit character.
pub open spec fn digit_value(c: char) -> nat {
    (c as u32 - 48) as nat
}

pub open spec fn is_digit(c: char) -> bool {
    '0' <= c && c <= '9'
}

/// The decimal writing of `n`, without leading zeros.
pub open spec fn decimal_of(n: nat) -> Seq<char>
    decreases n,
{
    if n < 10 {
        seq![digit_char(n)]
    } else {
        decimal_of(n / 10).push(digit_char(n % 10))
    }
}

/// The value of a sequence of digits.
pub open spec fn digits_value(s: Seq<char>) -> nat
    decreases s.len(),
{
    if s.len() == 0 {
        0
    } else {
        digits_value(s.drop_last()) * 10 + digit_value(s.last())
    }
}

pub open spec fn all_digits(s: Seq<char>) -> bool {
    forall|i: int| 0 <= i < s.len() ==> is_digit(#[trigger] s[i])
}

/// Appends the decimal writing of `n`.
pub fn push_decimal(s: &mut String, n: u64)
    ensures
        final(s)@ == old(s)@ + decimal_of(n as nat),
    decreases n,
{
    if n >= 10 {
        push_decimal(s, n / 10);
    }
    let d = (n % 10) as u8;
    crate::text::push_char(s, (d + 48) as char);
}

/// The value of the digits `v[lo..hi]`, or `cap` when it is `cap` or more.
pub fn digits_capped(v: &Vec<char>, lo: usize, hi: usize, cap: u64) -> (r: u64)
    requires
        lo <= hi <= v@.len(),
        all_digits(v@.subrange(lo as int, hi as int)),
        0 < cap <= 0x1_0000_0000,
    ensures
        r == if digits_value(v@.subrange(lo as int, hi as int)) < cap {
            digits_value(v@.subrange(lo as int, hi as int))
        } else {
            cap as nat
        },
{
    let mut acc: u64 = 0;
    let mut i = lo;
    while i < hi
        invariant
            lo <= i <= hi <= v@.len(),
            all_digits(v@.subrange(lo as int, hi as int)),
            0 < cap <= 0x1_0000_0000,
            acc == if digits_value(v@.subrange(lo as int, i as int)) < cap {
                digits_value(v@.subrange(lo as int, i as int))
            } else {
                cap as nat
            },
        decreases hi - i,
    {
        let c = v[i];
        assert(v@.subrange(lo as int, hi as int)[i - lo] == c);
        let d = (c as u32 - 48) as u64;
        let ghost prev = digits_value(v@.subrange(lo as int, i as int));
        assert(v@.subrange(lo as int, i + 1).drop_last() == v@.subrange(lo as int, i as int));
        assert(digits_value(v@.subrange(lo as int, i + 1)) == prev * 10 + d);
        let next = acc * 10 + d;
        acc = if next < cap { next } else { cap };
        proof {
            if prev >= cap {
                assert(prev * 10 + d >= cap) by (nonlinear_arith)
                    requires prev >= cap;
            }
        }
        i = i + 1;
    }
    acc
}

/// `s` without one leading `+`.
pub open spec fn unsigned_part(s: Seq<char>) -> Seq<char> {
    if s.len() > 0 && s[0] == '+' {
        s.drop_first()
    } else {
        s
    }
}

/// What `str::parse::<u32>` gives: an optional `+`, then at least one digit,
/// with a value that fits.
pub open spec fn parse_u32_spec(s: Seq<char>) -> Option<nat> {
    let d = unsigned_part(s);
    if d.len() > 0 && all_digits(d) && digits_value(d) <= u32::MAX {
        Some(digits_value(d))
    } else {
        None
    }
}

/// What `str::parse::<i32>` gives: an optional sign, then at least one digit,
/// with a value that fits.
pub open spec fn parse_i32_spec(s: Seq<char>) -> Option<int> {
    if s.len() > 0 && s[0] == '-' {
        let d = s.drop_first();
        if d.len() > 0 && all_digits(d) && digits_value(d) <= 0x8000_0000 {
            Some(-digits_value(d))
        } else {
            None
        }
    } else {
        let d = unsigned_part(s);
        if d.len() > 0 && all_digits(d) && digits_value(d) <= 0x7fff_ffff {
            Some(digits_value(d) as int)
        } else {
            None
        }
    }
}

/// Whether `v[lo..hi]` is all digits.
fn digits_only(v: &Vec<char>, lo: usize, hi: usize) -> (r: bool)
    requires
        lo <= hi <= v@.len(),
    ensures
        r == all_digits(v@.subrange(lo as int, hi as int)),
{
    let mut i = lo;
    while i < hi
        invariant
            lo <= i <= hi <= v@.len(),
            forall|j: int| lo <= j < i ==> is_digit(#[trigger] v@[j]),
        decreases hi - i,
    {
        let c = v[i];
        if !('0' <= c && c <= '9') {
            assert(v@.subrange(lo as int, hi as int)[i - lo] == c);
            return false;
        }
        i = i + 1;
    }
    assert forall|j: int| 0 <= j < hi - lo implies is_digit(
        #[trigger] v@.subrange(lo as int, hi as int)[j],
    ) by {
        assert(v@.subrange(lo as int, hi as int)[j] == v@[lo + j]);
    }
    true
}

/// The unsigned number written in `v[lo..hi]`.
pub fn parse_u32_at(v: &Vec<char>, lo: usize, hi: usize) -> (r: Option<u32>)
    requires
        lo <= hi <= v@.len(),
    ensures
        match parse_u32_spec(v@.subrange(lo as int, hi as int)) {
            Some(n) => r == Some(n as u32),
            None => r is None,
        },
{
    let ghost s = v@.subrange(lo as int, hi as int);
    let start = if lo < hi && v[lo] == '+' {
        assert(s[0] == v@[lo as int]);
        lo + 1
    } else {
        lo
    };
    assert(unsigned_part(s) == v@.subrange(start as int, hi as int));
    if start == hi || !digits_only(v, start, hi) {
        return None;
    }
    let n = digits_capped(v, start, hi, 0x1_0000_0000);
    if n > 0xffff_ffff {
        None
    } else {
        Some(n as u32)
    }
}

/// The signed number written in `v[lo..hi]`.
pub fn parse_i32_at(v: &Vec<char>, lo: usize, hi: usize) -> (r: Option<i32>)
    requires
        lo <= hi <= v@.len(),
    ensures
        match parse_i32_spec(v@.subrange(lo as int, hi as int)) {
            Some(n) => r == Some(n as i32),
            None => r is None,
        },
{
    let ghost s = v@.subrange(lo as int, hi as int);
    if lo < hi && v[lo] == '-' {
        assert(s[0] == v@[lo as int]);
        assert(s.drop_first() == v@.subrange(lo + 1, hi as int));
        if lo + 1 == hi || !digits_only(v, lo + 1, hi) {
            return None;
        }
        let n = digits_capped(v, lo + 1, hi, 0x1_0000_0000);
        if n > 0x8000_0000 {
            None
        } else {
            Some((0 - (n as i64)) as i32)
        }
    } else {
        let start = if lo < hi && v[lo] == '+' {
            assert(s[0] == v@[lo as int]);
            lo + 1
        } else {
            lo
        };
        assert(unsigned_part(s) == v@.subrange(start as int, hi as int));
        if start == hi || !digits_only(v, start, hi) {
            return None;
        }
        let n = digits_capped(v, start, hi, 0x1_0000_0000);
        if n > 0x7fff_ffff {
            None
        } else {
            Some(n as i32)
        }
    }
}

} // verus!
