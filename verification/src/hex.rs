//! Hexadecimal numbers as `from_str_radix(.., 16)` reads them.
use vstd::prelude::*;

verus! {

/// Why a run of bytes was not accepted as an unsigned hexadecimal number.
#[derive(Clone, Copy, Debug, PartialEq, Eq, Structural)]
pub enum IntErrorKind {
    /// Nothing to parse.
    Empty,
    /// A byte that is not a hexadecimal digit.
    InvalidDigit,
    /// The value does not fit the target type.
    PosOverflow,
}

pub open spec fn is_hex_byte(b: u8) -> bool {
    (0x30 <= b <= 0x39) || (0x41 <= b <= 0x46) || (0x61 <= b <= 0x66)
}

pub open spec fn hex_byte_value(b: u8) -> nat {
    if 0x30 <= b <= 0x39 {
        (b - 0x30) as nat
    } else if 0x41 <= b <= 0x46 {
        (b - 0x41 + 10) as nat
    } else {
        (b - 0x61 + 10) as nat
    }
}

/// The digits of `d`, read from the left, each step checked first for a bad
/// digit and then for a value above `max`.
pub open spec fn digits_value(d: Seq<u8>, max: nat) -> Result<nat, IntErrorKind>
    decreases d.len(),
{
    if d.len() == 0 {
        Ok(0)
    } else {
        match digits_value(d.drop_last(), max) {
            Err(e) => Err(e),
            Ok(v) => if !is_hex_byte(d.last()) {
                Err(IntErrorKind::InvalidDigit)
            } else if v * 16 + hex_byte_value(d.last()) > max {
                Err(IntErrorKind::PosOverflow)
            } else {
                Ok(v * 16 + hex_byte_value(d.last()))
            },
        }
    }
}

/// An unsigned number in base 16 with an optional leading `+`, no larger than `max`.
pub open spec fn hex_value(b: Seq<u8>, max: nat) -> Result<nat, IntErrorKind> {
    if b.len() == 0 {
        Err(IntErrorKind::Empty)
    } else if b[0] == 0x2b && b.len() > 1 {
        digits_value(b.drop_first(), max)
    } else {
        digits_value(b, max)
    }
}

/// A failure in a prefix of the digits is the failure of the whole run.
pub proof fn lemma_digits_prefix_error(d: Seq<u8>, k: int, max: nat)
    requires
        0 <= k <= d.len(),
        digits_value(d.take(k), max) is Err,
    ensures
        digits_value(d, max) == digits_value(d.take(k), max),
    decreases d.len(),
{
    if k < d.len() {
        assert(d.drop_last().take(k) =~= d.take(k));
        lemma_digits_prefix_error(d.drop_last(), k, max);
    } else {
        assert(d.take(k) =~= d);
    }
}

/// Every value that `digits_value` accepts is at most `max`.
pub proof fn lemma_digits_bound(d: Seq<u8>, max: nat)
    ensures
        digits_value(d, max) matches Ok(v) ==> v <= max,
    decreases d.len(),
{
    if d.len() > 0 {
        lemma_digits_bound(d.drop_last(), max);
    }
}

pub fn is_hex_digit(b: u8) -> (r: bool)
    ensures
        r == is_hex_byte(b),
{
    (0x30 <= b && b <= 0x39) || (0x41 <= b && b <= 0x46) || (0x61 <= b && b <= 0x66)
}

fn digit_value(b: u8) -> (r: u64)
    requires
        is_hex_byte(b),
    ensures
        r == hex_byte_value(b),
        r < 16,
{
    if 0x30 <= b && b <= 0x39 {
        (b - 0x30) as u64
    } else if 0x41 <= b && b <= 0x46 {
        (b - 0x41 + 10) as u64
    } else {
        (b - 0x61 + 10) as u64
    }
}

/// Reads `b[start..end]` as `from_str_radix(.., 16)` does for an unsigned type
/// whose largest value is `max`.
pub fn parse_hex(b: &[u8], start: usize, end: usize, max: u64) -> (r: Result<u64, IntErrorKind>)
    requires
        start <= end <= b@.len(),
        15 <= max,
    ensures
        r matches Ok(v) ==> v <= max,
        match r {
            Ok(v) => hex_value(b@.subrange(start as int, end as int), max as nat) == Ok::<
                nat,
                IntErrorKind,
            >(v as nat),
            Err(e) => hex_value(b@.subrange(start as int, end as int), max as nat) == Err::<
                nat,
                IntErrorKind,
            >(e),
        },
{
    let ghost whole = b@.subrange(start as int, end as int);
    if start == end {
        return Err(IntErrorKind::Empty);
    }
    let mut i = start;
    if b[start] == 0x2b && end - start > 1 {
        i = start + 1;
        assert(whole.drop_first() =~= b@.subrange(i as int, end as int));
    } else {
        assert(whole =~= b@.subrange(i as int, end as int));
    }
    let d0 = i;
    let ghost digits = b@.subrange(d0 as int, end as int);
    assert(hex_value(whole, max as nat) == digits_value(digits, max as nat));
    let mut v: u64 = 0;
    assert(digits.take(0) =~= Seq::<u8>::empty());
    while i < end
        invariant
            start <= d0 <= i <= end <= b@.len(),
            15 <= max,
            digits == b@.subrange(d0 as int, end as int),
            whole == b@.subrange(start as int, end as int),
            hex_value(whole, max as nat) == digits_value(digits, max as nat),
            digits_value(digits.take(i - d0), max as nat) == Ok::<nat, IntErrorKind>(v as nat),
            v <= max,
        decreases end - i,
    {
        let c = b[i];
        let ghost pre = digits.take(i - d0);
        let ghost next = digits.take(i - d0 + 1);
        assert(next.drop_last() =~= pre);
        assert(next.last() == c);
        if !is_hex_digit(c) {
            proof {
                lemma_digits_prefix_error(digits, i - d0 + 1, max as nat);
            }
            return Err(IntErrorKind::InvalidDigit);
        }
        let x = digit_value(c);
        if v > (max - x) / 16 {
            assert(v * 16 + x > max) by (nonlinear_arith)
                requires
                    v > (max - x) / 16,
                    x <= max,
            ;
            proof {
                lemma_digits_prefix_error(digits, i - d0 + 1, max as nat);
            }
            return Err(IntErrorKind::PosOverflow);
        }
        assert(v * 16 + x <= max) by (nonlinear_arith)
            requires
                v <= (max - x) / 16,
                x <= max,
        ;
        v = v * 16 + x;
        i = i + 1;
    }
    assert(digits.take(i - d0) =~= digits);
    Ok(v)
}

} // verus!
