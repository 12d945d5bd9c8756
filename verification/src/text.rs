//! Numbers written as text, the way messages show them.
use vstd::prelude::*;

verus! {

/// The digit for `d` in bases up to sixteen, lower case.
pub open spec fn digit_char(d: nat) -> char {
    if d < 10 {
        ((d + 48) as u8) as char
    } else {
        ((d - 10 + 97) as u8) as char
    }
}

/// `n` in decimal, without leading zeros.
pub open spec fn decimal(n: nat) -> Seq<char>
    decreases n,
{
    if n < 10 {
        seq![digit_char(n)]
    } else {
        decimal(n / 10).push(digit_char(n % 10))
    }
}

/// `n` in decimal, with a minus sign where it is negative.
pub open spec fn signed_decimal(n: int) -> Seq<char> {
    if n < 0 {
        seq!['-'] + decimal((-n) as nat)
    } else {
        decimal(n as nat)
    }
}

/// The `width` low hexadecimal digits of `n`, lower case, most significant first.
pub open spec fn hex_digits(n: nat, width: nat) -> Seq<char>
    decreases width,
{
    if width == 0 {
        Seq::empty()
    } else {
        hex_digits(n / 16, (width - 1) as nat).push(digit_char(n % 16))
    }
}

/// Formats `n` with `format!("{n}")`. Claimed: the decimal digits of `n`,
/// which is what the `Display` of an unsigned integer writes.
#[verifier::external_body]
pub(crate) fn decimal_text(n: u64) -> (r: String)
    ensures
        r@ == decimal(n as nat),
{
    format!("{n}")
}

/// Formats `n` with `format!("{n}")`. Claimed: a minus sign for a negative
/// `n`, then the decimal digits of its magnitude, as the `Display` of a
/// signed integer writes.
#[verifier::external_body]
pub(crate) fn signed_decimal_text(n: i64) -> (r: String)
    ensures
        r@ == signed_decimal(n as int),
{
    format!("{n}")
}

/// Formats `n` with `format!("{n:08x}")`. Claimed: eight lower-case
/// hexadecimal digits, zero-padded, which `LowerHex` with width 8 and the
/// `0` flag writes for any `u32`.
#[verifier::external_body]
pub(crate) fn hex8_text(n: u32) -> (r: String)
    ensures
        r@ == hex_digits(n as nat, 8),
{
    format!("{n:08x}")
}

} // verus!
