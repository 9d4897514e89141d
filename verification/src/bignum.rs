//! Arbitrary-precision integer literals. The mathematical reading of a digit
//! run is defined here as a spec function, and `num_bigint` does the actual
//! conversion behind a trusted wrapper whose contract ties the produced value
//! to that reading.

use vstd::prelude::*;
use num_bigint::BigInt;
use num_traits::Num;

verus! {

#[verifier::external_type_specification]
#[verifier::external_body]
pub struct ExBigInt(BigInt);

/// The integer that a `BigInt` holds. The wrappers below are the only places
/// that state anything about it.
pub uninterp spec fn big_value(n: BigInt) -> int;

/// Whether `c` is a decimal digit.
pub open spec fn is_digit(c: char) -> bool {
    '0' <= c && c <= '9'
}

/// Whether `c` is a digit of the given radix (2, 8, 10 or 16); hex digits may
/// be written in either case.
pub open spec fn is_radix_digit(c: char, radix: int) -> bool {
    if radix == 2 {
        c == '0' || c == '1'
    } else if radix == 8 {
        '0' <= c && c <= '7'
    } else if radix == 10 {
        is_digit(c)
    } else if radix == 16 {
        is_digit(c) || ('a' <= c && c <= 'f') || ('A' <= c && c <= 'F')
    } else {
        false
    }
}

/// The numeric value of one digit character.
pub open spec fn digit_value(c: char) -> int {
    if '0' <= c && c <= '9' {
        c as int - '0' as int
    } else if 'a' <= c && c <= 'f' {
        c as int - 'a' as int + 10
    } else if 'A' <= c && c <= 'F' {
        c as int - 'A' as int + 10
    } else {
        0
    }
}

/// The integer denoted by a run of digit characters read in the given radix,
/// most significant digit first.
pub open spec fn digits_seq_value(s: Seq<char>, radix: int) -> int
    decreases s.len(),
{
    if s.len() == 0 {
        0
    } else {
        digits_seq_value(s.drop_last(), radix) * radix + digit_value(s.last())
    }
}

/// Relies on num_bigint's `from_str_radix` (through `num_traits::Num`): a
/// nonempty string of digits valid for the radix is read as a base-`radix`
/// numeral, most significant digit first.
#[verifier::external_body]
pub(crate) fn big_from_digits(digits: &Vec<char>, radix: u32) -> (r: BigInt)
    requires
        radix == 2 || radix == 8 || radix == 10 || radix == 16,
        digits@.len() > 0,
        forall|i: int| 0 <= i < digits@.len() ==> is_radix_digit(digits@[i], radix as int),
    ensures
        big_value(r) == digits_seq_value(digits@, radix as int),
{
    let s: String = digits.iter().collect();
    BigInt::from_str_radix(&s, radix).unwrap()
}

/// Relies on num_bigint's `Clone` impl, which copies sign and magnitude: the
/// copy holds the same value.
#[verifier::external_body]
pub(crate) fn big_clone(n: &BigInt) -> (r: BigInt)
    ensures
        big_value(r) == big_value(*n),
{
    n.clone()
}

} // verus!
