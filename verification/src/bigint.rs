//! Big numbers to and from the integers of `num_bigint`.
//!
//! The library keeps a big number as its decimal digits and never computes
//! with it. Who wants to compute converts here. The two conversions go
//! through decimal text, which both sides read and write; what `num_bigint`
//! makes of a text, and the text it writes, are taken on trust and carry a
//! name each.

use vstd::prelude::*;
use num_bigint::BigInt;
use crate::bignum::BigNumber;
use crate::decimal::is_signed_decimal;
use crate::decimal::signed_decimal_text;
use crate::decimal::signed_decimal_value;
use crate::roundtrip::lemma_signed_text_reads_back;

verus! {

/// Declares `num_bigint::BigInt`, of which nothing is known but what the
/// two names below say.
#[verifier::external_type_specification]
#[verifier::external_body]
pub struct ExBigInt(num_bigint::BigInt);

/// What `BigInt::parse_bytes` makes of `text` in radix 10.
pub uninterp spec fn bigint_parsed(text: Seq<u8>) -> Option<BigInt>;

/// The text that `BigInt::to_str_radix` writes of `n` in radix 10.
pub uninterp spec fn bigint_text(n: BigInt) -> Seq<u8>;

/// Calls `num_bigint::BigInt::parse_bytes` with radix 10.
///
/// Not proved: that the result is what the call gives, which is what
/// `bigint_parsed` names; and that the call refuses no text that is an
/// optional `-` and one or more ASCII digits. (It refuses an empty text, a
/// leading `_` and any byte that is no digit of the radix.)
#[verifier::external_body]
fn parse_bigint(text: &[u8]) -> (r: Option<BigInt>)
    ensures
        r == bigint_parsed(text@),
        is_signed_decimal(text@) ==> r.is_some(),
{
    BigInt::parse_bytes(text, 10)
}

/// Calls `num_bigint::BigInt::to_str_radix` with radix 10 and takes the
/// bytes of the string.
///
/// Not proved: that the result is what the call gives, which is what
/// `bigint_text` names; and that it is an optional `-` and one or more
/// ASCII digits. (The call writes the digits of the magnitude, `0` for
/// zero, behind a `-` where the integer is negative.)
#[verifier::external_body]
fn bigint_to_text(n: &BigInt) -> (r: Vec<u8>)
    ensures
        r@ == bigint_text(*n),
        is_signed_decimal(r@),
{
    n.to_str_radix(10).into_bytes()
}

impl BigNumber {
    /// The number as a `num_bigint::BigInt`: what `num_bigint` makes of the
    /// number's decimal text.
    pub fn to_bigint(&self) -> (r: BigInt)
        ensures
            Some(r) == bigint_parsed(signed_decimal_text(self@)),
    {
        let text = self.to_decimal();
        proof {
            lemma_signed_text_reads_back(self@);
        }
        parse_bigint(text.as_slice()).unwrap()
    }

    /// The big number that holds `n`: the number that the decimal text of
    /// `n` writes.
    pub fn from_bigint(n: &BigInt) -> (r: BigNumber)
        ensures
            r@ == signed_decimal_value(bigint_text(*n)),
    {
        let text = bigint_to_text(n);
        BigNumber::from_decimal(text.as_slice()).unwrap()
    }
}

} // verus!
