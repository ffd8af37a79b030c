//! Integers of any magnitude, kept as their decimal digits.

use vstd::prelude::*;
use crate::bytes::append;
use crate::bytes::copy_range;
use crate::decimal::all_digits;
use crate::decimal::canonical;
use crate::decimal::decimal_value;
use crate::decimal::is_digit;
use crate::decimal::lemma_digits_of_value;
use crate::decimal::lemma_positive_of_canonical;
use crate::decimal::lemma_value_of_digits;
use crate::decimal::parse_digits;
use crate::decimal::push_decimal;
use crate::decimal::signed_decimal_text;
use crate::decimal::MINUS;
use crate::decimal::PLUS;
use crate::decimal::ZERO;

verus! {

/// The digits of a big-number literal: what follows its optional sign.
pub open spec fn literal_digits(s: Seq<u8>) -> Seq<u8> {
    if s.len() > 0 && (s[0] == MINUS || s[0] == PLUS) {
        s.skip(1)
    } else {
        s
    }
}

/// Whether `s` is a big-number literal: an optional `+` or `-`, then one or
/// more digits.
pub open spec fn is_literal(s: Seq<u8>) -> bool {
    literal_digits(s).len() > 0 && all_digits(literal_digits(s))
}

/// The integer that the big-number literal `s` writes.
pub open spec fn literal_value(s: Seq<u8>) -> int {
    if s.len() > 0 && s[0] == MINUS {
        -(decimal_value(literal_digits(s)) as int)
    } else {
        decimal_value(literal_digits(s)) as int
    }
}

/// Leading zeros are worth nothing.
pub proof fn lemma_leading_zeros(s: Seq<u8>, z: int)
    requires
        0 <= z <= s.len(),
        forall|j: int| 0 <= j < z ==> s[j] == ZERO,
    ensures
        decimal_value(s) == decimal_value(s.skip(z)),
    decreases s.len(),
{
    if s.len() > 0 {
        let p = s.drop_last();
        if z == s.len() {
            lemma_leading_zeros(p, z - 1);
        } else {
            lemma_leading_zeros(p, z);
            assert(s.skip(z).drop_last() == p.skip(z));
        }
    }
}

/// An integer of any magnitude.
///
/// Its view is the integer. Two values hold the same integer exactly when
/// they are equal: the digits are kept in shortest form and zero has no sign.
#[derive(Debug, PartialEq, Eq)]
pub struct BigNumber {
    negative: bool,
    digits: Vec<u8>,
}

impl View for BigNumber {
    type V = int;

    closed spec fn view(&self) -> int {
        if self.negative {
            -(decimal_value(self.digits@) as int)
        } else {
            decimal_value(self.digits@) as int
        }
    }
}

impl Clone for BigNumber {
    fn clone(&self) -> (r: Self)
        ensures
            r@ == self@,
    {
        proof {
            use_type_invariant(self);
            assert(self.digits@.subrange(0, self.digits@.len() as int) == self.digits@);
        }
        let digits = copy_range(self.digits.as_slice(), 0, self.digits.len());
        BigNumber { negative: self.negative, digits }
    }
}

impl BigNumber {
    #[verifier::type_invariant]
    closed spec fn inv(self) -> bool {
        &&& canonical(self.digits@)
        &&& self.negative ==> decimal_value(self.digits@) != 0
    }

    /// Reads the literal `input[start..end]`: an optional sign and one or
    /// more digits. `None` where the range is no such literal.
    pub fn parse(input: &[u8], start: usize, end: usize) -> (r: Option<BigNumber>)
        requires
            start <= end <= input.len(),
        ensures
            r.is_some() <==> is_literal(input@.subrange(start as int, end as int)),
            r matches Some(n) ==> n@ == literal_value(input@.subrange(start as int, end as int)),
    {
        let ghost s = input@.subrange(start as int, end as int);
        let signed = start < end && (input[start] == MINUS || input[start] == PLUS);
        let minus = start < end && input[start] == MINUS;
        let from: usize = if signed {
            start + 1
        } else {
            start
        };
        let ghost d = input@.subrange(from as int, end as int);
        assert(d == literal_digits(s));
        if from == end {
            return None;
        }
        // Skip the zeros that lead, and check that digits follow.
        let mut z: usize = from;
        while z < end && input[z] == ZERO
            invariant
                from <= z <= end <= input.len(),
                d == input@.subrange(from as int, end as int),
                forall|j: int| 0 <= j < z - from ==> d[j] == ZERO,
            decreases end - z,
        {
            z += 1;
        }
        proof {
            lemma_leading_zeros(d, z - from);
            assert(d.skip(z - from) == input@.subrange(z as int, end as int));
        }
        if z == end {
            let mut digits: Vec<u8> = Vec::new();
            digits.push(ZERO);
            proof {
                lemma_positive_of_canonical(digits@);
            }
            return Some(BigNumber { negative: false, digits });
        }
        let ghost t = input@.subrange(z as int, end as int);
        match parse_digits(input, z, end) {
            None => None,
            Some(_) => {
                assert(all_digits(d)) by {
                    assert forall|j: int| 0 <= j < d.len() implies is_digit(#[trigger] d[j]) by {
                        if j >= z - from {
                            assert(d[j] == t[j - (z - from)]);
                        }
                    }
                }
                let digits = copy_range(input, z, end);
                proof {
                    lemma_positive_of_canonical(t);
                }
                Some(BigNumber { negative: minus, digits })
            },
        }
    }

    /// Reads the literal `text`: an optional sign and one or more digits.
    /// `None` where `text` is no such literal.
    pub fn from_decimal(text: &[u8]) -> (r: Option<BigNumber>)
        ensures
            r.is_some() <==> is_literal(text@),
            r matches Some(n) ==> n@ == literal_value(text@),
    {
        assert(text@.subrange(0, text.len() as int) =~= text@);
        BigNumber::parse(text, 0, text.len())
    }

    /// The big number that holds `n`.
    pub fn from_i64(n: i64) -> (r: BigNumber)
        ensures
            r@ == n,
    {
        let magnitude: u128 = if n == i64::MIN {
            9223372036854775808u128
        } else if n < 0 {
            (-n) as u128
        } else {
            n as u128
        };
        let mut digits: Vec<u8> = Vec::new();
        push_decimal(&mut digits, magnitude);
        proof {
            lemma_digits_of_value(magnitude as nat);
        }
        BigNumber { negative: n < 0, digits }
    }

    /// Whether the number is below zero.
    pub fn is_negative(&self) -> (r: bool)
        ensures
            r == (self@ < 0),
    {
        proof {
            use_type_invariant(self);
        }
        self.negative
    }

    /// The number where it fits 64 bits.
    pub fn to_i64(&self) -> (r: Option<i64>)
        ensures
            r matches Some(n) ==> n == self@,
            r.is_some() <==> i64::MIN <= self@ <= i64::MAX,
    {
        proof {
            use_type_invariant(self);
            assert(self.digits@.subrange(0, self.digits@.len() as int) == self.digits@);
        }
        match parse_digits(self.digits.as_slice(), 0, self.digits.len()) {
            Some(Some(m)) => {
                if self.negative {
                    if m <= 9223372036854775807u64 {
                        Some(-(m as i64))
                    } else if m == 9223372036854775808u64 {
                        Some(i64::MIN)
                    } else {
                        None
                    }
                } else if m <= 9223372036854775807u64 {
                    Some(m as i64)
                } else {
                    None
                }
            },
            _ => None,
        }
    }

    /// Appends the number to `out` as a signed decimal in shortest form.
    pub fn write(&self, out: &mut Vec<u8>)
        ensures
            final(out)@ == old(out)@ + signed_decimal_text(self@),
    {
        proof {
            use_type_invariant(self);
            lemma_value_of_digits(self.digits@);
        }
        if self.negative {
            out.push(MINUS);
        }
        append(out, self.digits.as_slice());
    }

    /// The number as a signed decimal in shortest form.
    pub fn to_decimal(&self) -> (r: Vec<u8>)
        ensures
            r@ == signed_decimal_text(self@),
    {
        let mut out: Vec<u8> = Vec::new();
        self.write(&mut out);
        out
    }
}

} // verus!
