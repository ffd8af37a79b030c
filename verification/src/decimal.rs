//! ASCII decimal numbers: what a run of digits is worth, and the digits of a
//! number.

use vstd::prelude::*;

verus! {

/// The byte `0`.
pub const ZERO: u8 = 48;

/// The byte `-`.
pub const MINUS: u8 = 45;

/// The byte `+`.
pub const PLUS: u8 = 43;

/// Whether `b` is an ASCII decimal digit.
pub open spec fn is_digit(b: u8) -> bool {
    48 <= b <= 57
}

/// Whether `s` holds ASCII decimal digits only.
pub open spec fn all_digits(s: Seq<u8>) -> bool {
    forall|i: int| 0 <= i < s.len() ==> is_digit(#[trigger] s[i])
}

/// What the digit `b` is worth.
pub open spec fn digit_value(b: u8) -> nat {
    if b >= 48 {
        (b - 48) as nat
    } else {
        0
    }
}

/// The number that the digits `s` write, most significant first.
pub open spec fn decimal_value(s: Seq<u8>) -> nat
    decreases s.len(),
{
    if s.len() == 0 {
        0
    } else {
        decimal_value(s.drop_last()) * 10 + digit_value(s.last())
    }
}

/// The digits of `n`, most significant first, without leading zeros.
pub open spec fn decimal_digits(n: nat) -> Seq<u8>
    decreases n,
{
    if n < 10 {
        seq![(48 + n) as u8]
    } else {
        decimal_digits(n / 10).push((48 + n % 10) as u8)
    }
}

/// Whether `s` is a run of digits in shortest form: not empty, and with a
/// leading zero only where it is the single digit `0`.
pub open spec fn canonical(s: Seq<u8>) -> bool {
    &&& s.len() >= 1
    &&& all_digits(s)
    &&& s.len() > 1 ==> s[0] != ZERO
}

/// Whether `s` is an optional `-` and at least one digit.
pub open spec fn is_signed_decimal(s: Seq<u8>) -> bool {
    if s.len() > 0 && s[0] == MINUS {
        s.len() > 1 && all_digits(s.skip(1))
    } else {
        s.len() > 0 && all_digits(s)
    }
}

/// The number that the signed decimal `s` writes.
pub open spec fn signed_decimal_value(s: Seq<u8>) -> int {
    if s.len() > 0 && s[0] == MINUS {
        -(decimal_value(s.skip(1)) as int)
    } else {
        decimal_value(s) as int
    }
}

/// The signed decimal that writes `n`: a `-` where it is negative, then the
/// digits of its magnitude.
pub open spec fn signed_decimal_text(n: int) -> Seq<u8> {
    if n < 0 {
        seq![MINUS] + decimal_digits((-n) as nat)
    } else {
        decimal_digits(n as nat)
    }
}

/// The digits of a number are in shortest form and write that number.
pub proof fn lemma_digits_of_value(n: nat)
    ensures
        canonical(decimal_digits(n)),
        decimal_value(decimal_digits(n)) == n,
    decreases n,
{
    if n < 10 {
        let s = decimal_digits(n);
        assert(decimal_value(s.drop_last()) == 0);
    } else {
        lemma_digits_of_value(n / 10);
        let p = decimal_digits(n / 10);
        let s = decimal_digits(n);
        assert(s.drop_last() == p);
        if p.len() == 1 {
            assert(decimal_value(p.drop_last()) == 0);
        }
    }
}

/// Digits in shortest form are the digits of the number that they write.
pub proof fn lemma_value_of_digits(s: Seq<u8>)
    requires
        canonical(s),
    ensures
        decimal_digits(decimal_value(s)) == s,
    decreases s.len(),
{
    let p = s.drop_last();
    if s.len() > 1 {
        lemma_value_of_digits(p);
    }
    assert(decimal_value(s) == decimal_value(p) * 10 + digit_value(s.last()));
}

/// Shortest-form digits write zero only as the single digit `0`.
pub proof fn lemma_positive_of_canonical(s: Seq<u8>)
    requires
        canonical(s),
    ensures
        decimal_value(s) == 0 <==> s == seq![ZERO],
    decreases s.len(),
{
    let p = s.drop_last();
    if s.len() == 1 {
        assert(decimal_value(p) == 0);
        if decimal_value(s) == 0 {
            assert(s =~= seq![ZERO]);
        }
    } else {
        lemma_positive_of_canonical(p);
    }
}

/// A signed decimal as read from text: its sign, and its magnitude where
/// that fits 64 bits.
#[derive(Clone, Copy, Debug, PartialEq, Eq, Structural)]
pub struct Signed {
    /// Whether the text begins with `-`.
    pub negative: bool,
    /// The magnitude; `None` where it is above `u64::MAX`.
    pub magnitude: Option<u64>,
}

impl Signed {
    /// Whether this is what reading a text that writes `v` gives.
    pub open spec fn reads(self, v: int) -> bool {
        match self.magnitude {
            Some(m) => v == (if self.negative {
                -(m as int)
            } else {
                m as int
            }),
            None => if self.negative {
                v < -(u64::MAX as int)
            } else {
                v > u64::MAX as int
            },
        }
    }
}

impl Signed {
    /// The number where it fits a signed 64-bit integer.
    pub fn to_i64(&self) -> (r: Option<i64>)
        ensures
            forall|v: int|
                self.reads(v) ==> {
                    &&& r.is_some() <==> i64::MIN <= v <= i64::MAX
                    &&& r matches Some(n) ==> n == v
                },
    {
        match self.magnitude {
            None => None,
            Some(m) => if self.negative {
                if m <= 9223372036854775807u64 {
                    Some(-(m as i64))
                } else if m == 9223372036854775808u64 {
                    Some(i64::MIN)
                } else {
                    None
                }
            } else if m <= 9223372036854775807u64 {
                Some(m as i64)
            } else {
                None
            },
        }
    }
}

/// Reads the digits `input[start..end]`.
///
/// `None`: the range is empty or holds a byte that is no digit. Otherwise the
/// number, or `Some(None)` where it is above `u64::MAX`.
pub fn parse_digits(input: &[u8], start: usize, end: usize) -> (r: Option<Option<u64>>)
    requires
        start <= end <= input.len(),
    ensures
        r.is_some() <==> start < end && all_digits(input@.subrange(start as int, end as int)),
        r matches Some(Some(m)) ==> m == decimal_value(input@.subrange(start as int, end as int)),
        r matches Some(None) ==> decimal_value(input@.subrange(start as int, end as int))
            > u64::MAX,
{
    if start == end {
        return None;
    }
    let ghost s = input@.subrange(start as int, end as int);
    let mut acc: u64 = 0;
    let mut fits = true;
    let mut i: usize = start;
    while i < end
        invariant
            start <= i <= end <= input.len(),
            s == input@.subrange(start as int, end as int),
            all_digits(s.take(i - start)),
            fits ==> acc == decimal_value(s.take(i - start)),
            !fits ==> decimal_value(s.take(i - start)) > u64::MAX,
        decreases end - i,
    {
        let b = input[i];
        let ghost k = i - start;
        assert(s[k] == b);
        if b < 48 || b > 57 {
            return None;
        }
        assert(s.take(k + 1).drop_last() == s.take(k));
        let d: u64 = (b - 48) as u64;
        if fits {
            if acc > (u64::MAX - d) / 10 {
                fits = false;
            } else {
                acc = acc * 10 + d;
            }
        }
        i += 1;
    }
    assert(s.take(end - start) == s);
    if fits {
        Some(Some(acc))
    } else {
        Some(None)
    }
}

/// Reads the signed decimal `input[start..end]`; `None` where the range is
/// not an optional `-` and at least one digit.
pub fn parse_signed(input: &[u8], start: usize, end: usize) -> (r: Option<Signed>)
    requires
        start <= end <= input.len(),
    ensures
        r.is_some() <==> is_signed_decimal(input@.subrange(start as int, end as int)),
        r matches Some(x) ==> x.reads(
            signed_decimal_value(input@.subrange(start as int, end as int)),
        ),
{
    let ghost s = input@.subrange(start as int, end as int);
    if start < end && input[start] == MINUS {
        assert(s.skip(1) == input@.subrange(start + 1, end as int));
        match parse_digits(input, start + 1, end) {
            Some(magnitude) => Some(Signed { negative: true, magnitude }),
            None => None,
        }
    } else {
        match parse_digits(input, start, end) {
            Some(magnitude) => Some(Signed { negative: false, magnitude }),
            None => None,
        }
    }
}

/// Appends the digits of `n` to `out`.
pub fn push_decimal(out: &mut Vec<u8>, n: u128)
    ensures
        final(out)@ == old(out)@ + decimal_digits(n as nat),
{
    let ghost digits = decimal_digits(n as nat);
    let ghost len = digits.len() as int;
    let mut rev: Vec<u8> = Vec::new();
    rev.push(48 + (n % 10) as u8);
    let mut m: u128 = n / 10;
    // All but the last digits taken so far are the digits of `m`.
    while m > 0
        invariant
            1 <= rev.len() <= len,
            len == digits.len(),
            forall|j: int| 0 <= j < rev.len() ==> rev[j] == digits[len - 1 - j],
            m > 0 ==> decimal_digits(m as nat) == digits.take(len - rev.len()),
            m == 0 ==> rev.len() == len,
        decreases m,
    {
        proof {
            lemma_digits_of_value(m as nat);
        }
        rev.push(48 + (m % 10) as u8);
        m = m / 10;
    }
    let mut j: usize = rev.len();
    while j > 0
        invariant
            j <= rev.len() == len,
            len == digits.len(),
            forall|i: int| 0 <= i < rev.len() ==> rev[i] == digits[len - 1 - i],
            out@ == old(out)@ + digits.take(len - j),
        decreases j,
    {
        j -= 1;
        out.push(rev[j]);
    }
}

/// Appends the signed decimal of `n` to `out`.
pub fn push_signed(out: &mut Vec<u8>, n: i64)
    ensures
        final(out)@ == old(out)@ + signed_decimal_text(n as int),
{
    if n < 0 {
        out.push(MINUS);
        let magnitude: u128 = if n == i64::MIN {
            9223372036854775808u128
        } else {
            (-n) as u128
        };
        push_decimal(out, magnitude);
    } else {
        push_decimal(out, n as u128);
    }
}

} // verus!
