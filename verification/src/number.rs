//! Decimal number literals and their numeric values.

use crate::text::chars_of;
use vstd::prelude::*;

verus! {

/// The number that a decimal literal denotes: `coefficient / 10^scale`,
/// negated where `negative` is set.
pub struct Decimal {
    pub negative: bool,
    pub coefficient: nat,
    pub scale: nat,
}

/// Ten to the power of `exponent`.
pub open spec fn pow10(exponent: nat) -> nat
    decreases exponent,
{
    if exponent == 0 {
        1
    } else {
        10 * pow10((exponent - 1) as nat)
    }
}

impl Decimal {
    /// The coefficient with its sign.
    pub open spec fn numerator(self) -> int {
        if self.negative {
            -(self.coefficient as int)
        } else {
            self.coefficient as int
        }
    }

    /// Whether two decimals denote the same number, whatever their scales:
    /// `1.50` and `1.5` do, and so do `0` and `-0.0`.
    pub open spec fn same_number(self, other: Decimal) -> bool {
        self.numerator() * pow10(other.scale) == other.numerator() * pow10(self.scale)
    }

    /// Whether the decimal fits the machine representation of [`Number`].
    pub open spec fn fits(self) -> bool {
        self.coefficient <= u64::MAX && self.scale <= 19
    }
}

pub open spec fn is_digit(c: char) -> bool {
    48 <= c as u32 <= 57
}

pub open spec fn digit_value(c: char) -> nat {
    if is_digit(c) {
        (c as u32 - 48) as nat
    } else {
        0
    }
}

/// The number that a sequence of decimal digits denotes.
pub open spec fn digits_value(digits: Seq<char>) -> nat
    decreases digits.len(),
{
    if digits.len() == 0 {
        0
    } else {
        digits_value(digits.drop_last()) * 10 + digit_value(digits.last())
    }
}

/// How many digits `text` starts with.
pub open spec fn digit_run(text: Seq<char>) -> nat
    decreases text.len(),
{
    if text.len() > 0 && is_digit(text[0]) {
        1 + digit_run(text.drop_first())
    } else {
        0
    }
}

pub open spec fn has_sign(text: Seq<char>) -> bool {
    text.len() > 0 && text[0] == '-'
}

/// The digits of a literal before and after the decimal point, or `None`
/// where `text` is no literal. A literal is an optional `-`, one or more
/// digits, and optionally a `.` followed by one or more digits.
pub open spec fn literal_digits(text: Seq<char>) -> Option<(Seq<char>, Seq<char>)> {
    let body = if has_sign(text) {
        text.drop_first()
    } else {
        text
    };
    let run = digit_run(body);
    if run == 0 {
        None
    } else if run == body.len() {
        Some((body, Seq::empty()))
    } else if body[run as int] == '.' {
        let fraction = body.subrange(run as int + 1, body.len() as int);
        if fraction.len() > 0 && digit_run(fraction) == fraction.len() {
            Some((body.subrange(0, run as int), fraction))
        } else {
            None
        }
    } else {
        None
    }
}

/// The number that a literal denotes, or `None` where `text` is no literal.
pub open spec fn literal_value(text: Seq<char>) -> Option<Decimal> {
    match literal_digits(text) {
        Some((integer, fraction)) => Some(
            Decimal {
                negative: has_sign(text),
                coefficient: digits_value(integer + fraction),
                scale: fraction.len(),
            },
        ),
        None => None,
    }
}

/// A run of digits that ends at `run` is the digit run of the text.
proof fn lemma_digit_run(text: Seq<char>, run: nat)
    requires
        run <= text.len(),
        forall|j: int| 0 <= j < run ==> is_digit(#[trigger] text[j]),
        run == text.len() || !is_digit(text[run as int]),
    ensures
        digit_run(text) == run,
    decreases run,
{
    if run > 0 {
        let rest = text.drop_first();
        assert forall|j: int| 0 <= j < run - 1 implies is_digit(#[trigger] rest[j]) by {
            assert(rest[j] == text[j + 1]);
        }
        lemma_digit_run(rest, (run - 1) as nat);
    }
}

/// Appending a digit multiplies the value by ten and adds the digit.
proof fn lemma_value_push(digits: Seq<char>, c: char)
    ensures
        digits_value(digits.push(c)) == digits_value(digits) * 10 + digit_value(c),
{
    assert(digits.push(c).drop_last() =~= digits);
}

/// A prefix of a digit sequence denotes no more than the whole.
proof fn lemma_prefix_value(digits: Seq<char>, len: nat)
    requires
        len <= digits.len(),
    ensures
        digits_value(digits.take(len as int)) <= digits_value(digits),
    decreases digits.len() - len,
{
    if len < digits.len() {
        lemma_prefix_value(digits, len + 1);
        assert(digits.take(len as int + 1) =~= digits.take(len as int).push(digits[len as int]));
        lemma_value_push(digits.take(len as int), digits[len as int]);
    } else {
        assert(digits.take(len as int) =~= digits);
    }
}

proof fn lemma_pow10_bound(exponent: nat)
    requires
        exponent <= 19,
    ensures
        0 < pow10(exponent) <= 10_000_000_000_000_000_000,
    decreases 19 - exponent,
{
    if exponent < 19 {
        lemma_pow10_bound(exponent + 1);
    } else {
        reveal_with_fuel(pow10, 20);
    }
}

fn is_digit_char(c: char) -> (digit: bool)
    ensures
        digit == is_digit(c),
{
    let code: u32 = c as u32;
    48 <= code && code <= 57
}

fn pow10_u64(exponent: u32) -> (power: u64)
    requires
        exponent <= 19,
    ensures
        power == pow10(exponent as nat),
{
    let mut power: u64 = 1;
    let mut i: u32 = 0;
    while i < exponent
        invariant
            i <= exponent <= 19,
            power == pow10(i as nat),
        decreases exponent - i,
    {
        proof {
            lemma_pow10_bound((i + 1) as nat);
        }
        power = power * 10;
        i += 1;
    }
    power
}

/// A decimal literal together with the number that it denotes. The
/// coefficient is held in 64 bits and the scale is at most 19, so that two
/// numbers can be compared exactly in 128-bit arithmetic.
#[derive(Debug)]
pub struct Number {
    literal: String,
    negative: bool,
    coefficient: u64,
    scale: u32,
}

impl Number {
    #[verifier::type_invariant]
    spec fn well_formed(&self) -> bool {
        &&& self.scale <= 19
        &&& literal_value(self.literal@) == Some(self.value())
    }

    /// The number that the literal denotes.
    pub closed spec fn value(&self) -> Decimal {
        Decimal {
            negative: self.negative,
            coefficient: self.coefficient as nat,
            scale: self.scale as nat,
        }
    }

    /// The literal as it was written.
    pub closed spec fn text(&self) -> Seq<char> {
        self.literal@
    }

    /// Reads a literal. Succeeds exactly on the literals whose value fits.
    pub fn parse(literal: &str) -> (number: Option<Number>)
        ensures
            number.is_some() == (literal_value(literal@) matches Some(d) && d.fits()),
            number matches Some(n) ==> n.text() == literal@ && Some(n.value()) == literal_value(
                literal@,
            ),
    {
        let t = chars_of(literal);
        let n = t.len();
        let negative = n > 0 && t[0] == '-';
        let first: usize = if negative {
            1
        } else {
            0
        };
        let ghost body = if has_sign(literal@) {
            literal@.drop_first()
        } else {
            literal@
        };
        assert(body =~= t@.subrange(first as int, n as int));
        let mut digits: Vec<char> = Vec::new();
        let mut i: usize = first;
        while i < n && is_digit_char(t[i])
            invariant
                first <= i <= n,
                n == t.len(),
                digits@ == t@.subrange(first as int, i as int),
                forall|j: int| first <= j < i ==> is_digit(#[trigger] t@[j]),
            decreases n - i,
        {
            digits.push(t[i]);
            assert(t@.subrange(first as int, i + 1) =~= t@.subrange(first as int, i as int).push(
                t@[i as int],
            ));
            i += 1;
        }
        let run: usize = i - first;
        proof {
            assert forall|j: int| 0 <= j < run implies is_digit(#[trigger] body[j]) by {
                assert(body[j] == t@[first + j]);
            }
            lemma_digit_run(body, run as nat);
        }
        if run == 0 {
            return None;
        }
        let mut scale: usize = 0;
        let ghost integer = t@.subrange(first as int, i as int);
        let ghost fraction = Seq::<char>::empty();
        if i < n {
            if t[i] != '.' {
                return None;
            }
            let start: usize = i + 1;
            proof {
                fraction = body.subrange(run + 1, body.len() as int);
                assert(fraction =~= t@.subrange(start as int, n as int));
                assert(integer =~= body.subrange(0, run as int));
            }
            let mut j: usize = start;
            while j < n && is_digit_char(t[j])
                invariant
                    start <= j <= n,
                    n == t.len(),
                    digits@ == integer + t@.subrange(start as int, j as int),
                    forall|k: int| start <= k < j ==> is_digit(#[trigger] t@[k]),
                decreases n - j,
            {
                digits.push(t[j]);
                assert(t@.subrange(start as int, j + 1) =~= t@.subrange(
                    start as int,
                    j as int,
                ).push(t@[j as int]));
                assert(integer + t@.subrange(start as int, j + 1) =~= (integer + t@.subrange(
                    start as int,
                    j as int,
                )).push(t@[j as int]));
                j += 1;
            }
            proof {
                assert forall|k: int| 0 <= k < j - start implies is_digit(
                    #[trigger] fraction[k],
                ) by {
                    assert(fraction[k] == t@[start + k]);
                }
                lemma_digit_run(fraction, (j - start) as nat);
            }
            if j == start || j < n {
                return None;
            }
            scale = n - start;
        } else {
            assert(integer =~= body);
            assert(digits@ =~= integer + fraction);
        }
        assert(literal_digits(literal@) == Some((integer, fraction)));
        assert(digits@ == integer + fraction);
        assert(scale == fraction.len());
        if scale > 19 {
            return None;
        }
        assert forall|k: int| 0 <= k < digits@.len() implies is_digit(#[trigger] digits@[k]) by {
            if k < integer.len() {
                assert(digits@[k] == t@[first + k]);
            } else {
                assert(digits@[k] == fraction[k - integer.len()]);
                assert(fraction[k - integer.len()] == t@[i + 1 + (k - integer.len())]);
            }
        }
        let mut coefficient: u64 = 0;
        let mut k: usize = 0;
        while k < digits.len()
            invariant
                k <= digits.len(),
                literal_digits(literal@) == Some((integer, fraction)),
                digits@ == integer + fraction,
                coefficient == digits_value(digits@.take(k as int)),
                forall|k: int| 0 <= k < digits@.len() ==> is_digit(#[trigger] digits@[k]),
            decreases digits.len() - k,
        {
            let digit: u64 = (digits[k] as u32 - 48) as u64;
            proof {
                assert(digits@.take(k + 1) =~= digits@.take(k as int).push(digits@[k as int]));
                lemma_value_push(digits@.take(k as int), digits@[k as int]);
                lemma_prefix_value(digits@, (k + 1) as nat);
            }
            if coefficient > (u64::MAX - digit) / 10 {
                return None;
            }
            coefficient = coefficient * 10 + digit;
            k += 1;
        }
        assert(digits@.take(k as int) =~= digits@);
        Some(Number { literal: literal.to_owned(), negative, coefficient, scale: scale as u32 })
    }

    /// Whether two numbers are equal as numbers, whatever their literals.
    pub fn same_number(&self, other: &Number) -> (same: bool)
        ensures
            same == self.value().same_number(other.value()),
    {
        proof {
            use_type_invariant(self);
            use_type_invariant(other);
            lemma_pow10_bound(self.scale as nat);
            lemma_pow10_bound(other.scale as nat);
        }
        let p: u128 = pow10_u64(other.scale) as u128;
        let q: u128 = pow10_u64(self.scale) as u128;
        let a: u128 = self.coefficient as u128;
        let b: u128 = other.coefficient as u128;
        assert(a * p <= 0xffff_ffff_ffff_ffff * 10_000_000_000_000_000_000) by (nonlinear_arith)
            requires
                a <= 0xffff_ffff_ffff_ffff,
                p <= 10_000_000_000_000_000_000,
        ;
        assert(b * q <= 0xffff_ffff_ffff_ffff * 10_000_000_000_000_000_000) by (nonlinear_arith)
            requires
                b <= 0xffff_ffff_ffff_ffff,
                q <= 10_000_000_000_000_000_000,
        ;
        let left: u128 = a * p;
        let right: u128 = b * q;
        proof {
            lemma_signed_products(self.negative, a as int, p as int, other.negative, b as int, q as int);
        }
        left == right && (self.negative == other.negative || self.coefficient == 0)
    }

    /// The literal as it was written.
    pub fn literal(&self) -> (text: &str)
        ensures
            text@ == self.text(),
            literal_value(text@) == Some(self.value()),
            self.value().fits(),
    {
        proof {
            use_type_invariant(self);
        }
        self.literal.as_str()
    }
}

impl Clone for Number {
    fn clone(&self) -> (copy: Self)
        ensures
            copy == *self,
    {
        proof {
            use_type_invariant(self);
        }
        Number {
            literal: self.literal.clone(),
            negative: self.negative,
            coefficient: self.coefficient,
            scale: self.scale,
        }
    }
}

/// Two signed products of a magnitude and a positive factor are equal exactly
/// when the unsigned products are and the signs agree or both are zero.
proof fn lemma_signed_products(
    a_negative: bool,
    a: int,
    p: int,
    b_negative: bool,
    b: int,
    q: int,
)
    requires
        a >= 0,
        b >= 0,
        p > 0,
        q > 0,
    ensures
        ((if a_negative {
            -a
        } else {
            a
        }) * p == (if b_negative {
            -b
        } else {
            b
        }) * q) == (a * p == b * q && (a_negative == b_negative || a == 0)),
{
    assert((-a) * p == -(a * p)) by (nonlinear_arith);
    assert((-b) * q == -(b * q)) by (nonlinear_arith);
    assert(a * p >= 0 && (a > 0 ==> a * p > 0)) by (nonlinear_arith)
        requires
            a >= 0,
            p > 0,
    ;
    assert(b * q >= 0 && (b > 0 ==> b * q > 0)) by (nonlinear_arith)
        requires
            b >= 0,
            q > 0,
    ;
}

} // verus!
