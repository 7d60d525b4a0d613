//! The numbers of the language: exact decimals with nine fractional digits.
//!
//! A number is a whole count of billionths, so that sums, differences and
//! comparisons are exact and products and quotients are cut off after the
//! ninth fractional digit. Its magnitude is at most ten to the nineteenth;
//! an operation whose result would lie beyond that yields `None`.

use vstd::prelude::*;
use crate::text::{decimal, digit_char, digit_of, pow10, push_decimal};

verus! {

/// How many units make one: each unit is a billionth.
pub const SCALE: i128 = 1_000_000_000;

/// The largest magnitude of a number, in units.
pub const LIMIT: i128 = 10_000_000_000_000_000_000_000_000_000;

/// An exact decimal number with nine fractional digits.
#[derive(Clone, Copy, Debug, PartialEq, Eq, PartialOrd, Ord)]
pub struct Number {
    units: i128,
}

/// Whether a count of units is one that a `Number` can hold.
pub open spec fn in_range(units: int) -> bool {
    -LIMIT <= units <= LIMIT
}

/// The magnitude of `n`.
pub open spec fn magnitude(n: int) -> nat {
    if n < 0 {
        (-n) as nat
    } else {
        n as nat
    }
}

/// `n / d`, rounded toward zero. Zero where `d` is zero.
pub open spec fn truncated(n: int, d: int) -> int {
    if d == 0 {
        0
    } else if (n < 0) != (d < 0) {
        -((magnitude(n) / magnitude(d)) as int)
    } else {
        (magnitude(n) / magnitude(d)) as int
    }
}

/// The product of two numbers given in units, in units.
pub open spec fn product(a: int, b: int) -> int {
    truncated(a * b, SCALE as int)
}

/// The quotient of two numbers given in units, in units.
pub open spec fn quotient(a: int, b: int) -> int {
    truncated(a * SCALE, b)
}

/// The digits of a fraction of `width` digits that holds `f`, most
/// significant first and without trailing zeros.
pub open spec fn fraction_digits(f: nat, width: nat) -> Seq<char>
    decreases width,
{
    if f == 0 || width == 0 {
        Seq::empty()
    } else {
        let top = pow10((width - 1) as nat);
        seq![digit_of((f / top) as int)] + fraction_digits(f % top, (width - 1) as nat)
    }
}

/// How a number given in units is written: a minus sign where it is
/// negative, its whole part, and, where it has a fraction, a point and
/// the fraction's digits.
pub open spec fn number_text(units: int) -> Seq<char> {
    let m = magnitude(units);
    let sign = if units < 0 {
        seq!['-']
    } else {
        Seq::empty()
    };
    let fraction = if m % (SCALE as nat) == 0 {
        Seq::empty()
    } else {
        seq!['.'] + fraction_digits(m % (SCALE as nat), 9)
    };
    sign + decimal(m / (SCALE as nat)) + fraction
}

impl View for Number {
    type V = int;

    /// The number in units, that is in billionths.
    closed spec fn view(&self) -> int {
        self.units as int
    }
}

impl Number {
    #[verifier::type_invariant]
    spec fn bounded(self) -> bool {
        in_range(self.units as int)
    }

    /// Zero.
    pub fn zero() -> (n: Number)
        ensures
            n@ == 0,
    {
        Number { units: 0 }
    }

    /// The number that holds `units` billionths, where that is in range.
    pub fn from_units(units: i128) -> (r: Option<Number>)
        ensures
            r is Some <==> in_range(units as int),
            r matches Some(n) ==> n@ == units,
    {
        if -LIMIT <= units && units <= LIMIT {
            Some(Number { units })
        } else {
            None
        }
    }

    /// The whole number `v`.
    pub fn from_i64(v: i64) -> (n: Number)
        ensures
            n@ == v * SCALE,
    {
        let wide: i128 = v as i128;
        Number { units: wide * SCALE }
    }

    /// The number with the given sign, whole part and fraction in
    /// billionths, where the fraction is below one and the number in
    /// range.
    pub fn from_parts(negative: bool, whole: u64, billionths: u32) -> (r: Option<Number>)
        ensures
            r is Some <==> billionths < SCALE && in_range(whole * SCALE + billionths),
            r matches Some(n) ==> n@ == if negative {
                -(whole * SCALE + billionths)
            } else {
                whole * SCALE + billionths
            },
    {
        if billionths as i128 >= SCALE {
            return None;
        }
        let m: i128 = (whole as i128) * SCALE + billionths as i128;
        if m > LIMIT {
            return None;
        }
        if negative {
            Some(Number { units: -m })
        } else {
            Some(Number { units: m })
        }
    }

    /// The number in units.
    pub fn units(self) -> (u: i128)
        ensures
            u == self@,
            in_range(u as int),
    {
        proof {
            use_type_invariant(self);
        }
        self.units
    }

    fn size(self) -> (m: u128)
        ensures
            m == magnitude(self@),
            m <= LIMIT,
    {
        proof {
            use_type_invariant(self);
        }
        if self.units < 0 {
            (-self.units) as u128
        } else {
            self.units as u128
        }
    }

    fn signed(negative: bool, m: u128) -> (n: Number)
        requires
            m <= LIMIT,
        ensures
            n@ == if negative {
                -(m as int)
            } else {
                m as int
            },
    {
        if negative {
            Number { units: -(m as i128) }
        } else {
            Number { units: m as i128 }
        }
    }

    /// The sum, where it is in range.
    pub fn add(self, other: Number) -> (r: Option<Number>)
        ensures
            r is Some <==> in_range(self@ + other@),
            r matches Some(n) ==> n@ == self@ + other@,
    {
        proof {
            use_type_invariant(self);
            use_type_invariant(other);
        }
        Number::from_units(self.units + other.units)
    }

    /// The difference, where it is in range.
    pub fn sub(self, other: Number) -> (r: Option<Number>)
        ensures
            r is Some <==> in_range(self@ - other@),
            r matches Some(n) ==> n@ == self@ - other@,
    {
        proof {
            use_type_invariant(self);
            use_type_invariant(other);
        }
        Number::from_units(self.units - other.units)
    }

    /// The number with the opposite sign.
    pub fn neg(self) -> (n: Number)
        ensures
            n@ == -self@,
            in_range(n@),
    {
        proof {
            use_type_invariant(self);
        }
        Number { units: -self.units }
    }

    /// The product, cut off after the ninth fractional digit, where it is
    /// in range.
    pub fn mul(self, other: Number) -> (r: Option<Number>)
        ensures
            r is Some <==> in_range(product(self@, other@)),
            r matches Some(n) ==> n@ == product(self@, other@),
    {
        let a: u128 = self.size();
        let b: u128 = other.size();
        let scale: u128 = SCALE as u128;
        let ai: u128 = a / scale;
        let af: u128 = a % scale;
        let bi: u128 = b / scale;
        let bf: u128 = b % scale;
        let negative = (self.units < 0) != (other.units < 0);
        proof {
            lemma_split_product(a as int, b as int);
            lemma_product_sign(self@, other@);
            assert(ai * bi <= 10_000_000_000_000_000_000 * 10_000_000_000_000_000_000)
                by (nonlinear_arith)
                requires
                    ai <= 10_000_000_000_000_000_000,
                    bi <= 10_000_000_000_000_000_000,
            ;
            assert(ai * bf <= 10_000_000_000_000_000_000 * 1_000_000_000) by (nonlinear_arith)
                requires
                    ai <= 10_000_000_000_000_000_000,
                    bf <= 1_000_000_000,
            ;
            assert(af * bi <= 1_000_000_000 * 10_000_000_000_000_000_000) by (nonlinear_arith)
                requires
                    bi <= 10_000_000_000_000_000_000,
                    af <= 1_000_000_000,
            ;
            assert(af * bf <= 1_000_000_000 * 1_000_000_000) by (nonlinear_arith)
                requires
                    af <= 1_000_000_000,
                    bf <= 1_000_000_000,
            ;
            assert(0 <= ai * bf && 0 <= af * bi && 0 <= af * bf && 0 <= ai * bi)
                by (nonlinear_arith)
                requires
                    0 <= ai,
                    0 <= bi,
                    0 <= af,
                    0 <= bf,
            ;
        }
        let whole: u128 = ai * bi;
        if whole > 10_000_000_000_000_000_000 {
            proof {
                assert(whole * 1_000_000_000 > 10_000_000_000_000_000_000_000_000_000)
                    by (nonlinear_arith)
                    requires
                        whole > 10_000_000_000_000_000_000,
                ;
            }
            return None;
        }
        proof {
            assert(whole * 1_000_000_000 <= 10_000_000_000_000_000_000_000_000_000)
                by (nonlinear_arith)
                requires
                    whole <= 10_000_000_000_000_000_000,
            ;
        }
        let m: u128 = whole * scale + ai * bf + af * bi + (af * bf) / scale;
        if m > LIMIT as u128 {
            return None;
        }
        Some(Number::signed(negative && m != 0, m))
    }

    /// The quotient, cut off after the ninth fractional digit, where the
    /// divisor is not zero and the quotient is in range.
    pub fn div(self, other: Number) -> (r: Option<Number>)
        ensures
            r is Some <==> other@ != 0 && in_range(quotient(self@, other@)),
            r matches Some(n) ==> n@ == quotient(self@, other@),
    {
        let a: u128 = self.size();
        let b: u128 = other.size();
        if b == 0 {
            return None;
        }
        let negative = (self.units < 0) != (other.units < 0);
        proof {
            lemma_quotient_sign(self@, other@);
        }
        let m: u128 = (a * (SCALE as u128)) / b;
        if m > LIMIT as u128 {
            return None;
        }
        Some(Number::signed(negative && m != 0, m))
    }

    /// Whether `self` is less than `other`.
    pub fn lt(self, other: Number) -> (b: bool)
        ensures
            b == (self@ < other@),
    {
        self.units < other.units
    }

    /// Whether `self` is at most `other`.
    pub fn le(self, other: Number) -> (b: bool)
        ensures
            b == (self@ <= other@),
    {
        self.units <= other.units
    }

    /// Whether the two are the same number.
    pub fn same(self, other: Number) -> (b: bool)
        ensures
            b == (self@ == other@),
    {
        self.units == other.units
    }

    /// The whole part, rounded toward zero.
    pub fn whole(self) -> (w: i128)
        ensures
            w == truncated(self@, SCALE as int),
    {
        let m: u128 = self.size();
        let q: i128 = (m / (SCALE as u128)) as i128;
        if self.units < 0 {
            -q
        } else {
            q
        }
    }

    /// The number as it is printed.
    pub fn to_string(self) -> (s: String)
        ensures
            s@ == number_text(self@),
    {
        let m: u128 = self.size();
        let scale: u128 = SCALE as u128;
        let mut s = String::new();
        if self.units < 0 {
            s.push('-');
        }
        let ghost sign = s@;
        push_decimal(&mut s, m / scale);
        let mut f: u128 = m % scale;
        if f != 0 {
            s.push('.');
            let ghost head = s@;
            let mut top: u128 = 100_000_000;
            let mut width: u8 = 9;
            proof {
                reveal_with_fuel(pow10, 10);
            }
            while f != 0 && width > 0
                invariant
                    width <= 9,
                    top == pow10((width - 1) as nat) || width == 0,
                    f < pow10(width as nat),
                    head + fraction_digits((m % scale) as nat, 9) == s@ + fraction_digits(
                        f as nat,
                        width as nat,
                    ),
                decreases width,
            {
                proof {
                    assert(pow10(width as nat) == 10 * pow10((width - 1) as nat));
                    assert(f / top < 10) by (nonlinear_arith)
                        requires
                            f < 10 * top,
                            top > 0,
                    ;
                    if width > 1 {
                        assert(pow10((width - 1) as nat) == 10 * pow10((width - 2) as nat));
                    }
                }
                let d = digit_char((f / top) as u8);
                let ghost before = s@;
                s.push(d);
                proof {
                    assert(before + (seq![d] + fraction_digits(
                        (f % top) as nat,
                        (width - 1) as nat,
                    )) =~= before.push(d) + fraction_digits(
                        (f % top) as nat,
                        (width - 1) as nat,
                    ));
                }
                f = f % top;
                top = top / 10;
                width = width - 1;
            }
            proof {
                assert(fraction_digits(f as nat, width as nat) =~= Seq::<char>::empty());
                assert(s@ + Seq::<char>::empty() =~= s@);
                assert(sign + decimal((m / scale) as nat) + (seq!['.'] + fraction_digits(
                    (m % scale) as nat,
                    9,
                )) =~= head + fraction_digits((m % scale) as nat, 9));
            }
        } else {
            proof {
                assert(s@ + Seq::<char>::empty() =~= s@);
            }
        }
        s
    }
}

/// The magnitude of a product falls into whole parts and fractions.
proof fn lemma_split_product(a: int, b: int)
    requires
        0 <= a,
        0 <= b,
    ensures
        (a * b) / (SCALE as int) == (a / (SCALE as int)) * (b / (SCALE as int)) * SCALE + (a / (
        SCALE as int)) * (b % (SCALE as int)) + (a % (SCALE as int)) * (b / (SCALE as int)) + ((a
            % (SCALE as int)) * (b % (SCALE as int))) / (SCALE as int),
{
    let s = SCALE as int;
    let ai = a / s;
    let af = a % s;
    let bi = b / s;
    let bf = b % s;
    let k = ai * bi * s + ai * bf + af * bi;
    assert(a == ai * s + af);
    assert(b == bi * s + bf);
    assert(a * b == k * s + af * bf) by (nonlinear_arith)
        requires
            a == ai * s + af,
            b == bi * s + bf,
            k == ai * bi * s + ai * bf + af * bi,
    ;
    assert(0 <= af * bf) by (nonlinear_arith)
        requires
            0 <= af,
            0 <= bf,
    ;
    vstd::arithmetic::div_mod::lemma_div_multiples_vanish_fancy(k, af * bf % s, s);
    vstd::arithmetic::div_mod::lemma_fundamental_div_mod(af * bf, s);
    let q = (af * bf) / s;
    let r = (af * bf) % s;
    assert(a * b == (k + q) * s + r) by (nonlinear_arith)
        requires
            a * b == k * s + af * bf,
            af * bf == s * q + r,
    ;
    vstd::arithmetic::div_mod::lemma_fundamental_div_mod_converse(a * b, s, k + q, r);
}

/// The magnitude of a product is the product of the magnitudes, and its
/// sign follows the signs.
proof fn lemma_product_sign(a: int, b: int)
    ensures
        magnitude(a * b) == magnitude(a) * magnitude(b),
        (a * b < 0) == (((a < 0) != (b < 0)) && a != 0 && b != 0),
{
    assert(magnitude(a * b) == magnitude(a) * magnitude(b)) by (nonlinear_arith)
        requires
            true,
    {
        if a < 0 {
            if b < 0 {
                assert(a * b == (-a) * (-b));
            } else {
                assert(-(a * b) == (-a) * b);
            }
        } else {
            if b < 0 {
                assert(-(a * b) == a * (-b));
            }
        }
    }
    assert((a * b < 0) == (((a < 0) != (b < 0)) && a != 0 && b != 0)) by (nonlinear_arith);
}

/// The same for a number scaled up and divided.
proof fn lemma_quotient_sign(a: int, b: int)
    ensures
        magnitude(a * SCALE) == magnitude(a) * SCALE,
        (a * SCALE < 0) == (a < 0),
{
}

} // verus!
