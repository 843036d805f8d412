//! Real numbers as the export reads them: binary fractions, rendered in
//! fixed-point decimal notation by exact integer arithmetic.

use crate::digits::{
    decimal, decimal_padded, digits_of, double_digits, le_canonical, le_value, lemma_ten_to_bound,
    lemma_ten_to_monotonic, lemma_ten_to_positive, lemma_two_to_bound, lemma_two_to_monotonic,
    ten_power, ten_to, two_power, two_to,
};
use crate::text::{push_decimal, push_digit_list, push_padded};
use vstd::arithmetic::div_mod::*;
use vstd::prelude::*;
use vstd::string::StringExecFns;

verus! {

/// The most fraction digits that the renderer's 128-bit arithmetic can round to.
pub const MAX_PLACES: u32 = 18;

/// A sample value or calibration constant.
///
/// A finite value is `mantissa * 2^exponent`, negated when `negative` is set;
/// zero may carry a sign.  Every 32-bit and 64-bit binary floating-point
/// number is one of these, exactly.
#[derive(Clone, Copy, Debug, PartialEq, Eq, Structural)]
pub enum Real {
    Finite { negative: bool, mantissa: u64, exponent: i16 },
    Infinite { negative: bool },
    NotANumber,
}

/// The quotient `n / d` rounded to the nearest natural number; a quotient
/// exactly halfway between two goes to the even one.
pub open spec fn round_half_even(n: nat, d: nat) -> nat {
    let q = n / d;
    let r = n % d;
    if 2 * r < d || (2 * r == d && q % 2 == 0) {
        q
    } else {
        q + 1
    }
}

/// The sign that precedes a magnitude.
pub open spec fn sign_text(negative: bool) -> Seq<char> {
    if negative {
        seq!['-']
    } else {
        Seq::empty()
    }
}

/// The fraction part of fixed-point notation: nothing for zero places, else
/// the point and exactly `places` digits.
pub open spec fn fraction_text(fraction: nat, places: nat) -> Seq<char> {
    if places == 0 {
        Seq::empty()
    } else {
        seq!['.'] + decimal_padded(fraction, places)
    }
}

impl Real {
    /// The value that a 32-bit binary floating-point encoding stands for.
    pub open spec fn single(bits: u32) -> Real {
        let negative = bits >= 0x8000_0000;
        let biased = (bits / 0x80_0000) % 0x100;
        let fraction = bits % 0x80_0000;
        if biased == 0xFF {
            if fraction == 0 {
                Real::Infinite { negative }
            } else {
                Real::NotANumber
            }
        } else if biased == 0 {
            Real::Finite { negative, mantissa: fraction as u64, exponent: -149i16 }
        } else {
            Real::Finite {
                negative,
                mantissa: (fraction + 0x80_0000) as u64,
                exponent: (biased - 150) as i16,
            }
        }
    }

    /// The value that a 64-bit binary floating-point encoding stands for.
    pub open spec fn double(bits: u64) -> Real {
        let negative = bits >= 0x8000_0000_0000_0000;
        let biased = (bits / 0x10_0000_0000_0000) % 0x800;
        let fraction = bits % 0x10_0000_0000_0000;
        if biased == 0x7FF {
            if fraction == 0 {
                Real::Infinite { negative }
            } else {
                Real::NotANumber
            }
        } else if biased == 0 {
            Real::Finite { negative, mantissa: fraction as u64, exponent: -1074i16 }
        } else {
            Real::Finite {
                negative,
                mantissa: (fraction + 0x10_0000_0000_0000) as u64,
                exponent: (biased - 1075) as i16,
            }
        }
    }

    /// Decodes a 32-bit binary floating-point encoding.
    pub fn from_single_bits(bits: u32) -> (r: Real)
        ensures
            r == Real::single(bits),
    {
        let negative: bool = bits >= 0x8000_0000;
        let biased: u32 = (bits / 0x80_0000) % 0x100;
        let fraction: u32 = bits % 0x80_0000;
        if biased == 0xFF {
            if fraction == 0 {
                Real::Infinite { negative }
            } else {
                Real::NotANumber
            }
        } else if biased == 0 {
            Real::Finite { negative, mantissa: fraction as u64, exponent: -149 }
        } else {
            Real::Finite {
                negative,
                mantissa: (fraction + 0x80_0000) as u64,
                exponent: (biased as i16) - 150,
            }
        }
    }

    /// Decodes a 64-bit binary floating-point encoding.
    pub fn from_double_bits(bits: u64) -> (r: Real)
        ensures
            r == Real::double(bits),
    {
        let negative: bool = bits >= 0x8000_0000_0000_0000;
        let biased: u64 = (bits / 0x10_0000_0000_0000) % 0x800;
        let fraction: u64 = bits % 0x10_0000_0000_0000;
        if biased == 0x7FF {
            if fraction == 0 {
                Real::Infinite { negative }
            } else {
                Real::NotANumber
            }
        } else if biased == 0 {
            Real::Finite { negative, mantissa: fraction, exponent: -1074 }
        } else {
            Real::Finite {
                negative,
                mantissa: fraction + 0x10_0000_0000_0000,
                exponent: (biased as i16) - 1075,
            }
        }
    }

    /// Whether the value is a number, not an infinity or a failed computation.
    pub open spec fn is_finite(self) -> bool {
        self is Finite
    }

    /// The numerator of the magnitude of a finite value, over `denominator`.
    pub open spec fn numerator(self) -> nat {
        match self {
            Real::Finite { negative, mantissa, exponent } => {
                if exponent >= 0 {
                    mantissa as nat * two_to(exponent as nat)
                } else {
                    mantissa as nat
                }
            },
            _ => 0,
        }
    }

    /// The denominator of the magnitude of a finite value: a power of two.
    pub open spec fn denominator(self) -> nat {
        match self {
            Real::Finite { negative, mantissa, exponent } => {
                if exponent >= 0 {
                    1
                } else {
                    two_to((-exponent) as nat)
                }
            },
            _ => 1,
        }
    }

    /// Whether two values are the same number with the same sign, however
    /// each is held.
    pub open spec fn same_value(self, other: Real) -> bool {
        match (self, other) {
            (
                Real::Finite { negative, mantissa, exponent },
                Real::Finite { negative: other_negative, mantissa: _, exponent: _ },
            ) => {
                &&& negative == other_negative
                &&& self.numerator() * other.denominator() == other.numerator()
                    * self.denominator()
            },
            (Real::Infinite { negative }, Real::Infinite { negative: other_negative }) => negative
                == other_negative,
            (Real::NotANumber, Real::NotANumber) => true,
            _ => false,
        }
    }

    /// The magnitude of a finite value, multiplied by `10^places` and rounded
    /// to the nearest natural number, a tie going to the even neighbour.
    /// Zero for a value that is not finite.
    pub open spec fn scaled(self, places: nat) -> nat {
        match self {
            Real::Finite { negative, mantissa, exponent } => {
                if exponent >= 0 {
                    mantissa as nat * two_to(exponent as nat) * ten_to(places)
                } else {
                    round_half_even(mantissa as nat * ten_to(places), two_to((-exponent) as nat))
                }
            },
            _ => 0,
        }
    }

    /// Fixed-point decimal notation with `places` digits after the point:
    /// the sign of a negative value (of a negative zero too), the whole part
    /// without leading zeros, the point, and the fraction digits of the
    /// correctly rounded value.  An infinity is `inf` after its sign, and a
    /// failed computation is `NaN`.
    pub open spec fn fixed_text(self, places: nat) -> Seq<char> {
        match self {
            Real::Finite { negative, mantissa, exponent } => {
                sign_text(negative) + decimal(self.scaled(places) / ten_to(places)) + fraction_text(
                    self.scaled(places) % ten_to(places),
                    places,
                )
            },
            Real::Infinite { negative } => sign_text(negative) + seq!['i', 'n', 'f'],
            Real::NotANumber => seq!['N', 'a', 'N'],
        }
    }

    /// The rounded, scaled magnitude of a finite value with a negative
    /// exponent, which always fits a machine word.
    fn scaled_fraction(mantissa: u64, exponent: i16, places: u32) -> (s: u128)
        requires
            exponent < 0,
            places <= MAX_PLACES,
        ensures
            s == (Real::Finite { negative: false, mantissa, exponent }).scaled(places as nat),
    {
        let shift: u32 = (-(exponent as i32)) as u32;
        let unit: u128 = ten_power(places);
        proof {
            lemma_ten_to_bound();
            lemma_two_to_bound();
            lemma_ten_to_monotonic(places as nat, 18);
            assert(mantissa * unit <= 0xFFFF_FFFF_FFFF_FFFF * 1_000_000_000_000_000_000)
                by (nonlinear_arith)
                requires
                    mantissa <= 0xFFFF_FFFF_FFFF_FFFF,
                    unit <= 1_000_000_000_000_000_000,
            ;
        }
        let n: u128 = (mantissa as u128) * unit;
        if shift > 124 {
            proof {
                let d = two_to(shift as nat);
                lemma_two_to_monotonic(125, shift as nat);
                assert(two_to(125) == 2 * two_to(124));
                lemma_basic_div(n as int, d as int);
                lemma_small_mod(n as nat, d);
            }
            0
        } else {
            let d: u128 = two_power(shift);
            proof {
                lemma_two_to_monotonic(shift as nat, 124);
                crate::digits::lemma_two_to_positive(shift as nat);
            }
            let q: u128 = n / d;
            let r: u128 = n % d;
            let twice: u128 = 2 * r;
            if twice < d || (twice == d && q % 2 == 0) {
                q
            } else {
                q + 1
            }
        }
    }

    /// Appends the sign of a negative value.
    fn push_sign(out: &mut String, negative: bool)
        ensures
            final(out)@ == old(out)@ + sign_text(negative),
    {
        if negative {
            out.push('-');
            proof {
                assert(old(out)@.push('-') =~= old(out)@ + sign_text(negative));
            }
        } else {
            proof {
                assert(old(out)@ + sign_text(negative) =~= old(out)@);
            }
        }
    }

    /// Appends the point and the fraction digits, if any are asked for.
    fn push_fraction(out: &mut String, fraction: u128, places: u32)
        requires
            places <= MAX_PLACES,
        ensures
            final(out)@ == old(out)@ + fraction_text(fraction as nat, places as nat),
    {
        if places > 0 {
            out.push('.');
            push_padded(out, fraction, places);
            proof {
                assert(old(out)@.push('.') + decimal_padded(fraction as nat, places as nat) =~= old(
                    out,
                )@ + fraction_text(fraction as nat, places as nat));
            }
        } else {
            proof {
                assert(old(out)@ + fraction_text(fraction as nat, places as nat) =~= old(out)@);
            }
        }
    }

    /// Appends `self.fixed_text(places)` to `out`.
    pub fn push_fixed(&self, out: &mut String, places: u32)
        requires
            places <= MAX_PLACES,
        ensures
            final(out)@ == old(out)@ + self.fixed_text(places as nat),
    {
        match *self {
            Real::NotANumber => {
                proof {
                    reveal_strlit("NaN");
                    assert("NaN"@ =~= seq!['N', 'a', 'N']);
                }
                out.append("NaN");
            },
            Real::Infinite { negative } => {
                proof {
                    reveal_strlit("inf");
                    assert("inf"@ =~= seq!['i', 'n', 'f']);
                }
                Self::push_sign(out, negative);
                out.append("inf");
                proof {
                    assert(old(out)@ + sign_text(negative) + "inf"@ =~= old(out)@ + (sign_text(
                        negative,
                    ) + "inf"@));
                }
            },
            Real::Finite { negative, mantissa, exponent } => {
                let ghost unit = ten_to(places as nat);
                let ghost scaled = self.scaled(places as nat);
                proof {
                    lemma_ten_to_positive(places as nat);
                }
                Self::push_sign(out, negative);
                let ghost signed = out@;
                if exponent >= 0 {
                    let mut ds: Vec<u8> = digits_of(mantissa as u128);
                    let mut i: i16 = 0;
                    proof {
                        assert(two_to(0) == 1);
                        assert(mantissa * two_to(0) == mantissa as nat) by (nonlinear_arith)
                            requires
                                two_to(0) == 1,
                        ;
                    }
                    while i < exponent
                        invariant
                            0 <= i <= exponent,
                            le_canonical(ds@),
                            le_value(ds@) == mantissa as nat * two_to(i as nat),
                        decreases exponent - i,
                    {
                        proof {
                            assert(two_to((i + 1) as nat) == 2 * two_to(i as nat));
                            assert(2 * (mantissa as nat * two_to(i as nat)) == mantissa as nat * (2
                                * two_to(i as nat))) by (nonlinear_arith);
                        }
                        ds = double_digits(&ds);
                        i = i + 1;
                    }
                    let ghost whole = le_value(ds@);
                    proof {
                        assert(scaled == whole * unit);
                        lemma_div_multiples_vanish(whole as int, unit as int);
                        lemma_mod_multiples_basic(whole as int, unit as int);
                        assert(unit * whole == whole * unit) by (nonlinear_arith);
                        assert(scaled / unit == whole);
                        assert(scaled % unit == 0);
                    }
                    push_digit_list(out, &ds);
                    Self::push_fraction(out, 0, places);
                } else {
                    let s: u128 = Self::scaled_fraction(mantissa, exponent, places);
                    let unit_word: u128 = ten_power(places);
                    push_decimal(out, s / unit_word);
                    Self::push_fraction(out, s % unit_word, places);
                }
                proof {
                    let whole_text = decimal(scaled / unit);
                    let tail = fraction_text(scaled % unit, places as nat);
                    assert(out@ == signed + whole_text + tail);
                    assert(old(out)@ + sign_text(negative) + whole_text + tail =~= old(out)@ + (
                    sign_text(negative) + whole_text + tail));
                }
            },
        }
    }

    /// The value in fixed-point decimal notation with `places` fraction digits.
    pub fn to_fixed(&self, places: u32) -> (text: String)
        requires
            places <= MAX_PLACES,
        ensures
            text@ == self.fixed_text(places as nat),
    {
        let mut out: String = String::new();
        self.push_fixed(&mut out, places);
        proof {
            assert(Seq::<char>::empty() + self.fixed_text(places as nat) =~= self.fixed_text(
                places as nat,
            ));
        }
        out
    }
}

} // verus!
