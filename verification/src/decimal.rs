//! Exact decimal quantities: an integer mantissa and a count of decimal
//! places. All arithmetic is exact or reports why it could not be.

use vstd::prelude::*;
use vstd::arithmetic::div_mod::{lemma_div_by_multiple, lemma_div_denominator,
    lemma_div_multiples_vanish, lemma_fundamental_div_mod, lemma_mod_multiples_basic,
    lemma_truncate_middle};
use crate::scale::{lemma_pow10_add, lemma_pow10_limits, lemma_pow10_monotone,
    lemma_pow10_positive, pow10, pow10_u128, MAX_DECIMALS, MAX_SCALE};
use crate::text::{digits_of, lemma_padded_digits_shifted, padded_digits, push_digits,
    push_padded, push_zeros, zeros};

verus! {

/// Why a conversion between units could not be carried out.
#[derive(Clone, Copy, Debug, PartialEq, Eq, Structural)]
pub enum ConversionError {
    /// More decimal places were asked for than the quantity's type admits.
    InvalidScale,
    /// The exact result does not fit the machine integer that must hold it.
    ArithmeticOverflow,
}

/// The number `mantissa / 10^scale`, unbounded.
pub struct DecimalValue {
    pub mantissa: nat,
    pub scale: nat,
}

/// The fraction part of `mantissa / 10^scale` as text: the remainder in
/// `scale` digits, or a single `0` where there are no decimal places.
pub open spec fn fraction_text(mantissa: nat, scale: nat) -> Seq<char> {
    if scale == 0 {
        seq!['0']
    } else {
        padded_digits(mantissa % pow10(scale), scale)
    }
}

/// `mantissa / 10^scale` in fixed-point notation: the integer part, a dot,
/// the fraction part.
pub open spec fn decimal_text(mantissa: nat, scale: nat) -> Seq<char> {
    digits_of(mantissa / pow10(scale)) + seq!['.'] + fraction_text(mantissa, scale)
}

impl DecimalValue {
    /// Whether a [`Decimal`] can hold this value as it stands.
    pub open spec fn representable(self) -> bool {
        self.mantissa <= u128::MAX && self.scale <= MAX_SCALE
    }

    /// The mantissa this value has when written with `scale` decimal places,
    /// for a `scale` of at least its own.
    pub open spec fn at_scale(self, scale: nat) -> nat
        recommends
            scale >= self.scale,
    {
        self.mantissa * pow10((scale - self.scale) as nat)
    }

    /// The exact sum, written with the larger of the two scales.
    pub open spec fn plus(self, other: DecimalValue) -> DecimalValue {
        let scale = if self.scale >= other.scale { self.scale } else { other.scale };
        DecimalValue { mantissa: self.at_scale(scale) + other.at_scale(scale), scale }
    }

    /// The exact product, written with the sum of the two scales.
    pub open spec fn times(self, other: DecimalValue) -> DecimalValue {
        DecimalValue {
            mantissa: self.mantissa * other.mantissa,
            scale: self.scale + other.scale,
        }
    }

    /// Whether the two denote the same number, whatever their scales.
    pub open spec fn same_amount(self, other: DecimalValue) -> bool {
        self.mantissa * pow10(other.scale) == other.mantissa * pow10(self.scale)
    }

    /// Whether `self` is at most `other` as a number.
    pub open spec fn at_most(self, other: DecimalValue) -> bool {
        self.mantissa * pow10(other.scale) <= other.mantissa * pow10(self.scale)
    }

    /// Whether the value is zero, at whatever scale.
    pub open spec fn is_zero(self) -> bool {
        self.mantissa == 0
    }

    /// The value in fixed-point notation.
    pub open spec fn text(self) -> Seq<char> {
        decimal_text(self.mantissa, self.scale)
    }

    /// The whole number of atoms that this amount is of a token with
    /// `decimals` decimal places, where it is a whole number of them.
    pub open spec fn atoms(self, decimals: nat) -> Option<nat> {
        let scaled = self.mantissa * pow10(decimals);
        if scaled % pow10(self.scale) == 0 {
            Some(scaled / pow10(self.scale))
        } else {
            None
        }
    }

    /// The same number with the zeros at the end of its fraction taken
    /// off: no decimal place is left that only holds a closing zero.
    pub open spec fn reduced(self) -> DecimalValue
        decreases self.scale,
    {
        if self.scale > 0 && self.mantissa % 10 == 0 {
            DecimalValue { mantissa: self.mantissa / 10, scale: (self.scale - 1) as nat }.reduced()
        } else {
            self
        }
    }

    /// The shortest decimal notation of the value: the whole part, and a
    /// point and fraction digits only where the fraction is not zero, with
    /// no zero at the end.
    pub open spec fn short_text(self) -> Seq<char> {
        let short = self.reduced();
        if short.scale == 0 {
            digits_of(short.mantissa)
        } else {
            decimal_text(short.mantissa, short.scale)
        }
    }

    /// The value written with `places` decimal places: exact where that is
    /// at least its scale, else rounded to the nearest, a half upwards.
    pub open spec fn rounded(self, places: nat) -> DecimalValue {
        if places >= self.scale {
            DecimalValue { mantissa: self.at_scale(places), scale: places }
        } else {
            let unit = pow10((self.scale - places) as nat);
            let up: nat = if 2 * (self.mantissa % unit) >= unit { 1 } else { 0 };
            DecimalValue { mantissa: self.mantissa / unit + up, scale: places }
        }
    }
}

/// `value` in fixed-point notation with exactly `places` decimal places,
/// rounded or filled up with zeros as need be: `InvalidScale` for more
/// than [`MAX_SCALE`] places.
pub open spec fn fixed_text(value: DecimalValue, places: nat) -> Result<
    Seq<char>,
    ConversionError,
> {
    if places > MAX_SCALE {
        Err(ConversionError::InvalidScale)
    } else {
        Ok(value.rounded(places).text())
    }
}

/// Taking the closing zeros off changes neither the number nor makes it
/// longer.
pub proof fn lemma_reduced(value: DecimalValue)
    ensures
        value.reduced().same_amount(value),
        value.reduced().scale <= value.scale,
        value.reduced().mantissa <= value.mantissa,
        value.reduced().scale > 0 ==> value.reduced().mantissa % 10 != 0,
    decreases value.scale,
{
    if value.scale > 0 && value.mantissa % 10 == 0 {
        let less = DecimalValue {
            mantissa: value.mantissa / 10,
            scale: (value.scale - 1) as nat,
        };
        lemma_reduced(less);
        let short = less.reduced();
        let a = short.mantissa as int;
        let b = less.mantissa as int;
        let ps = pow10(short.scale) as int;
        let pl = pow10(less.scale) as int;
        assert(a * (10 * pl) == (10 * b) * ps) by (nonlinear_arith)
            requires
                a * pl == b * ps,
        ;
    }
}

/// An exact decimal quantity of at most [`MAX_SCALE`] decimal places.
#[derive(Clone, Copy, Debug, PartialEq, Eq)]
pub struct Decimal {
    mantissa: u128,
    scale: u8,
}

impl View for Decimal {
    type V = DecimalValue;

    closed spec fn view(&self) -> DecimalValue {
        DecimalValue { mantissa: self.mantissa as nat, scale: self.scale as nat }
    }
}

impl Decimal {
    #[verifier::type_invariant]
    spec fn within_scale(self) -> bool {
        self.scale <= MAX_SCALE
    }

    /// The decimal `mantissa / 10^scale`, if `scale` is admitted.
    pub fn new(mantissa: u128, scale: u8) -> (r: Option<Decimal>)
        ensures
            r is Some <==> scale <= MAX_SCALE,
            r matches Some(d) ==> d@ == (DecimalValue {
                mantissa: mantissa as nat,
                scale: scale as nat,
            }),
    {
        if scale <= MAX_SCALE {
            Some(Decimal { mantissa, scale })
        } else {
            None
        }
    }

    /// Zero, with no decimal places.
    pub fn zero() -> (r: Decimal)
        ensures
            r@ == (DecimalValue { mantissa: 0, scale: 0 }),
    {
        Decimal { mantissa: 0, scale: 0 }
    }

    /// The digits of the value as one integer.
    pub fn mantissa(&self) -> (r: u128)
        ensures
            r == self@.mantissa,
    {
        self.mantissa
    }

    /// How many of the digits stand behind the decimal point.
    pub fn scale(&self) -> (r: u8)
        ensures
            r == self@.scale,
            r <= MAX_SCALE,
    {
        proof {
            use_type_invariant(self);
        }
        self.scale
    }

    /// The human-scale amount of `raw` atoms of a token with `decimals`
    /// decimal places.
    pub fn from_atoms(raw: u64, decimals: u8) -> (r: Result<Decimal, ConversionError>)
        ensures
            r is Ok <==> decimals <= MAX_DECIMALS,
            r matches Ok(d) ==> d@ == (DecimalValue {
                mantissa: raw as nat,
                scale: decimals as nat,
            }),
            r matches Err(e) ==> e == ConversionError::InvalidScale,
    {
        if decimals <= MAX_DECIMALS {
            Ok(Decimal { mantissa: raw as u128, scale: decimals })
        } else {
            Err(ConversionError::InvalidScale)
        }
    }

    /// Whether the value is zero.
    pub fn is_zero(&self) -> (r: bool)
        ensures
            r == self@.is_zero(),
    {
        self.mantissa == 0
    }

    /// The exact sum of the two, or `ArithmeticOverflow` where its mantissa
    /// does not fit.
    pub fn checked_add(&self, other: &Decimal) -> (r: Result<Decimal, ConversionError>)
        ensures
            r is Ok <==> self@.plus(other@).representable(),
            r matches Ok(d) ==> d@ == self@.plus(other@),
            r matches Err(e) ==> e == ConversionError::ArithmeticOverflow,
    {
        proof {
            use_type_invariant(self);
            use_type_invariant(other);
        }
        let scale: u8 = if self.scale >= other.scale { self.scale } else { other.scale };
        let fa: u128 = pow10_u128(scale - self.scale);
        let fb: u128 = pow10_u128(scale - other.scale);
        proof {
            let x = self.mantissa as int;
            let y = other.mantissa as int;
            let p = fa as int;
            let q = fb as int;
            assert(0 <= x * p && 0 <= y * q) by (nonlinear_arith)
                requires
                    0 <= x,
                    0 <= y,
                    0 <= p,
                    0 <= q,
            ;
        }
        match self.mantissa.checked_mul(fa) {
            None => Err(ConversionError::ArithmeticOverflow),
            Some(a) => match other.mantissa.checked_mul(fb) {
                None => Err(ConversionError::ArithmeticOverflow),
                Some(b) => match a.checked_add(b) {
                    None => Err(ConversionError::ArithmeticOverflow),
                    Some(mantissa) => Ok(Decimal { mantissa, scale }),
                },
            },
        }
    }

    /// The exact product of the two: `InvalidScale` where it would have more
    /// than [`MAX_SCALE`] decimal places, else `ArithmeticOverflow` where its
    /// mantissa does not fit.
    pub fn checked_mul(&self, other: &Decimal) -> (r: Result<Decimal, ConversionError>)
        ensures
            r is Ok <==> self@.times(other@).representable(),
            r matches Ok(d) ==> d@ == self@.times(other@),
            r matches Err(e) ==> e == (if self@.scale + other@.scale > MAX_SCALE {
                ConversionError::InvalidScale
            } else {
                ConversionError::ArithmeticOverflow
            }),
    {
        proof {
            use_type_invariant(self);
            use_type_invariant(other);
        }
        let scale: u8 = self.scale + other.scale;
        if scale > MAX_SCALE {
            return Err(ConversionError::InvalidScale);
        }
        match self.mantissa.checked_mul(other.mantissa) {
            None => Err(ConversionError::ArithmeticOverflow),
            Some(mantissa) => Ok(Decimal { mantissa, scale }),
        }
    }

    /// The whole number of atoms that this amount is of a token with
    /// `decimals` decimal places: `None` where `decimals` is over
    /// [`MAX_DECIMALS`], where the amount is no whole number of atoms, or
    /// where that number does not fit.
    pub fn to_atoms(&self, decimals: u8) -> (r: Option<u64>)
        ensures
            r is Some <==> decimals <= MAX_DECIMALS && (self@.atoms(decimals as nat) matches Some(n)
                && n <= u64::MAX),
            r matches Some(v) ==> self@.atoms(decimals as nat) == Some(v as nat),
    {
        proof {
            use_type_invariant(self);
        }
        if decimals > MAX_DECIMALS {
            return None;
        }
        let ghost m = self.mantissa as int;
        let ghost pd = pow10(decimals as nat) as int;
        let ghost ps = pow10(self.scale as nat) as int;
        proof {
            lemma_pow10_positive(decimals as nat);
            lemma_pow10_positive(self.scale as nat);
        }
        if decimals >= self.scale {
            let factor: u128 = pow10_u128(decimals - self.scale);
            proof {
                let f = factor as int;
                lemma_pow10_add((decimals - self.scale) as nat, self.scale as nat);
                assert(m * pd == (m * f) * ps) by (nonlinear_arith)
                    requires
                        pd == f * ps,
                ;
                lemma_mod_multiples_basic(m * f, ps);
                lemma_div_by_multiple(m * f, ps);
                assert(0 <= m * f) by (nonlinear_arith)
                    requires
                        0 <= m,
                        0 <= f,
                ;
            }
            match self.mantissa.checked_mul(factor) {
                Some(n) => if n <= u64::MAX as u128 {
                    Some(n as u64)
                } else {
                    None
                },
                None => None,
            }
        } else {
            let unit: u128 = pow10_u128(self.scale - decimals);
            proof {
                let g = unit as int;
                lemma_pow10_add(decimals as nat, (self.scale - decimals) as nat);
                lemma_truncate_middle(m, pd, g);
                assert(m * pd == pd * m) by (nonlinear_arith);
                assert(ps == pd * g);
                lemma_div_multiples_vanish(m, pd);
                lemma_div_denominator(pd * m, pd, g);
                assert(pd * (m % g) == 0 <==> m % g == 0) by (nonlinear_arith)
                    requires
                        pd > 0,
                ;
            }
            if self.mantissa % unit != 0 {
                return None;
            }
            let n: u128 = self.mantissa / unit;
            if n <= u64::MAX as u128 {
                Some(n as u64)
            } else {
                None
            }
        }
    }

    /// The value written with `places` decimal places, rounded to the
    /// nearest where that drops digits (a half goes upwards): `InvalidScale`
    /// for more than [`MAX_SCALE`] places, `ArithmeticOverflow` where the
    /// mantissa with the added zeros does not fit.
    pub fn round_to(&self, places: u8) -> (r: Result<Decimal, ConversionError>)
        ensures
            r is Ok <==> self@.rounded(places as nat).representable(),
            r matches Ok(d) ==> d@ == self@.rounded(places as nat),
            r matches Err(e) ==> e == (if places > MAX_SCALE {
                ConversionError::InvalidScale
            } else {
                ConversionError::ArithmeticOverflow
            }),
    {
        proof {
            use_type_invariant(self);
        }
        if places > MAX_SCALE {
            return Err(ConversionError::InvalidScale);
        }
        if places >= self.scale {
            let factor: u128 = pow10_u128(places - self.scale);
            match self.mantissa.checked_mul(factor) {
                Some(mantissa) => Ok(Decimal { mantissa, scale: places }),
                None => Err(ConversionError::ArithmeticOverflow),
            }
        } else {
            let unit: u128 = pow10_u128(self.scale - places);
            let kept: u128 = self.mantissa / unit;
            let dropped: u128 = self.mantissa % unit;
            proof {
                lemma_pow10_monotone((self.scale - places) as nat, MAX_SCALE as nat);
                lemma_pow10_monotone(1, (self.scale - places) as nat);
                lemma_pow10_limits();
                assert(pow10(1) == 10) by {
                    reveal_with_fuel(pow10, 2);
                }
                lemma_fundamental_div_mod(self.mantissa as int, unit as int);
                let k = kept as int;
                let u = unit as int;
                assert(k * 10 <= u * k) by (nonlinear_arith)
                    requires
                        u >= 10,
                        k >= 0,
                ;
            }
            let mantissa: u128 = if 2 * dropped >= unit { kept + 1 } else { kept };
            Ok(Decimal { mantissa, scale: places })
        }
    }

    /// The value in fixed-point notation with exactly `places` decimal
    /// places: rounded to the nearest where that drops digits, filled up
    /// with zeros where it adds places. The zeros are written, not
    /// multiplied in, so no value is too large for it.
    pub fn to_fixed_text(&self, places: u8) -> (r: Result<String, ConversionError>)
        ensures
            match fixed_text(self@, places as nat) {
                Ok(text) => r matches Ok(s) && s@ == text,
                Err(e) => r matches Err(x) && x == e,
            },
    {
        proof {
            use_type_invariant(self);
        }
        if places > MAX_SCALE {
            return Err(ConversionError::InvalidScale);
        }
        if places == 0 || places < self.scale {
            return match self.round_to(places) {
                Ok(rounded) => Ok(rounded.to_text()),
                Err(e) => {
                    proof {
                        assert(self@.scale == 0 ==> self@.mantissa * 1 == self@.mantissa);
                        if places < self.scale {
                            self.lemma_rounding_down_fits(places);
                        }
                    }
                    Err(e)
                },
            };
        }
        let added: u8 = places - self.scale;
        let unit: u128 = pow10_u128(self.scale);
        proof {
            let m = self.mantissa as int;
            let shift = pow10(added as nat) as int;
            let u = unit as int;
            lemma_pow10_positive(added as nat);
            lemma_pow10_add(added as nat, self.scale as nat);
            assert(m * shift == shift * m) by (nonlinear_arith);
            lemma_truncate_middle(m, shift, u);
            lemma_div_multiples_vanish(m, shift);
            lemma_div_denominator(shift * m, shift, u);
            assert(shift * (m % u) == (m % u) * shift) by (nonlinear_arith);
            lemma_padded_digits_shifted((m % u) as nat, self.scale as nat, added as nat);
        }
        let mut out = String::new();
        push_digits(&mut out, self.mantissa / unit);
        out.push('.');
        push_padded(&mut out, self.mantissa % unit, self.scale);
        push_zeros(&mut out, added);
        proof {
            let whole = digits_of((self.mantissa / unit) as nat);
            let frac = padded_digits((self.mantissa % unit) as nat, self.scale as nat);
            assert(out@ == whole + seq!['.'] + (frac + zeros(added as nat)));
        }
        Ok(out)
    }

    /// Rounding to fewer places always gives a value that can be held.
    proof fn lemma_rounding_down_fits(self, places: u8)
        requires
            places < self.scale <= MAX_SCALE,
        ensures
            self@.rounded(places as nat).representable(),
    {
        let unit = pow10((self.scale - places) as nat) as int;
        let m = self.mantissa as int;
        lemma_pow10_monotone(1, (self.scale - places) as nat);
        assert(pow10(1) == 10) by {
            reveal_with_fuel(pow10, 2);
        }
        lemma_fundamental_div_mod(m, unit);
        let k = m / unit;
        assert(0 <= m % unit);
        assert(k * 10 <= unit * k) by (nonlinear_arith)
            requires
                unit >= 10,
                k >= 0,
        ;
    }

    /// The shortest decimal notation of the value: no point where it is a
    /// whole number, no zero at the end of a fraction.
    pub fn to_short_text(&self) -> (r: String)
        ensures
            r@ == self@.short_text(),
    {
        proof {
            use_type_invariant(self);
        }
        let mut mantissa: u128 = self.mantissa;
        let mut scale: u8 = self.scale;
        while scale > 0 && mantissa % 10 == 0
            invariant
                scale <= MAX_SCALE,
                (DecimalValue { mantissa: mantissa as nat, scale: scale as nat }).reduced()
                    == self@.reduced(),
            decreases scale,
        {
            mantissa = mantissa / 10;
            scale = scale - 1;
        }
        let mut out = String::new();
        if scale == 0 {
            push_digits(&mut out, mantissa);
        } else {
            let unit: u128 = pow10_u128(scale);
            push_digits(&mut out, mantissa / unit);
            out.push('.');
            push_padded(&mut out, mantissa % unit, scale);
        }
        out
    }

    /// The value in fixed-point notation, every decimal place written out.
    pub fn to_text(&self) -> (r: String)
        ensures
            r@ == self@.text(),
    {
        proof {
            use_type_invariant(self);
        }
        let unit: u128 = pow10_u128(self.scale);
        let mut out = String::new();
        push_digits(&mut out, self.mantissa / unit);
        out.push('.');
        if self.scale == 0 {
            out.push('0');
        } else {
            push_padded(&mut out, self.mantissa % unit, self.scale);
        }
        out
    }
}

} // verus!
