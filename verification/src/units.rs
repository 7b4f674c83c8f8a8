//! The unit converter: raw on-chain integers (atoms, lots, ticks) to
//! human-scale decimal quantities and their text, and back.

use vstd::prelude::*;
use vstd::arithmetic::div_mod::{lemma_div_by_multiple, lemma_fundamental_div_mod,
    lemma_mod_multiples_basic, lemma_small_mod};
use crate::decimal::{decimal_text, fraction_text, lemma_reduced, ConversionError, Decimal,
    DecimalValue};
use crate::parse::{lemma_digits_end, lemma_plain_text_parses, parse_decimal_text,
    plain_decimal_text};
use crate::scale::{lemma_pow10_positive, pow10, MAX_DECIMALS};
use crate::text::{all_digits, digits_of, digits_value, is_digit, lemma_digits_of_shape,
    lemma_padded_digits_shape, lemma_value_of_concat, lemma_value_of_digits,
    lemma_value_of_padded};

verus! {

/// The human price of `ticks` price ticks: `ticks * tick_size` quote atoms
/// per base unit, at `quote_decimals` decimal places.
pub open spec fn price_of_ticks(ticks: nat, tick_size: nat, quote_decimals: nat) -> DecimalValue {
    DecimalValue { mantissa: ticks * tick_size, scale: quote_decimals }
}

/// `raw / 10^decimals` in fixed-point notation, exact to the last place:
/// `InvalidScale` exactly where `decimals` is over [`MAX_DECIMALS`].
pub fn to_decimal_string(raw: u64, decimals: u8) -> (r: Result<String, ConversionError>)
    ensures
        r is Ok <==> decimals <= MAX_DECIMALS,
        r matches Ok(s) ==> s@ == decimal_text(raw as nat, decimals as nat),
        r matches Err(e) ==> e == ConversionError::InvalidScale,
        r matches Ok(s) ==> atoms_text(raw, decimals) == Ok::<Seq<char>, ConversionError>(s@),
        r matches Err(e) ==> atoms_text(raw, decimals) == Err::<Seq<char>, ConversionError>(e),
{
    match Decimal::from_atoms(raw, decimals) {
        Ok(amount) => Ok(amount.to_text()),
        Err(e) => Err(e),
    }
}

/// The price that `ticks` price ticks stand for, in quote units per base
/// unit: `InvalidScale` exactly where `quote_decimals` is over
/// [`MAX_DECIMALS`].
pub fn ticks_to_price(ticks: u64, tick_size: u64, quote_decimals: u8) -> (r: Result<
    Decimal,
    ConversionError,
>)
    ensures
        r is Ok <==> quote_decimals <= MAX_DECIMALS,
        r matches Ok(p) ==> p@ == price_of_ticks(
            ticks as nat,
            tick_size as nat,
            quote_decimals as nat,
        ),
        r matches Err(e) ==> e == ConversionError::InvalidScale,
{
    if quote_decimals > MAX_DECIMALS {
        return Err(ConversionError::InvalidScale);
    }
    assert(ticks * tick_size <= u64::MAX * u64::MAX) by (nonlinear_arith)
        requires
            ticks <= u64::MAX,
            tick_size <= u64::MAX,
    ;
    let atoms: u128 = (ticks as u128) * (tick_size as u128);
    match Decimal::new(atoms, quote_decimals) {
        Some(price) => Ok(price),
        None => Err(ConversionError::InvalidScale),
    }
}

/// The atoms that `lots` lots of `lot_size` atoms each amount to:
/// `ArithmeticOverflow` exactly where the product does not fit in 64 bits.
pub fn lots_to_amount(lots: u64, lot_size: u64) -> (r: Result<u64, ConversionError>)
    ensures
        r is Ok <==> lots * lot_size <= u64::MAX,
        r matches Ok(atoms) ==> atoms == lots * lot_size,
        r matches Err(e) ==> e == ConversionError::ArithmeticOverflow,
{
    match lots.checked_mul(lot_size) {
        Some(atoms) => Ok(atoms),
        None => Err(ConversionError::ArithmeticOverflow),
    }
}

/// The human-scale amount of `lots` lots of `lot_size` atoms each.
pub open spec fn amount_of_lots(lots: nat, lot_size: nat, decimals: nat) -> DecimalValue {
    DecimalValue { mantissa: lots * lot_size, scale: decimals }
}

/// The human-scale amount that `lots` lots come to, exact whatever the
/// product: `InvalidScale` exactly where `decimals` is over
/// [`MAX_DECIMALS`].
pub fn lots_to_decimal(lots: u64, lot_size: u64, decimals: u8) -> (r: Result<
    Decimal,
    ConversionError,
>)
    ensures
        r is Ok <==> decimals <= MAX_DECIMALS,
        r matches Ok(amount) ==> amount@ == amount_of_lots(
            lots as nat,
            lot_size as nat,
            decimals as nat,
        ),
        r matches Err(e) ==> e == ConversionError::InvalidScale,
{
    if decimals > MAX_DECIMALS {
        return Err(ConversionError::InvalidScale);
    }
    assert(lots * lot_size <= u64::MAX * u64::MAX) by (nonlinear_arith)
        requires
            lots <= u64::MAX,
            lot_size <= u64::MAX,
    ;
    let atoms: u128 = (lots as u128) * (lot_size as u128);
    match Decimal::new(atoms, decimals) {
        Some(amount) => Ok(amount),
        None => Err(ConversionError::InvalidScale),
    }
}

/// The text of `raw / 10^decimals`, where `decimals` is admitted.
pub open spec fn atoms_text(raw: u64, decimals: u8) -> Result<Seq<char>, ConversionError> {
    if decimals > MAX_DECIMALS {
        Err(ConversionError::InvalidScale)
    } else {
        Ok(decimal_text(raw as nat, decimals as nat))
    }
}

/// The shortest notation of `raw / 10^decimals`, where `decimals` is
/// admitted: `7` for seven whole units, `1.5`, `0`.
pub open spec fn short_atoms_text(raw: u64, decimals: u8) -> Result<Seq<char>, ConversionError> {
    if decimals > MAX_DECIMALS {
        Err(ConversionError::InvalidScale)
    } else {
        Ok(DecimalValue { mantissa: raw as nat, scale: decimals as nat }.short_text())
    }
}

/// The shortest notation of the price of `ticks` ticks, where
/// `quote_decimals` is admitted.
pub open spec fn price_text(ticks: u64, tick_size: u64, quote_decimals: u8) -> Result<
    Seq<char>,
    ConversionError,
> {
    if quote_decimals > MAX_DECIMALS {
        Err(ConversionError::InvalidScale)
    } else {
        Ok(price_of_ticks(ticks as nat, tick_size as nat, quote_decimals as nat).short_text())
    }
}

/// The text of the amount that `lots` lots come to: the overflow of the
/// product is found before the count of decimal places is looked at.
pub open spec fn lots_text(lots: u64, lot_size: u64, decimals: u8) -> Result<
    Seq<char>,
    ConversionError,
> {
    if lots * lot_size > u64::MAX {
        Err(ConversionError::ArithmeticOverflow)
    } else {
        atoms_text((lots * lot_size) as u64, decimals)
    }
}

/// `raw / 10^decimals` in its shortest notation: `InvalidScale` exactly
/// where `decimals` is over [`MAX_DECIMALS`].
pub fn to_short_decimal_string(raw: u64, decimals: u8) -> (r: Result<String, ConversionError>)
    ensures
        match short_atoms_text(raw, decimals) {
            Ok(text) => r matches Ok(s) && s@ == text,
            Err(e) => r matches Err(x) && x == e,
        },
{
    match Decimal::from_atoms(raw, decimals) {
        Ok(amount) => Ok(amount.to_short_text()),
        Err(e) => Err(e),
    }
}

/// The price of `ticks` ticks in its shortest notation.
pub fn price_string(ticks: u64, tick_size: u64, quote_decimals: u8) -> (r: Result<
    String,
    ConversionError,
>)
    ensures
        r is Ok <==> price_text(ticks, tick_size, quote_decimals) is Ok,
        r matches Ok(s) ==> price_text(ticks, tick_size, quote_decimals) == Ok::<
            Seq<char>,
            ConversionError,
        >(s@),
        r matches Err(e) ==> price_text(ticks, tick_size, quote_decimals) == Err::<
            Seq<char>,
            ConversionError,
        >(e),
{
    match ticks_to_price(ticks, tick_size, quote_decimals) {
        Ok(price) => Ok(price.to_short_text()),
        Err(e) => Err(e),
    }
}

/// The amount that `lots` lots come to, in fixed-point notation.
pub fn lots_string(lots: u64, lot_size: u64, decimals: u8) -> (r: Result<String, ConversionError>)
    ensures
        r is Ok <==> lots_text(lots, lot_size, decimals) is Ok,
        r matches Ok(s) ==> lots_text(lots, lot_size, decimals) == Ok::<
            Seq<char>,
            ConversionError,
        >(s@),
        r matches Err(e) ==> lots_text(lots, lot_size, decimals) == Err::<
            Seq<char>,
            ConversionError,
        >(e),
{
    match lots_to_amount(lots, lot_size) {
        Ok(atoms) => to_decimal_string(atoms, decimals),
        Err(e) => Err(e),
    }
}

/// A price never falls when the tick count rises: for one tick size and one
/// count of decimal places, more ticks stand for at least as high a price.
pub proof fn lemma_ticks_to_price_monotone(
    fewer: u64,
    more: u64,
    tick_size: u64,
    quote_decimals: u8,
)
    requires
        fewer <= more,
    ensures
        price_of_ticks(fewer as nat, tick_size as nat, quote_decimals as nat).at_most(
            price_of_ticks(more as nat, tick_size as nat, quote_decimals as nat),
        ),
        price_of_ticks(fewer as nat, tick_size as nat, quote_decimals as nat).mantissa
            <= price_of_ticks(more as nat, tick_size as nat, quote_decimals as nat).mantissa,
{
    let a = fewer as int;
    let b = more as int;
    let t = tick_size as int;
    let p = pow10(quote_decimals as nat) as int;
    assert(a * t <= b * t) by (nonlinear_arith)
        requires
            a <= b,
            0 <= t,
    ;
    assert((a * t) * p <= (b * t) * p) by (nonlinear_arith)
        requires
            a * t <= b * t,
            0 <= p,
    ;
}

/// What reading back the notation of `mantissa / 10^scale` gives: the same
/// mantissa and scale, but for a scale of 0, whose notation ends in `.0`.
pub open spec fn reread(mantissa: nat, scale: nat) -> DecimalValue {
    if scale == 0 {
        DecimalValue { mantissa: 10 * mantissa, scale: 1 }
    } else {
        DecimalValue { mantissa, scale }
    }
}

/// The notation of any decimal reads back as the same number.
pub proof fn lemma_text_reads_back(mantissa: nat, scale: nat)
    ensures
        parse_decimal_text(decimal_text(mantissa, scale)) == Some(reread(mantissa, scale)),
        reread(mantissa, scale).same_amount(DecimalValue { mantissa, scale }),
{
    let unit = pow10(scale);
    lemma_pow10_positive(scale);
    let whole = digits_of(mantissa / unit);
    let frac = fraction_text(mantissa, scale);
    let text = decimal_text(mantissa, scale);
    let k = whole.len() as int;
    lemma_digits_of_shape(mantissa / unit);
    assert(text[k] == '.');
    assert forall|j: int| 0 <= j < k implies is_digit(#[trigger] text[j]) by {
        assert(text[j] == whole[j]);
    }
    lemma_digits_end(text, k);
    assert(text.subrange(0, k) == whole);
    assert(text.subrange(k + 1, text.len() as int) == frac);
    if scale > 0 {
        lemma_padded_digits_shape(mantissa % unit, scale);
        lemma_value_of_padded(mantissa % unit, scale);
        lemma_small_mod(mantissa % unit, unit);
        lemma_fundamental_div_mod(mantissa as int, unit as int);
        assert(unit * (mantissa / unit) == (mantissa / unit) * unit) by (nonlinear_arith);
    } else {
        assert(frac.drop_last().len() == 0);
        assert(digits_value(frac.drop_last()) == 0);
        assert(digits_value(frac) == 0);
        assert(pow10(1) == 10) by {
            reveal_with_fuel(pow10, 2);
        }
        assert((mantissa / 1) * 10 == 10 * mantissa);
        assert((10 * mantissa) * 1 == mantissa * 10) by (nonlinear_arith);
    }
    assert(all_digits(frac));
    lemma_digits_end(frac, frac.len() as int);
    lemma_value_of_concat(whole, frac);
    lemma_value_of_digits(mantissa / unit);
    assert(plain_decimal_text(text) == Some(reread(mantissa, scale)));
    assert forall|j: int| 0 <= j < text.len() implies is_digit(#[trigger] text[j]) || text[j]
        == '.' by {
        if j < k {
            assert(text[j] == whole[j]);
        } else if j > k {
            assert(text[j] == frac[j - k - 1]);
        }
    }
    lemma_plain_text_parses(text);
}

/// The shortest notation of any decimal reads back as the same number.
pub proof fn lemma_short_text_reads_back(value: DecimalValue)
    ensures
        parse_decimal_text(value.short_text()) == Some(value.reduced()),
        value.reduced().same_amount(value),
{
    lemma_reduced(value);
    let short = value.reduced();
    if short.scale == 0 {
        let text = digits_of(short.mantissa);
        lemma_digits_of_shape(short.mantissa);
        lemma_digits_end(text, text.len() as int);
        assert(text.subrange(0, text.len() as int) == text);
        lemma_value_of_digits(short.mantissa);
        assert(plain_decimal_text(text) == Some(short));
        lemma_plain_text_parses(text);
    } else {
        lemma_text_reads_back(short.mantissa, short.scale);
    }
}

/// Two numbers in whatever notation keep their order: where `a` is at
/// most `b`, whatever denotes the same as `a` is at most whatever denotes
/// the same as `b`.
pub proof fn lemma_order_of_same_amounts(
    a: DecimalValue,
    b: DecimalValue,
    same_a: DecimalValue,
    same_b: DecimalValue,
)
    requires
        a.at_most(b),
        same_a.same_amount(a),
        same_b.same_amount(b),
    ensures
        same_a.at_most(same_b),
{
    let (am, bm, xm, ym) = (
        a.mantissa as int,
        b.mantissa as int,
        same_a.mantissa as int,
        same_b.mantissa as int,
    );
    let (pa, pb, px, py) = (
        pow10(a.scale) as int,
        pow10(b.scale) as int,
        pow10(same_a.scale) as int,
        pow10(same_b.scale) as int,
    );
    lemma_pow10_positive(a.scale);
    lemma_pow10_positive(b.scale);
    lemma_pow10_positive(same_a.scale);
    lemma_pow10_positive(same_b.scale);
    // xm/px == am/pa <= bm/pb == ym/py, cleared of fractions
    assert((xm * py) * (pa * pb) == (xm * pa) * (py * pb)) by (nonlinear_arith);
    assert((xm * pa) * (py * pb) == (am * pb) * (px * py)) by (nonlinear_arith)
        requires
            xm * pa == am * px,
    ;
    assert((am * pb) * (px * py) <= (bm * pa) * (px * py)) by (nonlinear_arith)
        requires
            am * pb <= bm * pa,
            0 <= px * py,
    ;
    assert(0 <= px * py) by (nonlinear_arith)
        requires
            0 < px,
            0 < py,
    ;
    assert((bm * pa) * (px * py) == (ym * px) * (pa * pb)) by (nonlinear_arith)
        requires
            ym * pb == bm * py,
    ;
    assert(0 < pa * pb) by (nonlinear_arith)
        requires
            0 < pa,
            0 < pb,
    ;
    assert(xm * py <= ym * px) by (nonlinear_arith)
        requires
            (xm * py) * (pa * pb) <= (ym * px) * (pa * pb),
            0 < pa * pb,
    ;
}

/// Prices as they are written keep the order of the ticks: for one tick
/// size and one count of decimal places, the written price of more ticks
/// reads back as a number that is at least the one of fewer ticks, and
/// equal ticks are written alike.
pub proof fn lemma_written_price_monotone(
    fewer: u64,
    more: u64,
    tick_size: u64,
    quote_decimals: u8,
)
    requires
        fewer <= more,
        quote_decimals <= MAX_DECIMALS,
    ensures
        price_text(fewer, tick_size, quote_decimals) matches Ok(low) && price_text(
            more,
            tick_size,
            quote_decimals,
        ) matches Ok(high) && parse_decimal_text(low) matches Some(low_value)
            && parse_decimal_text(high) matches Some(high_value) && low_value.at_most(high_value),
        fewer == more ==> price_text(fewer, tick_size, quote_decimals) == price_text(
            more,
            tick_size,
            quote_decimals,
        ),
{
    let a = price_of_ticks(fewer as nat, tick_size as nat, quote_decimals as nat);
    let b = price_of_ticks(more as nat, tick_size as nat, quote_decimals as nat);
    lemma_ticks_to_price_monotone(fewer, more, tick_size, quote_decimals);
    lemma_short_text_reads_back(a);
    lemma_short_text_reads_back(b);
    lemma_order_of_same_amounts(a, b, a.reduced(), b.reduced());
}

/// The round trip of a raw quantity: for every `raw` and every `decimals`
/// up to [`MAX_DECIMALS`], the text that [`to_decimal_string`] gives reads
/// back ([`crate::parse::parse_decimal`]) as a decimal that a
/// [`Decimal`] can hold and that is exactly `raw` atoms again
/// ([`Decimal::to_atoms`]).
pub proof fn lemma_decimal_string_round_trip(raw: u64, decimals: u8)
    requires
        decimals <= MAX_DECIMALS,
    ensures
        parse_decimal_text(decimal_text(raw as nat, decimals as nat)) matches Some(v)
            && v.representable() && v.atoms(decimals as nat) == Some(raw as nat),
{
    let m = raw as nat;
    let d = decimals as nat;
    lemma_text_reads_back(m, d);
    let v = reread(m, d);
    lemma_pow10_positive(d);
    if d == 0 {
        assert(pow10(1) == 10) by {
            reveal_with_fuel(pow10, 2);
        }
        assert((10 * m) * 1 == m * 10) by (nonlinear_arith);
        lemma_mod_multiples_basic(m as int, 10);
        lemma_div_by_multiple(m as int, 10);
    } else {
        lemma_mod_multiples_basic(m as int, pow10(d) as int);
        lemma_div_by_multiple(m as int, pow10(d) as int);
    }
}

} // verus!
