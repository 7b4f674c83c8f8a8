//! The descriptor of one market and the conversions that go by it.

use vstd::prelude::*;
use crate::decimal::{ConversionError, Decimal};
use crate::scale::MAX_DECIMALS;
use crate::units::{lots_to_amount, price_of_ticks, ticks_to_price};

verus! {

/// What a market fixes for good: its two tokens, their decimal places, the
/// lot sizes and the tick size.
#[derive(Clone, Debug, PartialEq, Eq)]
pub struct MarketMetadata {
    pub base_mint: String,
    pub quote_mint: String,
    pub base_decimals: u8,
    pub quote_decimals: u8,
    /// Base atoms per base lot.
    pub base_lot_size: u64,
    /// Quote atoms per quote lot.
    pub quote_lot_size: u64,
    /// Quote atoms per base unit that one price tick stands for.
    pub tick_size_in_quote_atoms_per_base_unit: u64,
}

impl MarketMetadata {
    /// The price that `ticks` price ticks stand for.
    pub fn ticks_to_price(&self, ticks: u64) -> (r: Result<Decimal, ConversionError>)
        ensures
            r is Ok <==> self.quote_decimals <= MAX_DECIMALS,
            r matches Ok(p) ==> p@ == price_of_ticks(
                ticks as nat,
                self.tick_size_in_quote_atoms_per_base_unit as nat,
                self.quote_decimals as nat,
            ),
            r matches Err(e) ==> e == ConversionError::InvalidScale,
    {
        ticks_to_price(ticks, self.tick_size_in_quote_atoms_per_base_unit, self.quote_decimals)
    }

    /// The base atoms that `lots` base lots amount to.
    pub fn base_lots_to_base_amount(&self, lots: u64) -> (r: Result<u64, ConversionError>)
        ensures
            r is Ok <==> lots * self.base_lot_size <= u64::MAX,
            r matches Ok(atoms) ==> atoms == lots * self.base_lot_size,
            r matches Err(e) ==> e == ConversionError::ArithmeticOverflow,
    {
        lots_to_amount(lots, self.base_lot_size)
    }

    /// The quote atoms that `lots` quote lots amount to.
    pub fn quote_lots_to_quote_amount(&self, lots: u64) -> (r: Result<u64, ConversionError>)
        ensures
            r is Ok <==> lots * self.quote_lot_size <= u64::MAX,
            r matches Ok(atoms) ==> atoms == lots * self.quote_lot_size,
            r matches Err(e) ==> e == ConversionError::ArithmeticOverflow,
    {
        lots_to_amount(lots, self.quote_lot_size)
    }
}

} // verus!
