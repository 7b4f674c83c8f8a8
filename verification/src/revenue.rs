//! The revenue aggregator: uncollected fees of many markets, summed per
//! quote currency and converted into one total in the reference currency.

use vstd::prelude::*;
use crate::decimal::{ConversionError, Decimal, DecimalValue};
use crate::scale::{lemma_pow10_add, lemma_pow10_limits, lemma_pow10_monotone,
    lemma_pow10_positive, pow10, MAX_DECIMALS};
use crate::text::same_text;

verus! {

/// The quote currencies that can be priced. The set is closed; `Usdc` is the
/// reference currency, in which the grand total is stated.
#[derive(Clone, Copy, Debug, PartialEq, Eq, Hash, Structural)]
pub enum Currency {
    Usdc,
    Usdt,
    Sol,
}

/// The currency that a ticker symbol names, if it is a supported one.
pub open spec fn currency_of(symbol: Seq<char>) -> Option<Currency> {
    if symbol == "USDC"@ {
        Some(Currency::Usdc)
    } else if symbol == "USDT"@ {
        Some(Currency::Usdt)
    } else if symbol == "SOL"@ {
        Some(Currency::Sol)
    } else {
        None
    }
}

impl Currency {
    /// The ticker symbol of the currency.
    pub open spec fn symbol_text(self) -> Seq<char> {
        match self {
            Currency::Usdc => "USDC"@,
            Currency::Usdt => "USDT"@,
            Currency::Sol => "SOL"@,
        }
    }

    /// The ticker symbol of the currency.
    pub fn symbol(&self) -> (r: &'static str)
        ensures
            r@ == self.symbol_text(),
    {
        match self {
            Currency::Usdc => "USDC",
            Currency::Usdt => "USDT",
            Currency::Sol => "SOL",
        }
    }

    /// The currency that `symbol` names: `None` for every symbol but the
    /// three supported ones, which are matched letter for letter.
    pub fn from_symbol(symbol: &str) -> (r: Option<Currency>)
        ensures
            r == currency_of(symbol@),
    {
        if same_text(symbol, "USDC") {
            Some(Currency::Usdc)
        } else if same_text(symbol, "USDT") {
            Some(Currency::Usdt)
        } else if same_text(symbol, "SOL") {
            Some(Currency::Sol)
        } else {
            None
        }
    }
}

/// What the ledger holds of one market that the aggregation reads.
#[derive(Clone, Debug, PartialEq, Eq)]
pub struct FeeReading {
    /// Ticker symbol of the market's quote token.
    pub quote_symbol: String,
    /// Decimal places of the quote token.
    pub quote_decimals: u8,
    /// Uncollected fees as the market holds them, in quote lots. The
    /// aggregation scales this raw number by the quote token's decimal
    /// places as it stands.
    pub uncollected_fee: u64,
}

/// One market of a ledger snapshot: its identifier and what was read of it,
/// or `None` where the lookup failed.
#[derive(Clone, Debug, PartialEq, Eq)]
pub struct MarketSnapshot {
    pub market_id: String,
    pub reading: Option<FeeReading>,
}

/// Spot prices in the reference currency, one for each other currency;
/// `None` where the price feed gave none.
#[derive(Clone, Copy, Debug, PartialEq, Eq)]
pub struct PriceQuotes {
    pub usdt: Option<Decimal>,
    pub sol: Option<Decimal>,
}

/// Why a run produced no report.
#[derive(Clone, Debug, PartialEq, Eq)]
pub enum AggregationError {
    /// The ledger lookup of this market failed.
    MarketLoadFailed { market_id: String },
    /// The market's quote token is none of the supported currencies.
    UnsupportedQuoteCurrency { market_id: String, symbol: String },
    /// No price was to be had for a currency that has fees to convert.
    PriceFeedUnavailable { currency: Currency },
    /// The market's fee could not be converted or added to its total.
    MarketAmount { market_id: String, reason: ConversionError },
    /// The total of this currency could not be converted or added to the
    /// grand total.
    ConvertedTotal { currency: Currency, reason: ConversionError },
}

/// An [`AggregationError`] with its strings as character sequences.
pub enum Failure {
    MarketLoadFailed { market_id: Seq<char> },
    UnsupportedQuoteCurrency { market_id: Seq<char>, symbol: Seq<char> },
    PriceFeedUnavailable { currency: Currency },
    MarketAmount { market_id: Seq<char>, reason: ConversionError },
    ConvertedTotal { currency: Currency, reason: ConversionError },
}

impl View for AggregationError {
    type V = Failure;

    open spec fn view(&self) -> Failure {
        match *self {
            AggregationError::MarketLoadFailed { market_id } => Failure::MarketLoadFailed {
                market_id: market_id@,
            },
            AggregationError::UnsupportedQuoteCurrency {
                market_id,
                symbol,
            } => Failure::UnsupportedQuoteCurrency { market_id: market_id@, symbol: symbol@ },
            AggregationError::PriceFeedUnavailable { currency } => Failure::PriceFeedUnavailable {
                currency,
            },
            AggregationError::MarketAmount { market_id, reason } => Failure::MarketAmount {
                market_id: market_id@,
                reason,
            },
            AggregationError::ConvertedTotal { currency, reason } => Failure::ConvertedTotal {
                currency,
                reason,
            },
        }
    }
}

/// The running totals after one more market: the market's fee, as a decimal
/// of the quote token's places, added to the total of its currency. The
/// checks come in this order: the lookup, the decimal places, the currency,
/// the sum.
pub open spec fn recorded(
    totals: Map<Currency, DecimalValue>,
    market: MarketSnapshot,
) -> Result<Map<Currency, DecimalValue>, Failure> {
    let market_id = market.market_id@;
    match market.reading {
        None => Err(Failure::MarketLoadFailed { market_id }),
        Some(reading) => if reading.quote_decimals > MAX_DECIMALS {
            Err(Failure::MarketAmount { market_id, reason: ConversionError::InvalidScale })
        } else {
            match currency_of(reading.quote_symbol@) {
                None => Err(
                    Failure::UnsupportedQuoteCurrency { market_id, symbol: reading.quote_symbol@ },
                ),
                Some(currency) => {
                    let amount = DecimalValue {
                        mantissa: reading.uncollected_fee as nat,
                        scale: reading.quote_decimals as nat,
                    };
                    let sum = if totals.contains_key(currency) {
                        totals[currency].plus(amount)
                    } else {
                        amount
                    };
                    if sum.representable() {
                        Ok(totals.insert(currency, sum))
                    } else {
                        Err(
                            Failure::MarketAmount {
                                market_id,
                                reason: ConversionError::ArithmeticOverflow,
                            },
                        )
                    }
                },
            }
        },
    }
}

/// The totals per currency of a sequence of markets, taken in order; the
/// first market that fails decides the failure.
pub open spec fn accumulated(markets: Seq<MarketSnapshot>) -> Result<
    Map<Currency, DecimalValue>,
    Failure,
>
    decreases markets.len(),
{
    if markets.len() == 0 {
        Ok(Map::empty())
    } else {
        match accumulated(markets.drop_last()) {
            Err(failure) => Err(failure),
            Ok(totals) => recorded(totals, markets.last()),
        }
    }
}

/// Whether the total of `currency` has to be priced: it is not the
/// reference currency and its total is not zero.
pub open spec fn quote_needed(totals: Map<Currency, DecimalValue>, currency: Currency) -> bool {
    currency != Currency::Usdc && totals.contains_key(currency) && !totals[currency].is_zero()
}

/// The value zero, with no decimal places.
pub open spec fn zero_value() -> DecimalValue {
    DecimalValue { mantissa: 0, scale: 0 }
}

/// What the total of `currency` adds to the running grand total `so_far`.
/// A total that needs no price adds nothing, whatever the quote.
pub open spec fn with_converted(
    so_far: DecimalValue,
    totals: Map<Currency, DecimalValue>,
    currency: Currency,
    quote: Option<DecimalValue>,
) -> Result<DecimalValue, Failure> {
    if !quote_needed(totals, currency) {
        Ok(so_far)
    } else {
        match quote {
            None => Err(Failure::PriceFeedUnavailable { currency }),
            Some(rate) => {
                let value = totals[currency].times(rate);
                if !value.representable() {
                    Err(
                        Failure::ConvertedTotal {
                            currency,
                            reason: if value.scale > crate::scale::MAX_SCALE {
                                ConversionError::InvalidScale
                            } else {
                                ConversionError::ArithmeticOverflow
                            },
                        },
                    )
                } else if !so_far.plus(value).representable() {
                    Err(
                        Failure::ConvertedTotal {
                            currency,
                            reason: ConversionError::ArithmeticOverflow,
                        },
                    )
                } else {
                    Ok(so_far.plus(value))
                }
            },
        }
    }
}

/// The grand total in the reference currency: the reference total as it is,
/// plus each other total times its spot price, USDT before SOL.
pub open spec fn grand_total(
    totals: Map<Currency, DecimalValue>,
    usdt: Option<DecimalValue>,
    sol: Option<DecimalValue>,
) -> Result<DecimalValue, Failure> {
    let reference = if totals.contains_key(Currency::Usdc) {
        totals[Currency::Usdc]
    } else {
        zero_value()
    };
    match with_converted(reference, totals, Currency::Usdt, usdt) {
        Err(failure) => Err(failure),
        Ok(so_far) => with_converted(so_far, totals, Currency::Sol, sol),
    }
}


/// The running total of each currency that has occurred so far.
#[derive(Clone, Copy, Debug, PartialEq, Eq)]
pub struct CurrencyTotals {
    pub usdc: Option<Decimal>,
    pub usdt: Option<Decimal>,
    pub sol: Option<Decimal>,
}

impl CurrencyTotals {
    /// The total kept for `currency`, if the currency has occurred.
    pub open spec fn slot(self, currency: Currency) -> Option<Decimal> {
        match currency {
            Currency::Usdc => self.usdc,
            Currency::Usdt => self.usdt,
            Currency::Sol => self.sol,
        }
    }
}

impl View for CurrencyTotals {
    type V = Map<Currency, DecimalValue>;

    /// The totals as a map: a currency is a key exactly where it has
    /// occurred.
    open spec fn view(&self) -> Map<Currency, DecimalValue> {
        Map::new(|c: Currency| self.slot(c) is Some, |c: Currency| self.slot(c)->0@)
    }
}

/// What a run reports: the total of each currency that occurred, and the
/// grand total in the reference currency.
#[derive(Clone, Copy, Debug, PartialEq, Eq)]
pub struct RevenueReport {
    pub totals: CurrencyTotals,
    pub grand_total: Decimal,
}

/// A [`RevenueReport`] as mathematical values.
pub struct ReportValue {
    pub totals: Map<Currency, DecimalValue>,
    pub grand_total: DecimalValue,
}

impl View for RevenueReport {
    type V = ReportValue;

    open spec fn view(&self) -> ReportValue {
        ReportValue { totals: self.totals@, grand_total: self.grand_total@ }
    }
}

impl View for PriceQuotes {
    type V = (Option<DecimalValue>, Option<DecimalValue>);

    /// The quotes as values: USDT first, SOL second.
    open spec fn view(&self) -> (Option<DecimalValue>, Option<DecimalValue>) {
        (
            match self.usdt {
                Some(rate) => Some(rate@),
                None => None,
            },
            match self.sol {
                Some(rate) => Some(rate@),
                None => None,
            },
        )
    }
}

/// The report of a ledger snapshot under the given spot prices: the totals
/// of all its markets and their grand total, or the first failure.
pub open spec fn revenue_report(
    markets: Seq<MarketSnapshot>,
    usdt: Option<DecimalValue>,
    sol: Option<DecimalValue>,
) -> Result<ReportValue, Failure> {
    match accumulated(markets) {
        Err(failure) => Err(failure),
        Ok(totals) => match grand_total(totals, usdt, sol) {
            Err(failure) => Err(failure),
            Ok(total) => Ok(ReportValue { totals, grand_total: total }),
        },
    }
}

/// Whether `result` is the outcome that the snapshot and the prices
/// determine.
pub open spec fn is_report_of(
    result: Result<RevenueReport, AggregationError>,
    markets: Seq<MarketSnapshot>,
    quotes: PriceQuotes,
) -> bool {
    match revenue_report(markets, quotes@.0, quotes@.1) {
        Ok(report) => result matches Ok(r) && r@ == report,
        Err(failure) => result matches Err(e) && e@ == failure,
    }
}

impl CurrencyTotals {
    /// No currency has occurred.
    pub fn new() -> (r: CurrencyTotals)
        ensures
            r@ == Map::<Currency, DecimalValue>::empty(),
    {
        let r = CurrencyTotals { usdc: None, usdt: None, sol: None };
        proof {
            assert(r@ =~= Map::<Currency, DecimalValue>::empty());
        }
        r
    }

    /// The total of `currency`: `None` where the currency has not occurred.
    pub fn get(&self, currency: Currency) -> (r: Option<Decimal>)
        ensures
            r is Some <==> self@.contains_key(currency),
            r matches Some(total) ==> total@ == self@[currency],
            r == self.slot(currency),
    {
        match currency {
            Currency::Usdc => self.usdc,
            Currency::Usdt => self.usdt,
            Currency::Sol => self.sol,
        }
    }

    /// Takes one more market into the totals. On a failure the totals stay
    /// as they were.
    pub fn record(&mut self, market: &MarketSnapshot) -> (r: Result<(), AggregationError>)
        ensures
            match recorded(old(self)@, *market) {
                Ok(totals) => r is Ok && final(self)@ == totals,
                Err(failure) => (r matches Err(e) && e@ == failure) && *final(self) == *old(self),
            },
    {
        let reading = match &market.reading {
            None => {
                return Err(
                    AggregationError::MarketLoadFailed { market_id: market.market_id.clone() },
                );
            },
            Some(reading) => reading,
        };
        let amount = match Decimal::from_atoms(reading.uncollected_fee, reading.quote_decimals) {
            Err(reason) => {
                return Err(
                    AggregationError::MarketAmount {
                        market_id: market.market_id.clone(),
                        reason,
                    },
                );
            },
            Ok(amount) => amount,
        };
        let currency = match Currency::from_symbol(reading.quote_symbol.as_str()) {
            None => {
                return Err(
                    AggregationError::UnsupportedQuoteCurrency {
                        market_id: market.market_id.clone(),
                        symbol: reading.quote_symbol.clone(),
                    },
                );
            },
            Some(currency) => currency,
        };
        let sum = match self.get(currency) {
            None => amount,
            Some(total) => match total.checked_add(&amount) {
                Err(reason) => {
                    return Err(
                        AggregationError::MarketAmount {
                            market_id: market.market_id.clone(),
                            reason,
                        },
                    );
                },
                Ok(sum) => sum,
            },
        };
        match currency {
            Currency::Usdc => { self.usdc = Some(sum); },
            Currency::Usdt => { self.usdt = Some(sum); },
            Currency::Sol => { self.sol = Some(sum); },
        }
        proof {
            assert(self@ =~= old(self)@.insert(currency, sum@));
        }
        Ok(())
    }

    /// Whether a spot price is needed for `currency`: it is not the
    /// reference currency and its total is not zero.
    pub fn needs_quote(&self, currency: Currency) -> (r: bool)
        ensures
            r == quote_needed(self@, currency),
    {
        match currency {
            Currency::Usdc => false,
            _ => match self.get(currency) {
                None => false,
                Some(total) => !total.is_zero(),
            },
        }
    }

    /// Adds to `so_far` the total of `currency` at the spot price `quote`.
    fn add_converted(&self, so_far: Decimal, currency: Currency, quote: Option<Decimal>) -> (r:
        Result<Decimal, AggregationError>)
        ensures
            match with_converted(
                so_far@,
                self@,
                currency,
                match quote {
                    Some(rate) => Some(rate@),
                    None => None,
                },
            ) {
                Ok(total) => r matches Ok(d) && d@ == total,
                Err(failure) => r matches Err(e) && e@ == failure,
            },
    {
        if !self.needs_quote(currency) {
            return Ok(so_far);
        }
        let total = match self.get(currency) {
            Some(total) => total,
            None => { return Ok(so_far); },
        };
        let rate = match quote {
            Some(rate) => rate,
            None => { return Err(AggregationError::PriceFeedUnavailable { currency }); },
        };
        let value = match total.checked_mul(&rate) {
            Ok(value) => value,
            Err(reason) => { return Err(AggregationError::ConvertedTotal { currency, reason }); },
        };
        match so_far.checked_add(&value) {
            Ok(sum) => Ok(sum),
            Err(reason) => Err(AggregationError::ConvertedTotal { currency, reason }),
        }
    }

    /// The grand total in the reference currency. A missing price fails the
    /// conversion exactly where the total of its currency is not zero.
    pub fn convert(&self, quotes: &PriceQuotes) -> (r: Result<Decimal, AggregationError>)
        ensures
            match grand_total(self@, quotes@.0, quotes@.1) {
                Ok(total) => r matches Ok(d) && d@ == total,
                Err(failure) => r matches Err(e) && e@ == failure,
            },
    {
        let reference = match self.usdc {
            Some(total) => total,
            None => Decimal::zero(),
        };
        let so_far = match self.add_converted(reference, Currency::Usdt, quotes.usdt) {
            Ok(so_far) => so_far,
            Err(e) => { return Err(e); },
        };
        self.add_converted(so_far, Currency::Sol, quotes.sol)
    }
}

/// Aggregates the uncollected fees of a ledger snapshot: the total of each
/// quote currency and the grand total in the reference currency, or the
/// failure of the first market, or else of the first currency, that has one.
pub fn process_get_uncollected_revenue(markets: &Vec<MarketSnapshot>, quotes: &PriceQuotes) -> (r:
    Result<RevenueReport, AggregationError>)
    ensures
        is_report_of(r, markets@, *quotes),
{
    let mut totals = CurrencyTotals::new();
    let mut i: usize = 0;
    proof {
        assert(markets@.take(0).len() == 0);
    }
    while i < markets.len()
        invariant
            i <= markets.len(),
            accumulated(markets@.take(i as int)) == Ok::<Map<Currency, DecimalValue>, Failure>(
                totals@,
            ),
        decreases markets.len() - i,
    {
        proof {
            assert(markets@.take(i + 1).drop_last() == markets@.take(i as int));
            lemma_failure_stays(markets@, i + 1);
        }
        match totals.record(&markets[i]) {
            Ok(()) => {},
            Err(e) => { return Err(e); },
        }
        i = i + 1;
    }
    proof {
        assert(markets@.take(i as int) == markets@);
    }
    match totals.convert(quotes) {
        Ok(grand_total) => Ok(RevenueReport { totals, grand_total }),
        Err(e) => Err(e),
    }
}

/// Fail-fast: once the first `n` markets have failed, the whole run fails
/// with that failure, whatever comes after.
pub proof fn lemma_failure_stays(markets: Seq<MarketSnapshot>, n: int)
    requires
        0 <= n <= markets.len(),
    ensures
        accumulated(markets.take(n)) matches Err(failure) ==> accumulated(markets) == Err::<
            Map<Currency, DecimalValue>,
            Failure,
        >(failure),
    decreases markets.len() - n,
{
    if n < markets.len() {
        assert(markets.take(n + 1).drop_last() == markets.take(n));
        lemma_failure_stays(markets, n + 1);
    } else {
        assert(markets.take(n) == markets);
    }
}

/// Most markets of one run for which [`lemma_capacity`] vouches.
pub const CAPACITY_MARKETS: usize = 10_000;

/// Highest fee of one market, in atoms, for which [`lemma_capacity`]
/// vouches.
pub const CAPACITY_FEE: u64 = 1_000_000_000_000;

/// Whether a snapshot is within the capacity that the totals are built
/// for: at most [`CAPACITY_MARKETS`] markets, each read, of a supported
/// currency, with admitted decimal places and a fee of at most
/// [`CAPACITY_FEE`] atoms.
pub open spec fn within_capacity(markets: Seq<MarketSnapshot>) -> bool {
    &&& markets.len() <= CAPACITY_MARKETS
    &&& forall|i: int|
        0 <= i < markets.len() ==> ((#[trigger] markets[i]).reading matches Some(reading)
            && reading.quote_decimals <= MAX_DECIMALS && reading.uncollected_fee <= CAPACITY_FEE
            && currency_of(reading.quote_symbol@) is Some)
}

/// Whether every total has admitted decimal places and is, written with
/// [`MAX_DECIMALS`] places, at most `count` times the highest fee.
pub open spec fn totals_bounded(totals: Map<Currency, DecimalValue>, count: nat) -> bool {
    forall|c: Currency| #[trigger]
        totals.contains_key(c) ==> totals[c].scale <= MAX_DECIMALS && totals[c].at_scale(
            MAX_DECIMALS as nat,
        ) <= count * (CAPACITY_FEE * pow10(MAX_DECIMALS as nat))
}

proof fn lemma_capacity_bounded(markets: Seq<MarketSnapshot>)
    requires
        within_capacity(markets),
    ensures
        accumulated(markets) matches Ok(totals) && totals_bounded(totals, markets.len()),
    decreases markets.len(),
{
    if markets.len() > 0 {
        let before = markets.drop_last();
        assert forall|i: int| 0 <= i < before.len() implies ((#[trigger] before[i]).reading matches Some(
            reading,
        ) && reading.quote_decimals <= MAX_DECIMALS && reading.uncollected_fee <= CAPACITY_FEE
            && currency_of(reading.quote_symbol@) is Some) by {
            assert(before[i] == markets[i]);
        }
        lemma_capacity_bounded(before);
        let totals = accumulated(before)->Ok_0;
        let reading = markets.last().reading->0;
        let currency = currency_of(reading.quote_symbol@)->0;
        let amount = DecimalValue {
            mantissa: reading.uncollected_fee as nat,
            scale: reading.quote_decimals as nat,
        };
        let top = MAX_DECIMALS as nat;
        let unit = (CAPACITY_FEE * pow10(top)) as int;
        let n = before.len() as int;
        lemma_pow10_limits();
        // the new amount, written with the most places, is at most one unit
        let raise_amount = pow10((top - amount.scale) as nat) as int;
        lemma_pow10_monotone((top - amount.scale) as nat, top);
        lemma_pow10_positive((top - amount.scale) as nat);
        let fee = amount.mantissa as int;
        assert(fee * raise_amount <= unit) by (nonlinear_arith)
            requires
                0 <= fee <= CAPACITY_FEE,
                0 <= raise_amount <= pow10(top),
                unit == CAPACITY_FEE * pow10(top),
        ;
        let sum = if totals.contains_key(currency) {
            totals[currency].plus(amount)
        } else {
            amount
        };
        if totals.contains_key(currency) {
            let total = totals[currency];
            let scale = sum.scale;
            let a = total.mantissa as int;
            let pa = pow10((scale - total.scale) as nat) as int;
            let pb = pow10((scale - amount.scale) as nat) as int;
            let rest = pow10((top - scale) as nat) as int;
            lemma_pow10_add((scale - total.scale) as nat, (top - scale) as nat);
            lemma_pow10_add((scale - amount.scale) as nat, (top - scale) as nat);
            assert((a * pa + fee * pb) * rest == a * (pa * rest) + fee * (pb * rest))
                by (nonlinear_arith);
            assert(sum.at_scale(top) == total.at_scale(top) + amount.at_scale(top));
        }
        assert(sum.at_scale(top) <= (n + 1) * unit) by (nonlinear_arith)
            requires
                sum.at_scale(top) <= n * unit + unit,
        ;
        // what fits with the most places fits as it stands
        let rest = pow10((top - sum.scale) as nat) as int;
        lemma_pow10_positive((top - sum.scale) as nat);
        let m = sum.mantissa as int;
        assert(m <= m * rest) by (nonlinear_arith)
            requires
                0 <= m,
                1 <= rest,
        ;
        assert((n + 1) * unit <= 10_000 * unit) by (nonlinear_arith)
            requires
                n + 1 <= 10_000,
                0 <= unit,
        ;
        assert(sum.representable());
        let after = totals.insert(currency, sum);
        assert(accumulated(markets) == Ok::<Map<Currency, DecimalValue>, Failure>(after));
        assert forall|c: Currency| #[trigger] after.contains_key(c) implies after[c].scale
            <= MAX_DECIMALS && after[c].at_scale(top) <= markets.len() * (CAPACITY_FEE * pow10(
            top,
        )) by {
            if c != currency {
                let t = totals[c].at_scale(top) as int;
                assert(t <= (n + 1) * unit) by (nonlinear_arith)
                    requires
                        t <= n * unit,
                        0 <= unit,
                ;
            }
        }
    }
}

/// Capacity: a snapshot of at most [`CAPACITY_MARKETS`] markets with fees
/// of at most [`CAPACITY_FEE`] atoms each adds up without a failure and
/// without the loss of a digit, whatever the decimal places and the
/// currencies of its markets.
pub proof fn lemma_capacity(markets: Seq<MarketSnapshot>)
    requires
        within_capacity(markets),
    ensures
        accumulated(markets) is Ok,
{
    lemma_capacity_bounded(markets);
}

/// An empty snapshot gives an empty report: no currency has a total and the
/// grand total is zero, whatever the price feed said.
pub proof fn lemma_empty_snapshot(usdt: Option<DecimalValue>, sol: Option<DecimalValue>)
    ensures
        revenue_report(Seq::<MarketSnapshot>::empty(), usdt, sol) == Ok::<ReportValue, Failure>(
            ReportValue { totals: Map::empty(), grand_total: zero_value() },
        ),
{
}

/// Running the aggregation again on an unchanged snapshot and unchanged
/// prices gives the same report, or the same failure.
pub proof fn lemma_same_snapshot_same_report(
    markets: Seq<MarketSnapshot>,
    quotes: PriceQuotes,
    first: Result<RevenueReport, AggregationError>,
    second: Result<RevenueReport, AggregationError>,
)
    requires
        is_report_of(first, markets, quotes),
        is_report_of(second, markets, quotes),
    ensures
        first is Ok <==> second is Ok,
        first matches Ok(a) ==> second matches Ok(b) && a@ == b@,
        first matches Err(a) ==> second matches Err(b) && a@ == b@,
{
}

/// A failure of the price feed matters exactly where there is something to
/// convert. With no price at all, a grand total is still had where neither
/// USDT nor SOL has a total other than zero, and it is the reference total;
/// where USDT has one, the run fails for want of the USDT price; where only
/// SOL has one, it fails for want of the SOL price.
pub proof fn lemma_missing_quotes(totals: Map<Currency, DecimalValue>)
    ensures
        !quote_needed(totals, Currency::Usdt) && !quote_needed(totals, Currency::Sol)
            ==> grand_total(totals, None, None) == Ok::<DecimalValue, Failure>(
            if totals.contains_key(Currency::Usdc) {
                totals[Currency::Usdc]
            } else {
                zero_value()
            },
        ),
        quote_needed(totals, Currency::Usdt) ==> grand_total(totals, None, None) == Err::<
            DecimalValue,
            Failure,
        >(Failure::PriceFeedUnavailable { currency: Currency::Usdt }),
        !quote_needed(totals, Currency::Usdt) && quote_needed(totals, Currency::Sol)
            ==> grand_total(totals, None, None) == Err::<DecimalValue, Failure>(
            Failure::PriceFeedUnavailable { currency: Currency::Sol },
        ),
{
}

/// A price that is not needed changes nothing: for a currency whose total
/// is zero or absent, the grand total is the same with a price, with
/// another price and with none.
pub proof fn lemma_unneeded_quote(
    totals: Map<Currency, DecimalValue>,
    usdt: Option<DecimalValue>,
    sol: Option<DecimalValue>,
)
    ensures
        !quote_needed(totals, Currency::Usdt) ==> grand_total(totals, usdt, sol) == grand_total(
            totals,
            None,
            sol,
        ),
        !quote_needed(totals, Currency::Sol) ==> grand_total(totals, usdt, sol) == grand_total(
            totals,
            usdt,
            None,
        ),
{
}

} // verus!
