//! What the reporting tool shows of one market: the order book, the
//! market's details, a trader's balances. Each function gives the lines or
//! rows to show; showing them is the caller's part.

use vstd::prelude::*;
use vstd::string::StringExecFns;
use crate::decimal::{decimal_text, fixed_text, ConversionError, Decimal, DecimalValue};
use crate::ledger::{read_token_amount, token_account_amount, Side};
use crate::market::MarketMetadata;
use crate::parse::parse_decimal_text;
use crate::scale::{lemma_pow10_positive, pow10, MAX_DECIMALS};
use crate::text::{digits_of, number_text, prefixed, push_line, texts};
use crate::units::{amount_of_lots, lemma_text_reads_back, lemma_ticks_to_price_monotone,
    lots_string, lots_text, lots_to_decimal, price_of_ticks, to_decimal_string};

verus! {

/// Decimal places that the order book shows of prices and sizes.
pub const BOOK_PLACES: u8 = 4;

/// Decimal places that the market's details show of vault balances.
pub const BALANCE_PLACES: u8 = 3;

/// One price level of the order book, in raw units.
#[derive(Clone, Copy, Debug, PartialEq, Eq)]
pub struct LadderOrder {
    pub price_in_ticks: u64,
    pub size_in_base_lots: u64,
}

/// The order book: bids and asks, each from the best price on.
#[derive(Clone, Debug, PartialEq, Eq)]
pub struct Ladder {
    pub bids: Vec<LadderOrder>,
    pub asks: Vec<LadderOrder>,
}

/// What a trader holds in a market, in lots.
#[derive(Clone, Copy, Debug, PartialEq, Eq)]
pub struct TraderState {
    pub quote_lots_locked: u64,
    pub quote_lots_free: u64,
    pub base_lots_locked: u64,
    pub base_lots_free: u64,
}

/// One row of the shown order book.
#[derive(Clone, Debug, PartialEq, Eq)]
pub struct BookLine {
    pub side: Side,
    pub price: String,
    pub size: String,
}

/// A [`BookLine`] with its strings as character sequences.
pub struct BookRow {
    pub side: Side,
    pub price: Seq<char>,
    pub size: Seq<char>,
}

impl View for BookLine {
    type V = BookRow;

    open spec fn view(&self) -> BookRow {
        BookRow { side: self.side, price: self.price@, size: self.size@ }
    }
}

/// The rows of a sequence of book lines.
pub open spec fn rows(lines: Seq<BookLine>) -> Seq<BookRow> {
    lines.map_values(|line: BookLine| line@)
}

/// The row of one price level: price and size in human units, with
/// [`BOOK_PLACES`] decimal places each. The price is converted first.
pub open spec fn book_row(metadata: MarketMetadata, side: Side, order: LadderOrder) -> Result<
    BookRow,
    ConversionError,
> {
    if metadata.quote_decimals > MAX_DECIMALS {
        Err(ConversionError::InvalidScale)
    } else {
        match fixed_text(
            price_of_ticks(
                order.price_in_ticks as nat,
                metadata.tick_size_in_quote_atoms_per_base_unit as nat,
                metadata.quote_decimals as nat,
            ),
            BOOK_PLACES as nat,
        ) {
            Err(e) => Err(e),
            Ok(price) => if metadata.base_decimals > MAX_DECIMALS {
                Err(ConversionError::InvalidScale)
            } else {
                match fixed_text(
                    amount_of_lots(
                        order.size_in_base_lots as nat,
                        metadata.base_lot_size as nat,
                        metadata.base_decimals as nat,
                    ),
                    BOOK_PLACES as nat,
                ) {
                    Err(e) => Err(e),
                    Ok(size) => Ok(BookRow { side, price, size }),
                }
            },
        }
    }
}

/// The rows of the price levels `orders`, in their order; the first level
/// whose conversion fails decides the failure.
pub open spec fn book_rows(metadata: MarketMetadata, side: Side, orders: Seq<LadderOrder>) -> Result<
    Seq<BookRow>,
    ConversionError,
>
    decreases orders.len(),
{
    if orders.len() == 0 {
        Ok(Seq::empty())
    } else {
        match book_rows(metadata, side, orders.drop_last()) {
            Err(e) => Err(e),
            Ok(rows) => match book_row(metadata, side, orders.last()) {
                Err(e) => Err(e),
                Ok(row) => Ok(rows.push(row)),
            },
        }
    }
}

/// The shown order book: the asks from the worst price down to the best,
/// then the bids from the best price on.
pub open spec fn shown_book(metadata: MarketMetadata, book: Ladder) -> Result<
    Seq<BookRow>,
    ConversionError,
> {
    match book_rows(metadata, Side::Ask, book.asks@.reverse()) {
        Err(e) => Err(e),
        Ok(asks) => match book_rows(metadata, Side::Bid, book.bids@) {
            Err(e) => Err(e),
            Ok(bids) => Ok(asks + bids),
        },
    }
}

/// Rounding keeps the order: of two values of one scale, the one with the
/// smaller mantissa rounds to no more than the other.
pub proof fn lemma_rounding_keeps_order(low: DecimalValue, high: DecimalValue, places: nat)
    requires
        low.scale == high.scale,
        low.mantissa <= high.mantissa,
    ensures
        low.rounded(places).mantissa <= high.rounded(places).mantissa,
        low.rounded(places).scale == high.rounded(places).scale,
{
    if places >= low.scale {
        let factor = pow10((places - low.scale) as nat) as int;
        let (a, b) = (low.mantissa as int, high.mantissa as int);
        assert(a * factor <= b * factor) by (nonlinear_arith)
            requires
                a <= b,
                0 <= factor,
        ;
    } else {
        let unit = pow10((low.scale - places) as nat) as int;
        let (a, b) = (low.mantissa as int, high.mantissa as int);
        lemma_pow10_positive((low.scale - places) as nat);
        vstd::arithmetic::div_mod::lemma_div_is_ordered(a, b, unit);
        vstd::arithmetic::div_mod::lemma_fundamental_div_mod(a, unit);
        vstd::arithmetic::div_mod::lemma_fundamental_div_mod(b, unit);
        if a / unit == b / unit {
            assert(a % unit <= b % unit);
        }
    }
}

/// Prices as the book shows them keep the order of the ticks: of two
/// levels of one market, the shown price of the one with more ticks reads
/// back as a number that is at least the other's, and equal ticks are
/// shown alike.
pub proof fn lemma_shown_prices_keep_order(
    metadata: MarketMetadata,
    low_side: Side,
    low: LadderOrder,
    high_side: Side,
    high: LadderOrder,
)
    requires
        low.price_in_ticks <= high.price_in_ticks,
        book_row(metadata, low_side, low) is Ok,
        book_row(metadata, high_side, high) is Ok,
    ensures
        ({
            let low_price = book_row(metadata, low_side, low)->Ok_0.price;
            let high_price = book_row(metadata, high_side, high)->Ok_0.price;
            &&& parse_decimal_text(low_price) matches Some(low_value)
            &&& parse_decimal_text(high_price) matches Some(high_value)
            &&& low_value.at_most(high_value)
            &&& low.price_in_ticks == high.price_in_ticks ==> low_price == high_price
        }),
{
    let tick_size = metadata.tick_size_in_quote_atoms_per_base_unit as nat;
    let a = price_of_ticks(low.price_in_ticks as nat, tick_size, metadata.quote_decimals as nat);
    let b = price_of_ticks(high.price_in_ticks as nat, tick_size, metadata.quote_decimals as nat);
    lemma_ticks_to_price_monotone(
        low.price_in_ticks,
        high.price_in_ticks,
        metadata.tick_size_in_quote_atoms_per_base_unit,
        metadata.quote_decimals,
    );
    lemma_rounding_keeps_order(a, b, BOOK_PLACES as nat);
    let shown_a = a.rounded(BOOK_PLACES as nat);
    let shown_b = b.rounded(BOOK_PLACES as nat);
    lemma_text_reads_back(shown_a.mantissa, shown_a.scale);
    lemma_text_reads_back(shown_b.mantissa, shown_b.scale);
    let unit = pow10(BOOK_PLACES as nat) as int;
    let (x, y) = (shown_a.mantissa as int, shown_b.mantissa as int);
    assert(x * unit <= y * unit) by (nonlinear_arith)
        requires
            x <= y,
            0 <= unit,
    ;
}

proof fn lemma_book_failure_stays(
    metadata: MarketMetadata,
    side: Side,
    orders: Seq<LadderOrder>,
    n: int,
)
    requires
        0 <= n <= orders.len(),
    ensures
        book_rows(metadata, side, orders.take(n)) matches Err(e) ==> book_rows(
            metadata,
            side,
            orders,
        ) == Err::<Seq<BookRow>, ConversionError>(e),
    decreases orders.len() - n,
{
    if n < orders.len() {
        assert(orders.take(n + 1).drop_last() == orders.take(n));
        lemma_book_failure_stays(metadata, side, orders, n + 1);
    } else {
        assert(orders.take(n) == orders);
    }
}

/// The row of one price level.
fn book_line(metadata: &MarketMetadata, side: Side, order: &LadderOrder) -> (r: Result<
    BookLine,
    ConversionError,
>)
    ensures
        match book_row(*metadata, side, *order) {
            Ok(row) => r matches Ok(line) && line@ == row,
            Err(e) => r matches Err(x) && x == e,
        },
{
    let price = match metadata.ticks_to_price(order.price_in_ticks) {
        Ok(price) => price,
        Err(e) => { return Err(e); },
    };
    let price = match price.to_fixed_text(BOOK_PLACES) {
        Ok(price) => price,
        Err(e) => { return Err(e); },
    };
    let size = match lots_to_decimal(
        order.size_in_base_lots,
        metadata.base_lot_size,
        metadata.base_decimals,
    ) {
        Ok(size) => size,
        Err(e) => { return Err(e); },
    };
    match size.to_fixed_text(BOOK_PLACES) {
        Ok(size) => Ok(BookLine { side, price, size }),
        Err(e) => Err(e),
    }
}

/// Appends the rows of `orders` to `lines`, from the last level to the
/// first where `backwards` is set.
fn push_book_lines(
    lines: &mut Vec<BookLine>,
    metadata: &MarketMetadata,
    side: Side,
    orders: &Vec<LadderOrder>,
    backwards: bool,
) -> (r: Result<(), ConversionError>)
    ensures
        match book_rows(
            *metadata,
            side,
            if backwards {
                orders@.reverse()
            } else {
                orders@
            },
        ) {
            Ok(added) => r is Ok && rows(final(lines)@) == rows(old(lines)@) + added,
            Err(e) => r matches Err(x) && x == e,
        },
{
    let ghost taken = if backwards { orders@.reverse() } else { orders@ };
    let ghost start = rows(lines@);
    let n: usize = orders.len();
    let mut i: usize = 0;
    proof {
        assert(taken.take(0).len() == 0);
        assert(start + Seq::<BookRow>::empty() =~= start);
    }
    while i < n
        invariant
            i <= n,
            n == orders.len(),
            taken == (if backwards { orders@.reverse() } else { orders@ }),
            book_rows(*metadata, side, taken.take(i as int)) matches Ok(added) && rows(lines@)
                == start + added,
        decreases n - i,
    {
        let order = if backwards { orders[n - 1 - i] } else { orders[i] };
        proof {
            assert(taken.take(i + 1).drop_last() == taken.take(i as int));
            assert(taken.take(i + 1).last() == order);
            lemma_book_failure_stays(*metadata, side, taken, i + 1);
        }
        match book_line(metadata, side, &order) {
            Ok(line) => {
                let ghost before = rows(lines@);
                lines.push(line);
                proof {
                    assert(rows(lines@) =~= before.push(line@));
                    let added = book_rows(*metadata, side, taken.take(i as int))->Ok_0;
                    assert((start + added).push(line@) =~= start + added.push(line@));
                }
            },
            Err(e) => { return Err(e); },
        }
        i = i + 1;
    }
    proof {
        assert(taken.take(i as int) == taken);
    }
    Ok(())
}

/// The rows of the order book as it is shown: the asks from the worst
/// price down to the best, then the bids from the best price on; prices
/// and sizes in human units with [`BOOK_PLACES`] decimal places.
pub fn print_book(metadata: &MarketMetadata, book: &Ladder) -> (r: Result<
    Vec<BookLine>,
    ConversionError,
>)
    ensures
        match shown_book(*metadata, *book) {
            Ok(shown) => r matches Ok(lines) && rows(lines@) == shown,
            Err(e) => r matches Err(x) && x == e,
        },
{
    let mut lines: Vec<BookLine> = Vec::new();
    proof {
        assert(rows(lines@) =~= Seq::<BookRow>::empty());
    }
    match push_book_lines(&mut lines, metadata, Side::Ask, &book.asks, true) {
        Ok(()) => {},
        Err(e) => { return Err(e); },
    }
    match push_book_lines(&mut lines, metadata, Side::Bid, &book.bids, false) {
        Ok(()) => {},
        Err(e) => { return Err(e); },
    }
    proof {
        let asks = book_rows(*metadata, Side::Ask, book.asks@.reverse())->Ok_0;
        let bids = book_rows(*metadata, Side::Bid, book.bids@)->Ok_0;
        assert(Seq::<BookRow>::empty() + asks + bids =~= asks + bids);
    }
    Ok(lines)
}


/// The five lines that introduce a market: a rule, then the market, its
/// two tokens and its authority.
pub open spec fn summary_lines(
    market: Seq<char>,
    base_mint: Seq<char>,
    quote_mint: Seq<char>,
    authority: Seq<char>,
) -> Seq<Seq<char>> {
    seq![
        "--------------------------------------------"@,
        "Market: "@ + market,
        "Base Token: "@ + base_mint,
        "Quote Token: "@ + quote_mint,
        "Authority: "@ + authority,
    ]
}

/// The lines that introduce a market.
pub fn print_market_summary_data(market: &str, base_mint: &str, quote_mint: &str, authority: &str)
    -> (r: Vec<String>)
    ensures
        texts(r@) == summary_lines(market@, base_mint@, quote_mint@, authority@),
{
    let mut lines: Vec<String> = Vec::new();
    proof {
        assert(texts(lines@) =~= Seq::<Seq<char>>::empty());
    }
    push_line(&mut lines, String::from_str("--------------------------------------------"));
    push_line(&mut lines, prefixed("Market: ", market));
    push_line(&mut lines, prefixed("Base Token: ", base_mint));
    push_line(&mut lines, prefixed("Quote Token: ", quote_mint));
    push_line(&mut lines, prefixed("Authority: ", authority));
    proof {
        assert(texts(lines@) =~= summary_lines(market@, base_mint@, quote_mint@, authority@));
    }
    lines
}

/// Why the details of a market could not be shown.
#[derive(Clone, Copy, Debug, PartialEq, Eq, Structural)]
pub enum DetailsError {
    /// The bytes of the base vault are no initialized token account.
    BaseVaultUnreadable,
    /// The bytes of the quote vault are no initialized token account.
    QuoteVaultUnreadable,
    /// A token has more decimal places than a raw quantity admits.
    InvalidScale,
}

/// A vault balance as it is shown: in human units, rounded to
/// [`BALANCE_PLACES`] decimal places.
pub open spec fn balance_text(atoms: u64, decimals: u8) -> Seq<char> {
    DecimalValue { mantissa: atoms as nat, scale: decimals as nat }.rounded(
        BALANCE_PLACES as nat,
    ).text()
}

/// The eight lines of a market's details. The vaults are read first, the
/// base vault before the quote vault; then the decimal places are checked.
pub open spec fn details_lines(
    metadata: MarketMetadata,
    base_vault: Seq<u8>,
    quote_vault: Seq<u8>,
    taker_fees: u16,
) -> Result<Seq<Seq<char>>, DetailsError> {
    match token_account_amount(base_vault) {
        None => Err(DetailsError::BaseVaultUnreadable),
        Some(base_balance) => match token_account_amount(quote_vault) {
            None => Err(DetailsError::QuoteVaultUnreadable),
            Some(quote_balance) => if metadata.base_decimals > MAX_DECIMALS
                || metadata.quote_decimals > MAX_DECIMALS {
                Err(DetailsError::InvalidScale)
            } else {
                Ok(
                    seq![
                        "Base Vault balance: "@ + balance_text(
                            base_balance,
                            metadata.base_decimals,
                        ),
                        "Quote Vault balance: "@ + balance_text(
                            quote_balance,
                            metadata.quote_decimals,
                        ),
                        "Base Token: "@ + metadata.base_mint@,
                        "Quote Token: "@ + metadata.quote_mint@,
                        "Base Lot Size: "@ + decimal_text(
                            metadata.base_lot_size as nat,
                            metadata.base_decimals as nat,
                        ),
                        "Quote Lot Size: "@ + decimal_text(
                            metadata.quote_lot_size as nat,
                            metadata.quote_decimals as nat,
                        ),
                        "Tick size: "@ + decimal_text(
                            metadata.tick_size_in_quote_atoms_per_base_unit as nat,
                            metadata.quote_decimals as nat,
                        ),
                        "Taker fees in basis points: "@ + digits_of(taker_fees as nat),
                    ],
                )
            },
        },
    }
}

/// A balance of `atoms` atoms as it is shown.
fn balance_string(atoms: u64, decimals: u8) -> (r: String)
    requires
        decimals <= MAX_DECIMALS,
    ensures
        r@ == balance_text(atoms, decimals),
{
    let amount = match Decimal::from_atoms(atoms, decimals) {
        Ok(amount) => amount,
        Err(_) => Decimal::zero(),
    };
    match amount.to_fixed_text(BALANCE_PLACES) {
        Ok(text) => text,
        Err(_) => String::new(),
    }
}

/// The text of `atoms / 10^decimals`.
fn atoms_string(atoms: u64, decimals: u8) -> (r: String)
    requires
        decimals <= MAX_DECIMALS,
    ensures
        r@ == decimal_text(atoms as nat, decimals as nat),
{
    match to_decimal_string(atoms, decimals) {
        Ok(text) => text,
        Err(_) => String::new(),
    }
}

/// The lines of a market's details: the balances of its two vaults, read
/// from the bytes of their token accounts, its tokens, lot sizes, tick size
/// and taker fee.
pub fn print_market_details(
    metadata: &MarketMetadata,
    base_vault: &[u8],
    quote_vault: &[u8],
    taker_fees: u16,
) -> (r: Result<Vec<String>, DetailsError>)
    ensures
        match details_lines(*metadata, base_vault@, quote_vault@, taker_fees) {
            Ok(lines) => r matches Ok(v) && texts(v@) == lines,
            Err(e) => r matches Err(x) && x == e,
        },
{
    let base_balance = match read_token_amount(base_vault) {
        Some(balance) => balance,
        None => { return Err(DetailsError::BaseVaultUnreadable); },
    };
    let quote_balance = match read_token_amount(quote_vault) {
        Some(balance) => balance,
        None => { return Err(DetailsError::QuoteVaultUnreadable); },
    };
    if metadata.base_decimals > MAX_DECIMALS || metadata.quote_decimals > MAX_DECIMALS {
        return Err(DetailsError::InvalidScale);
    }
    let mut lines: Vec<String> = Vec::new();
    proof {
        assert(texts(lines@) =~= Seq::<Seq<char>>::empty());
    }
    push_line(
        &mut lines,
        prefixed(
            "Base Vault balance: ",
            balance_string(base_balance, metadata.base_decimals).as_str(),
        ),
    );
    push_line(
        &mut lines,
        prefixed(
            "Quote Vault balance: ",
            balance_string(quote_balance, metadata.quote_decimals).as_str(),
        ),
    );
    push_line(&mut lines, prefixed("Base Token: ", metadata.base_mint.as_str()));
    push_line(&mut lines, prefixed("Quote Token: ", metadata.quote_mint.as_str()));
    push_line(
        &mut lines,
        prefixed(
            "Base Lot Size: ",
            atoms_string(metadata.base_lot_size, metadata.base_decimals).as_str(),
        ),
    );
    push_line(
        &mut lines,
        prefixed(
            "Quote Lot Size: ",
            atoms_string(metadata.quote_lot_size, metadata.quote_decimals).as_str(),
        ),
    );
    push_line(
        &mut lines,
        prefixed(
            "Tick size: ",
            atoms_string(
                metadata.tick_size_in_quote_atoms_per_base_unit,
                metadata.quote_decimals,
            ).as_str(),
        ),
    );
    push_line(
        &mut lines,
        prefixed("Taker fees in basis points: ", number_text(taker_fees as u64).as_str()),
    );
    proof {
        assert(texts(lines@) =~= details_lines(
            *metadata,
            base_vault@,
            quote_vault@,
            taker_fees,
        )->Ok_0);
    }
    Ok(lines)
}

/// Whether the trader holds nothing in the market.
pub open spec fn holds_nothing(state: TraderState) -> bool {
    state.base_lots_locked == 0 && state.base_lots_free == 0 && state.quote_lots_locked == 0
        && state.quote_lots_free == 0
}

/// The lines that show a trader's balances: none for a trader who holds
/// nothing, else a rule, the trader and the four balances in human units.
/// The balances are converted in the order shown; the first that fails
/// decides the failure.
pub open spec fn trader_lines(metadata: MarketMetadata, trader: Seq<char>, state: TraderState)
    -> Result<Seq<Seq<char>>, ConversionError> {
    if holds_nothing(state) {
        Ok(Seq::empty())
    } else {
        match lots_text(state.base_lots_locked, metadata.base_lot_size, metadata.base_decimals) {
            Err(e) => Err(e),
            Ok(base_locked) => match lots_text(
                state.base_lots_free,
                metadata.base_lot_size,
                metadata.base_decimals,
            ) {
                Err(e) => Err(e),
                Ok(base_free) => match lots_text(
                    state.quote_lots_locked,
                    metadata.quote_lot_size,
                    metadata.quote_decimals,
                ) {
                    Err(e) => Err(e),
                    Ok(quote_locked) => match lots_text(
                        state.quote_lots_free,
                        metadata.quote_lot_size,
                        metadata.quote_decimals,
                    ) {
                        Err(e) => Err(e),
                        Ok(quote_free) => Ok(
                            seq![
                                "--------------------------------"@,
                                "Trader pubkey: "@ + trader,
                                "Base token locked: "@ + base_locked,
                                "Base token free: "@ + base_free,
                                "Quote token locked: "@ + quote_locked,
                                "Quote token free: "@ + quote_free,
                            ],
                        ),
                    },
                },
            },
        }
    }
}

/// The lines that show what `trader` holds in the market.
pub fn print_trader_state(metadata: &MarketMetadata, trader: &str, state: &TraderState) -> (r:
    Result<Vec<String>, ConversionError>)
    ensures
        match trader_lines(*metadata, trader@, *state) {
            Ok(lines) => r matches Ok(v) && texts(v@) == lines,
            Err(e) => r matches Err(x) && x == e,
        },
{
    let mut lines: Vec<String> = Vec::new();
    proof {
        assert(texts(lines@) =~= Seq::<Seq<char>>::empty());
    }
    if state.base_lots_locked == 0 && state.base_lots_free == 0 && state.quote_lots_locked == 0
        && state.quote_lots_free == 0 {
        return Ok(lines);
    }
    let base_locked = match lots_string(
        state.base_lots_locked,
        metadata.base_lot_size,
        metadata.base_decimals,
    ) {
        Ok(text) => text,
        Err(e) => { return Err(e); },
    };
    let base_free = match lots_string(
        state.base_lots_free,
        metadata.base_lot_size,
        metadata.base_decimals,
    ) {
        Ok(text) => text,
        Err(e) => { return Err(e); },
    };
    let quote_locked = match lots_string(
        state.quote_lots_locked,
        metadata.quote_lot_size,
        metadata.quote_decimals,
    ) {
        Ok(text) => text,
        Err(e) => { return Err(e); },
    };
    let quote_free = match lots_string(
        state.quote_lots_free,
        metadata.quote_lot_size,
        metadata.quote_decimals,
    ) {
        Ok(text) => text,
        Err(e) => { return Err(e); },
    };
    push_line(&mut lines, String::from_str("--------------------------------"));
    push_line(&mut lines, prefixed("Trader pubkey: ", trader));
    push_line(&mut lines, prefixed("Base token locked: ", base_locked.as_str()));
    push_line(&mut lines, prefixed("Base token free: ", base_free.as_str()));
    push_line(&mut lines, prefixed("Quote token locked: ", quote_locked.as_str()));
    push_line(&mut lines, prefixed("Quote token free: ", quote_free.as_str()));
    proof {
        assert(texts(lines@) =~= trader_lines(*metadata, trader@, *state)->Ok_0);
    }
    Ok(lines)
}

} // verus!
