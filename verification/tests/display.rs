use phoenix_report::decimal::ConversionError;
use phoenix_report::display::{
    print_book, print_market_details, print_market_summary_data, print_trader_state, BookLine,
    DetailsError, Ladder, LadderOrder, TraderState,
};
use phoenix_report::ledger::Side;
use phoenix_report::market::MarketMetadata;

fn metadata() -> MarketMetadata {
    MarketMetadata {
        base_mint: "BaseMint".to_string(),
        quote_mint: "QuoteMint".to_string(),
        base_decimals: 9,
        quote_decimals: 6,
        base_lot_size: 1_000_000,
        quote_lot_size: 10,
        tick_size_in_quote_atoms_per_base_unit: 1_000,
    }
}

fn order(price_in_ticks: u64, size_in_base_lots: u64) -> LadderOrder {
    LadderOrder { price_in_ticks, size_in_base_lots }
}

fn line(side: Side, price: &str, size: &str) -> BookLine {
    BookLine { side, price: price.to_string(), size: size.to_string() }
}

fn token_account(amount: u64) -> Vec<u8> {
    let mut data = vec![0u8; 165];
    data[64..72].copy_from_slice(&amount.to_le_bytes());
    data[108] = 1;
    data
}

#[test]
fn book_shows_asks_from_the_top_down_then_bids() {
    let book = Ladder {
        bids: vec![order(22_900, 5_000), order(22_800, 12)],
        asks: vec![order(23_000, 1_500), order(23_100, 2_000), order(23_250, 1)],
    };
    assert_eq!(
        print_book(&metadata(), &book),
        Ok(vec![
            line(Side::Ask, "23.2500", "0.0010"),
            line(Side::Ask, "23.1000", "2.0000"),
            line(Side::Ask, "23.0000", "1.5000"),
            line(Side::Bid, "22.9000", "5.0000"),
            line(Side::Bid, "22.8000", "0.0120"),
        ])
    );
}

#[test]
fn book_rounds_to_four_places() {
    let mut m = metadata();
    m.tick_size_in_quote_atoms_per_base_unit = 1;
    m.base_lot_size = 1;
    let book = Ladder {
        bids: vec![order(1_234_449, 49_999), order(1_234_450, 50_000), order(0, 0)],
        asks: vec![],
    };
    assert_eq!(
        print_book(&m, &book),
        Ok(vec![
            line(Side::Bid, "1.2344", "0.0000"),
            line(Side::Bid, "1.2345", "0.0001"),
            line(Side::Bid, "0.0000", "0.0000"),
        ])
    );
    m.quote_decimals = 2;
    m.base_decimals = 0;
    let book = Ladder { bids: vec![], asks: vec![order(150, 3)] };
    assert_eq!(print_book(&m, &book), Ok(vec![line(Side::Ask, "1.5000", "3.0000")]));
}

#[test]
fn empty_book_has_no_rows() {
    assert_eq!(print_book(&metadata(), &Ladder { bids: vec![], asks: vec![] }), Ok(vec![]));
}

#[test]
fn book_holds_sizes_beyond_sixty_four_bits() {
    let mut m = metadata();
    m.base_lot_size = u64::MAX;
    m.base_decimals = 19;
    let book = Ladder { bids: vec![order(1, u64::MAX)], asks: vec![] };
    // (2^64 - 1)^2 / 10^19 = 34028236692093846342.6481119284349108225
    assert_eq!(
        print_book(&m, &book),
        Ok(vec![line(Side::Bid, "0.0010", "34028236692093846342.6481")])
    );
}

#[test]
fn book_that_cannot_be_converted_fails() {
    let book = Ladder { bids: vec![order(1, 1)], asks: vec![order(2, 2)] };
    let mut m = metadata();
    m.quote_decimals = 20;
    assert_eq!(print_book(&m, &book), Err(ConversionError::InvalidScale));
    let mut m = metadata();
    m.base_decimals = 20;
    assert_eq!(print_book(&m, &book), Err(ConversionError::InvalidScale));
    let mut m = metadata();
    m.quote_decimals = 0;
    m.tick_size_in_quote_atoms_per_base_unit = u64::MAX;
    assert!(print_book(&m, &Ladder { bids: vec![], asks: vec![] }).is_ok());
}

#[test]
fn book_shows_the_largest_price_and_size_in_full() {
    let mut m = metadata();
    m.quote_decimals = 0;
    m.base_decimals = 0;
    m.tick_size_in_quote_atoms_per_base_unit = u64::MAX;
    m.base_lot_size = u64::MAX;
    let book = Ladder { bids: vec![order(u64::MAX, u64::MAX)], asks: vec![] };
    // (2^64 - 1)^2
    assert_eq!(
        print_book(&m, &book),
        Ok(vec![line(
            Side::Bid,
            "340282366920938463426481119284349108225.0000",
            "340282366920938463426481119284349108225.0000"
        )])
    );
    m.quote_decimals = 3;
    assert_eq!(
        print_book(&m, &book).unwrap()[0].price,
        "340282366920938463426481119284349108.2250"
    );
}

#[test]
fn book_prices_keep_the_order_of_the_ticks() {
    let mut m = metadata();
    m.quote_decimals = 9;
    m.tick_size_in_quote_atoms_per_base_unit = 3;
    let ticks = [0u64, 1, 16_666, 16_667, 1 << 53, (1 << 53) + 1, u64::MAX - 1, u64::MAX];
    let book = Ladder { bids: ticks.iter().map(|t| order(*t, 1)).collect(), asks: vec![] };
    let rows = print_book(&m, &book).unwrap();
    let shown: Vec<u128> =
        rows.iter().map(|r| r.price.replace('.', "").parse::<u128>().unwrap()).collect();
    for pair in shown.windows(2) {
        assert!(pair[0] <= pair[1]);
    }
    assert_eq!(rows[2].price, "0.0000");
    assert_eq!(rows[3].price, "0.0001");
    let twice = Ladder { bids: vec![order(77, 1)], asks: vec![order(77, 9)] };
    let rows = print_book(&m, &twice).unwrap();
    assert_eq!(rows[0].price, rows[1].price);
}

#[test]
fn market_summary_is_five_lines() {
    assert_eq!(
        print_market_summary_data("Mkt", "Base", "Quote", "Auth"),
        vec![
            "--------------------------------------------".to_string(),
            "Market: Mkt".to_string(),
            "Base Token: Base".to_string(),
            "Quote Token: Quote".to_string(),
            "Authority: Auth".to_string(),
        ]
    );
}

#[test]
fn market_details_are_eight_lines() {
    let lines = print_market_details(
        &metadata(),
        &token_account(1_234_567_890),
        &token_account(2_500_500),
        5,
    );
    assert_eq!(
        lines,
        Ok(vec![
            "Base Vault balance: 1.235".to_string(),
            "Quote Vault balance: 2.501".to_string(),
            "Base Token: BaseMint".to_string(),
            "Quote Token: QuoteMint".to_string(),
            "Base Lot Size: 0.001000000".to_string(),
            "Quote Lot Size: 0.000010".to_string(),
            "Tick size: 0.001000".to_string(),
            "Taker fees in basis points: 5".to_string(),
        ])
    );
}

#[test]
fn market_details_pad_short_balances() {
    let mut m = metadata();
    m.base_decimals = 0;
    m.quote_decimals = 2;
    let lines =
        print_market_details(&m, &token_account(u64::MAX), &token_account(150), u16::MAX).unwrap();
    assert_eq!(lines[0], "Base Vault balance: 18446744073709551615.000");
    assert_eq!(lines[1], "Quote Vault balance: 1.500");
    assert_eq!(lines[4], "Base Lot Size: 1000000.0");
    assert_eq!(lines[7], "Taker fees in basis points: 65535");
}

#[test]
fn market_details_fail_on_unreadable_vaults_and_wide_scales() {
    let good = token_account(1);
    let bad = vec![0u8; 165];
    assert_eq!(
        print_market_details(&metadata(), &bad, &good, 0),
        Err(DetailsError::BaseVaultUnreadable)
    );
    assert_eq!(
        print_market_details(&metadata(), &bad, &bad, 0),
        Err(DetailsError::BaseVaultUnreadable)
    );
    assert_eq!(
        print_market_details(&metadata(), &good, &good[..100], 0),
        Err(DetailsError::QuoteVaultUnreadable)
    );
    let mut m = metadata();
    m.quote_decimals = 20;
    assert_eq!(print_market_details(&m, &good, &good, 0), Err(DetailsError::InvalidScale));
    assert_eq!(print_market_details(&m, &good, &bad, 0), Err(DetailsError::QuoteVaultUnreadable));
    let mut m = metadata();
    m.base_decimals = 255;
    assert_eq!(print_market_details(&m, &good, &good, 0), Err(DetailsError::InvalidScale));
}

#[test]
fn trader_without_holdings_is_not_shown() {
    let nothing = TraderState {
        quote_lots_locked: 0,
        quote_lots_free: 0,
        base_lots_locked: 0,
        base_lots_free: 0,
    };
    assert_eq!(print_trader_state(&metadata(), "Trader", &nothing), Ok(vec![]));
    let mut m = metadata();
    m.base_decimals = 99;
    assert_eq!(print_trader_state(&m, "Trader", &nothing), Ok(vec![]));
}

#[test]
fn trader_holdings_are_shown_in_human_units() {
    let state = TraderState {
        quote_lots_locked: 150_000,
        quote_lots_free: 0,
        base_lots_locked: 0,
        base_lots_free: 2_500,
    };
    assert_eq!(
        print_trader_state(&metadata(), "Trader1", &state),
        Ok(vec![
            "--------------------------------".to_string(),
            "Trader pubkey: Trader1".to_string(),
            "Base token locked: 0.000000000".to_string(),
            "Base token free: 2.500000000".to_string(),
            "Quote token locked: 1.500000".to_string(),
            "Quote token free: 0.000000".to_string(),
        ])
    );
}

#[test]
fn trader_holdings_that_cannot_be_converted_fail() {
    let state = TraderState {
        quote_lots_locked: u64::MAX,
        quote_lots_free: 1,
        base_lots_locked: 1,
        base_lots_free: 1,
    };
    assert_eq!(
        print_trader_state(&metadata(), "T", &state),
        Err(ConversionError::ArithmeticOverflow)
    );
    let mut m = metadata();
    m.base_decimals = 20;
    assert_eq!(print_trader_state(&m, "T", &state), Err(ConversionError::InvalidScale));
    let mut m = metadata();
    m.quote_decimals = 20;
    assert_eq!(print_trader_state(&m, "T", &state), Err(ConversionError::ArithmeticOverflow));
    let small = TraderState { quote_lots_locked: 1, ..state };
    assert_eq!(print_trader_state(&m, "T", &small), Err(ConversionError::InvalidScale));
}
