use phoenix_report::decimal::ConversionError;
use phoenix_report::events::{
    finalize_log, initialize_log, log_market_event, log_market_events, EventDetails, MarketEvent,
};
use phoenix_report::ledger::Side;
use phoenix_report::market::MarketMetadata;

fn metadata() -> MarketMetadata {
    MarketMetadata {
        base_mint: "BaseMint".to_string(),
        quote_mint: "QuoteMint".to_string(),
        base_decimals: 9,
        quote_decimals: 6,
        base_lot_size: 1_000,
        quote_lot_size: 10,
        tick_size_in_quote_atoms_per_base_unit: 1_000,
    }
}

fn event(market: &str, details: EventDetails) -> MarketEvent {
    MarketEvent {
        market: market.to_string(),
        sequence_number: 34,
        slot: 12,
        timestamp: 1_700_000_000,
        signature: "SIG".to_string(),
        event_index: 5,
        details,
    }
}

fn fill() -> EventDetails {
    EventDetails::Fill {
        maker: "Alice".to_string(),
        taker: "Bob".to_string(),
        price_in_ticks: 1_500,
        base_lots_filled: 25,
        side_filled: Side::Ask,
    }
}

fn strings(items: &[&str]) -> Vec<String> {
    items.iter().map(|s| s.to_string()).collect()
}

const HEAD: &str =
    "market: MKT, event_type: Fill, timestamp: 1700000000, signature: SIG, slot: 12, sequence_number: 34, event_index: 5";

#[test]
fn log_starts_with_seven_labelled_fields() {
    let log = initialize_log(&event("MKT", EventDetails::Other), "Fill".to_string());
    assert_eq!(
        log,
        strings(&[
            "market: MKT",
            "event_type: Fill",
            "timestamp: 1700000000",
            "signature: SIG",
            "slot: 12",
            "sequence_number: 34",
            "event_index: 5",
        ])
    );
}

#[test]
fn log_writes_numbers_in_full() {
    let mut e = event("", EventDetails::Other);
    e.timestamp = -1;
    e.slot = u64::MAX;
    e.sequence_number = 0;
    e.event_index = 10;
    let log = initialize_log(&e, String::new());
    assert_eq!(log[0], "market: ");
    assert_eq!(log[1], "event_type: ");
    assert_eq!(log[2], "timestamp: -1");
    assert_eq!(log[4], "slot: 18446744073709551615");
    assert_eq!(log[5], "sequence_number: 0");
    assert_eq!(log[6], "event_index: 10");
    e.timestamp = i64::MIN;
    assert_eq!(initialize_log(&e, String::new())[2], "timestamp: -9223372036854775808");
    e.timestamp = i64::MAX;
    assert_eq!(initialize_log(&e, String::new())[2], "timestamp: 9223372036854775807");
    e.timestamp = 0;
    assert_eq!(initialize_log(&e, String::new())[2], "timestamp: 0");
}

#[test]
fn log_line_joins_fields_with_commas() {
    let line = finalize_log(strings(&["a: 1", "b: 2"]), strings(&["M", "T", "1.5", "Bid", "2.0"]));
    assert_eq!(line, "a: 1, b: 2, maker: M, taker: T, price: 1.5, side: Bid, quantity: 2.0");
    let line = finalize_log(vec![], strings(&["M", "T", "1.5", "Bid", "2.0"]));
    assert_eq!(line, "maker: M, taker: T, price: 1.5, side: Bid, quantity: 2.0");
    assert_eq!(finalize_log(vec![], vec![]), "");
    assert_eq!(finalize_log(strings(&["only"]), vec![]), "only");
}

#[test]
fn log_line_pairs_keys_and_values_as_far_as_both_go() {
    let line = finalize_log(strings(&["x"]), strings(&["M", "T"]));
    assert_eq!(line, "x, maker: M, taker: T");
    let line = finalize_log(strings(&["x"]), strings(&["M", "T", "P", "S", "Q", "extra", "more"]));
    assert_eq!(line, "x, maker: M, taker: T, price: P, side: S, quantity: Q");
}

#[test]
fn fill_is_logged_with_price_and_quantity_in_human_units() {
    let lines = log_market_events(&metadata(), "MKT", &vec![event("MKT", fill())]).unwrap();
    assert_eq!(
        lines,
        vec![format!(
            "{}, maker: Alice, taker: Bob, price: 1.5, side: Ask, quantity: 0.000025000",
            HEAD
        )]
    );
}

#[test]
fn place_and_reduce_take_their_side_from_the_sequence_number() {
    let place = EventDetails::Place {
        order_sequence_number: !7u64,
        maker: "Alice".to_string(),
        price_in_ticks: 2,
        base_lots_placed: 1_000_000,
    };
    let reduce = EventDetails::Reduce {
        order_sequence_number: 7,
        maker: "Carol".to_string(),
        price_in_ticks: 0,
        base_lots_removed: 0,
    };
    let lines =
        log_market_events(&metadata(), "MKT", &vec![event("MKT", place), event("MKT", reduce)])
            .unwrap();
    assert_eq!(
        lines,
        vec![
            "market: MKT, event_type: Place, timestamp: 1700000000, signature: SIG, slot: 12, \
             sequence_number: 34, event_index: 5, maker: Alice, taker: , price: 0.002, \
             side: Bid, quantity: 1.000000000"
                .to_string(),
            "market: MKT, event_type: Reduce, timestamp: 1700000000, signature: SIG, slot: 12, \
             sequence_number: 34, event_index: 5, maker: Carol, taker: , price: 0, \
             side: Ask, quantity: 0.000000000"
                .to_string(),
        ]
    );
}

#[test]
fn whole_price_is_logged_without_a_point() {
    let m = MarketMetadata {
        base_mint: "B".to_string(),
        quote_mint: "Q".to_string(),
        base_decimals: 2,
        quote_decimals: 0,
        base_lot_size: 41,
        quote_lot_size: 1,
        tick_size_in_quote_atoms_per_base_unit: 1,
    };
    let key = "1".repeat(32);
    let signature = "1".repeat(64);
    let e = MarketEvent {
        market: key.clone(),
        sequence_number: 7,
        slot: 9,
        timestamp: 5,
        signature: signature.clone(),
        event_index: 2,
        details: EventDetails::Fill {
            maker: key.clone(),
            taker: key.clone(),
            price_in_ticks: 7,
            base_lots_filled: 3,
            side_filled: Side::Bid,
        },
    };
    let lines = log_market_events(&m, &key, &vec![e]).unwrap();
    let expected = format!(
        "market: {k}, event_type: Fill, timestamp: 5, signature: {s}, slot: 9, \
         sequence_number: 7, event_index: 2, maker: {k}, taker: {k}, price: 7, side: Bid, \
         quantity: 1.23",
        k = key,
        s = signature
    );
    assert_eq!(lines, vec![expected.clone()]);
    assert_eq!(expected.len(), 313);
}

#[test]
fn fees_of_a_fill_summary_are_logged_in_short() {
    let summary = |market: &str, fees: u64| {
        event(market, EventDetails::FillSummary { total_quote_fees: fees })
    };
    assert_eq!(
        log_market_events(&metadata(), "ONE", &vec![summary("TWO", 0)]),
        Ok(vec!["Total quote token fees paid: 0".to_string()])
    );
    let place = EventDetails::Place {
        order_sequence_number: 1,
        maker: "A".to_string(),
        price_in_ticks: 1,
        base_lots_placed: 1,
    };
    let events = vec![summary("TWO", 0), event("TWO", place), summary("ONE", 0)];
    assert_eq!(
        log_market_events(&metadata(), "ONE", &events),
        Ok(vec![
            "Total quote token fees paid: 0".to_string(),
            "Total quote token fees paid: 0".to_string(),
        ])
    );
    let mut whole = metadata();
    whole.quote_decimals = 0;
    assert_eq!(
        log_market_events(&whole, "ONE", &vec![summary("ONE", 0), summary("ONE", 12)]),
        Ok(vec![
            "Total quote token fees paid: 0".to_string(),
            "Total quote token fees paid: 12".to_string(),
        ])
    );
    assert_eq!(
        log_market_events(&metadata(), "ONE", &vec![summary("ONE", 1_500_000), summary("ONE", 2_000_000)]),
        Ok(vec![
            "Total quote token fees paid: 1.5".to_string(),
            "Total quote token fees paid: 2".to_string(),
        ])
    );
}

#[test]
fn logged_quantities_read_back_to_the_atoms() {
    let lots = [0u64, 1, 25, 999_999, 18_446_744_073_709_551];
    let events: Vec<MarketEvent> = lots
        .iter()
        .map(|n| {
            event(
                "MKT",
                EventDetails::Reduce {
                    order_sequence_number: 3,
                    maker: "A".to_string(),
                    price_in_ticks: *n,
                    base_lots_removed: *n,
                },
            )
        })
        .collect();
    let lines = log_market_events(&metadata(), "MKT", &events).unwrap();
    assert_eq!(lines.len(), lots.len());
    let mut last_price = phoenix_report::decimal::Decimal::zero();
    for (line, n) in lines.iter().zip(lots) {
        let quantity = line.rsplit("quantity: ").next().unwrap();
        let read = phoenix_report::parse::parse_decimal(quantity).unwrap();
        assert_eq!(read.to_atoms(9), Some(n * 1_000));
        let from = line.find("price: ").unwrap() + "price: ".len();
        let to = line[from..].find(',').unwrap() + from;
        let price = phoenix_report::parse::parse_decimal(&line[from..to]).unwrap();
        let price = price.round_to(6).unwrap();
        assert!(last_price.mantissa() <= price.mantissa());
        last_price = price;
    }
}

#[test]
fn trades_of_other_markets_are_passed_over() {
    let events = vec![
        event("OTHER", fill()),
        event("MKT", EventDetails::Other),
        event("MKT", fill()),
        event("mkt", fill()),
        event("OTHER", EventDetails::FillSummary { total_quote_fees: 1_234 }),
    ];
    let lines = log_market_events(&metadata(), "MKT", &events).unwrap();
    assert_eq!(lines.len(), 2);
    assert!(lines[0].starts_with(HEAD));
    assert_eq!(lines[1], "Total quote token fees paid: 0.001234");
    assert_eq!(log_market_events(&metadata(), "MKT", &vec![]), Ok(vec![]));
    assert_eq!(log_market_event(&metadata(), "MKT", &event("OTHER", fill())), Ok(None));
    assert_eq!(log_market_event(&metadata(), "MKT", &event("MKT", EventDetails::Other)), Ok(None));
}

#[test]
fn event_that_cannot_be_converted_fails_the_log() {
    let big = EventDetails::Fill {
        maker: "A".to_string(),
        taker: "B".to_string(),
        price_in_ticks: 1,
        base_lots_filled: u64::MAX,
        side_filled: Side::Bid,
    };
    let events = vec![event("MKT", fill()), event("MKT", big.clone()), event("MKT", fill())];
    assert_eq!(
        log_market_events(&metadata(), "MKT", &events),
        Err(ConversionError::ArithmeticOverflow)
    );
    assert!(log_market_events(&metadata(), "ELSE", &events).unwrap().is_empty());

    let mut wide_quote = metadata();
    wide_quote.quote_decimals = 20;
    assert_eq!(
        log_market_events(&wide_quote, "MKT", &vec![event("MKT", big)]),
        Err(ConversionError::InvalidScale)
    );
    assert_eq!(
        log_market_events(
            &wide_quote,
            "MKT",
            &vec![event("X", EventDetails::FillSummary { total_quote_fees: 1 })]
        ),
        Err(ConversionError::InvalidScale)
    );
    let mut wide_base = metadata();
    wide_base.base_decimals = 20;
    assert_eq!(
        log_market_events(&wide_base, "MKT", &vec![event("MKT", fill())]),
        Err(ConversionError::InvalidScale)
    );
    assert_eq!(
        log_market_events(
            &wide_base,
            "MKT",
            &vec![event("X", EventDetails::FillSummary { total_quote_fees: 1 })]
        ),
        Ok(vec!["Total quote token fees paid: 0.000001".to_string()])
    );
}

#[test]
fn metadata_converts_ticks_and_lots() {
    let m = metadata();
    assert_eq!(m.ticks_to_price(1_500).unwrap().to_text(), "1.500000");
    assert_eq!(m.base_lots_to_base_amount(25), Ok(25_000));
    assert_eq!(m.quote_lots_to_quote_amount(25), Ok(250));
    assert_eq!(m.base_lots_to_base_amount(u64::MAX), Err(ConversionError::ArithmeticOverflow));
    assert_eq!(m.quote_lots_to_quote_amount(u64::MAX), Err(ConversionError::ArithmeticOverflow));
    assert_eq!(m.quote_lots_to_quote_amount(u64::MAX / 10), Ok(u64::MAX / 10 * 10));
}
