use phoenix_report::decimal::{ConversionError, Decimal};
use phoenix_report::revenue::{
    process_get_uncollected_revenue, AggregationError, Currency, CurrencyTotals, FeeReading,
    MarketSnapshot, PriceQuotes,
};

fn dec(mantissa: u128, scale: u8) -> Decimal {
    Decimal::new(mantissa, scale).unwrap()
}

fn market(id: &str, symbol: &str, decimals: u8, fee: u64) -> MarketSnapshot {
    MarketSnapshot {
        market_id: id.to_string(),
        reading: Some(FeeReading {
            quote_symbol: symbol.to_string(),
            quote_decimals: decimals,
            uncollected_fee: fee,
        }),
    }
}

fn failed(id: &str) -> MarketSnapshot {
    MarketSnapshot { market_id: id.to_string(), reading: None }
}

fn quotes(usdt: Option<Decimal>, sol: Option<Decimal>) -> PriceQuotes {
    PriceQuotes { usdt, sol }
}

fn usual_quotes() -> PriceQuotes {
    quotes(Some(dec(10002, 4)), Some(dec(1500, 1)))
}

#[test]
fn empty_snapshot_gives_empty_report() {
    for q in [usual_quotes(), quotes(None, None)] {
        let report = process_get_uncollected_revenue(&vec![], &q).unwrap();
        assert_eq!(report.totals.get(Currency::Usdc), None);
        assert_eq!(report.totals.get(Currency::Usdt), None);
        assert_eq!(report.totals.get(Currency::Sol), None);
        assert_eq!(report.totals, CurrencyTotals::new());
        assert_eq!(report.grand_total, Decimal::zero());
        assert!(report.grand_total.is_zero());
    }
}

#[test]
fn three_currencies_are_totalled_and_converted() {
    let markets = vec![
        market("m-usdc", "USDC", 6, 100_000_000),
        market("m-usdt", "USDT", 6, 50_000_000),
        market("m-sol", "SOL", 9, 2),
    ];
    let report = process_get_uncollected_revenue(&markets, &usual_quotes()).unwrap();
    let usdc = report.totals.get(Currency::Usdc).unwrap();
    let usdt = report.totals.get(Currency::Usdt).unwrap();
    let sol = report.totals.get(Currency::Sol).unwrap();
    assert_eq!(usdc.to_text(), "100.000000");
    assert_eq!(usdt.to_text(), "50.000000");
    assert_eq!(sol.to_text(), "0.000000002");
    // 100 + 50 * 1.0002 + 0.000000002 * 150.0 = 100 + 50.01 + 0.0000003
    assert_eq!(report.grand_total, dec(1_500_100_003_000, 10));
    assert_eq!(report.grand_total.to_text(), "150.0100003000");
    assert_eq!(report.grand_total.round_to(4).unwrap().to_text(), "150.0100");
}

#[test]
fn three_currencies_with_raw_fees_are_totalled_and_converted() {
    let markets = vec![
        market("m-usdc", "USDC", 6, 100),
        market("m-usdt", "USDT", 6, 50),
        market("m-sol", "SOL", 9, 2),
    ];
    let report = process_get_uncollected_revenue(&markets, &usual_quotes()).unwrap();
    assert_eq!(report.totals.get(Currency::Usdc).unwrap().to_short_text(), "0.0001");
    assert_eq!(report.totals.get(Currency::Usdt).unwrap().to_short_text(), "0.00005");
    assert_eq!(report.totals.get(Currency::Sol).unwrap().to_short_text(), "0.000000002");
    // 0.0001 + 0.00005 * 1.0002 + 0.000000002 * 150.0
    assert_eq!(report.grand_total.to_short_text(), "0.00015031");
}

#[test]
fn several_markets_of_one_currency_add_up() {
    let markets = vec![
        market("a", "USDC", 6, 1),
        market("b", "SOL", 9, 5),
        market("c", "USDC", 6, 2_500_000),
        market("d", "USDC", 2, 150),
        market("e", "USDC", 8, 1),
    ];
    let report = process_get_uncollected_revenue(&markets, &quotes(None, Some(dec(2, 0)))).unwrap();
    // 0.000001 + 2.5 + 1.50 + 0.00000001
    assert_eq!(report.totals.get(Currency::Usdc), Some(dec(400_000_101, 8)));
    assert_eq!(report.totals.get(Currency::Usdt), None);
    assert_eq!(report.totals.get(Currency::Sol), Some(dec(5, 9)));
    assert_eq!(report.grand_total, dec(4_000_001_020, 9));
}

#[test]
fn ten_thousand_markets_lose_nothing() {
    let markets: Vec<MarketSnapshot> =
        (0..10_000).map(|i| market(&format!("m{}", i), "USDC", 6, 1_000_000_000_000)).collect();
    let report = process_get_uncollected_revenue(&markets, &quotes(None, None)).unwrap();
    assert_eq!(report.totals.get(Currency::Usdc), Some(dec(10_000_000_000_000_000, 6)));
    assert_eq!(report.grand_total.to_text(), "10000000000.000000");
}

#[test]
fn unsupported_currency_fails_the_run() {
    let markets = vec![
        market("first", "USDC", 6, 100),
        market("second", "ETH", 18, 7),
        market("third", "USDT", 6, 50),
    ];
    let error = process_get_uncollected_revenue(&markets, &usual_quotes()).unwrap_err();
    assert_eq!(
        error,
        AggregationError::UnsupportedQuoteCurrency {
            market_id: "second".to_string(),
            symbol: "ETH".to_string(),
        }
    );
    for symbol in ["usdc", "USDC ", "", "unknown", "SOLANA", "US", "USDCUSDC"] {
        let error =
            process_get_uncollected_revenue(&vec![market("m", symbol, 6, 1)], &usual_quotes())
                .unwrap_err();
        assert_eq!(
            error,
            AggregationError::UnsupportedQuoteCurrency {
                market_id: "m".to_string(),
                symbol: symbol.to_string(),
            }
        );
    }
}

#[test]
fn failed_lookup_fails_the_run() {
    let markets = vec![market("a", "USDC", 6, 100), failed("b"), market("c", "ETH", 6, 1)];
    assert_eq!(
        process_get_uncollected_revenue(&markets, &usual_quotes()),
        Err(AggregationError::MarketLoadFailed { market_id: "b".to_string() })
    );
}

#[test]
fn first_failing_market_decides() {
    let markets = vec![market("a", "ETH", 6, 100), failed("b")];
    assert_eq!(
        process_get_uncollected_revenue(&markets, &usual_quotes()),
        Err(AggregationError::UnsupportedQuoteCurrency {
            market_id: "a".to_string(),
            symbol: "ETH".to_string(),
        })
    );
    let markets = vec![market("a", "USDT", 6, 100), market("b", "DOGE", 6, 1)];
    assert_eq!(
        process_get_uncollected_revenue(&markets, &quotes(None, None)),
        Err(AggregationError::UnsupportedQuoteCurrency {
            market_id: "b".to_string(),
            symbol: "DOGE".to_string(),
        })
    );
}

#[test]
fn scale_is_checked_before_currency() {
    assert_eq!(
        process_get_uncollected_revenue(&vec![market("a", "ETH", 20, 1)], &usual_quotes()),
        Err(AggregationError::MarketAmount {
            market_id: "a".to_string(),
            reason: ConversionError::InvalidScale,
        })
    );
    assert_eq!(
        process_get_uncollected_revenue(&vec![market("a", "USDC", 20, 1)], &usual_quotes()),
        Err(AggregationError::MarketAmount {
            market_id: "a".to_string(),
            reason: ConversionError::InvalidScale,
        })
    );
    assert!(
        process_get_uncollected_revenue(&vec![market("a", "USDC", 19, 1)], &usual_quotes()).is_ok()
    );
}

#[test]
fn total_that_does_not_fit_fails_the_run() {
    let markets = vec![
        market("a", "USDC", 19, 1),
        market("b", "USDC", 0, u64::MAX),
        market("c", "USDC", 0, u64::MAX),
    ];
    assert_eq!(
        process_get_uncollected_revenue(&markets[..2].to_vec(), &usual_quotes())
            .unwrap()
            .totals
            .get(Currency::Usdc),
        Some(dec(u64::MAX as u128 * 10_000_000_000_000_000_000 + 1, 19))
    );
    assert_eq!(
        process_get_uncollected_revenue(&markets, &usual_quotes()),
        Err(AggregationError::MarketAmount {
            market_id: "c".to_string(),
            reason: ConversionError::ArithmeticOverflow,
        })
    );
}

#[test]
fn missing_price_fails_only_where_it_is_needed() {
    let with_usdt = vec![market("a", "USDC", 6, 100), market("b", "USDT", 6, 50)];
    assert_eq!(
        process_get_uncollected_revenue(&with_usdt, &quotes(None, Some(dec(150, 0)))),
        Err(AggregationError::PriceFeedUnavailable { currency: Currency::Usdt })
    );
    let report =
        process_get_uncollected_revenue(&with_usdt, &quotes(Some(dec(1, 0)), None)).unwrap();
    assert_eq!(report.grand_total, dec(150, 6));

    let with_sol = vec![market("a", "SOL", 9, 1)];
    assert_eq!(
        process_get_uncollected_revenue(&with_sol, &quotes(Some(dec(1, 0)), None)),
        Err(AggregationError::PriceFeedUnavailable { currency: Currency::Sol })
    );

    let zero_usdt = vec![market("a", "USDC", 6, 100), market("b", "USDT", 6, 0)];
    let report = process_get_uncollected_revenue(&zero_usdt, &quotes(None, None)).unwrap();
    assert_eq!(report.totals.get(Currency::Usdt), Some(dec(0, 6)));
    assert_eq!(report.grand_total, dec(100, 6));

    let only_usdc = vec![market("a", "USDC", 6, 100)];
    let report = process_get_uncollected_revenue(&only_usdc, &quotes(None, None)).unwrap();
    assert_eq!(report.grand_total, dec(100, 6));
}

#[test]
fn usdt_is_priced_before_sol() {
    let markets = vec![market("a", "SOL", 9, 1), market("b", "USDT", 6, 1)];
    assert_eq!(
        process_get_uncollected_revenue(&markets, &quotes(None, None)),
        Err(AggregationError::PriceFeedUnavailable { currency: Currency::Usdt })
    );
}

#[test]
fn converted_total_that_does_not_fit_fails_the_run() {
    let markets = vec![market("a", "SOL", 19, 1)];
    assert_eq!(
        process_get_uncollected_revenue(&markets, &quotes(None, Some(dec(1, 20)))),
        Err(AggregationError::ConvertedTotal {
            currency: Currency::Sol,
            reason: ConversionError::InvalidScale,
        })
    );
    let markets = vec![market("a", "USDT", 0, u64::MAX)];
    assert_eq!(
        process_get_uncollected_revenue(&markets, &quotes(Some(dec(u128::MAX, 0)), None)),
        Err(AggregationError::ConvertedTotal {
            currency: Currency::Usdt,
            reason: ConversionError::ArithmeticOverflow,
        })
    );
    let markets = vec![market("a", "USDC", 19, u64::MAX), market("b", "USDT", 0, 2)];
    assert_eq!(
        process_get_uncollected_revenue(&markets, &quotes(Some(dec(u128::MAX / 2, 0)), None)),
        Err(AggregationError::ConvertedTotal {
            currency: Currency::Usdt,
            reason: ConversionError::ArithmeticOverflow,
        })
    );
}

#[test]
fn same_snapshot_gives_same_report() {
    let markets = vec![
        market("m-usdc", "USDC", 6, 100_000_000),
        market("m-usdt", "USDT", 6, 50_000_000),
        market("m-sol", "SOL", 9, 2),
    ];
    let first = process_get_uncollected_revenue(&markets, &usual_quotes());
    let second = process_get_uncollected_revenue(&markets, &usual_quotes());
    assert!(first.is_ok());
    assert_eq!(first, second);
    let broken = vec![market("a", "USDC", 6, 1), failed("b")];
    assert_eq!(
        process_get_uncollected_revenue(&broken, &usual_quotes()),
        process_get_uncollected_revenue(&broken, &usual_quotes())
    );
}

#[test]
fn totals_can_be_kept_market_by_market() {
    let mut totals = CurrencyTotals::new();
    assert!(!totals.needs_quote(Currency::Usdt));
    assert_eq!(totals.record(&market("a", "USDT", 6, 0)), Ok(()));
    assert!(!totals.needs_quote(Currency::Usdt));
    assert_eq!(totals.record(&market("b", "USDT", 6, 3)), Ok(()));
    assert!(totals.needs_quote(Currency::Usdt));
    assert!(!totals.needs_quote(Currency::Sol));
    assert_eq!(totals.record(&market("c", "USDC", 6, 3)), Ok(()));
    assert!(!totals.needs_quote(Currency::Usdc));
    let before = totals;
    assert_eq!(
        totals.record(&market("d", "BTC", 6, 3)),
        Err(AggregationError::UnsupportedQuoteCurrency {
            market_id: "d".to_string(),
            symbol: "BTC".to_string(),
        })
    );
    assert_eq!(totals, before);
    assert_eq!(totals.convert(&quotes(Some(dec(2, 0)), None)), Ok(dec(9, 6)));
    assert_eq!(
        totals.convert(&quotes(None, None)),
        Err(AggregationError::PriceFeedUnavailable { currency: Currency::Usdt })
    );
}

#[test]
fn symbols_name_the_three_currencies() {
    assert_eq!(Currency::from_symbol("USDC"), Some(Currency::Usdc));
    assert_eq!(Currency::from_symbol("USDT"), Some(Currency::Usdt));
    assert_eq!(Currency::from_symbol("SOL"), Some(Currency::Sol));
    assert_eq!(Currency::from_symbol("ETH"), None);
    assert_eq!(Currency::from_symbol("sol"), None);
    assert_eq!(Currency::from_symbol(""), None);
    for currency in [Currency::Usdc, Currency::Usdt, Currency::Sol] {
        assert_eq!(Currency::from_symbol(currency.symbol()), Some(currency));
    }
}
