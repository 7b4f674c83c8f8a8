use phoenix_report::decimal::Decimal;
use phoenix_report::oracle::{get_price, price_url, quote_url};
use phoenix_report::revenue::Currency;

#[test]
fn price_is_read_from_the_amount_field() {
    let body = r#"{"data":{"base":"SOL","currency":"USDC","amount":"150.25"}}"#;
    assert_eq!(get_price(body), Decimal::new(15025, 2));
    let body = "{ \"data\": { \"amount\": \"1.0002\" }, \"warnings\": [] }";
    assert_eq!(get_price(body), Decimal::new(10002, 4));
    let body = r#"{"data":{"amount":"7"}}"#;
    assert_eq!(get_price(body), Decimal::new(7, 0));
    let body = r#"{"data":{"amount":"+1.5e2"}}"#;
    assert_eq!(get_price(body), Decimal::new(150, 0));
    let body = r#"{"data":{"amount":"25E-3"}}"#;
    assert_eq!(get_price(body), Decimal::new(25, 3));
    let body = r#"{"amount":"1","data":{"amount":"2","data":{"amount":"3"}}}"#;
    assert_eq!(get_price(body), Decimal::new(2, 0));
}

#[test]
fn price_built_with_serde_json_is_read_back() {
    let mut data = serde_json::Map::new();
    data.insert("amount".to_string(), serde_json::Value::String("23.5".to_string()));
    let mut document = serde_json::Map::new();
    document.insert("data".to_string(), serde_json::Value::Object(data));
    let body = serde_json::to_string(&serde_json::Value::Object(document)).unwrap();
    assert_eq!(get_price(&body), Decimal::new(235, 1));
}

#[test]
fn price_is_missing_where_the_body_has_none() {
    for body in [
        "",
        "not json",
        "{",
        "[]",
        "\"150.25\"",
        "150.25",
        r#"{"data":{}}"#,
        r#"{"data":{"amount":150.25}}"#,
        r#"{"data":{"amount":null}}"#,
        r#"{"data":{"amount":"about 150"}}"#,
        r#"{"data":{"amount":"-1.5"}}"#,
        r#"{"data":{"amount":""}}"#,
        r#"{"data":"150.25"}"#,
        r#"{"amount":"150.25"}"#,
        r#"{"errors":[{"id":"not_found","message":"Invalid base currency"}]}"#,
    ] {
        assert_eq!(get_price(body), None, "{:?}", body);
    }
}

#[test]
fn price_address_names_both_currencies() {
    assert_eq!(price_url("USDT", "USDC"), "https://api.coinbase.com/v2/prices/USDT-USDC/spot");
    assert_eq!(price_url("SOL", "USDC"), "https://api.coinbase.com/v2/prices/SOL-USDC/spot");
    assert_eq!(price_url("", ""), "https://api.coinbase.com/v2/prices/-/spot");
    assert_eq!(quote_url(Currency::Sol), "https://api.coinbase.com/v2/prices/SOL-USDC/spot");
    assert_eq!(quote_url(Currency::Usdt), "https://api.coinbase.com/v2/prices/USDT-USDC/spot");
}
