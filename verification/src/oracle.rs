//! The price oracle's side of the aggregation: where a spot price is asked
//! for and how the answer is read.

use vstd::prelude::*;
use vstd::string::StringExecFns;
use crate::decimal::{Decimal, DecimalValue};
use crate::parse::{parse_decimal, parse_decimal_text};
use crate::revenue::Currency;

verus! {

/// The JSON string that stands at `pointer` in the JSON document `body`,
/// as `serde_json` reads the document and follows the pointer; `None`
/// where the body is no JSON document, where nothing stands at the
/// pointer, or where what stands there is no JSON string.
pub uninterp spec fn json_string_at(body: Seq<char>, pointer: Seq<char>) -> Option<Seq<char>>;

/// Parses `body` with `serde_json::from_str` into a `serde_json::Value`,
/// looks up `pointer` with `Value::pointer` and takes the string with
/// `Value::as_str`. The contract claims only that the outcome depends on
/// the characters of `body` and of `pointer` alone.
#[verifier::external_body]
fn read_json_string(body: &str, pointer: &str) -> (r: Option<String>)
    ensures
        r is Some <==> json_string_at(body@, pointer@) is Some,
        r matches Some(text) ==> json_string_at(body@, pointer@) == Some(text@),
{
    let document: serde_json::Value = serde_json::from_str(body).ok()?;
    let found: &str = document.pointer(pointer)?.as_str()?;
    Some(found.to_owned())
}

/// The text of the amount in a spot-price response: the JSON string in
/// the field `amount` of the field `data`.
pub open spec fn spot_amount_field(body: Seq<char>) -> Option<Seq<char>> {
    json_string_at(body, "/data/amount"@)
}

/// The address text at which the spot price of `base` in `quote` is asked
/// for.
pub open spec fn price_url_text(base: Seq<char>, quote: Seq<char>) -> Seq<char> {
    "https://api.coinbase.com/v2/prices/"@ + base + "-"@ + quote + "/spot"@
}

/// The address at which the spot price of `base` in `quote` is asked for.
pub fn price_url(base: &str, quote: &str) -> (r: String)
    ensures
        r@ == price_url_text(base@, quote@),
{
    let mut url = String::from_str("https://api.coinbase.com/v2/prices/");
    url.append(base);
    url.append("-");
    url.append(quote);
    url.append("/spot");
    url
}

/// The address at which the price of `currency` in the reference currency
/// is asked for.
pub fn quote_url(currency: Currency) -> (r: String)
    ensures
        r@ == price_url_text(currency.symbol_text(), Currency::Usdc.symbol_text()),
{
    price_url(currency.symbol(), Currency::Usdc.symbol())
}

/// The price that an amount field states: the decimal that its text
/// denotes, where there is a field and a [`Decimal`] can hold what it says.
pub open spec fn stated_price(amount: Option<Seq<char>>) -> Option<DecimalValue> {
    match amount {
        Some(text) => match parse_decimal_text(text) {
            Some(value) => if value.representable() {
                Some(value)
            } else {
                None
            },
            None => None,
        },
        None => None,
    }
}

/// The spot price in a response body of the price feed: the decimal that
/// the field `data.amount` states. `None` where the field is missing or its
/// text is no decimal that can be held; the caller hands that on as a price
/// that is not to be had.
pub fn get_price(body: &str) -> (r: Option<Decimal>)
    ensures
        r is Some <==> stated_price(spot_amount_field(body@)) is Some,
        r matches Some(price) ==> stated_price(spot_amount_field(body@)) == Some(price@),
{
    match read_json_string(body, "/data/amount") {
        Some(text) => parse_decimal(text.as_str()),
        None => None,
    }
}

} // verus!
