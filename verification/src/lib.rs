//! Reporting on the markets of a central-limit order book: exact conversion
//! between raw on-chain integers and human-scale decimal quantities, and
//! the aggregation of uncollected fee revenue across markets into totals
//! per quote currency and one grand total in the reference currency.
//!
//! Every quantity is an exact decimal; nothing here rounds but where a
//! function says it does. The functions take and give plain values: reading
//! the ledger and the price feed, and printing, is the caller's part.

pub mod decimal;
pub mod display;
pub mod events;
pub mod ledger;
pub mod market;
pub mod oracle;
pub mod parse;
pub mod revenue;
pub mod scale;
pub mod text;
pub mod units;
