//! Reading ledger accounts: the raw bytes of a market account and of a
//! token account, decoded by the crates that define their layout.

use vstd::prelude::*;
use vstd::slice::slice_subrange;
use phoenix::program::{get_market_size, load_with_dispatch, MarketHeader, MarketSizeParams};
use phoenix::quantities::WrapperU64;
use spl_token::solana_program::program_pack::Pack;
use crate::revenue::FeeReading;

verus! {

/// Length of the header that a market account starts with.
pub const MARKET_HEADER_LEN: usize = 576;

/// Where the mint of the quote token starts in a market header; it is 32
/// bytes long.
pub const QUOTE_MINT_AT: usize = 128;

/// Length of a token account.
pub const TOKEN_ACCOUNT_LEN: usize = 165;

/// The side of the book that an order rests on.
#[derive(Clone, Copy, Debug, PartialEq, Eq, Structural)]
pub enum Side {
    Bid,
    Ask,
}

/// What the aggregation reads of a market header.
#[derive(Clone, Copy, Debug, PartialEq, Eq)]
pub struct HeaderFields {
    pub bids_size: u64,
    pub asks_size: u64,
    pub num_seats: u64,
    pub quote_mint: [u8; 32],
    pub quote_decimals: u32,
}

/// What the aggregation reads of a market account.
#[derive(Clone, Copy, Debug, PartialEq, Eq)]
pub struct MarketAccount {
    /// Mint of the quote token, from which the caller resolves its symbol.
    pub quote_mint: [u8; 32],
    /// Decimal places of the quote token.
    pub quote_decimals: u32,
    /// Uncollected fees, in quote lots as the market holds them.
    pub uncollected_fee: u64,
}

/// The length of the market that follows a header with these size
/// parameters, as `phoenix::program::get_market_size` gives it; `None` for
/// parameters that no market layout has.
pub uninterp spec fn fifo_market_len(bids_size: u64, asks_size: u64, num_seats: u64) -> Option<
    usize,
>;

/// Whether these size parameters are those of one of the twelve market
/// layouts that there are: four book sizes with three seat counts each.
pub open spec fn known_layout(bids_size: u64, asks_size: u64, num_seats: u64) -> bool {
    bids_size == asks_size && (
    (bids_size == 512 && (num_seats == 128 || num_seats == 1025 || num_seats == 1153))
        || (bids_size == 1024 && (num_seats == 128 || num_seats == 2049 || num_seats == 2177))
        || (bids_size == 2048 && (num_seats == 128 || num_seats == 4097 || num_seats == 4225))
        || (bids_size == 4096 && (num_seats == 128 || num_seats == 8193 || num_seats == 8321)))
}

/// Whether these size parameters are those of a known market layout.
pub fn is_known_layout(bids_size: u64, asks_size: u64, num_seats: u64) -> (r: bool)
    ensures
        r == known_layout(bids_size, asks_size, num_seats),
{
    bids_size == asks_size && (
    (bids_size == 512 && (num_seats == 128 || num_seats == 1025 || num_seats == 1153))
        || (bids_size == 1024 && (num_seats == 128 || num_seats == 2049 || num_seats == 2177))
        || (bids_size == 2048 && (num_seats == 128 || num_seats == 4097 || num_seats == 4225))
        || (bids_size == 4096 && (num_seats == 128 || num_seats == 8193 || num_seats == 8321)))
}

/// The 32 bytes of a market account that hold the mint of its quote token.
pub open spec fn quote_mint_bytes(data: Seq<u8>) -> Seq<u8> {
    data.subrange(QUOTE_MINT_AT as int, QUOTE_MINT_AT + 32)
}

/// Whether `len` bytes are enough for a market of some known layout.
pub open spec fn holds_known_market(len: nat) -> bool {
    exists|bids_size: u64, asks_size: u64, num_seats: u64|
        known_layout(bids_size, asks_size, num_seats) && ((#[trigger] fifo_market_len(
            bids_size,
            asks_size,
            num_seats,
        )) matches Some(n) && n <= len)
}

/// Reinterprets the bytes as a `phoenix::program::MarketHeader` with
/// `bytemuck::try_from_bytes` and copies out five of its fields. Whether
/// that succeeds depends on the length and on where the bytes lie in
/// memory, so no success is claimed. Claimed is what every success
/// brings: the bytes had the header's length, which `try_from_bytes` asks
/// for, and the mint of the quote token is the bytes that hold it, as
/// they stand; the header is laid out field by field without padding. The
/// numbers are read in the machine's byte order, so nothing is claimed of
/// them.
#[verifier::external_body]
fn read_header(header_bytes: &[u8]) -> (r: Option<HeaderFields>)
    ensures
        r matches Some(header) ==> header_bytes@.len() == MARKET_HEADER_LEN && header.quote_mint@
            == quote_mint_bytes(header_bytes@),
{
    let header: &MarketHeader = bytemuck::try_from_bytes(header_bytes).ok()?;
    Some(
        HeaderFields {
            bids_size: header.market_size_params.bids_size,
            asks_size: header.market_size_params.asks_size,
            num_seats: header.market_size_params.num_seats,
            quote_mint: header.quote_params.mint_key.to_bytes(),
            quote_decimals: header.quote_params.decimals,
        },
    )
}

/// Asks `phoenix::program::get_market_size` for the length of a market
/// with these size parameters. The contract claims that the answer
/// depends on the three numbers alone, and that there is one for exactly
/// the twelve layouts that the function lists. For other parameters the
/// function also writes a line to standard output; the library asks it
/// for known layouts only.
#[verifier::external_body]
fn market_len(bids_size: u64, asks_size: u64, num_seats: u64) -> (r: Option<usize>)
    ensures
        r == fifo_market_len(bids_size, asks_size, num_seats),
        r is Some <==> known_layout(bids_size, asks_size, num_seats),
{
    get_market_size(&MarketSizeParams { bids_size, asks_size, num_seats }).ok()
}

/// Loads the market with `phoenix::program::load_with_dispatch` and asks it
/// for its uncollected fees, which it holds in quote lots. The load slices
/// the bytes to the market's length, so the bytes must be at least that
/// long; whether it succeeds depends also on where the bytes lie in
/// memory, so nothing is claimed of the result. For size parameters of no
/// known layout the function also writes a line to standard output; the
/// library calls it for known layouts only.
#[verifier::external_body]
fn read_uncollected_fee(bids_size: u64, asks_size: u64, num_seats: u64, market_bytes: &[u8]) -> (r:
    Option<u64>)
    requires
        fifo_market_len(bids_size, asks_size, num_seats) matches Some(n) ==> market_bytes@.len()
            >= n,
{
    let params = MarketSizeParams { bids_size, asks_size, num_seats };
    let market = load_with_dispatch(&params, market_bytes).ok()?;
    Some(market.inner.get_uncollected_fee_amount().as_u64())
}

/// Whether `available` bytes are enough for the market that `header`
/// announces: its size parameters are those of a known layout, and the
/// market of that layout is no longer than `available`.
pub fn market_bytes_suffice(header: &HeaderFields, available: usize) -> (r: bool)
    ensures
        r == (known_layout(header.bids_size, header.asks_size, header.num_seats) && (
        fifo_market_len(header.bids_size, header.asks_size, header.num_seats) matches Some(n) && n
            <= available)),
        !known_layout(header.bids_size, header.asks_size, header.num_seats) ==> !r,
{
    if !is_known_layout(header.bids_size, header.asks_size, header.num_seats) {
        return false;
    }
    match market_len(header.bids_size, header.asks_size, header.num_seats) {
        Some(n) => n <= available,
        None => false,
    }
}

/// What the aggregation reads of a market whose header gave `header` and
/// whose market gave `uncollected_fee`.
pub fn market_account_of(header: &HeaderFields, uncollected_fee: u64) -> (r: MarketAccount)
    ensures
        r.quote_mint == header.quote_mint,
        r.quote_decimals == header.quote_decimals,
        r.uncollected_fee == uncollected_fee,
{
    MarketAccount {
        quote_mint: header.quote_mint,
        quote_decimals: header.quote_decimals,
        uncollected_fee,
    }
}

/// Decodes a market account: the header in its first
/// [`MARKET_HEADER_LEN`] bytes, the market in the rest. `None` where the
/// account is shorter than a header, where the header cannot be read, where
/// it announces no known market layout or a longer market than the bytes
/// hold, or where the market cannot be loaded. Whether a header or a market
/// can be read is for the crates that define them to say, so no success is
/// promised; an account that is decoded holds a header and, behind it, a
/// whole market of a known layout, and its quote mint is the one that the
/// header's bytes hold.
pub fn decode_market_account(data: &[u8]) -> (r: Option<MarketAccount>)
    ensures
        data@.len() < MARKET_HEADER_LEN ==> r is None,
        r matches Some(account) ==> account.quote_mint@ == quote_mint_bytes(data@),
        r is Some ==> holds_known_market((data@.len() - MARKET_HEADER_LEN) as nat),
{
    if data.len() < MARKET_HEADER_LEN {
        return None;
    }
    let header_bytes = slice_subrange(data, 0, MARKET_HEADER_LEN);
    let market_bytes = slice_subrange(data, MARKET_HEADER_LEN, data.len());
    let header = match read_header(header_bytes) {
        Some(header) => header,
        None => { return None; },
    };
    if !market_bytes_suffice(&header, market_bytes.len()) {
        return None;
    }
    proof {
        assert(quote_mint_bytes(header_bytes@) =~= quote_mint_bytes(data@));
        assert(fifo_market_len(header.bids_size, header.asks_size, header.num_seats) is Some);
    }
    match read_uncollected_fee(header.bids_size, header.asks_size, header.num_seats, market_bytes) {
        Some(uncollected_fee) => Some(market_account_of(&header, uncollected_fee)),
        None => None,
    }
}

/// The count of decimal places as the aggregation takes it: a count over
/// 255 becomes 255, which is refused like every count over the limit.
pub open spec fn capped_decimals(decimals: u32) -> u8 {
    if decimals > 255 {
        255u8
    } else {
        decimals as u8
    }
}

/// What the aggregation reads of a decoded market, once the caller has
/// resolved the symbol of its quote token.
pub fn fee_reading(account: &MarketAccount, quote_symbol: String) -> (r: FeeReading)
    ensures
        r.quote_symbol == quote_symbol,
        r.quote_decimals == capped_decimals(account.quote_decimals),
        r.uncollected_fee == account.uncollected_fee,
{
    let quote_decimals: u8 = if account.quote_decimals > 255 {
        255
    } else {
        account.quote_decimals as u8
    };
    FeeReading { quote_symbol, quote_decimals, uncollected_fee: account.uncollected_fee }
}

/// The number that eight bytes hold, lowest byte first.
pub open spec fn le_u64(bytes: Seq<u8>) -> nat
    recommends
        bytes.len() == 8,
{
    (bytes[0] as nat) + (bytes[1] as nat) * 0x100 + (bytes[2] as nat) * 0x1_0000 + (bytes[3] as nat)
        * 0x100_0000 + (bytes[4] as nat) * 0x1_0000_0000 + (bytes[5] as nat) * 0x100_0000_0000 + (
    bytes[6] as nat) * 0x1_0000_0000_0000 + (bytes[7] as nat) * 0x100_0000_0000_0000
}

/// Whether the four bytes at `at` are the tag of an optional field: 0 or 1,
/// lowest byte first.
pub open spec fn option_tag(data: Seq<u8>, at: int) -> bool {
    (data[at] == 0 || data[at] == 1) && data[at + 1] == 0 && data[at + 2] == 0 && data[at + 3]
        == 0
}

/// The balance of a token account: `Some` for an account of
/// [`TOKEN_ACCOUNT_LEN`] bytes whose state byte says initialized or frozen
/// and whose three optional fields carry a valid tag; the balance is in the
/// eight bytes from 64 on.
pub open spec fn token_account_amount(data: Seq<u8>) -> Option<u64> {
    if data.len() == TOKEN_ACCOUNT_LEN && option_tag(data, 72) && (data[108] == 1 || data[108]
        == 2) && option_tag(data, 109) && option_tag(data, 129) {
        Some(le_u64(data.subrange(64, 72)) as u64)
    } else {
        None
    }
}

/// Unpacks the bytes with `spl_token::state::Account::unpack` and takes the
/// field `amount`. The contract states the layout that the unpacking
/// checks: the length, the state byte, the tags of the optional fields.
#[verifier::external_body]
pub(crate) fn read_token_amount(data: &[u8]) -> (r: Option<u64>)
    ensures
        r == token_account_amount(data@),
{
    spl_token::state::Account::unpack(data).ok().map(|account| account.amount)
}

/// The side that an order with this sequence number rests on: bids carry
/// the highest bit.
pub open spec fn side_of_sequence_number(order_sequence_number: u64) -> Side {
    if order_sequence_number >= 0x8000_0000_0000_0000 {
        Side::Bid
    } else {
        Side::Ask
    }
}

/// Asks `phoenix::state::Side::from_order_sequence_number`, which looks at
/// the leading zeros of the number: none means a bid.
#[verifier::external_body]
pub(crate) fn read_side(order_sequence_number: u64) -> (r: Side)
    ensures
        r == side_of_sequence_number(order_sequence_number),
{
    match phoenix::state::Side::from_order_sequence_number(order_sequence_number) {
        phoenix::state::Side::Bid => Side::Bid,
        phoenix::state::Side::Ask => Side::Ask,
    }
}

impl Side {
    /// The side's name as the event log writes it.
    pub open spec fn name_text(self) -> Seq<char> {
        match self {
            Side::Bid => "Bid"@,
            Side::Ask => "Ask"@,
        }
    }

    /// The side's name as the event log writes it.
    pub fn name(&self) -> (r: &'static str)
        ensures
            r@ == self.name_text(),
    {
        match self {
            Side::Bid => "Bid",
            Side::Ask => "Ask",
        }
    }
}

} // verus!
