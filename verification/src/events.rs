//! The event log of one market: one line of labelled fields for each fill,
//! placement and reduction.

use vstd::prelude::*;
use vstd::string::StringExecFns;
use crate::decimal::ConversionError;
use crate::ledger::{read_side, side_of_sequence_number, Side};
use crate::market::MarketMetadata;
use crate::text::{digits_of, join, joined, labelled, labelled_text, number_text, prefixed,
    push_line, same_text, signed_digits, signed_text, texts};
use crate::parse::parse_decimal_text;
use crate::units::{lemma_decimal_string_round_trip, lemma_written_price_monotone, lots_string,
    lots_text, price_string, price_text, short_atoms_text, to_short_decimal_string};

verus! {

/// What happened in a market event, as far as the log tells it.
#[derive(Clone, Debug, PartialEq, Eq)]
pub enum EventDetails {
    Fill { maker: String, taker: String, price_in_ticks: u64, base_lots_filled: u64, side_filled: Side },
    Place { order_sequence_number: u64, maker: String, price_in_ticks: u64, base_lots_placed: u64 },
    Reduce { order_sequence_number: u64, maker: String, price_in_ticks: u64, base_lots_removed: u64 },
    FillSummary { total_quote_fees: u64 },
    /// An event of a kind that the log passes over.
    Other,
}

/// One event of a market, with where and when it happened.
#[derive(Clone, Debug, PartialEq, Eq)]
pub struct MarketEvent {
    pub market: String,
    pub sequence_number: u64,
    pub slot: u64,
    pub timestamp: i64,
    pub signature: String,
    pub event_index: u64,
    pub details: EventDetails,
}

/// The seven fields that every logged event starts with.
pub open spec fn base_fields(event: MarketEvent, event_type: Seq<char>) -> Seq<Seq<char>> {
    seq![
        labelled_text("market"@, event.market@),
        labelled_text("event_type"@, event_type),
        labelled_text("timestamp"@, signed_digits(event.timestamp as int)),
        labelled_text("signature"@, event.signature@),
        labelled_text("slot"@, digits_of(event.slot as nat)),
        labelled_text("sequence_number"@, digits_of(event.sequence_number as nat)),
        labelled_text("event_index"@, digits_of(event.event_index as nat)),
    ]
}

/// The keys of the five fields of a trade, in the order of the log.
pub open spec fn trade_key(i: int) -> Seq<char> {
    if i == 0 {
        "maker"@
    } else if i == 1 {
        "taker"@
    } else if i == 2 {
        "price"@
    } else if i == 3 {
        "side"@
    } else {
        "quantity"@
    }
}

/// The values of `data` under the keys of a trade; values beyond the fifth
/// are passed over, and so are keys that have no value.
pub open spec fn trade_fields(data: Seq<Seq<char>>) -> Seq<Seq<char>> {
    Seq::new(
        if data.len() < 5 {
            data.len()
        } else {
            5
        },
        |i: int| labelled_text(trade_key(i), data[i]),
    )
}

/// A line of the log: the fields of `log`, then `data` under the keys of a
/// trade, with a comma and a blank between each two.
pub open spec fn log_line(log: Seq<Seq<char>>, data: Seq<Seq<char>>) -> Seq<char> {
    joined(log + trade_fields(data), ", "@)
}

fn trade_key_name(i: usize) -> (r: &'static str)
    requires
        i < 5,
    ensures
        r@ == trade_key(i as int),
{
    if i == 0 {
        "maker"
    } else if i == 1 {
        "taker"
    } else if i == 2 {
        "price"
    } else if i == 3 {
        "side"
    } else {
        "quantity"
    }
}

/// The seven labelled fields that the log line of `event` starts with.
pub fn initialize_log(event: &MarketEvent, event_type: String) -> (r: Vec<String>)
    ensures
        texts(r@) == base_fields(*event, event_type@),
{
    let mut log: Vec<String> = Vec::new();
    proof {
        assert(texts(log@) =~= Seq::<Seq<char>>::empty());
    }
    push_line(&mut log, labelled("market", event.market.as_str()));
    push_line(&mut log, labelled("event_type", event_type.as_str()));
    push_line(&mut log, labelled("timestamp", signed_text(event.timestamp).as_str()));
    push_line(&mut log, labelled("signature", event.signature.as_str()));
    push_line(&mut log, labelled("slot", number_text(event.slot).as_str()));
    push_line(&mut log, labelled("sequence_number", number_text(event.sequence_number).as_str()));
    push_line(&mut log, labelled("event_index", number_text(event.event_index).as_str()));
    proof {
        assert(texts(log@) =~= base_fields(*event, event_type@));
    }
    log
}

/// The line of the log that `log` and the trade values `data` make.
pub fn finalize_log(log: Vec<String>, data: Vec<String>) -> (r: String)
    ensures
        r@ == log_line(texts(log@), texts(data@)),
{
    let mut fields = log;
    let ghost start = texts(log@);
    let ghost added = trade_fields(texts(data@));
    let mut i: usize = 0;
    proof {
        assert(start + added.take(0) =~= start);
    }
    while i < 5 && i < data.len()
        invariant
            i <= 5,
            i <= data.len(),
            start == texts(log@),
            added == trade_fields(texts(data@)),
            texts(fields@) == start + added.take(i as int),
        decreases 5 - i,
    {
        proof {
            assert(added.take(i + 1) == added.take(i as int).push(added[i as int]));
            assert(start + added.take(i + 1) =~= (start + added.take(i as int)).push(
                added[i as int],
            ));
        }
        push_line(&mut fields, labelled(trade_key_name(i), data[i].as_str()));
        i = i + 1;
    }
    proof {
        assert(added.take(i as int) == added);
    }
    join(&fields, ", ")
}


/// The log line of a trade: the base fields of the event, then maker,
/// taker, price, side and quantity. The price stands in its shortest
/// notation, the quantity with every decimal place of the base token. The
/// price is converted first, the quantity second; the first conversion
/// that fails decides the failure.
pub open spec fn trade_line(
    metadata: MarketMetadata,
    event: MarketEvent,
    event_type: Seq<char>,
    maker: Seq<char>,
    taker: Seq<char>,
    price_in_ticks: u64,
    side: Side,
    base_lots: u64,
) -> Result<Seq<char>, ConversionError> {
    match price_text(
        price_in_ticks,
        metadata.tick_size_in_quote_atoms_per_base_unit,
        metadata.quote_decimals,
    ) {
        Err(e) => Err(e),
        Ok(price) => match lots_text(base_lots, metadata.base_lot_size, metadata.base_decimals) {
            Err(e) => Err(e),
            Ok(quantity) => Ok(
                log_line(
                    base_fields(event, event_type),
                    seq![maker, taker, price, side.name_text(), quantity],
                ),
            ),
        },
    }
}

/// What the log writes of a trade, whichever kind of event it came in.
pub struct Trade {
    pub event_type: Seq<char>,
    pub maker: Seq<char>,
    pub taker: Seq<char>,
    pub price_in_ticks: u64,
    pub side: Side,
    pub base_lots: u64,
}

/// The trade of an event that is a fill, a placement or a reduction. A
/// placement and a reduction have no taker, and their side goes by the
/// order's sequence number.
pub open spec fn trade_of(details: EventDetails) -> Option<Trade> {
    match details {
        EventDetails::Fill {
            maker,
            taker,
            price_in_ticks,
            base_lots_filled,
            side_filled,
        } => Some(
            Trade {
                event_type: "Fill"@,
                maker: maker@,
                taker: taker@,
                price_in_ticks,
                side: side_filled,
                base_lots: base_lots_filled,
            },
        ),
        EventDetails::Place {
            order_sequence_number,
            maker,
            price_in_ticks,
            base_lots_placed,
        } => Some(
            Trade {
                event_type: "Place"@,
                maker: maker@,
                taker: ""@,
                price_in_ticks,
                side: side_of_sequence_number(order_sequence_number),
                base_lots: base_lots_placed,
            },
        ),
        EventDetails::Reduce {
            order_sequence_number,
            maker,
            price_in_ticks,
            base_lots_removed,
        } => Some(
            Trade {
                event_type: "Reduce"@,
                maker: maker@,
                taker: ""@,
                price_in_ticks,
                side: side_of_sequence_number(order_sequence_number),
                base_lots: base_lots_removed,
            },
        ),
        _ => None,
    }
}

/// The line that the log writes for `event`, if it writes one: a trade
/// line for a fill, a placement or a reduction in the active market, the
/// fees of a fill summary, in their shortest notation, in whatever market,
/// nothing for the rest.
pub open spec fn event_line(
    metadata: MarketMetadata,
    active_market: Seq<char>,
    event: MarketEvent,
) -> Result<Option<Seq<char>>, ConversionError> {
    match trade_of(event.details) {
        Some(trade) => {
            if event.market@ != active_market {
                Ok(None)
            } else {
                match trade_line(
                    metadata,
                    event,
                    trade.event_type,
                    trade.maker,
                    trade.taker,
                    trade.price_in_ticks,
                    trade.side,
                    trade.base_lots,
                ) {
                    Ok(line) => Ok(Some(line)),
                    Err(e) => Err(e),
                }
            }
        },
        None => match event.details {
            EventDetails::FillSummary { total_quote_fees } => {
                match short_atoms_text(total_quote_fees, metadata.quote_decimals) {
                    Ok(fees) => Ok(Some("Total quote token fees paid: "@ + fees)),
                    Err(e) => Err(e),
                }
            },
            _ => Ok(None),
        },
    }
}

/// The lines that the log writes for `events`, in their order; the first
/// event whose conversion fails decides the failure.
pub open spec fn event_lines(
    metadata: MarketMetadata,
    active_market: Seq<char>,
    events: Seq<MarketEvent>,
) -> Result<Seq<Seq<char>>, ConversionError>
    decreases events.len(),
{
    if events.len() == 0 {
        Ok(Seq::empty())
    } else {
        match event_lines(metadata, active_market, events.drop_last()) {
            Err(e) => Err(e),
            Ok(lines) => match event_line(metadata, active_market, events.last()) {
                Err(e) => Err(e),
                Ok(None) => Ok(lines),
                Ok(Some(line)) => Ok(lines.push(line)),
            },
        }
    }
}

/// Once the first `n` events have failed, the whole log fails with that
/// failure.
pub proof fn lemma_event_failure_stays(
    metadata: MarketMetadata,
    active_market: Seq<char>,
    events: Seq<MarketEvent>,
    n: int,
)
    requires
        0 <= n <= events.len(),
    ensures
        event_lines(metadata, active_market, events.take(n)) matches Err(e) ==> event_lines(
            metadata,
            active_market,
            events,
        ) == Err::<Seq<Seq<char>>, ConversionError>(e),
    decreases events.len() - n,
{
    if n < events.len() {
        assert(events.take(n + 1).drop_last() == events.take(n));
        lemma_event_failure_stays(metadata, active_market, events, n + 1);
    } else {
        assert(events.take(n) == events);
    }
}

/// A log that was written has the line of each of its events: no event
/// failed, and the line of an event that has one is among the lines.
pub proof fn lemma_each_line_is_logged(
    metadata: MarketMetadata,
    active_market: Seq<char>,
    events: Seq<MarketEvent>,
    i: int,
)
    requires
        0 <= i < events.len(),
        event_lines(metadata, active_market, events) is Ok,
    ensures
        event_line(metadata, active_market, events[i]) is Ok,
        event_line(metadata, active_market, events[i]) matches Ok(Some(line)) ==> event_lines(
            metadata,
            active_market,
            events,
        )->Ok_0.contains(line),
    decreases events.len(),
{
    let before = events.drop_last();
    let lines = event_lines(metadata, active_market, before)->Ok_0;
    let own = event_line(metadata, active_market, events[i]);
    if i < events.len() - 1 {
        assert(before[i] == events[i]);
        lemma_each_line_is_logged(metadata, active_market, before, i);
        if own is Ok && own->Ok_0 is Some {
            let written = own->Ok_0->0;
            let at = choose|k: int| 0 <= k < lines.len() && lines[k] == written;
            let all = event_lines(metadata, active_market, events)->Ok_0;
            assert(all[at] == written);
        }
    } else {
        if own is Ok && own->Ok_0 is Some {
            let written = own->Ok_0->0;
            assert(lines.push(written)[lines.len() as int] == written);
        }
    }
}

/// A trade of the active market in a log that was written: its line is
/// among the lines, it is made of the event's base fields and of maker,
/// taker, price, side and quantity, and its quantity reads back as
/// exactly the lots times the lot size, in atoms of the base token. No
/// digit is dropped, whatever else the log holds.
pub proof fn lemma_logged_quantity_round_trip(
    metadata: MarketMetadata,
    active_market: Seq<char>,
    events: Seq<MarketEvent>,
    i: int,
)
    requires
        0 <= i < events.len(),
        event_lines(metadata, active_market, events) is Ok,
        events[i].market@ == active_market,
        trade_of(events[i].details) is Some,
    ensures
        ({
            let trade = trade_of(events[i].details)->0;
            let lines = event_lines(metadata, active_market, events)->Ok_0;
            &&& price_text(
                trade.price_in_ticks,
                metadata.tick_size_in_quote_atoms_per_base_unit,
                metadata.quote_decimals,
            ) matches Ok(price)
            &&& lots_text(trade.base_lots, metadata.base_lot_size, metadata.base_decimals) matches Ok(
                quantity,
            )
            &&& lines.contains(
                log_line(
                    base_fields(events[i], trade.event_type),
                    seq![trade.maker, trade.taker, price, trade.side.name_text(), quantity],
                ),
            )
            &&& parse_decimal_text(quantity) matches Some(value)
            &&& value.atoms(metadata.base_decimals as nat) == Some(
                (trade.base_lots * metadata.base_lot_size) as nat,
            )
        }),
{
    lemma_each_line_is_logged(metadata, active_market, events, i);
    let trade = trade_of(events[i].details)->0;
    lemma_decimal_string_round_trip(
        (trade.base_lots * metadata.base_lot_size) as u64,
        metadata.base_decimals,
    );
}

/// Two trades of the active market in a log that was written: where the
/// one has at most the ticks of the other, its written price reads back
/// as at most the other's, and equal ticks are written alike.
pub proof fn lemma_logged_prices_keep_order(
    metadata: MarketMetadata,
    active_market: Seq<char>,
    events: Seq<MarketEvent>,
    i: int,
    j: int,
)
    requires
        0 <= i < events.len(),
        0 <= j < events.len(),
        event_lines(metadata, active_market, events) is Ok,
        events[i].market@ == active_market,
        events[j].market@ == active_market,
        trade_of(events[i].details) matches Some(low) && trade_of(events[j].details) matches Some(
            high,
        ) && low.price_in_ticks <= high.price_in_ticks,
    ensures
        ({
            let low = trade_of(events[i].details)->0;
            let high = trade_of(events[j].details)->0;
            let tick_size = metadata.tick_size_in_quote_atoms_per_base_unit;
            &&& price_text(low.price_in_ticks, tick_size, metadata.quote_decimals) matches Ok(
                low_price,
            )
            &&& price_text(high.price_in_ticks, tick_size, metadata.quote_decimals) matches Ok(
                high_price,
            )
            &&& parse_decimal_text(low_price) matches Some(low_value)
            &&& parse_decimal_text(high_price) matches Some(high_value)
            &&& low_value.at_most(high_value)
            &&& low.price_in_ticks == high.price_in_ticks ==> low_price == high_price
        }),
{
    lemma_each_line_is_logged(metadata, active_market, events, i);
    lemma_each_line_is_logged(metadata, active_market, events, j);
    let low = trade_of(events[i].details)->0;
    let high = trade_of(events[j].details)->0;
    lemma_written_price_monotone(
        low.price_in_ticks,
        high.price_in_ticks,
        metadata.tick_size_in_quote_atoms_per_base_unit,
        metadata.quote_decimals,
    );
}

/// The log line of one trade of `event`.
fn write_trade(
    metadata: &MarketMetadata,
    event: &MarketEvent,
    event_type: &str,
    maker: &str,
    taker: &str,
    price_in_ticks: u64,
    side: Side,
    base_lots: u64,
) -> (r: Result<String, ConversionError>)
    ensures
        match trade_line(
            *metadata,
            *event,
            event_type@,
            maker@,
            taker@,
            price_in_ticks,
            side,
            base_lots,
        ) {
            Ok(line) => r matches Ok(s) && s@ == line,
            Err(e) => r == Err::<String, ConversionError>(e),
        },
{
    let price = match price_string(
        price_in_ticks,
        metadata.tick_size_in_quote_atoms_per_base_unit,
        metadata.quote_decimals,
    ) {
        Ok(price) => price,
        Err(e) => { return Err(e); },
    };
    let quantity = match lots_string(base_lots, metadata.base_lot_size, metadata.base_decimals) {
        Ok(quantity) => quantity,
        Err(e) => { return Err(e); },
    };
    let log = initialize_log(event, String::from_str(event_type));
    let mut data: Vec<String> = Vec::new();
    proof {
        assert(texts(data@) =~= Seq::<Seq<char>>::empty());
    }
    push_line(&mut data, String::from_str(maker));
    push_line(&mut data, String::from_str(taker));
    push_line(&mut data, price);
    push_line(&mut data, String::from_str(side.name()));
    push_line(&mut data, quantity);
    proof {
        assert(texts(data@) =~= seq![maker@, taker@, price@, side.name_text(), quantity@]);
    }
    Ok(finalize_log(log, data))
}

/// The line that the log writes for `event`, if it writes one.
pub fn log_market_event(metadata: &MarketMetadata, active_market: &str, event: &MarketEvent) -> (r:
    Result<Option<String>, ConversionError>)
    ensures
        match event_line(*metadata, active_market@, *event) {
            Ok(Some(line)) => r matches Ok(Some(s)) && s@ == line,
            Ok(None) => r matches Ok(None),
            Err(e) => r matches Err(x) && x == e,
        },
{
    let in_active_market = same_text(event.market.as_str(), active_market);
    match &event.details {
        EventDetails::Fill { maker, taker, price_in_ticks, base_lots_filled, side_filled } => {
            if !in_active_market {
                return Ok(None);
            }
            match write_trade(
                metadata,
                event,
                "Fill",
                maker.as_str(),
                taker.as_str(),
                *price_in_ticks,
                *side_filled,
                *base_lots_filled,
            ) {
                Ok(line) => Ok(Some(line)),
                Err(e) => Err(e),
            }
        },
        EventDetails::Place { order_sequence_number, maker, price_in_ticks, base_lots_placed } => {
            if !in_active_market {
                return Ok(None);
            }
            let side = read_side(*order_sequence_number);
            match write_trade(
                metadata,
                event,
                "Place",
                maker.as_str(),
                "",
                *price_in_ticks,
                side,
                *base_lots_placed,
            ) {
                Ok(line) => Ok(Some(line)),
                Err(e) => Err(e),
            }
        },
        EventDetails::Reduce {
            order_sequence_number,
            maker,
            price_in_ticks,
            base_lots_removed,
        } => {
            if !in_active_market {
                return Ok(None);
            }
            let side = read_side(*order_sequence_number);
            match write_trade(
                metadata,
                event,
                "Reduce",
                maker.as_str(),
                "",
                *price_in_ticks,
                side,
                *base_lots_removed,
            ) {
                Ok(line) => Ok(Some(line)),
                Err(e) => Err(e),
            }
        },
        EventDetails::FillSummary { total_quote_fees } => {
            match to_short_decimal_string(*total_quote_fees, metadata.quote_decimals) {
                Ok(fees) => Ok(Some(prefixed("Total quote token fees paid: ", fees.as_str()))),
                Err(e) => Err(e),
            }
        },
        EventDetails::Other => Ok(None),
    }
}

/// The lines of the event log for `events`, in their order: trades of the
/// active market and the fees of fill summaries. Fails with the conversion
/// failure of the first event that has one.
pub fn log_market_events(
    metadata: &MarketMetadata,
    active_market: &str,
    events: &Vec<MarketEvent>,
) -> (r: Result<Vec<String>, ConversionError>)
    ensures
        match event_lines(*metadata, active_market@, events@) {
            Ok(lines) => r matches Ok(v) && texts(v@) == lines,
            Err(e) => r matches Err(x) && x == e,
        },
{
    let mut lines: Vec<String> = Vec::new();
    let mut i: usize = 0;
    proof {
        assert(events@.take(0).len() == 0);
        assert(texts(lines@) =~= Seq::<Seq<char>>::empty());
    }
    while i < events.len()
        invariant
            i <= events.len(),
            event_lines(*metadata, active_market@, events@.take(i as int)) == Ok::<
                Seq<Seq<char>>,
                ConversionError,
            >(texts(lines@)),
        decreases events.len() - i,
    {
        proof {
            assert(events@.take(i + 1).drop_last() == events@.take(i as int));
            lemma_event_failure_stays(*metadata, active_market@, events@, i + 1);
        }
        match log_market_event(metadata, active_market, &events[i]) {
            Ok(Some(line)) => { push_line(&mut lines, line); },
            Ok(None) => {},
            Err(e) => { return Err(e); },
        }
        i = i + 1;
    }
    proof {
        assert(events@.take(i as int) == events@);
    }
    Ok(lines)
}

} // verus!
