use vstd::prelude::*;
use vstd::string::*;
use crate::calendar::{all_digits, digits_value, lemma_digits_value_bound, pow10, iso_date_of, parse_iso_date, read_digits, CalendarDate};

verus! {

/// A company profile as the remote service describes it.
pub struct CompanyResponse {
    pub symbol: String,
    pub company_name: String,
    pub exchange: String,
    pub industry: String,
    pub website: String,
    pub description: String,
    pub ceo: String,
    pub security_name: String,
    pub issue_type: String,
    pub sector: String,
    pub primary_sic_code: Option<usize>,
    pub employees: Option<usize>,
    pub tags: Vec<String>,
    pub address: Option<String>,
    pub address2: Option<String>,
    pub state: Option<String>,
    pub city: Option<String>,
    pub zip: Option<String>,
    pub country: Option<String>,
    pub phone: Option<String>,
}

/// One minute of trading of one symbol. The price fields hold the IEEE-754
/// bit patterns of the single-precision values that the service sends; the
/// library carries them through unchanged.
pub struct IntradayPrice {
    pub date: String,
    pub minute: String,
    pub label: String,
    pub high: Option<u32>,
    pub low: Option<u32>,
    pub open: Option<u32>,
    pub close: Option<u32>,
    pub average: Option<u32>,
    pub volume: Option<usize>,
    pub notional: Option<u32>,
    pub number_of_trades: usize,
    pub change_over_time: Option<u32>,
}

/// A point in time to the minute.
#[derive(Clone, Copy, Debug, PartialEq, Eq, Structural)]
pub struct Timestamp {
    pub date: CalendarDate,
    pub hour: u32,
    pub minute: u32,
}

/// Text in the shape `HH:MM`, digits where digits stand.
pub open spec fn has_minute_shape(s: Seq<char>) -> bool {
    s.len() == 5 && all_digits(s, 0, 2) && s[2] == ':' && all_digits(s, 3, 5)
}

/// The timestamp that a `YYYY-MM-DD` date and an `HH:MM` minute name together,
/// if both are well formed and name an existing day and time of day.
pub open spec fn timestamp_of(date: Seq<char>, minute: Seq<char>) -> Option<Timestamp> {
    let h = digits_value(minute, 0, 2);
    let m = digits_value(minute, 3, 5);
    if iso_date_of(date).is_some() && has_minute_shape(minute) && h < 24 && m < 60 {
        Some(Timestamp { date: iso_date_of(date).unwrap(), hour: h as u32, minute: m as u32 })
    } else {
        None
    }
}

/// Relies on chrono's `NaiveTime::from_hms_opt`: `Some` exactly when the hour
/// is below 24 and the minute and second below 60.
#[verifier::external_body]
fn time_of_day_exists(hour: u32, minute: u32) -> (r: bool)
    ensures
        r == (hour < 24 && minute < 60),
{
    chrono::NaiveTime::from_hms_opt(hour, minute, 0).is_some()
}

/// Combines an observation's date (`YYYY-MM-DD`) and minute (`HH:MM`) into
/// one timestamp; `None` where either does not match its format.
pub fn normalize_timestamp(date: &str, minute: &str) -> (r: Option<Timestamp>)
    ensures
        r == timestamp_of(date@, minute@),
{
    let day = match parse_iso_date(date) {
        Some(d) => d,
        None => return None,
    };
    if minute.unicode_len() != 5 {
        return None;
    }
    if minute.get_char(2) != ':' {
        return None;
    }
    let h = read_digits(minute, 0, 2);
    let m = read_digits(minute, 3, 5);
    match (h, m) {
        (Some(h), Some(m)) => {
            proof {
                lemma_digits_value_bound(minute@, 0, 2);
                lemma_digits_value_bound(minute@, 3, 5);
                reveal_with_fuel(pow10, 3);
            }
            if time_of_day_exists(h, m) {
                Some(Timestamp { date: day, hour: h, minute: m })
            } else {
                None
            }
        },
        _ => None,
    }
}

/// A row of the price history table, keyed by (time, ticker).
pub struct PriceRow {
    pub time: Timestamp,
    pub ticker: String,
    pub high: Option<u32>,
    pub low: Option<u32>,
    pub open: Option<u32>,
    pub close: Option<u32>,
    pub average: Option<u32>,
    pub volume: Option<usize>,
    pub notional: Option<u32>,
    pub number_of_trades: i32,
    pub change_over_time: Option<u32>,
}

/// A count narrowed to the table's signed column, saturating at its maximum.
pub open spec fn stored_count(n: usize) -> i32 {
    if n > i32::MAX { i32::MAX } else { n as i32 }
}

/// Narrows a trade count to the table's signed column, saturating.
pub fn saturating_count(n: usize) -> (r: i32)
    ensures
        r == stored_count(n),
{
    if n > 2147483647 {
        i32::MAX
    } else {
        n as i32
    }
}

impl PriceRow {
    /// The row stores `item` under `ticker` at time `time`.
    pub open spec fn stores(self, ticker: Seq<char>, time: Timestamp, item: IntradayPrice) -> bool {
        &&& self.time == time
        &&& self.ticker@ == ticker
        &&& self.high == item.high
        &&& self.low == item.low
        &&& self.open == item.open
        &&& self.close == item.close
        &&& self.average == item.average
        &&& self.volume == item.volume
        &&& self.notional == item.notional
        &&& self.number_of_trades == stored_count(item.number_of_trades)
        &&& self.change_over_time == item.change_over_time
    }

    /// The row stores `item` under `ticker` at the item's own timestamp.
    pub open spec fn stores_item(self, ticker: Seq<char>, item: IntradayPrice) -> bool {
        &&& timestamp_of(item.date@, item.minute@).is_some()
        &&& self.stores(ticker, timestamp_of(item.date@, item.minute@).unwrap(), item)
    }
}

/// Every observation has a well-formed date and minute.
pub open spec fn all_normalizable(items: Seq<IntradayPrice>) -> bool {
    forall|i: int| 0 <= i < items.len() ==> (#[trigger] timestamp_of(items[i].date@, items[i].minute@)).is_some()
}

/// The rows that persist `items` for `symbol`, one per observation and in the
/// same order; `None` where an observation does not normalize.
pub fn price_rows(symbol: &String, items: &Vec<IntradayPrice>) -> (r: Option<Vec<PriceRow>>)
    ensures
        r.is_some() == all_normalizable(items@),
        r matches Some(rows) ==> rows@.len() == items@.len() && forall|i: int|
            0 <= i < rows@.len() ==> (#[trigger] rows@[i]).stores_item(symbol@, items@[i]),
{
    let mut rows: Vec<PriceRow> = Vec::new();
    let mut i: usize = 0;
    while i < items.len()
        invariant
            i <= items@.len(),
            rows@.len() == i,
            all_normalizable(items@.subrange(0, i as int)),
            forall|k: int| 0 <= k < i ==> (#[trigger] rows@[k]).stores_item(symbol@, items@[k]),
        decreases items@.len() - i,
    {
        let p = &items[i];
        let time = match normalize_timestamp(p.date.as_str(), p.minute.as_str()) {
            Some(t) => t,
            None => {
                assert(!all_normalizable(items@));
                return None;
            },
        };
        let row = PriceRow {
            time,
            ticker: symbol.clone(),
            high: p.high,
            low: p.low,
            open: p.open,
            close: p.close,
            average: p.average,
            volume: p.volume,
            notional: p.notional,
            number_of_trades: saturating_count(p.number_of_trades),
            change_over_time: p.change_over_time,
        };
        rows.push(row);
        i = i + 1;
        assert(all_normalizable(items@.subrange(0, i as int))) by {
            assert forall|k: int| 0 <= k < i implies (#[trigger] timestamp_of(
                items@.subrange(0, i as int)[k].date@,
                items@.subrange(0, i as int)[k].minute@,
            )).is_some() by {
                if k < i - 1 {
                    assert(items@.subrange(0, i as int)[k] == items@.subrange(0, i - 1)[k]);
                }
            }
        }
    }
    assert(items@.subrange(0, i as int) =~= items@);
    Some(rows)
}

} // verus!
