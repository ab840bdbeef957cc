use vstd::prelude::*;

verus! {

/// One record of the exchange's ticker stream. Numeric fields stay decimal strings.
pub struct Ticker {
    pub event_type: String,
    pub event_time: u64,
    pub symbol: String,
    /// Last traded price.
    pub last_price: String,
    /// Quantity traded at the last price.
    pub volume: String,
    /// Rolling 24-hour notional turnover.
    pub turnover: String,
}

/// One record of the exchange's mark-price stream.
pub struct MarkPrice {
    pub event_type: String,
    pub event_time: u64,
    pub symbol: String,
    pub funding_rate: String,
    pub next_funding_time: u64,
}

/// A decoded record, routed to the worker that owns its symbol.
pub enum Message {
    Ticker(Ticker),
    MarkPrice(MarkPrice),
}

impl Message {
    pub open spec fn symbol_view(&self) -> Seq<char> {
        match self {
            Message::Ticker(t) => t.symbol@,
            Message::MarkPrice(m) => m.symbol@,
        }
    }

    /// The symbol the record is about.
    pub fn symbol(&self) -> (r: &String)
        ensures
            r@ == self.symbol_view(),
    {
        match self {
            Message::Ticker(t) => &t.symbol,
            Message::MarkPrice(m) => &m.symbol,
        }
    }
}

/// The four kline intervals that every symbol is aggregated over.
#[derive(Clone, Copy, Debug, Hash, PartialEq, Eq, Structural)]
pub enum Interval {
    Min5,
    Min15,
    Hour1,
    Hour4,
}

pub open spec fn interval_seconds(i: Interval) -> u64 {
    match i {
        Interval::Min5 => 300,
        Interval::Min15 => 900,
        Interval::Hour1 => 3600,
        Interval::Hour4 => 14400,
    }
}

/// Width of a bucket of the interval, in milliseconds.
pub open spec fn interval_millis(i: Interval) -> u64 {
    (interval_seconds(i) * 1000) as u64
}

pub open spec fn interval_label(i: Interval) -> Seq<char> {
    match i {
        Interval::Min5 => seq!['5', 'm'],
        Interval::Min15 => seq!['1', '5', 'm'],
        Interval::Hour1 => seq!['1', 'h'],
        Interval::Hour4 => seq!['4', 'h'],
    }
}

/// The intervals in the order a ticker updates them.
pub open spec fn all_intervals() -> Seq<Interval> {
    seq![Interval::Min5, Interval::Min15, Interval::Hour1, Interval::Hour4]
}

impl Interval {
    pub fn seconds(&self) -> (r: u64)
        ensures
            r == interval_seconds(*self),
    {
        match self {
            Interval::Min5 => 300,
            Interval::Min15 => 900,
            Interval::Hour1 => 3600,
            Interval::Hour4 => 14400,
        }
    }

    pub fn to_string(&self) -> (r: String)
        ensures
            r@ == interval_label(*self),
    {
        let r = match self {
            Interval::Min5 => "5m".to_owned(),
            Interval::Min15 => "15m".to_owned(),
            Interval::Hour1 => "1h".to_owned(),
            Interval::Hour4 => "4h".to_owned(),
        };
        proof {
            reveal_strlit("5m");
            reveal_strlit("15m");
            reveal_strlit("1h");
            reveal_strlit("4h");
        }
        r
    }
}

/// An OHLCV bar. Prices and volume are in units of 10^-8; `start_ts` is the
/// millisecond timestamp at which the bar's bucket begins.
#[derive(Clone, Copy, Debug, PartialEq, Eq, Structural)]
pub struct Kline {
    pub open: u64,
    pub high: u64,
    pub low: u64,
    pub close: u64,
    pub volume: u64,
    pub start_ts: u64,
}

/// The bar opened by a first trade in a bucket.
pub open spec fn fresh_kline(ts: u64, price: u64, volume: u64) -> Kline {
    Kline { open: price, high: price, low: price, close: price, volume, start_ts: ts }
}

/// Volume accumulates, saturating at `u64::MAX`.
pub open spec fn add_volume(a: u64, b: u64) -> u64 {
    if a + b <= u64::MAX {
        (a + b) as u64
    } else {
        u64::MAX
    }
}

/// The bar after one more trade inside its bucket.
pub open spec fn updated_kline(k: Kline, price: u64, volume: u64) -> Kline {
    Kline {
        high: if price > k.high {
            price
        } else {
            k.high
        },
        low: if price < k.low {
            price
        } else {
            k.low
        },
        close: price,
        volume: add_volume(k.volume, volume),
        ..k
    }
}

/// Open and close lie within the bar's low and high.
pub open spec fn kline_bounded(k: Kline) -> bool {
    &&& k.low <= k.open <= k.high
    &&& k.low <= k.close <= k.high
}

impl Kline {
    pub fn new(ts: u64, price: u64, volume: u64) -> (r: Self)
        ensures
            r == fresh_kline(ts, price, volume),
    {
        Kline { open: price, high: price, low: price, close: price, volume, start_ts: ts }
    }

    pub fn update(&mut self, price: u64, volume: u64)
        ensures
            *final(self) == updated_kline(*old(self), price, volume),
    {
        if price > self.high {
            self.high = price;
        }
        if price < self.low {
            self.low = price;
        }
        self.close = price;
        self.volume = self.volume.saturating_add(volume);
    }
}

/// A per-symbol alert threshold on price change over an interval.
pub struct Strategy {
    pub symbol: String,
    pub interval: Interval,
    /// Percentage change, in units of 10^-8 of a percent, above which to alert.
    pub pct_change_gt: u64,
}

/// The kinds of market event the detectors publish.
#[derive(Clone, Copy, Debug, Hash, PartialEq, Eq, Structural)]
pub enum EventType {
    /// Several closed bars in a row moved the same way.
    ConsecutiveMove,
    /// The latest closed bar ranged far wider than the bars before it.
    VolatilitySpike,
    /// A symbol's funding rate is large and has moved.
    FundingRate,
}

/// Detector-specific payload of an event. Amplitudes, volumes and rates are in
/// units of 10^-8; `direction` is `1` for up and `-1` for down.
pub enum EventValue {
    VolatilitySpike {
        amplitude: u128,
        avg_amplitude: u128,
        volume: u64,
        turnover: String,
        direction: i8,
    },
    ConsecutiveMove { count: u64, turnover: String, direction: i8 },
    FundingRate { funding_rate: String, next_funding_time: u64 },
}

/// An event ready to be queued for downstream consumers.
pub struct Event {
    pub symbol: String,
    pub event_type: EventType,
    /// Interval label, empty for funding-rate events.
    pub period: String,
    pub value: EventValue,
    /// Milliseconds since the epoch.
    pub timestamp: u64,
}

} // verus!


