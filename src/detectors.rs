use crate::decimal::SCALE;
use crate::types::{interval_label, kline_bounded, Event, EventType, EventValue, Interval, Kline};
use vstd::prelude::*;

verus! {

/// Smallest amplitude, in units of 10^-8, that can count as a spike (0.0001).
pub const MIN_SPIKE_AMPLITUDE: u128 = 10_000;

/// Bars needed before a volatility spike can be judged: three of history and the current one.
pub const SPIKE_BARS: usize = 4;

/// Bars needed before a run of moves can be judged.
pub const MIN_MOVE_BARS: usize = 3;

/// Most bars a run of moves is looked for in.
pub const MAX_MOVE_BARS: usize = 10;

/// Shortest run of bars, counted with its first bar, that is reported.
pub const MIN_MOVE_COUNT: u64 = 3;

/// Range of a bar relative to its open, in units of 10^-8, rounded down.
pub open spec fn amplitude(k: Kline) -> int {
    ((k.high - k.low) * SCALE) / (k.open as int)
}

/// The last four bars all have a non-zero open, so amplitudes are defined.
pub open spec fn spike_window_ok(s: Seq<Kline>) -> bool {
    &&& s.len() >= 4
    &&& forall|i: int| s.len() - 4 <= i < s.len() ==> (#[trigger] s[i]).open > 0
}

/// Sum of the amplitudes of the three bars before the last.
pub open spec fn history_amplitude_sum(s: Seq<Kline>) -> int {
    amplitude(s[s.len() - 4]) + amplitude(s[s.len() - 3]) + amplitude(s[s.len() - 2])
}

/// The last bar's amplitude exceeds 0.0001 and twice the mean of the three before it.
pub open spec fn is_spike(s: Seq<Kline>) -> bool {
    &&& spike_window_ok(s)
    &&& amplitude(s.last()) > MIN_SPIKE_AMPLITUDE
    &&& 3 * amplitude(s.last()) > 2 * history_amplitude_sum(s)
}

/// Up when the last bar closed above the bar before it.
pub open spec fn spike_direction(s: Seq<Kline>) -> i8 {
    if s.last().close > s[s.len() - 2].close {
        1i8
    } else {
        -1i8
    }
}

pub open spec fn spike_value_matches(v: EventValue, s: Seq<Kline>, turnover: Seq<char>) -> bool {
    match v {
        EventValue::VolatilitySpike { amplitude: a, avg_amplitude, volume, turnover: t, direction } => {
            &&& a == amplitude(s.last())
            &&& avg_amplitude == history_amplitude_sum(s) / 3
            &&& volume == s.last().volume
            &&& t@ == turnover
            &&& direction == spike_direction(s)
        },
        _ => false,
    }
}

fn amplitude_of(k: Kline) -> (r: u128)
    requires
        kline_bounded(k),
        k.open > 0,
    ensures
        r == amplitude(k),
        r <= u64::MAX as int * SCALE,
{
    let range = (k.high - k.low) as u128;
    proof {
        assert(range * (SCALE as int) <= u64::MAX as int * SCALE) by (nonlinear_arith)
            requires
                range <= u64::MAX,
        ;
        vstd::arithmetic::div_mod::lemma_div_is_ordered_by_denominator(
            range * (SCALE as int),
            1,
            k.open as int,
        );
    }
    range * SCALE as u128 / k.open as u128
}

/// Judges the bar that just closed, the last of `klines`, against the three
/// before it, and builds a volatility-spike event when it qualifies.
pub fn process_volatility_spike(
    symbol: String,
    interval: Interval,
    klines: Vec<Kline>,
    turnover: String,
) -> (r: Option<Event>)
    requires
        forall|i: int| 0 <= i < klines@.len() ==> kline_bounded(#[trigger] klines@[i]),
    ensures
        r is Some <==> is_spike(klines@),
        r matches Some(e) ==> {
            &&& e.symbol@ == symbol@
            &&& e.event_type == EventType::VolatilitySpike
            &&& e.period@ == interval_label(interval)
            &&& e.timestamp == klines@.last().start_ts
            &&& spike_value_matches(e.value, klines@, turnover@)
        },
{
    let n = klines.len();
    if n < SPIKE_BARS {
        return None;
    }
    let current = klines[n - 1];
    let h1 = klines[n - 4];
    let h2 = klines[n - 3];
    let h3 = klines[n - 2];
    if current.open == 0 || h1.open == 0 || h2.open == 0 || h3.open == 0 {
        proof {
            assert(!spike_window_ok(klines@)) by {
                if current.open == 0 {
                    assert(klines@[n - 1].open == 0);
                } else if h1.open == 0 {
                    assert(klines@[n - 4].open == 0);
                } else if h2.open == 0 {
                    assert(klines@[n - 3].open == 0);
                } else {
                    assert(klines@[n - 2].open == 0);
                }
            }
        }
        return None;
    }
    assert(spike_window_ok(klines@)) by {
        assert forall|i: int| n - 4 <= i < n implies (#[trigger] klines@[i]).open > 0 by {
            if i == n - 4 {
            } else if i == n - 3 {
            } else if i == n - 2 {
            } else {
            }
        }
    }
    let current_amp = amplitude_of(current);
    let sum = amplitude_of(h1) + amplitude_of(h2) + amplitude_of(h3);
    if current_amp > MIN_SPIKE_AMPLITUDE && 3 * current_amp > 2 * sum {
        let direction: i8 = if current.close > h3.close {
            1
        } else {
            -1
        };
        let value = EventValue::VolatilitySpike {
            amplitude: current_amp,
            avg_amplitude: sum / 3,
            volume: current.volume,
            turnover,
            direction,
        };
        Some(
            Event {
                symbol,
                event_type: EventType::VolatilitySpike,
                period: interval.to_string(),
                value,
                timestamp: current.start_ts,
            },
        )
    } else {
        None
    }
}

/// Whether the step from `older` to `newer` keeps the trend: non-decreasing
/// closes for an up trend, non-increasing for a down trend.
pub open spec fn step_holds(newer: Kline, older: Kline, up: bool) -> bool {
    if up {
        newer.close >= older.close
    } else {
        newer.close <= older.close
    }
}

/// Number of steps, walking back from bar `j` of `w`, that keep the trend before
/// the first one that breaks it.
pub open spec fn run_steps(w: Seq<Kline>, up: bool, j: int) -> nat
    decreases j,
{
    if j >= 1 && step_holds(w[j], w[j - 1], up) {
        1 + run_steps(w, up, j - 1)
    } else {
        0
    }
}

/// The newest bars that a run is looked for in: at most ten.
pub open spec fn move_window(s: Seq<Kline>) -> Seq<Kline> {
    if s.len() > MAX_MOVE_BARS {
        s.skip(s.len() - MAX_MOVE_BARS)
    } else {
        s
    }
}

/// The trend is set by the newest step: up unless the newest close is lower.
pub open spec fn trend_up(w: Seq<Kline>) -> bool {
    w.last().close >= w[w.len() - 2].close
}

/// Bars in the newest run, the newest bar included.
pub open spec fn move_count(s: Seq<Kline>) -> nat {
    let w = move_window(s);
    1 + run_steps(w, trend_up(w), w.len() - 1)
}

pub open spec fn is_consecutive_move(s: Seq<Kline>) -> bool {
    s.len() >= MIN_MOVE_BARS && move_count(s) >= MIN_MOVE_COUNT
}

pub open spec fn move_value_matches(v: EventValue, s: Seq<Kline>, turnover: Seq<char>) -> bool {
    match v {
        EventValue::ConsecutiveMove { count, turnover: t, direction } => {
            &&& count == move_count(s)
            &&& t@ == turnover
            &&& direction == (if trend_up(move_window(s)) {
                1i8
            } else {
                -1i8
            })
        },
        _ => false,
    }
}

fn keeps_trend(newer: Kline, older: Kline, up: bool) -> (r: bool)
    ensures
        r == step_holds(newer, older, up),
{
    if up {
        newer.close >= older.close
    } else {
        newer.close <= older.close
    }
}

proof fn lemma_run_steps_bound(w: Seq<Kline>, up: bool, j: int)
    ensures
        run_steps(w, up, j) <= if j >= 0 {
            j
        } else {
            0
        },
    decreases j,
{
    if j >= 1 && step_holds(w[j], w[j - 1], up) {
        lemma_run_steps_bound(w, up, j - 1);
    }
}

/// Looks for a run of at least three bars, among the newest ten, whose closes move
/// the same way, and builds a consecutive-move event when one is found.
pub fn process_consecutive_move(
    symbol: String,
    interval: Interval,
    klines: Vec<Kline>,
    turnover: String,
) -> (r: Option<Event>)
    ensures
        r is Some <==> is_consecutive_move(klines@),
        r matches Some(e) ==> {
            &&& e.symbol@ == symbol@
            &&& e.event_type == EventType::ConsecutiveMove
            &&& e.period@ == interval_label(interval)
            &&& e.timestamp == klines@.last().start_ts
            &&& move_value_matches(e.value, klines@, turnover@)
        },
{
    let n = klines.len();
    if n < MIN_MOVE_BARS {
        return None;
    }
    let take = if n > MAX_MOVE_BARS {
        MAX_MOVE_BARS
    } else {
        n
    };
    let base = n - take;
    let ghost w = move_window(klines@);
    assert(w =~= klines@.skip(base as int));
    let up = klines[n - 1].close >= klines[n - 2].close;
    assert(up == trend_up(w));
    let mut count: u64 = 1;
    let mut j: usize = take - 1;
    proof {
        lemma_run_steps_bound(w, up, j as int);
    }
    while j >= 1 && keeps_trend(klines[base + j], klines[base + j - 1], up)
        invariant
            n == klines@.len(),
            base + take == n,
            1 <= take <= MAX_MOVE_BARS,
            j < take,
            w == klines@.skip(base as int),
            count + run_steps(w, up, j as int) == move_count(klines@),
            count + j <= take,
        decreases j,
    {
        assert(w[j as int] == klines@[base + j]);
        assert(w[j - 1] == klines@[base + j - 1]);
        count = count + 1;
        j = j - 1;
    }
    proof {
        if j >= 1 {
            assert(w[j as int] == klines@[base + j]);
            assert(w[j - 1] == klines@[base + j - 1]);
        }
    }
    if count >= MIN_MOVE_COUNT {
        let direction: i8 = if up {
            1
        } else {
            -1
        };
        let value = EventValue::ConsecutiveMove { count, turnover, direction };
        Some(
            Event {
                symbol,
                event_type: EventType::ConsecutiveMove,
                period: interval.to_string(),
                value,
                timestamp: klines[n - 1].start_ts,
            },
        )
    } else {
        None
    }
}

/// Builds the funding-rate event for a mark price that the worker decided to report.
pub fn process_funding_rate(
    symbol: String,
    event_time: u64,
    funding_rate: String,
    next_funding_time: u64,
) -> (e: Event)
    ensures
        e.symbol@ == symbol@,
        e.event_type == EventType::FundingRate,
        e.period@ == Seq::<char>::empty(),
        e.timestamp == event_time,
        e.value matches EventValue::FundingRate { funding_rate: f, next_funding_time: t } && f@
            == funding_rate@ && t == next_funding_time,
{
    Event {
        symbol,
        event_type: EventType::FundingRate,
        period: String::new(),
        value: EventValue::FundingRate { funding_rate, next_funding_time },
        timestamp: event_time,
    }
}

} // verus!
