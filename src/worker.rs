use crate::aggregator::{
    lemma_series_step_shape, lemma_series_step_wf, rolls_over, series_shape, series_step, series_wf,
    update_series,
};
use crate::config::FundingRateConfig;
use crate::decimal::{parse_quantity, parse_rate, quantity_of, rate_of};
use crate::detectors::process_funding_rate;
use crate::helper::{align_ts, aligned};
use crate::types::{Event, EventType, EventValue, Interval, Kline, MarkPrice, Ticker};
use vstd::prelude::*;

verus! {

/// The four series of one symbol.
pub struct SymbolKlines {
    pub symbol: String,
    pub min5: Vec<Kline>,
    pub min15: Vec<Kline>,
    pub hour1: Vec<Kline>,
    pub hour4: Vec<Kline>,
}

pub open spec fn series_of(e: SymbolKlines, i: Interval) -> Seq<Kline> {
    match i {
        Interval::Min5 => e.min5@,
        Interval::Min15 => e.min15@,
        Interval::Hour1 => e.hour1@,
        Interval::Hour4 => e.hour4@,
    }
}

/// Funding rate last reported for a symbol, and when.
#[derive(Clone, Copy, Debug, PartialEq, Eq, Structural)]
pub struct FundingRateLimit {
    pub time: u64,
    pub rate: i64,
}

pub struct FundingEntry {
    pub symbol: String,
    pub limit: FundingRateLimit,
}

/// The bars of one series as they stood when a new bucket began, for the
/// closed-bar detectors.
pub struct ClosedBars {
    pub symbol: String,
    pub interval: Interval,
    pub klines: Vec<Kline>,
    pub turnover: String,
}

/// Whether a funding rate is worth reporting, given the one last reported: always
/// the first time; afterwards only when the rate moved by more than the minimum
/// change and more than the minimum interval has passed (a mark price older than
/// the last report never counts as later).
pub open spec fn funding_changed(prev: Option<FundingRateLimit>, time: u64, rate: i64, cfg: FundingRateConfig) -> bool {
    match prev {
        None => true,
        Some(l) => {
            &&& (if rate >= l.rate {
                rate - l.rate
            } else {
                l.rate - rate
            }) > cfg.min_funding_rate_change
            &&& time - l.time > cfg.funding_rate_interval * 1000
        },
    }
}

/// A rate is considered at all only when its magnitude exceeds the minimum.
pub open spec fn rate_qualifies(rate: i64, cfg: FundingRateConfig) -> bool {
    (if rate >= 0 {
        rate as int
    } else {
        -rate
    }) > cfg.min_funding_rate
}

/// One parsed mark price for a symbol: the limit kept afterwards, and whether an
/// event is emitted.
pub open spec fn funding_step(prev: Option<FundingRateLimit>, time: u64, rate: i64, cfg: FundingRateConfig) -> (
    Option<FundingRateLimit>,
    bool,
) {
    if rate_qualifies(rate, cfg) && funding_changed(prev, time, rate, cfg) {
        (Some(FundingRateLimit { time, rate }), true)
    } else {
        (prev, false)
    }
}

/// A mark price whose funding rate is no decimal within range.
#[derive(Clone, Copy, Debug, PartialEq, Eq, Structural)]
pub struct InvalidFundingRate {}

/// The aggregation and funding-rate state of one shard.
pub struct Worker {
    pub max_kline_count: u32,
    pub funding_rate_config: FundingRateConfig,
    pub symbols: Vec<SymbolKlines>,
    pub rates: Vec<FundingEntry>,
}

impl Worker {
    /// Each symbol has at most one entry in each table.
    pub open spec fn wf(&self) -> bool {
        &&& forall|a: int, b: int|
            0 <= a < self.symbols@.len() && 0 <= b < self.symbols@.len() && (
            #[trigger] self.symbols@[a]).symbol@ == (#[trigger] self.symbols@[b]).symbol@ ==> a
                == b
        &&& forall|a: int, b: int|
            0 <= a < self.rates@.len() && 0 <= b < self.rates@.len() && (
            #[trigger] self.rates@[a]).symbol@ == (#[trigger] self.rates@[b]).symbol@ ==> a == b
    }

    pub open spec fn has_symbol(&self, sym: Seq<char>) -> bool {
        exists|j: int| 0 <= j < self.symbols@.len() && (#[trigger] self.symbols@[j]).symbol@ == sym
    }

    /// The series kept for a symbol and interval; empty for a symbol not seen yet.
    pub open spec fn klines_for(&self, sym: Seq<char>, i: Interval) -> Seq<Kline> {
        if self.has_symbol(sym) {
            let j = choose|j: int| 0 <= j < self.symbols@.len() && (#[trigger] self.symbols@[j]).symbol@ == sym;
            series_of(self.symbols@[j], i)
        } else {
            Seq::empty()
        }
    }

    /// Every series of the shard is well formed for its interval and the cap.
    pub open spec fn series_valid(&self) -> bool {
        &&& self.max_kline_count >= 1
        &&& forall|sym: Seq<char>, i: Interval|
            series_wf(#[trigger] self.klines_for(sym, i), i, self.max_kline_count as nat)
    }

    /// Every bar of the shard is bounded and aligned to its interval, and every
    /// series is within the cap.
    pub open spec fn series_shaped(&self) -> bool {
        &&& self.max_kline_count >= 1
        &&& forall|sym: Seq<char>, i: Interval|
            series_shape(#[trigger] self.klines_for(sym, i), i, self.max_kline_count as nat)
    }

    /// The ticker is not older than the current bar of any of its symbol's series.
    pub open spec fn in_order(&self, t: &Ticker) -> bool {
        forall|i: Interval|
            #[trigger] self.klines_for(t.symbol@, i).len() > 0 ==> self.klines_for(
                t.symbol@,
                i,
            ).last().start_ts <= t.event_time
    }

    pub open spec fn has_rate(&self, sym: Seq<char>) -> bool {
        exists|j: int| 0 <= j < self.rates@.len() && (#[trigger] self.rates@[j]).symbol@ == sym
    }

    /// The funding rate last reported for a symbol, if any.
    pub open spec fn limit_for(&self, sym: Seq<char>) -> Option<FundingRateLimit> {
        if self.has_rate(sym) {
            let j = choose|j: int| 0 <= j < self.rates@.len() && (#[trigger] self.rates@[j]).symbol@ == sym;
            Some(self.rates@[j].limit)
        } else {
            None
        }
    }

    /// Index of the symbol's series, if it has any.
    fn find_symbol(&self, symbol: &String) -> (r: Option<usize>)
        ensures
            match r {
                Some(j) => j < self.symbols@.len() && self.symbols@[j as int].symbol@ == symbol@,
                None => !self.has_symbol(symbol@),
            },
    {
        let mut j: usize = 0;
        while j < self.symbols.len()
            invariant
                j <= self.symbols@.len(),
                forall|k: int| 0 <= k < j ==> (#[trigger] self.symbols@[k]).symbol@ != symbol@,
            decreases self.symbols@.len() - j,
        {
            if self.symbols[j].symbol == *symbol {
                return Some(j);
            }
            j = j + 1;
        }
        None
    }

    /// Index of the symbol's funding-rate entry, if it has one.
    fn find_rate(&self, symbol: &String) -> (r: Option<usize>)
        ensures
            match r {
                Some(j) => j < self.rates@.len() && self.rates@[j as int].symbol@ == symbol@,
                None => !self.has_rate(symbol@),
            },
    {
        let mut j: usize = 0;
        while j < self.rates.len()
            invariant
                j <= self.rates@.len(),
                forall|k: int| 0 <= k < j ==> (#[trigger] self.rates@[k]).symbol@ != symbol@,
            decreases self.rates@.len() - j,
        {
            if self.rates[j].symbol == *symbol {
                return Some(j);
            }
            j = j + 1;
        }
        None
    }

    /// Feeds a ticker into the symbol's four series. Every other symbol's series
    /// and the funding-rate state are untouched. Returns, once for each interval
    /// that rolled over, the series as it stood before the new bar, for the
    /// closed-bar detectors.
    pub fn on_ticker(&mut self, t: &Ticker) -> (closed: Vec<ClosedBars>)
        requires
            old(self).wf(),
        ensures
            final(self).wf(),
            final(self).max_kline_count == old(self).max_kline_count,
            final(self).funding_rate_config == old(self).funding_rate_config,
            final(self).rates == old(self).rates,
            forall|sym: Seq<char>, i: Interval|
                #![trigger final(self).klines_for(sym, i)]
                final(self).klines_for(sym, i) == if sym == t.symbol@ {
                    series_step(
                        old(self).klines_for(sym, i),
                        aligned(t.event_time, i),
                        quantity_of(t.last_price@),
                        quantity_of(t.volume@),
                        old(self).max_kline_count as nat,
                    )
                } else {
                    old(self).klines_for(sym, i)
                },
            closed_report_ok(
                closed@,
                t.symbol@,
                t.turnover@,
                |i: Interval| old(self).klines_for(t.symbol@, i),
                t.event_time,
            ),
            old(self).series_shaped() ==> final(self).series_shaped(),
            old(self).series_shaped() ==> forall|k: int|
                0 <= k < closed@.len() ==> series_shape(
                    (#[trigger] closed@[k]).klines@,
                    closed@[k].interval,
                    old(self).max_kline_count as nat,
                ),
            old(self).series_valid() && old(self).in_order(t) ==> final(self).series_valid(),
    {
        let price = parse_quantity(t.last_price.as_str());
        let volume = parse_quantity(t.volume.as_str());
        let j = match self.find_symbol(&t.symbol) {
            Some(j) => j,
            None => {
                self.symbols.push(
                    SymbolKlines {
                        symbol: t.symbol.clone(),
                        min5: Vec::new(),
                        min15: Vec::new(),
                        hour1: Vec::new(),
                        hour4: Vec::new(),
                    },
                );
                assert(self.wf()) by {
                    assert forall|a: int, b: int|
                        0 <= a < self.symbols@.len() && 0 <= b < self.symbols@.len() && (
                        #[trigger] self.symbols@[a]).symbol@ == (#[trigger] self.symbols@[b]).symbol@ implies a
                        == b by {
                        if a < old(self).symbols@.len() && b < old(self).symbols@.len() {
                            assert(old(self).symbols@[a] == self.symbols@[a]);
                            assert(old(self).symbols@[b] == self.symbols@[b]);
                        } else if a < old(self).symbols@.len() {
                            assert(old(self).symbols@[a] == self.symbols@[a]);
                        } else if b < old(self).symbols@.len() {
                            assert(old(self).symbols@[b] == self.symbols@[b]);
                        }
                    }
                }
                self.symbols.len() - 1
            },
        };
        let ghost mid = *self;
        proof {
            assert forall|i: Interval| #[trigger]
                series_of(mid.symbols@[j as int], i) == old(self).klines_for(t.symbol@, i) by {
                if j < old(self).symbols@.len() {
                    lemma_klines_at(old(self), j as int, i);
                }
            }
        }
        let closed = update_entry(
            &mut self.symbols[j],
            t.event_time,
            price,
            volume,
            self.max_kline_count,
            &t.turnover,
        );
        proof {
            assert(self.wf()) by {
                assert forall|a: int, b: int|
                    0 <= a < self.symbols@.len() && 0 <= b < self.symbols@.len() && (
                    #[trigger] self.symbols@[a]).symbol@ == (#[trigger] self.symbols@[b]).symbol@ implies a
                    == b by {
                    assert(mid.symbols@[a].symbol@ == self.symbols@[a].symbol@);
                    assert(mid.symbols@[b].symbol@ == self.symbols@[b].symbol@);
                }
            }
            assert forall|sym: Seq<char>, i: Interval|
                #![trigger self.klines_for(sym, i)]
                self.klines_for(sym, i) == if sym == t.symbol@ {
                    series_step(
                        old(self).klines_for(sym, i),
                        aligned(t.event_time, i),
                        quantity_of(t.last_price@),
                        quantity_of(t.volume@),
                        old(self).max_kline_count as nat,
                    )
                } else {
                    old(self).klines_for(sym, i)
                } by {
                if sym == t.symbol@ {
                    lemma_klines_at(self, j as int, i);
                    assert(series_of(mid.symbols@[j as int], i) == old(self).klines_for(t.symbol@, i));
                } else {
                    lemma_klines_other(old(self), self, j as int, sym, i);
                }
            }
            if old(self).series_valid() && old(self).in_order(t) {
                assert forall|sym: Seq<char>, i: Interval|
                    series_wf(#[trigger] self.klines_for(sym, i), i, self.max_kline_count as nat) by {
                    assert(series_wf(old(self).klines_for(sym, i), i, self.max_kline_count as nat));
                    if sym == t.symbol@ {
                        assert(old(self).klines_for(t.symbol@, i).len() > 0 ==> old(self).klines_for(
                            t.symbol@,
                            i,
                        ).last().start_ts <= t.event_time);
                        lemma_series_step_wf(
                            old(self).klines_for(sym, i),
                            i,
                            t.event_time,
                            price,
                            volume,
                            self.max_kline_count as nat,
                        );
                    }
                }
            }
            if old(self).series_shaped() {
                assert forall|sym: Seq<char>, i: Interval|
                    series_shape(#[trigger] self.klines_for(sym, i), i, self.max_kline_count as nat) by {
                    assert(series_shape(old(self).klines_for(sym, i), i, self.max_kline_count as nat));
                    if sym == t.symbol@ {
                        lemma_series_step_shape(
                            old(self).klines_for(sym, i),
                            i,
                            t.event_time,
                            price,
                            volume,
                            self.max_kline_count as nat,
                        );
                    }
                }
            }
            let f1 = |i: Interval| series_of(mid.symbols@[j as int], i);
            let f2 = |i: Interval| old(self).klines_for(t.symbol@, i);
            assert(f1 =~= f2);
        }
        closed
    }

    /// Applies the funding-rate rules to a mark price, updating the symbol's
    /// last reported rate and returning the event to publish, if any. Fails,
    /// changing nothing, when the rate cannot be read.
    pub fn on_mark_price(&mut self, m: &MarkPrice) -> (r: Result<Option<Event>, InvalidFundingRate>)
        requires
            old(self).wf(),
        ensures
            final(self).wf(),
            final(self).max_kline_count == old(self).max_kline_count,
            final(self).funding_rate_config == old(self).funding_rate_config,
            final(self).symbols == old(self).symbols,
            forall|sym: Seq<char>|
                #![trigger final(self).limit_for(sym)]
                sym != m.symbol@ ==> final(self).limit_for(sym) == old(self).limit_for(sym),
            match rate_of(m.funding_rate@) {
                None => r is Err && final(self).limit_for(m.symbol@) == old(self).limit_for(m.symbol@),
                Some(fr) => {
                    let step = funding_step(
                        old(self).limit_for(m.symbol@),
                        m.event_time,
                        fr,
                        old(self).funding_rate_config,
                    );
                    &&& r is Ok
                    &&& final(self).limit_for(m.symbol@) == step.0
                    &&& (r matches Ok(Some(_)) <==> step.1)
                },
            },
            r matches Ok(Some(e)) ==> {
                &&& e.symbol@ == m.symbol@
                &&& e.event_type == EventType::FundingRate
                &&& e.period@ == Seq::<char>::empty()
                &&& e.timestamp == m.event_time
                &&& e.value matches EventValue::FundingRate { funding_rate: f, next_funding_time: n }
                    && f@ == m.funding_rate@ && n == m.next_funding_time
            },
    {
        let fr = match parse_rate(m.funding_rate.as_str()) {
            Some(fr) => fr,
            None => {
                return Err(InvalidFundingRate {});
            },
        };
        let cfg = self.funding_rate_config;
        let mag: u64 = if fr >= 0 {
            fr as u64
        } else {
            (-(fr as i128)) as u64
        };
        if mag <= cfg.min_funding_rate {
            return Ok(None);
        }
        let time = m.event_time;
        let limit = FundingRateLimit { time, rate: fr };
        let changed = match self.find_rate(&m.symbol) {
            None => {
                self.rates.push(FundingEntry { symbol: m.symbol.clone(), limit });
                proof {
                    let n = old(self).rates@.len() as int;
                    assert(self.wf()) by {
                        assert forall|a: int, b: int|
                            0 <= a < self.rates@.len() && 0 <= b < self.rates@.len() && (
                            #[trigger] self.rates@[a]).symbol@ == (#[trigger] self.rates@[b]).symbol@ implies a
                            == b by {
                            if a < n {
                                assert(old(self).rates@[a] == self.rates@[a]);
                            }
                            if b < n {
                                assert(old(self).rates@[b] == self.rates@[b]);
                            }
                        }
                    }
                    lemma_limit_at(self, n);
                    assert forall|sym: Seq<char>| sym != m.symbol@ implies #[trigger] self.limit_for(sym)
                        == old(self).limit_for(sym) by {
                        lemma_limit_other(old(self), self, n, sym);
                    }
                }
                true
            },
            Some(j) => {
                let prev = self.rates[j].limit;
                proof {
                    lemma_limit_at(self, j as int);
                }
                let diff: i128 = fr as i128 - prev.rate as i128;
                let change: i128 = if diff >= 0 {
                    diff
                } else {
                    -diff
                };
                if change > cfg.min_funding_rate_change as i128 && time as u128 > prev.time as u128
                    + cfg.funding_rate_interval as u128 * 1000 {
                    self.rates.set(j, FundingEntry { symbol: m.symbol.clone(), limit });
                    proof {
                        assert(self.wf()) by {
                            assert forall|a: int, b: int|
                                0 <= a < self.rates@.len() && 0 <= b < self.rates@.len() && (
                                #[trigger] self.rates@[a]).symbol@ == (
                                #[trigger] self.rates@[b]).symbol@ implies a == b by {
                                assert(old(self).rates@[a].symbol@ == self.rates@[a].symbol@);
                                assert(old(self).rates@[b].symbol@ == self.rates@[b].symbol@);
                            }
                        }
                        lemma_limit_at(self, j as int);
                        assert forall|sym: Seq<char>| sym != m.symbol@ implies #[trigger] self.limit_for(
                            sym,
                        ) == old(self).limit_for(sym) by {
                            lemma_limit_other(old(self), self, j as int, sym);
                        }
                    }
                    true
                } else {
                    false
                }
            },
        };
        if changed {
            Ok(
                Some(
                    process_funding_rate(
                        m.symbol.clone(),
                        m.event_time,
                        m.funding_rate.clone(),
                        m.next_funding_time,
                    ),
                ),
            )
        } else {
            Ok(None)
        }
    }

    /// A shard that has seen nothing yet.
    pub fn new(max_kline_count: u32, funding_rate_config: FundingRateConfig) -> (r: Self)
        ensures
            r.wf(),
            r.max_kline_count == max_kline_count,
            r.funding_rate_config == funding_rate_config,
            forall|sym: Seq<char>, i: Interval| r.klines_for(sym, i) == Seq::<Kline>::empty(),
            forall|sym: Seq<char>| r.limit_for(sym) is None,
            max_kline_count >= 1 ==> r.series_valid(),
            max_kline_count >= 1 ==> r.series_shaped(),
    {
        Worker { max_kline_count, funding_rate_config, symbols: Vec::new(), rates: Vec::new() }
    }
}

/// Number of events emitted when a symbol's parsed mark prices, `(event_time,
/// rate)` in arrival order, are fed from the last reported limit `prev`.
pub open spec fn funding_emissions(
    prev: Option<FundingRateLimit>,
    stream: Seq<(u64, i64)>,
    cfg: FundingRateConfig,
) -> nat
    decreases stream.len(),
{
    if stream.len() == 0 {
        0
    } else {
        let step = funding_step(prev, stream[0].0, stream[0].1, cfg);
        (if step.1 {
            1nat
        } else {
            0nat
        }) + funding_emissions(step.0, stream.drop_first(), cfg)
    }
}

pub open spec fn times_nondecreasing(stream: Seq<(u64, i64)>) -> bool {
    forall|a: int, b: int| 0 <= a <= b < stream.len() ==> (#[trigger] stream[a]).0 <= (#[trigger] stream[b]).0
}

proof fn lemma_funding_after_limit(l: FundingRateLimit, stream: Seq<(u64, i64)>, cfg: FundingRateConfig)
    requires
        stream.len() > 0,
        times_nondecreasing(stream),
        l.time <= stream[0].0,
        cfg.funding_rate_interval > 0,
    ensures
        funding_emissions(Some(l), stream, cfg) <= (stream.last().0 - l.time) / (
        cfg.funding_rate_interval * 1000),
    decreases stream.len(),
{
    let w = cfg.funding_rate_interval * 1000;
    let last = stream.last().0 as int;
    let t0 = stream[0].0 as int;
    let rest = stream.drop_first();
    let step = funding_step(Some(l), stream[0].0, stream[0].1, cfg);
    assert(stream[0].0 <= stream[stream.len() - 1].0);
    if rest.len() > 0 {
        assert(rest.last() == stream.last());
        assert(times_nondecreasing(rest)) by {
            assert forall|a: int, b: int| 0 <= a <= b < rest.len() implies (#[trigger] rest[a]).0 <= (
            #[trigger] rest[b]).0 by {
                assert(rest[a] == stream[a + 1] && rest[b] == stream[b + 1]);
            }
        }
        assert(rest[0] == stream[1]);
    }
    vstd::arithmetic::div_mod::lemma_div_pos_is_pos(last - l.time, w);
    if step.1 {
        let l2 = FundingRateLimit { time: stream[0].0, rate: stream[0].1 };
        assert(step.0 == Some(l2));
        if rest.len() > 0 {
            lemma_funding_after_limit(l2, rest, cfg);
        }
        vstd::arithmetic::div_mod::lemma_div_pos_is_pos(last - t0, w);
        vstd::arithmetic::div_mod::lemma_hoist_over_denominator(last - t0, 1, w as nat);
        vstd::arithmetic::div_mod::lemma_div_is_ordered(last - t0 + w, last - l.time, w);
    } else {
        if rest.len() > 0 {
            lemma_funding_after_limit(l, rest, cfg);
        }
    }
}

/// However a symbol's mark prices arrive, in time order, the funding-rate rules
/// emit at most one event plus one for each full funding interval that the stream
/// spans.
pub proof fn lemma_funding_dedup(stream: Seq<(u64, i64)>, cfg: FundingRateConfig)
    requires
        stream.len() > 0,
        times_nondecreasing(stream),
        cfg.funding_rate_interval > 0,
    ensures
        funding_emissions(None, stream, cfg) <= 1 + (stream.last().0 - stream[0].0) / (
        cfg.funding_rate_interval * 1000),
    decreases stream.len(),
{
    let w = cfg.funding_rate_interval * 1000;
    let last = stream.last().0 as int;
    let t0 = stream[0].0 as int;
    let rest = stream.drop_first();
    let step = funding_step(None, stream[0].0, stream[0].1, cfg);
    assert(stream[0].0 <= stream[stream.len() - 1].0);
    vstd::arithmetic::div_mod::lemma_div_pos_is_pos(last - t0, w);
    assert(funding_emissions(None, stream, cfg) == (if step.1 {
        1nat
    } else {
        0nat
    }) + funding_emissions(step.0, rest, cfg));
    if rest.len() == 0 {
        assert(funding_emissions(step.0, rest, cfg) == 0);
    }
    if rest.len() > 0 {
        assert(rest.last() == stream.last());
        assert(times_nondecreasing(rest)) by {
            assert forall|a: int, b: int| 0 <= a <= b < rest.len() implies (#[trigger] rest[a]).0 <= (
            #[trigger] rest[b]).0 by {
                assert(rest[a] == stream[a + 1] && rest[b] == stream[b + 1]);
            }
        }
        assert(rest[0] == stream[1]);
        if step.1 {
            let l2 = FundingRateLimit { time: stream[0].0, rate: stream[0].1 };
            lemma_funding_after_limit(l2, rest, cfg);
        } else {
            lemma_funding_dedup(rest, cfg);
            vstd::arithmetic::div_mod::lemma_div_is_ordered(last - rest[0].0, last - t0, w);
        }
    }
}

/// `closed` reports each interval whose series `before` rolled over at `ts` exactly
/// once, with that series as it stood, and nothing else.
pub open spec fn closed_report_ok(
    closed: Seq<ClosedBars>,
    sym: Seq<char>,
    turnover: Seq<char>,
    before: spec_fn(Interval) -> Seq<Kline>,
    ts: u64,
) -> bool {
    &&& forall|k: int|
        0 <= k < closed.len() ==> {
            &&& (#[trigger] closed[k]).symbol@ == sym
            &&& closed[k].turnover@ == turnover
            &&& closed[k].klines@ == before(closed[k].interval)
            &&& rolls_over(before(closed[k].interval), aligned(ts, closed[k].interval))
        }
    &&& forall|i: Interval|
        rolls_over(#[trigger] before(i), aligned(ts, i)) ==> exists|k: int|
            0 <= k < closed.len() && (#[trigger] closed[k]).interval == i
    &&& forall|a: int, b: int|
        0 <= a < closed.len() && 0 <= b < closed.len() && (#[trigger] closed[a]).interval == (
        #[trigger] closed[b]).interval ==> a == b
}

/// Appends the bars of a rolled-over series to `closed`.
fn report(
    closed: &mut Vec<ClosedBars>,
    bars: Option<Vec<Kline>>,
    symbol: &String,
    interval: Interval,
    turnover: &String,
)
    ensures
        match bars {
            Some(k) => final(closed)@.len() == old(closed)@.len() + 1
                && final(closed)@.take(old(closed)@.len() as int) == old(closed)@
                && final(closed)@.last().symbol@ == symbol@
                && final(closed)@.last().turnover@ == turnover@
                && final(closed)@.last().interval == interval
                && final(closed)@.last().klines@ == k@,
            None => final(closed)@ == old(closed)@,
        },
{
    match bars {
        Some(k) => {
            closed.push(
                ClosedBars {
                    symbol: symbol.clone(),
                    interval,
                    klines: k,
                    turnover: turnover.clone(),
                },
            );
            assert(closed@.take(old(closed)@.len() as int) =~= old(closed)@);
        },
        None => {},
    }
}

/// Feeds one trade into the four series of a symbol.
fn update_entry(
    e: &mut SymbolKlines,
    ts: u64,
    price: u64,
    volume: u64,
    max_kline_count: u32,
    turnover: &String,
) -> (closed: Vec<ClosedBars>)
    ensures
        final(e).symbol == old(e).symbol,
        forall|i: Interval|
            #![trigger series_of(*final(e), i)]
            series_of(*final(e), i) == series_step(
                series_of(*old(e), i),
                aligned(ts, i),
                price,
                volume,
                max_kline_count as nat,
            ),
        closed_report_ok(
            closed@,
            old(e).symbol@,
            turnover@,
            |i: Interval| series_of(*old(e), i),
            ts,
        ),
{
    let ghost before = |i: Interval| series_of(*old(e), i);
    let mut closed: Vec<ClosedBars> = Vec::new();
    let a = align_ts(ts, Interval::Min5);
    let c = update_series(&mut e.min5, a, price, volume, max_kline_count);
    report(&mut closed, c, &e.symbol, Interval::Min5, turnover);
    let ghost c1 = closed@;
    let a = align_ts(ts, Interval::Min15);
    let c = update_series(&mut e.min15, a, price, volume, max_kline_count);
    report(&mut closed, c, &e.symbol, Interval::Min15, turnover);
    let ghost c2 = closed@;
    let a = align_ts(ts, Interval::Hour1);
    let c = update_series(&mut e.hour1, a, price, volume, max_kline_count);
    report(&mut closed, c, &e.symbol, Interval::Hour1, turnover);
    let ghost c3 = closed@;
    let a = align_ts(ts, Interval::Hour4);
    let c = update_series(&mut e.hour4, a, price, volume, max_kline_count);
    report(&mut closed, c, &e.symbol, Interval::Hour4, turnover);
    proof {
        let r = closed@;
        assert(c1.len() <= 1);
        assert forall|k: int| 0 <= k < c1.len() implies (#[trigger] c1[k]).interval == Interval::Min5 by {}
        assert forall|k: int| 0 <= k < c2.len() implies (#[trigger] c2[k]).interval == Interval::Min5
            || c2[k].interval == Interval::Min15 by {
            if k < c1.len() {
                assert(c2[k] == c2.take(c1.len() as int)[k]);
            }
        }
        assert forall|k: int| 0 <= k < c3.len() implies (#[trigger] c3[k]).interval == Interval::Min5
            || c3[k].interval == Interval::Min15 || c3[k].interval == Interval::Hour1 by {
            if k < c2.len() {
                assert(c3[k] == c3.take(c2.len() as int)[k]);
            }
        }
        assert(closed_report_ok(r, old(e).symbol@, turnover@, before, ts)) by {
            assert forall|k: int| 0 <= k < r.len() implies {
                &&& (#[trigger] r[k]).symbol@ == old(e).symbol@
                &&& r[k].turnover@ == turnover@
                &&& r[k].klines@ == before(r[k].interval)
                &&& rolls_over(before(r[k].interval), aligned(ts, r[k].interval))
            } by {
                if k < c3.len() {
                    assert(r[k] == r.take(c3.len() as int)[k]);
                    if k < c2.len() {
                        assert(c3[k] == c3.take(c2.len() as int)[k]);
                        if k < c1.len() {
                            assert(c2[k] == c2.take(c1.len() as int)[k]);
                        }
                    }
                }
            }
            assert forall|i: Interval| rolls_over(#[trigger] before(i), aligned(ts, i)) implies exists|k: int|
                0 <= k < r.len() && (#[trigger] r[k]).interval == i by {
                match i {
                    Interval::Min5 => {
                        assert(r[0] == r.take(c3.len() as int)[0]);
                        assert(c3[0] == c3.take(c2.len() as int)[0]);
                        assert(c2[0] == c2.take(c1.len() as int)[0]);
                    },
                    Interval::Min15 => {
                        let k = c1.len() as int;
                        assert(r[k] == r.take(c3.len() as int)[k]);
                        assert(c3[k] == c3.take(c2.len() as int)[k]);
                    },
                    Interval::Hour1 => {
                        let k = c2.len() as int;
                        assert(r[k] == r.take(c3.len() as int)[k]);
                    },
                    Interval::Hour4 => {},
                }
            }
            assert forall|a: int, b: int|
                0 <= a < r.len() && 0 <= b < r.len() && (#[trigger] r[a]).interval == (
                #[trigger] r[b]).interval implies a == b by {
                if a < c3.len() {
                    assert(r[a] == r.take(c3.len() as int)[a]);
                }
                if b < c3.len() {
                    assert(r[b] == r.take(c3.len() as int)[b]);
                }
                if a < c2.len() {
                    assert(c3[a] == c3.take(c2.len() as int)[a]);
                }
                if b < c2.len() {
                    assert(c3[b] == c3.take(c2.len() as int)[b]);
                }
                if a < c1.len() {
                    assert(c2[a] == c2.take(c1.len() as int)[a]);
                }
                if b < c1.len() {
                    assert(c2[b] == c2.take(c1.len() as int)[b]);
                }
            }
        }
    }
    closed
}

/// Entries other than `j` are kept, and neither the old nor the new entry at `j`
/// is `sym`'s: the series of `sym` are unchanged.
proof fn lemma_klines_other(before: &Worker, after: &Worker, j: int, sym: Seq<char>, i: Interval)
    requires
        before.wf(),
        after.wf(),
        before.symbols@.len() <= after.symbols@.len() <= before.symbols@.len() + 1,
        0 <= j < after.symbols@.len(),
        j >= before.symbols@.len() ==> j == before.symbols@.len(),
        forall|k: int| 0 <= k < after.symbols@.len() && k != j ==> after.symbols@[k] == before.symbols@[k],
        after.symbols@.len() == before.symbols@.len() + 1 ==> j == before.symbols@.len(),
        after.symbols@[j].symbol@ != sym,
        j < before.symbols@.len() ==> before.symbols@[j].symbol@ != sym,
    ensures
        after.klines_for(sym, i) == before.klines_for(sym, i),
{
    if before.has_symbol(sym) {
        let k = choose|k: int| 0 <= k < before.symbols@.len() && (#[trigger] before.symbols@[k]).symbol@ == sym;
        assert(after.symbols@[k] == before.symbols@[k]);
        lemma_klines_at(before, k, i);
        lemma_klines_at(after, k, i);
    } else if after.has_symbol(sym) {
        let k = choose|k: int| 0 <= k < after.symbols@.len() && (#[trigger] after.symbols@[k]).symbol@ == sym;
        assert(after.symbols@[k] == before.symbols@[k]);
    }
}

proof fn lemma_klines_at(w: &Worker, j: int, i: Interval)
    requires
        w.wf(),
        0 <= j < w.symbols@.len(),
    ensures
        w.klines_for(w.symbols@[j].symbol@, i) == series_of(w.symbols@[j], i),
{
    let sym = w.symbols@[j].symbol@;
    assert(w.has_symbol(sym));
    let k = choose|k: int| 0 <= k < w.symbols@.len() && (#[trigger] w.symbols@[k]).symbol@ == sym;
    assert(w.symbols@[k].symbol@ == w.symbols@[j].symbol@);
}

/// Entries other than `j` are kept, and neither the old nor the new entry at `j`
/// is `sym`'s: the limit of `sym` is unchanged.
proof fn lemma_limit_other(before: &Worker, after: &Worker, j: int, sym: Seq<char>)
    requires
        before.wf(),
        after.wf(),
        before.rates@.len() <= after.rates@.len() <= before.rates@.len() + 1,
        0 <= j < after.rates@.len(),
        j >= before.rates@.len() ==> j == before.rates@.len(),
        forall|k: int| 0 <= k < after.rates@.len() && k != j ==> after.rates@[k] == before.rates@[k],
        after.rates@.len() == before.rates@.len() + 1 ==> j == before.rates@.len(),
        after.rates@[j].symbol@ != sym,
        j < before.rates@.len() ==> before.rates@[j].symbol@ != sym,
    ensures
        after.limit_for(sym) == before.limit_for(sym),
{
    if before.has_rate(sym) {
        let k = choose|k: int| 0 <= k < before.rates@.len() && (#[trigger] before.rates@[k]).symbol@ == sym;
        assert(after.rates@[k] == before.rates@[k]);
        lemma_limit_at(before, k);
        lemma_limit_at(after, k);
    } else if after.has_rate(sym) {
        let k = choose|k: int| 0 <= k < after.rates@.len() && (#[trigger] after.rates@[k]).symbol@ == sym;
        assert(after.rates@[k] == before.rates@[k]);
    }
}

proof fn lemma_limit_at(w: &Worker, j: int)
    requires
        w.wf(),
        0 <= j < w.rates@.len(),
    ensures
        w.limit_for(w.rates@[j].symbol@) == Some(w.rates@[j].limit),
{
    let sym = w.rates@[j].symbol@;
    assert(w.has_rate(sym));
    let k = choose|k: int| 0 <= k < w.rates@.len() && (#[trigger] w.rates@[k]).symbol@ == sym;
    assert(w.rates@[k].symbol@ == w.rates@[j].symbol@);
}

} // verus!
