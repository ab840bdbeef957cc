use crate::helper::aligned;
use crate::types::{fresh_kline, interval_millis, kline_bounded, updated_kline, Interval, Kline};
use vstd::prelude::*;

verus! {

/// A trade at bucket start `start` closes the current bar when the series has one
/// and that bar belongs to another bucket.
pub open spec fn rolls_over(s: Seq<Kline>, start: u64) -> bool {
    s.len() > 0 && s.last().start_ts != start
}

/// The series after a trade of `price` and `volume` whose bucket begins at `start`:
/// the first bar of an empty series; an update of the last bar in the same bucket;
/// otherwise a fresh bar appended, dropping the oldest when the cap is exceeded.
pub open spec fn series_step(s: Seq<Kline>, start: u64, price: u64, volume: u64, cap: nat) -> Seq<
    Kline,
> {
    if s.len() == 0 {
        seq![fresh_kline(start, price, volume)]
    } else if s.last().start_ts == start {
        s.update(s.len() - 1, updated_kline(s.last(), price, volume))
    } else {
        let t = s.push(fresh_kline(start, price, volume));
        if t.len() > cap {
            t.drop_first()
        } else {
            t
        }
    }
}

/// A series that the aggregator can hold: within the cap, each bar bounded and
/// aligned to its interval, start times strictly increasing.
pub open spec fn series_wf(s: Seq<Kline>, interval: Interval, cap: nat) -> bool {
    &&& s.len() <= cap
    &&& forall|i: int| 0 <= i < s.len() ==> kline_bounded(#[trigger] s[i])
    &&& forall|i: int| 0 <= i < s.len() ==> (#[trigger] s[i]).start_ts % interval_millis(interval) == 0
    &&& forall|i: int, j: int| 0 <= i < j < s.len() ==> (#[trigger] s[i]).start_ts < (#[trigger] s[j]).start_ts
}

/// Bars bounded and aligned to the interval, the series within the cap: what
/// holds whatever order trades arrive in.
pub open spec fn series_shape(s: Seq<Kline>, interval: Interval, cap: nat) -> bool {
    &&& s.len() <= cap
    &&& forall|i: int| 0 <= i < s.len() ==> kline_bounded(#[trigger] s[i])
    &&& forall|i: int| 0 <= i < s.len() ==> (#[trigger] s[i]).start_ts % interval_millis(interval) == 0
}

/// Feeds one trade into a series. On rollover the series as it stood before the
/// new bar is handed back, for the closed-bar detectors.
pub fn update_series(
    series: &mut Vec<Kline>,
    start_ts: u64,
    price: u64,
    volume: u64,
    max_kline_count: u32,
) -> (closed: Option<Vec<Kline>>)
    ensures
        final(series)@ == series_step(old(series)@, start_ts, price, volume, max_kline_count as nat),
        match closed {
            Some(c) => rolls_over(old(series)@, start_ts) && c@ == old(series)@,
            None => !rolls_over(old(series)@, start_ts),
        },
{
    let n = series.len();
    if n == 0 {
        series.push(Kline::new(start_ts, price, volume));
        assert(series@ =~= seq![fresh_kline(start_ts, price, volume)]);
        return None;
    }
    if series[n - 1].start_ts == start_ts {
        let mut last = series[n - 1];
        last.update(price, volume);
        series.set(n - 1, last);
        return None;
    }
    let snapshot = copy_series(series);
    series.push(Kline::new(start_ts, price, volume));
    if series.len() > max_kline_count as usize {
        series.remove(0);
        assert(series@ =~= old(series)@.push(fresh_kline(start_ts, price, volume)).drop_first());
    }
    Some(snapshot)
}

/// An owned copy of a series.
pub fn copy_series(s: &Vec<Kline>) -> (r: Vec<Kline>)
    ensures
        r@ == s@,
{
    let mut r: Vec<Kline> = Vec::new();
    let mut i: usize = 0;
    while i < s.len()
        invariant
            i <= s.len(),
            r@ == s@.take(i as int),
        decreases s.len() - i,
    {
        r.push(s[i]);
        assert(s@.take(i + 1) =~= s@.take(i as int).push(s@[i as int]));
        i = i + 1;
    }
    assert(s@.take(s.len() as int) =~= s@);
    r
}

proof fn lemma_aligned_after(a: u64, ts: u64, interval: Interval)
    requires
        a % interval_millis(interval) == 0,
        a <= ts,
    ensures
        a <= aligned(ts, interval),
        aligned(ts, interval) % interval_millis(interval) == 0,
{
    let w = interval_millis(interval) as int;
    let t = ts as int;
    let x = a as int;
    vstd::arithmetic::div_mod::lemma_fundamental_div_mod(t, w);
    vstd::arithmetic::div_mod::lemma_fundamental_div_mod(x, w);
    vstd::arithmetic::div_mod::lemma_mod_multiples_basic(t / w, w);
    vstd::arithmetic::div_mod::lemma_mod_decreases(t as nat, w as nat);
    vstd::arithmetic::div_mod::lemma_div_is_ordered(x, t, w);
    assert(t - t % w == (t / w) * w) by (nonlinear_arith)
        requires
            t == w * (t / w) + t % w,
    ;
    assert((x / w) * w <= (t / w) * w) by (nonlinear_arith)
        requires
            x / w <= t / w,
            w > 0,
    ;
    assert(x == (x / w) * w) by (nonlinear_arith)
        requires
            x == w * (x / w) + x % w,
            x % w == 0,
    ;
}

/// A trade that is not older than the last bar keeps a series well formed: every
/// bar stays bounded and aligned, start times keep increasing, and the series
/// stays within its cap.
pub proof fn lemma_series_step_wf(
    s: Seq<Kline>,
    interval: Interval,
    ts: u64,
    price: u64,
    volume: u64,
    cap: nat,
)
    requires
        series_wf(s, interval, cap),
        cap >= 1,
        s.len() > 0 ==> s.last().start_ts <= ts,
    ensures
        series_wf(series_step(s, aligned(ts, interval), price, volume, cap), interval, cap),
{
    let start = aligned(ts, interval);
    if s.len() == 0 {
        crate::helper::lemma_aligned_props(ts, interval);
        let r = series_step(s, start, price, volume, cap);
        assert(r[0] == fresh_kline(start, price, volume));
    } else {
        lemma_aligned_after(s.last().start_ts, ts, interval);
        let r = series_step(s, start, price, volume, cap);
        if s.last().start_ts == start {
            assert(kline_bounded(s[s.len() - 1]));
            assert forall|i: int| 0 <= i < r.len() implies kline_bounded(#[trigger] r[i]) by {
                if i < s.len() - 1 {
                    assert(r[i] == s[i]);
                }
            }
            assert forall|i: int, j: int| 0 <= i < j < r.len() implies (#[trigger] r[i]).start_ts
                < (#[trigger] r[j]).start_ts by {
                assert(s[i].start_ts < s[j].start_ts);
            }
            assert forall|i: int| 0 <= i < r.len() implies (#[trigger] r[i]).start_ts
                % interval_millis(interval) == 0 by {
                assert(s[i].start_ts % interval_millis(interval) == 0);
            }
        } else {
            let t = s.push(fresh_kline(start, price, volume));
            assert(s[s.len() - 1].start_ts < start);
            assert forall|i: int, j: int| 0 <= i < j < t.len() implies (#[trigger] t[i]).start_ts
                < (#[trigger] t[j]).start_ts by {
                if j < s.len() {
                    assert(s[i].start_ts < s[j].start_ts);
                } else if i < s.len() - 1 {
                    assert(s[i].start_ts < s[s.len() - 1].start_ts);
                }
            }
            assert forall|i: int| 0 <= i < t.len() implies kline_bounded(#[trigger] t[i]) by {
                if i < s.len() {
                    assert(t[i] == s[i]);
                }
            }
            assert forall|i: int| 0 <= i < t.len() implies (#[trigger] t[i]).start_ts
                % interval_millis(interval) == 0 by {
                if i < s.len() {
                    assert(t[i] == s[i]);
                }
            }
            if t.len() > cap {
                let d = t.drop_first();
                assert forall|i: int, j: int| 0 <= i < j < d.len() implies (#[trigger] d[i]).start_ts
                    < (#[trigger] d[j]).start_ts by {
                    assert(t[i + 1].start_ts < t[j + 1].start_ts);
                }
                assert forall|i: int| 0 <= i < d.len() implies kline_bounded(#[trigger] d[i])
                    && d[i].start_ts % interval_millis(interval) == 0 by {
                    assert(d[i] == t[i + 1]);
                }
            }
        }
    }
}

/// Any trade, in or out of time order, keeps every bar of a series bounded and
/// aligned, and the series within its cap.
pub proof fn lemma_series_step_shape(
    s: Seq<Kline>,
    interval: Interval,
    ts: u64,
    price: u64,
    volume: u64,
    cap: nat,
)
    requires
        series_shape(s, interval, cap),
        cap >= 1,
    ensures
        series_shape(series_step(s, aligned(ts, interval), price, volume, cap), interval, cap),
{
    let start = aligned(ts, interval);
    crate::helper::lemma_aligned_props(ts, interval);
    let r = series_step(s, start, price, volume, cap);
    if s.len() == 0 {
        assert(r[0] == fresh_kline(start, price, volume));
    } else if s.last().start_ts == start {
        assert(kline_bounded(s[s.len() - 1]));
        assert forall|i: int| 0 <= i < r.len() implies kline_bounded(#[trigger] r[i])
            && r[i].start_ts % interval_millis(interval) == 0 by {
            assert(s[i].start_ts % interval_millis(interval) == 0);
            if i < s.len() - 1 {
                assert(r[i] == s[i]);
            }
        }
    } else {
        let t = s.push(fresh_kline(start, price, volume));
        assert forall|i: int| 0 <= i < t.len() implies kline_bounded(#[trigger] t[i])
            && t[i].start_ts % interval_millis(interval) == 0 by {
            if i < s.len() {
                assert(t[i] == s[i]);
            }
        }
        if t.len() > cap {
            let d = t.drop_first();
            assert forall|i: int| 0 <= i < d.len() implies kline_bounded(#[trigger] d[i])
                && d[i].start_ts % interval_millis(interval) == 0 by {
                assert(d[i] == t[i + 1]);
            }
        }
    }
}

/// A trade in the bucket right after the current bar's opens a bar exactly one
/// interval width after it: with no idle bucket between trades, adjacent bars
/// are one width apart.
pub proof fn lemma_series_step_next_bucket(
    s: Seq<Kline>,
    interval: Interval,
    ts: u64,
    price: u64,
    volume: u64,
    cap: nat,
)
    requires
        s.len() > 0,
        cap >= 2,
        aligned(ts, interval) == s.last().start_ts + interval_millis(interval),
    ensures
        ({
            let r = series_step(s, aligned(ts, interval), price, volume, cap);
            &&& r.len() >= 2
            &&& r.last().start_ts == r[r.len() - 2].start_ts + interval_millis(interval)
        }),
{
    let start = aligned(ts, interval);
    let t = s.push(fresh_kline(start, price, volume));
    assert(t[t.len() - 2] == s.last());
    if t.len() > cap {
        let d = t.drop_first();
        assert(d[d.len() - 2] == t[t.len() - 2]);
        assert(d.last() == t.last());
    }
}

/// In a well-formed series, adjacent bars are a whole, positive number of
/// interval widths apart; bars are never synthesised for buckets without trades,
/// so the gap is one width exactly when every bucket in between saw a trade.
pub proof fn lemma_series_adjacent(s: Seq<Kline>, interval: Interval, cap: nat, i: int)
    requires
        series_wf(s, interval, cap),
        0 <= i < s.len() - 1,
    ensures
        (s[i + 1].start_ts - s[i].start_ts) % (interval_millis(interval) as int) == 0,
        s[i + 1].start_ts >= s[i].start_ts + interval_millis(interval),
{
    let w = interval_millis(interval) as int;
    let a = s[i].start_ts as int;
    let b = s[i + 1].start_ts as int;
    assert(a < b);
    assert(a % w == 0);
    assert(b % w == 0);
    vstd::arithmetic::div_mod::lemma_fundamental_div_mod(a, w);
    vstd::arithmetic::div_mod::lemma_fundamental_div_mod(b, w);
    assert(b - a == w * (b / w - a / w)) by (nonlinear_arith)
        requires
            a == w * (a / w) + a % w,
            b == w * (b / w) + b % w,
            a % w == 0,
            b % w == 0,
    ;
    vstd::arithmetic::div_mod::lemma_mod_multiples_basic(b / w - a / w, w);
    assert(b / w - a / w >= 1) by (nonlinear_arith)
        requires
            b - a == w * (b / w - a / w),
            b - a > 0,
            w > 0,
    ;
    assert(b - a >= w) by (nonlinear_arith)
        requires
            b - a == w * (b / w - a / w),
            b / w - a / w >= 1,
            w > 0,
    ;
}

} // verus!
