use perpx::aggregator::{copy_series, update_series};
use perpx::config::FundingRateConfig;
use perpx::decimal::SCALE;
use perpx::helper::align_ts;
use perpx::types::{Interval, Kline, Ticker};
use perpx::worker::{SymbolKlines, Worker};

fn cfg() -> FundingRateConfig {
    FundingRateConfig { min_funding_rate: 10_000, min_funding_rate_change: 10_000, funding_rate_interval: 60 }
}

fn ticker(symbol: &str, ts: u64, price: &str) -> Ticker {
    Ticker {
        event_type: "24hrTicker".to_string(),
        event_time: ts,
        symbol: symbol.to_string(),
        last_price: price.to_string(),
        volume: "1".to_string(),
        turnover: "123456.78".to_string(),
    }
}

fn entry<'a>(w: &'a Worker, symbol: &str) -> &'a SymbolKlines {
    w.symbols.iter().find(|e| e.symbol == symbol).expect("symbol has series")
}

fn all_series(e: &SymbolKlines) -> Vec<(Interval, &Vec<Kline>)> {
    vec![
        (Interval::Min5, &e.min5),
        (Interval::Min15, &e.min15),
        (Interval::Hour1, &e.hour1),
        (Interval::Hour4, &e.hour4),
    ]
}

#[test]
fn ohlc_update_on_single_bar() {
    let mut w = Worker::new(5, cfg());
    assert!(w.on_ticker(&ticker("BTCUSDT", 1_700_000_001_000, "100")).is_empty());
    assert!(w.on_ticker(&ticker("BTCUSDT", 1_700_000_050_000, "105")).is_empty());
    assert!(w.on_ticker(&ticker("BTCUSDT", 1_700_000_099_000, "98")).is_empty());
    let e = entry(&w, "BTCUSDT");
    assert_eq!(e.min5.len(), 1);
    let k = e.min5[0];
    assert_eq!(k.start_ts, 1_699_999_800_000);
    assert_eq!(k.open, 100 * SCALE);
    assert_eq!(k.high, 105 * SCALE);
    assert_eq!(k.low, 98 * SCALE);
    assert_eq!(k.close, 98 * SCALE);
    assert_eq!(k.volume, 3 * SCALE);
}

#[test]
fn ohlc_tick_on_bucket_boundary_opens_next_bar() {
    // 1_700_000_100_000 is itself a multiple of five minutes, so the third trade
    // belongs to the next 5m bucket.
    let mut w = Worker::new(5, cfg());
    w.on_ticker(&ticker("BTCUSDT", 1_700_000_001_000, "100"));
    w.on_ticker(&ticker("BTCUSDT", 1_700_000_050_000, "105"));
    let closed = w.on_ticker(&ticker("BTCUSDT", 1_700_000_100_000, "98"));
    let e = entry(&w, "BTCUSDT");
    assert_eq!(e.min5.len(), 2);
    let k = e.min5[0];
    assert_eq!(k.start_ts, 1_699_999_800_000);
    assert_eq!((k.open, k.high, k.low, k.close), (100 * SCALE, 105 * SCALE, 100 * SCALE, 105 * SCALE));
    let n = e.min5[1];
    assert_eq!(n.start_ts, 1_700_000_100_000);
    assert_eq!((n.open, n.high, n.low, n.close), (98 * SCALE, 98 * SCALE, 98 * SCALE, 98 * SCALE));
    let intervals: Vec<Interval> = closed.iter().map(|c| c.interval).collect();
    assert_eq!(intervals, vec![Interval::Min5, Interval::Min15]);
}

#[test]
fn rollover_triggers_detectors() {
    let mut w = Worker::new(5, cfg());
    assert!(w.on_ticker(&ticker("ETHUSDT", 1_700_000_101_000, "2000")).is_empty());
    assert!(w.on_ticker(&ticker("ETHUSDT", 1_700_000_150_000, "2010")).is_empty());
    let before = entry(&w, "ETHUSDT").min5.clone();
    let closed = w.on_ticker(&ticker("ETHUSDT", 1_700_000_401_000, "2020"));
    assert_eq!(closed.len(), 1);
    assert_eq!(closed[0].interval, Interval::Min5);
    assert_eq!(closed[0].symbol, "ETHUSDT");
    assert_eq!(closed[0].turnover, "123456.78");
    assert_eq!(closed[0].klines, before);
    assert_eq!(closed[0].klines.len(), 1);
    let e = entry(&w, "ETHUSDT");
    assert_eq!(e.min5.len(), 2);
    assert_eq!(e.min5[1].start_ts, 1_700_000_400_000);
    assert_eq!(e.min15.len(), 1);
}

#[test]
fn symbols_are_kept_apart() {
    let mut w = Worker::new(5, cfg());
    w.on_ticker(&ticker("BTCUSDT", 1_700_000_001_000, "100"));
    w.on_ticker(&ticker("ETHUSDT", 1_700_000_002_000, "7"));
    assert_eq!(w.symbols.len(), 2);
    assert_eq!(entry(&w, "BTCUSDT").min5[0].close, 100 * SCALE);
    assert_eq!(entry(&w, "ETHUSDT").min5[0].close, 7 * SCALE);
}

#[test]
fn malformed_price_reads_as_zero() {
    let mut w = Worker::new(5, cfg());
    w.on_ticker(&ticker("BTCUSDT", 1_700_000_001_000, "not a number"));
    let k = entry(&w, "BTCUSDT").min5[0];
    assert_eq!((k.open, k.high, k.low, k.close), (0, 0, 0, 0));
}

#[test]
fn series_stay_bounded_aligned_and_capped() {
    let mut w = Worker::new(4, cfg());
    let prices = ["100", "101.5", "99", "103", "97.25", "110", "88", "100", "100.01", "95"];
    let mut ts: u64 = 1_700_000_000_000;
    for (k, p) in prices.iter().cycle().take(120).enumerate() {
        ts += 37_000 + (k as u64 % 7) * 61_000;
        w.on_ticker(&ticker("SOLUSDT", ts, p));
    }
    let e = entry(&w, "SOLUSDT");
    for (interval, s) in all_series(e) {
        assert!(s.len() <= 4);
        let width = interval.seconds() * 1000;
        for k in s.iter() {
            assert!(k.low <= k.open && k.open <= k.high);
            assert!(k.low <= k.close && k.close <= k.high);
            assert_eq!(k.start_ts % width, 0);
        }
        for pair in s.windows(2) {
            assert!(pair[1].start_ts > pair[0].start_ts);
            assert_eq!((pair[1].start_ts - pair[0].start_ts) % width, 0);
        }
    }
    assert_eq!(e.min5.len(), 4);
}

#[test]
fn adjacent_bars_one_width_apart_without_gaps() {
    let mut w = Worker::new(10, cfg());
    for k in 0..6u64 {
        w.on_ticker(&ticker("XRPUSDT", 1_700_000_100_000 + k * 300_000 + 5_000, "1"));
    }
    let s = &entry(&w, "XRPUSDT").min5;
    assert_eq!(s.len(), 6);
    for pair in s.windows(2) {
        assert_eq!(pair[1].start_ts, pair[0].start_ts + 300_000);
    }
}

#[test]
fn idle_bucket_leaves_a_gap() {
    let mut w = Worker::new(10, cfg());
    w.on_ticker(&ticker("XRPUSDT", 0, "1"));
    w.on_ticker(&ticker("XRPUSDT", 600_000, "1"));
    let s = &entry(&w, "XRPUSDT").min5;
    assert_eq!(s[1].start_ts - s[0].start_ts, 600_000);
}

#[test]
fn update_series_drops_oldest_over_cap() {
    let mut s: Vec<Kline> = Vec::new();
    for k in 0..4u64 {
        update_series(&mut s, k * 300_000, 10, 1, 3);
    }
    assert_eq!(s.len(), 3);
    assert_eq!(s[0].start_ts, 300_000);
    let closed = update_series(&mut s, 1_200_000, 11, 2, 3).expect("rollover");
    assert_eq!(closed.len(), 3);
    assert_eq!(closed[0].start_ts, 300_000);
    assert_eq!(s[0].start_ts, 600_000);
    assert_eq!(s[2].start_ts, 1_200_000);
}

#[test]
fn update_series_same_bucket_updates_last() {
    let mut s: Vec<Kline> = vec![Kline::new(0, 10, 1)];
    assert!(update_series(&mut s, 0, 12, 2, 3).is_none());
    assert!(update_series(&mut s, 0, 9, 4, 3).is_none());
    assert_eq!(s, vec![Kline { open: 10, high: 12, low: 9, close: 9, volume: 7, start_ts: 0 }]);
    assert_eq!(copy_series(&s), s);
}

#[test]
fn kline_update_saturates_volume() {
    let mut k = Kline::new(5, 100, u64::MAX - 1);
    k.update(120, 5);
    assert_eq!(k.volume, u64::MAX);
    assert_eq!((k.open, k.high, k.low, k.close, k.start_ts), (100, 120, 100, 120, 5));
    k.update(80, 0);
    assert_eq!((k.high, k.low, k.close), (120, 80, 80));
}

#[test]
fn align_ts_examples() {
    assert_eq!(align_ts(1_700_000_001_000, Interval::Min5), 1_699_999_800_000);
    assert_eq!(align_ts(1_700_000_001_000, Interval::Min15), 1_699_999_200_000);
    assert_eq!(align_ts(1_700_000_001_000, Interval::Hour1), 1_699_999_200_000);
    assert_eq!(align_ts(1_700_000_001_000, Interval::Hour4), 1_699_992_000_000);
    assert_eq!(align_ts(0, Interval::Hour4), 0);
    assert_eq!(align_ts(u64::MAX, Interval::Min5), u64::MAX - u64::MAX % 300_000);
}

#[test]
fn interval_lookups() {
    let all = [Interval::Min5, Interval::Min15, Interval::Hour1, Interval::Hour4];
    let secs: Vec<u64> = all.iter().map(|i| i.seconds()).collect();
    assert_eq!(secs, vec![300, 900, 3600, 14400]);
    let labels: Vec<String> = all.iter().map(|i| i.to_string()).collect();
    assert_eq!(labels, vec!["5m", "15m", "1h", "4h"]);
}

#[test]
fn out_of_order_ticks_keep_bars_bounded_aligned_and_capped() {
    let mut w = Worker::new(3, cfg());
    let feed: [(u64, &str); 8] = [
        (1_700_000_900_000, "10"),
        (1_700_000_001_000, "12"),
        (1_700_003_000_000, "9.5"),
        (1_699_990_000_000, "11"),
        (1_700_000_950_000, "8"),
        (1_700_100_000_000, "13"),
        (5_000, "7"),
        (1_700_000_001_500, "10.25"),
    ];
    for (ts, p) in feed {
        for closed in w.on_ticker(&ticker("ADAUSDT", ts, p)) {
            assert!(closed.klines.len() <= 3);
        }
    }
    for (interval, s) in all_series(entry(&w, "ADAUSDT")) {
        assert!(!s.is_empty() && s.len() <= 3);
        for k in s.iter() {
            assert!(k.low <= k.open && k.open <= k.high);
            assert!(k.low <= k.close && k.close <= k.high);
            assert_eq!(k.start_ts % (interval.seconds() * 1000), 0);
        }
    }
}
