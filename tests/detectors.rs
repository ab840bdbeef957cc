use perpx::decimal::SCALE;
use perpx::detectors::{process_consecutive_move, process_funding_rate, process_volatility_spike};
use perpx::types::{EventType, EventValue, Interval, Kline};

fn bar(ts: u64, open: u64, high: u64, low: u64, close: u64) -> Kline {
    Kline { open, high, low, close, volume: 42, start_ts: ts }
}

fn closes(cs: &[u64]) -> Vec<Kline> {
    cs.iter()
        .enumerate()
        .map(|(k, c)| bar(k as u64 * 300_000, c * SCALE, c * SCALE, c * SCALE, c * SCALE))
        .collect()
}

fn spike_bars(last_close: u64) -> Vec<Kline> {
    // amplitudes 0.001, 0.001, 0.001 and 0.010 around an open of 100
    let o = 100 * SCALE;
    vec![
        bar(0, o, o + SCALE / 10, o, o),
        bar(300_000, o, o + SCALE / 10, o, o),
        bar(600_000, o, o + SCALE / 10, o, 100 * SCALE),
        bar(900_000, o, o + SCALE, o, last_close),
    ]
}

#[test]
fn volatility_spike_positive() {
    let e = process_volatility_spike("BTCUSDT".to_string(), Interval::Min5, spike_bars(101 * SCALE), "999.5".to_string())
        .expect("spike");
    assert_eq!(e.symbol, "BTCUSDT");
    assert_eq!(e.event_type, EventType::VolatilitySpike);
    assert_eq!(e.period, "5m");
    assert_eq!(e.timestamp, 900_000);
    match e.value {
        EventValue::VolatilitySpike { amplitude, avg_amplitude, volume, turnover, direction } => {
            assert_eq!(amplitude, 1_000_000);
            assert_eq!(avg_amplitude, 100_000);
            assert_eq!(volume, 42);
            assert_eq!(turnover, "999.5");
            assert_eq!(direction, 1);
        }
        _ => panic!("wrong payload"),
    }
}

#[test]
fn volatility_spike_down_direction() {
    let e = process_volatility_spike("X".to_string(), Interval::Hour1, spike_bars(99 * SCALE), String::new()).unwrap();
    assert_eq!(e.period, "1h");
    match e.value {
        EventValue::VolatilitySpike { direction, .. } => assert_eq!(direction, -1),
        _ => panic!("wrong payload"),
    }
}

#[test]
fn volatility_needs_four_bars() {
    let mut bars = spike_bars(101 * SCALE);
    bars.remove(0);
    assert!(process_volatility_spike("X".to_string(), Interval::Min5, bars, String::new()).is_none());
}

#[test]
fn volatility_not_twice_the_average() {
    let o = 100 * SCALE;
    let bars = vec![
        bar(0, o, o + SCALE, o, o),
        bar(1, o, o + SCALE, o, o),
        bar(2, o, o + SCALE, o, o),
        bar(3, o, o + 2 * SCALE, o, o),
    ];
    assert!(process_volatility_spike("X".to_string(), Interval::Min5, bars, String::new()).is_none());
}

#[test]
fn volatility_tiny_amplitude_ignored() {
    let o = 100 * SCALE;
    // history flat, current amplitude exactly 0.0001: not above the floor
    let bars = vec![bar(0, o, o, o, o), bar(1, o, o, o, o), bar(2, o, o, o, o), bar(3, o, o + SCALE / 100, o, o)];
    assert!(process_volatility_spike("X".to_string(), Interval::Min5, bars, String::new()).is_none());
}

#[test]
fn volatility_zero_open_skipped() {
    let mut bars = spike_bars(101 * SCALE);
    bars[1] = bar(300_000, 0, 5, 0, 1);
    assert!(process_volatility_spike("X".to_string(), Interval::Min5, bars, String::new()).is_none());
}

#[test]
fn consecutive_move_negative_trend_count() {
    let none = process_consecutive_move("BTCUSDT".to_string(), Interval::Min15, closes(&[120, 118, 115, 110, 113]), "1".to_string());
    assert!(none.is_none());
    let e = process_consecutive_move("BTCUSDT".to_string(), Interval::Min15, closes(&[120, 118, 115, 110, 109]), "1".to_string())
        .expect("run of five");
    assert_eq!(e.event_type, EventType::ConsecutiveMove);
    assert_eq!(e.period, "15m");
    assert_eq!(e.timestamp, 4 * 300_000);
    match e.value {
        EventValue::ConsecutiveMove { count, turnover, direction } => {
            assert_eq!(count, 5);
            assert_eq!(turnover, "1");
            assert_eq!(direction, -1);
        }
        _ => panic!("wrong payload"),
    }
}

#[test]
fn consecutive_move_equal_closes_keep_trend() {
    let e = process_consecutive_move("X".to_string(), Interval::Min5, closes(&[1, 2, 2, 3]), String::new()).unwrap();
    match e.value {
        EventValue::ConsecutiveMove { count, direction, .. } => {
            assert_eq!(count, 4);
            assert_eq!(direction, 1);
        }
        _ => panic!("wrong payload"),
    }
}

#[test]
fn consecutive_move_looks_at_ten_bars_at_most() {
    let cs: Vec<u64> = (1..=15).collect();
    let e = process_consecutive_move("X".to_string(), Interval::Hour4, closes(&cs), String::new()).unwrap();
    match e.value {
        EventValue::ConsecutiveMove { count, .. } => assert_eq!(count, 10),
        _ => panic!("wrong payload"),
    }
}

#[test]
fn consecutive_move_needs_three_bars() {
    assert!(process_consecutive_move("X".to_string(), Interval::Min5, closes(&[1, 2]), String::new()).is_none());
    assert!(process_consecutive_move("X".to_string(), Interval::Min5, closes(&[]), String::new()).is_none());
}

#[test]
fn funding_event_fields() {
    let e = process_funding_rate("BTCUSDT".to_string(), 1000, "0.00050000".to_string(), 1_700_006_400_000);
    assert_eq!(e.symbol, "BTCUSDT");
    assert_eq!(e.event_type, EventType::FundingRate);
    assert_eq!(e.period, "");
    assert_eq!(e.timestamp, 1000);
    match e.value {
        EventValue::FundingRate { funding_rate, next_funding_time } => {
            assert_eq!(funding_rate, "0.00050000");
            assert_eq!(next_funding_time, 1_700_006_400_000);
        }
        _ => panic!("wrong payload"),
    }
}

#[test]
fn funding_event_json() {
    let e = process_funding_rate("BTCUSDT".to_string(), 1000, "0.00050000".to_string(), 1_700_006_400_000);
    assert_eq!(
        String::from_utf8(e.to_json()).unwrap(),
        r#"{"symbol":"BTCUSDT","event_type":"FundingRate","period":"","value":{"funding_rate":"0.00050000","next_funding_time":1700006400000},"timestamp":1000}"#
    );
}

#[test]
fn spike_event_json() {
    let e = process_volatility_spike("BTCUSDT".to_string(), Interval::Min5, spike_bars(99 * SCALE), "999.5".to_string()).unwrap();
    assert_eq!(
        String::from_utf8(e.to_json()).unwrap(),
        r#"{"symbol":"BTCUSDT","event_type":"VolatilitySpike","period":"5m","value":{"amplitude":0.01000000,"avg_amplitude":0.00100000,"direction":-1,"turnover":"999.5","volume":0.00000042},"timestamp":900000}"#
    );
}

#[test]
fn move_event_json_escapes_strings() {
    let e = process_consecutive_move("A\"B\\C\n\u{1}é".to_string(), Interval::Hour4, closes(&[3, 2, 1]), "t\tx".to_string()).unwrap();
    let text = String::from_utf8(e.to_json()).unwrap();
    assert_eq!(
        text,
        "{\"symbol\":\"A\\\"B\\\\C\\n\\u0001é\",\"event_type\":\"ConsecutiveMove\",\"period\":\"4h\",\"value\":{\"count\":3,\"direction\":-1,\"turnover\":\"t\\tx\"},\"timestamp\":600000}"
    );
    let parsed: serde_json::Value = serde_json::from_str(&text).unwrap();
    assert_eq!(parsed["symbol"], "A\"B\\C\n\u{1}é");
    assert_eq!(parsed["value"]["count"], 3);
}
