use perpx::config::Logging;
use perpx::decimal::{parse_decimal, parse_quantity, parse_rate};
use perpx::helper::assign_worker;
use perpx::queue::{message_key, new_message_key, queue_key, stream_kind, StreamKind};
use perpx::types::{MarkPrice, Message, Ticker};

#[test]
fn decimal_examples() {
    assert_eq!(parse_decimal(b"1.5"), Some(150_000_000));
    assert_eq!(parse_decimal(b"-0.0001"), Some(-10_000));
    assert_eq!(parse_decimal(b"+42"), Some(4_200_000_000));
    assert_eq!(parse_decimal(b".25"), Some(25_000_000));
    assert_eq!(parse_decimal(b"7."), Some(700_000_000));
    assert_eq!(parse_decimal(b"0.123456789"), Some(12_345_678));
    assert_eq!(parse_decimal(b"000012"), Some(1_200_000_000));
    assert_eq!(parse_decimal(b"184467440737.09551615"), Some(u64::MAX as i128));
    assert_eq!(parse_decimal(b"-184467440737.09551615"), Some(-(u64::MAX as i128)));
}

#[test]
fn decimal_rejects() {
    for bad in [&b""[..], b"-", b".", b"-.", b"1e5", b"1.2.3", b" 1", b"abc", b"1,5", b"--1", b"184467440737.09551616", b"99999999999999999999999"] {
        assert_eq!(parse_decimal(bad), None, "{:?}", std::str::from_utf8(bad));
    }
}

#[test]
fn quantity_and_rate() {
    assert_eq!(parse_quantity("26000.10"), 2_600_010_000_000);
    assert_eq!(parse_quantity("-3"), 0);
    assert_eq!(parse_quantity("x"), 0);
    assert_eq!(parse_rate("0.00010000"), Some(10_000));
    assert_eq!(parse_rate("-0.0003"), Some(-30_000));
    assert_eq!(parse_rate("184467440737"), None);
    assert_eq!(parse_rate("nan"), None);
}

#[test]
fn decoder_routing_by_stream() {
    assert_eq!(stream_kind(&"!ticker@arr".to_string()), StreamKind::Tickers);
    assert_eq!(stream_kind(&"!markPrice@arr".to_string()), StreamKind::MarkPrices);
    assert_eq!(stream_kind(&"!bookTicker".to_string()), StreamKind::Unknown);
    assert_eq!(stream_kind(&String::new()), StreamKind::Unknown);
}

#[test]
fn sharding_is_stable_and_in_range() {
    for n in [1usize, 2, 3, 8, 1000] {
        let a = assign_worker("BTCUSDT", n);
        assert_eq!(a, assign_worker(&String::from("BTCUSDT"), n));
        assert!(a < n);
    }
    let n = 1_000_003usize;
    assert_eq!(assign_worker("ETHUSDT", n), (fxhash::hash64("ETHUSDT".as_bytes()) % n as u64) as usize);
    let spread: std::collections::HashSet<usize> =
        ["BTCUSDT", "ETHUSDT", "SOLUSDT", "XRPUSDT", "DOGEUSDT", "BNBUSDT"].iter().map(|s| assign_worker(s, n)).collect();
    assert!(spread.len() > 1);
}

#[test]
fn message_symbol() {
    let t = Message::Ticker(Ticker {
        event_type: "24hrTicker".to_string(),
        event_time: 1,
        symbol: "BTCUSDT".to_string(),
        last_price: "1".to_string(),
        volume: "1".to_string(),
        turnover: "1".to_string(),
    });
    let m = Message::MarkPrice(MarkPrice {
        event_type: "markPriceUpdate".to_string(),
        event_time: 1,
        symbol: "ETHUSDT".to_string(),
        funding_rate: "0".to_string(),
        next_funding_time: 2,
    });
    assert_eq!(t.symbol(), "BTCUSDT");
    assert_eq!(m.symbol(), "ETHUSDT");
}

#[test]
fn queue_keys() {
    assert_eq!(message_key("abc"), "perpx:msg:abc");
    assert_eq!(queue_key("events"), "perpx:queue:events");
    let a = new_message_key();
    let b = new_message_key();
    assert!(a.starts_with("perpx:msg:"));
    assert_eq!(a.len(), "perpx:msg:".len() + 36);
    assert_ne!(a, b);
    let id: Vec<char> = a["perpx:msg:".len()..].chars().collect();
    for (i, c) in id.iter().enumerate() {
        if [8, 13, 18, 23].contains(&i) {
            assert_eq!(*c, '-');
        } else {
            assert!(c.is_ascii_digit() || ('a'..='f').contains(c), "{}", a);
        }
    }
    assert_eq!(id[14], '4');
    assert!(['8', '9', 'a', 'b'].contains(&id[19]));
}

#[test]
fn logging_defaults_to_debug() {
    assert_eq!(Logging::default().level, "debug");
}
