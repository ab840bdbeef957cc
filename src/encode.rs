use crate::decimal::SCALE;
use crate::types::{Event, EventType, EventValue};
use vstd::prelude::*;
use vstd::utf8::encode_utf8;

verus! {

/// Lower-case hexadecimal digit of a value below 16.
pub open spec fn hex_digit(d: u8) -> u8 {
    if d < 10 {
        (48 + d) as u8
    } else {
        (87 + d) as u8
    }
}

/// How one byte of a string is written inside a JSON string literal: quote and
/// backslash escaped, control characters by their short escape or `\u00XX`, all
/// other bytes (UTF-8 continuation bytes included) as they are.
pub open spec fn escape_byte(c: u8) -> Seq<u8> {
    if c == 34 {
        seq![92u8, 34u8]
    } else if c == 92 {
        seq![92u8, 92u8]
    } else if c == 8 {
        seq![92u8, 98u8]
    } else if c == 12 {
        seq![92u8, 102u8]
    } else if c == 10 {
        seq![92u8, 110u8]
    } else if c == 13 {
        seq![92u8, 114u8]
    } else if c == 9 {
        seq![92u8, 116u8]
    } else if c < 32 {
        seq![92u8, 117u8, 48u8, 48u8, hex_digit(c / 16), hex_digit(c % 16)]
    } else {
        seq![c]
    }
}

pub open spec fn escaped(b: Seq<u8>) -> Seq<u8>
    decreases b.len(),
{
    if b.len() == 0 {
        Seq::empty()
    } else {
        escaped(b.drop_last()) + escape_byte(b.last())
    }
}

/// A string as a JSON string literal.
pub open spec fn json_string(s: Seq<char>) -> Seq<u8> {
    seq![34u8] + escaped(encode_utf8(s)) + seq![34u8]
}

/// Decimal digits of a natural number, without leading zeros.
pub open spec fn decimal_digits(n: nat) -> Seq<u8>
    decreases n,
{
    if n < 10 {
        seq![(48 + n) as u8]
    } else {
        decimal_digits(n / 10).push((48 + n % 10) as u8)
    }
}

/// The last `k` decimal digits of `n`, zero-padded.
pub open spec fn padded_digits(n: nat, k: nat) -> Seq<u8>
    decreases k,
{
    if k == 0 {
        Seq::empty()
    } else {
        padded_digits(n / 10, (k - 1) as nat).push((48 + n % 10) as u8)
    }
}

/// A fixed-point amount in units of 10^-8, written with eight decimals.
pub open spec fn fixed_text(n: nat) -> Seq<u8> {
    decimal_digits(n / (SCALE as nat)) + seq![46u8] + padded_digits(n % (SCALE as nat), 8)
}

pub open spec fn signed_text(d: i8) -> Seq<u8> {
    if d < 0 {
        seq![45u8] + decimal_digits((-d) as nat)
    } else {
        decimal_digits(d as nat)
    }
}

pub open spec fn text(s: &str) -> Seq<u8> {
    encode_utf8(s@)
}

pub open spec fn event_type_name(t: EventType) -> Seq<u8> {
    match t {
        EventType::ConsecutiveMove => text("\"ConsecutiveMove\""),
        EventType::VolatilitySpike => text("\"VolatilitySpike\""),
        EventType::FundingRate => text("\"FundingRate\""),
    }
}

/// The detector payload as a JSON object, keys in lexicographic order.
pub open spec fn value_json(v: EventValue) -> Seq<u8> {
    match v {
        EventValue::VolatilitySpike { amplitude, avg_amplitude, volume, turnover, direction } => text(
            "{\"amplitude\":",
        ) + fixed_text(amplitude as nat) + text(",\"avg_amplitude\":") + fixed_text(
            avg_amplitude as nat,
        ) + text(",\"direction\":") + signed_text(direction) + text(",\"turnover\":")
            + json_string(turnover@) + text(",\"volume\":") + fixed_text(volume as nat) + text(
            "}",
        ),
        EventValue::ConsecutiveMove { count, turnover, direction } => text("{\"count\":")
            + decimal_digits(count as nat) + text(",\"direction\":") + signed_text(direction)
            + text(",\"turnover\":") + json_string(turnover@) + text("}"),
        EventValue::FundingRate { funding_rate, next_funding_time } => text("{\"funding_rate\":")
            + json_string(funding_rate@) + text(",\"next_funding_time\":") + decimal_digits(
            next_funding_time as nat,
        ) + text("}"),
    }
}

/// The event as a JSON object, as UTF-8 text.
pub open spec fn event_json(e: Event) -> Seq<u8> {
    text("{\"symbol\":") + json_string(e.symbol@) + text(",\"event_type\":") + event_type_name(
        e.event_type,
    ) + text(",\"period\":") + json_string(e.period@) + text(",\"value\":") + value_json(e.value)
        + text(",\"timestamp\":") + decimal_digits(e.timestamp as nat) + text("}")
}

fn push_all(out: &mut Vec<u8>, b: &[u8])
    ensures
        final(out)@ == old(out)@ + b@,
{
    let mut i: usize = 0;
    while i < b.len()
        invariant
            i <= b@.len(),
            out@ == old(out)@ + b@.take(i as int),
        decreases b@.len() - i,
    {
        out.push(b[i]);
        assert(b@.take(i + 1) =~= b@.take(i as int).push(b@[i as int]));
        i = i + 1;
    }
    assert(b@.take(b@.len() as int) =~= b@);
}

fn push_text(out: &mut Vec<u8>, s: &str)
    ensures
        final(out)@ == old(out)@ + text(s),
{
    push_all(out, s.as_bytes());
}

fn hex(d: u8) -> (r: u8)
    requires
        d < 16,
    ensures
        r == hex_digit(d),
{
    if d < 10 {
        48 + d
    } else {
        87 + d
    }
}

fn push_escaped_byte(out: &mut Vec<u8>, c: u8)
    ensures
        final(out)@ == old(out)@ + escape_byte(c),
{
    let ghost before = out@;
    if c == 34 || c == 92 {
        out.push(92);
        out.push(c);
    } else if c == 8 {
        out.push(92);
        out.push(98);
    } else if c == 12 {
        out.push(92);
        out.push(102);
    } else if c == 10 {
        out.push(92);
        out.push(110);
    } else if c == 13 {
        out.push(92);
        out.push(114);
    } else if c == 9 {
        out.push(92);
        out.push(116);
    } else if c < 32 {
        out.push(92);
        out.push(117);
        out.push(48);
        out.push(48);
        out.push(hex(c / 16));
        out.push(hex(c % 16));
    } else {
        out.push(c);
    }
    assert(out@ =~= before + escape_byte(c));
}

fn push_json_string(out: &mut Vec<u8>, s: &str)
    ensures
        final(out)@ == old(out)@ + json_string(s@),
{
    let b = s.as_bytes();
    out.push(34);
    let ghost start = out@;
    let mut i: usize = 0;
    while i < b.len()
        invariant
            i <= b@.len(),
            b@ == encode_utf8(s@),
            start == old(out)@.push(34u8),
            out@ == start + escaped(b@.take(i as int)),
        decreases b@.len() - i,
    {
        proof {
            assert(b@.take(i + 1).drop_last() =~= b@.take(i as int));
            assert(b@.take(i + 1).last() == b@[i as int]);
        }
        push_escaped_byte(out, b[i]);
        proof {
            assert(out@ =~= start + escaped(b@.take(i + 1)));
        }
        i = i + 1;
    }
    assert(b@.take(b@.len() as int) =~= b@);
    out.push(34);
    assert(out@ =~= old(out)@ + json_string(s@));
}

fn push_decimal(out: &mut Vec<u8>, n: u128)
    ensures
        final(out)@ == old(out)@ + decimal_digits(n as nat),
    decreases n,
{
    if n >= 10 {
        push_decimal(out, n / 10);
    }
    out.push((48 + n % 10) as u8);
    assert(out@ =~= old(out)@ + decimal_digits(n as nat));
}

fn push_padded(out: &mut Vec<u8>, n: u128, k: u32)
    ensures
        final(out)@ == old(out)@ + padded_digits(n as nat, k as nat),
    decreases k,
{
    if k > 0 {
        push_padded(out, n / 10, k - 1);
        out.push((48 + n % 10) as u8);
        assert(out@ =~= old(out)@ + padded_digits(n as nat, k as nat));
    } else {
        assert(out@ =~= old(out)@ + padded_digits(n as nat, k as nat));
    }
}

fn push_fixed(out: &mut Vec<u8>, n: u128)
    ensures
        final(out)@ == old(out)@ + fixed_text(n as nat),
{
    push_decimal(out, n / SCALE as u128);
    out.push(46);
    push_padded(out, n % SCALE as u128, 8);
    assert(out@ =~= old(out)@ + fixed_text(n as nat));
}

fn push_signed(out: &mut Vec<u8>, d: i8)
    ensures
        final(out)@ == old(out)@ + signed_text(d),
{
    if d < 0 {
        out.push(45);
        push_decimal(out, (-(d as i16)) as u128);
    } else {
        push_decimal(out, d as u128);
    }
    assert(out@ =~= old(out)@ + signed_text(d));
}

fn push_value(out: &mut Vec<u8>, v: &EventValue)
    ensures
        final(out)@ == old(out)@ + value_json(*v),
{
    let ghost before = out@;
    match v {
        EventValue::VolatilitySpike { amplitude, avg_amplitude, volume, turnover, direction } => {
            push_text(out, "{\"amplitude\":");
            push_fixed(out, *amplitude);
            push_text(out, ",\"avg_amplitude\":");
            push_fixed(out, *avg_amplitude);
            push_text(out, ",\"direction\":");
            push_signed(out, *direction);
            push_text(out, ",\"turnover\":");
            push_json_string(out, turnover.as_str());
            push_text(out, ",\"volume\":");
            push_fixed(out, *volume as u128);
            push_text(out, "}");
        },
        EventValue::ConsecutiveMove { count, turnover, direction } => {
            push_text(out, "{\"count\":");
            push_decimal(out, *count as u128);
            push_text(out, ",\"direction\":");
            push_signed(out, *direction);
            push_text(out, ",\"turnover\":");
            push_json_string(out, turnover.as_str());
            push_text(out, "}");
        },
        EventValue::FundingRate { funding_rate, next_funding_time } => {
            push_text(out, "{\"funding_rate\":");
            push_json_string(out, funding_rate.as_str());
            push_text(out, ",\"next_funding_time\":");
            push_decimal(out, *next_funding_time as u128);
            push_text(out, "}");
        },
    }
    assert(out@ =~= before + value_json(*v));
}

impl Event {
    /// The event as a JSON object, in UTF-8: `symbol`, `event_type`, `period`,
    /// `value` and `timestamp`, with fixed-point amounts written with eight decimals.
    pub fn to_json(&self) -> (r: Vec<u8>)
        ensures
            r@ == event_json(*self),
    {
        let mut out: Vec<u8> = Vec::new();
        push_text(&mut out, "{\"symbol\":");
        push_json_string(&mut out, self.symbol.as_str());
        push_text(&mut out, ",\"event_type\":");
        match self.event_type {
            EventType::ConsecutiveMove => push_text(&mut out, "\"ConsecutiveMove\""),
            EventType::VolatilitySpike => push_text(&mut out, "\"VolatilitySpike\""),
            EventType::FundingRate => push_text(&mut out, "\"FundingRate\""),
        }
        push_text(&mut out, ",\"period\":");
        push_json_string(&mut out, self.period.as_str());
        push_text(&mut out, ",\"value\":");
        push_value(&mut out, &self.value);
        push_text(&mut out, ",\"timestamp\":");
        push_decimal(&mut out, self.timestamp as u128);
        push_text(&mut out, "}");
        assert(out@ =~= event_json(*self));
        out
    }
}

} // verus!
