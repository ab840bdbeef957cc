use crate::types::{interval_millis, Interval};
use vstd::prelude::*;

verus! {

/// Start of the bucket of `interval` that holds the millisecond timestamp `ts`.
pub open spec fn aligned(ts: u64, interval: Interval) -> u64 {
    (ts - ts % interval_millis(interval)) as u64
}

pub fn align_ts(ts: u64, interval: Interval) -> (r: u64)
    ensures
        r == aligned(ts, interval),
        r <= ts,
        r % interval_millis(interval) == 0,
        ts - r < interval_millis(interval),
{
    let width = interval.seconds() * 1000;
    proof {
        lemma_align(ts as int, width as int);
    }
    ts - (ts % width)
}

/// An aligned bucket start is a multiple of the width, at most `ts`.
pub proof fn lemma_aligned_props(ts: u64, interval: Interval)
    ensures
        aligned(ts, interval) <= ts,
        aligned(ts, interval) % interval_millis(interval) == 0,
{
    lemma_align(ts as int, interval_millis(interval) as int);
}

proof fn lemma_align(ts: int, w: int)
    requires
        ts >= 0,
        w > 0,
    ensures
        0 <= ts % w < w,
        ts % w <= ts,
        (ts - ts % w) % w == 0,
{
    vstd::arithmetic::div_mod::lemma_fundamental_div_mod(ts, w);
    vstd::arithmetic::div_mod::lemma_mod_decreases(ts as nat, w as nat);
    vstd::arithmetic::div_mod::lemma_mod_multiples_basic(ts / w, w);
    assert(ts - ts % w == (ts / w) * w) by (nonlinear_arith)
        requires
            ts == w * (ts / w) + ts % w,
    ;
}

/// Hash that fxhash's `hash64` gives to the UTF-8 bytes of a symbol.
pub uninterp spec fn fx_hash64_of(s: Seq<char>) -> u64;

/// Relies on `fxhash::hash64` over the symbol's bytes: an unseeded hash, so its
/// value depends on those bytes alone.
#[verifier::external_body]
fn symbol_hash(symbol: &str) -> (r: u64)
    ensures
        r == fx_hash64_of(symbol@),
{
    fxhash::hash64(symbol.as_bytes())
}

/// The shard that owns a symbol: a stable hash of the symbol modulo the worker count.
pub open spec fn shard_of(symbol: Seq<char>, worker_count: usize) -> usize
    recommends
        worker_count > 0,
{
    (fx_hash64_of(symbol) % (worker_count as u64)) as usize
}

pub fn assign_worker(symbol: &str, worker_count: usize) -> (r: usize)
    requires
        worker_count > 0,
    ensures
        r == shard_of(symbol@, worker_count),
        r < worker_count,
{
    (symbol_hash(symbol) % worker_count as u64) as usize
}

/// A symbol is always owned by the same shard: two records whose symbols are
/// equal are routed to one worker, and that shard is a valid worker index.
pub proof fn lemma_shard_stable(a: Seq<char>, b: Seq<char>, worker_count: usize)
    requires
        worker_count > 0,
        a == b,
    ensures
        shard_of(a, worker_count) == shard_of(b, worker_count),
        shard_of(a, worker_count) < worker_count,
{
}

} // verus!
