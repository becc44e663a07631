//! The wall clock, and the numbers that are drawn from it.

use vstd::prelude::*;

use crate::codec::{le_bytes, le_value, u64_from_le, u64_to_le};

verus! {

/// A distance from the start of 1970.
#[derive(Debug, Clone, Copy, PartialEq, Eq, Structural)]
pub struct Instant {
    pub seconds: u64,
    /// Nanoseconds within the second.
    pub nanos: u32,
}

/// `std::time::SystemTime::elapsed` on `UNIX_EPOCH`: how far the system clock
/// is past the start of 1970, or `None` when it stands before that. The part
/// within the second is less than a whole one, as `Duration::subsec_nanos`
/// promises. Which time it is, no contract can say.
#[verifier::external_body]
fn since_epoch() -> (now: Option<Instant>)
    ensures
        now is Some ==> now->0.nanos < 1_000_000_000,
{
    match std::time::UNIX_EPOCH.elapsed() {
        Ok(d) => Some(Instant { seconds: d.as_secs(), nanos: d.subsec_nanos() }),
        Err(_) => None,
    }
}

/// Whole seconds since the start of 1970; 0 for a clock that stands before.
pub open spec fn seconds_of(now: Option<Instant>) -> u64 {
    match now {
        Some(i) => i.seconds,
        None => 0,
    }
}

/// Whole seconds of an instant; 0 for a clock that stands before 1970.
pub fn whole_seconds(now: Option<Instant>) -> (s: u64)
    ensures
        s == seconds_of(now),
{
    match now {
        Some(i) => i.seconds,
        None => 0,
    }
}

/// The current time in whole seconds since the start of 1970; 0 on a clock that
/// stands before that.
pub fn unix_now_seconds() -> (s: u64)
    ensures
        exists|now: Option<Instant>| s == #[trigger] seconds_of(now),
{
    let now: Option<Instant> = since_epoch();
    let s: u64 = whole_seconds(now);
    proof {
        assert(s == seconds_of(now));
    }
    s
}

/// Nanoseconds since the start of 1970, exactly.
pub open spec fn exact_nanos(now: Option<Instant>) -> nat {
    match now {
        Some(i) => (i.seconds * 1_000_000_000 + i.nanos) as nat,
        None => 0,
    }
}

/// The low 64 bits of the nanoseconds since the start of 1970.
pub fn wrapped_nanos(now: Option<Instant>) -> (n: u64)
    ensures
        n == exact_nanos(now) % 0x1_0000_0000_0000_0000,
{
    match now {
        Some(i) => {
            let whole: u128 = i.seconds as u128 * 1_000_000_000 + i.nanos as u128;
            (whole % 0x1_0000_0000_0000_0000) as u64
        },
        None => 0,
    }
}

/// The nanoseconds since the start of 1970, or the largest number there is.
pub fn capped_nanos(now: Option<Instant>) -> (n: u64)
    ensures
        n == if exact_nanos(now) > u64::MAX {
            u64::MAX as nat
        } else {
            exact_nanos(now)
        },
{
    match now {
        Some(i) => {
            let whole: u128 = i.seconds as u128 * 1_000_000_000 + i.nanos as u128;
            if whole > u64::MAX as u128 {
                u64::MAX
            } else {
                whole as u64
            }
        },
        None => 0,
    }
}

/// The odd number that spreads consecutive counts over the whole range.
pub const SPREAD: u64 = 0x9e37_79b9_7f4a_7c15;

/// A product modulo the range of `u64`.
pub open spec fn wrapped_product(a: u64, b: u64) -> u64 {
    ((a * b) % 0x1_0000_0000_0000_0000) as u64
}

/// A sum modulo the range of `u64`.
pub open spec fn wrapped_sum(a: u64, b: u64) -> u64 {
    ((a + b) % 0x1_0000_0000_0000_0000) as u64
}

/// The lease id of the `seq`th lease, drawn at the time stamp `ts`.
pub open spec fn lease_id_at(ts: u64, seq: u64) -> u64 {
    ts ^ wrapped_product(seq, SPREAD)
}

/// The lease id of the `seq`th lease, drawn at the time stamp `ts`.
pub fn lease_id(ts: u64, seq: u64) -> (id: u64)
    ensures
        id == lease_id_at(ts, seq),
{
    ts ^ seq.wrapping_mul(SPREAD)
}

/// A lease id for a reader pin. `counter` counts the leases of the process.
pub fn next_lease_id(counter: &mut u64) -> (id: u64)
    ensures
        *final(counter) == wrapped_sum(*old(counter), 1),
        exists|ts: u64| id == #[trigger] lease_id_at(ts, *old(counter)),
{
    let seq: u64 = *counter;
    *counter = counter.wrapping_add(1);
    let ts: u64 = wrapped_nanos(since_epoch());
    let id: u64 = lease_id(ts, seq);
    proof {
        assert(id == lease_id_at(ts, seq));
    }
    id
}

/// One output of the mixing function for the state `z`.
pub open spec fn mixed(z: u64) -> u64 {
    let a = wrapped_product(z ^ (z >> 30), 0xBF58_476D_1CE4_E5B9);
    let b = wrapped_product(a ^ (a >> 27), 0x94D0_49BB_1331_11EB);
    b ^ (b >> 31)
}

/// The segment id made from a file's identity, a count and a time stamp: two
/// outputs of the mixing function, one after the other.
pub open spec fn segment_id_at(file_id: Seq<u8>, count: u64, wall: u64) -> Seq<u8> {
    let seed = (le_value(file_id.subrange(0, 8)) as u64) ^ count ^ wall;
    let first = wrapped_sum(seed, SPREAD);
    let second = wrapped_sum(first, SPREAD);
    le_bytes(mixed(first) as nat, 8) + le_bytes(mixed(second) as nat, 8)
}

fn mix(state: u64) -> (z: u64)
    ensures
        z == mixed(state),
{
    let a: u64 = (state ^ (state >> 30)).wrapping_mul(0xBF58_476D_1CE4_E5B9);
    let b: u64 = (a ^ (a >> 27)).wrapping_mul(0x94D0_49BB_1331_11EB);
    b ^ (b >> 31)
}

/// The segment id made from a file's identity, a count and a time stamp.
pub fn segment_id(file_id: &[u8; 16], count: u64, wall: u64) -> (id: [u8; 16])
    ensures
        id@ == segment_id_at(file_id@, count, wall),
{
    let seed: u64 = u64_from_le(file_id.as_slice(), 0) ^ count ^ wall;
    let first: u64 = seed.wrapping_add(SPREAD);
    let second: u64 = first.wrapping_add(SPREAD);
    let a: [u8; 8] = u64_to_le(mix(first));
    let b: [u8; 8] = u64_to_le(mix(second));
    let id: [u8; 16] = [
        a[0], a[1], a[2], a[3], a[4], a[5], a[6], a[7],
        b[0], b[1], b[2], b[3], b[4], b[5], b[6], b[7],
    ];
    proof {
        assert(id@ =~= segment_id_at(file_id@, count, wall));
    }
    id
}

/// A segment id for the store `file_id`. `counter` counts the ids drawn on the
/// handle.
pub fn next_segment_id(file_id: &[u8; 16], counter: &mut u64) -> (id: [u8; 16])
    ensures
        *final(counter) == wrapped_sum(*old(counter), 1),
        exists|wall: u64| id@ == #[trigger] segment_id_at(file_id@, *old(counter), wall),
{
    let count: u64 = *counter;
    *counter = counter.wrapping_add(1);
    let wall: u64 = capped_nanos(since_epoch());
    let id: [u8; 16] = segment_id(file_id, count, wall);
    proof {
        assert(id@ == segment_id_at(file_id@, count, wall));
    }
    id
}

/// The number that undoes a multiplication by [`SPREAD`].
pub const UNSPREAD: u64 = 0xf1de_83e1_9937_733d;

/// Two leases drawn at the same instant never have the same id.
pub proof fn law_leases_of_an_instant_differ(ts: u64, a: u64, b: u64)
    requires
        lease_id_at(ts, a) == lease_id_at(ts, b),
    ensures
        a == b,
{
    let x = wrapped_product(a, SPREAD);
    let y = wrapped_product(b, SPREAD);
    assert(ts ^ x == ts ^ y ==> x == y) by (bit_vector);
    let m = 0x1_0000_0000_0000_0000int;
    let k = SPREAD as int;
    let u = UNSPREAD as int;
    assert((k * u) % m == 1) by (nonlinear_arith)
        requires
            k == 0x9e37_79b9_7f4a_7c15int,
            u == 0xf1de_83e1_9937_733dint,
            m == 0x1_0000_0000_0000_0000int,
    ;
    let d = a - b;
    let ka = a * k;
    let kb = b * k;
    assert(ka % m == kb % m);
    let t = ka / m - kb / m;
    assert(ka - kb == t * m) by (nonlinear_arith)
        requires
            ka % m == kb % m,
            m == 0x1_0000_0000_0000_0000int,
            t == ka / m - kb / m,
    ;
    assert(ka - kb == d * k) by (nonlinear_arith)
        requires
            ka == a * k,
            kb == b * k,
            d == a - b,
    ;
    let q = (k * u) / m;
    assert(k * u == q * m + 1) by (nonlinear_arith)
        requires
            (k * u) % m == 1,
            m == 0x1_0000_0000_0000_0000int,
            q == (k * u) / m,
    ;
    let w = t * u - d * q;
    assert(d == w * m) by (nonlinear_arith)
        requires
            d * k == t * m,
            k * u == q * m + 1,
            w == t * u - d * q,
    ;
    assert(w == 0) by (nonlinear_arith)
        requires
            d == w * m,
            m == 0x1_0000_0000_0000_0000int,
            -0x1_0000_0000_0000_0000int < d < 0x1_0000_0000_0000_0000int,
    ;
}

} // verus!
