//! Token-bucket traffic shaping.
//!
//! Each bucket holds tokens that refill at a configured rate up to a burst
//! capacity. A packet may pass at once only when the refilled bucket holds
//! enough tokens for it; otherwise the caller is told how long to wait. The
//! tokens are taken in both cases, so the bucket may run into debt and
//! callers queue behind each other: packets are delayed, never dropped.
//!
//! Tokens are counted in units of a billionth of a byte, so that the refill
//! for `elapsed_ns` nanoseconds at `rate_bps` bytes per second is the exact
//! integer `elapsed_ns * rate_bps`. Time is a monotonic nanosecond count that
//! the caller supplies. The debt is held in an `i128` and saturates at its
//! least value, `i128::MIN` units.

use vstd::prelude::*;
use dashmap::DashMap;

verus! {

/// Token units per byte.
pub const UNITS_PER_BYTE: u64 = 1_000_000_000;

/// The smallest burst capacity that a registry gives a new bucket (64 KiB).
pub const MIN_BURST: u64 = 65_536;

/// `bytes` expressed in token units.
pub open spec fn units(bytes: int) -> int {
    bytes * 1_000_000_000
}

/// The abstract state of a bucket.
pub struct BucketState {
    /// Burst capacity in bytes.
    pub capacity: nat,
    /// Available tokens in units; negative when the bucket is in debt.
    pub tokens: int,
    /// Refill rate in bytes per second.
    pub rate: nat,
    /// Time of the last refill, in nanoseconds.
    pub last_refill: nat,
}

/// A well-formed bucket never holds more than its capacity, and its debt
/// fits in an `i128`.
pub open spec fn bucket_wf(s: BucketState) -> bool {
    &&& i128::MIN <= s.tokens <= units(s.capacity as int)
    &&& s.capacity <= u64::MAX
    &&& s.rate <= u64::MAX
    &&& s.last_refill <= u64::MAX
}

/// Nanoseconds from `last` to `now`; zero when `now` is earlier.
pub open spec fn elapsed_since(last: nat, now: nat) -> nat {
    if now >= last { (now - last) as nat } else { 0 }
}

/// The tokens of `s` after refilling it up to time `now`.
pub open spec fn refilled(s: BucketState, now: nat) -> int {
    let full = units(s.capacity as int);
    let t = s.tokens + elapsed_since(s.last_refill, now) * s.rate;
    if t >= full { full } else { t }
}

/// `a / b` rounded up.
pub open spec fn ceil_div(a: int, b: int) -> int {
    (a + b - 1) / b
}

/// Nanoseconds until a bucket refilling at `rate` that holds `have` units
/// holds `need`, saturated at `u64::MAX`; a bucket that does not refill is
/// never ready, which is the longest wait.
pub open spec fn wait_ns(have: int, need: int, rate: nat) -> int {
    if rate == 0 {
        u64::MAX as int
    } else {
        let w = ceil_div(need - have, rate as int);
        if w > u64::MAX { u64::MAX as int } else { w }
    }
}

/// The bucket after `consume(bytes)` at time `now`.
pub open spec fn after_consume(s: BucketState, bytes: nat, now: nat) -> BucketState {
    let rest = refilled(s, now) - units(bytes as int);
    BucketState {
        capacity: s.capacity,
        tokens: if rest < i128::MIN { i128::MIN as int } else { rest },
        rate: s.rate,
        last_refill: now,
    }
}

/// What `consume(bytes)` at time `now` returns: `Ok` when the refilled
/// bucket holds enough tokens, else the wait in nanoseconds.
pub open spec fn consume_result(s: BucketState, bytes: nat, now: nat) -> Result<(), u64> {
    let r = refilled(s, now);
    if r >= units(bytes as int) {
        Ok(())
    } else {
        Err(wait_ns(r, units(bytes as int), s.rate) as u64)
    }
}

/// A fresh bucket: full, with the given rate and burst capacity.
pub open spec fn fresh_bucket(rate: nat, burst: nat, now: nat) -> BucketState {
    BucketState { capacity: burst, tokens: units(burst as int), rate, last_refill: now }
}

/// A token bucket.
#[derive(Clone, Copy)]
pub struct TokenBucket {
    capacity: u64,
    tokens: i128,
    rate_bps: u64,
    last_refill_ns: u64,
}

impl View for TokenBucket {
    type V = BucketState;

    closed spec fn view(&self) -> BucketState {
        BucketState {
            capacity: self.capacity as nat,
            tokens: self.tokens as int,
            rate: self.rate_bps as nat,
            last_refill: self.last_refill_ns as nat,
        }
    }
}

impl TokenBucket {
    #[verifier::type_invariant]
    spec fn inv(self) -> bool {
        self.tokens <= units(self.capacity as int)
    }

    /// Creates a full bucket with sustained rate `rate_bps` (bytes per second)
    /// and burst capacity `burst` (bytes), last refilled at `now_ns`.
    pub fn new(rate_bps: u64, burst: u64, now_ns: u64) -> (b: TokenBucket)
        ensures
            b@ == fresh_bucket(rate_bps as nat, burst as nat, now_ns as nat),
            bucket_wf(b@),
    {
        assert((burst as i128) * 1_000_000_000i128 <= 18_446_744_073_709_551_615_000_000_000i128) by (nonlinear_arith)
            requires
                burst <= 18_446_744_073_709_551_615u64,
        ;
        TokenBucket {
            capacity: burst,
            tokens: (burst as i128) * 1_000_000_000,
            rate_bps,
            last_refill_ns: now_ns,
        }
    }

    /// Changes the refill rate; the tokens are left as they are.
    pub fn set_rate(&mut self, rate_bps: u64)
        ensures
            final(self)@ == (BucketState { rate: rate_bps as nat, ..old(self)@ }),
            bucket_wf(final(self)@),
    {
        proof {
            use_type_invariant(&*self);
        }
        self.rate_bps = rate_bps;
    }

    /// Refills the bucket up to `now_ns` and takes `bytes` tokens from it.
    ///
    /// Returns `Ok(())` when the refilled bucket held enough tokens, so the
    /// packet may pass at once, or `Err(wait)` with the nanoseconds to wait
    /// before it may pass. The tokens are taken either way.
    pub fn consume(&mut self, bytes: u64, now_ns: u64) -> (r: Result<(), u64>)
        ensures
            final(self)@ == after_consume(old(self)@, bytes as nat, now_ns as nat),
            r == consume_result(old(self)@, bytes as nat, now_ns as nat),
            r is Ok <==> refilled(old(self)@, now_ns as nat) >= units(bytes as int),
            bucket_wf(old(self)@),
            bucket_wf(final(self)@),
    {
        proof {
            use_type_invariant(&*self);
        }
        let elapsed: u64 = if now_ns >= self.last_refill_ns { now_ns - self.last_refill_ns } else { 0 };
        let ghost s = self@;
        assert((self.capacity as i128) * 1_000_000_000i128 <= 18_446_744_073_709_551_615_000_000_000i128) by (nonlinear_arith)
            requires
                self.capacity <= 18_446_744_073_709_551_615u64,
        ;
        let full: i128 = (self.capacity as i128) * 1_000_000_000;
        assert((elapsed as u128) * (self.rate_bps as u128) <= 0xffff_ffff_ffff_fffe_0000_0000_0000_0001u128) by (nonlinear_arith)
            requires
                elapsed <= 0xffff_ffff_ffff_ffffu64,
                self.rate_bps <= 0xffff_ffff_ffff_ffffu64,
        ;
        let gain: u128 = (elapsed as u128) * (self.rate_bps as u128);
        assert(gain as int == elapsed_since(s.last_refill, now_ns as nat) * s.rate);
        let t: i128 = self.tokens;
        let r: i128 = if t >= 0 {
            let room: u128 = (full - t) as u128;
            if gain >= room { full } else { t + gain as i128 }
        } else {
            let debt: u128 = ((-(t + 1)) as u128) + 1;
            if gain >= debt {
                let surplus: u128 = gain - debt;
                if surplus >= full as u128 { full } else { surplus as i128 }
            } else {
                t + gain as i128
            }
        };
        assert(r as int == refilled(s, now_ns as nat));
        assert((bytes as i128) * 1_000_000_000i128 <= 18_446_744_073_709_551_615_000_000_000i128) by (nonlinear_arith)
            requires
                bytes <= 18_446_744_073_709_551_615u64,
        ;
        let need: i128 = (bytes as i128) * 1_000_000_000;
        let new_tokens: i128 = if r >= i128::MIN + need { r - need } else { i128::MIN };
        let res: Result<(), u64> = if r >= need {
            Ok(())
        } else {
            let deficit: u128 = if r >= 0 { (need - r) as u128 } else { (need as u128) + ((-(r + 1)) as u128) + 1 };
            assert(deficit as int == need - r);
            if self.rate_bps == 0 {
                Err(u64::MAX)
            } else {
                let rate: u128 = self.rate_bps as u128;
                let q: u128 = (deficit + rate - 1) / rate;
                if q > 0xffff_ffff_ffff_ffffu128 {
                    Err(u64::MAX)
                } else {
                    Err(q as u64)
                }
            }
        };
        self.tokens = new_tokens;
        self.last_refill_ns = now_ns;
        res
    }

    /// Burst capacity in bytes.
    pub fn capacity(&self) -> (c: u64)
        ensures
            c == self@.capacity,
    {
        self.capacity
    }

    /// Refill rate in bytes per second.
    pub fn rate_bps(&self) -> (r: u64)
        ensures
            r == self@.rate,
    {
        self.rate_bps
    }

    /// Available tokens in units (negative while the bucket is in debt).
    pub fn tokens_units(&self) -> (t: i128)
        ensures
            t == self@.tokens,
    {
        self.tokens
    }

    /// Time of the last refill in nanoseconds.
    pub fn last_refill_ns(&self) -> (t: u64)
        ensures
            t == self@.last_refill,
    {
        self.last_refill_ns
    }
}

}

verus! {

/// Direction of traffic relative to a local device.
#[derive(Debug, Clone, Copy, PartialEq, Eq, Hash, Structural)]
pub enum Direction {
    Download,
    Upload,
}

/// The registry key of the bucket for `(ip, direction)`.
pub open spec fn bucket_key(ip: u32, direction: Direction) -> u64 {
    (ip as int * 2 + if direction is Upload { 1int } else { 0int }) as u64
}

/// Distinct `(ip, direction)` pairs have distinct keys.
pub proof fn lemma_bucket_key_injective(ip1: u32, d1: Direction, ip2: u32, d2: Direction)
    ensures
        bucket_key(ip1, d1) == bucket_key(ip2, d2) ==> ip1 == ip2 && d1 == d2,
{
}

fn key_of(ip: u32, direction: Direction) -> (k: u64)
    ensures
        k == bucket_key(ip, direction),
{
    match direction {
        Direction::Download => (ip as u64) * 2,
        Direction::Upload => (ip as u64) * 2 + 1,
    }
}

/// The table that holds the buckets, keyed by `bucket_key`.
pub type BucketTable = DashMap<u64, TokenBucket>;

/// The buckets that a bucket table holds, by key.
pub uninterp spec fn bucket_table(t: BucketTable) -> Map<u64, BucketState>;

/// `DashMap::new`: an empty table.
#[verifier::external_body]
fn bucket_table_new() -> (t: BucketTable)
    ensures
        bucket_table(t) =~= Map::empty(),
{
    DashMap::new()
}

/// `DashMap::get`, the bucket copied out: present exactly when the key is.
#[verifier::external_body]
fn bucket_table_get(t: &BucketTable, k: u64) -> (res: Option<TokenBucket>)
    ensures
        res is Some <==> bucket_table(*t).contains_key(k),
        res matches Some(b) ==> b@ == bucket_table(*t)[k],
{
    t.get(&k).map(|r| *r.value())
}

/// `DashMap::insert`: the key now maps to `b`.
#[verifier::external_body]
fn bucket_table_insert(t: &mut BucketTable, k: u64, b: TokenBucket)
    ensures
        bucket_table(*final(t)) == bucket_table(*old(t)).insert(k, b@),
{
    t.insert(k, b);
}

/// `DashMap::remove`: the key no longer maps to anything.
#[verifier::external_body]
fn bucket_table_remove(t: &mut BucketTable, k: u64)
    ensures
        bucket_table(*final(t)) == bucket_table(*old(t)).remove(k),
{
    t.remove(&k);
}

/// The burst capacity a registry gives a new bucket of rate `rate`: one
/// second of traffic, but at least `MIN_BURST`.
pub open spec fn registry_burst(rate: nat) -> nat {
    if rate > MIN_BURST { rate } else { MIN_BURST as nat }
}

/// The registry `m` after making sure a bucket exists under `k`.
pub open spec fn with_bucket(m: Map<u64, BucketState>, k: u64, rate: nat, now: nat) -> Map<u64, BucketState> {
    if m.contains_key(k) {
        m
    } else {
        m.insert(k, fresh_bucket(rate, registry_burst(rate), now))
    }
}

/// A pair of token buckets (download and upload) per IPv4 address.
pub struct BucketRegistry {
    buckets: BucketTable,
}

impl View for BucketRegistry {
    type V = Map<u64, BucketState>;

    closed spec fn view(&self) -> Map<u64, BucketState> {
        bucket_table(self.buckets)
    }
}

impl BucketRegistry {
    /// An empty registry.
    pub fn new() -> (r: BucketRegistry)
        ensures
            r@ =~= Map::<u64, BucketState>::empty(),
    {
        BucketRegistry { buckets: bucket_table_new() }
    }

    /// The bucket for `(ip, direction)`, created full with rate `rate_bps`
    /// and burst `max(rate_bps, MIN_BURST)` when there is none yet. An
    /// existing bucket keeps its own rate.
    pub fn get_or_create(&mut self, ip: u32, direction: Direction, rate_bps: u64, now_ns: u64) -> (b: TokenBucket)
        ensures
            final(self)@ == with_bucket(old(self)@, bucket_key(ip, direction), rate_bps as nat, now_ns as nat),
            b@ == final(self)@[bucket_key(ip, direction)],
    {
        let k = key_of(ip, direction);
        match bucket_table_get(&self.buckets, k) {
            Some(b) => b,
            None => {
                let burst = if rate_bps > MIN_BURST { rate_bps } else { MIN_BURST };
                let b = TokenBucket::new(rate_bps, burst, now_ns);
                bucket_table_insert(&mut self.buckets, k, b);
                b
            },
        }
    }

    /// Takes `bytes` tokens from the bucket for `(ip, direction)` at time
    /// `now_ns`, creating the bucket first as `get_or_create` does.
    pub fn consume(&mut self, ip: u32, direction: Direction, rate_bps: u64, bytes: u64, now_ns: u64) -> (r: Result<(), u64>)
        ensures
            ({
                let k = bucket_key(ip, direction);
                let mid = with_bucket(old(self)@, k, rate_bps as nat, now_ns as nat);
                &&& final(self)@ == mid.insert(k, after_consume(mid[k], bytes as nat, now_ns as nat))
                &&& r == consume_result(mid[k], bytes as nat, now_ns as nat)
            }),
    {
        let mut b = self.get_or_create(ip, direction, rate_bps, now_ns);
        let r = b.consume(bytes, now_ns);
        let k = key_of(ip, direction);
        bucket_table_insert(&mut self.buckets, k, b);
        r
    }

    /// Removes both buckets of `ip`.
    pub fn remove(&mut self, ip: &u32)
        ensures
            final(self)@ == old(self)@.remove(bucket_key(*ip, Direction::Download)).remove(
                bucket_key(*ip, Direction::Upload),
            ),
    {
        bucket_table_remove(&mut self.buckets, key_of(*ip, Direction::Download));
        bucket_table_remove(&mut self.buckets, key_of(*ip, Direction::Upload));
    }

    /// Sets the rate of the bucket for `(ip, direction)`, if there is one.
    pub fn update_rate(&mut self, ip: &u32, direction: Direction, rate_bps: u64)
        ensures
            ({
                let k = bucket_key(*ip, direction);
                if old(self)@.contains_key(k) {
                    final(self)@ == old(self)@.insert(k, BucketState { rate: rate_bps as nat, ..old(self)@[k] })
                } else {
                    final(self)@ == old(self)@
                }
            }),
    {
        let k = key_of(*ip, direction);
        match bucket_table_get(&self.buckets, k) {
            Some(b) => {
                let mut b = b;
                b.set_rate(rate_bps);
                bucket_table_insert(&mut self.buckets, k, b);
            },
            None => {},
        }
    }

    /// The bucket for `(ip, direction)`, if there is one.
    pub fn get(&self, ip: u32, direction: Direction) -> (b: Option<TokenBucket>)
        ensures
            b is Some <==> self@.contains_key(bucket_key(ip, direction)),
            b matches Some(x) ==> x@ == self@[bucket_key(ip, direction)],
    {
        bucket_table_get(&self.buckets, key_of(ip, direction))
    }
}

}

verus! {

/// The bucket after a run of `consume` calls, each given as `(bytes, now)`.
pub open spec fn run_bucket(s: BucketState, steps: Seq<(nat, nat)>) -> BucketState
    decreases steps.len(),
{
    if steps.len() == 0 {
        s
    } else {
        after_consume(run_bucket(s, steps.drop_last()), steps.last().0, steps.last().1)
    }
}

/// Every call of the run let its packet pass at once.
pub open spec fn run_all_ok(s: BucketState, steps: Seq<(nat, nat)>) -> bool
    decreases steps.len(),
{
    if steps.len() == 0 {
        true
    } else {
        run_all_ok(s, steps.drop_last()) && consume_result(
            run_bucket(s, steps.drop_last()),
            steps.last().0,
            steps.last().1,
        ) is Ok
    }
}

/// The bytes asked for over the run.
pub open spec fn run_bytes(steps: Seq<(nat, nat)>) -> int
    decreases steps.len(),
{
    if steps.len() == 0 { 0 } else { run_bytes(steps.drop_last()) + steps.last().0 }
}

/// The calls of the run come in time order, none before the last refill.
pub open spec fn run_in_time_order(s: BucketState, steps: Seq<(nat, nat)>) -> bool {
    &&& forall|i: int| 0 <= i < steps.len() ==> s.last_refill <= (#[trigger] steps[i]).1
    &&& forall|i: int, j: int| 0 <= i < j < steps.len() ==> (#[trigger] steps[i]).1 <= (#[trigger] steps[j]).1
}

/// The time of the last call of the run (the last refill when it is empty).
pub open spec fn run_end(s: BucketState, steps: Seq<(nat, nat)>) -> nat {
    if steps.len() == 0 { s.last_refill } else { steps.last().1 }
}

/// Token-bucket guarantee: over any run of calls in time order that all let
/// their packets pass at once, the bytes passed plus the tokens left never
/// exceed the tokens held at the start plus what the rate refilled since;
/// so the bytes passed are at most the burst capacity plus rate × time.
pub proof fn lemma_admission_bound(s: BucketState, steps: Seq<(nat, nat)>)
    requires
        bucket_wf(s),
        run_in_time_order(s, steps),
        run_all_ok(s, steps),
    ensures
        units(run_bytes(steps)) + run_bucket(s, steps).tokens <= s.tokens + s.rate * (run_end(s, steps) - s.last_refill),
        units(run_bytes(steps)) <= units(s.capacity as int) + s.rate * (run_end(s, steps) - s.last_refill),
    decreases steps.len(),
{
    if steps.len() > 0 {
        let pre = steps.drop_last();
        assert(run_in_time_order(s, pre)) by {
            assert forall|i: int| 0 <= i < pre.len() implies s.last_refill <= (#[trigger] pre[i]).1 by {
                assert(pre[i] == steps[i]);
            }
            assert forall|i: int, j: int| 0 <= i < j < pre.len() implies (#[trigger] pre[i]).1 <= (#[trigger] pre[j]).1 by {
                assert(pre[i] == steps[i]);
                assert(pre[j] == steps[j]);
            }
        }
        lemma_admission_bound(s, pre);
        lemma_run_shape(s, pre);
        let p = run_bucket(s, pre);
        let (b, t) = steps.last();
        let t0 = run_end(s, pre);
        assert(t0 <= t) by {
            if pre.len() > 0 {
                assert(pre.last() == steps[pre.len() - 1]);
                assert(steps[pre.len() - 1].1 <= steps[steps.len() - 1].1);
            } else {
                assert(s.last_refill <= steps[0].1);
            }
        }
        let r = refilled(p, t);
        assert(r <= p.tokens + (t - t0) * s.rate);
        assert(s.rate * (t0 - s.last_refill) + (t - t0) * s.rate == s.rate * (t - s.last_refill)) by (nonlinear_arith);
        assert(run_bucket(s, steps).tokens == r - units(b as int));
        assert(run_bytes(steps) == run_bytes(pre) + b);
        assert(units(run_bytes(steps)) == units(run_bytes(pre)) + units(b as int));
    }
    lemma_run_shape(s, steps);
}

/// A run keeps the capacity and rate, leaves the bucket well formed, ends
/// at the time of its last call, and leaves no debt when it has calls and
/// every call passed.
pub proof fn lemma_run_shape(s: BucketState, steps: Seq<(nat, nat)>)
    requires
        bucket_wf(s),
    ensures
        run_bucket(s, steps).capacity == s.capacity,
        run_bucket(s, steps).rate == s.rate,
        steps.len() > 0 ==> run_bucket(s, steps).last_refill == steps.last().1,
        steps.len() == 0 ==> run_bucket(s, steps) == s,
        i128::MIN <= run_bucket(s, steps).tokens <= units(s.capacity as int),
        run_all_ok(s, steps) && steps.len() > 0 ==> run_bucket(s, steps).tokens >= 0,
    decreases steps.len(),
{
    if steps.len() > 0 {
        lemma_run_shape(s, steps.drop_last());
    }
}

/// `a / r` rounded up lies within one `r` above `a`.
proof fn lemma_ceil_div_bounds(a: int, r: int)
    requires
        r > 0,
    ensures
        r * ceil_div(a, r) >= a,
        r * (ceil_div(a, r) - 1) < a,
{
    let x = a + r - 1;
    vstd::arithmetic::div_mod::lemma_fundamental_div_mod(x, r);
    vstd::arithmetic::div_mod::lemma_mod_bound(x, r);
    let q = x / r;
    assert(r * (q - 1) == r * q - r) by (nonlinear_arith);
}

/// Rounding up is unchanged by whole multiples of `r`.
proof fn lemma_ceil_div_shift(a: int, r: int, e: int)
    requires
        r > 0,
    ensures
        ceil_div(a - r * e, r) == ceil_div(a, r) - e,
{
    let x = a + r - 1;
    vstd::arithmetic::div_mod::lemma_fundamental_div_mod(x, r);
    vstd::arithmetic::div_mod::lemma_mod_bound(x, r);
    let q = x / r;
    let m = x % r;
    assert(x - r * e == (q - e) * r + m) by (nonlinear_arith)
        requires
            x == r * q + m,
    ;
    vstd::arithmetic::div_mod::lemma_fundamental_div_mod_converse(x - r * e, r, q - e, m);
}

/// Rounding up keeps the order.
proof fn lemma_ceil_div_mono(a1: int, a2: int, r: int)
    requires
        r > 0,
        a1 <= a2,
    ensures
        ceil_div(a1, r) <= ceil_div(a2, r),
{
    vstd::arithmetic::div_mod::lemma_div_is_ordered(a1 + r - 1, a2 + r - 1, r);
}

/// When the packet of a bucket's last call may pass: at the last refill, or,
/// while the bucket is in debt, once the rate has repaid the debt.
pub open spec fn ready_time(b: BucketState) -> int {
    if b.tokens < 0 {
        b.last_refill + ceil_div(-b.tokens, b.rate as int)
    } else {
        b.last_refill as int
    }
}

/// A call whose debt stays within `i128::MIN` units and whose wait is at
/// most `u64::MAX` nanoseconds, so nothing saturates.
pub open spec fn step_exact(b: BucketState, bytes: nat, now: nat) -> bool {
    let r = refilled(b, now);
    &&& r - units(bytes as int) >= i128::MIN
    &&& r < units(bytes as int) ==> ceil_div(units(bytes as int) - r, b.rate as int) <= u64::MAX
}

/// No call of the run saturates.
pub open spec fn run_exact(s: BucketState, steps: Seq<(nat, nat)>) -> bool {
    forall|k: int| 0 <= k < steps.len() ==> step_exact(run_bucket(s, steps.take(k)), #[trigger] steps[k].0, steps[k].1)
}

/// The bytes of the calls of the run whose packets may pass by time `t`.
pub open spec fn released_by(s: BucketState, steps: Seq<(nat, nat)>, t: int) -> int
    decreases steps.len(),
{
    if steps.len() == 0 {
        0
    } else {
        released_by(s, steps.drop_last(), t) + if ready_time(run_bucket(s, steps)) <= t {
            steps.last().0 as int
        } else {
            0
        }
    }
}

/// One call: its release time is the time of the call on `Ok` and that time
/// plus the wait on `Err`; the tokens are the refill less the bytes; and the
/// release comes no earlier than that of the call before.
proof fn lemma_consume_step(b: BucketState, x: nat, t: nat)
    requires
        b.tokens <= units(b.capacity as int),
        b.rate > 0,
        b.last_refill <= t,
        step_exact(b, x, t),
    ensures
        after_consume(b, x, t).tokens == refilled(b, t) - units(x as int),
        after_consume(b, x, t).tokens <= b.tokens + (t - b.last_refill) * b.rate - units(x as int),
        consume_result(b, x, t) is Ok ==> ready_time(after_consume(b, x, t)) == t,
        consume_result(b, x, t) matches Err(d) ==> ready_time(after_consume(b, x, t)) == t + d,
        after_consume(b, x, t).tokens + b.rate * (ready_time(after_consume(b, x, t)) - t) >= 0,
        ready_time(after_consume(b, x, t)) >= t,
        ready_time(after_consume(b, x, t)) >= ready_time(b),
{
    let a = after_consume(b, x, t);
    let r = b.rate as int;
    let big_r = refilled(b, t);
    let need = units(x as int);
    let e = t - b.last_refill;
    assert(elapsed_since(b.last_refill, t) == e);
    if a.tokens < 0 {
        lemma_ceil_div_bounds(-a.tokens, r);
    } else {
        assert(r * (ready_time(a) - t) == 0) by (nonlinear_arith)
            requires
                ready_time(a) == t,
        ;
    }
    if b.tokens < 0 && t < ready_time(b) {
        let c = ceil_div(-b.tokens, r);
        lemma_ceil_div_bounds(-b.tokens, r);
        assert(e <= c - 1);
        assert(e * r <= (c - 1) * r) by (nonlinear_arith)
            requires
                e <= c - 1,
                r > 0,
        ;
        assert(r * (c - 1) == (c - 1) * r) by (nonlinear_arith);
        assert(big_r == b.tokens + e * r);
        assert(a.tokens < 0);
        lemma_ceil_div_mono(-big_r, need - big_r, r);
        assert(e * r == r * e) by (nonlinear_arith);
        lemma_ceil_div_shift(-b.tokens, r, e);
        assert(-big_r == -b.tokens - r * e);
    }
}

/// Token-bucket guarantee for every run in time order, whether or not its
/// calls had to wait: each packet is released at the time of its call on
/// `Ok` and at that time plus the wait on `Err`; release times never
/// decrease; the bytes released up to the last release are at most the
/// tokens held at the start plus what the rate refilled by then; and the
/// bytes released by any time `t` are at most the burst capacity plus rate
/// × elapsed time. Runs that saturate the debt or the wait are left out.
#[verifier::rlimit(60)]
pub proof fn lemma_release_bound(s: BucketState, steps: Seq<(nat, nat)>)
    requires
        bucket_wf(s),
        s.rate > 0,
        run_in_time_order(s, steps),
        run_exact(s, steps),
    ensures
        forall|k: int|
            0 <= k < steps.len() ==> (match #[trigger] consume_result(run_bucket(s, steps.take(k)), steps[k].0, steps[k].1) {
                Ok(_) => ready_time(run_bucket(s, steps.take(k + 1))) == steps[k].1,
                Err(d) => ready_time(run_bucket(s, steps.take(k + 1))) == steps[k].1 + d,
            }),
        forall|i: int, j: int|
            1 <= i <= j <= steps.len() ==> ready_time(run_bucket(s, #[trigger] steps.take(i))) <= ready_time(
                run_bucket(s, #[trigger] steps.take(j)),
            ),
        run_bucket(s, steps).tokens <= s.tokens + s.rate * (run_end(s, steps) - s.last_refill) - units(run_bytes(steps)),
        steps.len() > 0 ==> units(run_bytes(steps)) <= s.tokens + s.rate * (ready_time(run_bucket(s, steps)) - s.last_refill),
        forall|t: int| t >= s.last_refill ==> units(#[trigger] released_by(s, steps, t)) <= units(s.capacity as int) + s.rate * (t - s.last_refill),
    decreases steps.len(),
{
    lemma_run_shape(s, steps);
    if steps.len() == 0 {
        assert forall|t: int| t >= s.last_refill implies units(#[trigger] released_by(s, steps, t)) <= units(s.capacity as int) + s.rate * (t - s.last_refill) by {
            assert(s.rate * (t - s.last_refill) >= 0) by (nonlinear_arith)
                requires
                    t >= s.last_refill,
                    s.rate > 0,
            ;
        }
        return;
    }
    let n = steps.len() as int;
    let pre = steps.drop_last();
    assert forall|k: int| 0 <= k <= pre.len() implies #[trigger] pre.take(k) == steps.take(k) by {
        assert(pre.take(k) =~= steps.take(k));
    }
    assert(steps.take(n) =~= steps);
    assert(run_in_time_order(s, pre)) by {
        assert forall|i: int| 0 <= i < pre.len() implies s.last_refill <= (#[trigger] pre[i]).1 by {
            assert(pre[i] == steps[i]);
        }
        assert forall|i: int, j: int| 0 <= i < j < pre.len() implies (#[trigger] pre[i]).1 <= (#[trigger] pre[j]).1 by {
            assert(pre[i] == steps[i]);
            assert(pre[j] == steps[j]);
        }
    }
    assert(run_exact(s, pre)) by {
        assert forall|k: int| 0 <= k < pre.len() implies step_exact(run_bucket(s, pre.take(k)), #[trigger] pre[k].0, pre[k].1) by {
            assert(pre[k] == steps[k]);
            assert(pre.take(k) == steps.take(k));
        }
    }
    lemma_release_bound(s, pre);
    lemma_run_shape(s, pre);
    let p = run_bucket(s, pre);
    let (x, t) = steps.last();
    let t0 = run_end(s, pre);
    assert(t0 <= t) by {
        if pre.len() > 0 {
            assert(pre.last() == steps[pre.len() - 1]);
            assert(steps[pre.len() - 1].1 <= steps[steps.len() - 1].1);
        } else {
            assert(s.last_refill <= steps[0].1);
        }
    }
    assert(p.last_refill == t0);
    assert(steps[n - 1] == steps.last());
    assert(pre.take(n - 1) =~= pre);
    assert(step_exact(p, x, t));
    lemma_consume_step(p, x, t);
    let a = run_bucket(s, steps);
    assert(a == after_consume(p, x, t));
    let r = s.rate as int;
    let sl = s.last_refill as int;
    // release of each call
    assert forall|k: int| 0 <= k < steps.len() implies (match #[trigger] consume_result(run_bucket(s, steps.take(k)), steps[k].0, steps[k].1) {
        Ok(_) => ready_time(run_bucket(s, steps.take(k + 1))) == steps[k].1,
        Err(d) => ready_time(run_bucket(s, steps.take(k + 1))) == steps[k].1 + d,
    }) by {
        if k < n - 1 {
            assert(pre[k] == steps[k]);
            assert(pre.take(k) == steps.take(k));
            assert(pre.take(k + 1) == steps.take(k + 1));
            assert(match consume_result(run_bucket(s, pre.take(k)), pre[k].0, pre[k].1) {
                Ok(_) => ready_time(run_bucket(s, pre.take(k + 1))) == pre[k].1,
                Err(d) => ready_time(run_bucket(s, pre.take(k + 1))) == pre[k].1 + d,
            });
        } else {
            assert(steps.take(k) == pre);
        }
    }
    // release order
    assert forall|i: int, j: int| 1 <= i <= j <= steps.len() implies ready_time(run_bucket(s, #[trigger] steps.take(i))) <= ready_time(
        run_bucket(s, #[trigger] steps.take(j)),
    ) by {
        if j < n {
            assert(pre.take(i) == steps.take(i));
            assert(pre.take(j) == steps.take(j));
        } else if i < n {
            assert(pre.take(i) == steps.take(i));
            assert(pre.take(n - 1) == pre);
            assert(ready_time(run_bucket(s, pre.take(i))) <= ready_time(run_bucket(s, pre.take(n - 1))));
        }
    }
    // accounting
    assert(r * (t0 - sl) + (t - t0) * r == r * (t - sl)) by (nonlinear_arith);
    assert(run_bytes(steps) == run_bytes(pre) + x);
    assert(units(run_bytes(steps)) == units(run_bytes(pre)) + units(x as int));
    assert(a.tokens <= s.tokens + r * (t - sl) - units(run_bytes(steps)));
    let rho = ready_time(a);
    assert(r * (t - sl) + r * (rho - t) == r * (rho - sl)) by (nonlinear_arith);
    assert(units(run_bytes(steps)) <= s.tokens + r * (rho - sl));
    // bytes released by any time
    assert forall|tt: int| tt >= s.last_refill implies units(#[trigger] released_by(s, steps, tt)) <= units(s.capacity as int) + s.rate * (tt - s.last_refill) by {
        if rho <= tt {
            lemma_released_all(s, steps, tt);
            assert(r * (rho - sl) <= r * (tt - sl)) by (nonlinear_arith)
                requires
                    rho <= tt,
                    r > 0,
            ;
        } else {
            assert(released_by(s, steps, tt) == released_by(s, pre, tt));
        }
    }
}

/// When every call of the run is released by `t`, all its bytes are.
proof fn lemma_released_all(s: BucketState, steps: Seq<(nat, nat)>, t: int)
    requires
        forall|i: int| 1 <= i <= steps.len() ==> ready_time(run_bucket(s, #[trigger] steps.take(i))) <= t,
    ensures
        released_by(s, steps, t) == run_bytes(steps),
    decreases steps.len(),
{
    if steps.len() > 0 {
        let n = steps.len() as int;
        let pre = steps.drop_last();
        assert forall|i: int| 1 <= i <= pre.len() implies ready_time(run_bucket(s, #[trigger] pre.take(i))) <= t by {
            assert(pre.take(i) =~= steps.take(i));
        }
        lemma_released_all(s, pre, t);
        assert(steps.take(n) =~= steps);
    }
}

/// Callers queue: when a call had to wait `d1`, a call for `y` more bytes at
/// the same instant waits for the first one's deficit plus its own bytes,
/// so between `d1` plus `y / rate` (rounded down) and `d1` plus `y / rate`
/// (rounded up) nanoseconds, instead of being given the same tokens.
pub proof fn lemma_queued_wait(b: BucketState, x: nat, y: nat, t: nat, d1: u64)
    requires
        b.tokens <= units(b.capacity as int),
        b.rate > 0,
        b.last_refill <= t,
        step_exact(b, x, t),
        step_exact(after_consume(b, x, t), y, t),
        consume_result(b, x, t) == Err::<(), u64>(d1),
    ensures
        consume_result(after_consume(b, x, t), y, t) matches Err(d2) && d2 == ceil_div(
            units(x as int) - refilled(b, t) + units(y as int),
            b.rate as int,
        ) && d1 + units(y as int) / (b.rate as int) <= d2 <= d1 + ceil_div(units(y as int), b.rate as int),
{
    lemma_consume_step(b, x, t);
    let a = after_consume(b, x, t);
    let r = b.rate as int;
    let da = units(x as int) - refilled(b, t);
    let dy = units(y as int);
    assert(elapsed_since(a.last_refill, t) == 0);
    assert(0 * a.rate == 0) by (nonlinear_arith);
    assert(refilled(a, t) == a.tokens);
    let c1 = ceil_div(da, r);
    let c2 = ceil_div(da + dy, r);
    let cy = ceil_div(dy, r);
    let fy = dy / r;
    assert(d1 == c1);
    lemma_ceil_div_bounds(da, r);
    lemma_ceil_div_bounds(da + dy, r);
    lemma_ceil_div_bounds(dy, r);
    vstd::arithmetic::div_mod::lemma_fundamental_div_mod(dy, r);
    vstd::arithmetic::div_mod::lemma_mod_bound(dy, r);
    assert(c2 <= c1 + cy) by (nonlinear_arith)
        requires
            r > 0,
            r * c1 >= da,
            r * cy >= dy,
            r * (c2 - 1) < da + dy,
    ;
    assert(c1 + fy <= c2) by (nonlinear_arith)
        requires
            r > 0,
            r * (c1 - 1) < da,
            dy == r * fy + dy % r,
            dy % r >= 0,
            r * c2 >= da + dy,
    ;
}

/// A bucket that the registry creates for rate `r` at time `now` is full,
/// refills at `r` from `now`, and holds one second of traffic at that rate
/// but at least `MIN_BURST` bytes: its capacity is the larger of `r` and
/// `MIN_BURST`. A bucket that exists already is left as it is.
pub proof fn lemma_new_bucket_holds_a_second(m: Map<u64, BucketState>, k: u64, rate: nat, now: nat)
    ensures
        with_bucket(m, k, rate, now).contains_key(k),
        m.contains_key(k) ==> with_bucket(m, k, rate, now) == m,
        !m.contains_key(k) ==> ({
            let b = with_bucket(m, k, rate, now)[k];
            &&& b.rate == rate
            &&& b.capacity >= rate
            &&& b.capacity >= MIN_BURST
            &&& (b.capacity == rate || b.capacity == MIN_BURST)
            &&& b.tokens == units(b.capacity as int)
            &&& b.last_refill == now
        }),
        !m.contains_key(k) ==> with_bucket(m, k, rate, now).remove(k) == m,
{
    if !m.contains_key(k) {
        assert(with_bucket(m, k, rate, now).remove(k) =~= m);
    }
}

}
