//! Admission control keyed by client address: an in-process sliding window,
//! or a shared counter consulted by the caller.

use vstd::prelude::*;
use std::collections::HashMap;

verus! {

broadcast use vstd::std_specs::hash::group_hash_axioms;

/// The timestamps of `ts` that lie inside the window of length `window`
/// that ends at `now`, in their order: only those older than
/// `now - window` have left it.
pub open spec fn recent(ts: Seq<u64>, now: u64, window: int) -> Seq<u64>
    decreases ts.len(),
{
    if ts.len() == 0 {
        ts
    } else {
        let r = recent(ts.drop_last(), now, window);
        if ts.last() as int >= now as int - window {
            r.push(ts.last())
        } else {
            r
        }
    }
}

/// One admission attempt against the timestamps of one address: evict what
/// left the window, allowed iff fewer than `limit` remain, record an admission.
pub open spec fn gate_step(ts: Seq<u64>, now: u64, window: int, limit: int) -> (bool, Seq<u64>) {
    let kept = recent(ts, now, window);
    if kept.len() < limit {
        (true, kept.push(now))
    } else {
        (false, kept)
    }
}

/// The verdicts of successive attempts from one address at the given times.
pub open spec fn gate_run(ts: Seq<u64>, times: Seq<u64>, window: int, limit: int) -> Seq<bool>
    decreases times.len(),
{
    if times.len() == 0 {
        Seq::empty()
    } else {
        let (allowed, next) = gate_step(ts, times[0], window, limit);
        seq![allowed] + gate_run(next, times.drop_first(), window, limit)
    }
}

/// Every timestamp kept by `recent` comes from `ts` and lies inside the window.
proof fn lemma_recent_members(ts: Seq<u64>, now: u64, window: int)
    ensures
        forall|x: u64| #[trigger] recent(ts, now, window).contains(x) ==> ts.contains(x) && x as int
            >= now as int - window,
        recent(ts, now, window).len() <= ts.len(),
    decreases ts.len(),
{
    if ts.len() > 0 {
        lemma_recent_members(ts.drop_last(), now, window);
        let r = recent(ts.drop_last(), now, window);
        assert forall|x: u64| #[trigger] recent(ts, now, window).contains(x) implies ts.contains(x)
            && x as int >= now as int - window by {
            if r.contains(x) {
                let k = choose|k: int| 0 <= k < ts.drop_last().len() && ts.drop_last()[k] == x;
                assert(ts[k] == x);
            } else {
                assert(recent(ts, now, window) == r.push(ts.last()));
                let k = choose|k: int| 0 <= k < r.push(ts.last()).len() && r.push(ts.last())[k] == x;
                assert(k == r.len());
                assert(ts[ts.len() - 1] == x);
            }
        }
    }
}

/// A window whose timestamps are all inside keeps them all.
proof fn lemma_recent_keeps_all(ts: Seq<u64>, now: u64, window: int)
    requires
        forall|k: int| 0 <= k < ts.len() ==> ts[k] as int >= now as int - window,
    ensures
        recent(ts, now, window) == ts,
    decreases ts.len(),
{
    if ts.len() > 0 {
        lemma_recent_keeps_all(ts.drop_last(), now, window);
        assert(ts.drop_last().push(ts.last()) =~= ts);
    }
}

/// A window whose timestamps are all outside keeps none.
proof fn lemma_recent_drops_all(ts: Seq<u64>, now: u64, window: int)
    requires
        forall|k: int| 0 <= k < ts.len() ==> (ts[k] as int) < now as int - window,
    ensures
        recent(ts, now, window).len() == 0,
{
    lemma_recent_members(ts, now, window);
    let r = recent(ts, now, window);
    if r.len() > 0 {
        assert(r.contains(r[0]));
        let k = choose|k: int| 0 <= k < ts.len() && ts[k] == r[0];
    }
}

/// Attempts at nondecreasing times inside one window, starting from
/// timestamps that are either gone before the first attempt or still there
/// at the last: attempt `i` is admitted iff fewer than `limit` admissions
/// precede it in the window.
proof fn lemma_gate_run_counts(ts: Seq<u64>, times: Seq<u64>, window: int, limit: int)
    requires
        times.len() > 0,
        forall|i: int, j: int| 0 <= i <= j < times.len() ==> times[i] <= times[j],
        (times.last() as int) <= times[0] as int + window,
        forall|k: int|
            0 <= k < ts.len() ==> (ts[k] as int) < times[0] as int - window || ts[k] as int
                >= times.last() as int - window,
    ensures
        gate_run(ts, times, window, limit).len() == times.len(),
        forall|i: int|
            0 <= i < times.len() ==> gate_run(ts, times, window, limit)[i] == (recent(
                ts,
                times[0],
                window,
            ).len() + i < limit),
    decreases times.len(),
{
    let kept = recent(ts, times[0], window);
    let (allowed, next) = gate_step(ts, times[0], window, limit);
    lemma_recent_members(ts, times[0], window);
    assert forall|k: int| 0 <= k < next.len() implies next[k] as int >= times.last() as int
        - window by {
        if k < kept.len() {
            assert(kept.contains(kept[k]));
            let j = choose|j: int| 0 <= j < ts.len() && ts[j] == kept[k];
        }
    }
    let rest = times.drop_first();
    if rest.len() == 0 {
        assert(gate_run(next, rest, window, limit) =~= Seq::<bool>::empty());
        assert(gate_run(ts, times, window, limit) =~= seq![allowed]);
    } else {
        assert(rest.last() == times.last());
        lemma_gate_run_counts(next, rest, window, limit);
        lemma_recent_keeps_all(next, rest[0], window);
        let run = gate_run(ts, times, window, limit);
        let tail = gate_run(next, rest, window, limit);
        assert(run == seq![allowed] + tail);
        assert forall|i: int| 0 <= i < times.len() implies run[i] == (kept.len() + i < limit) by {
            if i > 0 {
                assert(run[i] == tail[i - 1]);
            }
        }
    }
}

/// Sustained pressure from one address: of attempts made inside one window,
/// with no earlier admission still in it, exactly the first `limit` are
/// admitted and every later one is denied.
pub proof fn lemma_window_admits_exactly_limit(
    ts: Seq<u64>,
    times: Seq<u64>,
    window: int,
    limit: int,
)
    requires
        times.len() > 0,
        forall|i: int, j: int| 0 <= i <= j < times.len() ==> times[i] <= times[j],
        (times.last() as int) <= times[0] as int + window,
        forall|k: int| 0 <= k < ts.len() ==> (ts[k] as int) < times[0] as int - window,
    ensures
        gate_run(ts, times, window, limit).len() == times.len(),
        forall|i: int|
            0 <= i < times.len() ==> gate_run(ts, times, window, limit)[i] == (i < limit),
{
    lemma_recent_drops_all(ts, times[0], window);
    lemma_gate_run_counts(ts, times, window, limit);
}

/// Once the window has slid past every recorded admission, a gate with a
/// positive limit admits again.
pub proof fn lemma_window_slides(ts: Seq<u64>, now: u64, window: int, limit: int)
    requires
        limit > 0,
        forall|k: int| 0 <= k < ts.len() ==> (ts[k] as int) < now as int - window,
    ensures
        gate_step(ts, now, window, limit).0,
{
    lemma_recent_drops_all(ts, now, window);
}

/// Which backend keeps the windows.
#[derive(Debug, Clone, Copy, PartialEq, Eq, Structural)]
pub enum Backend {
    /// Timestamps kept in this process.
    Memory,
    /// A shared counter with expiry, consulted by the caller.
    Redis,
}

/// What a rate gate is: its windows per address and its settings. Times are
/// in milliseconds.
pub struct GateModel {
    pub windows: Map<u128, Seq<u64>>,
    pub limit: int,
    pub window: int,
    pub enabled: bool,
    pub backend: Backend,
}

impl GateModel {
    pub open spec fn stamps(self, ip: u128) -> Seq<u64> {
        if self.windows.contains_key(ip) {
            self.windows[ip]
        } else {
            Seq::empty()
        }
    }

    pub open spec fn same_settings(self, other: GateModel) -> bool {
        &&& self.limit == other.limit
        &&& self.window == other.window
        &&& self.enabled == other.enabled
        &&& self.backend == other.backend
    }
}

/// Admission control by client address.
pub struct RateLimiter {
    requests: HashMap<u128, Vec<u64>>,
    addresses: Vec<u128>,
    limit: u32,
    window_secs: u64,
    enabled: bool,
    backend: Backend,
}

impl View for RateLimiter {
    type V = GateModel;

    closed spec fn view(&self) -> GateModel {
        GateModel {
            windows: self.requests@.map_values(|v: Vec<u64>| v@),
            limit: self.limit as int,
            window: self.window_secs * 1000,
            enabled: self.enabled,
            backend: self.backend,
        }
    }
}

/// Whether `t` is still inside the window of length `window` ending at
/// `now`, that is, not older than `now - window`.
fn is_recent(t: u64, now: u64, window: u64) -> (r: bool)
    ensures
        r == (t as int >= now as int - window as int),
{
    if now >= window {
        t >= now - window
    } else {
        true
    }
}

/// The timestamps of `v` inside the window ending at `now`.
fn recent_stamps(v: &Vec<u64>, now: u64, window: u64) -> (r: Vec<u64>)
    ensures
        r@ == recent(v@, now, window as int),
{
    let mut kept: Vec<u64> = Vec::new();
    let mut i: usize = 0;
    while i < v.len()
        invariant
            0 <= i <= v.len(),
            kept@ == recent(v@.take(i as int), now, window as int),
        decreases v.len() - i,
    {
        let t = v[i];
        proof {
            assert(v@.take(i + 1).drop_last() =~= v@.take(i as int));
        }
        if is_recent(t, now, window) {
            kept.push(t);
        }
        i += 1;
    }
    proof {
        assert(v@.take(v.len() as int) =~= v@);
    }
    kept
}

impl RateLimiter {
    /// Well-formed: the address list indexes the windows exactly once each.
    pub closed spec fn wf(&self) -> bool {
        &&& self.window_secs <= 1_000_000_000
        &&& self.addresses@.no_duplicates()
        &&& forall|a: u128| self.requests@.contains_key(a) <==> self.addresses@.contains(a)
    }

    /// A gate whose windows live in this process; one minute long.
    pub fn new_memory(requests_per_minute: u32, enabled: bool) -> (r: RateLimiter)
        ensures
            r.wf(),
            r@.windows.is_empty(),
            r@.limit == requests_per_minute as int,
            r@.window == 60_000,
            r@.enabled == enabled,
            r@.backend == Backend::Memory,
    {
        let r = RateLimiter {
            requests: HashMap::new(),
            addresses: Vec::new(),
            limit: requests_per_minute,
            window_secs: 60,
            enabled,
            backend: Backend::Memory,
        };
        proof {
            assert(r@.windows =~= Map::empty());
        }
        r
    }

    /// A gate that defers to a shared counter; one minute long.
    pub fn new_redis(requests_per_minute: u32, enabled: bool) -> (r: RateLimiter)
        ensures
            r.wf(),
            r@.windows.is_empty(),
            r@.limit == requests_per_minute as int,
            r@.window == 60_000,
            r@.enabled == enabled,
            r@.backend == Backend::Redis,
    {
        let r = RateLimiter {
            requests: HashMap::new(),
            addresses: Vec::new(),
            limit: requests_per_minute,
            window_secs: 60,
            enabled,
            backend: Backend::Redis,
        };
        proof {
            assert(r@.windows =~= Map::empty());
        }
        r
    }

    pub fn is_redis(&self) -> (r: bool)
        ensures
            r == (self@.backend == Backend::Redis),
    {
        match self.backend {
            Backend::Redis => true,
            Backend::Memory => false,
        }
    }

    /// Window length in seconds.
    pub fn window_secs(&self) -> (r: u64)
        ensures
            r * 1000 == self@.window,
    {
        self.window_secs
    }

    /// Admission attempt from `ip` at `now_ms`. A disabled gate admits; an
    /// in-process gate decides and records; a shared-counter gate returns
    /// `None`, and the caller asks the counter and calls `counter_verdict`.
    pub fn check_and_record(&mut self, ip: u128, now_ms: u64) -> (r: Option<bool>)
        requires
            old(self).wf(),
        ensures
            final(self).wf(),
            final(self)@.same_settings(old(self)@),
            !old(self)@.enabled ==> r == Some(true) && final(self)@.windows == old(self)@.windows,
            old(self)@.enabled && old(self)@.backend == Backend::Redis ==> r is None
                && final(self)@.windows == old(self)@.windows,
            old(self)@.enabled && old(self)@.backend == Backend::Memory ==> ({
                let step = gate_step(old(self)@.stamps(ip), now_ms, old(self)@.window, old(self)@.limit);
                &&& r == Some(step.0)
                &&& final(self)@.windows == old(self)@.windows.insert(ip, step.1)
            }),
    {
        if !self.enabled {
            return Some(true);
        }
        match self.backend {
            Backend::Redis => None,
            Backend::Memory => Some(self.record_local(ip, now_ms)),
        }
    }

    fn record_local(&mut self, ip: u128, now_ms: u64) -> (r: bool)
        requires
            old(self).wf(),
        ensures
            final(self).wf(),
            final(self)@.same_settings(old(self)@),
            ({
                let step = gate_step(old(self)@.stamps(ip), now_ms, old(self)@.window, old(self)@.limit);
                &&& r == step.0
                &&& final(self)@.windows == old(self)@.windows.insert(ip, step.1)
            }),
    {
        let window = self.window_secs * 1000;
        let present = self.requests.contains_key(&ip);
        let mut kept = match self.requests.get(&ip) {
            Some(v) => recent_stamps(v, now_ms, window),
            None => Vec::new(),
        };
        proof {
            if !present {
                assert(kept@ =~= recent(Seq::<u64>::empty(), now_ms, window as int));
            }
        }
        let allowed = kept.len() < self.limit as usize;
        if allowed {
            kept.push(now_ms);
        }
        let ghost old_requests = self.requests@;
        let ghost old_addresses = self.addresses@;
        let ghost kept_view = kept@;
        self.requests.insert(ip, kept);
        if !present {
            self.addresses.push(ip);
        }
        proof {
            assert(present == old_requests.contains_key(ip));
            if present {
                assert(self.addresses@ == old_addresses);
            } else {
                assert(self.addresses@ == old_addresses.push(ip));
                assert forall|a: u128| #[trigger] self.addresses@.contains(a) <==> (
                old_addresses.contains(a) || a == ip) by {
                    if self.addresses@.contains(a) {
                        let k = choose|k: int| 0 <= k < self.addresses@.len() && self.addresses@[k] == a;
                        if k < old_addresses.len() {
                            assert(old_addresses[k] == a);
                        }
                    }
                    if old_addresses.contains(a) {
                        let k = choose|k: int| 0 <= k < old_addresses.len() && old_addresses[k] == a;
                        assert(self.addresses@[k] == a);
                    }
                    if a == ip {
                        assert(self.addresses@[old_addresses.len() as int] == ip);
                    }
                }
                assert(self.addresses@.no_duplicates()) by {
                    assert forall|i: int, j: int|
                        0 <= i < self.addresses@.len() && 0 <= j < self.addresses@.len() && i != j
                        implies self.addresses@[i] != self.addresses@[j] by {
                        if i < old_addresses.len() && j < old_addresses.len() {
                        } else if i < old_addresses.len() {
                            assert(old_addresses.contains(old_addresses[i]));
                        } else {
                            assert(old_addresses.contains(old_addresses[j]));
                        }
                    }
                }
            }
            assert(self@.windows =~= old(self)@.windows.insert(ip, kept_view));
        }
        allowed
    }

    /// Sweep: drops timestamps older than the window plus a minute of grace,
    /// and forgets addresses left with none.
    pub fn cleanup(&mut self, now_ms: u64)
        requires
            old(self).wf(),
        ensures
            final(self).wf(),
            final(self)@.same_settings(old(self)@),
            forall|a: u128|
                #[trigger] final(self)@.windows.contains_key(a) <==> (old(self)@.windows.contains_key(
                    a,
                ) && recent(old(self)@.windows[a], now_ms, old(self)@.window + 60_000).len() > 0),
            forall|a: u128|
                #[trigger] final(self)@.windows.contains_key(a) ==> final(self)@.windows[a] == recent(
                    old(self)@.windows[a],
                    now_ms,
                    old(self)@.window + 60_000,
                ),
    {
        let grace = (self.window_secs + 60) * 1000;
        let ghost w = old(self)@.window + 60_000;
        let mut requests: HashMap<u128, Vec<u64>> = HashMap::new();
        let mut addresses: Vec<u128> = Vec::new();
        let mut j: usize = 0;
        while j < self.addresses.len()
            invariant
                self.wf(),
                self@ == old(self)@,
                grace as int == w,
                0 <= j <= self.addresses.len(),
                addresses@.no_duplicates(),
                forall|a: u128| #[trigger] requests@.contains_key(a) <==> addresses@.contains(a),
                forall|a: u128|
                    #[trigger] addresses@.contains(a) ==> self.addresses@.take(j as int).contains(a),
                forall|a: u128|
                    #[trigger] requests@.contains_key(a) ==> self.requests@.contains_key(a)
                        && requests@[a]@ == recent(self.requests@[a]@, now_ms, w) && requests@[a]@.len()
                        > 0,
                forall|k: int|
                    0 <= k < j ==> (#[trigger] recent(
                        self.requests@[self.addresses@[k]]@,
                        now_ms,
                        w,
                    ).len() > 0 ==> requests@.contains_key(self.addresses@[k])),
            decreases self.addresses.len() - j,
        {
            let a = self.addresses[j];
            proof {
                assert(self.addresses@.contains(a));
            }
            let kept = match self.requests.get(&a) {
                Some(v) => recent_stamps(v, now_ms, grace),
                None => Vec::new(),
            };
            let ghost before = addresses@;
            let ghost kept_view = kept@;
            if kept.len() > 0 {
                proof {
                    if addresses@.contains(a) {
                        let k = choose|k: int| 0 <= k < j && self.addresses@[k] == a;
                        assert(self.addresses@.take(j as int)[k] == a);
                    }
                }
                requests.insert(a, kept);
                addresses.push(a);
                proof {
                    assert forall|b: u128| #[trigger] addresses@.contains(b) <==> (before.contains(b)
                        || b == a) by {
                        if addresses@.contains(b) {
                            let k = choose|k: int| 0 <= k < addresses@.len() && addresses@[k] == b;
                            if k < before.len() {
                                assert(before[k] == b);
                            }
                        }
                        if before.contains(b) {
                            let k = choose|k: int| 0 <= k < before.len() && before[k] == b;
                            assert(addresses@[k] == b);
                        }
                        if b == a {
                            assert(addresses@[before.len() as int] == a);
                        }
                    }
                    assert(addresses@.no_duplicates()) by {
                        assert forall|x: int, y: int|
                            0 <= x < addresses@.len() && 0 <= y < addresses@.len() && x != y
                            implies addresses@[x] != addresses@[y] by {
                            if x < before.len() && y < before.len() {
                            } else if x < before.len() {
                                assert(before.contains(before[x]));
                            } else {
                                assert(before.contains(before[y]));
                            }
                        }
                    }
                }
            }
            proof {
                assert forall|b: u128| #[trigger] addresses@.contains(b) implies self.addresses@.take(
                    j + 1,
                ).contains(b) by {
                    if b == a {
                        assert(self.addresses@.take(j + 1)[j as int] == a);
                    } else {
                        assert(before.contains(b));
                        let k = choose|k: int| 0 <= k < j && self.addresses@.take(j as int)[k] == b;
                        assert(self.addresses@.take(j + 1)[k] == b);
                    }
                }
                assert(kept_view == recent(self.requests@[a]@, now_ms, w));
            }
            j += 1;
        }
        self.requests = requests;
        self.addresses = addresses;
        proof {
            assert forall|a: u128|
                #[trigger] self@.windows.contains_key(a) <==> (old(self)@.windows.contains_key(a)
                    && recent(old(self)@.windows[a], now_ms, w).len() > 0) by {
                if old(self)@.windows.contains_key(a) && recent(old(self)@.windows[a], now_ms, w).len()
                    > 0 {
                    assert(old(self).addresses@.contains(a));
                    let k = choose|k: int|
                        0 <= k < old(self).addresses@.len() && old(self).addresses@[k] == a;
                }
            }
        }
    }

    /// Verdict of the shared counter after its increment: allowed iff the count
    /// is within the limit; allowed when the counter could not be reached.
    pub fn counter_verdict(&self, count: Option<u32>) -> (r: bool)
        ensures
            r == match count {
                Some(c) => c as int <= self@.limit,
                None => true,
            },
    {
        match count {
            Some(c) => c <= self.limit,
            None => true,
        }
    }

    /// Admissions of `ip` inside the window ending at `now_ms`.
    pub fn get_count(&self, ip: u128, now_ms: u64) -> (r: usize)
        requires
            self.wf(),
        ensures
            r == recent(self@.stamps(ip), now_ms, self@.window).len(),
    {
        let window = self.window_secs * 1000;
        match self.requests.get(&ip) {
            Some(v) => recent_stamps(v, now_ms, window).len(),
            None => {
                proof {
                    assert(recent(Seq::<u64>::empty(), now_ms, window as int) =~= Seq::<u64>::empty());
                }
                0
            },
        }
    }
}

/// Paths that answer health and readiness probes; admission control never
/// holds them back.
pub open spec fn is_probe_path(path: Seq<char>) -> bool {
    path == "/health"@ || path == "/ready"@
}

/// Whether a request path skips admission control.
pub fn bypasses_gate(path: &str) -> (r: bool)
    ensures
        r == is_probe_path(path@),
{
    crate::text::str_eq(path, "/health") || crate::text::str_eq(path, "/ready")
}

} // verus!
