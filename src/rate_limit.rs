//! Per-client sliding-window admission control.
//!
//! Clients are keyed by their IP address as a 128-bit integer (IPv4
//! addresses in their IPv4-mapped IPv6 form). Times are nanoseconds on a
//! monotonic clock that starts when the limiter is made.

use vstd::prelude::*;
use std::collections::HashMap;
use vstd::std_specs::iter::IteratorSpec;
use vstd::std_specs::hash::spec_keys_iter;

verus! {

broadcast use vstd::std_specs::hash::group_hash_axioms;

/// Number of timestamps of `h` that lie in `[lo, hi]`.
pub open spec fn count_in(h: Seq<u64>, lo: int, hi: int) -> nat
    decreases h.len(),
{
    if h.len() == 0 {
        0
    } else {
        count_in(h.drop_last(), lo, hi) + if lo <= h.last() <= hi {
            1nat
        } else {
            0nat
        }
    }
}

/// The timestamps of `s` that are not older than `lo`, in order.
pub open spec fn fresh(s: Seq<u64>, lo: int) -> Seq<u64>
    decreases s.len(),
{
    if s.len() == 0 {
        s
    } else if s.last() >= lo {
        fresh(s.drop_last(), lo).push(s.last())
    } else {
        fresh(s.drop_last(), lo)
    }
}

/// Oldest timestamp still inside a window of `window` ending at `now`.
pub open spec fn window_start(now: u64, window: u64) -> int {
    if now >= window {
        now - window
    } else {
        0
    }
}

proof fn lemma_count_push(h: Seq<u64>, x: u64, lo: int, hi: int)
    ensures
        count_in(h.push(x), lo, hi) == count_in(h, lo, hi) + if lo <= x <= hi {
            1nat
        } else {
            0nat
        },
{
    assert(h.push(x).drop_last() =~= h);
}

proof fn lemma_fresh_count(s: Seq<u64>, lo0: int, lo: int, hi: int)
    requires
        lo0 <= lo || lo0 <= 0,
    ensures
        count_in(fresh(s, lo0), lo, hi) == count_in(s, lo, hi),
    decreases s.len(),
{
    if s.len() > 0 {
        lemma_fresh_count(s.drop_last(), lo0, lo, hi);
        if s.last() >= lo0 {
            lemma_count_push(fresh(s.drop_last(), lo0), s.last(), lo, hi);
        }
    }
}

proof fn lemma_fresh_bounds(s: Seq<u64>, lo: int, top: int)
    requires
        forall|i: int| 0 <= i < s.len() ==> s[i] <= top,
    ensures
        forall|i: int| 0 <= i < fresh(s, lo).len() ==> lo <= #[trigger] fresh(s, lo)[i] <= top,
        fresh(s, lo).len() <= s.len(),
    decreases s.len(),
{
    if s.len() > 0 {
        let p = s.drop_last();
        assert forall|i: int| 0 <= i < p.len() implies p[i] <= top by {
            assert(p[i] == s[i]);
        }
        lemma_fresh_bounds(p, lo, top);
    }
}

proof fn lemma_count_all(s: Seq<u64>, lo: int, hi: int)
    requires
        forall|i: int| 0 <= i < s.len() ==> lo <= #[trigger] s[i] <= hi,
    ensures
        count_in(s, lo, hi) == s.len(),
    decreases s.len(),
{
    if s.len() > 0 {
        let p = s.drop_last();
        assert forall|i: int| 0 <= i < p.len() implies lo <= #[trigger] p[i] <= hi by {
            assert(p[i] == s[i]);
        }
        lemma_count_all(p, lo, hi);
    }
}

/// A window that ends at or after `now` holds no more of `h` than the window
/// that ends at `now`, when nothing in `h` is later than `now`.
proof fn lemma_count_later_window(h: Seq<u64>, now: u64, window: u64, lo: int, hi: int)
    requires
        forall|i: int| 0 <= i < h.len() ==> h[i] <= now,
        hi >= now,
        hi - lo == window,
    ensures
        count_in(h, lo, hi) <= count_in(h, window_start(now, window), now as int),
    decreases h.len(),
{
    if h.len() > 0 {
        let p = h.drop_last();
        assert forall|i: int| 0 <= i < p.len() implies p[i] <= now by {
            assert(p[i] == h[i]);
        }
        lemma_count_later_window(p, now, window, lo, hi);
    }
}

/// Abstract state of a [`RateLimiter`].
pub struct LimiterView {
    /// Requests admitted per window.
    pub max_requests: u64,
    /// Window length in nanoseconds.
    pub window: u64,
    /// The latest time the limiter has seen.
    pub latest: u64,
    /// Every admission so far, per client, in order.
    pub admitted: Map<u128, Seq<u64>>,
    /// The timestamps each client's bucket currently holds.
    pub buckets: Map<u128, Seq<u64>>,
}

impl LimiterView {
    /// The admissions of client `ip`.
    pub open spec fn admitted_of(self, ip: u128) -> Seq<u64> {
        if self.admitted.contains_key(ip) {
            self.admitted[ip]
        } else {
            Seq::empty()
        }
    }

    /// The bucket of client `ip` (empty when it has none).
    pub open spec fn bucket_of(self, ip: u128) -> Seq<u64> {
        if self.buckets.contains_key(ip) {
            self.buckets[ip]
        } else {
            Seq::empty()
        }
    }

    /// The time a call at `now` is taken to happen: the clock reading, or
    /// the latest time seen if the reading is earlier.
    pub open spec fn effective_now(self, now: u64) -> u64 {
        if now < self.latest {
            self.latest
        } else {
            now
        }
    }

    /// Whether a request from `ip` at `now` is admitted: fewer than
    /// `max_requests` admissions of `ip` lie in the window ending at `now`.
    pub open spec fn would_admit(self, ip: u128, now: u64) -> bool {
        let t = self.effective_now(now);
        count_in(self.admitted_of(ip), window_start(t, self.window), t as int)
            < self.max_requests
    }
}

/// Relies on `std::time::Instant::now`: a reading of the monotonic clock.
#[verifier::external_body]
fn clock_origin() -> (r: std::time::Instant) {
    std::time::Instant::now()
}

/// Relies on `std::time::Instant::elapsed`: the time since `origin` on the
/// monotonic clock.
#[verifier::external_body]
fn elapsed_since(origin: &std::time::Instant) -> (r: std::time::Duration) {
    origin.elapsed()
}

/// Relies on `std::time::Duration::as_nanos`: the whole nanoseconds of `d`.
#[verifier::external_body]
fn whole_nanos(d: std::time::Duration) -> (r: u128) {
    d.as_nanos()
}

/// `std::time::Instant`, held opaque as the limiter's clock origin.
#[verifier::external_type_specification]
#[verifier::external_body]
pub struct ExInstant(std::time::Instant);

/// The timestamps of `bucket` that are not older than `lo`.
fn keep_fresh(bucket: &Vec<u64>, lo: u64) -> (r: Vec<u64>)
    ensures
        r@ == fresh(bucket@, lo as int),
{
    let mut r: Vec<u64> = Vec::new();
    let mut i: usize = 0;
    while i < bucket.len()
        invariant
            i <= bucket@.len(),
            r@ == fresh(bucket@.subrange(0, i as int), lo as int),
        decreases bucket.len() - i,
    {
        assert(bucket@.subrange(0, i + 1).drop_last() =~= bucket@.subrange(0, i as int));
        if bucket[i] >= lo {
            r.push(bucket[i]);
        }
        i = i + 1;
    }
    assert(bucket@.subrange(0, bucket@.len() as int) =~= bucket@);
    r
}

/// The clients that have a bucket.
fn clients_of(m: &HashMap<u128, Vec<u64>>) -> (r: Vec<u128>)
    ensures
        r@.to_set() == m@.dom(),
        r@.no_duplicates(),
{
    let mut r: Vec<u128> = Vec::new();
    let ghost all = m.keys().remaining();
    for k in it: m.keys()
        invariant
            it.seq() == all,
            r@ == all.take(it.index()).unref(),
    {
        r.push(*k);
    }
    assert(all == spec_keys_iter(m).remaining());
    assert(r@ == all.unref());
    r
}

/// Sliding-window admission state shared by all requests.
pub struct RateLimiter {
    requests: HashMap<u128, Vec<u64>>,
    max_requests: u64,
    window: u64,
    latest: u64,
    origin: std::time::Instant,
    admitted: Ghost<Map<u128, Seq<u64>>>,
}

impl View for RateLimiter {
    type V = LimiterView;

    closed spec fn view(&self) -> LimiterView {
        LimiterView {
            max_requests: self.max_requests,
            window: self.window,
            latest: self.latest,
            admitted: self.admitted@,
            buckets: self.requests@.map_values(|b: Vec<u64>| b@),
        }
    }
}

impl RateLimiter {
    /// The limiter's internal invariant: buckets and admissions hold no time
    /// later than the latest seen; within any window that the limiter may
    /// still look at, a bucket counts what was admitted; and no window of
    /// length `window` holds more than `max_requests` admissions.
    pub closed spec fn wf(&self) -> bool {
        let v = self@;
        &&& forall|ip: u128, i: int|
            0 <= i < v.bucket_of(ip).len() ==> #[trigger] v.bucket_of(ip)[i] <= v.latest
        &&& forall|ip: u128, i: int|
            0 <= i < v.admitted_of(ip).len() ==> #[trigger] v.admitted_of(ip)[i] <= v.latest
        &&& forall|ip: u128, lo: int, hi: int|
            lo >= v.latest - v.window ==> #[trigger] count_in(v.bucket_of(ip), lo, hi) == count_in(
                v.admitted_of(ip),
                lo,
                hi,
            )
        &&& forall|ip: u128, lo: int, hi: int|
            hi - lo == v.window ==> #[trigger] count_in(v.admitted_of(ip), lo, hi)
                <= v.max_requests
    }

    /// A limiter admitting `max_requests` per client per window of
    /// `window_secs` seconds.
    pub fn new(max_requests: u64, window_secs: u64) -> (r: RateLimiter)
        ensures
            r.wf(),
            r@.max_requests == max_requests,
            r@.window == if window_secs <= u64::MAX / 1_000_000_000 {
                (window_secs * 1_000_000_000) as u64
            } else {
                u64::MAX
            },
            r@.latest == 0,
            r@.admitted == Map::<u128, Seq<u64>>::empty(),
            r@.buckets == Map::<u128, Seq<u64>>::empty(),
    {
        let window = if window_secs <= u64::MAX / 1_000_000_000 {
            window_secs * 1_000_000_000
        } else {
            u64::MAX
        };
        let r = RateLimiter {
            requests: HashMap::new(),
            max_requests,
            window,
            latest: 0,
            origin: clock_origin(),
            admitted: Ghost(Map::empty()),
        };
        assert(r@.buckets =~= Map::<u128, Seq<u64>>::empty());
        r
    }

    /// Admission decision for a request from `ip` at time `now`: discards the
    /// bucket's timestamps older than the window, then admits and records
    /// the request if fewer than `max_requests` remain.
    pub fn check_at(&mut self, ip: u128, now: u64) -> (r: bool)
        requires
            old(self).wf(),
        ensures
            final(self).wf(),
            r == old(self)@.would_admit(ip, now),
            final(self)@.max_requests == old(self)@.max_requests,
            final(self)@.window == old(self)@.window,
            final(self)@.latest == old(self)@.effective_now(now),
            final(self)@.admitted_of(ip) == if r {
                old(self)@.admitted_of(ip).push(old(self)@.effective_now(now))
            } else {
                old(self)@.admitted_of(ip)
            },
            forall|q: u128| q != ip ==> final(self)@.admitted_of(q) == old(self)@.admitted_of(q),
            final(self)@.bucket_of(ip) == if r {
                fresh(
                    old(self)@.bucket_of(ip),
                    window_start(old(self)@.effective_now(now), old(self)@.window),
                ).push(old(self)@.effective_now(now))
            } else {
                fresh(
                    old(self)@.bucket_of(ip),
                    window_start(old(self)@.effective_now(now), old(self)@.window),
                )
            },
            forall|q: u128| q != ip ==> final(self)@.bucket_of(q) == old(self)@.bucket_of(q),
    {
        let ghost pre = self@;
        let t = if now < self.latest {
            self.latest
        } else {
            now
        };
        let lo = t.saturating_sub(self.window);
        let bucket = match self.requests.remove(&ip) {
            Some(b) => b,
            None => Vec::new(),
        };
        assert(bucket@ == pre.bucket_of(ip));
        let mut kept = keep_fresh(&bucket, lo);
        let accepted = (kept.len() as u64) < self.max_requests;
        proof {
            let h = pre.admitted_of(ip);
            lemma_fresh_bounds(bucket@, lo as int, pre.latest as int);
            lemma_count_all(kept@, lo as int, t as int);
            lemma_fresh_count(bucket@, lo as int, lo as int, t as int);
            assert(count_in(h, lo as int, t as int) == kept@.len());
        }
        if accepted {
            kept.push(t);
        }
        let ghost kept_final = kept@;
        self.requests.insert(ip, kept);
        self.latest = t;
        proof {
            let h = pre.admitted_of(ip);
            if accepted {
                self.admitted@ = self.admitted@.insert(ip, h.push(t));
            }
            let v = self@;
            assert(v.buckets =~= pre.buckets.insert(ip, kept_final));
            assert(v.bucket_of(ip) == kept_final);
            assert forall|q: u128, i: int|
                0 <= i < v.bucket_of(q).len() implies #[trigger] v.bucket_of(q)[i] <= v.latest by {
                if q == ip {
                    lemma_fresh_bounds(bucket@, lo as int, pre.latest as int);
                    if accepted && i < kept_final.len() - 1 {
                        assert(kept_final[i] == fresh(bucket@, lo as int)[i]);
                    }
                } else {
                    assert(v.bucket_of(q) == pre.bucket_of(q));
                }
            }
            assert forall|q: u128, i: int|
                0 <= i < v.admitted_of(q).len() implies #[trigger] v.admitted_of(q)[i] <= v.latest by {
                if q == ip && accepted && i < h.len() {
                    assert(v.admitted_of(q)[i] == h[i]);
                    assert(h[i] <= pre.latest);
                } else if q != ip {
                    assert(v.admitted_of(q) == pre.admitted_of(q));
                    assert(pre.admitted_of(q)[i] <= pre.latest);
                }
            }
            assert forall|q: u128, a: int, b: int| a >= v.latest - v.window implies #[trigger] count_in(
                v.bucket_of(q),
                a,
                b,
            ) == count_in(v.admitted_of(q), a, b) by {
                assert(count_in(pre.bucket_of(q), a, b) == count_in(pre.admitted_of(q), a, b));
                if q == ip {
                    lemma_fresh_count(bucket@, lo as int, a, b);
                    if accepted {
                        lemma_count_push(fresh(bucket@, lo as int), t, a, b);
                        lemma_count_push(h, t, a, b);
                    }
                } else {
                    assert(v.bucket_of(q) == pre.bucket_of(q));
                    assert(v.admitted_of(q) == pre.admitted_of(q));
                }
            }
            assert forall|q: u128, a: int, b: int| b - a == v.window implies #[trigger] count_in(
                v.admitted_of(q),
                a,
                b,
            ) <= v.max_requests by {
                assert(count_in(pre.admitted_of(q), a, b) <= pre.max_requests);
                if q == ip && accepted {
                    lemma_count_push(h, t, a, b);
                    if b >= t {
                        lemma_count_later_window(h, t, pre.window, a, b);
                    }
                } else if q != ip {
                    assert(v.admitted_of(q) == pre.admitted_of(q));
                }
            }
        }
        accepted
    }

    /// A reading of the limiter's clock: nanoseconds since it was made,
    /// saturating at `u64::MAX`.
    pub fn now(&self) -> (r: u64) {
        let n = whole_nanos(elapsed_since(&self.origin));
        if n > u64::MAX as u128 {
            u64::MAX
        } else {
            n as u64
        }
    }

    /// Reclamation at time `now`: discards every bucket's timestamps older
    /// than the window, then drops the buckets that became empty.
    pub fn cleanup_at(&mut self, now: u64)
        requires
            old(self).wf(),
        ensures
            final(self).wf(),
            final(self)@.max_requests == old(self)@.max_requests,
            final(self)@.window == old(self)@.window,
            final(self)@.latest == old(self)@.effective_now(now),
            final(self)@.admitted == old(self)@.admitted,
            forall|ip: u128|
                #[trigger] final(self)@.bucket_of(ip) == fresh(
                    old(self)@.bucket_of(ip),
                    window_start(old(self)@.effective_now(now), old(self)@.window),
                ),
            forall|ip: u128|
                #[trigger] final(self)@.buckets.contains_key(ip) <==> final(self)@.bucket_of(
                    ip,
                ).len() > 0,
    {
        let ghost pre = self@;
        let t = if now < self.latest {
            self.latest
        } else {
            now
        };
        let lo = t.saturating_sub(self.window);
        let ips = clients_of(&self.requests);
        let mut i: usize = 0;
        while i < ips.len()
            invariant
                ips@.to_set() == pre.buckets.dom(),
                ips@.no_duplicates(),
                i <= ips@.len(),
                self@.max_requests == pre.max_requests,
                self@.window == pre.window,
                self@.latest == pre.latest,
                self@.admitted == pre.admitted,
                forall|ip: u128|
                    #![trigger self@.bucket_of(ip)]
                    ips@.subrange(0, i as int).contains(ip) ==> self@.bucket_of(ip) == fresh(
                        pre.bucket_of(ip),
                        lo as int,
                    ) && (self@.buckets.contains_key(ip) <==> self@.bucket_of(ip).len() > 0),
                forall|ip: u128|
                    #![trigger self@.bucket_of(ip)]
                    !ips@.subrange(0, i as int).contains(ip) ==> self@.bucket_of(ip)
                        == pre.bucket_of(ip) && self@.buckets.contains_key(ip)
                        == pre.buckets.contains_key(ip),
            decreases ips.len() - i,
        {
            let ip = ips[i];
            let ghost before = self@;
            assert(!ips@.subrange(0, i as int).contains(ip)) by {
                if ips@.subrange(0, i as int).contains(ip) {
                    let j = choose|j: int| 0 <= j < i && #[trigger] ips@.subrange(0, i as int)[j] == ip;
                    assert(ips@[j] == ips@[i as int]);
                }
            }
            assert(ips@.to_set().contains(ip));
            assert(before.bucket_of(ip) == pre.bucket_of(ip));
            assert(before.buckets.contains_key(ip));
            let bucket = match self.requests.remove(&ip) {
                Some(b) => b,
                None => Vec::new(),
            };
            let kept = keep_fresh(&bucket, lo);
            let ghost kept_v = kept@;
            if kept.len() > 0 {
                self.requests.insert(ip, kept);
            }
            proof {
                assert(ips@.subrange(0, i + 1) =~= ips@.subrange(0, i as int).push(ip));
                assert(bucket@ == pre.bucket_of(ip));
                if kept_v.len() > 0 {
                    assert(self@.buckets =~= before.buckets.insert(ip, kept_v));
                } else {
                    assert(self@.buckets =~= before.buckets.remove(ip));
                }
                assert forall|q: u128| q != ip implies #[trigger] self@.bucket_of(q)
                    == before.bucket_of(q) && self@.buckets.contains_key(q)
                    == before.buckets.contains_key(q) by {
                    assert(self@.buckets.contains_key(q) == before.buckets.contains_key(q));
                }
                assert(self@.bucket_of(ip) == kept_v);
                assert forall|q: u128| #[trigger] ips@.subrange(0, i + 1).contains(q) implies (q == ip
                    || ips@.subrange(0, i as int).contains(q)) by {
                    let j = choose|j: int| 0 <= j < i + 1 && #[trigger] ips@.subrange(0, i + 1)[j] == q;
                    if j < i {
                        assert(ips@.subrange(0, i as int)[j] == q);
                    }
                }
                assert forall|q: u128| !#[trigger] ips@.subrange(0, i + 1).contains(q) implies (q != ip
                    && !ips@.subrange(0, i as int).contains(q)) by {
                    if q == ip {
                        assert(ips@.subrange(0, i + 1)[i as int] == ip);
                    }
                    if ips@.subrange(0, i as int).contains(q) {
                        let j = choose|j: int| 0 <= j < i && #[trigger] ips@.subrange(0, i as int)[j] == q;
                        assert(ips@.subrange(0, i + 1)[j] == q);
                    }
                }
                assert forall|q: u128| !#[trigger] ips@.subrange(0, i + 1).contains(q) implies (
                self@.bucket_of(q) == pre.bucket_of(q) && self@.buckets.contains_key(q)
                    == pre.buckets.contains_key(q)) by {
                    assert(q != ip);
                    assert(!ips@.subrange(0, i as int).contains(q));
                    assert(before.bucket_of(q) == pre.bucket_of(q));
                    assert(self@.bucket_of(q) == before.bucket_of(q));
                }
            }
            i = i + 1;
        }
        let ghost mid = self@;
        self.latest = t;
        proof {
            let v = self@;
            assert(v.buckets == mid.buckets);
            assert(ips@.subrange(0, ips@.len() as int) =~= ips@);
            assert forall|ip: u128| #[trigger] v.bucket_of(ip) == fresh(pre.bucket_of(ip), lo as int) by {
                assert(v.bucket_of(ip) == mid.bucket_of(ip));
                if !ips@.contains(ip) {
                    assert(!pre.buckets.contains_key(ip));
                    assert(pre.bucket_of(ip) =~= Seq::<u64>::empty());
                    assert(v.bucket_of(ip) =~= Seq::<u64>::empty());
                }
            }
            assert forall|ip: u128| #[trigger] v.buckets.contains_key(ip) <==> v.bucket_of(ip).len() > 0 by {
                assert(v.bucket_of(ip) == mid.bucket_of(ip));
                if !ips@.contains(ip) {
                    assert(!pre.buckets.contains_key(ip));
                }
            }
            assert forall|q: u128, j: int|
                0 <= j < v.bucket_of(q).len() implies #[trigger] v.bucket_of(q)[j] <= v.latest by {
                lemma_fresh_bounds(pre.bucket_of(q), lo as int, pre.latest as int);
            }
            assert forall|q: u128, j: int|
                0 <= j < v.admitted_of(q).len() implies #[trigger] v.admitted_of(q)[j] <= v.latest by {
                assert(v.admitted_of(q) == pre.admitted_of(q));
                assert(pre.admitted_of(q)[j] <= pre.latest);
            }
            assert forall|q: u128, a: int, b: int| a >= v.latest - v.window implies #[trigger] count_in(
                v.bucket_of(q),
                a,
                b,
            ) == count_in(v.admitted_of(q), a, b) by {
                assert(count_in(pre.bucket_of(q), a, b) == count_in(pre.admitted_of(q), a, b));
                lemma_fresh_count(pre.bucket_of(q), lo as int, a, b);
            }
            assert forall|q: u128, a: int, b: int| b - a == v.window implies #[trigger] count_in(
                v.admitted_of(q),
                a,
                b,
            ) <= v.max_requests by {
                assert(count_in(pre.admitted_of(q), a, b) <= pre.max_requests);
            }
        }
    }

    /// Reclamation now; meant to run periodically in the background.
    pub fn cleanup(&mut self)
        requires
            old(self).wf(),
        ensures
            final(self).wf(),
            final(self)@.admitted == old(self)@.admitted,
            forall|ip: u128|
                #[trigger] final(self)@.bucket_of(ip) == fresh(
                    old(self)@.bucket_of(ip),
                    window_start(final(self)@.latest, old(self)@.window),
                ),
            forall|ip: u128|
                #[trigger] final(self)@.buckets.contains_key(ip) <==> final(self)@.bucket_of(
                    ip,
                ).len() > 0,
    {
        let now = self.now();
        self.cleanup_at(now);
    }

    /// Admission decision for a request from `ip` now.
    pub fn check(&mut self, ip: u128) -> (r: bool)
        requires
            old(self).wf(),
        ensures
            final(self).wf(),
            exists|now: u64|
                final(self)@.latest == old(self)@.effective_now(now) && r == old(
                    self,
                )@.would_admit(ip, now),
            final(self)@.admitted_of(ip) == if r {
                old(self)@.admitted_of(ip).push(final(self)@.latest)
            } else {
                old(self)@.admitted_of(ip)
            },
            forall|q: u128| q != ip ==> final(self)@.admitted_of(q) == old(self)@.admitted_of(q),
    {
        let now = self.now();
        self.check_at(ip, now)
    }
}

/// No client gets more than `max_requests` admissions within any window of
/// length `window` (a closed interval of that many nanoseconds).
pub proof fn admissions_per_window_bounded(rl: &RateLimiter, ip: u128, lo: int, hi: int)
    requires
        rl.wf(),
        hi - lo == rl@.window,
    ensures
        count_in(rl@.admitted_of(ip), lo, hi) <= rl@.max_requests,
{
}

} // verus!
