//! Per-IP request limiting over fixed windows, with the entries spread over
//! stripes chosen by a hash of the address.
use vstd::prelude::*;
use vstd::std_specs::hash::DefaultHasherAdditionalSpecFns;
use std::collections::hash_map::DefaultHasher;
use std::hash::Hasher;
use vstd::pervasive::VecAdditionalExecFns;
use crate::text::{str_chars, string_from_chars};
use crate::errors::{RequestError, ServerError};

verus! {

/// One address's window: how many requests it made and when the window began
/// (nanoseconds on the server's monotonic clock).
pub struct RateEntry {
    pub ip: String,
    pub count: usize,
    pub stamp: u64,
}

/// Counts requests per IP address: at most `max_requests_per_ip` requests are
/// let through in a window of `rate_limit_duration` nanoseconds, the window
/// starting at an address's first request after the previous one ran out.
pub struct DynamicStripedRateLimiter {
    stripes: Vec<Vec<RateEntry>>,
    num_stripes: usize,
    rate_limit_duration: u64,
    max_requests_per_ip: usize,
    cleanup_interval: u64,
}

/// The hash std's `DefaultHasher` gives a string: its UTF-8 bytes followed by
/// the byte 0xff, which is what hashing a `str` writes.
pub open spec fn ip_hash(ip: Seq<char>) -> u64 {
    DefaultHasher::spec_finish(seq![vstd::utf8::encode_utf8(ip), seq![0xffu8]])
}

/// Time from `stamp` to `now`, zero when `stamp` is later.
pub open spec fn elapsed(now: u64, stamp: u64) -> int {
    if now >= stamp {
        now - stamp
    } else {
        0
    }
}

/// An address's window as seen at `now`: a fresh one when it has none or its
/// window has lasted longer than `window`.
pub open spec fn current_window(e: Option<(nat, u64)>, now: u64, window: u64) -> (nat, u64) {
    let (c, s) = match e {
        Some(x) => x,
        None => (0nat, now),
    };
    if elapsed(now, s) > window {
        (0nat, now)
    } else {
        (c, s)
    }
}

/// Whether a request at `now` is let through, and the address's window after it.
pub open spec fn check_outcome(e: Option<(nat, u64)>, now: u64, window: u64, max: nat) -> (
    bool,
    (nat, u64),
) {
    let (c, s) = current_window(e, now, window);
    if c >= max {
        (false, (c, s))
    } else {
        (true, ((c + 1) as nat, s))
    }
}

/// A stripe whose only change is at entries of other addresses answers the same for `other`.
proof fn lemma_lookup_frame(s1: Seq<RateEntry>, s2: Seq<RateEntry>, other: Seq<char>)
    requires
        stripe_unique(s1),
        stripe_unique(s2),
        forall|k: int| 0 <= k < s1.len() && #[trigger] s1[k].ip@ == other ==> k < s2.len() && s2[k] == s1[k],
        forall|k: int| 0 <= k < s2.len() && #[trigger] s2[k].ip@ == other ==> k < s1.len() && s1[k] == s2[k],
    ensures
        stripe_lookup(s1, other) == stripe_lookup(s2, other),
{
    if exists|j: int| 0 <= j < s1.len() && #[trigger] s1[j].ip@ == other {
        let j1 = choose|j: int| 0 <= j < s1.len() && #[trigger] s1[j].ip@ == other;
        assert(s2[j1].ip@ == other);
        let j2 = choose|j: int| 0 <= j < s2.len() && #[trigger] s2[j].ip@ == other;
        if j1 != j2 {
            if j1 < j2 {
                assert(s2[j1].ip@ != s2[j2].ip@);
            } else {
                assert(s2[j2].ip@ != s2[j1].ip@);
            }
        }
    } else if exists|j: int| 0 <= j < s2.len() && #[trigger] s2[j].ip@ == other {
        let j2 = choose|j: int| 0 <= j < s2.len() && #[trigger] s2[j].ip@ == other;
        assert(s1[j2].ip@ == other);
    }
}

/// In a stripe without repeats, the entry at `j` is what its address looks up.
proof fn lemma_lookup_at(s: Seq<RateEntry>, j: int, ip: Seq<char>)
    requires
        stripe_unique(s),
        0 <= j < s.len(),
        s[j].ip@ == ip,
    ensures
        stripe_lookup(s, ip) == Some((s[j].count as nat, s[j].stamp)),
{
    let c = choose|c: int| 0 <= c < s.len() && #[trigger] s[c].ip@ == ip;
    if c != j {
        if c < j {
            assert(s[c].ip@ != s[j].ip@);
        } else {
            assert(s[j].ip@ != s[c].ip@);
        }
    }
}

/// A window is kept by cleanup while it has lasted no longer than `window`.
pub open spec fn fresh(e: RateEntry, now: u64, window: u64) -> bool {
    elapsed(now, e.stamp) <= window
}

/// What cleanup leaves of a stored window.
pub open spec fn after_cleanup(e: Option<(nat, u64)>, now: u64, window: u64) -> Option<(nat, u64)> {
    match e {
        Some(x) => if elapsed(now, x.1) > window {
            None
        } else {
            Some(x)
        },
        None => None,
    }
}

/// Looking up in a stripe extended by one new address.
proof fn lemma_lookup_push(s: Seq<RateEntry>, e: RateEntry, ip: Seq<char>)
    requires
        stripe_unique(s.push(e)),
    ensures
        stripe_lookup(s.push(e), ip) == if e.ip@ == ip {
            Some((e.count as nat, e.stamp))
        } else {
            stripe_lookup(s, ip)
        },
{
    let t = s.push(e);
    if e.ip@ == ip {
        lemma_lookup_at(t, s.len() as int, ip);
    } else {
        if exists|j: int| 0 <= j < s.len() && #[trigger] s[j].ip@ == ip {
            let j = choose|j: int| 0 <= j < s.len() && #[trigger] s[j].ip@ == ip;
            assert(t[j] == s[j]);
            lemma_lookup_at(t, j, ip);
            assert forall|a: int, b: int| 0 <= a < b < s.len() implies #[trigger] s[a].ip@
                != #[trigger] s[b].ip@ by {
                assert(t[a] == s[a] && t[b] == s[b]);
            }
            lemma_lookup_at(s, j, ip);
        } else {
            assert forall|j: int| 0 <= j < t.len() implies #[trigger] t[j].ip@ != ip by {
                if j < s.len() {
                    assert(t[j] == s[j]);
                }
            }
        }
    }
}

/// Keeps the fresh entries of a stripe.
fn retain_fresh(stripe: Vec<RateEntry>, now: u64, window: u64, max: usize) -> (r: Vec<RateEntry>)
    requires
        stripe_unique(stripe@),
        forall|k: int| 0 <= k < stripe@.len() ==> #[trigger] stripe@[k].count <= max,
    ensures
        stripe_unique(r@),
        forall|ip: Seq<char>| #[trigger] stripe_lookup(r@, ip) == after_cleanup(
            stripe_lookup(stripe@, ip),
            now,
            window,
        ),
        forall|m: int| 0 <= m < r@.len() ==> #[trigger] r@[m].count <= max,
{
    let ghost orig = stripe@;
    let mut rest = stripe;
    let mut kept: Vec<RateEntry> = Vec::new();
    let n = rest.len();
    let mut i: usize = 0;
    while i < n
        invariant
            n == orig.len(),
            n == rest@.len(),
            i <= n,
            stripe_unique(orig),
            forall|k: int| 0 <= k < n ==> #[trigger] orig[k].count <= max,
            forall|k: int| i <= k < n ==> #[trigger] rest@[k] == orig[k],
            stripe_unique(kept@),
            forall|ip: Seq<char>| #[trigger] stripe_lookup(kept@, ip) == after_cleanup(
                stripe_lookup(orig.take(i as int), ip),
                now,
                window,
            ),
            forall|m: int| 0 <= m < kept@.len() ==> stripe_lookup(orig.take(i as int), #[trigger] kept@[m].ip@) is Some,
            forall|m: int| 0 <= m < kept@.len() ==> #[trigger] kept@[m].count <= max,
        decreases n - i,
    {
        let mut e = RateEntry { ip: String::new(), count: 0, stamp: 0 };
        rest.set_and_swap(i, &mut e);
        assert(e == orig[i as int]);
        let ghost pre = orig.take(i as int);
        assert(orig.take(i + 1) =~= pre.push(e));
        proof {
            assert(stripe_unique(pre.push(e))) by {
                assert forall|a: int, b: int| 0 <= a < b < pre.push(e).len() implies #[trigger] pre.push(e)[a].ip@
                    != #[trigger] pre.push(e)[b].ip@ by {
                    assert(pre.push(e)[a] == orig[a] && pre.push(e)[b] == orig[b]);
                }
            }
            assert forall|ip: Seq<char>| #[trigger] stripe_lookup(pre.push(e), ip) == if e.ip@ == ip {
                Some((e.count as nat, e.stamp))
            } else {
                stripe_lookup(pre, ip)
            } by {
                lemma_lookup_push(pre, e, ip);
            }
            assert(stripe_lookup(pre, e.ip@) is None) by {
                if exists|j: int| 0 <= j < pre.len() && #[trigger] pre[j].ip@ == e.ip@ {
                    let j = choose|j: int| 0 <= j < pre.len() && #[trigger] pre[j].ip@ == e.ip@;
                    assert(orig[j].ip@ != orig[i as int].ip@);
                }
            }
        }
        let since: u64 = if now >= e.stamp { now - e.stamp } else { 0 };
        if since <= window {
            let ghost k0 = kept@;
            proof {
                assert forall|m: int| 0 <= m < k0.len() implies #[trigger] k0[m].ip@ != e.ip@ by {
                    assert(stripe_lookup(pre, k0[m].ip@) is Some);
                }
            }
            kept.push(e);
            proof {
                assert(stripe_unique(kept@)) by {
                    assert forall|a: int, b: int| 0 <= a < b < kept@.len() implies #[trigger] kept@[a].ip@
                        != #[trigger] kept@[b].ip@ by {
                        if b == k0.len() {
                            assert(kept@[a] == k0[a]);
                        } else {
                            assert(kept@[a] == k0[a] && kept@[b] == k0[b]);
                        }
                    }
                }
                assert forall|ip: Seq<char>| #[trigger] stripe_lookup(kept@, ip) == after_cleanup(
                    stripe_lookup(orig.take(i + 1), ip),
                    now,
                    window,
                ) by {
                    lemma_lookup_push(k0, e, ip);
                }
                assert forall|m: int| 0 <= m < kept@.len() implies stripe_lookup(orig.take(i + 1), #[trigger] kept@[m].ip@) is Some by {
                    if m < k0.len() {
                        assert(kept@[m] == k0[m]);
                        assert(stripe_lookup(pre, k0[m].ip@) is Some);
                    }
                }
            }
        } else {
            proof {
                assert forall|ip: Seq<char>| #[trigger] stripe_lookup(kept@, ip) == after_cleanup(
                    stripe_lookup(orig.take(i + 1), ip),
                    now,
                    window,
                ) by {
                    if e.ip@ != ip {
                        assert(stripe_lookup(orig.take(i + 1), ip) == stripe_lookup(pre, ip));
                    }
                }
                assert forall|m: int| 0 <= m < kept@.len() implies stripe_lookup(orig.take(i + 1), #[trigger] kept@[m].ip@) is Some by {
                    assert(stripe_lookup(pre, kept@[m].ip@) is Some);
                    if kept@[m].ip@ == e.ip@ {
                        assert(false);
                    }
                }
            }
        }
        i = i + 1;
    }
    assert(orig.take(n as int) =~= orig);
    kept
}

/// The window stored under `ip` in `stripe`, if any.
pub open spec fn stripe_lookup(stripe: Seq<RateEntry>, ip: Seq<char>) -> Option<(nat, u64)> {
    if exists|j: int| 0 <= j < stripe.len() && #[trigger] stripe[j].ip@ == ip {
        let j = choose|j: int| 0 <= j < stripe.len() && #[trigger] stripe[j].ip@ == ip;
        Some((stripe[j].count as nat, stripe[j].stamp))
    } else {
        None
    }
}

/// No address occurs twice in a stripe.
pub open spec fn stripe_unique(stripe: Seq<RateEntry>) -> bool {
    forall|i: int, j: int|
        0 <= i < j < stripe.len() ==> #[trigger] stripe[i].ip@ != #[trigger] stripe[j].ip@
}

impl DynamicStripedRateLimiter {
    pub closed spec fn stripe_count(&self) -> nat {
        self.num_stripes as nat
    }

    pub closed spec fn window(&self) -> u64 {
        self.rate_limit_duration
    }

    pub closed spec fn max_requests(&self) -> nat {
        self.max_requests_per_ip as nat
    }

    pub closed spec fn interval(&self) -> u64 {
        self.cleanup_interval
    }

    /// The stripe that holds `ip`'s window.
    pub open spec fn stripe_index(&self, ip: Seq<char>) -> int {
        ((ip_hash(ip) as usize) % (self.stripe_count() as usize)) as int
    }

    /// The window kept for `ip`, if any.
    pub closed spec fn entry(&self, ip: Seq<char>) -> Option<(nat, u64)> {
        stripe_lookup(self.stripes@[self.stripe_index(ip)]@, ip)
    }

    /// One stripe per slot, no address twice in a stripe, and no window
    /// holding more requests than the limit.
    pub closed spec fn wf(&self) -> bool {
        &&& self.stripes@.len() == self.num_stripes
        &&& forall|i: int| 0 <= i < self.stripes@.len() ==> stripe_unique(#[trigger] self.stripes@[i]@)
        &&& forall|i: int, j: int|
            0 <= i < self.stripes@.len() && 0 <= j < self.stripes@[i]@.len()
                ==> #[trigger] self.stripes@[i]@[j].count <= self.max_requests_per_ip
    }

    /// No stored window holds more requests than the limit.
    pub proof fn lemma_entries_within_limit(&self, ip: Seq<char>)
        requires
            self.wf(),
            self.stripe_count() > 0,
        ensures
            self.entry(ip) matches Some(e) ==> e.0 <= self.max_requests(),
    {
        let s = self.stripes@[self.stripe_index(ip)]@;
        if exists|j: int| 0 <= j < s.len() && #[trigger] s[j].ip@ == ip {
            let j = choose|j: int| 0 <= j < s.len() && #[trigger] s[j].ip@ == ip;
            assert(self.stripes@[self.stripe_index(ip)]@[j].count <= self.max_requests_per_ip);
        }
    }

    /// A limiter with `num_stripes` empty stripes and the given window, limit
    /// and cleanup period.
    pub fn new(
        num_stripes: usize,
        rate_limit_duration: u64,
        max_requests_per_ip: usize,
        cleanup_interval: u64,
    ) -> (r: Self)
        ensures
            r.wf(),
            r.stripe_count() == num_stripes,
            r.window() == rate_limit_duration,
            r.max_requests() == max_requests_per_ip,
            r.interval() == cleanup_interval,
            forall|ip: Seq<char>| num_stripes > 0 ==> #[trigger] r.entry(ip) is None,
    {
        let stripes = Self::initialize_stripes(num_stripes);
        DynamicStripedRateLimiter {
            stripes,
            num_stripes,
            rate_limit_duration,
            max_requests_per_ip,
            cleanup_interval,
        }
    }

    fn initialize_stripes(num_stripes: usize) -> (r: Vec<Vec<RateEntry>>)
        ensures
            r@.len() == num_stripes,
            forall|i: int| 0 <= i < r@.len() ==> (#[trigger] r@[i])@.len() == 0,
    {
        let mut stripes: Vec<Vec<RateEntry>> = Vec::new();
        let mut k: usize = 0;
        while k < num_stripes
            invariant
                k <= num_stripes,
                stripes@.len() == k,
                forall|i: int| 0 <= i < stripes@.len() ==> (#[trigger] stripes@[i])@.len() == 0,
            decreases num_stripes - k,
        {
            stripes.push(Vec::new());
            k = k + 1;
        }
        stripes
    }

    /// The period at which expired windows should be dropped.
    pub fn cleanup_interval(&self) -> (r: u64)
        ensures
            r == self.interval(),
    {
        self.cleanup_interval
    }

    /// The stripe for `ip`.
    fn hash_ip(&self, ip: &str) -> (r: usize)
        requires
            self.num_stripes > 0,
        ensures
            r == self.stripe_index(ip@),
            r < self.num_stripes,
    {
        let mut hasher = DefaultHasher::new();
        let bytes = ip.as_bytes();
        hasher.write(bytes);
        let terminator: [u8; 1] = [0xffu8];
        assert(terminator@ =~= seq![0xffu8]);
        hasher.write(&terminator);
        let hash_value = hasher.finish();
        proof {
            assert(hasher@ =~= seq![vstd::utf8::encode_utf8(ip@), seq![0xffu8]]);
        }
        (hash_value as usize) % self.num_stripes
    }

    /// Counts a request from `ip` at time `now` and says whether it may go
    /// through: its window restarts when older than the limit's duration, and
    /// the request is refused once the window holds the maximum.
    pub fn check_rate_limit(&mut self, ip: &str, now: u64) -> (allowed: bool)
        requires
            old(self).wf(),
            old(self).stripe_count() > 0,
        ensures
            final(self).wf(),
            final(self).stripe_count() == old(self).stripe_count(),
            final(self).window() == old(self).window(),
            final(self).max_requests() == old(self).max_requests(),
            final(self).interval() == old(self).interval(),
            (allowed, final(self).entry(ip@)) == {
                let o = check_outcome(
                    old(self).entry(ip@),
                    now,
                    old(self).window(),
                    old(self).max_requests(),
                );
                (o.0, Some(o.1))
            },
            forall|other: Seq<char>| other != ip@ ==> #[trigger] final(self).entry(other) == old(self).entry(other),
    {
        let idx = self.hash_ip(ip);
        let key = string_from_chars(&str_chars(ip));
        let ghost old_self = *self;
        let mut stripe: Vec<RateEntry> = Vec::new();
        self.stripes.set_and_swap(idx, &mut stripe);
        let ghost old_stripe = stripe@;
        assert(old_stripe == old_self.stripes@[idx as int]@);
        assert(stripe_unique(old_stripe));
        let mut j: usize = 0;
        let n = stripe.len();
        while j < n
            invariant
                n == stripe@.len(),
                key@ == ip@,
                j <= n,
                forall|k: int| 0 <= k < j ==> #[trigger] stripe@[k].ip@ != ip@,
            ensures
                j <= n,
                forall|k: int| 0 <= k < j ==> #[trigger] stripe@[k].ip@ != ip@,
                j < n ==> stripe@[j as int].ip@ == ip@,
            decreases n - j,
        {
            if stripe[j].ip == key {
                break;
            }
            j = j + 1;
        }
        let ghost prior = stripe_lookup(old_stripe, ip@);
        if j == n {
            proof {
                assert(prior is None);
                assert(stripe@ == old_stripe);
                assert(key@ == ip@);
            }
            stripe.push(RateEntry { ip: key, count: 0, stamp: now });
            proof {
                assert forall|a: int, b: int|
                    0 <= a < b < stripe@.len() implies #[trigger] stripe@[a].ip@
                    != #[trigger] stripe@[b].ip@ by {
                    if b == n {
                        assert(stripe@[a] == old_stripe[a]);
                        assert(old_stripe[a].ip@ != ip@);
                        assert(stripe@[b].ip@ == ip@);
                    } else {
                        assert(stripe@[a] == old_stripe[a]);
                        assert(stripe@[b] == old_stripe[b]);
                        assert(old_stripe[a].ip@ != old_stripe[b].ip@);
                    }
                }
            }
        } else {
            proof {
                assert(stripe@[j as int].ip@ == ip@);
                let c = choose|c: int| 0 <= c < old_stripe.len() && #[trigger] old_stripe[c].ip@ == ip@;
                if c != j {
                    if c < j {
                        assert(old_stripe[c].ip@ != ip@);
                    } else {
                        assert(old_stripe[j as int].ip@ != old_stripe[c].ip@);
                    }
                }
                assert(prior == Some((stripe@[j as int].count as nat, stripe@[j as int].stamp)));
            }
        }
        let ghost before = stripe@;
        assert(stripe_unique(before));
        let count = stripe[j].count;
        let stamp = stripe[j].stamp;
        let since: u64 = if now >= stamp { now - stamp } else { 0 };
        let (count, stamp) = if since > self.rate_limit_duration { (0usize, now) } else { (count, stamp) };
        let allowed = count < self.max_requests_per_ip;
        let new_count = if allowed { count + 1 } else { count };
        let mut slot = RateEntry { ip: String::new(), count: 0, stamp: 0 };
        stripe.set_and_swap(j, &mut slot);
        let entry_ip = slot.ip;
        stripe.set(j, RateEntry { ip: entry_ip, count: new_count, stamp });
        proof {
            assert(before[j as int].count <= old_self.max_requests_per_ip) by {
                if j < n {
                    assert(old_self.stripes@[idx as int]@[j as int].count <= old_self.max_requests_per_ip);
                }
            }
            assert(stripe@[j as int].ip@ == before[j as int].ip@);
            assert forall|a: int, b: int|
                0 <= a < b < stripe@.len() implies #[trigger] stripe@[a].ip@
                != #[trigger] stripe@[b].ip@ by {
                assert(stripe@[a].ip@ == before[a].ip@);
                assert(stripe@[b].ip@ == before[b].ip@);
                assert(before[a].ip@ != before[b].ip@);
            }
            lemma_lookup_at(stripe@, j as int, ip@);
            assert forall|other: Seq<char>| other != ip@ implies stripe_lookup(stripe@, other)
                == stripe_lookup(old_stripe, other) by {
                lemma_lookup_frame(old_stripe, stripe@, other);
            }
        }
        self.stripes.set(idx, stripe);
        proof {
            assert forall|i: int| 0 <= i < self.stripes@.len() implies stripe_unique(
                #[trigger] self.stripes@[i]@,
            ) by {
                if i != idx {
                    assert(self.stripes@[i] == old_self.stripes@[i]);
                }
            }
            assert forall|i: int, k: int|
                0 <= i < self.stripes@.len() && 0 <= k < self.stripes@[i]@.len()
                    implies #[trigger] self.stripes@[i]@[k].count <= self.max_requests_per_ip by {
                if i != idx {
                    assert(self.stripes@[i] == old_self.stripes@[i]);
                } else if k != j {
                    assert(self.stripes@[i]@[k] == before[k]);
                    if k < n {
                        assert(before[k] == old_stripe[k]);
                        assert(old_self.stripes@[i]@[k].count <= old_self.max_requests_per_ip);
                    }
                }
            }
            assert forall|other: Seq<char>| other != ip@ implies #[trigger] self.entry(other)
                == old_self.entry(other) by {
                if self.stripe_index(other) != idx {
                    assert(self.stripes@[self.stripe_index(other)] == old_self.stripes@[self.stripe_index(other)]);
                }
            }
        }
        allowed
    }

    /// Drops every window that has lasted longer than the limit's duration at
    /// time `now`; all other windows stay as they are.
    pub fn cleanup_expired_entries(&mut self, now: u64)
        requires
            old(self).wf(),
        ensures
            final(self).wf(),
            final(self).stripe_count() == old(self).stripe_count(),
            final(self).window() == old(self).window(),
            final(self).max_requests() == old(self).max_requests(),
            final(self).interval() == old(self).interval(),
            old(self).stripe_count() > 0 ==> forall|ip: Seq<char>| #[trigger] final(self).entry(ip)
                == after_cleanup(old(self).entry(ip), now, old(self).window()),
    {
        let ghost old_self = *self;
        let n = self.stripes.len();
        let mut i: usize = 0;
        while i < n
            invariant
                n == self.stripes@.len(),
                n == old_self.stripes@.len(),
                i <= n,
                self.num_stripes == old_self.num_stripes,
                self.rate_limit_duration == old_self.rate_limit_duration,
                self.max_requests_per_ip == old_self.max_requests_per_ip,
                self.cleanup_interval == old_self.cleanup_interval,
                old_self.wf(),
                forall|k: int| 0 <= k < n ==> stripe_unique(#[trigger] self.stripes@[k]@),
                forall|k: int, m: int|
                    0 <= k < n && 0 <= m < self.stripes@[k]@.len()
                        ==> #[trigger] self.stripes@[k]@[m].count <= self.max_requests_per_ip,
                forall|k: int| i <= k < n ==> #[trigger] self.stripes@[k] == old_self.stripes@[k],
                forall|k: int, ip: Seq<char>| 0 <= k < i ==> #[trigger] stripe_lookup(self.stripes@[k]@, ip)
                    == after_cleanup(stripe_lookup(old_self.stripes@[k]@, ip), now, self.rate_limit_duration),
            decreases n - i,
        {
            let mut stripe: Vec<RateEntry> = Vec::new();
            self.stripes.set_and_swap(i, &mut stripe);
            proof {
                assert forall|k: int| 0 <= k < stripe@.len() implies #[trigger] stripe@[k].count <= self.max_requests_per_ip by {
                    assert(old_self.stripes@[i as int]@[k].count <= old_self.max_requests_per_ip);
                }
            }
            let kept = retain_fresh(stripe, now, self.rate_limit_duration, self.max_requests_per_ip);
            self.stripes.set(i, kept);
            i = i + 1;
        }
    }
}

}

verus! {

/// The address a request is counted under: the client's address, or
/// "unknown" when it cannot be told.
pub open spec fn request_address(ip: Option<Seq<char>>) -> Seq<char> {
    match ip {
        Some(a) => a,
        None => "unknown"@,
    }
}

pub open spec fn opt_str_view(ip: Option<&str>) -> Option<Seq<char>> {
    match ip {
        Some(a) => Some(a@),
        None => None,
    }
}

/// The per-request gate in front of the routes: it counts each request
/// against its address and refuses those over the limit.
pub struct RateLimiterMiddleware {
    pub rate_limiter: DynamicStripedRateLimiter,
}

impl RateLimiterMiddleware {
    pub fn new(rate_limiter: DynamicStripedRateLimiter) -> (r: Self)
        ensures
            r.rate_limiter == rate_limiter,
    {
        RateLimiterMiddleware { rate_limiter }
    }

    /// Counts a request from `ip` (the address "unknown" when there is none)
    /// at `now`: it passes when the limiter lets it through, and is refused
    /// with `RateLimitExceeded` otherwise.
    pub fn let_through(&mut self, ip: Option<&str>, now: u64) -> (r: Result<(), ServerError>)
        requires
            old(self).rate_limiter.wf(),
            old(self).rate_limiter.stripe_count() > 0,
        ensures
            final(self).rate_limiter.wf(),
            final(self).rate_limiter.stripe_count() == old(self).rate_limiter.stripe_count(),
            final(self).rate_limiter.window() == old(self).rate_limiter.window(),
            final(self).rate_limiter.max_requests() == old(self).rate_limiter.max_requests(),
            ({
                let addr = request_address(opt_str_view(ip));
                let o = check_outcome(
                    old(self).rate_limiter.entry(addr),
                    now,
                    old(self).rate_limiter.window(),
                    old(self).rate_limiter.max_requests(),
                );
                &&& (r is Ok) == o.0
                &&& final(self).rate_limiter.entry(addr) == Some(o.1)
                &&& forall|other: Seq<char>| other != addr ==> #[trigger] final(self).rate_limiter.entry(other) == old(self).rate_limiter.entry(other)
            }),
            r matches Err(e) ==> e == ServerError::RequestError(RequestError::RateLimitExceeded),
    {
        let addr: &str = match ip {
            Some(a) => a,
            None => "unknown",
        };
        if self.rate_limiter.check_rate_limit(addr, now) {
            Ok(())
        } else {
            Err(ServerError::RequestError(RequestError::RateLimitExceeded))
        }
    }
}

} // verus!

verus! {

/// One request moves an address's window as the limit intends: a request let
/// through adds one to a count that stays within the maximum, and a refused
/// one (with a maximum above zero) leaves the stored window as it was.
pub proof fn lemma_check_outcome_counts(e: Option<(nat, u64)>, now: u64, window: u64, max: nat)
    requires
        e matches Some(x) ==> x.0 <= max,
    ensures
        ({
            let o = check_outcome(e, now, window, max);
            &&& o.0 ==> o.1.0 == current_window(e, now, window).0 + 1 && o.1.0 <= max
            &&& !o.0 && max > 0 ==> e == Some(o.1)
        }),
{
}

/// The answers to requests from one address at the times `ts`, in order,
/// starting from its stored window `e`, and its window after them: each
/// request is checked as `check_rate_limit` checks it.
pub open spec fn run(e: Option<(nat, u64)>, ts: Seq<u64>, window: u64, max: nat) -> (Seq<bool>, Option<(nat, u64)>)
    decreases ts.len(),
{
    if ts.len() == 0 {
        (Seq::empty(), e)
    } else {
        let before = run(e, ts.drop_last(), window, max);
        let o = check_outcome(before.1, ts.last(), window, max);
        (before.0.push(o.0), Some(o.1))
    }
}

/// How many of `rs` are `true`.
pub open spec fn count_true(rs: Seq<bool>) -> nat
    decreases rs.len(),
{
    if rs.len() == 0 {
        0
    } else {
        count_true(rs.drop_last()) + if rs.last() { 1nat } else { 0nat }
    }
}

/// Within one window, at most the maximum of requests get through: when
/// every request of a run falls within the window that the first one finds
/// (or opens), the requests let through add up to the window's count after
/// the run, less what it held before, and that count stays within the
/// maximum.
pub proof fn lemma_window_admits_at_most_max(e: Option<(nat, u64)>, ts: Seq<u64>, window: u64, max: nat)
    requires
        e matches Some(x) ==> x.0 <= max,
        ts.len() > 0,
        forall|i: int| 0 <= i < ts.len() ==> elapsed(#[trigger] ts[i], current_window(e, ts[0], window).1) <= window,
    ensures
        run(e, ts, window, max).1 matches Some(f) && f.1 == current_window(e, ts[0], window).1
            && count_true(run(e, ts, window, max).0) + current_window(e, ts[0], window).0 == f.0
            && f.0 <= max,
    decreases ts.len(),
{
    let w0 = current_window(e, ts[0], window);
    if ts.len() == 1 {
        assert(ts.drop_last().len() == 0);
        assert(run(e, ts.drop_last(), window, max).0 =~= Seq::<bool>::empty());
        let r = run(e, ts, window, max);
        assert(r.0 =~= seq![check_outcome(e, ts[0], window, max).0]);
        assert(r.0.drop_last() =~= Seq::<bool>::empty());
    } else {
        let d = ts.drop_last();
        assert(d[0] == ts[0]);
        assert forall|i: int| 0 <= i < d.len() implies elapsed(#[trigger] d[i], current_window(e, d[0], window).1) <= window by {
            assert(d[i] == ts[i]);
        }
        lemma_window_admits_at_most_max(e, d, window, max);
        let prev = run(e, d, window, max);
        let f = prev.1->0;
        assert(ts[ts.len() - 1] == ts.last());
        assert(elapsed(ts.last(), f.1) <= window);
        assert(current_window(prev.1, ts.last(), window) == f);
        assert(run(e, ts, window, max).0.drop_last() =~= prev.0);
    }
}

/// Dropping an expired window cannot change what a later request is
/// answered, nor any request after it: a run that starts after a cleanup at
/// `at` gives the same answers, and leaves the same window, as without the
/// cleanup.
pub proof fn lemma_cleanup_unobservable(e: Option<(nat, u64)>, at: u64, ts: Seq<u64>, window: u64, max: nat)
    requires
        ts.len() > 0,
        ts[0] >= at,
    ensures
        run(after_cleanup(e, at, window), ts, window, max) == run(e, ts, window, max),
    decreases ts.len(),
{
    if ts.len() == 1 {
        assert(ts.drop_last().len() == 0);
        let c = after_cleanup(e, at, window);
        assert(check_outcome(c, ts[0], window, max) == check_outcome(e, ts[0], window, max));
        assert(ts.last() == ts[0]);
        assert(run(c, ts.drop_last(), window, max).0 == run(e, ts.drop_last(), window, max).0);
        assert(run(c, ts, window, max).0 =~= run(e, ts, window, max).0);
    } else {
        let d = ts.drop_last();
        assert(d[0] == ts[0]);
        lemma_cleanup_unobservable(e, at, d, window, max);
    }
}

/// A stored window in the limiter's map of addresses.
pub open spec fn look(m: Map<Seq<char>, (nat, u64)>, ip: Seq<char>) -> Option<(nat, u64)> {
    if m.contains_key(ip) {
        Some(m[ip])
    } else {
        None
    }
}

/// The answers to a sequence of requests `(address, time)` from any
/// addresses, starting from the windows `m`, and the windows after them.
pub open spec fn run_all(m: Map<Seq<char>, (nat, u64)>, calls: Seq<(Seq<char>, u64)>, window: u64, max: nat) -> (
    Seq<bool>,
    Map<Seq<char>, (nat, u64)>,
)
    decreases calls.len(),
{
    if calls.len() == 0 {
        (Seq::empty(), m)
    } else {
        let before = run_all(m, calls.drop_last(), window, max);
        let (ip, t) = calls.last();
        let o = check_outcome(look(before.1, ip), t, window, max);
        (before.0.push(o.0), before.1.insert(ip, o.1))
    }
}

/// The answers among `rs` to the requests of `calls` that come from `ip`.
pub open spec fn answers_for(rs: Seq<bool>, calls: Seq<(Seq<char>, u64)>, ip: Seq<char>) -> Seq<bool>
    decreases calls.len(),
{
    if calls.len() == 0 || rs.len() == 0 {
        Seq::empty()
    } else {
        let before = answers_for(rs.drop_last(), calls.drop_last(), ip);
        if calls.last().0 == ip {
            before.push(rs.last())
        } else {
            before
        }
    }
}

/// The times of the requests of `calls` that come from `ip`.
pub open spec fn times_for(calls: Seq<(Seq<char>, u64)>, ip: Seq<char>) -> Seq<u64>
    decreases calls.len(),
{
    if calls.len() == 0 {
        Seq::empty()
    } else {
        let before = times_for(calls.drop_last(), ip);
        if calls.last().0 == ip {
            before.push(calls.last().1)
        } else {
            before
        }
    }
}

/// Requests from other addresses do not change what one address is
/// answered: interleaved with any others, its requests get the answers, and
/// leave the window, that they would get alone.
pub proof fn lemma_addresses_independent(
    m: Map<Seq<char>, (nat, u64)>,
    calls: Seq<(Seq<char>, u64)>,
    ip: Seq<char>,
    window: u64,
    max: nat,
)
    ensures
        run_all(m, calls, window, max).0.len() == calls.len(),
        answers_for(run_all(m, calls, window, max).0, calls, ip) == run(look(m, ip), times_for(calls, ip), window, max).0,
        look(run_all(m, calls, window, max).1, ip) == run(look(m, ip), times_for(calls, ip), window, max).1,
    decreases calls.len(),
{
    if calls.len() > 0 {
        let d = calls.drop_last();
        lemma_addresses_independent(m, d, ip, window, max);
        let all = run_all(m, calls, window, max);
        let prev = run_all(m, d, window, max);
        assert(all.0.drop_last() =~= prev.0);
        let tp = times_for(d, ip);
        if calls.last().0 == ip {
            let tt = times_for(calls, ip);
            assert(tt.drop_last() =~= tp);
            assert(tt.last() == calls.last().1);
        }
    }
}

} // verus!
