//! The tracker API: request pacing, request contents, answers, and the
//! torrent links found on the tracker's pages.

use vstd::prelude::*;
use std::collections::VecDeque;
use crate::config::{lossless_media, media_search_map, spec_lossless_media, spec_media_search_map};
use crate::models::format::Format;
use crate::models::torrent::Torrent;
use crate::numeric::{
    decimal_spec, decimal_string, is_decimal_digit, is_unicode_decimal_digit, parse_u64,
    parse_uint_spec, IntErrorKind,
};
use crate::text::{concat, contains, contains_spec, join, join_spec, owned, opt_view, pairs_view, str_eq, views};

verus! {

// ---------------------------------------------------------------------------
// Request pacing: at most five requests in ten seconds.
// ---------------------------------------------------------------------------

/// The length of the pacing window, in nanoseconds.
pub open spec fn rate_window() -> u64 {
    10_000_000_000
}

/// The number of requests allowed in a window.
pub open spec fn rate_max_requests() -> nat {
    5
}

/// The start times of recent requests, oldest first, in nanoseconds of a
/// monotonic clock. Each request is paced by `begin_request`, which may ask
/// for a wait, and then `record`, called when the request starts.
pub struct RateLimiter {
    timestamps: VecDeque<u64>,
    last_begin: u64,
    ready_at: Option<u64>,
    history: Ghost<Seq<u64>>,
    before_pruning: Ghost<Seq<u64>>,
}

/// `s` without the leading times older than one window before `now`.
pub open spec fn prune_spec(s: Seq<u64>, now: u64) -> Seq<u64>
    decreases s.len(),
{
    if s.len() > 0 && s[0] + rate_window() < now {
        prune_spec(s.drop_first(), now)
    } else {
        s
    }
}

/// How long to wait before a request at `now`: when the window already
/// holds the maximum number of requests, until the oldest leaves it.
pub open spec fn wait_spec(s: Seq<u64>, now: u64) -> u64 {
    if s.len() >= rate_max_requests() && s[0] + rate_window() > now {
        (s[0] + rate_window() - now) as u64
    } else {
        0
    }
}

/// Times in nondecreasing order.
pub open spec fn sorted(s: Seq<u64>) -> bool {
    forall|i: int, j: int| 0 <= i <= j < s.len() ==> s[i] <= s[j]
}

/// Every time is at most `now`.
pub open spec fn all_before(s: Seq<u64>, now: u64) -> bool {
    forall|i: int| 0 <= i < s.len() ==> s[i] <= now
}

impl View for RateLimiter {
    type V = Seq<u64>;

    closed spec fn view(&self) -> Seq<u64> {
        self.timestamps@
    }
}

impl RateLimiter {
    /// Every request start recorded so far, in order.
    pub closed spec fn history(&self) -> Seq<u64> {
        self.history@
    }

    /// The time of the latest `begin_request`, 0 before the first.
    pub closed spec fn begun_at(&self) -> u64 {
        self.last_begin
    }

    /// After a `begin_request` not yet followed by `record`: the earliest
    /// time the request may start.
    pub closed spec fn ready(&self) -> Option<u64> {
        self.ready_at
    }

    #[verifier::type_invariant]
    closed spec fn inv(self) -> bool {
        let h = self.history@;
        let ts = self.timestamps@;
        &&& sorted(ts)
        &&& sorted(h)
        &&& paced(h)
        &&& ts.len() <= h.len()
        &&& ts == h.skip(h.len() - ts.len())
        &&& forall|i: int| 0 <= i < h.len() - ts.len() ==> #[trigger] h[i] + rate_window() < self.last_begin
        &&& match self.ready_at {
            None => true,
            Some(rd) => {
                &&& history_paced(h, self.before_pruning@, self.last_begin)
                &&& ts == prune_spec(self.before_pruning@, self.last_begin)
                &&& rd == self.last_begin + wait_spec(ts, self.last_begin)
            },
        }
    }

    /// A limiter that has seen no request.
    pub fn new() -> (r: RateLimiter)
        ensures
            r@ == Seq::<u64>::empty(),
            r.history() == Seq::<u64>::empty(),
            r.begun_at() == 0,
            r.ready() is None,
    {
        assert forall|end: int| #[trigger] window_count(Seq::<u64>::empty(), end) <= rate_max_requests() by {}
        assert(Seq::<u64>::empty().skip(0) =~= Seq::<u64>::empty());
        RateLimiter {
            timestamps: VecDeque::new(),
            last_begin: 0,
            ready_at: None,
            history: Ghost(Seq::empty()),
            before_pruning: Ghost(Seq::empty()),
        }
    }

    /// Called before a request at time `now`: forgets the requests that left
    /// the window and returns how long to wait, in nanoseconds. `now` is
    /// after every remembered start and no earlier than the previous call.
    pub fn begin_request(&mut self, now: u64) -> (wait: u64)
        requires
            forall|i: int| 0 <= i < old(self)@.len() ==> #[trigger] old(self)@[i] < now,
            now >= old(self).begun_at(),
            now <= u64::MAX - rate_window(),
        ensures
            final(self)@ == prune_spec(old(self)@, now),
            wait == wait_spec(final(self)@, now),
            final(self).history() == old(self).history(),
            final(self).begun_at() == now,
            final(self).ready() == Some((now + wait) as u64),
            sorted(final(self).history()),
            paced(final(self).history()),
    {
        let mut cur = RateLimiter::new();
        std::mem::swap(&mut cur, self);
        proof {
            use_type_invariant(&cur);
        }
        let RateLimiter { timestamps: mut ts, last_begin: _, ready_at: _, history: Ghost(h), before_pruning: _ } = cur;
        let ghost orig = ts@;
        let ghost lb = old(self).begun_at();
        assert(orig == old(self)@);
        assert forall|i: int| 0 <= i < ts@.len() implies ts@[i] <= now by {
            assert(old(self)@[i] < now);
        }
        assert(forall|i: int| 0 <= i < h.len() - orig.len() ==> #[trigger] h[i] + rate_window() < lb);
        loop
            invariant
                sorted(ts@),
                all_before(ts@, now),
                prune_spec(orig, now) == prune_spec(ts@, now),
            ensures
                sorted(ts@),
                prune_spec(orig, now) == ts@,
            decreases ts@.len(),
        {
            if ts.len() == 0 {
                break;
            }
            let front = ts[0];
            if !(front < now && now - front > 10_000_000_000) {
                break;
            }
            let ghost before = ts@;
            ts.pop_front();
            assert(ts@ =~= before.drop_first());
            assert(sorted(ts@)) by {
                assert forall|i: int, j: int| 0 <= i <= j < ts@.len() implies ts@[i] <= ts@[j] by {
                    assert(before[i + 1] <= before[j + 1]);
                }
            }
        }
        let mut wait: u64 = 0;
        if ts.len() >= 5 {
            let oldest = ts[0];
            if now - oldest < 10_000_000_000 {
                wait = 10_000_000_000 - (now - oldest);
            }
        }
        proof {
            let a = h.len() - orig.len();
            lemma_prune_suffix(orig, now);
            let k = orig.len() - ts@.len();
            assert(orig.skip(k) =~= h.skip(a + k));
            assert forall|i: int| 0 <= i < h.len() implies #[trigger] h[i] < now by {
                if i >= a {
                    assert(h[i] == orig[i - a]);
                    assert(old(self)@[i - a] < now);
                } else {
                    assert(h[i] + rate_window() < lb);
                }
            }
            assert forall|i: int| 0 <= i < h.len() - ts@.len() implies #[trigger] h[i] + rate_window() < now by {
                if i >= a {
                    assert(h[i] == orig[i - a]);
                }
            }
            assert(history_paced(h, orig, now));
        }
        *self = RateLimiter {
            timestamps: ts,
            last_begin: now,
            ready_at: Some(now + wait),
            history: Ghost(h),
            before_pruning: Ghost(orig),
        };
        wait
    }

    /// The start time of the latest request remembered, if any.
    pub fn latest(&self) -> (r: Option<u64>)
        ensures
            r == (if self@.len() == 0 { None::<u64> } else { Some(self@.last()) }),
    {
        proof {
            use_type_invariant(self);
        }
        let n = self.timestamps.len();
        if n == 0 {
            None
        } else {
            Some(self.timestamps[n - 1])
        }
    }

    /// The time of the latest `begin_request`, 0 before the first.
    pub fn last_begin(&self) -> (r: u64)
        ensures
            r == self.begun_at(),
    {
        self.last_begin
    }

    /// The earliest start of the request being paced, if one is.
    pub fn ready_at(&self) -> (r: Option<u64>)
        ensures
            r == self.ready(),
    {
        self.ready_at
    }

    /// Records that the request paced by the latest `begin_request` started
    /// at time `start`, no earlier than it asked. Over all the requests ever
    /// recorded, no window of ten seconds holds more than five starts: a
    /// start and the fifth after it are at least ten seconds apart.
    pub fn record(&mut self, start: u64)
        requires
            old(self).ready() matches Some(rd) && start >= rd,
            start < u64::MAX,
        ensures
            final(self)@ == old(self)@.push(start),
            final(self).history() == old(self).history().push(start),
            final(self).begun_at() == old(self).begun_at(),
            final(self).ready() is None,
            sorted(final(self).history()),
            paced(final(self).history()),
            forall|k: int| 0 <= k && k + 5 < final(self).history().len()
                ==> #[trigger] final(self).history()[k + 5] - final(self).history()[k] >= rate_window(),
    {
        let mut cur = RateLimiter::new();
        std::mem::swap(&mut cur, self);
        proof {
            use_type_invariant(&cur);
        }
        let RateLimiter { timestamps: mut ts, last_begin: lb, ready_at: _, history: Ghost(h), before_pruning: Ghost(pre) } = cur;
        let ghost before = ts@;
        proof {
            lemma_paced_history(h, pre, lb, start, (start + 1) as u64);
            lemma_paced_history_forgotten(h, pre, lb, start);
            lemma_prune_suffix(pre, lb);
            assert forall|i: int| 0 <= i < before.len() implies #[trigger] before[i] <= start by {
                assert(before[i] == pre[(pre.len() - before.len()) + i]);
            }
        }
        ts.push_back(start);
        assert(sorted(ts@)) by {
            assert forall|i: int, j: int| 0 <= i <= j < ts@.len() implies ts@[i] <= ts@[j] by {
                if j < before.len() {
                    assert(before[i] <= before[j]);
                } else if i < before.len() {
                    assert(before[i] <= start);
                }
            }
        }
        *self = RateLimiter {
            timestamps: ts,
            last_begin: lb,
            ready_at: None,
            history: Ghost(h.push(start)),
            before_pruning: Ghost(pre),
        };
        proof {
            use_type_invariant(&*self);
            let h2 = self.history@;
            assert forall|k: int| 0 <= k && k + 5 < h2.len() implies #[trigger] h2[k + 5] - h2[k] >= rate_window() by {
                lemma_paced_gap(h2, k);
            }
        }
    }
}

/// After the pacing step, every remembered request started at most one
/// window before `now`, and the wait is never longer than the window.
pub proof fn lemma_rate_limit_window(s: Seq<u64>, now: u64)
    requires
        sorted(s),
        all_before(s, now),
    ensures
        forall|i: int| 0 <= i < prune_spec(s, now).len() ==> #[trigger] prune_spec(s, now)[i] + rate_window() >= now,
        wait_spec(prune_spec(s, now), now) <= rate_window(),
    decreases s.len(),
{
    if s.len() > 0 && s[0] + rate_window() < now {
        assert(sorted(s.drop_first()));
        lemma_rate_limit_window(s.drop_first(), now);
    } else if s.len() > 0 {
        assert forall|i: int| 0 <= i < s.len() implies #[trigger] s[i] + rate_window() >= now by {
            assert(s[0] <= s[i]);
        }
    }
}

/// The number of times in `s` inside the window that ends at `end`: after
/// `end - 10 s` and no later than `end`.
pub open spec fn window_count(s: Seq<u64>, end: int) -> nat
    decreases s.len(),
{
    if s.len() == 0 {
        0
    } else {
        window_count(s.drop_last(), end) + (if end - rate_window() < s.last() && s.last() <= end {
            1nat
        } else {
            0nat
        })
    }
}

/// No window of ten seconds holds more than five of the times.
pub open spec fn paced(s: Seq<u64>) -> bool {
    forall|end: int| #[trigger] window_count(s, end) <= rate_max_requests()
}

proof fn lemma_window_count_concat(a: Seq<u64>, b: Seq<u64>, end: int)
    ensures
        window_count(a + b, end) == window_count(a, end) + window_count(b, end),
    decreases b.len(),
{
    if b.len() == 0 {
        assert(a + b =~= a);
    } else {
        assert((a + b).drop_last() =~= a + b.drop_last());
        lemma_window_count_concat(a, b.drop_last(), end);
    }
}

proof fn lemma_window_count_len(q: Seq<u64>, end: int)
    ensures
        window_count(q, end) <= q.len(),
    decreases q.len(),
{
    if q.len() > 0 {
        lemma_window_count_len(q.drop_last(), end);
    }
}

proof fn lemma_window_mono(q: Seq<u64>, e1: int, e2: int)
    requires
        forall|i: int| 0 <= i < q.len() && e1 - rate_window() < #[trigger] q[i] <= e1 ==> e2 - rate_window() < q[i] <= e2,
    ensures
        window_count(q, e1) <= window_count(q, e2),
    decreases q.len(),
{
    if q.len() > 0 {
        let d = q.drop_last();
        assert forall|i: int| 0 <= i < d.len() && e1 - rate_window() < #[trigger] d[i] <= e1 implies e2 - rate_window() < d[i] <= e2 by {
            assert(d[i] == q[i]);
        }
        lemma_window_mono(d, e1, e2);
        assert(q.last() == q[q.len() - 1]);
    }
}

/// When the oldest time has left the window ending at `end` but is inside
/// the one ending at `l`, the later window holds one time fewer.
proof fn lemma_window_drop_oldest(q: Seq<u64>, end: int, l: int)
    requires
        q.len() > 0,
        forall|i: int| 0 <= i < q.len() ==> #[trigger] q[i] <= l,
        l <= end,
        l - rate_window() < q[0],
        q[0] <= end - rate_window(),
    ensures
        window_count(q, end) + 1 <= window_count(q, l),
{
    let first = seq![q[0]];
    let rest = q.drop_first();
    assert(q =~= first + rest);
    lemma_window_count_concat(first, rest, end);
    lemma_window_count_concat(first, rest, l);
    assert(first.drop_last() =~= Seq::<u64>::empty());
    assert(first.last() == q[0]);
    assert(q[0] <= l);
    assert(window_count(first.drop_last(), end) == 0);
    assert(window_count(first.drop_last(), l) == 0);
    assert(window_count(first, end) == 0);
    assert(window_count(first, l) == 1);
    assert forall|i: int| 0 <= i < rest.len() && end - rate_window() < #[trigger] rest[i] <= end implies l - rate_window() < rest[i] <= l by {
        assert(rest[i] == q[i + 1]);
    }
    lemma_window_mono(rest, end, l);
}

/// Pacing keeps a suffix of the times, whose first time is at most one
/// window before `now`.
proof fn lemma_prune_suffix(s: Seq<u64>, now: u64)
    ensures
        prune_spec(s, now).len() <= s.len(),
        prune_spec(s, now) == s.skip(s.len() - prune_spec(s, now).len()),
        prune_spec(s, now).len() > 0 ==> prune_spec(s, now)[0] + rate_window() >= now,
        forall|i: int| 0 <= i < s.len() - prune_spec(s, now).len() ==> #[trigger] s[i] + rate_window() < now,
    decreases s.len(),
{
    if s.len() > 0 && s[0] + rate_window() < now {
        lemma_prune_suffix(s.drop_first(), now);
        let p = prune_spec(s, now);
        assert(s.drop_first().skip(s.drop_first().len() - p.len()) =~= s.skip(s.len() - p.len()));
        assert forall|i: int| 0 <= i < s.len() - p.len() implies #[trigger] s[i] + rate_window() < now by {
            if i > 0 {
                assert(s[i] == s.drop_first()[i - 1]);
            }
        }
    } else {
        assert(s.skip(0) =~= s);
    }
}

/// A request paced by the limiter keeps every window of ten seconds to at
/// most five request starts: if the remembered starts were paced, the
/// request begins after all of them at `now`, and it starts at `start`,
/// no earlier than `now` plus the wait the limiter asked for, then the
/// remembered starts with `start` added are paced too.
pub proof fn lemma_paced_request(s: Seq<u64>, now: u64, start: u64)
    requires
        sorted(s),
        forall|i: int| 0 <= i < s.len() ==> #[trigger] s[i] < now,
        paced(s),
        start >= now + wait_spec(prune_spec(s, now), now),
    ensures
        paced(prune_spec(s, now).push(start)),
{
    assert forall|end: int| #[trigger] window_count(prune_spec(s, now).push(start), end) <= rate_max_requests() by {
        lemma_paced_window(s, now, start, end);
    }
}

/// The window ending at `end`, for `lemma_paced_request`.
proof fn lemma_paced_window(s: Seq<u64>, now: u64, start: u64, end: int)
    requires
        sorted(s),
        forall|i: int| 0 <= i < s.len() ==> #[trigger] s[i] < now,
        paced(s),
        start >= now + wait_spec(prune_spec(s, now), now),
    ensures
        window_count(prune_spec(s, now).push(start), end) <= rate_max_requests(),
{
    let p = prune_spec(s, now);
    lemma_prune_suffix(s, now);
    let k = s.len() - p.len();
    assert(p.push(start).drop_last() =~= p);
    assert(s =~= s.take(k) + p);
    lemma_window_count_concat(s.take(k), p, end);
    assert(window_count(s, end) <= rate_max_requests());
    if end - rate_window() < start && start <= end {
        if p.len() < rate_max_requests() {
            lemma_window_count_len(p, end);
        } else {
            lemma_paced_full(s, now, start, end);
        }
    }
}

/// The case of `lemma_paced_window` where the limiter remembers at least
/// five starts: the oldest of them has left the window by `start`.
proof fn lemma_paced_full(s: Seq<u64>, now: u64, start: u64, end: int)
    requires
        sorted(s),
        forall|i: int| 0 <= i < s.len() ==> #[trigger] s[i] < now,
        paced(s),
        start >= now + wait_spec(prune_spec(s, now), now),
        prune_spec(s, now).len() >= rate_max_requests(),
        end - rate_window() < start <= end,
    ensures
        window_count(prune_spec(s, now), end) + 1 <= rate_max_requests(),
{
    let p = prune_spec(s, now);
    lemma_prune_suffix(s, now);
    let k = s.len() - p.len();
    assert(s =~= s.take(k) + p);
    let l = s.last() as int;
    assert forall|i: int| 0 <= i < p.len() implies #[trigger] p[i] <= l by {
        assert(p[i] == s[k + i]);
        assert(s[k + i] <= s[s.len() - 1]);
    }
    assert(p[0] == s[k]);
    assert(s[s.len() - 1] < now);
    assert(p[0] + rate_window() <= start);
    lemma_window_drop_oldest(p, end, l);
    lemma_window_count_concat(s.take(k), p, l);
    assert(window_count(s, l) <= rate_max_requests());
}

/// The pacing of a whole request history: `h` holds every request start
/// so far, in order; the limiter remembers `s`, the latest of them; the
/// ones it has forgotten started more than a window before `now`; every
/// start is before `now`; and no window of ten seconds holds more than five
/// of the starts.
pub open spec fn history_paced(h: Seq<u64>, s: Seq<u64>, now: u64) -> bool {
    &&& sorted(h)
    &&& paced(h)
    &&& s.len() <= h.len()
    &&& s == h.skip(h.len() - s.len())
    &&& forall|i: int| 0 <= i < h.len() - s.len() ==> #[trigger] h[i] + rate_window() < now
    &&& forall|i: int| 0 <= i < h.len() ==> #[trigger] h[i] < now
}

proof fn lemma_window_count_zero(q: Seq<u64>, end: int)
    requires
        forall|i: int| 0 <= i < q.len() ==> #[trigger] q[i] + rate_window() <= end,
    ensures
        window_count(q, end) == 0,
    decreases q.len(),
{
    if q.len() > 0 {
        let d = q.drop_last();
        assert forall|i: int| 0 <= i < d.len() implies #[trigger] d[i] + rate_window() <= end by {
            assert(d[i] == q[i]);
        }
        lemma_window_count_zero(d, end);
        assert(q.last() == q[q.len() - 1]);
    }
}

proof fn lemma_sorted_suffix(h: Seq<u64>, k: int)
    requires
        sorted(h),
        0 <= k <= h.len(),
    ensures
        sorted(h.skip(k)),
{
    let t = h.skip(k);
    assert forall|i: int, j: int| 0 <= i <= j < t.len() implies t[i] <= t[j] by {
        assert(t[i] == h[k + i] && t[j] == h[k + j]);
    }
}

/// No request history ever holds more than five request starts in a window
/// of ten seconds.  The history starts empty; each request begins at `now`,
/// after every earlier start, asks the limiter (`begin_request`) how long to
/// wait, and starts at `start`, no earlier than `now` plus that wait and
/// before the next request begins at `next`.  Then the history with `start`
/// added is paced, and the invariant holds again for the next request.
pub proof fn lemma_paced_history(h: Seq<u64>, s: Seq<u64>, now: u64, start: u64, next: u64)
    requires
        history_paced(h, s, now),
        start >= now + wait_spec(prune_spec(s, now), now),
        start < next,
    ensures
        paced(h.push(start)),
        history_paced(h.push(start), prune_spec(s, now).push(start), next),
{
    let a = h.len() - s.len();
    let p = prune_spec(s, now);
    lemma_prune_suffix(s, now);
    let k = s.len() - p.len();
    assert(h =~= h.take(a) + s);
    lemma_sorted_suffix(h, a);
    assert forall|i: int| 0 <= i < s.len() implies #[trigger] s[i] < now by {
        assert(s[i] == h[a + i]);
    }
    assert forall|end: int| #![trigger window_count(s, end)] window_count(s, end) <= rate_max_requests() by {
        lemma_window_count_concat(h.take(a), s, end);
        assert(window_count(h, end) <= rate_max_requests());
    }
    let h2 = h.push(start);
    assert forall|end: int| #[trigger] window_count(h2, end) <= rate_max_requests() by {
        assert(h2.drop_last() =~= h);
        if end - rate_window() < start && start <= end {
            lemma_paced_window(s, now, start, end);
            let f = h.take(a + k);
            assert(h =~= f + p);
            assert forall|i: int| 0 <= i < f.len() implies #[trigger] f[i] + rate_window() <= end by {
                if i < a {
                    assert(f[i] == h[i]);
                } else {
                    assert(f[i] == s[i - a]);
                }
            }
            lemma_window_count_zero(f, end);
            lemma_window_count_concat(f, p, end);
            assert(p.push(start).drop_last() =~= p);
        } else {
            assert(window_count(h, end) <= rate_max_requests());
        }
    }
    let s2 = p.push(start);
    assert(s2 =~= h2.skip(h2.len() - s2.len())) by {
        assert(h.skip(a + k) =~= p);
    }
    assert forall|i: int, j: int| 0 <= i <= j < h2.len() implies h2[i] <= h2[j] by {
        if j < h.len() {
            assert(h[i] <= h[j]);
        } else if i < h.len() {
            assert(h[i] < now);
        }
    }
    assert forall|i: int| 0 <= i < h2.len() - s2.len() implies #[trigger] h2[i] + rate_window() < next by {
        assert(h2[i] == h[i]);
        if i >= a {
            assert(h[i] == s[i - a]);
        }
    }
    assert forall|i: int| 0 <= i < h2.len() implies #[trigger] h2[i] < next by {
        if i < h.len() {
            assert(h2[i] == h[i]);
        }
    }
}

proof fn lemma_window_count_all(q: Seq<u64>, end: int)
    requires
        forall|i: int| 0 <= i < q.len() ==> end - rate_window() < #[trigger] q[i] <= end,
    ensures
        window_count(q, end) == q.len(),
    decreases q.len(),
{
    if q.len() > 0 {
        let d = q.drop_last();
        assert forall|i: int| 0 <= i < d.len() implies end - rate_window() < #[trigger] d[i] <= end by {
            assert(d[i] == q[i]);
        }
        lemma_window_count_all(d, end);
        assert(q.last() == q[q.len() - 1]);
    }
}

/// In a paced history, in time order, any request start and the fifth
/// start after it are at least ten seconds apart.
pub proof fn lemma_paced_gap(h: Seq<u64>, k: int)
    requires
        sorted(h),
        paced(h),
        0 <= k,
        k + 5 < h.len(),
    ensures
        h[k + 5] - h[k] >= rate_window(),
{
    if h[k + 5] - h[k] < rate_window() {
        let end = h[k + 5] as int;
        let mid = h.subrange(k, k + 6);
        assert forall|i: int| 0 <= i < mid.len() implies end - rate_window() < #[trigger] mid[i] <= end by {
            assert(mid[i] == h[k + i]);
            assert(h[k] <= h[k + i] && h[k + i] <= h[k + 5]);
        }
        lemma_window_count_all(mid, end);
        let front = h.take(k);
        let back = h.skip(k + 6);
        assert(h =~= front + mid + back);
        lemma_window_count_concat(front + mid, back, end);
        lemma_window_count_concat(front, mid, end);
        assert(window_count(h, end) <= rate_max_requests());
    }
}

/// The starts a paced request leaves forgotten all began more than a window
/// before the time the request began.
proof fn lemma_paced_history_forgotten(h: Seq<u64>, s: Seq<u64>, now: u64, start: u64)
    requires
        history_paced(h, s, now),
    ensures
        forall|i: int| 0 <= i < h.len() - prune_spec(s, now).len() ==> #[trigger] h.push(start)[i] + rate_window() < now,
{
    let a = h.len() - s.len();
    lemma_prune_suffix(s, now);
    assert forall|i: int| 0 <= i < h.len() - prune_spec(s, now).len() implies #[trigger] h.push(start)[i] + rate_window() < now by {
        assert(h.push(start)[i] == h[i]);
        if i >= a {
            assert(h[i] == s[i - a]);
        }
    }
}

/// A history with no request is paced, whatever the time.
pub proof fn lemma_paced_history_empty(now: u64)
    ensures
        history_paced(Seq::<u64>::empty(), Seq::<u64>::empty(), now),
{
    assert(Seq::<u64>::empty().skip(0) =~= Seq::<u64>::empty());
    assert forall|end: int| #[trigger] window_count(Seq::<u64>::empty(), end) <= rate_max_requests() by {}
}

// ---------------------------------------------------------------------------
// Torrent links on the tracker's pages.
// ---------------------------------------------------------------------------

/// The end of the run of decimal digits that starts at `j`.
pub open spec fn digit_run_end(s: Seq<char>, j: int) -> int
    decreases s.len() - j,
{
    if 0 <= j < s.len() && is_unicode_decimal_digit(s[j]) {
        digit_run_end(s, j + 1)
    } else {
        j
    }
}

proof fn lemma_digit_run_end(s: Seq<char>, j: int)
    ensures
        digit_run_end(s, j) >= j,
        0 <= j <= s.len() ==> digit_run_end(s, j) <= s.len(),
        forall|k: int| j <= k < digit_run_end(s, j) ==> is_unicode_decimal_digit(#[trigger] s[k]),
        0 <= j <= s.len() ==> (digit_run_end(s, j) == s.len() || !is_unicode_decimal_digit(s[digit_run_end(s, j)])),
    decreases s.len() - j,
{
    if 0 <= j < s.len() && is_unicode_decimal_digit(s[j]) {
        lemma_digit_run_end(s, j + 1);
    }
}

/// A link at position `i`: `prefix`, digits, `middle`, digits, and with
/// `hash_tail` also `#` and digits; each run of digits as long as it goes.
/// Gives the two numbers' digits and where the link ends.
pub open spec fn link_at(s: Seq<char>, i: int, prefix: Seq<char>, middle: Seq<char>, hash_tail: bool) -> Option<(Seq<char>, Seq<char>, int)> {
    if !crate::text::occurs_at(s, prefix, i) {
        None
    } else {
        let a = i + prefix.len();
        let b = digit_run_end(s, a);
        if b == a || !crate::text::occurs_at(s, middle, b) {
            None
        } else {
            let c = b + middle.len();
            let d = digit_run_end(s, c);
            if d == c {
                None
            } else if !hash_tail {
                Some((s.subrange(a, b), s.subrange(c, d), d))
            } else if d < s.len() && s[d] == '#' && digit_run_end(s, d + 1) > d + 1 {
                Some((s.subrange(a, b), s.subrange(c, d), digit_run_end(s, d + 1)))
            } else {
                None
            }
        }
    }
}

/// The links found scanning from `pos`: the leftmost link, then the links
/// after its end, and so on (as a pattern's successive matches are found).
pub open spec fn links_from(s: Seq<char>, pos: int, prefix: Seq<char>, middle: Seq<char>, hash_tail: bool) -> Seq<(Seq<char>, Seq<char>)>
    decreases s.len() + 1 - pos,
{
    if pos < 0 || pos > s.len() {
        Seq::<(Seq<char>, Seq<char>)>::empty()
    } else {
        match link_at(s, pos, prefix, middle, hash_tail) {
            Some((g, t, end)) => if pos < end <= s.len() {
                seq![(g, t)] + links_from(s, end, prefix, middle, hash_tail)
            } else {
                links_from(s, pos + 1, prefix, middle, hash_tail)
            },
            None => links_from(s, pos + 1, prefix, middle, hash_tail),
        }
    }
}

/// The numbers of the links, in order, without those whose torrent number
/// (in decimal) is in `skip`; the first number that cannot be read as a
/// `u64` gives its error.
pub open spec fn links_result(links: Seq<(Seq<char>, Seq<char>)>, skip: Seq<Seq<char>>) -> Result<Seq<(u64, u64)>, IntErrorKind>
    decreases links.len(),
{
    if links.len() == 0 {
        Ok(Seq::<(u64, u64)>::empty())
    } else {
        match links_result(links.drop_last(), skip) {
            Err(e) => Err(e),
            Ok(acc) => match parse_uint_spec(links.last().0, u64::MAX as nat) {
                Err(e) => Err(e),
                Ok(g) => match parse_uint_spec(links.last().1, u64::MAX as nat) {
                    Err(e) => Err(e),
                    Ok(t) => if skip.contains(decimal_spec(t)) {
                        Ok(acc)
                    } else {
                        Ok(acc.push((g as u64, t as u64)))
                    },
                },
            },
        }
    }
}

/// The end of the run of digits of `v` starting at `j`.
fn digit_run_end_exec(v: &Vec<char>, j: usize) -> (r: usize)
    requires
        j <= v.len(),
    ensures
        r == digit_run_end(v@, j as int),
{
    let mut k = j;
    while k < v.len() && is_decimal_digit(v[k])
        invariant
            j <= k <= v.len(),
            digit_run_end(v@, j as int) == digit_run_end(v@, k as int),
        decreases v.len() - k,
    {
        k = k + 1;
    }
    k
}

/// Where the digits and the end of a link at `i` are, if there is one.
fn link_at_exec(v: &Vec<char>, i: usize, prefix: &Vec<char>, middle: &Vec<char>, hash_tail: bool) -> (r: Option<(usize, usize, usize, usize, usize)>)
    requires
        i <= v.len(),
    ensures
        match r {
            Some((a, b, c, d, e)) => a <= b <= v.len() && c <= d <= v.len() && i < e <= v.len()
                && link_at(v@, i as int, prefix@, middle@, hash_tail) == Some(
                (v@.subrange(a as int, b as int), v@.subrange(c as int, d as int), e as int)),
            None => link_at(v@, i as int, prefix@, middle@, hash_tail) is None,
        },
{
    if !crate::text::occurs_at_exec_pub(v, prefix, i) {
        return None;
    }
    let a = i + prefix.len();
    let b = digit_run_end_exec(v, a);
    proof {
        lemma_digit_run_end(v@, a as int);
    }
    if b == a || !crate::text::occurs_at_exec_pub(v, middle, b) {
        return None;
    }
    let c = b + middle.len();
    let d = digit_run_end_exec(v, c);
    proof {
        lemma_digit_run_end(v@, c as int);
    }
    if d == c {
        return None;
    }
    if !hash_tail {
        return Some((a, b, c, d, d));
    }
    if d < v.len() && v[d] == '#' {
        let e = digit_run_end_exec(v, d + 1);
        proof {
            lemma_digit_run_end(v@, d + 1);
        }
        if e > d + 1 {
            return Some((a, b, c, d, e));
        }
    }
    None
}

/// The digit strings of the links in `v`.
fn scan_links(v: &Vec<char>, prefix: &Vec<char>, middle: &Vec<char>, hash_tail: bool) -> (r: Vec<(String, String)>)
    ensures
        pairs_view(r@) == links_from(v@, 0, prefix@, middle@, hash_tail),
{
    let mut out: Vec<(String, String)> = Vec::new();
    let mut pos: usize = 0;
    assert(pairs_view(out@) + links_from(v@, 0, prefix@, middle@, hash_tail) =~= links_from(v@, 0, prefix@, middle@, hash_tail));
    loop
        invariant
            0 <= pos <= v.len(),
            pairs_view(out@) + links_from(v@, pos as int, prefix@, middle@, hash_tail) == links_from(v@, 0, prefix@, middle@, hash_tail),
        ensures
            pairs_view(out@) == links_from(v@, 0, prefix@, middle@, hash_tail),
        decreases v.len() + 1 - pos,
    {
        match link_at_exec(v, pos, prefix, middle, hash_tail) {
            Some((a, b, c, d, e)) => {
                let g = crate::text::string_of_range(v, a, b);
                let t = crate::text::string_of_range(v, c, d);
                let ghost before = pairs_view(out@);
                let ghost gv = g@;
                let ghost tv = t@;
                out.push((g, t));
                assert(pairs_view(out@) =~= before.push((gv, tv)));
                assert(links_from(v@, pos as int, prefix@, middle@, hash_tail) == seq![(gv, tv)] + links_from(v@, e as int, prefix@, middle@, hash_tail));
                assert(before.push((gv, tv)) + links_from(v@, e as int, prefix@, middle@, hash_tail)
                    =~= before + (seq![(gv, tv)] + links_from(v@, e as int, prefix@, middle@, hash_tail)));
                pos = e;
            },
            None => {
                if pos == v.len() {
                    assert(links_from(v@, pos + 1, prefix@, middle@, hash_tail) =~= Seq::<(Seq<char>, Seq<char>)>::empty());
                    assert(pairs_view(out@) + links_from(v@, pos as int, prefix@, middle@, hash_tail) =~= pairs_view(out@));
                    break;
                }
                pos = pos + 1;
            },
        }
    }
    out
}

/// The numbers of the links (see `links_result`).
fn read_links(links: &Vec<(String, String)>, skip: &Vec<String>) -> (r: Result<Vec<(u64, u64)>, IntErrorKind>)
    ensures
        match r {
            Ok(v) => links_result(pairs_view(links@), views(skip@)) == Ok::<Seq<(u64, u64)>, IntErrorKind>(v@),
            Err(e) => links_result(pairs_view(links@), views(skip@)) == Err::<Seq<(u64, u64)>, IntErrorKind>(e),
        },
{
    let ghost lv = pairs_view(links@);
    let mut out: Vec<(u64, u64)> = Vec::new();
    let mut i: usize = 0;
    assert(lv.take(0) =~= Seq::<(Seq<char>, Seq<char>)>::empty());
    while i < links.len()
        invariant
            lv == pairs_view(links@),
            0 <= i <= links.len(),
            links_result(lv.take(i as int), views(skip@)) == Ok::<Seq<(u64, u64)>, IntErrorKind>(out@),
        decreases links.len() - i,
    {
        assert(lv.take(i + 1).drop_last() =~= lv.take(i as int));
        assert(lv.take(i + 1).last() == (links@[i as int].0@, links@[i as int].1@));
        let g = match parse_u64(links[i].0.as_str()) {
            Ok(n) => n,
            Err(e) => {
                proof {
                    lemma_links_result_err(lv, i as int + 1, views(skip@), e);
                }
                return Err(e);
            },
        };
        let t = match parse_u64(links[i].1.as_str()) {
            Ok(n) => n,
            Err(e) => {
                proof {
                    lemma_links_result_err(lv, i as int + 1, views(skip@), e);
                }
                return Err(e);
            },
        };
        let ts = decimal_string(t);
        if !crate::config::contains_string(skip, ts.as_str()) {
            out.push((g, t));
        }
        i = i + 1;
    }
    assert(lv.take(links@.len() as int) =~= lv);
    Ok(out)
}

proof fn lemma_links_result_err(l: Seq<(Seq<char>, Seq<char>)>, k: int, skip: Seq<Seq<char>>, e: IntErrorKind)
    requires
        0 <= k <= l.len(),
        links_result(l.take(k), skip) == Err::<Seq<(u64, u64)>, IntErrorKind>(e),
    ensures
        links_result(l, skip) == Err::<Seq<(u64, u64)>, IntErrorKind>(e),
    decreases l.len() - k,
{
    if k < l.len() {
        assert(l.take(k + 1).drop_last() =~= l.take(k));
        lemma_links_result_err(l, k + 1, skip, e);
    } else {
        assert(l.take(k) =~= l);
    }
}

pub open spec fn torrent_link_prefix() -> Seq<char> {
    "torrents.php?id="@
}

pub open spec fn group_link_prefix() -> Seq<char> {
    "torrents.php?groupId="@
}

pub open spec fn torrent_link_middle() -> Seq<char> {
    "&torrentid="@
}

/// The (group, torrent) numbers of the `torrents.php?id=G&torrentid=T`
/// links of a page, in page order, without the torrents in `skip`.
pub fn extract_torrent_links(html: &str, skip: &Vec<String>) -> (r: Result<Vec<(u64, u64)>, IntErrorKind>)
    ensures
        match r {
            Ok(v) => links_result(links_from(html@, 0, torrent_link_prefix(), torrent_link_middle(), false), views(skip@))
                == Ok::<Seq<(u64, u64)>, IntErrorKind>(v@),
            Err(e) => links_result(links_from(html@, 0, torrent_link_prefix(), torrent_link_middle(), false), views(skip@))
                == Err::<Seq<(u64, u64)>, IntErrorKind>(e),
        },
{
    let v = crate::text::chars_of(html);
    let prefix = crate::text::chars_of("torrents.php?id=");
    let middle = crate::text::chars_of("&torrentid=");
    let links = scan_links(&v, &prefix, &middle, false);
    read_links(&links, skip)
}

/// The (group, torrent) numbers of the `torrents.php?groupId=G&torrentid=T#N`
/// links of a page, in page order, without the torrents in `skip`.
pub fn extract_seeding_links(html: &str, skip: &Vec<String>) -> (r: Result<Vec<(u64, u64)>, IntErrorKind>)
    ensures
        match r {
            Ok(v) => links_result(links_from(html@, 0, group_link_prefix(), torrent_link_middle(), true), views(skip@))
                == Ok::<Seq<(u64, u64)>, IntErrorKind>(v@),
            Err(e) => links_result(links_from(html@, 0, group_link_prefix(), torrent_link_middle(), true), views(skip@))
                == Err::<Seq<(u64, u64)>, IntErrorKind>(e),
        },
{
    let v = crate::text::chars_of(html);
    let prefix = crate::text::chars_of("torrents.php?groupId=");
    let middle = crate::text::chars_of("&torrentid=");
    let links = scan_links(&v, &prefix, &middle, true);
    read_links(&links, skip)
}

// ---------------------------------------------------------------------------
// Statuses and answers.
// ---------------------------------------------------------------------------

/// A 2xx status (what `StatusCode::is_success` reports).
pub fn status_is_success(code: u16) -> (r: bool)
    ensures
        r == (200 <= code < 300),
{
    200 <= code && code < 300
}

/// A 4xx status (what `StatusCode::is_client_error` reports).
pub fn status_is_client_error(code: u16) -> (r: bool)
    ensures
        r == (400 <= code < 500),
{
    400 <= code && code < 500
}

/// A 5xx status (what `StatusCode::is_server_error` reports).
pub fn status_is_server_error(code: u16) -> (r: bool)
    ensures
        r == (500 <= code < 600),
{
    500 <= code && code < 600
}

/// Whether a login answered with `code` failed: a client or server error.
pub fn login_refused(code: u16) -> (r: bool)
    ensures
        r == (400 <= code < 600),
{
    status_is_client_error(code) || status_is_server_error(code)
}

/// The view of an optional error text, empty when there is none.
pub open spec fn text_or_empty(e: Option<String>) -> Seq<char> {
    match e {
        Some(x) => x@,
        None => Seq::<char>::empty(),
    }
}

/// The check of an AJAX answer: anything but status `success` is an error,
/// reported with the action and the answer's error text.
pub fn ajax_answer_check(action: &str, status: &str, error: Option<String>) -> (r: Result<(), String>)
    ensures
        status@ == "success"@ ==> r is Ok,
        status@ != "success"@ ==> (r matches Err(m) && m@ == "AJAX error ("@ + action@ + "): "@ + text_or_empty(error)),
{
    if str_eq(status, "success") {
        Ok(())
    } else {
        let mut m = String::from_str("AJAX error (");
        m.append(action);
        m.append("): ");
        match error {
            Some(e) => {
                m.append(e.as_str());
            },
            None => {},
        }
        assert(m@ =~= "AJAX error ("@ + action@ + "): "@ + text_or_empty(error));
        Err(m)
    }
}

/// The check of the index answer that carries the user's keys: anything but
/// status `success` is a failed login, reported with the answer's error text
/// or `unknown error`.
pub fn index_answer_check(status: &str, error: Option<String>) -> (r: Result<(), String>)
    ensures
        status@ == "success"@ ==> r is Ok,
        status@ != "success"@ ==> (r matches Err(m) && m@ == "Login failed: "@ + match error {
            Some(x) => x@,
            None => "unknown error"@,
        }),
{
    if str_eq(status, "success") {
        Ok(())
    } else {
        let mut m = String::from_str("Login failed: ");
        match error {
            Some(e) => {
                m.append(e.as_str());
            },
            None => {
                m.append("unknown error");
            },
        }
        Err(m)
    }
}

/// The check of an upload answer: anything but status `success` is an
/// error, reported with the answer's error text.
pub fn upload_answer_check(status: &str, error: Option<String>) -> (r: Result<(), String>)
    ensures
        status@ == "success"@ ==> r is Ok,
        status@ != "success"@ ==> (r matches Err(m) && m@ == "Upload error: "@ + text_or_empty(error)),
{
    if str_eq(status, "success") {
        Ok(())
    } else {
        let mut m = String::from_str("Upload error: ");
        match error {
            Some(e) => {
                m.append(e.as_str());
            },
            None => {},
        }
        assert(m@ =~= "Upload error: "@ + text_or_empty(error));
        Err(m)
    }
}

// ---------------------------------------------------------------------------
// Request contents.
// ---------------------------------------------------------------------------

/// Appends the pair `(k, v)`.
fn push_pair(v: &mut Vec<(String, String)>, k: &str, x: &str)
    ensures
        pairs_view(final(v)@) == pairs_view(old(v)@).push((k@, x@)),
{
    v.push((owned(k), owned(x)));
    assert(pairs_view(v@) =~= pairs_view(old(v)@).push((k@, x@)));
}

/// The login form: user name, password, the login button, and the
/// one-time code when there is one.
pub fn login_form(username: &str, password: &str, mfa: Option<&str>) -> (r: Vec<(String, String)>)
    ensures
        pairs_view(r@) == seq![("username"@, username@), ("password"@, password@), ("login"@, "Log in"@)] + match mfa {
            Some(m) => seq![("mfa"@, m@)],
            None => Seq::<(Seq<char>, Seq<char>)>::empty(),
        },
{
    let mut r: Vec<(String, String)> = Vec::new();
    push_pair(&mut r, "username", username);
    push_pair(&mut r, "password", password);
    push_pair(&mut r, "login", "Log in");
    match mfa {
        Some(m) => {
            push_pair(&mut r, "mfa", m);
        },
        None => {},
    }
    assert(pairs_view(r@) =~= seq![("username"@, username@), ("password"@, password@), ("login"@, "Log in"@)] + match mfa {
        Some(m) => seq![("mfa"@, m@)],
        None => Seq::<(Seq<char>, Seq<char>)>::empty(),
    });
    r
}

/// Appends copies of the pairs of `more`.
fn append_pairs(v: &mut Vec<(String, String)>, more: &Vec<(String, String)>)
    ensures
        pairs_view(final(v)@) == pairs_view(old(v)@) + pairs_view(more@),
{
    let mut k: usize = 0;
    while k < more.len()
        invariant
            0 <= k <= more.len(),
            pairs_view(v@) == pairs_view(old(v)@) + pairs_view(more@).take(k as int),
        decreases more.len() - k,
    {
        let ghost before = pairs_view(v@);
        push_pair(v, more[k].0.as_str(), more[k].1.as_str());
        assert(pairs_view(more@).take(k + 1) =~= pairs_view(more@).take(k as int).push((more@[k as int].0@, more@[k as int].1@)));
        assert(pairs_view(v@) =~= before.push((more@[k as int].0@, more@[k as int].1@)));
        k = k + 1;
    }
    assert(pairs_view(more@).take(more@.len() as int) =~= pairs_view(more@));
}

/// The query of an AJAX GET request: the action, the user's key, then the
/// request's own parameters.
pub fn ajax_get_params(action: &str, authkey: &str, extra: &Vec<(String, String)>) -> (r: Vec<(String, String)>)
    ensures
        pairs_view(r@) == seq![("action"@, action@), ("auth"@, authkey@)] + pairs_view(extra@),
{
    let mut r: Vec<(String, String)> = Vec::new();
    push_pair(&mut r, "action", action);
    push_pair(&mut r, "auth", authkey);
    append_pairs(&mut r, extra);
    r
}

/// The form of an AJAX POST request: the request's own fields, then the user's key.
pub fn ajax_post_form(form: &Vec<(String, String)>, authkey: &str) -> (r: Vec<(String, String)>)
    ensures
        pairs_view(r@) == pairs_view(form@).push(("auth"@, authkey@)),
{
    let mut r: Vec<(String, String)> = Vec::new();
    append_pairs(&mut r, form);
    push_pair(&mut r, "auth", authkey);
    assert(pairs_view(r@) =~= pairs_view(form@).push(("auth"@, authkey@)));
    r
}

/// The year of an edition as sent to the tracker: 0 when unknown.
pub open spec fn year_or_zero(y: Option<u32>) -> Seq<char> {
    decimal_spec(match y {
        Some(x) => x as nat,
        None => 0,
    })
}

/// The text fields of an upload form, after the torrent file.
pub open spec fn upload_fields_spec(group_id: u64, torrent: Torrent, format: Format, description: Seq<Seq<char>>, authkey: Seq<char>) -> Seq<(Seq<char>, Seq<char>)> {
    let base = seq![
        ("type"@, "0"@),
        ("groupid"@, decimal_spec(group_id as nat)),
        ("remaster"@, "1"@),
        ("remaster_year"@, year_or_zero(torrent.remaster_year)),
        ("remaster_title"@, torrent.remaster_title@),
        ("remaster_record_label"@, torrent.remaster_record_label@),
        ("remaster_catalogue_number"@, torrent.remaster_catalogue_number@),
        ("format"@, format.name@),
        ("bitrate"@, format.encoding@),
        ("media"@, torrent.media@),
        ("auth"@, authkey),
    ];
    if description.len() > 0 {
        base.push(("release_desc"@, join_spec(description, "\n"@)))
    } else {
        base
    }
}

/// The upload form names each field once: `type` 0, `groupid` the decimal
/// of the group, `remaster` 1, the edition's year (0 when unknown), title,
/// record label and catalogue number, `format` the format's tracker name
/// (`MP3` for both MP3 formats, `FLAC` for FLAC), `bitrate` the format's
/// encoding, `media` the torrent's medium and `auth` the user's key; a
/// `release_desc` field with the description lines is sent exactly when
/// there are any.
pub proof fn lemma_upload_fields(group_id: u64, torrent: Torrent, format: Format, description: Seq<Seq<char>>, authkey: Seq<char>)
    ensures
        forall|i: int, j: int| 0 <= i < j < upload_fields_spec(group_id, torrent, format, description, authkey).len()
            ==> (#[trigger] upload_fields_spec(group_id, torrent, format, description, authkey)[i]).0 != (#[trigger] upload_fields_spec(group_id, torrent, format, description, authkey)[j]).0,
        forall|i: int| 0 <= i < upload_fields_spec(group_id, torrent, format, description, authkey).len() && (#[trigger] upload_fields_spec(group_id, torrent, format, description, authkey)[i]).0 == "type"@ ==> upload_fields_spec(group_id, torrent, format, description, authkey)[i].1 == "0"@,
        upload_fields_spec(group_id, torrent, format, description, authkey).contains(("type"@, "0"@)),
        forall|i: int| 0 <= i < upload_fields_spec(group_id, torrent, format, description, authkey).len() && (#[trigger] upload_fields_spec(group_id, torrent, format, description, authkey)[i]).0 == "groupid"@ ==> upload_fields_spec(group_id, torrent, format, description, authkey)[i].1 == decimal_spec(group_id as nat),
        upload_fields_spec(group_id, torrent, format, description, authkey).contains(("groupid"@, decimal_spec(group_id as nat))),
        forall|i: int| 0 <= i < upload_fields_spec(group_id, torrent, format, description, authkey).len() && (#[trigger] upload_fields_spec(group_id, torrent, format, description, authkey)[i]).0 == "remaster"@ ==> upload_fields_spec(group_id, torrent, format, description, authkey)[i].1 == "1"@,
        upload_fields_spec(group_id, torrent, format, description, authkey).contains(("remaster"@, "1"@)),
        forall|i: int| 0 <= i < upload_fields_spec(group_id, torrent, format, description, authkey).len() && (#[trigger] upload_fields_spec(group_id, torrent, format, description, authkey)[i]).0 == "remaster_year"@ ==> upload_fields_spec(group_id, torrent, format, description, authkey)[i].1 == year_or_zero(torrent.remaster_year),
        upload_fields_spec(group_id, torrent, format, description, authkey).contains(("remaster_year"@, year_or_zero(torrent.remaster_year))),
        forall|i: int| 0 <= i < upload_fields_spec(group_id, torrent, format, description, authkey).len() && (#[trigger] upload_fields_spec(group_id, torrent, format, description, authkey)[i]).0 == "remaster_title"@ ==> upload_fields_spec(group_id, torrent, format, description, authkey)[i].1 == torrent.remaster_title@,
        upload_fields_spec(group_id, torrent, format, description, authkey).contains(("remaster_title"@, torrent.remaster_title@)),
        forall|i: int| 0 <= i < upload_fields_spec(group_id, torrent, format, description, authkey).len() && (#[trigger] upload_fields_spec(group_id, torrent, format, description, authkey)[i]).0 == "remaster_record_label"@ ==> upload_fields_spec(group_id, torrent, format, description, authkey)[i].1 == torrent.remaster_record_label@,
        upload_fields_spec(group_id, torrent, format, description, authkey).contains(("remaster_record_label"@, torrent.remaster_record_label@)),
        forall|i: int| 0 <= i < upload_fields_spec(group_id, torrent, format, description, authkey).len() && (#[trigger] upload_fields_spec(group_id, torrent, format, description, authkey)[i]).0 == "remaster_catalogue_number"@ ==> upload_fields_spec(group_id, torrent, format, description, authkey)[i].1 == torrent.remaster_catalogue_number@,
        upload_fields_spec(group_id, torrent, format, description, authkey).contains(("remaster_catalogue_number"@, torrent.remaster_catalogue_number@)),
        forall|i: int| 0 <= i < upload_fields_spec(group_id, torrent, format, description, authkey).len() && (#[trigger] upload_fields_spec(group_id, torrent, format, description, authkey)[i]).0 == "format"@ ==> upload_fields_spec(group_id, torrent, format, description, authkey)[i].1 == format.name@,
        upload_fields_spec(group_id, torrent, format, description, authkey).contains(("format"@, format.name@)),
        forall|i: int| 0 <= i < upload_fields_spec(group_id, torrent, format, description, authkey).len() && (#[trigger] upload_fields_spec(group_id, torrent, format, description, authkey)[i]).0 == "bitrate"@ ==> upload_fields_spec(group_id, torrent, format, description, authkey)[i].1 == format.encoding@,
        upload_fields_spec(group_id, torrent, format, description, authkey).contains(("bitrate"@, format.encoding@)),
        forall|i: int| 0 <= i < upload_fields_spec(group_id, torrent, format, description, authkey).len() && (#[trigger] upload_fields_spec(group_id, torrent, format, description, authkey)[i]).0 == "media"@ ==> upload_fields_spec(group_id, torrent, format, description, authkey)[i].1 == torrent.media@,
        upload_fields_spec(group_id, torrent, format, description, authkey).contains(("media"@, torrent.media@)),
        forall|i: int| 0 <= i < upload_fields_spec(group_id, torrent, format, description, authkey).len() && (#[trigger] upload_fields_spec(group_id, torrent, format, description, authkey)[i]).0 == "auth"@ ==> upload_fields_spec(group_id, torrent, format, description, authkey)[i].1 == authkey,
        upload_fields_spec(group_id, torrent, format, description, authkey).contains(("auth"@, authkey)),
        upload_fields_spec(group_id, torrent, format, description, authkey).contains(("release_desc"@, join_spec(description, "\n"@))) <==> description.len() > 0,
{
    reveal_strlit("type");
    reveal_strlit("groupid");
    reveal_strlit("remaster");
    reveal_strlit("remaster_year");
    reveal_strlit("remaster_title");
    reveal_strlit("remaster_record_label");
    reveal_strlit("remaster_catalogue_number");
    reveal_strlit("format");
    reveal_strlit("bitrate");
    reveal_strlit("media");
    reveal_strlit("auth");
    reveal_strlit("release_desc");
    assert("type"@ != "groupid"@) by { assert("type"@.len() != "groupid"@.len()); }
    assert("type"@ != "remaster"@) by { assert("type"@.len() != "remaster"@.len()); }
    assert("type"@ != "remaster_year"@) by { assert("type"@.len() != "remaster_year"@.len()); }
    assert("type"@ != "remaster_title"@) by { assert("type"@.len() != "remaster_title"@.len()); }
    assert("type"@ != "remaster_record_label"@) by { assert("type"@.len() != "remaster_record_label"@.len()); }
    assert("type"@ != "remaster_catalogue_number"@) by { assert("type"@.len() != "remaster_catalogue_number"@.len()); }
    assert("type"@ != "format"@) by { assert("type"@.len() != "format"@.len()); }
    assert("type"@ != "bitrate"@) by { assert("type"@.len() != "bitrate"@.len()); }
    assert("type"@ != "media"@) by { assert("type"@.len() != "media"@.len()); }
    assert("type"@ != "auth"@) by { assert("type"@[0] != "auth"@[0]); }
    assert("type"@ != "release_desc"@) by { assert("type"@.len() != "release_desc"@.len()); }
    assert("groupid"@ != "remaster"@) by { assert("groupid"@.len() != "remaster"@.len()); }
    assert("groupid"@ != "remaster_year"@) by { assert("groupid"@.len() != "remaster_year"@.len()); }
    assert("groupid"@ != "remaster_title"@) by { assert("groupid"@.len() != "remaster_title"@.len()); }
    assert("groupid"@ != "remaster_record_label"@) by { assert("groupid"@.len() != "remaster_record_label"@.len()); }
    assert("groupid"@ != "remaster_catalogue_number"@) by { assert("groupid"@.len() != "remaster_catalogue_number"@.len()); }
    assert("groupid"@ != "format"@) by { assert("groupid"@.len() != "format"@.len()); }
    assert("groupid"@ != "bitrate"@) by { assert("groupid"@[0] != "bitrate"@[0]); }
    assert("groupid"@ != "media"@) by { assert("groupid"@.len() != "media"@.len()); }
    assert("groupid"@ != "auth"@) by { assert("groupid"@.len() != "auth"@.len()); }
    assert("groupid"@ != "release_desc"@) by { assert("groupid"@.len() != "release_desc"@.len()); }
    assert("remaster"@ != "remaster_year"@) by { assert("remaster"@.len() != "remaster_year"@.len()); }
    assert("remaster"@ != "remaster_title"@) by { assert("remaster"@.len() != "remaster_title"@.len()); }
    assert("remaster"@ != "remaster_record_label"@) by { assert("remaster"@.len() != "remaster_record_label"@.len()); }
    assert("remaster"@ != "remaster_catalogue_number"@) by { assert("remaster"@.len() != "remaster_catalogue_number"@.len()); }
    assert("remaster"@ != "format"@) by { assert("remaster"@.len() != "format"@.len()); }
    assert("remaster"@ != "bitrate"@) by { assert("remaster"@.len() != "bitrate"@.len()); }
    assert("remaster"@ != "media"@) by { assert("remaster"@.len() != "media"@.len()); }
    assert("remaster"@ != "auth"@) by { assert("remaster"@.len() != "auth"@.len()); }
    assert("remaster"@ != "release_desc"@) by { assert("remaster"@.len() != "release_desc"@.len()); }
    assert("remaster_year"@ != "remaster_title"@) by { assert("remaster_year"@.len() != "remaster_title"@.len()); }
    assert("remaster_year"@ != "remaster_record_label"@) by { assert("remaster_year"@.len() != "remaster_record_label"@.len()); }
    assert("remaster_year"@ != "remaster_catalogue_number"@) by { assert("remaster_year"@.len() != "remaster_catalogue_number"@.len()); }
    assert("remaster_year"@ != "format"@) by { assert("remaster_year"@.len() != "format"@.len()); }
    assert("remaster_year"@ != "bitrate"@) by { assert("remaster_year"@.len() != "bitrate"@.len()); }
    assert("remaster_year"@ != "media"@) by { assert("remaster_year"@.len() != "media"@.len()); }
    assert("remaster_year"@ != "auth"@) by { assert("remaster_year"@.len() != "auth"@.len()); }
    assert("remaster_year"@ != "release_desc"@) by { assert("remaster_year"@.len() != "release_desc"@.len()); }
    assert("remaster_title"@ != "remaster_record_label"@) by { assert("remaster_title"@.len() != "remaster_record_label"@.len()); }
    assert("remaster_title"@ != "remaster_catalogue_number"@) by { assert("remaster_title"@.len() != "remaster_catalogue_number"@.len()); }
    assert("remaster_title"@ != "format"@) by { assert("remaster_title"@.len() != "format"@.len()); }
    assert("remaster_title"@ != "bitrate"@) by { assert("remaster_title"@.len() != "bitrate"@.len()); }
    assert("remaster_title"@ != "media"@) by { assert("remaster_title"@.len() != "media"@.len()); }
    assert("remaster_title"@ != "auth"@) by { assert("remaster_title"@.len() != "auth"@.len()); }
    assert("remaster_title"@ != "release_desc"@) by { assert("remaster_title"@.len() != "release_desc"@.len()); }
    assert("remaster_record_label"@ != "remaster_catalogue_number"@) by { assert("remaster_record_label"@.len() != "remaster_catalogue_number"@.len()); }
    assert("remaster_record_label"@ != "format"@) by { assert("remaster_record_label"@.len() != "format"@.len()); }
    assert("remaster_record_label"@ != "bitrate"@) by { assert("remaster_record_label"@.len() != "bitrate"@.len()); }
    assert("remaster_record_label"@ != "media"@) by { assert("remaster_record_label"@.len() != "media"@.len()); }
    assert("remaster_record_label"@ != "auth"@) by { assert("remaster_record_label"@.len() != "auth"@.len()); }
    assert("remaster_record_label"@ != "release_desc"@) by { assert("remaster_record_label"@.len() != "release_desc"@.len()); }
    assert("remaster_catalogue_number"@ != "format"@) by { assert("remaster_catalogue_number"@.len() != "format"@.len()); }
    assert("remaster_catalogue_number"@ != "bitrate"@) by { assert("remaster_catalogue_number"@.len() != "bitrate"@.len()); }
    assert("remaster_catalogue_number"@ != "media"@) by { assert("remaster_catalogue_number"@.len() != "media"@.len()); }
    assert("remaster_catalogue_number"@ != "auth"@) by { assert("remaster_catalogue_number"@.len() != "auth"@.len()); }
    assert("remaster_catalogue_number"@ != "release_desc"@) by { assert("remaster_catalogue_number"@.len() != "release_desc"@.len()); }
    assert("format"@ != "bitrate"@) by { assert("format"@.len() != "bitrate"@.len()); }
    assert("format"@ != "media"@) by { assert("format"@.len() != "media"@.len()); }
    assert("format"@ != "auth"@) by { assert("format"@.len() != "auth"@.len()); }
    assert("format"@ != "release_desc"@) by { assert("format"@.len() != "release_desc"@.len()); }
    assert("bitrate"@ != "media"@) by { assert("bitrate"@.len() != "media"@.len()); }
    assert("bitrate"@ != "auth"@) by { assert("bitrate"@.len() != "auth"@.len()); }
    assert("bitrate"@ != "release_desc"@) by { assert("bitrate"@.len() != "release_desc"@.len()); }
    assert("media"@ != "auth"@) by { assert("media"@.len() != "auth"@.len()); }
    assert("media"@ != "release_desc"@) by { assert("media"@.len() != "release_desc"@.len()); }
    assert("auth"@ != "release_desc"@) by { assert("auth"@.len() != "release_desc"@.len()); }
    let f = upload_fields_spec(group_id, torrent, format, description, authkey);
    assert(f[0] == ("type"@, "0"@));
    assert(f[1] == ("groupid"@, decimal_spec(group_id as nat)));
    assert(f[2] == ("remaster"@, "1"@));
    assert(f[3] == ("remaster_year"@, year_or_zero(torrent.remaster_year)));
    assert(f[4] == ("remaster_title"@, torrent.remaster_title@));
    assert(f[5] == ("remaster_record_label"@, torrent.remaster_record_label@));
    assert(f[6] == ("remaster_catalogue_number"@, torrent.remaster_catalogue_number@));
    assert(f[7] == ("format"@, format.name@));
    assert(f[8] == ("bitrate"@, format.encoding@));
    assert(f[9] == ("media"@, torrent.media@));
    assert(f[10] == ("auth"@, authkey));
    if description.len() > 0 {
        assert(f[11] == ("release_desc"@, join_spec(description, "\n"@)));
    } else {
        assert forall|i: int| 0 <= i < f.len() implies f[i] != ("release_desc"@, join_spec(description, "\n"@)) by {
            assert(f[i].0 != "release_desc"@);
        }
    }
}

/// The text fields of the upload of a transcode of `torrent` in `format`
/// to group `group_id`, with the description lines `description`.
pub fn upload_fields(group_id: u64, torrent: &Torrent, format: &Format, description: &Vec<String>, authkey: &str) -> (r: Vec<(String, String)>)
    ensures
        pairs_view(r@) == upload_fields_spec(group_id, *torrent, *format, views(description@), authkey@),
{
    let mut r: Vec<(String, String)> = Vec::new();
    push_pair(&mut r, "type", "0");
    let g = decimal_string(group_id);
    push_pair(&mut r, "groupid", g.as_str());
    push_pair(&mut r, "remaster", "1");
    let y = decimal_string(match torrent.remaster_year {
        Some(x) => x as u64,
        None => 0,
    });
    push_pair(&mut r, "remaster_year", y.as_str());
    push_pair(&mut r, "remaster_title", torrent.remaster_title.as_str());
    push_pair(&mut r, "remaster_record_label", torrent.remaster_record_label.as_str());
    push_pair(&mut r, "remaster_catalogue_number", torrent.remaster_catalogue_number.as_str());
    push_pair(&mut r, "format", format.name);
    push_pair(&mut r, "bitrate", format.encoding);
    push_pair(&mut r, "media", torrent.media.as_str());
    push_pair(&mut r, "auth", authkey);
    if description.len() > 0 {
        let d = join(description, "\n");
        push_pair(&mut r, "release_desc", d.as_str());
    }
    assert(pairs_view(r@) =~= upload_fields_spec(group_id, *torrent, *format, views(description@), authkey@));
    r
}

/// The page of the edit form of a torrent, relative to the tracker.
pub fn set_24bit_path(torrent_id: u64) -> (r: String)
    ensures
        r@ == "torrents.php?action=edit&id="@ + decimal_spec(torrent_id as nat),
{
    let d = decimal_string(torrent_id);
    concat("torrents.php?action=edit&id=", d.as_str())
}

/// The fields of the edit that marks a torrent as 24-bit lossless.
pub open spec fn set_24bit_form_spec(torrent: Torrent) -> Seq<(Seq<char>, Seq<char>)> {
    seq![
        ("submit"@, "true"@),
        ("type"@, "1"@),
        ("action"@, "takeedit"@),
        ("torrentid"@, decimal_spec(torrent.id as nat)),
        ("media"@, torrent.media@),
        ("format"@, torrent.format@),
        ("bitrate"@, "24bit Lossless"@),
        ("release_desc"@, torrent.description@),
        ("remaster"@, "on"@),
        ("remaster_year"@, year_or_zero(torrent.remaster_year)),
        ("remaster_title"@, torrent.remaster_title@),
        ("remaster_record_label"@, torrent.remaster_record_label@),
        ("remaster_catalogue_number"@, torrent.remaster_catalogue_number@),
    ]
}

/// The edit that marks a torrent as 24-bit lossless names each field once
/// and keeps the torrent's own id, medium, format, description and edition,
/// setting only `bitrate` to `24bit Lossless` (with `submit` true, `type` 1,
/// `action` takeedit and `remaster` on).
pub proof fn lemma_set_24bit_form(torrent: Torrent)
    ensures
        forall|i: int, j: int| 0 <= i < j < set_24bit_form_spec(torrent).len()
            ==> (#[trigger] set_24bit_form_spec(torrent)[i]).0 != (#[trigger] set_24bit_form_spec(torrent)[j]).0,
        forall|i: int| 0 <= i < set_24bit_form_spec(torrent).len() && (#[trigger] set_24bit_form_spec(torrent)[i]).0 == "submit"@ ==> set_24bit_form_spec(torrent)[i].1 == "true"@,
        set_24bit_form_spec(torrent).contains(("submit"@, "true"@)),
        forall|i: int| 0 <= i < set_24bit_form_spec(torrent).len() && (#[trigger] set_24bit_form_spec(torrent)[i]).0 == "type"@ ==> set_24bit_form_spec(torrent)[i].1 == "1"@,
        set_24bit_form_spec(torrent).contains(("type"@, "1"@)),
        forall|i: int| 0 <= i < set_24bit_form_spec(torrent).len() && (#[trigger] set_24bit_form_spec(torrent)[i]).0 == "action"@ ==> set_24bit_form_spec(torrent)[i].1 == "takeedit"@,
        set_24bit_form_spec(torrent).contains(("action"@, "takeedit"@)),
        forall|i: int| 0 <= i < set_24bit_form_spec(torrent).len() && (#[trigger] set_24bit_form_spec(torrent)[i]).0 == "torrentid"@ ==> set_24bit_form_spec(torrent)[i].1 == decimal_spec(torrent.id as nat),
        set_24bit_form_spec(torrent).contains(("torrentid"@, decimal_spec(torrent.id as nat))),
        forall|i: int| 0 <= i < set_24bit_form_spec(torrent).len() && (#[trigger] set_24bit_form_spec(torrent)[i]).0 == "media"@ ==> set_24bit_form_spec(torrent)[i].1 == torrent.media@,
        set_24bit_form_spec(torrent).contains(("media"@, torrent.media@)),
        forall|i: int| 0 <= i < set_24bit_form_spec(torrent).len() && (#[trigger] set_24bit_form_spec(torrent)[i]).0 == "format"@ ==> set_24bit_form_spec(torrent)[i].1 == torrent.format@,
        set_24bit_form_spec(torrent).contains(("format"@, torrent.format@)),
        forall|i: int| 0 <= i < set_24bit_form_spec(torrent).len() && (#[trigger] set_24bit_form_spec(torrent)[i]).0 == "bitrate"@ ==> set_24bit_form_spec(torrent)[i].1 == "24bit Lossless"@,
        set_24bit_form_spec(torrent).contains(("bitrate"@, "24bit Lossless"@)),
        forall|i: int| 0 <= i < set_24bit_form_spec(torrent).len() && (#[trigger] set_24bit_form_spec(torrent)[i]).0 == "release_desc"@ ==> set_24bit_form_spec(torrent)[i].1 == torrent.description@,
        set_24bit_form_spec(torrent).contains(("release_desc"@, torrent.description@)),
        forall|i: int| 0 <= i < set_24bit_form_spec(torrent).len() && (#[trigger] set_24bit_form_spec(torrent)[i]).0 == "remaster"@ ==> set_24bit_form_spec(torrent)[i].1 == "on"@,
        set_24bit_form_spec(torrent).contains(("remaster"@, "on"@)),
        forall|i: int| 0 <= i < set_24bit_form_spec(torrent).len() && (#[trigger] set_24bit_form_spec(torrent)[i]).0 == "remaster_year"@ ==> set_24bit_form_spec(torrent)[i].1 == year_or_zero(torrent.remaster_year),
        set_24bit_form_spec(torrent).contains(("remaster_year"@, year_or_zero(torrent.remaster_year))),
        forall|i: int| 0 <= i < set_24bit_form_spec(torrent).len() && (#[trigger] set_24bit_form_spec(torrent)[i]).0 == "remaster_title"@ ==> set_24bit_form_spec(torrent)[i].1 == torrent.remaster_title@,
        set_24bit_form_spec(torrent).contains(("remaster_title"@, torrent.remaster_title@)),
        forall|i: int| 0 <= i < set_24bit_form_spec(torrent).len() && (#[trigger] set_24bit_form_spec(torrent)[i]).0 == "remaster_record_label"@ ==> set_24bit_form_spec(torrent)[i].1 == torrent.remaster_record_label@,
        set_24bit_form_spec(torrent).contains(("remaster_record_label"@, torrent.remaster_record_label@)),
        forall|i: int| 0 <= i < set_24bit_form_spec(torrent).len() && (#[trigger] set_24bit_form_spec(torrent)[i]).0 == "remaster_catalogue_number"@ ==> set_24bit_form_spec(torrent)[i].1 == torrent.remaster_catalogue_number@,
        set_24bit_form_spec(torrent).contains(("remaster_catalogue_number"@, torrent.remaster_catalogue_number@)),
{
    reveal_strlit("submit");
    reveal_strlit("type");
    reveal_strlit("action");
    reveal_strlit("torrentid");
    reveal_strlit("media");
    reveal_strlit("format");
    reveal_strlit("bitrate");
    reveal_strlit("release_desc");
    reveal_strlit("remaster");
    reveal_strlit("remaster_year");
    reveal_strlit("remaster_title");
    reveal_strlit("remaster_record_label");
    reveal_strlit("remaster_catalogue_number");
    assert("submit"@ != "type"@) by { assert("submit"@.len() != "type"@.len()); }
    assert("submit"@ != "action"@) by { assert("submit"@[0] != "action"@[0]); }
    assert("submit"@ != "torrentid"@) by { assert("submit"@.len() != "torrentid"@.len()); }
    assert("submit"@ != "media"@) by { assert("submit"@.len() != "media"@.len()); }
    assert("submit"@ != "format"@) by { assert("submit"@[0] != "format"@[0]); }
    assert("submit"@ != "bitrate"@) by { assert("submit"@.len() != "bitrate"@.len()); }
    assert("submit"@ != "release_desc"@) by { assert("submit"@.len() != "release_desc"@.len()); }
    assert("submit"@ != "remaster"@) by { assert("submit"@.len() != "remaster"@.len()); }
    assert("submit"@ != "remaster_year"@) by { assert("submit"@.len() != "remaster_year"@.len()); }
    assert("submit"@ != "remaster_title"@) by { assert("submit"@.len() != "remaster_title"@.len()); }
    assert("submit"@ != "remaster_record_label"@) by { assert("submit"@.len() != "remaster_record_label"@.len()); }
    assert("submit"@ != "remaster_catalogue_number"@) by { assert("submit"@.len() != "remaster_catalogue_number"@.len()); }
    assert("type"@ != "action"@) by { assert("type"@.len() != "action"@.len()); }
    assert("type"@ != "torrentid"@) by { assert("type"@.len() != "torrentid"@.len()); }
    assert("type"@ != "media"@) by { assert("type"@.len() != "media"@.len()); }
    assert("type"@ != "format"@) by { assert("type"@.len() != "format"@.len()); }
    assert("type"@ != "bitrate"@) by { assert("type"@.len() != "bitrate"@.len()); }
    assert("type"@ != "release_desc"@) by { assert("type"@.len() != "release_desc"@.len()); }
    assert("type"@ != "remaster"@) by { assert("type"@.len() != "remaster"@.len()); }
    assert("type"@ != "remaster_year"@) by { assert("type"@.len() != "remaster_year"@.len()); }
    assert("type"@ != "remaster_title"@) by { assert("type"@.len() != "remaster_title"@.len()); }
    assert("type"@ != "remaster_record_label"@) by { assert("type"@.len() != "remaster_record_label"@.len()); }
    assert("type"@ != "remaster_catalogue_number"@) by { assert("type"@.len() != "remaster_catalogue_number"@.len()); }
    assert("action"@ != "torrentid"@) by { assert("action"@.len() != "torrentid"@.len()); }
    assert("action"@ != "media"@) by { assert("action"@.len() != "media"@.len()); }
    assert("action"@ != "format"@) by { assert("action"@[0] != "format"@[0]); }
    assert("action"@ != "bitrate"@) by { assert("action"@.len() != "bitrate"@.len()); }
    assert("action"@ != "release_desc"@) by { assert("action"@.len() != "release_desc"@.len()); }
    assert("action"@ != "remaster"@) by { assert("action"@.len() != "remaster"@.len()); }
    assert("action"@ != "remaster_year"@) by { assert("action"@.len() != "remaster_year"@.len()); }
    assert("action"@ != "remaster_title"@) by { assert("action"@.len() != "remaster_title"@.len()); }
    assert("action"@ != "remaster_record_label"@) by { assert("action"@.len() != "remaster_record_label"@.len()); }
    assert("action"@ != "remaster_catalogue_number"@) by { assert("action"@.len() != "remaster_catalogue_number"@.len()); }
    assert("torrentid"@ != "media"@) by { assert("torrentid"@.len() != "media"@.len()); }
    assert("torrentid"@ != "format"@) by { assert("torrentid"@.len() != "format"@.len()); }
    assert("torrentid"@ != "bitrate"@) by { assert("torrentid"@.len() != "bitrate"@.len()); }
    assert("torrentid"@ != "release_desc"@) by { assert("torrentid"@.len() != "release_desc"@.len()); }
    assert("torrentid"@ != "remaster"@) by { assert("torrentid"@.len() != "remaster"@.len()); }
    assert("torrentid"@ != "remaster_year"@) by { assert("torrentid"@.len() != "remaster_year"@.len()); }
    assert("torrentid"@ != "remaster_title"@) by { assert("torrentid"@.len() != "remaster_title"@.len()); }
    assert("torrentid"@ != "remaster_record_label"@) by { assert("torrentid"@.len() != "remaster_record_label"@.len()); }
    assert("torrentid"@ != "remaster_catalogue_number"@) by { assert("torrentid"@.len() != "remaster_catalogue_number"@.len()); }
    assert("media"@ != "format"@) by { assert("media"@.len() != "format"@.len()); }
    assert("media"@ != "bitrate"@) by { assert("media"@.len() != "bitrate"@.len()); }
    assert("media"@ != "release_desc"@) by { assert("media"@.len() != "release_desc"@.len()); }
    assert("media"@ != "remaster"@) by { assert("media"@.len() != "remaster"@.len()); }
    assert("media"@ != "remaster_year"@) by { assert("media"@.len() != "remaster_year"@.len()); }
    assert("media"@ != "remaster_title"@) by { assert("media"@.len() != "remaster_title"@.len()); }
    assert("media"@ != "remaster_record_label"@) by { assert("media"@.len() != "remaster_record_label"@.len()); }
    assert("media"@ != "remaster_catalogue_number"@) by { assert("media"@.len() != "remaster_catalogue_number"@.len()); }
    assert("format"@ != "bitrate"@) by { assert("format"@.len() != "bitrate"@.len()); }
    assert("format"@ != "release_desc"@) by { assert("format"@.len() != "release_desc"@.len()); }
    assert("format"@ != "remaster"@) by { assert("format"@.len() != "remaster"@.len()); }
    assert("format"@ != "remaster_year"@) by { assert("format"@.len() != "remaster_year"@.len()); }
    assert("format"@ != "remaster_title"@) by { assert("format"@.len() != "remaster_title"@.len()); }
    assert("format"@ != "remaster_record_label"@) by { assert("format"@.len() != "remaster_record_label"@.len()); }
    assert("format"@ != "remaster_catalogue_number"@) by { assert("format"@.len() != "remaster_catalogue_number"@.len()); }
    assert("bitrate"@ != "release_desc"@) by { assert("bitrate"@.len() != "release_desc"@.len()); }
    assert("bitrate"@ != "remaster"@) by { assert("bitrate"@.len() != "remaster"@.len()); }
    assert("bitrate"@ != "remaster_year"@) by { assert("bitrate"@.len() != "remaster_year"@.len()); }
    assert("bitrate"@ != "remaster_title"@) by { assert("bitrate"@.len() != "remaster_title"@.len()); }
    assert("bitrate"@ != "remaster_record_label"@) by { assert("bitrate"@.len() != "remaster_record_label"@.len()); }
    assert("bitrate"@ != "remaster_catalogue_number"@) by { assert("bitrate"@.len() != "remaster_catalogue_number"@.len()); }
    assert("release_desc"@ != "remaster"@) by { assert("release_desc"@.len() != "remaster"@.len()); }
    assert("release_desc"@ != "remaster_year"@) by { assert("release_desc"@.len() != "remaster_year"@.len()); }
    assert("release_desc"@ != "remaster_title"@) by { assert("release_desc"@.len() != "remaster_title"@.len()); }
    assert("release_desc"@ != "remaster_record_label"@) by { assert("release_desc"@.len() != "remaster_record_label"@.len()); }
    assert("release_desc"@ != "remaster_catalogue_number"@) by { assert("release_desc"@.len() != "remaster_catalogue_number"@.len()); }
    assert("remaster"@ != "remaster_year"@) by { assert("remaster"@.len() != "remaster_year"@.len()); }
    assert("remaster"@ != "remaster_title"@) by { assert("remaster"@.len() != "remaster_title"@.len()); }
    assert("remaster"@ != "remaster_record_label"@) by { assert("remaster"@.len() != "remaster_record_label"@.len()); }
    assert("remaster"@ != "remaster_catalogue_number"@) by { assert("remaster"@.len() != "remaster_catalogue_number"@.len()); }
    assert("remaster_year"@ != "remaster_title"@) by { assert("remaster_year"@.len() != "remaster_title"@.len()); }
    assert("remaster_year"@ != "remaster_record_label"@) by { assert("remaster_year"@.len() != "remaster_record_label"@.len()); }
    assert("remaster_year"@ != "remaster_catalogue_number"@) by { assert("remaster_year"@.len() != "remaster_catalogue_number"@.len()); }
    assert("remaster_title"@ != "remaster_record_label"@) by { assert("remaster_title"@.len() != "remaster_record_label"@.len()); }
    assert("remaster_title"@ != "remaster_catalogue_number"@) by { assert("remaster_title"@.len() != "remaster_catalogue_number"@.len()); }
    assert("remaster_record_label"@ != "remaster_catalogue_number"@) by { assert("remaster_record_label"@.len() != "remaster_catalogue_number"@.len()); }
    let f = set_24bit_form_spec(torrent);
    assert(f[0] == ("submit"@, "true"@));
    assert(f[1] == ("type"@, "1"@));
    assert(f[2] == ("action"@, "takeedit"@));
    assert(f[3] == ("torrentid"@, decimal_spec(torrent.id as nat)));
    assert(f[4] == ("media"@, torrent.media@));
    assert(f[5] == ("format"@, torrent.format@));
    assert(f[6] == ("bitrate"@, "24bit Lossless"@));
    assert(f[7] == ("release_desc"@, torrent.description@));
    assert(f[8] == ("remaster"@, "on"@));
    assert(f[9] == ("remaster_year"@, year_or_zero(torrent.remaster_year)));
    assert(f[10] == ("remaster_title"@, torrent.remaster_title@));
    assert(f[11] == ("remaster_record_label"@, torrent.remaster_record_label@));
    assert(f[12] == ("remaster_catalogue_number"@, torrent.remaster_catalogue_number@));
}

/// The fields of the edit that marks `torrent` as 24-bit lossless.
pub fn set_24bit_form(torrent: &Torrent) -> (r: Vec<(String, String)>)
    ensures
        pairs_view(r@) == set_24bit_form_spec(*torrent),
{
    let mut r: Vec<(String, String)> = Vec::new();
    push_pair(&mut r, "submit", "true");
    push_pair(&mut r, "type", "1");
    push_pair(&mut r, "action", "takeedit");
    let id = decimal_string(torrent.id);
    push_pair(&mut r, "torrentid", id.as_str());
    push_pair(&mut r, "media", torrent.media.as_str());
    push_pair(&mut r, "format", torrent.format.as_str());
    push_pair(&mut r, "bitrate", "24bit Lossless");
    push_pair(&mut r, "release_desc", torrent.description.as_str());
    push_pair(&mut r, "remaster", "on");
    let y = decimal_string(match torrent.remaster_year {
        Some(x) => x as u64,
        None => 0,
    });
    push_pair(&mut r, "remaster_year", y.as_str());
    push_pair(&mut r, "remaster_title", torrent.remaster_title.as_str());
    push_pair(&mut r, "remaster_record_label", torrent.remaster_record_label.as_str());
    push_pair(&mut r, "remaster_catalogue_number", torrent.remaster_catalogue_number.as_str());
    assert(pairs_view(r@) =~= set_24bit_form_spec(*torrent));
    r
}

// ---------------------------------------------------------------------------
// Finding candidates.
// ---------------------------------------------------------------------------

/// The listing of a user's torrents of a kind (`snatched`, `uploaded`), in FLAC.
pub fn crawl_base_url(endpoint: &str, crawl_type: &str, user_id: u32) -> (r: String)
    ensures
        r@ == endpoint@ + "torrents.php?type="@ + crawl_type@ + "&userid="@ + decimal_spec(user_id as nat) + "&format=FLAC"@,
{
    let mut r = concat(endpoint, "torrents.php?type=");
    r.append(crawl_type);
    r.append("&userid=");
    let d = decimal_string(user_id as u64);
    r.append(d.as_str());
    r.append("&format=FLAC");
    r
}

/// One page of a listing, restricted by a media parameter.
pub fn crawl_page_url(base: &str, media_param: &str, page: u32) -> (r: String)
    ensures
        r@ == base@ + media_param@ + "&page="@ + decimal_spec(page as nat),
{
    let mut r = concat(base, media_param);
    r.append("&page=");
    let d = decimal_string(page as u64);
    r.append(d.as_str());
    r
}

/// Whether a listing page links to the page after `page`.
pub fn has_next_page(html: &str, page: u32) -> (r: bool)
    requires
        page < u32::MAX,
    ensures
        r == contains_spec(html@, "page="@ + decimal_spec((page + 1) as nat)),
{
    let d = decimal_string((page + 1) as u64);
    let needle = concat("page=", d.as_str());
    contains(html, needle.as_str())
}

/// What one listing page yields: its candidates, and the next page to read
/// when the page links to it.
pub open spec fn crawl_page_spec(html: Seq<char>, page: u32, skip: Seq<Seq<char>>) -> Result<(Seq<(u64, u64)>, Option<u32>), IntErrorKind> {
    match links_result(links_from(html, 0, torrent_link_prefix(), torrent_link_middle(), false), skip) {
        Ok(found) => Ok((found, if contains_spec(html, "page="@ + decimal_spec((page + 1) as nat)) {
            Some((page + 1) as u32)
        } else {
            None
        })),
        Err(e) => Err(e),
    }
}

/// One step of reading a listing: the candidates of page `page`, and the
/// page to read next, if any.
pub fn crawl_page_step(html: &str, page: u32, skip: &Vec<String>) -> (r: Result<(Vec<(u64, u64)>, Option<u32>), IntErrorKind>)
    requires
        page < u32::MAX,
    ensures
        match r {
            Ok((found, next)) => crawl_page_spec(html@, page, views(skip@)) == Ok::<(Seq<(u64, u64)>, Option<u32>), IntErrorKind>((found@, next)),
            Err(e) => crawl_page_spec(html@, page, views(skip@)) == Err::<(Seq<(u64, u64)>, Option<u32>), IntErrorKind>(e),
        },
{
    let found = match extract_torrent_links(html, skip) {
        Ok(v) => v,
        Err(e) => {
            return Err(e);
        },
    };
    let next = if has_next_page(html, page) {
        Some(page + 1)
    } else {
        None
    };
    Ok((found, next))
}

/// The page of the torrents the user seeds that can be transcoded.
pub fn seeding_url(endpoint: &str) -> (r: String)
    ensures
        r@ == endpoint@ + "better.php?method=transcode&filter=seeding"@,
{
    concat(endpoint, "better.php?method=transcode&filter=seeding")
}

/// Whether a search mode includes the snatched torrents.
pub fn crawls_snatched(mode: &str) -> (r: bool)
    ensures
        r == (mode@ == "snatched"@ || mode@ == "both"@ || mode@ == "all"@),
{
    str_eq(mode, "snatched") || str_eq(mode, "both") || str_eq(mode, "all")
}

/// Whether a search mode includes the uploaded torrents.
pub fn crawls_uploaded(mode: &str) -> (r: bool)
    ensures
        r == (mode@ == "uploaded"@ || mode@ == "both"@ || mode@ == "all"@),
{
    str_eq(mode, "uploaded") || str_eq(mode, "both") || str_eq(mode, "all")
}

/// Whether a search mode includes the seeding torrents.
pub fn crawls_seeding(mode: &str) -> (r: bool)
    ensures
        r == (mode@ == "seeding"@ || mode@ == "all"@),
{
    str_eq(mode, "seeding") || str_eq(mode, "all")
}

/// The search name of a medium, from the media table.
pub open spec fn search_name(m: Seq<char>) -> Option<Seq<char>> {
    let t = spec_media_search_map();
    if exists|i: int| 0 <= i < t.len() && t[i].0 == m {
        Some(t[choose|i: int| 0 <= i < t.len() && t[i].0 == m].1)
    } else {
        None
    }
}

/// The media parameters of the search, one per medium of `media` that the
/// table knows, in order.
pub open spec fn media_params_of(media: Seq<Seq<char>>) -> Seq<Seq<char>>
    decreases media.len(),
{
    if media.len() == 0 {
        Seq::<Seq<char>>::empty()
    } else {
        let prev = media_params_of(media.drop_last());
        match search_name(media.last()) {
            Some(n) => prev.push("&media="@ + n),
            None => prev,
        }
    }
}

/// The media parameters of a search: one empty parameter when the media are
/// exactly the lossless media, else one `&media=` parameter per known medium.
pub open spec fn media_params_spec(media: Seq<Seq<char>>) -> Seq<Seq<char>> {
    if media.to_set() == spec_lossless_media().to_set() {
        seq![Seq::<char>::empty()]
    } else {
        media_params_of(media)
    }
}

/// The search name of the medium `m`.
fn search_name_exec(m: &str) -> (r: Option<&'static str>)
    ensures
        match r {
            Some(n) => search_name(m@) == Some(n@),
            None => search_name(m@) is None,
        },
{
    let table = media_search_map();
    let ghost t = spec_media_search_map();
    let mut i: usize = 0;
    while i < table.len()
        invariant
            table@.map_values(|p: (&'static str, &'static str)| (p.0@, p.1@)) == t,
            t == spec_media_search_map(),
            0 <= i <= table.len(),
            forall|j: int| 0 <= j < i ==> t[j].0 != m@,
        decreases table.len() - i,
    {
        assert(t[i as int] == (table@[i as int].0@, table@[i as int].1@));
        if str_eq(table[i].0, m) {
            proof {
                let k = choose|k: int| 0 <= k < t.len() && t[k].0 == m@;
                lemma_media_keys_distinct(k, i as int);
            }
            return Some(table[i].1);
        }
        i = i + 1;
    }
    None
}

/// The media table has no key twice.
proof fn lemma_media_keys_distinct(a: int, b: int)
    requires
        0 <= a < 8,
        0 <= b < 8,
        spec_media_search_map()[a].0 == spec_media_search_map()[b].0,
    ensures
        a == b,
{
    reveal_strlit("cd");
    reveal_strlit("dvd");
    reveal_strlit("vinyl");
    reveal_strlit("soundboard");
    reveal_strlit("sacd");
    reveal_strlit("dat");
    reveal_strlit("web");
    reveal_strlit("blu-ray");
    let t = spec_media_search_map();
    assert(t[a].0.len() == t[b].0.len());
    if a != b {
        assert(t[a].0[0] != t[b].0[0] || t[a].0[1] != t[b].0[1] || t[a].0.len() != t[b].0.len());
    }
}

/// Whether `a` and `b` hold the same strings.
fn same_strings(a: &Vec<String>, b: &Vec<String>) -> (r: bool)
    ensures
        r == (views(a@).to_set() == views(b@).to_set()),
{
    let mut i: usize = 0;
    while i < a.len()
        invariant
            0 <= i <= a.len(),
            forall|j: int| 0 <= j < i ==> views(b@).contains(#[trigger] views(a@)[j]),
        decreases a.len() - i,
    {
        if !crate::config::contains_string(b, a[i].as_str()) {
            proof {
                assert(views(a@)[i as int] == a@[i as int]@);
                assert(views(a@).to_set().contains(a@[i as int]@));
                assert(!views(b@).to_set().contains(a@[i as int]@));
            }
            return false;
        }
        i = i + 1;
    }
    let mut k: usize = 0;
    while k < b.len()
        invariant
            0 <= k <= b.len(),
            forall|j: int| 0 <= j < a@.len() ==> views(b@).contains(#[trigger] views(a@)[j]),
            forall|j: int| 0 <= j < k ==> views(a@).contains(#[trigger] views(b@)[j]),
        decreases b.len() - k,
    {
        if !crate::config::contains_string(a, b[k].as_str()) {
            proof {
                assert(views(b@)[k as int] == b@[k as int]@);
                assert(views(b@).to_set().contains(b@[k as int]@));
                assert(!views(a@).to_set().contains(b@[k as int]@));
            }
            return false;
        }
        k = k + 1;
    }
    proof {
        assert forall|x: Seq<char>| views(a@).to_set().contains(x) == views(b@).to_set().contains(x) by {
            if views(a@).contains(x) {
                let j = choose|j: int| 0 <= j < views(a@).len() && views(a@)[j] == x;
                assert(views(b@).contains(views(a@)[j]));
            }
            if views(b@).contains(x) {
                let j = choose|j: int| 0 <= j < views(b@).len() && views(b@)[j] == x;
                assert(views(a@).contains(views(b@)[j]));
            }
        }
        assert(views(a@).to_set() =~= views(b@).to_set());
    }
    true
}

/// The media parameters of a search (see `media_params_spec`).
pub fn media_params(media: &Vec<String>) -> (r: Vec<String>)
    ensures
        views(r@) == media_params_spec(views(media@)),
{
    let names = lossless_media();
    let mut lossless: Vec<String> = Vec::new();
    let mut i: usize = 0;
    while i < names.len()
        invariant
            0 <= i <= names.len(),
            names@.map_values(|s: &'static str| s@) == spec_lossless_media(),
            views(lossless@) == spec_lossless_media().take(i as int),
        decreases names.len() - i,
    {
        let ghost before = views(lossless@);
        assert(names@.map_values(|s: &'static str| s@)[i as int] == names@[i as int]@);
        lossless.push(owned(names[i]));
        assert(views(lossless@) =~= before.push(names@[i as int]@));
        assert(spec_lossless_media().take(i + 1) =~= spec_lossless_media().take(i as int).push(names@[i as int]@));
        i = i + 1;
    }
    assert(spec_lossless_media().take(names@.len() as int) =~= spec_lossless_media());
    if same_strings(media, &lossless) {
        let r = vec![String::new()];
        assert(views(r@) =~= seq![Seq::<char>::empty()]);
        return r;
    }
    let mut r: Vec<String> = Vec::new();
    let mut k: usize = 0;
    assert(views(media@).take(0) =~= Seq::<Seq<char>>::empty());
    while k < media.len()
        invariant
            0 <= k <= media.len(),
            views(r@) == media_params_of(views(media@).take(k as int)),
        decreases media.len() - k,
    {
        assert(views(media@).take(k + 1).drop_last() =~= views(media@).take(k as int));
        assert(views(media@).take(k + 1).last() == media@[k as int]@);
        match search_name_exec(media[k].as_str()) {
            Some(n) => {
                let ghost before = views(r@);
                let p = concat("&media=", n);
                let ghost pv = p@;
                r.push(p);
                assert(views(r@) =~= before.push(pv));
            },
            None => {},
        }
        k = k + 1;
    }
    assert(views(media@).take(media@.len() as int) =~= views(media@));
    r
}

/// The page of a release's torrent on the tracker.
pub open spec fn release_url_spec(endpoint: Seq<char>, group_id: u64, torrent_id: u64) -> Seq<char> {
    endpoint + "torrents.php?id="@ + decimal_spec(group_id as nat) + "&torrentid="@ + decimal_spec(torrent_id as nat)
        + "#torrent"@ + decimal_spec(torrent_id as nat)
}

/// The page of a release's torrent on the tracker.
pub fn release_url(endpoint: &str, group_id: u64, torrent_id: u64) -> (r: String)
    ensures
        r@ == release_url_spec(endpoint@, group_id, torrent_id),
{
    let mut r = concat(endpoint, "torrents.php?id=");
    let g = decimal_string(group_id);
    r.append(g.as_str());
    r.append("&torrentid=");
    let t = decimal_string(torrent_id);
    r.append(t.as_str());
    r.append("#torrent");
    r.append(t.as_str());
    r
}

/// The tracker endpoint: the given one or else the fallback, ending with `/`.
pub fn endpoint_with_fallback(url: Option<String>, fallback: String) -> (r: String)
    ensures
        r@ == crate::config::with_trailing_slash(match url {
            Some(u) => u@,
            None => fallback@,
        }),
{
    let s = match url {
        Some(u) => u,
        None => fallback,
    };
    crate::config::ensure_trailing_slash(s.as_str())
}

} // verus!
