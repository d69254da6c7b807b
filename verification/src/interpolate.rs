//! Buffering and playback of snapshots.
//!
//! `Buffer` is the producer-side half: it stores recent snapshots ordered
//! by remote time, suppresses duplicates, evicts the oldest past capacity
//! and measures network jitter.  `Playback` is the consumer-side half: it
//! advances a local playback time, selects a bracketing pair from the
//! buffer, and nudges its own timescale to track the remote clock while
//! staying a configured offset behind it.  The two are split so that a
//! caller may run network ingest and rendering concurrently, with the
//! wrapping `last_remote_counter` as the edge detector for fresh data.

use crate::ema::ExponentialMovingAverage;
use crate::fixed::SCALE;
use crate::fixed::TIME_MAX;
use crate::settings::Settings;
use crate::snapshot::Snapshot;
use vstd::prelude::*;

verus! {

/// The snapshots of `s` are strictly descending by remote time:
/// the front (index 0) is the newest.
pub open spec fn sorted_desc<T: Snapshot>(s: Seq<T>) -> bool {
    forall|i: int, j: int|
        0 <= i < j < s.len() ==> #[trigger] s[i].spec_remote_time()
            > #[trigger] s[j].spec_remote_time()
}

/// Some snapshot of `s` carries remote time `t`.
pub open spec fn has_time<T: Snapshot>(s: Seq<T>, t: i64) -> bool {
    exists|i: int| 0 <= i < s.len() && #[trigger] s[i].spec_remote_time() == t
}

/// Every snapshot of `s` is well-formed and carries a bounded remote time.
pub open spec fn all_wf<T: Snapshot>(s: Seq<T>) -> bool {
    forall|i: int|
        0 <= i < s.len() ==> (#[trigger] s[i]).wf() && -TIME_MAX <= s[i].spec_remote_time()
            <= TIME_MAX
}

/// Index of the first (hence newest) snapshot older than `t`, or `s.len()`
/// if every snapshot is at least as new as `t`.
pub open spec fn first_lt<T: Snapshot>(s: Seq<T>, t: i64) -> int
    decreases s.len(),
{
    if s.len() == 0 {
        0
    } else if s[0].spec_remote_time() < t {
        0
    } else {
        1 + first_lt(s.subrange(1, s.len() as int), t)
    }
}

/// `first_lt` is the unique position characterised by: everything before it
/// is at least `t`, and it is either the end or strictly older than `t`.
pub proof fn lemma_first_lt_char<T: Snapshot>(s: Seq<T>, t: i64, p: int)
    requires
        0 <= p <= s.len(),
        forall|j: int| 0 <= j < p ==> #[trigger] s[j].spec_remote_time() >= t,
        p < s.len() ==> s[p].spec_remote_time() < t,
    ensures
        first_lt(s, t) == p,
    decreases p,
{
    if p == 0 {
    } else {
        let tail = s.subrange(1, s.len() as int);
        assert(forall|j: int| 0 <= j < p - 1 ==> #[trigger] tail[j].spec_remote_time() >= t);
        assert(p - 1 < tail.len() ==> tail[p - 1].spec_remote_time() < t);
        lemma_first_lt_char(tail, t, p - 1);
    }
}

/// What `Buffer::insert_snapshot` does to the stored sequence: a snapshot
/// whose remote time is already present is dropped; otherwise it is placed
/// before the first older snapshot, and if the capacity `cap` is then
/// exceeded the oldest (back) snapshot is evicted.
pub open spec fn spec_insert<T: Snapshot>(s: Seq<T>, item: T, cap: nat) -> Seq<T> {
    if has_time(s, item.spec_remote_time()) {
        s
    } else {
        let s2 = s.insert(first_lt(s, item.spec_remote_time()), item);
        if s2.len() > cap {
            s2.drop_last()
        } else {
            s2
        }
    }
}

/// The inserted snapshot becomes the new front: it is strictly newer than
/// everything held (or the buffer was empty).
pub open spec fn becomes_front<T: Snapshot>(s: Seq<T>, item: T) -> bool {
    s.len() == 0 || item.spec_remote_time() > s[0].spec_remote_time()
}

/// Law: insertion keeps the buffer strictly ordered, newest first, and
/// within capacity; what is stored stays well-formed.
pub proof fn lemma_spec_insert_wf<T: Snapshot>(s: Seq<T>, item: T, cap: nat)
    requires
        sorted_desc(s),
        all_wf(s),
        s.len() <= cap,
        1 <= cap,
        item.wf(),
        -TIME_MAX <= item.spec_remote_time() <= TIME_MAX,
    ensures
        sorted_desc(spec_insert(s, item, cap)),
        all_wf(spec_insert(s, item, cap)),
        spec_insert(s, item, cap).len() <= cap,
        has_time(s, item.spec_remote_time()) ==> spec_insert(s, item, cap) == s,
        !has_time(s, item.spec_remote_time()) && s.len() < cap ==> spec_insert(s, item, cap).len()
            == s.len() + 1,
        becomes_front(s, item) ==> spec_insert(s, item, cap).len() > 0 && spec_insert(s, item, cap)[0]
            == item,
        becomes_front(s, item) && s.len() > 0 ==> spec_insert(s, item, cap).len() >= 2 ==> spec_insert(
            s,
            item,
            cap,
        )[1] == s[0],
{
    let t = item.spec_remote_time();
    if has_time(s, t) {
        if becomes_front(s, item) {
            let i = choose|i: int| 0 <= i < s.len() && #[trigger] s[i].spec_remote_time() == t;
            if i > 0 {
                assert(s[0].spec_remote_time() > s[i].spec_remote_time());
            }
            assert(false);
        }
    } else {
        let p = first_lt(s, t);
        lemma_first_lt_bounds(s, t);
        let s2 = s.insert(p, item);
        s.insert_ensures(p, item);
        assert forall|i: int, j: int| 0 <= i < j < s2.len() implies #[trigger] s2[i].spec_remote_time()
            > #[trigger] s2[j].spec_remote_time() by {
            if j < p {
                assert(s2[i] == s[i] && s2[j] == s[j]);
            } else if j == p {
                assert(s2[i] == s[i]);
                assert(s[i].spec_remote_time() >= t);
                if s[i].spec_remote_time() == t {
                    assert(has_time(s, t));
                }
            } else {
                assert(s2[j] == s[j - 1]);
                if i < p {
                    assert(s2[i] == s[i]);
                    assert(s[i].spec_remote_time() > s[j - 1].spec_remote_time());
                } else if i == p {
                    if j - 1 > p {
                        assert(s[j - 1].spec_remote_time() < s[p].spec_remote_time());
                    }
                    assert(s[j - 1].spec_remote_time() < t);
                } else {
                    assert(s2[i] == s[i - 1]);
                }
            }
        }
        assert(all_wf(s2)) by {
            assert forall|i: int| 0 <= i < s2.len() implies (#[trigger] s2[i]).wf() && -TIME_MAX
                <= s2[i].spec_remote_time() <= TIME_MAX by {
                if i < p {
                    assert(s2[i] == s[i]);
                } else if i == p {
                } else {
                    assert(s2[i] == s[i - 1]);
                }
            }
        }
        if s2.len() > cap {
            let r = s2.drop_last();
            assert(forall|i: int| 0 <= i < r.len() ==> r[i] == s2[i]);
            assert(sorted_desc(r));
            assert(all_wf(r));
        }
        if becomes_front(s, item) {
            assert(p == 0) by {
                lemma_first_lt_char(s, t, 0);
            }
            assert(s2[0] == item);
            if s.len() > 0 {
                assert(s2[1] == s[0]);
            }
        }
    }
}

/// `first_lt` stays within the sequence, everything before it is at least
/// `t`, and the snapshot at it (if any) is older than `t`.
pub proof fn lemma_first_lt_bounds<T: Snapshot>(s: Seq<T>, t: i64)
    ensures
        0 <= first_lt(s, t) <= s.len(),
        forall|j: int| 0 <= j < first_lt(s, t) ==> #[trigger] s[j].spec_remote_time() >= t,
        first_lt(s, t) < s.len() ==> s[first_lt(s, t)].spec_remote_time() < t,
    decreases s.len(),
{
    if s.len() == 0 {
    } else if s[0].spec_remote_time() < t {
    } else {
        let tail = s.subrange(1, s.len() as int);
        lemma_first_lt_bounds(tail, t);
        assert(forall|j: int| 0 <= j < tail.len() ==> tail[j] == s[j + 1]);
        let p = first_lt(s, t);
        assert(p == 1 + first_lt(tail, t));
        assert forall|j: int| 0 <= j < p implies #[trigger] s[j].spec_remote_time() >= t by {
            if j > 0 {
                assert(tail[j - 1].spec_remote_time() >= t);
            }
        }
        if p < s.len() {
            assert(tail[p - 1].spec_remote_time() < t);
        }
    }
}

/// Law: inserting a second snapshot with an already-held remote time leaves
/// the buffer exactly as if only the first had been inserted.
pub proof fn lemma_insert_duplicate_suppressed<T: Snapshot>(s: Seq<T>, x: T, y: T, cap: nat)
    requires
        sorted_desc(s),
        s.len() <= cap,
        1 <= cap,
        y.spec_remote_time() == x.spec_remote_time(),
    ensures
        spec_insert(spec_insert(s, x, cap), y, cap) == spec_insert(s, x, cap),
{
    let t = x.spec_remote_time();
    if has_time(s, t) {
        assert(spec_insert(s, x, cap) == s);
    } else {
        let p = first_lt(s, t);
        lemma_first_lt_bounds(s, t);
        let s2 = s.insert(p, x);
        s.insert_ensures(p, x);
        if s2.len() > cap {
            let r = s2.drop_last();
            if p < s.len() {
                // The new snapshot survived the eviction and blocks `y`.
                assert(r[p] == s2[p]);
                assert(r[p].spec_remote_time() == t);
                assert(has_time(r, t));
                assert(spec_insert(r, y, cap) == r);
            } else {
                // The new snapshot was itself the oldest and was evicted
                // at once, so the second insertion repeats the first.
                assert(r =~= s);
                assert(spec_insert(s, y, cap) == spec_insert(s, x, cap)) by {
                    assert(!has_time(s, y.spec_remote_time()));
                    assert(first_lt(s, y.spec_remote_time()) == p);
                    let u2 = s.insert(p, y);
                    s.insert_ensures(p, y);
                    assert(u2.len() > cap);
                    assert(u2.drop_last() =~= s);
                    assert(s2.drop_last() =~= s);
                }
            }
        } else {
            assert(s2[p] == x);
            assert(has_time(s2, t));
            assert(spec_insert(s2, y, cap) == s2);
        }
    }
}

/// Buffers snapshots as they come in from the network so that they may be
/// played back by a `Playback` in steady time, a configured number of
/// periods behind the live data on the remote, so that network jitter may
/// be accounted for.
pub struct Buffer<T> {
    /// Tuning, copied at construction and never changed.
    pub settings: Settings,
    /// The stored snapshots, strictly descending by remote time
    /// (front = newest, back = oldest).
    pub buf: Vec<T>,
    /// Capacity: `ceil(buf_duration / period)` snapshots.
    pub buf_len: usize,
    /// Remote time of the newest snapshot ever to reach the front
    /// (microseconds).
    pub last_remote_time: i64,
    /// Local monotonic clock reading when that snapshot arrived
    /// (microseconds).
    pub last_remote_instant: i64,
    /// Wrapping count of insertions that produced a new front; `Playback`
    /// uses it as an edge detector for fresh forward progress.
    pub last_remote_counter: u128,
    /// Moving average of the remote-time gap between the two newest
    /// snapshots: the measure of network jitter.
    pub remote_delta_time: ExponentialMovingAverage,
}

/// The capacity that `settings` prescribes: `ceil(buf_duration / period)`.
pub open spec fn spec_buf_len(settings: Settings) -> int {
    (settings.buf_duration + settings.period - 1) / (settings.period as int)
}

impl<T: Snapshot> Buffer<T> {
    /// Well-formedness: valid settings, the derived capacity, a strictly
    /// ordered sequence of well-formed snapshots within capacity, bounded
    /// clock bookkeeping, and a jitter average over the configured window
    /// whose statistics stay within the gap bounds.
    pub open spec fn wf(self) -> bool {
        &&& self.settings.valid()
        &&& self.buf_len == spec_buf_len(self.settings)
        &&& 1 <= self.buf_len
        &&& self.buf@.len() <= self.buf_len
        &&& sorted_desc(self.buf@)
        &&& all_wf(self.buf@)
        &&& -TIME_MAX <= self.last_remote_time <= TIME_MAX
        &&& 0 <= self.last_remote_instant <= TIME_MAX
        &&& self.remote_delta_time.wf()
        &&& self.remote_delta_time.alpha_num == 2 * self.settings.period
        &&& self.remote_delta_time.alpha_den == self.settings.dynamic_playback_jitter_duration
            + self.settings.period
        &&& match self.remote_delta_time.value {
            None => true,
            Some(v) => 0 < v <= 2 * (TIME_MAX as int) && self.remote_delta_time.var <= (2 * (
            TIME_MAX as int)) * (2 * (TIME_MAX as int)),
        }
        &&& 0 <= self.remote_delta_time.std_dev <= 2 * (TIME_MAX as int)
    }

    /// A fresh, empty buffer for the given tuning.
    pub fn new(settings: &Settings) -> (r: Buffer<T>)
        requires
            settings.valid(),
        ensures
            r.wf(),
            r.settings == *settings,
            r.buf@.len() == 0,
            r.last_remote_time == 0,
            r.last_remote_instant == 0,
            r.last_remote_counter == 0,
            r.remote_delta_time.value is None,
    {
        let buf_len: usize = ((settings.buf_duration + settings.period - 1)
            / settings.period) as usize;
        proof {
            crate::fixed::lemma_tdiv_bounds(
                settings.buf_duration + settings.period - 1,
                settings.period as int,
            );
            vstd::arithmetic::div_mod::lemma_div_non_zero(
                settings.buf_duration + settings.period - 1,
                settings.period as int,
            );
        }
        Buffer {
            settings: *settings,
            buf: Vec::with_capacity(buf_len),
            buf_len,
            last_remote_time: 0,
            last_remote_instant: 0,
            last_remote_counter: 0,
            remote_delta_time: ExponentialMovingAverage::new(
                settings.dynamic_playback_jitter_duration,
                settings.period,
            ),
        }
    }

    /// The newest snapshot held, if any.
    pub fn latest(&self) -> (r: Option<&T>)
        ensures
            match r {
                Some(x) => self.buf@.len() > 0 && *x == self.buf@[0],
                None => self.buf@.len() == 0,
            },
    {
        if self.buf.len() == 0 {
            None
        } else {
            Some(&self.buf[0])
        }
    }

    /// Insert a new snapshot from the network, at `local_now` on the local
    /// monotonic clock.  Duplicates (by remote time) are dropped, ordering
    /// is kept, the oldest snapshot is evicted past capacity, and the
    /// `last_remote_*` bookkeeping advances exactly when the snapshot
    /// becomes the new front.
    pub fn insert_snapshot(&mut self, item: T, local_now: i64)
        requires
            old(self).wf(),
            item.wf(),
            -TIME_MAX <= item.spec_remote_time() <= TIME_MAX,
            old(self).last_remote_instant <= local_now <= TIME_MAX,
        ensures
            final(self).wf(),
            final(self).settings == old(self).settings,
            final(self).buf_len == old(self).buf_len,
            final(self).buf@ == spec_insert(old(self).buf@, item, old(self).buf_len as nat),
            becomes_front(old(self).buf@, item) ==> {
                &&& final(self).last_remote_counter == old(self).last_remote_counter.wrapping_add(
                    1,
                )
                &&& final(self).last_remote_time == item.spec_remote_time()
                &&& final(self).last_remote_instant == local_now
                &&& final(self).buf@.len() >= 2 ==> final(self).remote_delta_time
                    == ExponentialMovingAverage::spec_add(
                    old(self).remote_delta_time,
                    (item.spec_remote_time() - old(self).buf@[0].spec_remote_time()) as i64,
                )
                &&& final(self).buf@.len() < 2 ==> final(self).remote_delta_time == old(
                    self,
                ).remote_delta_time
            },
            !becomes_front(old(self).buf@, item) ==> {
                &&& final(self).last_remote_counter == old(self).last_remote_counter
                &&& final(self).last_remote_time == old(self).last_remote_time
                &&& final(self).last_remote_instant == old(self).last_remote_instant
                &&& final(self).remote_delta_time == old(self).remote_delta_time
            },
    {
        let ghost pre = *self;
        let t = item.remote_time();
        let new_front: bool = self.buf.len() == 0 || t > self.buf[0].remote_time();
        proof {
            lemma_spec_insert_wf(pre.buf@, item, pre.buf_len as nat);
            if new_front && pre.buf@.len() > 0 && has_time(pre.buf@, t) {
                let i = choose|i: int|
                    0 <= i < pre.buf@.len() && #[trigger] pre.buf@[i].spec_remote_time() == t;
                if i > 0 {
                    assert(pre.buf@[0].spec_remote_time() > pre.buf@[i].spec_remote_time());
                }
                assert(false);
            }
        }
        self.insert(item);
        if new_front {
            if self.buf.len() >= 2 {
                let second = self.buf[1].remote_time();
                proof {
                    assert(self.buf@[1] == pre.buf@[0]);
                    assert(second < t);
                    assert(t - second <= 2 * (TIME_MAX as int));
                }
                let gap = t - second;
                proof {
                    assert(0 < gap <= 2 * (TIME_MAX as int));
                }
                self.remote_delta_time.add(gap);
                proof {
                    let pre_ema = pre.remote_delta_time;
                    let post_ema = self.remote_delta_time;
                    match pre_ema.value {
                        Some(x) => {
                            assert((gap - x) * (gap - x) <= (2 * (TIME_MAX as int)) * (2 * (
                            TIME_MAX as int))) by (nonlinear_arith)
                                requires
                                    -2 * (TIME_MAX as int) < gap - x < 2 * (TIME_MAX as int),
                            ;
                            assert(post_ema.var <= (2 * (TIME_MAX as int)) * (2 * (
                            TIME_MAX as int)));
                        },
                        None => {},
                    }
                    assert(post_ema.std_dev <= 2 * (TIME_MAX as int)) by (nonlinear_arith)
                        requires
                            crate::fixed::is_sqrt_floor(post_ema.std_dev as int, post_ema.var as int),
                            post_ema.var <= (2 * (TIME_MAX as int)) * (2 * (TIME_MAX as int)),
                            TIME_MAX > 0,
                    ;
                }
            }
            self.last_remote_instant = local_now;
            self.last_remote_time = t;
            self.last_remote_counter = self.last_remote_counter.wrapping_add(1);
        }
    }

    /// The playback offset to use right now: the configured offset plus,
    /// when `dynamic_playback_time` is set, the measured jitter (one
    /// standard deviation of the inter-arrival gaps).
    pub fn dynamic_playback_offset(&self) -> (r: i64)
        requires
            self.wf(),
        ensures
            r == spec_dynamic_offset(*self),
            0 <= r <= 1_000_000_000 + 2 * (TIME_MAX as int),
    {
        let playback_offset = self.settings.playback_offset();
        if self.settings.dynamic_playback_time {
            playback_offset + self.remote_delta_time.std_dev
        } else {
            playback_offset
        }
    }

    /// Insert a snapshot into the buffer, keeping the order, skipping
    /// duplicates and evicting the oldest snapshot past capacity.
    fn insert(&mut self, item: T)
        requires
            old(self).wf(),
            item.wf(),
            -TIME_MAX <= item.spec_remote_time() <= TIME_MAX,
        ensures
            final(self).buf@ == spec_insert(old(self).buf@, item, old(self).buf_len as nat),
            final(self).settings == old(self).settings,
            final(self).buf_len == old(self).buf_len,
            final(self).last_remote_time == old(self).last_remote_time,
            final(self).last_remote_instant == old(self).last_remote_instant,
            final(self).last_remote_counter == old(self).last_remote_counter,
            final(self).remote_delta_time == old(self).remote_delta_time,
            sorted_desc(final(self).buf@),
            all_wf(final(self).buf@),
            final(self).buf@.len() <= final(self).buf_len,
    {
        let t = item.remote_time();
        proof {
            lemma_spec_insert_wf(old(self).buf@, item, self.buf_len as nat);
        }
        let n = self.buf.len();
        let mut i: usize = 0;
        while i < n && self.buf[i].remote_time() != t
            invariant
                old(self).wf(),
                *self == *old(self),
                n == self.buf@.len(),
                t == item.spec_remote_time(),
                0 <= i <= n,
                forall|j: int| 0 <= j < i ==> #[trigger] self.buf@[j].spec_remote_time() != t,
            decreases n - i,
        {
            i += 1;
        }
        if i < n {
            proof {
                assert(self.buf@[i as int].spec_remote_time() == t);
                assert(has_time(old(self).buf@, t));
            }
            return ;
        }
        proof {
            if has_time(old(self).buf@, t) {
                let k = choose|k: int|
                    0 <= k < old(self).buf@.len() && #[trigger] old(
                        self,
                    ).buf@[k].spec_remote_time() == t;
                assert(false);
            }
        }
        let mut p: usize = 0;
        while p < n && self.buf[p].remote_time() >= t
            invariant
                old(self).wf(),
                *self == *old(self),
                n == self.buf@.len(),
                t == item.spec_remote_time(),
                0 <= p <= n,
                forall|j: int| 0 <= j < p ==> #[trigger] self.buf@[j].spec_remote_time() >= t,
            decreases n - p,
        {
            p += 1;
        }
        proof {
            lemma_first_lt_char(old(self).buf@, t, p as int);
        }
        self.buf.insert(p, item);
        if self.buf.len() > self.buf_len {
            self.buf.pop();
        }
        proof {
            assert(self.buf@ =~= spec_insert(old(self).buf@, item, old(self).buf_len as nat));
            lemma_spec_insert_wf(old(self).buf@, item, old(self).buf_len as nat);
        }
    }
}

/// The playback offset a buffer prescribes: the configured offset widened
/// by the measured jitter when dynamic playback is enabled.
pub open spec fn spec_dynamic_offset<T: Snapshot>(b: Buffer<T>) -> int {
    b.settings.spec_scaled_periods(b.settings.playback_offset_periods) + if b.settings.dynamic_playback_time {
        b.remote_delta_time.std_dev as int
    } else {
        0
    }
}

/// The playback is extrapolating at time `pt`: either every held snapshot
/// is at least as new as `pt` (the playback is behind or the buffer is
/// empty), or the newest held snapshot is older than `pt` (the playback
/// has overrun the buffer).
pub open spec fn spec_extrapolating<T: Snapshot>(s: Seq<T>, pt: i64) -> bool {
    !(0 < first_lt(s, pt) < s.len())
}

/// The bracketing pair `(from, to)` a playback at time `pt` interpolates
/// between: the first snapshot older than `pt` and the one just newer.
/// When `pt` has overrun the newest snapshot the two newest form the pair
/// (extrapolation); with fewer than two usable snapshots there is none.
pub open spec fn spec_pair<T: Snapshot>(s: Seq<T>, pt: i64) -> Option<(T, T)> {
    let k = first_lt(s, pt);
    if 0 < k < s.len() {
        Some((s[k], s[k - 1]))
    } else if k == 0 && s.len() >= 2 {
        Some((s[1], s[0]))
    } else {
        None
    }
}

/// The interpolation parameter for evaluation time `pt` between `from` and
/// `to`: how far `pt` lies along `[from, to]`, scaled by `SCALE` and
/// clamped to `[0, 2.5]`.
pub open spec fn spec_interp_t<T: Snapshot>(from: T, to: T, pt: i64) -> i64 {
    crate::fixed::clamp_int(
        crate::fixed::tdiv(
            (pt - from.spec_remote_time()) * (SCALE as int),
            to.spec_remote_time() - from.spec_remote_time(),
        ),
        0,
        2_500_000,
    ) as i64
}

/// What a `step` returns: the interpolation between the pair selected at
/// `ptsel`, evaluated at `pteval` (the playback time after any clamp);
/// without a pair, the newest snapshot, or nothing if the buffer is empty.
pub open spec fn spec_step_result<T: Snapshot>(s: Seq<T>, ptsel: i64, pteval: i64) -> Option<T> {
    match spec_pair(s, ptsel) {
        Some(pair) => Some(
            T::spec_interpolate(spec_interp_t(pair.0, pair.1, pteval), &pair.0, &pair.1),
        ),
        None => if s.len() > 0 {
            Some(s[0])
        } else {
            None
        },
    }
}

/// The playback time a buffer is steering toward at local time `now`: the
/// remote clock extrapolated since the newest packet arrived, minus the
/// (possibly jitter-widened) playback offset.
pub open spec fn spec_target<T: Snapshot>(buf: Buffer<T>, now: i64) -> int {
    buf.last_remote_time + (now - buf.last_remote_instant) - spec_dynamic_offset(buf)
}

/// The timescale chosen for a smoothed catch-up level `c`: slow below the
/// slow threshold, fast above the fast threshold, 1.0 inside the dead band.
pub open spec fn spec_timescale(settings: Settings, c: i64) -> int {
    if c < settings.spec_scaled_periods(settings.playback_slow_periods) {
        settings.playback_slow_speed as int
    } else if c > settings.spec_scaled_periods(settings.playback_fast_periods) {
        settings.playback_fast_speed as int
    } else {
        SCALE as int
    }
}

/// The sample fed to the scaling diagnostic: `SCALE` (1.0) when the
/// timescale leaves the dead band, 0 otherwise.
pub open spec fn spec_scaling_flag(settings: Settings, c: i64) -> i64 {
    if c < settings.spec_scaled_periods(settings.playback_slow_periods) || c
        > settings.spec_scaled_periods(settings.playback_fast_periods) {
        SCALE
    } else {
        0
    }
}

/// Plays back buffered snapshots in steady time, hastening and slowing the
/// local timescale in order to stay in tune with the remote timescale,
/// while accounting for network jitter.
pub struct Playback<T> {
    /// Tuning, copied from the buffer this playback was created for.
    pub settings: Settings,
    /// The snapshot type being played back.
    pub marker: core::marker::PhantomData<T>,
    /// The buffer counter value this playback has already reacted to.
    pub remote_counter: u128,
    /// The remote-time instant currently being rendered (microseconds);
    /// aims at the remote time minus the playback offset.
    pub playback_time: i64,
    /// Rate at which playback time passes per unit of local time
    /// (`SCALE`-scaled; 1.0 when in tune).
    pub timescale: i64,
    /// Moving average of `target - playback_time`: the drift between the
    /// local and the remote timescale that the speed control acts on.
    pub catchup_time: ExponentialMovingAverage,
    /// Diagnostic: how much of the recent past relied on extrapolation
    /// (0.0 none, 1.0 all, `SCALE`-scaled).
    pub db_extrapolating_ema: ExponentialMovingAverage,
    /// Diagnostic: how much of the recent past relied on clamping.
    pub db_clamping_ema: ExponentialMovingAverage,
    /// Diagnostic: how much of the recent past relied on time scaling.
    pub db_scaling_ema: ExponentialMovingAverage,
}

impl<T: Snapshot> Playback<T> {
    /// Well-formedness: valid settings, averages over the windows the
    /// settings prescribe, and a timescale that is one of the three speeds.
    pub open spec fn wf(self) -> bool {
        &&& self.settings.valid()
        &&& self.catchup_time.wf()
        &&& self.catchup_time.alpha_num == 2 * self.settings.period
        &&& self.catchup_time.alpha_den == 1_000_000 + self.settings.period
        &&& self.db_extrapolating_ema.wf()
        &&& self.db_extrapolating_ema.alpha_num == 2 * self.settings.period
        &&& self.db_extrapolating_ema.alpha_den == 10_000_000 + self.settings.period
        &&& self.db_clamping_ema.wf()
        &&& self.db_clamping_ema.alpha_num == 2 * self.settings.period
        &&& self.db_clamping_ema.alpha_den == 10_000_000 + self.settings.period
        &&& self.db_scaling_ema.wf()
        &&& self.db_scaling_ema.alpha_num == 2 * self.settings.period
        &&& self.db_scaling_ema.alpha_den == 10_000_000 + self.settings.period
        &&& (self.timescale == self.settings.playback_slow_speed || self.timescale == SCALE
            || self.timescale == self.settings.playback_fast_speed)
    }

    /// The playback time after advancing by `dt` at the current timescale.
    pub open spec fn spec_advanced(self, dt: i64) -> int {
        self.playback_time + crate::fixed::tdiv(dt * self.timescale, SCALE as int)
    }

    /// A playback synchronised with `buf`: it adopts the buffer's counter
    /// so that the first fresh packet is detected as an edge, and starts
    /// at playback time zero with a timescale of 1.0 and empty statistics.
    pub fn new(buf: &Buffer<T>) -> (r: Playback<T>)
        requires
            buf.wf(),
        ensures
            r.wf(),
            r.settings == buf.settings,
            r.remote_counter == buf.last_remote_counter,
            r.playback_time == 0,
            r.timescale == SCALE,
            r.catchup_time.value is None,
            r.db_extrapolating_ema.value is None,
            r.db_clamping_ema.value is None,
            r.db_scaling_ema.value is None,
    {
        let settings = buf.settings;
        Playback {
            settings,
            marker: core::marker::PhantomData,
            remote_counter: buf.last_remote_counter,
            playback_time: 0,
            timescale: SCALE,
            catchup_time: ExponentialMovingAverage::new(1_000_000, settings.period),
            db_extrapolating_ema: ExponentialMovingAverage::new(10_000_000, settings.period),
            db_clamping_ema: ExponentialMovingAverage::new(10_000_000, settings.period),
            db_scaling_ema: ExponentialMovingAverage::new(10_000_000, settings.period),
        }
    }

    /// The timescale to run at for a smoothed catch-up level: slow when
    /// ahead of target beyond the slow threshold, fast when behind beyond
    /// the fast threshold, 1.0 inside the dead band.  Feeds the scaling
    /// diagnostic with whether a correction is being applied.
    pub fn timescale(&mut self, catchup_time: i64) -> (r: i64)
        requires
            old(self).wf(),
        ensures
            final(self).wf(),
            r == spec_timescale(old(self).settings, catchup_time),
            final(self).db_scaling_ema == ExponentialMovingAverage::spec_add(
                old(self).db_scaling_ema,
                spec_scaling_flag(old(self).settings, catchup_time),
            ),
            final(self).settings == old(self).settings,
            final(self).remote_counter == old(self).remote_counter,
            final(self).playback_time == old(self).playback_time,
            final(self).timescale == old(self).timescale,
            final(self).catchup_time == old(self).catchup_time,
            final(self).db_extrapolating_ema == old(self).db_extrapolating_ema,
            final(self).db_clamping_ema == old(self).db_clamping_ema,
    {
        if catchup_time < self.settings.slow_threshold() {
            self.db_scaling_ema.add(SCALE);
            return self.settings.playback_slow_speed;
        }
        if catchup_time > self.settings.fast_threshold() {
            self.db_scaling_ema.add(SCALE);
            return self.settings.playback_fast_speed;
        }
        self.db_scaling_ema.add(0);
        1 * SCALE
    }

    /// Draw a new interpolated snapshot by passing in how much local time
    /// has passed since the last step, and the local monotonic clock
    /// reading (both microseconds).
    ///
    /// The playback time advances at the current timescale.  When a fresh
    /// packet has reached the buffer since the last step (the counter
    /// moved), the playback time is clamped into the band about the target
    /// time, the catch-up average is fed, and the timescale is re-chosen.
    /// The result interpolates between the snapshots bracketing the
    /// playback time; without a bracketing pair the newest snapshot is
    /// returned, and an empty buffer yields nothing.
    pub fn step(&mut self, delta_time: i64, buf: &Buffer<T>, local_now: i64) -> (r: Option<T>)
        requires
            old(self).wf(),
            buf.wf(),
            old(self).settings == buf.settings,
            0 <= delta_time <= TIME_MAX,
            -0x1000_0000_0000 <= old(self).playback_time <= 0x1000_0000_0000,
            buf.last_remote_instant <= local_now <= TIME_MAX,
        ensures
            final(self).wf(),
            final(self).settings == old(self).settings,
            final(self).remote_counter == buf.last_remote_counter,
            -0x1400_0000_0000 <= final(self).playback_time <= 0x1400_0000_0000,
            ({
                let pt1 = old(self).spec_advanced(delta_time);
                let target = spec_target(*buf, local_now);
                let clampv = buf.settings.spec_scaled_periods(buf.settings.playback_clamp_periods);
                let extr = spec_extrapolating(buf.buf@, pt1 as i64);
                if old(self).remote_counter != buf.last_remote_counter {
                    let pt2 = crate::fixed::clamp_int(pt1, target - clampv, target + clampv);
                    let catch = ExponentialMovingAverage::spec_add(
                        old(self).catchup_time,
                        (target - pt2) as i64,
                    );
                    let cval = catch.value.unwrap();
                    &&& final(self).playback_time == pt2
                    &&& target - clampv <= final(self).playback_time <= target + clampv
                    &&& final(self).db_clamping_ema == ExponentialMovingAverage::spec_add(
                        old(self).db_clamping_ema,
                        if pt1 != pt2 {
                            SCALE
                        } else {
                            0
                        },
                    )
                    &&& final(self).db_extrapolating_ema == ExponentialMovingAverage::spec_add(
                        old(self).db_extrapolating_ema,
                        if extr {
                            SCALE
                        } else {
                            0
                        },
                    )
                    &&& final(self).catchup_time == catch
                    &&& final(self).timescale == spec_timescale(old(self).settings, cval)
                    &&& final(self).db_scaling_ema == ExponentialMovingAverage::spec_add(
                        old(self).db_scaling_ema,
                        spec_scaling_flag(old(self).settings, cval),
                    )
                } else {
                    &&& final(self).playback_time == pt1
                    &&& final(self).timescale == old(self).timescale
                    &&& final(self).catchup_time == old(self).catchup_time
                    &&& final(self).db_clamping_ema == old(self).db_clamping_ema
                    &&& final(self).db_extrapolating_ema == old(self).db_extrapolating_ema
                    &&& final(self).db_scaling_ema == old(self).db_scaling_ema
                }
            }),
            r == spec_step_result(
                buf.buf@,
                (old(self).spec_advanced(delta_time)) as i64,
                final(self).playback_time,
            ),
            (r is Some) <==> buf.buf@.len() > 0,
    {
        let ghost pre = *self;
        let playback_offset = buf.dynamic_playback_offset();
        let playback_clamp = self.settings.playback_clamp();

        // 1. Step playback time at the current timescale.
        proof {
            assert(0 <= delta_time * pre.timescale <= 2 * (SCALE as int) * (delta_time as int))
                by (nonlinear_arith)
                requires
                    0 <= delta_time,
                    0 < pre.timescale <= 2 * (SCALE as int),
            ;
            crate::fixed::lemma_tdiv_le(
                delta_time * pre.timescale,
                2 * (SCALE as int) * (delta_time as int),
                SCALE as int,
            );
            assert((2 * (SCALE as int) * (delta_time as int)) / (SCALE as int) == 2 * (
            delta_time as int)) by {
                crate::fixed::lemma_tdiv_exact(2 * (delta_time as int), SCALE as int);
            }
        }
        let advance = crate::fixed::mul_div(delta_time, self.timescale, SCALE);
        self.playback_time = self.playback_time + advance;
        let pt_sel = self.playback_time;
        proof {
            assert(pt_sel == pre.spec_advanced(delta_time));
        }

        // 2. Find the snapshots between which to interpolate (for later):
        // the first one older than the playback time.
        let n = buf.buf.len();
        let mut k: usize = 0;
        while k < n && buf.buf[k].remote_time() >= pt_sel
            invariant
                buf.wf(),
                n == buf.buf@.len(),
                0 <= k <= n,
                forall|j: int| 0 <= j < k ==> #[trigger] buf.buf@[j].spec_remote_time() >= pt_sel,
            decreases n - k,
        {
            k += 1;
        }
        proof {
            lemma_first_lt_char(buf.buf@, pt_sel, k as int);
        }
        let extrapolating: bool = k == 0 || k == n;

        // 3. A new network packet has arrived into the buffer.
        if self.remote_counter != buf.last_remote_counter {
            self.remote_counter = buf.last_remote_counter;

            // Clamp the playback time about the target time, accounting
            // for the local time that has passed since the packet arrived.
            let remote_time = buf.last_remote_time + (local_now - buf.last_remote_instant);
            let target = remote_time - playback_offset;
            let min = target - playback_clamp;
            let max = target + playback_clamp;
            if self.playback_time < min {
                self.playback_time = min;
                self.db_clamping_ema.add(SCALE);
            } else if self.playback_time > max {
                self.playback_time = max;
                self.db_clamping_ema.add(SCALE);
            } else {
                self.db_clamping_ema.add(0);
            }
            self.db_extrapolating_ema.add(if extrapolating { SCALE } else { 0 });

            // 4. Add catch-up time to the moving average.
            let catchup_time = target - self.playback_time;
            self.catchup_time.add(catchup_time);

            // 5. Compute the timescale to best track the remote's.
            let smoothed = match self.catchup_time.value {
                Some(v) => v,
                None => 0,
            };
            let ts = self.timescale(smoothed);
            self.timescale = ts;
        }

        // 6. Interpolate.
        if k > 0 && k < n {
            let from = &buf.buf[k];
            let to = &buf.buf[k - 1];
            proof {
                assert(buf.buf@[k - 1].spec_remote_time() > buf.buf@[k as int].spec_remote_time());
            }
            Some(interp_between(self.playback_time, from, to))
        } else if k == 0 && n >= 2 {
            let from = &buf.buf[1];
            let to = &buf.buf[0];
            proof {
                assert(buf.buf@[0].spec_remote_time() > buf.buf@[1].spec_remote_time());
            }
            Some(interp_between(self.playback_time, from, to))
        } else {
            match buf.latest() {
                Some(x) => Some(*x),
                None => None,
            }
        }
    }
}

/// Interpolate between a bracketing pair at playback time `pt`: the
/// parameter is how far `pt` lies along the pair's remote-time interval,
/// clamped to `[0, 2.5]`.
fn interp_between<T: Snapshot>(pt: i64, from: &T, to: &T) -> (r: T)
    requires
        from.wf(),
        to.wf(),
        -TIME_MAX <= from.spec_remote_time() <= TIME_MAX,
        -TIME_MAX <= to.spec_remote_time() <= TIME_MAX,
        from.spec_remote_time() < to.spec_remote_time(),
        -0x1400_0000_0000 <= pt <= 0x1400_0000_0000,
    ensures
        r == T::spec_interpolate(spec_interp_t(*from, *to, pt), from, to),
{
    let gap: i64 = pt - from.remote_time();
    proof {
        assert(-0x2000_0000_0000_0000_0000i128 <= (gap as i128) * (SCALE as i128)
            <= 0x2000_0000_0000_0000_0000i128) by (nonlinear_arith)
            requires
                -0x1500_0000_0000i128 <= gap as i128 <= 0x1500_0000_0000i128,
        ;
    }
    let num: i128 = (gap as i128) * (SCALE as i128);
    let den: i128 = (to.remote_time() - from.remote_time()) as i128;
    let traw: i128 = num / den;
    let t: i64 = if traw < 0 {
        0
    } else if traw > 2_500_000 {
        2_500_000
    } else {
        traw as i64
    };
    proof {
        assert(t == spec_interp_t(*from, *to, pt));
    }
    T::interpolate(t, from, to)
}

} // verus!
