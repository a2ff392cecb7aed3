//! A sliding-window rate tracker for a fixed set of monotone counters.
//!
//! A poller periodically fetches absolute counter values (one
//! [`FirehoseCount`] per poll) and feeds them to a [`MetricsTracker`], which
//! keeps the difference between consecutive snapshots in a trailing
//! twenty-four-hour window and reports the arithmetic mean of those
//! differences per metric.  A decrease of the leading "total" counter is
//! taken as a reset of the upstream source: the poll still replaces the
//! stored baseline, but contributes no window entry.

use vstd::prelude::*;
use vstd::pervasive::VecAdditionalExecFns;

verus! {

/// Number of tracked metrics; index 0 is the aggregate "total" counter.
pub const METRIC_COUNT: usize = 40;

/// Length of the retention window, in seconds.
pub const WINDOW_SECONDS: u64 = 86400;

/// The difference `a - b` as the counters themselves compute it: exact when
/// `a >= b`, wrapped modulo 2^64 otherwise (an individual counter may go
/// backwards even when the aggregate total does not; such a poll still
/// contributes an entry, with the wrapped value).
pub open spec fn wrap_diff(a: u64, b: u64) -> u64 {
    if a >= b {
        (a - b) as u64
    } else {
        (a - b + 0x1_0000_0000_0000_0000) as u64
    }
}

/// Elementwise [`wrap_diff`] of two equally long value sequences.
pub open spec fn spec_delta(cur: Seq<u64>, last: Seq<u64>) -> Seq<u64> {
    Seq::new(cur.len(), |m: int| wrap_diff(cur[m], last[m]))
}

/// One absolute counter snapshot: a value for each tracked metric.
pub struct FirehoseCount {
    values: Vec<u64>,
}

impl View for FirehoseCount {
    type V = Seq<u64>;

    closed spec fn view(&self) -> Seq<u64> {
        self.values@
    }
}

impl FirehoseCount {
    /// A snapshot is well formed when it carries exactly one value per metric.
    pub open spec fn wf(&self) -> bool {
        self@.len() == METRIC_COUNT
    }

    /// The snapshot with every metric at zero.
    pub fn zero() -> (r: FirehoseCount)
        ensures
            r.wf(),
            forall|m: int| 0 <= m < METRIC_COUNT ==> r@[m] == 0u64,
    {
        let mut values: Vec<u64> = Vec::new();
        let mut i: usize = 0;
        while i < METRIC_COUNT
            invariant
                i <= METRIC_COUNT,
                values@.len() == i,
                forall|m: int| 0 <= m < i ==> values@[m] == 0u64,
            decreases METRIC_COUNT - i,
        {
            values.push(0);
            i = i + 1;
        }
        FirehoseCount { values }
    }

    /// Replaces the value of one metric.
    pub fn set_value(&mut self, index: usize, value: u64)
        requires
            old(self).wf(),
            index < METRIC_COUNT,
        ensures
            final(self).wf(),
            final(self)@ == old(self)@.update(index as int, value),
    {
        self.values.set(index, value);
    }

    /// The value of one metric.
    pub fn value(&self, index: usize) -> (r: u64)
        requires
            self.wf(),
            index < METRIC_COUNT,
        ensures
            r == self@[index as int],
    {
        self.values[index]
    }

    /// The aggregate "total" metric, the reset detector.
    pub fn total(&self) -> (r: u64)
        requires
            self.wf(),
        ensures
            r == self@[0],
    {
        self.values[0]
    }

    /// The per-metric difference `self - last`, wrapped where an individual
    /// counter went backwards.
    pub fn delta_from(&self, last: &FirehoseCount) -> (d: FirehoseCount)
        requires
            self.wf(),
            last.wf(),
        ensures
            d.wf(),
            d@ == spec_delta(self@, last@),
    {
        let mut values: Vec<u64> = Vec::new();
        let mut i: usize = 0;
        while i < METRIC_COUNT
            invariant
                self.wf(),
                last.wf(),
                i <= METRIC_COUNT,
                values@.len() == i,
                forall|m: int| 0 <= m < i ==> values@[m] == wrap_diff(self@[m], last@[m]),
            decreases METRIC_COUNT - i,
        {
            let cur = self.values[i];
            let prev = last.values[i];
            let d: u64 = if cur >= prev {
                cur - prev
            } else {
                cur + (u64::MAX - prev) + 1
            };
            values.push(d);
            i = i + 1;
        }
        let result = FirehoseCount { values };
        proof {
            assert(result@ =~= spec_delta(self@, last@));
        }
        result
    }
}

/// One retained poll: its arrival time (seconds) and the delta it produced.
pub struct WindowEntry {
    pub at: u64,
    pub delta: FirehoseCount,
}

impl View for WindowEntry {
    type V = (u64, Seq<u64>);

    closed spec fn view(&self) -> (u64, Seq<u64>) {
        (self.at, self.delta@)
    }
}

/// Drops the stale prefix of an oldest-first window: every leading entry
/// whose timestamp lies more than [`WINDOW_SECONDS`] before `now`.
pub open spec fn spec_evict(w: Seq<(u64, Seq<u64>)>, now: u64) -> Seq<(u64, Seq<u64>)>
    decreases w.len(),
{
    if w.len() == 0 {
        w
    } else if now - w[0].0 > WINDOW_SECONDS {
        spec_evict(w.subrange(1, w.len() as int), now)
    } else {
        w
    }
}

/// The state transition of one poll: the new snapshot always becomes the
/// baseline; a window entry is pushed only when the total did not decrease;
/// stale entries are then evicted relative to `now`.
pub open spec fn spec_step(
    last: Seq<u64>,
    w: Seq<(u64, Seq<u64>)>,
    now: u64,
    snap: Seq<u64>,
) -> (Seq<u64>, Seq<(u64, Seq<u64>)>) {
    let pushed = if snap[0] >= last[0] {
        w.push((now, spec_delta(snap, last)))
    } else {
        w
    };
    (snap, spec_evict(pushed, now))
}

/// Sum of one metric's deltas over a window.
pub open spec fn spec_metric_sum(w: Seq<(u64, Seq<u64>)>, m: int) -> int
    decreases w.len(),
{
    if w.len() == 0 {
        0
    } else {
        spec_metric_sum(w.drop_last(), m) + w.last().1[m]
    }
}

/// Wall-clock span between the oldest and newest retained entries; zero for
/// an empty or single-entry window.
pub open spec fn spec_duration(w: Seq<(u64, Seq<u64>)>) -> int {
    if w.len() == 0 {
        0
    } else {
        w.last().0 - w[0].0
    }
}

/// Mean per-poll deltas over the retained window, reported exactly: for each
/// metric the sum of its deltas, together with the shared number of samples.
/// The mean of metric `m` is the rational `sum(m) / samples`; with no samples
/// there is no mean, and callers must treat the pair as "no data yet".
pub struct FirehoseRate {
    sums: Vec<u128>,
    samples: usize,
}

impl FirehoseRate {
    /// Well formed: one sum per metric.
    pub open spec fn wf(&self) -> bool {
        self.spec_sums().len() == METRIC_COUNT
    }

    /// Spec view of the per-metric sums.
    pub closed spec fn spec_sums(&self) -> Seq<u128> {
        self.sums@
    }

    /// Spec view of the sample count.
    pub closed spec fn spec_samples(&self) -> int {
        self.samples as int
    }

    /// The summed deltas of one metric.
    pub fn sum(&self, index: usize) -> (r: u128)
        requires
            self.wf(),
            index < METRIC_COUNT,
        ensures
            r == self.spec_sums()[index as int],
    {
        self.sums[index]
    }

    /// How many polls contributed to the sums.
    pub fn samples(&self) -> (r: usize)
        ensures
            r == self.spec_samples(),
    {
        self.samples
    }
}

/// The tracker: the last snapshot seen, and the oldest-first window of
/// retained deltas.
pub struct MetricsTracker {
    last_count: FirehoseCount,
    day_changes: Vec<WindowEntry>,
}

impl MetricsTracker {
    /// The stored baseline snapshot.
    pub closed spec fn last(&self) -> Seq<u64> {
        self.last_count@
    }

    /// The retained window, oldest first.
    pub closed spec fn window(&self) -> Seq<(u64, Seq<u64>)> {
        self.day_changes@.map_values(|e: WindowEntry| e@)
    }

    /// Invariant: full-width snapshots and deltas, timestamps in
    /// non-decreasing order, and a window span of at most a day.
    pub open spec fn wf(&self) -> bool {
        &&& self.last().len() == METRIC_COUNT
        &&& forall|i: int|
            0 <= i < self.window().len() ==> (#[trigger] self.window()[i]).1.len() == METRIC_COUNT
        &&& forall|i: int, j: int|
            0 <= i <= j < self.window().len() ==> self.window()[i].0 <= self.window()[j].0
        &&& self.window().len() > 0 ==> self.window().last().0 - self.window()[0].0
            <= WINDOW_SECONDS
    }

    /// Builds a tracker from the first successful snapshot: that snapshot is
    /// the baseline, and the window is empty.
    pub fn init(first: FirehoseCount) -> (r: MetricsTracker)
        requires
            first.wf(),
        ensures
            r.wf(),
            r.last() == first@,
            r.window().len() == 0,
    {
        let r = MetricsTracker { last_count: first, day_changes: Vec::new() };
        proof {
            assert(r.window() =~= Seq::<(u64, Seq<u64>)>::empty());
        }
        r
    }

    /// Ingests one poll, as [`spec_step`] describes: push the delta unless the
    /// total decreased, evict entries older than a day, replace the baseline.
    ///
    /// `now` may not lie before any retained entry (polls arrive in order).
    pub fn accumulate(&mut self, now: u64, data: FirehoseCount)
        requires
            old(self).wf(),
            data.wf(),
            old(self).window().len() > 0 ==> old(self).window().last().0 <= now,
        ensures
            final(self).wf(),
            (final(self).last(), final(self).window()) == spec_step(
                old(self).last(),
                old(self).window(),
                now,
                data@,
            ),
    {
        let ghost orig_window = self.window();
        let ghost pushed_window = spec_step(old(self).last(), orig_window, now, data@).1;

        if data.total() >= self.last_count.total() {
            let delta = data.delta_from(&self.last_count);
            let entry = WindowEntry { at: now, delta };
            self.day_changes.push(entry);
            proof {
                assert(self.window() =~= orig_window.push((now, spec_delta(
                    data@,
                    old(self).last(),
                ))));
            }
        }

        let ghost mid_window = self.window();

        while self.day_changes.len() > 0 && now - self.day_changes[0].at > WINDOW_SECONDS
            invariant
                forall|i: int|
                    0 <= i < self.window().len() ==> (#[trigger] self.window()[i]).1.len()
                        == METRIC_COUNT,
                forall|i: int, j: int|
                    0 <= i <= j < self.window().len() ==> self.window()[i].0 <= self.window()[j].0,
                forall|i: int| 0 <= i < self.window().len() ==> self.window()[i].0 <= now,
                spec_evict(self.window(), now) == spec_evict(mid_window, now),
            decreases self.window().len(),
        {
            let ghost before = self.window();
            self.day_changes.remove(0);
            proof {
                assert(self.window() =~= before.subrange(1, before.len() as int));
            }
        }

        self.last_count = data;

        proof {
            if self.day_changes.len() > 0 {
                assert(spec_evict(self.window(), now) == self.window());
            } else {
                assert(spec_evict(self.window(), now) =~= self.window());
            }
            assert(self.window() == spec_evict(mid_window, now));
        }
    }

    /// Reports the exact per-metric sums over the window, the number of
    /// retained polls, and the wall-clock span the window covers.
    pub fn average_per_min(&self) -> (r: (FirehoseRate, u64))
        requires
            self.wf(),
        ensures
            r.0.wf(),
            r.0.spec_samples() == self.window().len(),
            forall|m: int|
                0 <= m < METRIC_COUNT ==> r.0.spec_sums()[m] == spec_metric_sum(self.window(), m),
            r.1 == spec_duration(self.window()),
    {
        let ghost w = self.window();
        let mut sums: Vec<u128> = Vec::new();
        let mut i: usize = 0;
        while i < METRIC_COUNT
            invariant
                i <= METRIC_COUNT,
                sums@.len() == i,
                forall|m: int| 0 <= m < i ==> sums@[m] == 0u128,
            decreases METRIC_COUNT - i,
        {
            sums.push(0);
            i = i + 1;
        }

        let mut j: usize = 0;
        while j < self.day_changes.len()
            invariant
                self.wf(),
                w == self.window(),
                j <= self.day_changes.len(),
                sums@.len() == METRIC_COUNT,
                forall|m: int|
                    0 <= m < METRIC_COUNT ==> #[trigger] sums@[m] as int == spec_metric_sum(
                        w.subrange(0, j as int),
                        m,
                    ),
            decreases self.day_changes.len() - j,
        {
            let ghost prefix = w.subrange(0, j as int);
            let mut m: usize = 0;
            while m < METRIC_COUNT
                invariant
                    self.wf(),
                    w == self.window(),
                    j < self.day_changes.len(),
                    prefix == w.subrange(0, j as int),
                    sums@.len() == METRIC_COUNT,
                    forall|k: int|
                        m <= k < METRIC_COUNT ==> #[trigger] sums@[k] as int == spec_metric_sum(
                            prefix,
                            k,
                        ),
                    forall|k: int|
                        0 <= k < m ==> #[trigger] sums@[k] as int == spec_metric_sum(
                            w.subrange(0, j as int + 1),
                            k,
                        ),
                decreases METRIC_COUNT - m,
            {
                proof {
                    lemma_metric_sum_bound(prefix, m as int);
                    assert(w.subrange(0, j as int + 1).drop_last() =~= prefix);
                    assert(w.subrange(0, j as int + 1).last() == w[j as int]);
                }
                let v = self.day_changes[j].delta.values[m];
                let cur = sums[m];
                proof {
                    lemma_sum_fits(prefix.len() as int, cur as int, v as int);
                }
                sums.set(m, cur + (v as u128));
                m = m + 1;
            }
            j = j + 1;
        }

        proof {
            assert(w.subrange(0, w.len() as int) =~= w);
        }

        let samples = self.day_changes.len();
        let duration: u64 = if samples == 0 {
            0
        } else {
            self.day_changes[samples - 1].at - self.day_changes[0].at
        };
        (FirehoseRate { sums, samples }, duration)
    }

    /// The timestamp of the newest retained entry, so the poller can check
    /// at run time that the `now` it is about to feed in does not lie
    /// before the window.
    pub fn newest_timestamp(&self) -> (r: Option<u64>)
        ensures
            match r {
                Option::Some(t) => self.window().len() > 0 && t == self.window().last().0,
                Option::None => self.window().len() == 0,
            },
    {
        let n = self.day_changes.len();
        if n == 0 {
            None
        } else {
            Some(self.day_changes[n - 1].at)
        }
    }
}

/// The tracker's availability state: no rates can be reported until the
/// first snapshot has been fetched, and one successful fetch makes rates
/// available for the rest of the process lifetime.
pub struct FirehoseMonitor {
    tracker: Option<MetricsTracker>,
}

impl FirehoseMonitor {
    /// Whether the first snapshot has arrived.
    pub closed spec fn initialized(&self) -> bool {
        self.tracker is Some
    }

    /// The baseline snapshot of the inner tracker (empty before the first
    /// snapshot).
    pub closed spec fn last(&self) -> Seq<u64> {
        match self.tracker {
            Option::Some(t) => t.last(),
            Option::None => Seq::empty(),
        }
    }

    /// The retained window of the inner tracker (empty before the first
    /// snapshot).
    pub closed spec fn window(&self) -> Seq<(u64, Seq<u64>)> {
        match self.tracker {
            Option::Some(t) => t.window(),
            Option::None => Seq::empty(),
        }
    }

    /// The inner tracker's invariant, where one exists.
    pub closed spec fn wf(&self) -> bool {
        match self.tracker {
            Option::Some(t) => t.wf(),
            Option::None => true,
        }
    }

    /// A monitor that has not yet seen a snapshot: rates are unavailable.
    pub fn new() -> (r: FirehoseMonitor)
        ensures
            r.wf(),
            !r.initialized(),
    {
        FirehoseMonitor { tracker: None }
    }

    /// Delivers the first successfully fetched snapshot.  The first delivery
    /// creates the tracker with an empty window; any later delivery through
    /// this entry point is ignored, since initialization happens only once.
    pub fn first_snapshot(&mut self, data: FirehoseCount)
        requires
            old(self).wf(),
            data.wf(),
        ensures
            final(self).wf(),
            final(self).initialized(),
            !old(self).initialized() ==> final(self).last() == data@ && final(self).window()
                =~= Seq::<(u64, Seq<u64>)>::empty(),
            old(self).initialized() ==> final(self).last() == old(self).last()
                && final(self).window() == old(self).window(),
    {
        if self.tracker.is_none() {
            self.tracker = Some(MetricsTracker::init(data));
        }
    }

    /// Feeds one later poll to the tracker; before initialization there is
    /// nothing to feed and the poll is dropped.
    pub fn accumulate(&mut self, now: u64, data: FirehoseCount)
        requires
            old(self).wf(),
            data.wf(),
            old(self).window().len() > 0 ==> old(self).window().last().0 <= now,
        ensures
            final(self).wf(),
            final(self).initialized() == old(self).initialized(),
            old(self).initialized() ==> (final(self).last(), final(self).window()) == spec_step(
                old(self).last(),
                old(self).window(),
                now,
                data@,
            ),
            !old(self).initialized() ==> final(self).last() == old(self).last()
                && final(self).window() == old(self).window(),
    {
        let inner = self.tracker.take();
        match inner {
            Option::Some(mut t) => {
                t.accumulate(now, data);
                self.tracker = Some(t);
            },
            Option::None => {
                self.tracker = None;
            },
        }
    }

    /// The public rate query: `None` until the first snapshot has arrived,
    /// afterwards the exact sums, sample count and covered duration of the
    /// current window.
    pub fn average_rates_per_min(&self) -> (r: Option<(FirehoseRate, u64)>)
        requires
            self.wf(),
        ensures
            r is Some <==> self.initialized(),
            match r {
                Option::Some((rate, duration)) => {
                    &&& rate.wf()
                    &&& rate.spec_samples() == self.window().len()
                    &&& forall|m: int|
                        0 <= m < METRIC_COUNT ==> rate.spec_sums()[m] == spec_metric_sum(
                            self.window(),
                            m,
                        )
                    &&& duration == spec_duration(self.window())
                },
                Option::None => !self.initialized(),
            },
    {
        match &self.tracker {
            Option::Some(t) => Some(t.average_per_min()),
            Option::None => None,
        }
    }

    /// The timestamp of the newest retained entry, absent before
    /// initialization or while the window is empty; the poller checks its
    /// clock against it before feeding a poll in.
    pub fn newest_timestamp(&self) -> (r: Option<u64>)
        ensures
            match r {
                Option::Some(t) => self.window().len() > 0 && t == self.window().last().0,
                Option::None => self.window().len() == 0,
            },
    {
        match &self.tracker {
            Option::Some(t) => t.newest_timestamp(),
            Option::None => None,
        }
    }
}

/// The retention predicate of a window evicted at time `now`.
pub open spec fn keep_pred(now: u64) -> spec_fn((u64, Seq<u64>)) -> bool {
    |e: (u64, Seq<u64>)| now - e.0 <= WINDOW_SECONDS
}

/// The tracker state after a whole run: initialization with `start`, then
/// one [`spec_step`] per `(timestamp, snapshot)` call, in order.
pub open spec fn spec_run(start: Seq<u64>, calls: Seq<(u64, Seq<u64>)>) -> (Seq<u64>, Seq<
    (u64, Seq<u64>),
>)
    decreases calls.len(),
{
    if calls.len() == 0 {
        (start, Seq::empty())
    } else {
        let prev = spec_run(start, calls.drop_last());
        spec_step(prev.0, prev.1, calls.last().0, calls.last().1)
    }
}

/// Every entry a run ever pushed: one `(timestamp, delta)` per call that
/// passed the reset check, in order, with no eviction applied.
pub open spec fn spec_pushed(start: Seq<u64>, calls: Seq<(u64, Seq<u64>)>) -> Seq<(u64, Seq<u64>)>
    decreases calls.len(),
{
    if calls.len() == 0 {
        Seq::empty()
    } else {
        let prev_last = spec_run(start, calls.drop_last()).0;
        let prev = spec_pushed(start, calls.drop_last());
        if calls.last().1[0] >= prev_last[0] {
            prev.push((calls.last().0, spec_delta(calls.last().1, prev_last)))
        } else {
            prev
        }
    }
}

/// Filtering commutes with `push` in the evident way.
proof fn lemma_filter_push(s: Seq<(u64, Seq<u64>)>, p: spec_fn((u64, Seq<u64>)) -> bool, a: (
    u64,
    Seq<u64>,
))
    ensures
        s.push(a).filter(p) == if p(a) {
            s.filter(p).push(a)
        } else {
            s.filter(p)
        },
{
    reveal(Seq::filter);
    assert(s.push(a).drop_last() =~= s);
    assert(s.push(a).last() == a);
}

/// Filtering with a predicate that holds everywhere changes nothing.
proof fn lemma_filter_all_true(s: Seq<(u64, Seq<u64>)>, p: spec_fn((u64, Seq<u64>)) -> bool)
    requires
        forall|i: int| 0 <= i < s.len() ==> p(#[trigger] s[i]),
    ensures
        s.filter(p) =~= s,
    decreases s.len(),
{
    reveal(Seq::filter);
    if s.len() > 0 {
        lemma_filter_all_true(s.drop_last(), p);
    }
}

/// Evicting at an earlier time and then at a later one is the same as
/// evicting at the later time alone.
proof fn lemma_filter_nested(s: Seq<(u64, Seq<u64>)>, t1: u64, t2: u64)
    requires
        t1 <= t2,
    ensures
        s.filter(keep_pred(t1)).filter(keep_pred(t2)) =~= s.filter(keep_pred(t2)),
    decreases s.len(),
{
    reveal(Seq::filter);
    if s.len() > 0 {
        let a = s.last();
        let rest = s.drop_last();
        lemma_filter_nested(rest, t1, t2);
        lemma_filter_push(rest.filter(keep_pred(t1)), keep_pred(t2), a);
        assert(keep_pred(t2)(a) ==> keep_pred(t1)(a));
    }
}

/// Filtering a sorted, bounded window keeps it sorted and bounded, and keeps
/// its entries full width.
proof fn lemma_filter_keep_props(s: Seq<(u64, Seq<u64>)>, t: u64, bound: u64)
    requires
        forall|i: int, j: int| 0 <= i <= j < s.len() ==> s[i].0 <= s[j].0,
        forall|i: int| 0 <= i < s.len() ==> (#[trigger] s[i]).0 <= bound,
        forall|i: int| 0 <= i < s.len() ==> (#[trigger] s[i]).1.len() == METRIC_COUNT,
    ensures
        ({
            let f = s.filter(keep_pred(t));
            &&& forall|i: int, j: int| 0 <= i <= j < f.len() ==> f[i].0 <= f[j].0
            &&& forall|i: int| 0 <= i < f.len() ==> (#[trigger] f[i]).0 <= bound
            &&& forall|i: int| 0 <= i < f.len() ==> (#[trigger] f[i]).1.len() == METRIC_COUNT
            &&& s.len() > 0 ==> forall|i: int| 0 <= i < f.len() ==> (#[trigger] f[i]).0
                <= s.last().0
        }),
    decreases s.len(),
{
    reveal(Seq::filter);
    if s.len() > 0 {
        let a = s.last();
        let rest = s.drop_last();
        lemma_filter_keep_props(rest, t, bound);
        lemma_filter_push(rest.filter(keep_pred(t)), keep_pred(t), a);
        assert(forall|i: int| 0 <= i < rest.len() ==> (#[trigger] rest[i]).0 <= a.0);
    }
}

/// On a sorted window whose entries do not postdate `now`, eviction retains
/// exactly the entries within [`WINDOW_SECONDS`] of `now`.
pub proof fn lemma_evict_exact(w: Seq<(u64, Seq<u64>)>, now: u64)
    requires
        forall|i: int, j: int| 0 <= i <= j < w.len() ==> w[i].0 <= w[j].0,
        forall|i: int| 0 <= i < w.len() ==> (#[trigger] w[i]).0 <= now,
    ensures
        spec_evict(w, now) =~= w.filter(keep_pred(now)),
    decreases w.len(),
{
    reveal(Seq::filter);
    if w.len() == 0 {
    } else if now - w[0].0 > WINDOW_SECONDS {
        let tail = w.subrange(1, w.len() as int);
        lemma_evict_exact(tail, now);
        assert(w =~= seq![w[0]] + tail);
        Seq::filter_distributes_over_add(seq![w[0]], tail, keep_pred(now));
        assert(seq![w[0]] =~= Seq::<(u64, Seq<u64>)>::empty().push(w[0]));
        lemma_filter_push(Seq::empty(), keep_pred(now), w[0]);
        assert(Seq::<(u64, Seq<u64>)>::empty().filter(keep_pred(now)) =~= Seq::empty());
        assert(seq![w[0]].filter(keep_pred(now)) + tail.filter(keep_pred(now)) =~= tail.filter(
            keep_pred(now),
        ));
    } else {
        assert(forall|i: int|
            0 <= i < w.len() ==> keep_pred(now)(#[trigger] w[i]) && w[0].0 <= w[i].0);
        lemma_filter_all_true(w, keep_pred(now));
    }
}

/// The pushed entries of a run are timestamp-sorted, never postdate the last
/// call, and are full width.
proof fn lemma_pushed_props(start: Seq<u64>, calls: Seq<(u64, Seq<u64>)>)
    requires
        forall|i: int| 0 <= i < calls.len() ==> (#[trigger] calls[i]).1.len() == METRIC_COUNT,
        forall|i: int, j: int| 0 <= i <= j < calls.len() ==> calls[i].0 <= calls[j].0,
    ensures
        ({
            let p = spec_pushed(start, calls);
            &&& forall|i: int, j: int| 0 <= i <= j < p.len() ==> p[i].0 <= p[j].0
            &&& calls.len() > 0 ==> forall|i: int| 0 <= i < p.len() ==> (#[trigger] p[i]).0
                <= calls.last().0
            &&& forall|i: int| 0 <= i < p.len() ==> (#[trigger] p[i]).1.len() == METRIC_COUNT
            &&& calls.len() == 0 ==> p.len() == 0
        }),
    decreases calls.len(),
{
    if calls.len() > 0 {
        let pc = calls.drop_last();
        lemma_pushed_props(start, pc);
        assert(forall|i: int| 0 <= i < pc.len() ==> #[trigger] pc[i] == calls[i]);
        assert(pc.len() > 0 ==> pc.last().0 <= calls.last().0);
    }
}

/// Law of window eviction: after any ordered run of accumulations, the
/// retained window consists of exactly the pushed entries that lie within
/// [`WINDOW_SECONDS`] of the final call's timestamp — each no older than a
/// day relative to the latest insertion, none dropped early, all in order.
pub proof fn lemma_window_eviction(start: Seq<u64>, calls: Seq<(u64, Seq<u64>)>)
    requires
        start.len() == METRIC_COUNT,
        calls.len() > 0,
        forall|i: int| 0 <= i < calls.len() ==> (#[trigger] calls[i]).1.len() == METRIC_COUNT,
        forall|i: int, j: int| 0 <= i <= j < calls.len() ==> calls[i].0 <= calls[j].0,
    ensures
        ({
            let w = spec_run(start, calls).1;
            &&& w =~= spec_pushed(start, calls).filter(keep_pred(calls.last().0))
            &&& forall|i: int| 0 <= i < w.len() ==> calls.last().0 - (#[trigger] w[i]).0
                <= WINDOW_SECONDS
            &&& forall|i: int, j: int| 0 <= i <= j < w.len() ==> w[i].0 <= w[j].0
            &&& forall|i: int| 0 <= i < w.len() ==> (#[trigger] w[i]).0 <= calls.last().0
        }),
    decreases calls.len(),
{
    broadcast use Seq::lemma_filter_pred;

    let now = calls.last().0;
    let pc = calls.drop_last();
    let e = calls.last();
    let prev = spec_run(start, pc);
    let stepped = spec_step(prev.0, prev.1, e.0, e.1);
    let pushed_all = spec_pushed(start, calls);
    lemma_pushed_props(start, calls);
    assert(forall|i: int| 0 <= i < pc.len() ==> #[trigger] pc[i] == calls[i]);
    lemma_pushed_props(start, pc);

    if pc.len() == 0 {
        assert(prev.0 == start && prev.1 =~= Seq::<(u64, Seq<u64>)>::empty());
        assert(spec_pushed(start, pc) =~= Seq::<(u64, Seq<u64>)>::empty());
        if e.1[0] >= prev.0[0] {
            let w1 = Seq::<(u64, Seq<u64>)>::empty().push((e.0, spec_delta(e.1, prev.0)));
            assert(stepped.1 == spec_evict(w1, now));
            assert(spec_evict(w1, now) == w1);
            lemma_filter_push(Seq::empty(), keep_pred(now), (e.0, spec_delta(e.1, prev.0)));
            reveal(Seq::filter);
        } else {
            assert(stepped.1 =~= Seq::<(u64, Seq<u64>)>::empty());
            reveal(Seq::filter);
        }
    } else {
        let pn = pc.last().0;
        lemma_window_eviction(start, pc);
        let wp = prev.1;
        let pp = spec_pushed(start, pc);
        assert(pn <= now) by {
            assert(pc.last() == calls[calls.len() - 2]);
        }
        lemma_filter_keep_props(pp, pn, now);
        lemma_filter_nested(pp, pn, now);
        if e.1[0] >= prev.0[0] {
            let entry = (e.0, spec_delta(e.1, prev.0));
            let mid = wp.push(entry);
            assert(stepped.1 == spec_evict(mid, now));
            assert(forall|i: int| 0 <= i < wp.len() ==> (#[trigger] wp[i]).0 <= now);
            lemma_evict_exact(mid, now);
            lemma_filter_push(wp, keep_pred(now), entry);
            assert(keep_pred(now)(entry));
            assert(pushed_all == pp.push(entry));
            lemma_filter_push(pp, keep_pred(now), entry);
            assert(stepped.1 =~= pushed_all.filter(keep_pred(now)));
        } else {
            assert(stepped.1 == spec_evict(wp, now));
            assert(forall|i: int| 0 <= i < wp.len() ==> (#[trigger] wp[i]).0 <= now);
            lemma_evict_exact(wp, now);
            assert(pushed_all == pp);
            assert(stepped.1 =~= pushed_all.filter(keep_pred(now)));
        }
        lemma_filter_keep_props(pushed_all, now, now);
    }
}

/// Law of delta correctness: initializing with `s1` and accumulating `s2`
/// whose total has not decreased leaves exactly one window entry, the
/// elementwise difference of the two snapshots.
pub proof fn lemma_delta_correctness(s1: Seq<u64>, s2: Seq<u64>, t: u64)
    requires
        s1.len() == METRIC_COUNT,
        s2.len() == METRIC_COUNT,
        s2[0] >= s1[0],
    ensures
        spec_step(s1, Seq::empty(), t, s2).1 =~= seq![(t, spec_delta(s2, s1))],
        forall|m: int|
            0 <= m < METRIC_COUNT && s2[m] >= s1[m] ==> spec_delta(s2, s1)[m] == s2[m] - s1[m],
{
    let w = Seq::<(u64, Seq<u64>)>::empty().push((t, spec_delta(s2, s1)));
    assert(spec_evict(w, t) == w);
}

/// Law of reset handling: a snapshot whose total decreased contributes no
/// window entry but still becomes the baseline, so the next accumulation
/// computes its delta against it.
pub proof fn lemma_reset_skip(s1: Seq<u64>, s2: Seq<u64>, s3: Seq<u64>, t: u64, t2: u64)
    requires
        s1.len() == METRIC_COUNT,
        s2.len() == METRIC_COUNT,
        s3.len() == METRIC_COUNT,
        s2[0] < s1[0],
    ensures
        spec_step(s1, Seq::empty(), t, s2).0 == s2,
        spec_step(s1, Seq::empty(), t, s2).1 =~= Seq::<(u64, Seq<u64>)>::empty(),
        s3[0] >= s2[0] ==> spec_step(s2, spec_step(s1, Seq::empty(), t, s2).1, t2, s3).1 =~= seq![
            (t2, spec_delta(s3, s2)),
        ],
        s3[0] < s2[0] ==> spec_step(s2, spec_step(s1, Seq::empty(), t, s2).1, t2, s3).1
            =~= Seq::<(u64, Seq<u64>)>::empty(),
{
    let mid = spec_step(s1, Seq::empty(), t, s2);
    assert(mid.1 =~= Seq::<(u64, Seq<u64>)>::empty());
    if s3[0] >= s2[0] {
        let w = mid.1.push((t2, spec_delta(s3, s2)));
        assert(spec_evict(w, t2) == w);
    }
}

/// A metric's sum over a window is at most one maximal counter value per
/// entry.
proof fn lemma_metric_sum_bound(w: Seq<(u64, Seq<u64>)>, m: int)
    ensures
        0 <= spec_metric_sum(w, m) <= w.len() * 0xffff_ffff_ffff_ffff,
    decreases w.len(),
{
    if w.len() == 0 {
    } else {
        lemma_metric_sum_bound(w.drop_last(), m);
        assert((w.len() - 1) * 0xffff_ffff_ffff_ffff + 0xffff_ffff_ffff_ffff == w.len()
            * 0xffff_ffff_ffff_ffff) by (nonlinear_arith);
    }
}

/// A partial sum plus one more `u64` value stays well inside `u128`.
proof fn lemma_sum_fits(n: int, cur: int, v: int)
    requires
        0 <= n <= usize::MAX,
        0 <= cur <= n * 0xffff_ffff_ffff_ffff,
        0 <= v <= 0xffff_ffff_ffff_ffff,
    ensures
        cur + v <= u128::MAX,
{
    assert(n * 0xffff_ffff_ffff_ffff <= 0xffff_ffff_ffff_ffff * 0xffff_ffff_ffff_ffff)
        by (nonlinear_arith)
        requires 0 <= n <= 0xffff_ffff_ffff_ffff,
    ;
}

} // verus!

