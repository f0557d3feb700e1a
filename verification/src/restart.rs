//! Restart storms: restarts counted in a rolling window.

use crate::clock::{Duration, Instant, NANOS_PER_SEC};
use crate::fleet::{BACKOFF_SECS, RESTART_STORM_THRESHOLD, RESTART_WINDOW_SECS};
use std::collections::VecDeque;
use vstd::prelude::*;

verus! {

/// Counts the restarts of one child in a rolling window and says how long to
/// wait before the next.
#[derive(Debug)]
pub struct RestartTracker {
    window: Duration,
    threshold: u32,
    backoff: Duration,
    history: VecDeque<Instant>,
}

/// What a [`RestartTracker`] holds; times are in nanoseconds.
#[verifier::ext_equal]
pub struct RestartModel {
    /// Length of the window.
    pub window: nat,
    /// Restarts in the window from which on there is a storm.
    pub threshold: nat,
    /// Pause in a storm.
    pub backoff: nat,
    /// Times of the restarts that are still counted, in the order recorded.
    pub history: Seq<nat>,
}

impl View for RestartTracker {
    type V = RestartModel;

    closed spec fn view(&self) -> RestartModel {
        RestartModel {
            window: self.window.nanos as nat,
            threshold: self.threshold as nat,
            backoff: self.backoff.nanos as nat,
            history: self.history@.map_values(|t: Instant| t.nanos as nat),
        }
    }
}

/// The history without the entries at its front that are older than the window.
pub open spec fn expire(history: Seq<nat>, window: nat, now: nat) -> Seq<nat>
    decreases history.len(),
{
    if history.len() > 0 && history[0] + window < now {
        expire(history.drop_first(), window, now)
    } else {
        history
    }
}

impl RestartModel {
    /// A tracker that has counted nothing yet.
    pub open spec fn fresh() -> Self {
        RestartModel {
            window: RESTART_WINDOW_SECS as nat * NANOS_PER_SEC as nat,
            threshold: RESTART_STORM_THRESHOLD as nat,
            backoff: BACKOFF_SECS as nat * NANOS_PER_SEC as nat,
            history: Seq::empty(),
        }
    }

    /// The tracker after a restart at `now`.
    pub open spec fn recorded(self, now: nat) -> Self {
        RestartModel { history: expire(self.history, self.window, now).push(now), ..self }
    }

    /// Whether the window holds as many restarts as make a storm.
    pub open spec fn storm(self) -> bool {
        self.history.len() >= self.threshold
    }

    /// The pause before the next start.
    pub open spec fn delay(self) -> nat {
        if self.storm() {
            self.backoff
        } else {
            0
        }
    }
}

impl Default for RestartTracker {
    /// A tracker with the fleet's window, threshold and pause.
    fn default() -> (r: Self)
        ensures
            r@ == RestartModel::fresh(),
    {
        let r = RestartTracker {
            window: Duration::from_secs(RESTART_WINDOW_SECS),
            threshold: RESTART_STORM_THRESHOLD,
            backoff: Duration::from_secs(BACKOFF_SECS),
            history: VecDeque::new(),
        };
        assert(r@.history == Seq::<nat>::empty());
        r
    }
}

impl RestartTracker {
    /// Counts a restart at `now` and says how long to wait before the next
    /// start: no time below the storm threshold, the pause from it on.
    pub fn record(&mut self, now: Instant) -> (r: Duration)
        ensures
            final(self)@ == old(self)@.recorded(now.nanos as nat),
            r.nanos == final(self)@.delay(),
    {
        let ghost h0 = self@.history;
        if let Some(cutoff) = now.checked_sub(self.window) {
            while self.history.len() > 0 && self.history[0].nanos < cutoff.nanos
                invariant
                    self.window == old(self).window,
                    self.threshold == old(self).threshold,
                    self.backoff == old(self).backoff,
                    cutoff.nanos == now.nanos - self.window.nanos,
                    expire(h0, self@.window, now.nanos as nat) == expire(
                        self@.history,
                        self@.window,
                        now.nanos as nat,
                    ),
                decreases self.history.len(),
            {
                let ghost h = self@.history;
                let _ = self.history.pop_front();
                assert(self@.history == h.drop_first());
            }
        }
        let ghost h = self@.history;
        assert(expire(h0, self@.window, now.nanos as nat) == h);
        self.history.push_back(now);
        assert(self@.history == h.push(now.nanos as nat));
        if self.history.len() >= self.threshold as usize {
            self.backoff
        } else {
            Duration::zero()
        }
    }

    /// Whether the window holds as many restarts as make a storm.
    pub fn in_storm(&self) -> (r: bool)
        ensures
            r == self@.storm(),
    {
        self.history.len() >= self.threshold as usize
    }

    /// The number of restarts in the window.
    pub fn restarts_in_window(&self) -> (r: usize)
        ensures
            r == self@.history.len(),
    {
        self.history.len()
    }
}

/// Whether the times never decrease and none is later than `now`.
pub open spec fn in_order(history: Seq<nat>, now: nat) -> bool {
    &&& forall|i: int, j: int| 0 <= i <= j < history.len() ==> history[i] <= history[j]
    &&& forall|i: int| 0 <= i < history.len() ==> history[i] <= now
}

/// Of times in order, exactly those within the window stay.
pub proof fn lemma_expire_filters(history: Seq<nat>, window: nat, now: nat)
    requires
        in_order(history, now),
    ensures
        expire(history, window, now) == history.filter(|t: nat| t + window >= now),
    decreases history.len(),
{
    let p = |t: nat| t + window >= now;
    if history.len() == 0 {
        assert(history.filter(p) == history) by {
            reveal(Seq::filter);
        }
    } else if history[0] + window < now {
        let rest = history.drop_first();
        assert(in_order(rest, now)) by {
            assert forall|i: int, j: int| 0 <= i <= j < rest.len() implies rest[i] <= rest[j] by {
                assert(history[i + 1] <= history[j + 1]);
            }
        }
        lemma_expire_filters(rest, window, now);
        lemma_filter_head(history, p);
    } else {
        assert forall|i: int| 0 <= i < history.len() implies p(#[trigger] history[i]) by {
            assert(history[0] <= history[i]);
        }
        lemma_filter_all(history, p);
    }
}

/// A filter that refuses the first element is the filter of the rest.
proof fn lemma_filter_head(s: Seq<nat>, p: spec_fn(nat) -> bool)
    requires
        s.len() > 0,
        !p(s[0]),
    ensures
        s.filter(p) == s.drop_first().filter(p),
    decreases s.len(),
{
    reveal(Seq::filter);
    if s.len() > 1 {
        lemma_filter_head(s.drop_last(), p);
        assert(s.drop_last().drop_first() == s.drop_first().drop_last());
    } else {
        assert(s.drop_last().len() == 0);
        assert(s.drop_last().filter(p) == Seq::<nat>::empty());
    }
}

/// A filter that takes every element keeps the sequence.
proof fn lemma_filter_all(s: Seq<nat>, p: spec_fn(nat) -> bool)
    requires
        forall|i: int| 0 <= i < s.len() ==> p(#[trigger] s[i]),
    ensures
        s.filter(p) == s,
    decreases s.len(),
{
    reveal(Seq::filter);
    if s.len() > 0 {
        lemma_filter_all(s.drop_last(), p);
        assert(p(s[s.len() - 1]));
        assert(s.drop_last().push(s.last()) == s);
    } else {
        assert(s.filter(p) == s);
    }
}

/// The window rolls: where restarts are recorded as time goes on, the tracker
/// counts exactly those within the window, the new one among them, stays in
/// order, and makes the child wait exactly when they reach the threshold.
pub proof fn law_window_rolls(m: RestartModel, now: nat)
    requires
        in_order(m.history, now),
    ensures
        m.recorded(now).history == m.history.filter(|t: nat| t + m.window >= now).push(now),
        in_order(m.recorded(now).history, now),
        m.recorded(now).delay() == if m.recorded(now).history.len() >= m.threshold {
            m.backoff
        } else {
            0
        },
{
    lemma_expire_filters(m.history, m.window, now);
    lemma_expire_suffix(m.history, m.window, now);
    let h = expire(m.history, m.window, now);
    let k = m.history.len() - h.len();
    assert(h == m.history.skip(k));
    let n = m.recorded(now).history;
    assert forall|i: int, j: int| 0 <= i <= j < n.len() implies n[i] <= n[j] by {
        if j < h.len() {
            assert(m.history[k + i] <= m.history[k + j]);
        } else if i < h.len() {
            assert(m.history[k + i] <= now);
        }
    }
    assert forall|i: int| 0 <= i < n.len() implies n[i] <= now by {
        if i < h.len() {
            assert(m.history[k + i] <= now);
        }
    }
}

/// What stays of a history is its end.
pub proof fn lemma_expire_suffix(history: Seq<nat>, window: nat, now: nat)
    ensures
        expire(history, window, now).len() <= history.len(),
        expire(history, window, now) == history.skip(
            history.len() - expire(history, window, now).len(),
        ),
    decreases history.len(),
{
    if history.len() > 0 && history[0] + window < now {
        lemma_expire_suffix(history.drop_first(), window, now);
        let e = expire(history, window, now);
        assert(history.drop_first().skip(history.len() - 1 - e.len()) == history.skip(
            history.len() - e.len(),
        ));
    } else {
        assert(history.skip(0) == history);
    }
}

/// A fresh tracker below the threshold never makes a child wait: after fewer
/// restarts than the threshold, at whatever times, the delay is zero.
pub proof fn law_no_storm_below_threshold(times: Seq<nat>)
    requires
        times.len() < RESTART_STORM_THRESHOLD,
    ensures
        recorded_all(RestartModel::fresh(), times).delay() == 0,
{
    lemma_history_bound(RestartModel::fresh(), times);
}

/// The tracker after restarts at all the times.
pub open spec fn recorded_all(m: RestartModel, times: Seq<nat>) -> RestartModel
    decreases times.len(),
{
    if times.len() == 0 {
        m
    } else {
        recorded_all(m, times.drop_last()).recorded(times.last())
    }
}

/// The history grows by at most one entry for each restart.
proof fn lemma_history_bound(m: RestartModel, times: Seq<nat>)
    ensures
        recorded_all(m, times).history.len() <= m.history.len() + times.len(),
        recorded_all(m, times).threshold == m.threshold,
        recorded_all(m, times).window == m.window,
        recorded_all(m, times).backoff == m.backoff,
    decreases times.len(),
{
    if times.len() > 0 {
        lemma_history_bound(m, times.drop_last());
        let p = recorded_all(m, times.drop_last());
        lemma_expire_suffix(p.history, p.window, times.last());
    }
}

/// Whether the times never decrease and the last is at most `span` behind the first.
pub open spec fn close_together(times: Seq<nat>, span: nat) -> bool {
    forall|i: int, j: int|
        0 <= i <= j < times.len() ==> #[trigger] times[i] <= #[trigger] times[j] && times[j]
            <= times[i] + span
}

/// A storm comes from restarts in quick succession: when a fresh tracker has
/// seen as many restarts as the threshold, all within one window, the delay is
/// the pause.
pub proof fn law_storm_at_threshold(times: Seq<nat>)
    requires
        times.len() >= RESTART_STORM_THRESHOLD,
        close_together(times, RestartModel::fresh().window),
    ensures
        recorded_all(RestartModel::fresh(), times).history == times,
        recorded_all(RestartModel::fresh(), times).delay() == RestartModel::fresh().backoff,
{
    lemma_all_kept(times);
}

/// Restarts within one window are all counted.
proof fn lemma_all_kept(times: Seq<nat>)
    requires
        close_together(times, RestartModel::fresh().window),
    ensures
        recorded_all(RestartModel::fresh(), times).history == times,
        recorded_all(RestartModel::fresh(), times).threshold == RestartModel::fresh().threshold,
        recorded_all(RestartModel::fresh(), times).window == RestartModel::fresh().window,
        recorded_all(RestartModel::fresh(), times).backoff == RestartModel::fresh().backoff,
    decreases times.len(),
{
    if times.len() > 0 {
        let t = times.drop_last();
        assert(close_together(t, RestartModel::fresh().window)) by {
            assert forall|i: int, j: int| 0 <= i <= j < t.len() implies #[trigger] t[i]
                <= #[trigger] t[j] && t[j] <= t[i] + RestartModel::fresh().window by {
                assert(times[i] <= times[j]);
            }
        }
        lemma_all_kept(t);
        if t.len() > 0 {
            let last = times.len() - 1;
            assert(times[0] <= times[last]);
            assert(t[0] == times[0]);
        }
        assert(t.push(times.last()) == times);
    } else {
        assert(RestartModel::fresh().history == times);
    }
}

} // verus!
