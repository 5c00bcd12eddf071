//! The rate window: the times of the last sends that were let through, and the
//! test whether one more send fits into the trailing window.
//!
//! Every time in this module is a number of nanoseconds on one clock that
//! never runs backwards.

use std::collections::VecDeque;
use vstd::prelude::*;

verus! {

/// Rate limit: maximum updates allowed within the window, unless another
/// limit is chosen.
pub const RATE_LIMIT_MAX_UPDATES: usize = 3;

/// Rate limit: length of the window, unless another is chosen: ten seconds.
pub const RATE_LIMIT_WINDOW: u128 = 10_000_000_000;

/// Whether a send recorded at `sent` is older than `window` at `now`. A send
/// that is recorded later than `now` has no age.
pub open spec fn is_stale(sent: int, now: int, window: int) -> bool {
    now - sent > window
}

/// How many entries in a row, from the front, are stale at `now`.
pub open spec fn stale_prefix(sent: Seq<u128>, now: int, window: int) -> nat
    decreases sent.len(),
{
    if sent.len() == 0 || !is_stale(sent[0] as int, now, window) {
        0
    } else {
        1 + stale_prefix(sent.drop_first(), now, window)
    }
}

/// The history after pruning at `now`: without its stale entries at the front.
pub open spec fn pruned(sent: Seq<u128>, now: int, window: int) -> Seq<u128> {
    sent.skip(stale_prefix(sent, now, window) as int)
}

/// The history after a send at `now` was recorded: the send is added at the
/// back, and only the last `max_updates` entries are kept.
pub open spec fn recorded(sent: Seq<u128>, now: u128, max_updates: int) -> Seq<u128> {
    if max_updates <= 0 {
        Seq::empty()
    } else if sent.len() >= max_updates {
        sent.skip(sent.len() - max_updates + 1).push(now)
    } else {
        sent.push(now)
    }
}

/// The entries never go down from front to back.
pub open spec fn in_time_order(sent: Seq<u128>) -> bool {
    forall|i: int, j: int| 0 <= i <= j < sent.len() ==> sent[i] <= sent[j]
}

/// What a [`RateWindow`] stands for.
pub struct WindowView {
    /// The recorded times, oldest first.
    pub sent: Seq<u128>,
    /// How many updates are allowed within one window.
    pub max_updates: nat,
    /// The length of the window.
    pub window: nat,
}

impl WindowView {
    /// No more than `max_updates` times are kept.
    pub open spec fn well_formed(self) -> bool {
        self.sent.len() <= self.max_updates
    }

    /// After the history was pruned at `now`.
    pub open spec fn pruned(self, now: int) -> WindowView {
        WindowView { sent: pruned(self.sent, now, self.window as int), ..self }
    }

    /// Whether one more send fits at `now`: fewer than `max_updates` times
    /// remain when the history is pruned.
    pub open spec fn has_capacity(self, now: int) -> bool {
        self.pruned(now).sent.len() < self.max_updates
    }

    /// After a send at `now` was recorded.
    pub open spec fn recorded(self, now: u128) -> WindowView {
        WindowView { sent: recorded(self.sent, now, self.max_updates as int), ..self }
    }
}

/// The stale run at the front fits into the history, and ends at the first
/// entry that is not stale.
pub proof fn lemma_stale_prefix_fits(sent: Seq<u128>, now: int, window: int)
    ensures
        stale_prefix(sent, now, window) <= sent.len(),
        forall|i: int|
            0 <= i < stale_prefix(sent, now, window) ==> is_stale(
                #[trigger] sent[i] as int,
                now,
                window,
            ),
        stale_prefix(sent, now, window) < sent.len() ==> !is_stale(
            sent[stale_prefix(sent, now, window) as int] as int,
            now,
            window,
        ),
    decreases sent.len(),
{
    if sent.len() > 0 && is_stale(sent[0] as int, now, window) {
        let rest = sent.drop_first();
        lemma_stale_prefix_fits(rest, now, window);
        assert forall|i: int| 0 <= i < stale_prefix(sent, now, window) implies is_stale(
            #[trigger] sent[i] as int,
            now,
            window,
        ) by {
            if i > 0 {
                assert(sent[i] == rest[i - 1]);
            }
        }
        if stale_prefix(sent, now, window) < sent.len() {
            assert(sent[stale_prefix(sent, now, window) as int] == rest[stale_prefix(
                rest,
                now,
                window,
            ) as int]);
        }
    }
}

/// Where the history is in time order, pruning leaves exactly the entries that
/// are not stale.
pub proof fn lemma_pruned_is_fresh(sent: Seq<u128>, now: int, window: int)
    requires
        in_time_order(sent),
    ensures
        pruned(sent, now, window) == sent.filter(|t: u128| !is_stale(t as int, now, window)),
        forall|i: int|
            0 <= i < pruned(sent, now, window).len() ==> !is_stale(
                #[trigger] pruned(sent, now, window)[i] as int,
                now,
                window,
            ),
    decreases sent.len(),
{
    let fresh = |t: u128| !is_stale(t as int, now, window);
    reveal(Seq::filter);
    lemma_stale_prefix_fits(sent, now, window);
    let k = stale_prefix(sent, now, window) as int;
    assert forall|i: int| 0 <= i < pruned(sent, now, window).len() implies !is_stale(
        #[trigger] pruned(sent, now, window)[i] as int,
        now,
        window,
    ) by {
        assert(pruned(sent, now, window)[i] == sent[k + i]);
        assert(sent[k] <= sent[k + i]);
    }
    if sent.len() > 0 {
        let rest = sent.drop_last();
        assert(in_time_order(rest)) by {
            assert forall|i: int, j: int| 0 <= i <= j < rest.len() implies rest[i] <= rest[j] by {
                assert(rest[i] == sent[i] && rest[j] == sent[j]);
            }
        }
        lemma_pruned_is_fresh(rest, now, window);
        lemma_stale_prefix_fits(rest, now, window);
        let kr = stale_prefix(rest, now, window) as int;
        if k == sent.len() {
            assert(kr == rest.len()) by {
                if kr < rest.len() {
                    assert(rest[kr] == sent[kr]);
                }
            }
            assert(pruned(sent, now, window) =~= rest.skip(kr));
        } else {
            assert(kr == k) by {
                if kr < k {
                    assert(rest[kr] == sent[kr]);
                } else if kr > k {
                    assert(rest[k] == sent[k]);
                }
            }
            assert(fresh(sent.last())) by {
                assert(sent[k] <= sent[sent.len() - 1]);
            }
            assert(pruned(sent, now, window) =~= rest.skip(kr).push(sent.last()));
        }
    }
}

/// Pruning takes entries away and keeps the order of the rest.
pub proof fn lemma_pruned_keeps_order(sent: Seq<u128>, now: int, window: int)
    ensures
        pruned(sent, now, window).len() <= sent.len(),
        in_time_order(sent) ==> in_time_order(pruned(sent, now, window)),
{
    lemma_stale_prefix_fits(sent, now, window);
    let k = stale_prefix(sent, now, window) as int;
    let rest = pruned(sent, now, window);
    if in_time_order(sent) {
        assert forall|i: int, j: int| 0 <= i <= j < rest.len() implies rest[i] <= rest[j] by {
            assert(rest[i] == sent[k + i]);
            assert(rest[j] == sent[k + j]);
        }
    }
}

/// Recording keeps the history within its bound. Where there is room, nothing
/// leaves; where the clock has not run backwards, the order is kept.
pub proof fn lemma_recorded_keeps_bound(sent: Seq<u128>, now: u128, max_updates: int)
    ensures
        recorded(sent, now, max_updates).len() <= max_updates || max_updates < 0,
        max_updates > 0 ==> recorded(sent, now, max_updates).len() > 0 && recorded(
            sent,
            now,
            max_updates,
        ).last() == now,
        sent.len() < max_updates ==> recorded(sent, now, max_updates) == sent.push(now),
        in_time_order(sent) && (sent.len() > 0 ==> sent.last() <= now) ==> in_time_order(
            recorded(sent, now, max_updates),
        ),
{
    if max_updates > 0 && in_time_order(sent) && (sent.len() > 0 ==> sent.last() <= now) {
        let next = recorded(sent, now, max_updates);
        let dropped = sent.len() + 1 - next.len();
        assert forall|i: int, j: int| 0 <= i <= j < next.len() implies next[i] <= next[j] by {
            if j < next.len() - 1 {
                assert(next[i] == sent[dropped + i]);
                assert(next[j] == sent[dropped + j]);
            } else if i < next.len() - 1 {
                assert(next[i] == sent[dropped + i]);
                assert(sent[dropped + i] <= sent[sent.len() - 1]);
            }
        }
    }
}

/// A bounded history of the times of the last sends.
#[derive(Debug)]
pub struct RateWindow {
    sent: VecDeque<u128>,
    max_updates: usize,
    window: u128,
}

impl View for RateWindow {
    type V = WindowView;

    closed spec fn view(&self) -> WindowView {
        WindowView {
            sent: self.sent@,
            max_updates: self.max_updates as nat,
            window: self.window as nat,
        }
    }
}

impl RateWindow {
    /// An empty history with the limit of [`RATE_LIMIT_MAX_UPDATES`] updates
    /// in [`RATE_LIMIT_WINDOW`].
    pub fn new() -> (window: RateWindow)
        ensures
            window@ == (WindowView {
                sent: Seq::empty(),
                max_updates: RATE_LIMIT_MAX_UPDATES as nat,
                window: RATE_LIMIT_WINDOW as nat,
            }),
    {
        RateWindow {
            sent: VecDeque::with_capacity(RATE_LIMIT_MAX_UPDATES),
            max_updates: RATE_LIMIT_MAX_UPDATES,
            window: RATE_LIMIT_WINDOW,
        }
    }

    /// An empty history with a limit of one's own: `max_updates` updates in
    /// `window`.
    pub fn with_limit(max_updates: usize, window: u128) -> (history: RateWindow)
        ensures
            history@ == (WindowView {
                sent: Seq::empty(),
                max_updates: max_updates as nat,
                window: window as nat,
            }),
    {
        RateWindow { sent: VecDeque::new(), max_updates, window }
    }

    /// The number of recorded times.
    pub fn len(&self) -> (n: usize)
        ensures
            n == self@.sent.len(),
    {
        self.sent.len()
    }

    /// How many updates are allowed within one window.
    pub fn max_updates(&self) -> (max_updates: usize)
        ensures
            max_updates == self@.max_updates,
    {
        self.max_updates
    }

    /// The length of the window.
    pub fn window(&self) -> (window: u128)
        ensures
            window == self@.window,
    {
        self.window
    }

    /// Clean up old timestamps outside the rate limit window:
    /// [`WindowView::pruned`].
    pub fn cleanup_old_timestamps(&mut self, now: u128)
        ensures
            final(self)@ == old(self)@.pruned(now as int),
            old(self)@.well_formed() ==> final(self)@.well_formed(),
    {
        let ghost start = self.sent@;
        let ghost span = self.window as int;
        proof {
            assert(start.skip(0) =~= start);
        }
        loop
            invariant
                self.sent@.len() <= start.len(),
                self.sent@ == start.skip(start.len() - self.sent@.len()),
                stale_prefix(start, now as int, span) == (start.len() - self.sent@.len())
                    + stale_prefix(self.sent@, now as int, span),
                self.window == old(self).window,
                self.max_updates == old(self).max_updates,
                span == self.window,
            ensures
                self.sent@ == pruned(start, now as int, span),
                self.sent@.len() <= start.len(),
                self.window == old(self).window,
                self.max_updates == old(self).max_updates,
            decreases self.sent@.len(),
        {
            if self.sent.len() == 0 {
                break ;
            }
            let front: u128 = self.sent[0];
            if now >= front && now - front > self.window {
                let ghost before = self.sent@;
                self.sent.pop_front();
                proof {
                    assert(self.sent@ =~= before.drop_first());
                    assert(self.sent@ =~= start.skip(start.len() - self.sent@.len()));
                }
            } else {
                break ;
            }
        }
    }

    /// Check if there is capacity for an update at `now`: the history is
    /// pruned, and there is capacity where fewer times remain than updates
    /// are allowed.
    pub fn has_capacity(&mut self, now: u128) -> (free: bool)
        ensures
            final(self)@ == old(self)@.pruned(now as int),
            old(self)@.well_formed() ==> final(self)@.well_formed(),
            free == old(self)@.has_capacity(now as int),
    {
        self.cleanup_old_timestamps(now);
        self.sent.len() < self.max_updates
    }

    /// Records a send at `now`: [`WindowView::recorded`].
    pub fn record_send(&mut self, now: u128)
        ensures
            final(self)@ == old(self)@.recorded(now),
            final(self)@.well_formed(),
    {
        let ghost start = self.sent@;
        proof {
            assert(start.skip(0) =~= start);
        }
        while self.sent.len() > 0 && self.sent.len() >= self.max_updates
            invariant
                self.sent@.len() <= start.len(),
                self.sent@ == start.skip(start.len() - self.sent@.len()),
                self.window == old(self).window,
                self.max_updates == old(self).max_updates,
                start.len() >= self.max_updates && self.max_updates > 0 ==> self.sent@.len()
                    >= self.max_updates - 1,
                start.len() < self.max_updates ==> self.sent@.len() == start.len(),
            decreases self.sent@.len(),
        {
            let ghost before = self.sent@;
            self.sent.pop_front();
            proof {
                assert(self.sent@ =~= before.drop_first());
                assert(self.sent@ =~= start.skip(start.len() - self.sent@.len()));
            }
        }
        if self.max_updates > 0 {
            self.sent.push_back(now);
        } else {
            proof {
                assert(self.sent@ =~= Seq::<u128>::empty());
            }
        }
    }
}

} // verus!
