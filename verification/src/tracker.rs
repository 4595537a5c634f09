//! The drop tracker of one account: it follows the progress of the drop
//! that the watched channel earns, estimates when the drop will be
//! complete, says when the drop before it is to be claimed, and notices
//! when the channel earns nothing.
//!
//! Times are whole seconds on a clock that never runs backwards.

use vstd::prelude::*;
use crate::claimed::{Claim, ClaimedDrops};

verus! {

/// After this many polls in a row without progress the channel counts as
/// stalled.
pub const STALL_THRESHOLD: u64 = 3;

/// Seconds to wait after a poll without progress.
pub const RETRY_WAIT: u64 = 5;

/// Seconds to wait after a poll with progress.
pub const POLL_WAIT: u64 = 30;

/// A deadline this many seconds ahead, or nearer, is estimated anew.
pub const TOLERANCE: u64 = 300;

/// Seconds that a new tracker allows before its first estimate is due.
pub const FIRST_ESTIMATE: u64 = 3600;

/// What the platform reports of the drop in progress on a channel. An empty
/// id means that no drop is in progress.
#[derive(Debug, PartialEq, Eq)]
pub struct DropProgress {
    pub drop_id: String,
    pub current_minutes: u64,
    pub required_minutes: u64,
}

/// A report in contracts.
pub struct ProgressView {
    pub drop_id: Seq<char>,
    pub current_minutes: u64,
    pub required_minutes: u64,
}

impl View for DropProgress {
    type V = ProgressView;

    open spec fn view(&self) -> ProgressView {
        ProgressView {
            drop_id: self.drop_id@,
            current_minutes: self.current_minutes,
            required_minutes: self.required_minutes,
        }
    }
}

impl ProgressView {
    /// Whether a drop is in progress.
    pub open spec fn in_progress(self) -> bool {
        self.drop_id.len() > 0
    }

    /// The seconds of watching that the drop still needs, never negative.
    pub open spec fn remaining_secs(self) -> int {
        if self.required_minutes > self.current_minutes {
            60 * (self.required_minutes - self.current_minutes)
        } else {
            0
        }
    }
}

/// The state of a tracker: when the drop in progress is expected to be
/// complete, the drop last seen in progress (empty before the first), and
/// the number of polls without progress since the last one with progress.
#[derive(Debug, PartialEq, Eq)]
pub struct DropTracker {
    pub deadline: u64,
    pub last_drop: String,
    pub misses: u64,
}

/// A tracker in contracts.
pub struct TrackerView {
    pub deadline: u64,
    pub last_drop: Seq<char>,
    pub misses: u64,
}

impl View for DropTracker {
    type V = TrackerView;

    open spec fn view(&self) -> TrackerView {
        TrackerView { deadline: self.deadline, last_drop: self.last_drop@, misses: self.misses }
    }
}

/// What the account's task does after a poll.
#[derive(Debug, PartialEq, Eq)]
pub enum TrackerAction {
    /// Nothing is in progress yet: wait and poll again.
    Retry { wait_secs: u64 },
    /// The channel earns nothing: ask the scheduler for another one.
    Stall,
    /// A drop is in progress. Where `claim` names a drop, claim it, record
    /// it in the cache, and announce it, in this order. Then show the
    /// progress, wait, and poll again.
    Track { claim: Option<String>, watched: u64, required: u64, wait_secs: u64 },
}

/// An action in contracts.
pub enum ActionView {
    Retry { wait_secs: u64 },
    Stall,
    Track { claim: Option<Seq<char>>, watched: u64, required: u64, wait_secs: u64 },
}

impl View for TrackerAction {
    type V = ActionView;

    open spec fn view(&self) -> ActionView {
        match *self {
            TrackerAction::Retry { wait_secs } => ActionView::Retry { wait_secs },
            TrackerAction::Stall => ActionView::Stall,
            TrackerAction::Track { claim, watched, required, wait_secs } => ActionView::Track {
                claim: match claim {
                    Some(id) => Some(id@),
                    None => None,
                },
                watched,
                required,
                wait_secs,
            },
        }
    }
}

impl TrackerView {
    /// Whether the deadline has passed.
    pub open spec fn due(self, now: u64) -> bool {
        self.deadline <= now
    }

    /// Whether the deadline has passed or is within the tolerance.
    pub open spec fn nearly_due(self, now: u64) -> bool {
        self.deadline <= now + TOLERANCE
    }

    /// Whether the drop last seen is to be claimed on this report: there is
    /// such a drop, the account is known, and either the deadline has
    /// passed, or the report names another drop that the account has not
    /// claimed yet. `cached` is `None` for an account without an id, and
    /// else says whether the account has claimed the reported drop.
    pub open spec fn claims(self, report: ProgressView, cached: Option<bool>, now: u64) -> bool {
        self.last_drop.len() > 0 && match cached {
            Some(claimed) => self.due(now) || (report.drop_id != self.last_drop && !claimed),
            None => false,
        }
    }

    /// The tracker and the action after a poll without progress.
    pub open spec fn after_miss(self) -> (TrackerView, ActionView) {
        if self.misses + 1 >= STALL_THRESHOLD {
            (TrackerView { misses: 0, ..self }, ActionView::Stall)
        } else {
            (
                TrackerView { misses: (self.misses + 1) as u64, ..self },
                ActionView::Retry { wait_secs: RETRY_WAIT },
            )
        }
    }

    /// The tracker and the action after a poll that reports a drop in
    /// progress. `cached` says whether the account has claimed that drop,
    /// if the account is known.
    pub open spec fn after_progress(self, report: ProgressView, cached: Option<bool>, now: u64) -> (
        TrackerView,
        ActionView,
    ) {
        let claim = self.claims(report, cached, now);
        (
            TrackerView {
                deadline: if claim || self.nearly_due(now) {
                    (now + report.remaining_secs()) as u64
                } else {
                    self.deadline
                },
                last_drop: if claim || self.last_drop.len() == 0 {
                    report.drop_id
                } else {
                    self.last_drop
                },
                misses: 0,
            },
            ActionView::Track {
                claim: if claim {
                    Some(self.last_drop)
                } else {
                    None
                },
                watched: report.current_minutes,
                required: report.required_minutes,
                wait_secs: POLL_WAIT,
            },
        )
    }

    /// The tracker and the action after a poll.
    pub open spec fn after_poll(self, report: ProgressView, cached: Option<bool>, now: u64) -> (
        TrackerView,
        ActionView,
    ) {
        if report.in_progress() {
            self.after_progress(report, cached, now)
        } else {
            self.after_miss()
        }
    }
}

/// Whether the account has claimed the drop, if the account is known.
pub open spec fn cached_for(claims: Set<Claim>, account: Option<&str>, drop_id: Seq<char>) -> Option<
    bool,
> {
    match account {
        Some(id) => Some(claims.contains((id@, drop_id))),
        None => None,
    }
}

impl DropTracker {
    /// A tracker that has seen no drop yet, started at `now`.
    pub fn new(now: u64) -> (t: DropTracker)
        requires
            now + FIRST_ESTIMATE <= u64::MAX,
        ensures
            t@ == (TrackerView {
                deadline: (now + FIRST_ESTIMATE) as u64,
                last_drop: Seq::empty(),
                misses: 0,
            }),
    {
        DropTracker { deadline: now + FIRST_ESTIMATE, last_drop: String::new(), misses: 0 }
    }

    /// The watched channel has changed: polls without progress are counted
    /// from zero.
    pub fn retarget(&mut self)
        ensures
            final(self)@ == (TrackerView { misses: 0, ..old(self)@ }),
    {
        self.misses = 0;
    }

    /// Takes the report of a poll at the time `now`, for the account whose
    /// claims `cache` holds under `account`, and says what to do next. For
    /// an account without an id nothing is ever claimed.
    ///
    /// Without a drop in progress the poll is a miss: the third miss in a
    /// row is a stall and starts the count afresh, an earlier one is
    /// followed by a short wait. With a drop in progress the misses are
    /// forgotten, the drop last seen is claimed where `claims` says so, and
    /// the deadline is set to `now` plus the time the drop still needs
    /// where a claim is made or the deadline is near.
    pub fn poll(
        &mut self,
        report: &DropProgress,
        cache: &ClaimedDrops,
        account: Option<&str>,
        now: u64,
    ) -> (action: TrackerAction)
        requires
            report@.in_progress() ==> now + report@.remaining_secs() <= u64::MAX,
        ensures
            (final(self)@, action@) == old(self)@.after_poll(
                report@,
                cached_for(cache@, account, report.drop_id@),
                now,
            ),
    {
        if report.drop_id.as_str().unicode_len() == 0 {
            if self.misses >= STALL_THRESHOLD - 1 {
                self.misses = 0;
                return TrackerAction::Stall;
            }
            self.misses += 1;
            return TrackerAction::Retry { wait_secs: RETRY_WAIT };
        }
        let fresh = self.last_drop.as_str().unicode_len() == 0;
        let due = self.deadline <= now;
        let claim = !fresh && match account {
            Some(id) => due || (report.drop_id != self.last_drop && !cache.contains(
                id,
                report.drop_id.as_str(),
            )),
            None => false,
        };
        let near = due || self.deadline - now <= TOLERANCE;
        let mut claimed: Option<String> = None;
        if claim {
            claimed = Some(self.last_drop.clone());
        }
        if claim || fresh {
            self.last_drop = report.drop_id.clone();
        }
        if claim || near {
            let remaining = if report.required_minutes > report.current_minutes {
                60 * (report.required_minutes - report.current_minutes)
            } else {
                0
            };
            self.deadline = now + remaining;
        }
        self.misses = 0;
        TrackerAction::Track {
            claim: claimed,
            watched: report.current_minutes,
            required: report.required_minutes,
            wait_secs: POLL_WAIT,
        }
    }
}

/// Three polls in a row without progress, counted from zero, give two
/// waits and then one stall, and leave the count at zero.
pub proof fn lemma_three_misses_stall_once(t: TrackerView)
    requires
        t.misses == 0,
    ensures
        ({
            let (t1, a1) = t.after_miss();
            let (t2, a2) = t1.after_miss();
            let (t3, a3) = t2.after_miss();
            &&& a1 == ActionView::Retry { wait_secs: RETRY_WAIT }
            &&& a2 == ActionView::Retry { wait_secs: RETRY_WAIT }
            &&& a3 == ActionView::Stall
            &&& t3.misses == 0
            &&& t3 == t
        }),
{
}

/// While the deadline has not passed, a report of a drop that the account
/// has claimed already never leads to a claim.
pub proof fn lemma_claimed_drop_is_skipped(
    t: TrackerView,
    report: ProgressView,
    claims: Set<Claim>,
    account: Seq<char>,
    now: u64,
)
    requires
        !t.due(now),
        claims.contains((account, report.drop_id)),
    ensures
        !(t.after_poll(report, Some(claims.contains((account, report.drop_id))), now).1 matches ActionView::Track {
            claim: Some(_),
            ..
        }),
{
}

/// While the deadline has not passed, a tracker whose last drop is not in
/// the account's claims only ever claims a drop that is not in them, and
/// once that claim is recorded its last drop is again not in them.
pub proof fn lemma_no_drop_claimed_twice(
    t: TrackerView,
    report: ProgressView,
    claims: Set<Claim>,
    account: Seq<char>,
    now: u64,
)
    requires
        !t.due(now),
        report.in_progress(),
        t.last_drop.len() > 0,
        !claims.contains((account, t.last_drop)),
    ensures
        ({
            let (next, action) = t.after_poll(
                report,
                Some(claims.contains((account, report.drop_id))),
                now,
            );
            match action {
                ActionView::Track { claim: Some(id), .. } => {
                    &&& !claims.contains((account, id))
                    &&& !claims.insert((account, id)).contains((account, next.last_drop))
                },
                _ => next.last_drop == t.last_drop,
            }
        }),
{
}

/// For an account without an id no drop is ever claimed.
pub proof fn lemma_unknown_account_claims_nothing(t: TrackerView, report: ProgressView, now: u64)
    ensures
        !(t.after_poll(report, None, now).1 matches ActionView::Track { claim: Some(_), .. }),
{
}

/// The estimate: whenever a poll sets the deadline anew, on a claim or with
/// the deadline near, the new deadline is `now` plus sixty seconds for every
/// minute that the drop still needs; a drop that has been watched for as
/// long as it needs, or longer, needs none, and the deadline is `now`.
pub proof fn lemma_deadline_estimate(
    t: TrackerView,
    report: ProgressView,
    cached: Option<bool>,
    now: u64,
)
    requires
        report.in_progress(),
        now + report.remaining_secs() <= u64::MAX,
        t.claims(report, cached, now) || t.nearly_due(now),
    ensures
        report.remaining_secs() >= 0,
        report.current_minutes < report.required_minutes ==> t.after_poll(
            report,
            cached,
            now,
        ).0.deadline == now + 60 * (report.required_minutes - report.current_minutes),
        report.current_minutes >= report.required_minutes ==> t.after_poll(
            report,
            cached,
            now,
        ).0.deadline == now,
{
}

} // verus!
