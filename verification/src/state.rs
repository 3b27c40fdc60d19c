//! The per-(user, round) attempt lifecycle and its legal transitions.

use vstd::prelude::*;

verus! {

/// Typed failures returned by the engine.
///
/// `NotFound` covers both "no eligible round or attempt" and a round with
/// no spare capacity: callers cannot distinguish the two, both mean "try
/// again or start fresh".  `StateConflict` marks a transition that is not
/// legal from the attempt's current state.
#[derive(Clone, Copy, Debug, PartialEq, Eq, Structural)]
pub enum EngineError {
    NotFound,
    StateConflict,
}

/// The state of one attempt.  Timestamps are seconds of Unix time.
///
/// `Active`, `Uploading` and `Pending` occupy a slot of their round;
/// `Cancelled`, `Expired`, `Approved` and `Rejected` are terminal.
#[derive(Clone, Copy, Debug, PartialEq, Eq, Structural)]
pub enum AttemptState {
    /// Work in progress; expires once `until` lies in the past.
    Active { until: i64 },
    /// The user gave the slot up.
    Cancelled { when: i64 },
    /// The sweeper found the attempt past its deadline.
    Expired { when: i64 },
    /// A submission is on its way; cancel and extend are locked out.
    Uploading { since: i64 },
    /// Submitted by an untrusted user; `what` awaits moderation.
    Pending { since: i64, what: u64 },
    /// Accepted work: `who` moderated, `what` is the final image.
    Approved { when: i64, who: u64, what: u64 },
    /// Declined work.
    Rejected { when: i64, who: u64, what: u64 },
}

impl AttemptState {
    /// States that count against their round's multiplex capacity.
    pub open spec fn occupies_slot(self) -> bool {
        match self {
            AttemptState::Active { .. } => true,
            AttemptState::Uploading { .. } => true,
            AttemptState::Pending { .. } => true,
            _ => false,
        }
    }

    /// States no transition may leave.
    pub open spec fn is_terminal(self) -> bool {
        !self.occupies_slot()
    }

    pub fn occupying(&self) -> (r: bool)
        ensures
            r == self.occupies_slot(),
    {
        match self {
            AttemptState::Active { .. } => true,
            AttemptState::Uploading { .. } => true,
            AttemptState::Pending { .. } => true,
            _ => false,
        }
    }

    pub fn terminal(&self) -> (r: bool)
        ensures
            r == self.is_terminal(),
    {
        !self.occupying()
    }
}

/// A trigger of the state machine, with its payload.
#[derive(Clone, Copy, Debug, PartialEq, Eq, Structural)]
pub enum AttemptEvent {
    /// Refresh an active attempt's deadline.
    Extend { until: i64 },
    /// The user cancels an active attempt.
    Cancel,
    /// The sweeper retires an active attempt whose deadline passed.
    Expire,
    /// The user begins a submission.
    BeginUpload,
    /// A trusted submitter's upload: approved at once, moderated by itself.
    SubmitTrusted { who: u64, what: u64 },
    /// An untrusted submitter's upload: parked for moderation.
    SubmitUntrusted { what: u64 },
    /// A moderator accepts pending work, possibly re-hosting the image.
    Approve { who: u64, what: u64 },
    /// A moderator declines pending work.
    Reject { who: u64, what: u64 },
}

/// The transition table.  `now` stamps the successor state; a pair the
/// table does not list is a state-check failure.
pub open spec fn spec_transition(s: AttemptState, e: AttemptEvent, now: i64) -> Result<
    AttemptState,
    EngineError,
> {
    match (s, e) {
        (AttemptState::Active { .. }, AttemptEvent::Extend { until }) => Ok(
            AttemptState::Active { until },
        ),
        (AttemptState::Active { .. }, AttemptEvent::Cancel) => Ok(
            AttemptState::Cancelled { when: now },
        ),
        (AttemptState::Active { until }, AttemptEvent::Expire) => if until < now {
            Ok(AttemptState::Expired { when: now })
        } else {
            Err(EngineError::StateConflict)
        },
        (AttemptState::Active { .. }, AttemptEvent::BeginUpload) => Ok(
            AttemptState::Uploading { since: now },
        ),
        (AttemptState::Uploading { .. }, AttemptEvent::SubmitTrusted { who, what }) => Ok(
            AttemptState::Approved { when: now, who, what },
        ),
        (AttemptState::Uploading { .. }, AttemptEvent::SubmitUntrusted { what }) => Ok(
            AttemptState::Pending { since: now, what },
        ),
        (AttemptState::Pending { .. }, AttemptEvent::Approve { who, what }) => Ok(
            AttemptState::Approved { when: now, who, what },
        ),
        (AttemptState::Pending { .. }, AttemptEvent::Reject { who, what }) => Ok(
            AttemptState::Rejected { when: now, who, what },
        ),
        _ => Err(EngineError::StateConflict),
    }
}

/// Apply one trigger to one attempt state.
pub fn transition(s: &AttemptState, e: &AttemptEvent, now: i64) -> (r: Result<
    AttemptState,
    EngineError,
>)
    ensures
        r == spec_transition(*s, *e, now),
{
    match (s, e) {
        (AttemptState::Active { .. }, AttemptEvent::Extend { until }) => Ok(
            AttemptState::Active { until: *until },
        ),
        (AttemptState::Active { .. }, AttemptEvent::Cancel) => Ok(
            AttemptState::Cancelled { when: now },
        ),
        (AttemptState::Active { until }, AttemptEvent::Expire) => if *until < now {
            Ok(AttemptState::Expired { when: now })
        } else {
            Err(EngineError::StateConflict)
        },
        (AttemptState::Active { .. }, AttemptEvent::BeginUpload) => Ok(
            AttemptState::Uploading { since: now },
        ),
        (AttemptState::Uploading { .. }, AttemptEvent::SubmitTrusted { who, what }) => Ok(
            AttemptState::Approved { when: now, who: *who, what: *what },
        ),
        (AttemptState::Uploading { .. }, AttemptEvent::SubmitUntrusted { what }) => Ok(
            AttemptState::Pending { since: now, what: *what },
        ),
        (AttemptState::Pending { .. }, AttemptEvent::Approve { who, what }) => Ok(
            AttemptState::Approved { when: now, who: *who, what: *what },
        ),
        (AttemptState::Pending { .. }, AttemptEvent::Reject { who, what }) => Ok(
            AttemptState::Rejected { when: now, who: *who, what: *what },
        ),
        _ => Err(EngineError::StateConflict),
    }
}

/// Attempt states are monotonic: no trigger leaves a terminal state.
/// In particular, replaying `Approve` on an approved attempt fails with
/// a state conflict instead of silently succeeding.
pub proof fn lemma_terminal_states_are_final(s: AttemptState, e: AttemptEvent, now: i64)
    requires
        s.is_terminal(),
    ensures
        spec_transition(s, e, now) == Err::<AttemptState, EngineError>(EngineError::StateConflict),
{
}

/// Every successful transition either keeps the attempt in a slot-occupying
/// state or retires it; it never revives a terminal state's slot.
pub proof fn lemma_transition_from_occupying(s: AttemptState, e: AttemptEvent, now: i64)
    requires
        spec_transition(s, e, now) is Ok,
    ensures
        s.occupies_slot(),
{
}

} // verus!
