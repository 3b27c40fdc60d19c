//! The round allocation and attempt-lifecycle engine.
//!
//! `Engine` models the game's shared state: the user directory, the round
//! slots of the lineage tree, every attempt ever made, and the lineage
//! edges that link approved work to the rounds it gave rise to.  Every
//! operation is a single all-or-nothing step on this state, mirroring the
//! one-transaction-per-operation contract the engine demands of a backing
//! store; an `Engine` value is therefore always observed between
//! transactions, where the well-formedness invariant [`Engine::wf`] holds.
//!
//! All timestamps are seconds of Unix time and are passed in by the
//! caller, so every operation is verified for every possible clock value.

use crate::game::{GameLogic, Mode};
use crate::state::{AttemptEvent, AttemptState, EngineError, spec_transition, transition};
use vstd::prelude::*;

verus! {

/// A registered user: external identity, display name, notification flag.
#[derive(Clone, Debug)]
pub struct UserRec {
    pub id: u64,
    pub name: String,
    pub created_at: i64,
    pub notify_once: bool,
}

/// One slot of the lineage tree.  Immutable once created.
#[derive(Clone, Copy, Debug, PartialEq, Eq, Structural)]
pub struct Round {
    pub mode: Mode,
    pub nsfw: bool,
    pub round_no: u64,
    pub multiplex: u64,
    pub created_at: i64,
}

impl Round {
    /// The successor slot this round spawns on approval: same mode and
    /// maturity flag, next round number, capacity set by the mode's policy.
    pub fn forward(&self, now: i64) -> (r: Round)
        requires
            self.round_no < u64::MAX,
        ensures
            r.mode == self.mode,
            r.nsfw == self.nsfw,
            r.round_no == self.round_no + 1,
            r.multiplex == self.mode.spec_multiplex((self.round_no + 1) as u64),
            r.created_at == now,
    {
        let round_no = self.round_no + 1;
        Round {
            mode: self.mode,
            nsfw: self.nsfw,
            round_no,
            multiplex: self.mode.multiplex(round_no),
            created_at: now,
        }
    }
}

/// One user's claim on one round, tracked through the state machine.
#[derive(Clone, Copy, Debug, PartialEq, Eq, Structural)]
pub struct Attempt {
    /// External id of the user making the attempt.
    pub user: u64,
    /// Index of the round the attempt sits on.
    pub round: usize,
    pub state: AttemptState,
    pub created_at: i64,
}

/// A directed link recording that the attempt (and everything before it)
/// preceded the round.
#[derive(Clone, Copy, Debug, PartialEq, Eq, Structural)]
pub struct LineageEdge {
    pub attempt: usize,
    pub round: usize,
}

/// What a successful allocation hands back: the round that was joined or
/// created, and the freshly created attempt.
#[derive(Clone, Copy, Debug, PartialEq, Eq, Structural)]
pub struct Allocation {
    pub round: usize,
    pub attempt: usize,
}

/// Number of slot-occupying attempts that sit on round `r`.
pub open spec fn count_occupying(s: Seq<Attempt>, r: int) -> int
    decreases s.len(),
{
    if s.len() == 0 {
        0
    } else {
        count_occupying(s.drop_last(), r) + if s.last().round == r
            && s.last().state.occupies_slot() {
            1int
        } else {
            0int
        }
    }
}

pub proof fn lemma_count_occupying_nonneg(s: Seq<Attempt>, r: int)
    ensures
        0 <= count_occupying(s, r) <= s.len(),
    decreases s.len(),
{
    if s.len() > 0 {
        lemma_count_occupying_nonneg(s.drop_last(), r);
    }
}

pub proof fn lemma_count_occupying_push(s: Seq<Attempt>, a: Attempt, r: int)
    ensures
        count_occupying(s.push(a), r) == count_occupying(s, r) + if a.round == r
            && a.state.occupies_slot() {
            1int
        } else {
            0int
        },
{
    assert(s.push(a).drop_last() =~= s);
}

pub proof fn lemma_count_occupying_update(s: Seq<Attempt>, i: int, a: Attempt, r: int)
    requires
        0 <= i < s.len(),
    ensures
        count_occupying(s.update(i, a), r) == count_occupying(s, r) - (if s[i].round == r
            && s[i].state.occupies_slot() {
            1int
        } else {
            0int
        }) + (if a.round == r && a.state.occupies_slot() {
            1int
        } else {
            0int
        }),
    decreases s.len(),
{
    if i == s.len() - 1 {
        assert(s.update(i, a).drop_last() =~= s.drop_last());
    } else {
        assert(s.update(i, a).drop_last() =~= s.drop_last().update(i, a));
        lemma_count_occupying_update(s.drop_last(), i, a, r);
    }
}

/// A round no attempt refers to holds no occupant.
pub proof fn lemma_count_occupying_zero(s: Seq<Attempt>, r: int)
    requires
        forall|i: int| 0 <= i < s.len() ==> (#[trigger] s[i]).round != r,
    ensures
        count_occupying(s, r) == 0,
    decreases s.len(),
{
    if s.len() > 0 {
        lemma_count_occupying_zero(s.drop_last(), r);
    }
}

/// Number of ancestors of round `r` contributed by user `uid`: lineage
/// edges into `r` whose attempt was made by `uid`.
pub open spec fn count_prior(
    edges: Seq<LineageEdge>,
    attempts: Seq<Attempt>,
    uid: u64,
    r: int,
) -> int
    decreases edges.len(),
{
    if edges.len() == 0 {
        0
    } else {
        count_prior(edges.drop_last(), attempts, uid, r) + if edges.last().round == r
            && 0 <= edges.last().attempt < attempts.len() && attempts[edges.last().attempt
            as int].user == uid {
            1int
        } else {
            0int
        }
    }
}

/// The engine's state.  The invariant [`Engine::wf`] ties the four tables
/// together; every constructor establishes it and every operation keeps it.
#[derive(Debug)]
pub struct Engine {
    pub users: Vec<UserRec>,
    pub rounds: Vec<Round>,
    pub attempts: Vec<Attempt>,
    pub lineage: Vec<LineageEdge>,
}

impl Engine {
    /// Some registered user carries the external id `uid`.
    pub open spec fn has_user(self, uid: u64) -> bool {
        exists|j: int| 0 <= j < self.users@.len() && (#[trigger] self.users@[j]).id == uid
    }

    /// External user ids are unique in the directory.
    pub open spec fn users_wf(self) -> bool {
        forall|i: int, j: int|
            0 <= i < j < self.users@.len() ==> (#[trigger] self.users@[i]).id != (
            #[trigger] self.users@[j]).id
    }

    /// Every attempt sits on an existing round and belongs to a
    /// registered user.
    pub open spec fn attempts_wf(self) -> bool {
        forall|i: int|
            0 <= i < self.attempts@.len() ==> (#[trigger] self.attempts@[i]).round
                < self.rounds@.len() && self.has_user(self.attempts@[i].user)
    }

    /// The capacity invariant: no round holds more slot-occupying
    /// attempts than its multiplex capacity.
    pub open spec fn capacity_wf(self) -> bool {
        forall|r: int|
            0 <= r < self.rounds@.len() ==> count_occupying(self.attempts@, r) <= (
            #[trigger] self.rounds@[r]).multiplex
    }

    /// The no-double-attempt invariant: a user holds at most one
    /// slot-occupying attempt on any given round.
    pub open spec fn no_double_wf(self) -> bool {
        forall|i: int, j: int|
            0 <= i < j < self.attempts@.len() && (#[trigger] self.attempts@[i]).round == (
            #[trigger] self.attempts@[j]).round && self.attempts@[i].user
                == self.attempts@[j].user ==> !(self.attempts@[i].state.occupies_slot()
                && self.attempts@[j].state.occupies_slot())
    }

    /// Lineage edges run from an approved attempt forward to a round
    /// created later, and no edge is recorded twice.
    pub open spec fn lineage_wf(self) -> bool {
        &&& forall|i: int|
            0 <= i < self.lineage@.len() ==> {
                let e = #[trigger] self.lineage@[i];
                &&& e.attempt < self.attempts@.len()
                &&& e.round < self.rounds@.len()
                &&& self.attempts@[e.attempt as int].round < e.round
                &&& self.attempts@[e.attempt as int].state is Approved
            }
        &&& forall|i: int, j: int|
            0 <= i < j < self.lineage@.len() ==> (#[trigger] self.lineage@[i]) != (
            #[trigger] self.lineage@[j])
    }

    /// Well-formedness of the whole state.
    pub open spec fn wf(self) -> bool {
        &&& self.users_wf()
        &&& self.attempts_wf()
        &&& self.capacity_wf()
        &&& self.no_double_wf()
        &&& self.lineage_wf()
    }

    /// Attempt `a` is recorded as an ancestor of round `r`.
    pub open spec fn is_ancestor(self, r: int, a: int) -> bool {
        exists|k: int|
            0 <= k < self.lineage@.len() && (#[trigger] self.lineage@[k]).attempt == a
                && self.lineage@[k].round == r
    }

    /// The ancestor set of round `r`.
    pub open spec fn ancestors(self, r: int) -> Set<int> {
        Set::new(|a: int| self.is_ancestor(r, a))
    }

    /// User `uid` holds a slot-occupying attempt on round `r`.
    pub open spec fn user_occupies(self, uid: u64, r: int) -> bool {
        exists|i: int|
            0 <= i < self.attempts@.len() && (#[trigger] self.attempts@[i]).user == uid
                && self.attempts@[i].round == r && self.attempts@[i].state.occupies_slot()
    }

    /// Round `r` carries the given mode, maturity flag and round number.
    pub open spec fn round_matches(self, r: int, mode: Mode, nsfw: bool, round_no: u64) -> bool {
        &&& 0 <= r < self.rounds@.len()
        &&& self.rounds@[r].mode == mode
        &&& self.rounds@[r].nsfw == nsfw
        &&& self.rounds@[r].round_no == round_no
    }

    /// Round `r` may admit a fresh attempt by `uid`: it matches the key,
    /// has spare capacity, and `uid` does not already occupy a slot on it.
    pub open spec fn eligible(self, uid: u64, mode: Mode, nsfw: bool, round_no: u64, r: int) -> bool {
        &&& self.round_matches(r, mode, nsfw, round_no)
        &&& count_occupying(self.attempts@, r) < self.rounds@[r].multiplex
        &&& !self.user_occupies(uid, r)
    }

    /// How many ancestors of round `r` were drawn by `uid`: the
    /// allocator's tie-break metric.
    pub open spec fn prior_appearances(self, uid: u64, r: int) -> int {
        count_prior(self.lineage@, self.attempts@, uid, r)
    }

    /// An empty engine: no users, rounds, attempts or lineage.
    pub fn new() -> (r: Engine)
        ensures
            r.wf(),
            r.users@.len() == 0,
            r.rounds@.len() == 0,
            r.attempts@.len() == 0,
            r.lineage@.len() == 0,
    {
        Engine { users: Vec::new(), rounds: Vec::new(), attempts: Vec::new(), lineage: Vec::new() }
    }
}

/// Membership in the user directory depends on the directory alone.
proof fn lemma_has_user_transfer(pre: Engine, post: Engine, uid: u64)
    requires
        pre.has_user(uid),
        post.users@ == pre.users@,
    ensures
        post.has_user(uid),
{
    let j = choose|j: int| 0 <= j < pre.users@.len() && (#[trigger] pre.users@[j]).id == uid;
    assert(0 <= j < post.users@.len() && post.users@[j].id == uid);
}

impl Engine {
    /// Open a fresh opening round (round number zero) holding one active
    /// attempt by `uid`, atomically.  Only round zero is ever created on
    /// a player's behalf; later rounds come from [`Self::forward_complete_round`].
    pub fn attempt_new_round(
        &mut self,
        uid: u64,
        mode: Mode,
        nsfw: bool,
        multiplex: u64,
        time_limit: i64,
        now: i64,
    ) -> (r: Allocation)
        requires
            old(self).wf(),
            old(self).has_user(uid),
            multiplex >= 1,
            i64::MIN <= now + time_limit <= i64::MAX,
        ensures
            final(self).wf(),
            final(self).users@ == old(self).users@,
            final(self).lineage@ == old(self).lineage@,
            r.round == old(self).rounds@.len(),
            r.attempt == old(self).attempts@.len(),
            final(self).rounds@ == old(self).rounds@.push(
                Round { mode, nsfw, round_no: 0, multiplex, created_at: now },
            ),
            final(self).attempts@ == old(self).attempts@.push(
                Attempt {
                    user: uid,
                    round: r.round,
                    state: AttemptState::Active { until: (now + time_limit) as i64 },
                    created_at: now,
                },
            ),
    {
        let round = Round { mode, nsfw, round_no: 0, multiplex, created_at: now };
        let rid = self.rounds.len();
        self.rounds.push(round);
        let attempt = Attempt {
            user: uid,
            round: rid,
            state: AttemptState::Active { until: now + time_limit },
            created_at: now,
        };
        let aid = self.attempts.len();
        self.attempts.push(attempt);
        proof {
            let post = *self;
            let pre = *old(self);
            assert forall|r2: int| 0 <= r2 < post.rounds@.len() implies count_occupying(
                post.attempts@,
                r2,
            ) <= post.rounds@[r2].multiplex by {
                lemma_count_occupying_push(pre.attempts@, attempt, r2);
                if r2 < pre.rounds@.len() {
                } else {
                    lemma_count_occupying_zero(pre.attempts@, r2);
                }
            }
            assert(post.users_wf());
            assert forall|i: int| 0 <= i < post.attempts@.len() implies (
            #[trigger] post.attempts@[i]).round < post.rounds@.len() && post.has_user(
                post.attempts@[i].user,
            ) by {
                if i < pre.attempts@.len() {
                    lemma_has_user_transfer(pre, post, pre.attempts@[i].user);
                } else {
                    lemma_has_user_transfer(pre, post, uid);
                }
            }
            assert(post.attempts_wf());
            assert(post.capacity_wf());
            assert(post.no_double_wf());
            assert(post.lineage_wf());
        }
        Allocation { round: rid, attempt: aid }
    }
}

/// Replacing one slot-occupying attempt's state in place preserves
/// well-formedness, because a successor state never occupies more than
/// its predecessor did.
proof fn lemma_wf_after_state_update(pre: Engine, post: Engine, i: int, new_state: AttemptState)
    requires
        pre.wf(),
        0 <= i < pre.attempts@.len(),
        pre.attempts@[i].state.occupies_slot(),
        post.users@ == pre.users@,
        post.rounds@ == pre.rounds@,
        post.lineage@ == pre.lineage@,
        post.attempts@ == pre.attempts@.update(
            i,
            Attempt { state: new_state, ..pre.attempts@[i] },
        ),
    ensures
        post.wf(),
{
    let updated = Attempt { state: new_state, ..pre.attempts@[i] };
    assert forall|k: int| 0 <= k < post.attempts@.len() implies (
    #[trigger] post.attempts@[k]).round < post.rounds@.len() && post.has_user(
        post.attempts@[k].user,
    ) by {
        lemma_has_user_transfer(pre, post, pre.attempts@[k].user);
    }
    assert forall|r: int| 0 <= r < post.rounds@.len() implies count_occupying(post.attempts@, r)
        <= (#[trigger] post.rounds@[r]).multiplex by {
        lemma_count_occupying_update(pre.attempts@, i, updated, r);
    }
    assert forall|k: int| 0 <= k < post.lineage@.len() implies {
        let e = #[trigger] post.lineage@[k];
        &&& e.attempt < post.attempts@.len()
        &&& e.round < post.rounds@.len()
        &&& post.attempts@[e.attempt as int].round < e.round
        &&& post.attempts@[e.attempt as int].state is Approved
    } by {
        let e = post.lineage@[k];
        assert(pre.attempts@[e.attempt as int].state is Approved);
        assert(e.attempt != i);
    }
}

impl Engine {
    /// Find the first attempt of `uid` that the event applies to, apply
    /// it, and store the successor state; the error when no attempt of
    /// `uid` is in the event's source state is `NotFound`, the store's
    /// "not found in expected prior state" check.
    fn apply_first(&mut self, uid: u64, ev: AttemptEvent, now: i64) -> (r: Result<
        usize,
        EngineError,
    >)
        requires
            old(self).wf(),
            !(ev is Expire),
        ensures
            final(self).wf(),
            final(self).users@ == old(self).users@,
            final(self).rounds@ == old(self).rounds@,
            final(self).lineage@ == old(self).lineage@,
            match r {
                Ok(i) => {
                    &&& 0 <= i < old(self).attempts@.len()
                    &&& old(self).attempts@[i as int].user == uid
                    &&& spec_transition(old(self).attempts@[i as int].state, ev, now) == Ok::<
                        AttemptState,
                        EngineError,
                    >(final(self).attempts@[i as int].state)
                    &&& final(self).attempts@ == old(self).attempts@.update(
                        i as int,
                        Attempt {
                            state: final(self).attempts@[i as int].state,
                            ..old(self).attempts@[i as int]
                        },
                    )
                    &&& forall|k: int|
                        0 <= k < i ==> !((#[trigger] old(self).attempts@[k]).user == uid
                            && spec_transition(old(self).attempts@[k].state, ev, now) is Ok)
                },
                Err(e) => {
                    &&& e == EngineError::NotFound
                    &&& final(self).attempts@ == old(self).attempts@
                    &&& forall|k: int|
                        0 <= k < old(self).attempts@.len() ==> !((
                        #[trigger] old(self).attempts@[k]).user == uid && spec_transition(
                            old(self).attempts@[k].state,
                            ev,
                            now,
                        ) is Ok)
                },
            },
    {
        let n = self.attempts.len();
        let mut i: usize = 0;
        while i < n
            invariant
                i <= n,
                n == self.attempts@.len(),
                *self == *old(self),
                old(self).wf(),
                !(ev is Expire),
                forall|k: int|
                    0 <= k < i ==> !((#[trigger] old(self).attempts@[k]).user == uid
                        && spec_transition(old(self).attempts@[k].state, ev, now) is Ok),
            decreases n - i,
        {
            let a = self.attempts[i];
            if a.user == uid {
                match transition(&a.state, &ev, now) {
                    Ok(new_state) => {
                        proof {
                            crate::state::lemma_transition_from_occupying(a.state, ev, now);
                        }
                        self.attempts[i] = Attempt {
                            user: a.user,
                            round: a.round,
                            state: new_state,
                            created_at: a.created_at,
                        };
                        proof {
                            lemma_wf_after_state_update(*old(self), *self, i as int, new_state);
                        }
                        return Ok(i);
                    },
                    Err(_) => {},
                }
            }
            i = i + 1;
        }
        Err(EngineError::NotFound)
    }
}

impl Engine {
    /// Refresh the deadline of `uid`'s active attempt to `now + time_limit`.
    pub fn extend_active_attempt(&mut self, uid: u64, time_limit: i64, now: i64) -> (r: Result<
        usize,
        EngineError,
    >)
        requires
            old(self).wf(),
            i64::MIN <= now + time_limit <= i64::MAX,
        ensures
            final(self).wf(),
            final(self).users@ == old(self).users@,
            final(self).rounds@ == old(self).rounds@,
            final(self).lineage@ == old(self).lineage@,
            match r {
                Ok(i) => {
                    &&& 0 <= i < old(self).attempts@.len()
                    &&& old(self).attempts@[i as int].user == uid
                    &&& old(self).attempts@[i as int].state is Active
                    &&& final(self).attempts@ == old(self).attempts@.update(
                        i as int,
                        Attempt {
                            state: AttemptState::Active { until: (now + time_limit) as i64 },
                            ..old(self).attempts@[i as int]
                        },
                    )
                    &&& forall|k: int|
                        0 <= k < i ==> !((#[trigger] old(self).attempts@[k]).user == uid && old(
                            self,
                        ).attempts@[k].state is Active)
                },
                Err(e) => {
                    &&& e == EngineError::NotFound
                    &&& final(self).attempts@ == old(self).attempts@
                    &&& forall|k: int|
                        0 <= k < old(self).attempts@.len() ==> !((
                        #[trigger] old(self).attempts@[k]).user == uid && old(
                            self,
                        ).attempts@[k].state is Active)
                },
            },
    {
        self.apply_first(uid, AttemptEvent::Extend { until: now + time_limit }, now)
    }

    /// Cancel `uid`'s active attempt, freeing its slot for good.
    pub fn cancel_active_attempt(&mut self, uid: u64, now: i64) -> (r: Result<usize, EngineError>)
        requires
            old(self).wf(),
        ensures
            final(self).wf(),
            final(self).users@ == old(self).users@,
            final(self).rounds@ == old(self).rounds@,
            final(self).lineage@ == old(self).lineage@,
            match r {
                Ok(i) => {
                    &&& 0 <= i < old(self).attempts@.len()
                    &&& old(self).attempts@[i as int].user == uid
                    &&& old(self).attempts@[i as int].state is Active
                    &&& final(self).attempts@ == old(self).attempts@.update(
                        i as int,
                        Attempt {
                            state: AttemptState::Cancelled { when: now },
                            ..old(self).attempts@[i as int]
                        },
                    )
                    &&& forall|k: int|
                        0 <= k < i ==> !((#[trigger] old(self).attempts@[k]).user == uid && old(
                            self,
                        ).attempts@[k].state is Active)
                },
                Err(e) => {
                    &&& e == EngineError::NotFound
                    &&& final(self).attempts@ == old(self).attempts@
                    &&& forall|k: int|
                        0 <= k < old(self).attempts@.len() ==> !((
                        #[trigger] old(self).attempts@[k]).user == uid && old(
                            self,
                        ).attempts@[k].state is Active)
                },
            },
    {
        self.apply_first(uid, AttemptEvent::Cancel, now)
    }

    /// Begin `uid`'s submission: the active attempt moves to `Uploading`
    /// and is locked against further cancel or extend requests.
    pub fn upload_active_attempt(&mut self, uid: u64, now: i64) -> (r: Result<usize, EngineError>)
        requires
            old(self).wf(),
        ensures
            final(self).wf(),
            final(self).users@ == old(self).users@,
            final(self).rounds@ == old(self).rounds@,
            final(self).lineage@ == old(self).lineage@,
            match r {
                Ok(i) => {
                    &&& 0 <= i < old(self).attempts@.len()
                    &&& old(self).attempts@[i as int].user == uid
                    &&& old(self).attempts@[i as int].state is Active
                    &&& final(self).attempts@ == old(self).attempts@.update(
                        i as int,
                        Attempt {
                            state: AttemptState::Uploading { since: now },
                            ..old(self).attempts@[i as int]
                        },
                    )
                    &&& forall|k: int|
                        0 <= k < i ==> !((#[trigger] old(self).attempts@[k]).user == uid && old(
                            self,
                        ).attempts@[k].state is Active)
                },
                Err(e) => {
                    &&& e == EngineError::NotFound
                    &&& final(self).attempts@ == old(self).attempts@
                    &&& forall|k: int|
                        0 <= k < old(self).attempts@.len() ==> !((
                        #[trigger] old(self).attempts@[k]).user == uid && old(
                            self,
                        ).attempts@[k].state is Active)
                },
            },
    {
        self.apply_first(uid, AttemptEvent::BeginUpload, now)
    }

    /// A trusted submitter's upload: `uid`'s uploading attempt is approved
    /// at once, with `moderator` recorded as such and `image_id`
    /// as the final image.
    pub fn approve_uploaded_attempt(&mut self, uid: u64, moderator: u64, image_id: u64, now: i64) -> (r:
        Result<usize, EngineError>)
        requires
            old(self).wf(),
        ensures
            final(self).wf(),
            final(self).users@ == old(self).users@,
            final(self).rounds@ == old(self).rounds@,
            final(self).lineage@ == old(self).lineage@,
            match r {
                Ok(i) => {
                    &&& 0 <= i < old(self).attempts@.len()
                    &&& old(self).attempts@[i as int].user == uid
                    &&& old(self).attempts@[i as int].state is Uploading
                    &&& final(self).attempts@ == old(self).attempts@.update(
                        i as int,
                        Attempt {
                            state: AttemptState::Approved { when: now, who: moderator, what: image_id },
                            ..old(self).attempts@[i as int]
                        },
                    )
                    &&& forall|k: int|
                        0 <= k < i ==> !((#[trigger] old(self).attempts@[k]).user == uid && old(
                            self,
                        ).attempts@[k].state is Uploading)
                },
                Err(e) => {
                    &&& e == EngineError::NotFound
                    &&& final(self).attempts@ == old(self).attempts@
                    &&& forall|k: int|
                        0 <= k < old(self).attempts@.len() ==> !((
                        #[trigger] old(self).attempts@[k]).user == uid && old(
                            self,
                        ).attempts@[k].state is Uploading)
                },
            },
    {
        self.apply_first(uid, AttemptEvent::SubmitTrusted { who: moderator, what: image_id }, now)
    }

    /// An untrusted submitter's upload: `uid`'s uploading attempt parks as
    /// `Pending` with `image_id`, awaiting moderation.
    pub fn moderate_uploaded_attempt(&mut self, uid: u64, image_id: u64, now: i64) -> (r: Result<
        usize,
        EngineError,
    >)
        requires
            old(self).wf(),
        ensures
            final(self).wf(),
            final(self).users@ == old(self).users@,
            final(self).rounds@ == old(self).rounds@,
            final(self).lineage@ == old(self).lineage@,
            match r {
                Ok(i) => {
                    &&& 0 <= i < old(self).attempts@.len()
                    &&& old(self).attempts@[i as int].user == uid
                    &&& old(self).attempts@[i as int].state is Uploading
                    &&& final(self).attempts@ == old(self).attempts@.update(
                        i as int,
                        Attempt {
                            state: AttemptState::Pending { since: now, what: image_id },
                            ..old(self).attempts@[i as int]
                        },
                    )
                    &&& forall|k: int|
                        0 <= k < i ==> !((#[trigger] old(self).attempts@[k]).user == uid && old(
                            self,
                        ).attempts@[k].state is Uploading)
                },
                Err(e) => {
                    &&& e == EngineError::NotFound
                    &&& final(self).attempts@ == old(self).attempts@
                    &&& forall|k: int|
                        0 <= k < old(self).attempts@.len() ==> !((
                        #[trigger] old(self).attempts@[k]).user == uid && old(
                            self,
                        ).attempts@[k].state is Uploading)
                },
            },
    {
        self.apply_first(uid, AttemptEvent::SubmitUntrusted { what: image_id }, now)
    }

    /// A moderator accepts `uid`'s pending work.  The image reference is
    /// the one the moderator hands in, which may differ from the pending
    /// one if the asset was re-hosted.
    pub fn approve_pending_attempt(&mut self, uid: u64, moderator: u64, image_id: u64, now: i64) -> (r:
        Result<usize, EngineError>)
        requires
            old(self).wf(),
        ensures
            final(self).wf(),
            final(self).users@ == old(self).users@,
            final(self).rounds@ == old(self).rounds@,
            final(self).lineage@ == old(self).lineage@,
            match r {
                Ok(i) => {
                    &&& 0 <= i < old(self).attempts@.len()
                    &&& old(self).attempts@[i as int].user == uid
                    &&& old(self).attempts@[i as int].state is Pending
                    &&& final(self).attempts@ == old(self).attempts@.update(
                        i as int,
                        Attempt {
                            state: AttemptState::Approved { when: now, who: moderator, what: image_id },
                            ..old(self).attempts@[i as int]
                        },
                    )
                    &&& forall|k: int|
                        0 <= k < i ==> !((#[trigger] old(self).attempts@[k]).user == uid && old(
                            self,
                        ).attempts@[k].state is Pending)
                },
                Err(e) => {
                    &&& e == EngineError::NotFound
                    &&& final(self).attempts@ == old(self).attempts@
                    &&& forall|k: int|
                        0 <= k < old(self).attempts@.len() ==> !((
                        #[trigger] old(self).attempts@[k]).user == uid && old(
                            self,
                        ).attempts@[k].state is Pending)
                },
            },
    {
        self.apply_first(uid, AttemptEvent::Approve { who: moderator, what: image_id }, now)
    }

    /// A moderator declines `uid`'s pending work.
    pub fn reject_pending_attempt(&mut self, uid: u64, moderator: u64, image_id: u64, now: i64) -> (r:
        Result<usize, EngineError>)
        requires
            old(self).wf(),
        ensures
            final(self).wf(),
            final(self).users@ == old(self).users@,
            final(self).rounds@ == old(self).rounds@,
            final(self).lineage@ == old(self).lineage@,
            match r {
                Ok(i) => {
                    &&& 0 <= i < old(self).attempts@.len()
                    &&& old(self).attempts@[i as int].user == uid
                    &&& old(self).attempts@[i as int].state is Pending
                    &&& final(self).attempts@ == old(self).attempts@.update(
                        i as int,
                        Attempt {
                            state: AttemptState::Rejected { when: now, who: moderator, what: image_id },
                            ..old(self).attempts@[i as int]
                        },
                    )
                    &&& forall|k: int|
                        0 <= k < i ==> !((#[trigger] old(self).attempts@[k]).user == uid && old(
                            self,
                        ).attempts@[k].state is Pending)
                },
                Err(e) => {
                    &&& e == EngineError::NotFound
                    &&& final(self).attempts@ == old(self).attempts@
                    &&& forall|k: int|
                        0 <= k < old(self).attempts@.len() ==> !((
                        #[trigger] old(self).attempts@[k]).user == uid && old(
                            self,
                        ).attempts@[k].state is Pending)
                },
            },
    {
        self.apply_first(uid, AttemptEvent::Reject { who: moderator, what: image_id }, now)
    }
}

/// What the sweeper does to one attempt at time `now`: an active attempt
/// whose deadline has passed is retired, everything else is untouched.
pub open spec fn sweep_one(a: Attempt, now: i64) -> Attempt {
    if a.state is Active && a.state->Active_until < now {
        Attempt { state: AttemptState::Expired { when: now }, ..a }
    } else {
        a
    }
}

/// What the sweeper does to the whole attempt table at time `now`.
pub open spec fn sweep_model(s: Seq<Attempt>, now: i64) -> Seq<Attempt> {
    Seq::new(s.len(), |i: int| sweep_one(s[i], now))
}

/// How many attempts the sweeper would retire at time `now`.
pub open spec fn expired_count(s: Seq<Attempt>, now: i64) -> int
    decreases s.len(),
{
    if s.len() == 0 {
        0
    } else {
        expired_count(s.drop_last(), now) + if s.last().state is Active
            && s.last().state->Active_until < now {
            1int
        } else {
            0int
        }
    }
}

proof fn lemma_count_occupying_sweep(s: Seq<Attempt>, now: i64, r: int)
    ensures
        count_occupying(sweep_model(s, now), r) <= count_occupying(s, r),
    decreases s.len(),
{
    if s.len() > 0 {
        assert(sweep_model(s, now).drop_last() =~= sweep_model(s.drop_last(), now));
        lemma_count_occupying_sweep(s.drop_last(), now, r);
    }
}

/// Sweeping is idempotent: a second sweep with no elapsed time finds
/// nothing left to retire and changes nothing.
pub proof fn lemma_sweep_idempotent(s: Seq<Attempt>, now: i64)
    ensures
        sweep_model(sweep_model(s, now), now) == sweep_model(s, now),
        expired_count(sweep_model(s, now), now) == 0,
    decreases s.len(),
{
    assert(sweep_model(sweep_model(s, now), now) =~= sweep_model(s, now));
    if s.len() > 0 {
        assert(sweep_model(s, now).drop_last() =~= sweep_model(s.drop_last(), now));
        lemma_sweep_idempotent(s.drop_last(), now);
    }
}

/// The sweep leaves well-formedness intact: it only ever turns occupants
/// into non-occupants.
proof fn lemma_wf_after_sweep(pre: Engine, post: Engine, now: i64)
    requires
        pre.wf(),
        post.users@ == pre.users@,
        post.rounds@ == pre.rounds@,
        post.lineage@ == pre.lineage@,
        post.attempts@ == sweep_model(pre.attempts@, now),
    ensures
        post.wf(),
{
    assert forall|k: int| 0 <= k < post.attempts@.len() implies (
    #[trigger] post.attempts@[k]).round < post.rounds@.len() && post.has_user(
        post.attempts@[k].user,
    ) by {
        lemma_has_user_transfer(pre, post, pre.attempts@[k].user);
    }
    assert forall|r: int| 0 <= r < post.rounds@.len() implies count_occupying(post.attempts@, r)
        <= (#[trigger] post.rounds@[r]).multiplex by {
        lemma_count_occupying_sweep(pre.attempts@, now, r);
    }
}

impl Engine {
    /// The sweeper: retire every active attempt whose deadline lies
    /// before `now`, in one bulk step, and report the retired attempts.
    pub fn expire_active_attempts(&mut self, now: i64) -> (expired: Vec<usize>)
        requires
            old(self).wf(),
        ensures
            final(self).wf(),
            final(self).users@ == old(self).users@,
            final(self).rounds@ == old(self).rounds@,
            final(self).lineage@ == old(self).lineage@,
            final(self).attempts@ == sweep_model(old(self).attempts@, now),
            expired@.len() == expired_count(old(self).attempts@, now),
            forall|j1: int, j2: int| 0 <= j1 < j2 < expired@.len() ==> expired@[j1] < expired@[j2],
            forall|j: int|
                0 <= j < expired@.len() ==> 0 <= expired@[j] < old(self).attempts@.len() && old(
                    self,
                ).attempts@[expired@[j] as int].state is Active && old(
                    self,
                ).attempts@[expired@[j] as int].state->Active_until < now,
            forall|k: int|
                0 <= k < old(self).attempts@.len() && (#[trigger] old(
                    self,
                ).attempts@[k]).state is Active && old(self).attempts@[k].state->Active_until < now
                    ==> expired@.contains(k as usize),
    {
        let ghost pre = *old(self);
        let n = self.attempts.len();
        let mut expired: Vec<usize> = Vec::new();
        let mut i: usize = 0;
        while i < n
            invariant
                i <= n,
                n == pre.attempts@.len(),
                self.attempts@.len() == n,
                self.users@ == pre.users@,
                self.rounds@ == pre.rounds@,
                self.lineage@ == pre.lineage@,
                forall|k: int| i <= k < n ==> self.attempts@[k] == pre.attempts@[k],
                forall|k: int| 0 <= k < i ==> self.attempts@[k] == sweep_one(pre.attempts@[k], now),
                expired@.len() == expired_count(pre.attempts@.take(i as int), now),
                forall|j1: int, j2: int|
                    0 <= j1 < j2 < expired@.len() ==> expired@[j1] < expired@[j2],
                forall|j: int|
                    0 <= j < expired@.len() ==> 0 <= expired@[j] < i
                        && pre.attempts@[expired@[j] as int].state is Active
                        && pre.attempts@[expired@[j] as int].state->Active_until < now,
                forall|k: int|
                    0 <= k < i && (#[trigger] pre.attempts@[k]).state is Active
                        && pre.attempts@[k].state->Active_until < now ==> expired@.contains(
                        k as usize,
                    ),
            decreases n - i,
        {
            proof {
                assert(pre.attempts@.take(i + 1).drop_last() =~= pre.attempts@.take(i as int));
            }
            let a = self.attempts[i];
            match a.state {
                AttemptState::Active { until } if until < now => {
                    self.attempts[i] = Attempt {
                        user: a.user,
                        round: a.round,
                        state: AttemptState::Expired { when: now },
                        created_at: a.created_at,
                    };
                    let ghost prev = expired@;
                    expired.push(i);
                    proof {
                        assert forall|k: int|
                            0 <= k <= i && (#[trigger] pre.attempts@[k]).state is Active
                                && pre.attempts@[k].state->Active_until < now implies expired@.contains(
                            k as usize,
                        ) by {
                            if k < i {
                                let j = choose|j: int|
                                    0 <= j < prev.len() && prev[j] == k as usize;
                                assert(expired@[j] == k as usize);
                            } else {
                                assert(expired@[prev.len() as int] == i as usize);
                            }
                        }
                    }
                },
                _ => {},
            }
            i = i + 1;
        }
        proof {
            assert(pre.attempts@.take(n as int) =~= pre.attempts@);
            assert(self.attempts@ =~= sweep_model(pre.attempts@, now));
            lemma_wf_after_sweep(pre, *self, now);
        }
        expired
    }

    /// The round and attempt `uid` is currently working on, if any.
    pub fn get_active_round(&self, uid: u64) -> (r: Option<Allocation>)
        ensures
            match r {
                Some(al) => {
                    &&& 0 <= al.attempt < self.attempts@.len()
                    &&& self.attempts@[al.attempt as int].user == uid
                    &&& self.attempts@[al.attempt as int].state is Active
                    &&& al.round == self.attempts@[al.attempt as int].round
                    &&& forall|k: int|
                        0 <= k < al.attempt ==> !((#[trigger] self.attempts@[k]).user == uid
                            && self.attempts@[k].state is Active)
                },
                None => forall|k: int|
                    0 <= k < self.attempts@.len() ==> !((#[trigger] self.attempts@[k]).user == uid
                        && self.attempts@[k].state is Active),
            },
    {
        let n = self.attempts.len();
        let mut i: usize = 0;
        while i < n
            invariant
                i <= n,
                n == self.attempts@.len(),
                forall|k: int|
                    0 <= k < i ==> !((#[trigger] self.attempts@[k]).user == uid
                        && self.attempts@[k].state is Active),
            decreases n - i,
        {
            let a = self.attempts[i];
            let is_active = match a.state {
                AttemptState::Active { .. } => true,
                _ => false,
            };
            if a.user == uid && is_active {
                return Some(Allocation { round: a.round, attempt: i });
            }
            i = i + 1;
        }
        None
    }

    /// The pending attempt whose stored image reference is `image_id`:
    /// how a moderation verdict on a posted image finds its attempt.
    pub fn get_pending_attempt(&self, image_id: u64) -> (r: Result<usize, EngineError>)
        ensures
            match r {
                Ok(i) => {
                    &&& 0 <= i < self.attempts@.len()
                    &&& self.attempts@[i as int].state is Pending
                    &&& self.attempts@[i as int].state->Pending_what == image_id
                    &&& forall|k: int|
                        0 <= k < i ==> !((#[trigger] self.attempts@[k]).state is Pending
                            && self.attempts@[k].state->Pending_what == image_id)
                },
                Err(e) => {
                    &&& e == EngineError::NotFound
                    &&& forall|k: int|
                        0 <= k < self.attempts@.len() ==> !((
                        #[trigger] self.attempts@[k]).state is Pending
                            && self.attempts@[k].state->Pending_what == image_id)
                },
            },
    {
        let n = self.attempts.len();
        let mut i: usize = 0;
        while i < n
            invariant
                i <= n,
                n == self.attempts@.len(),
                forall|k: int|
                    0 <= k < i ==> !((#[trigger] self.attempts@[k]).state is Pending
                        && self.attempts@[k].state->Pending_what == image_id),
            decreases n - i,
        {
            let a = self.attempts[i];
            match a.state {
                AttemptState::Pending { what, .. } if what == image_id => {
                    return Ok(i);
                },
                _ => {},
            }
            i = i + 1;
        }
        Err(EngineError::NotFound)
    }

    /// Active attempts whose deadline falls in the window `(after, until]`:
    /// what an expiry warning wants to know.
    pub fn get_active_between(&self, after: i64, until: i64) -> (r: Vec<usize>)
        ensures
            forall|j1: int, j2: int| 0 <= j1 < j2 < r@.len() ==> r@[j1] < r@[j2],
            forall|j: int|
                0 <= j < r@.len() ==> 0 <= r@[j] < self.attempts@.len()
                    && self.attempts@[r@[j] as int].state is Active && after < self.attempts@[r@[j]
                    as int].state->Active_until <= until,
            forall|k: int|
                0 <= k < self.attempts@.len() && (#[trigger] self.attempts@[k]).state is Active
                    && after < self.attempts@[k].state->Active_until <= until ==> r@.contains(
                    k as usize,
                ),
    {
        let n = self.attempts.len();
        let mut found: Vec<usize> = Vec::new();
        let mut i: usize = 0;
        while i < n
            invariant
                i <= n,
                n == self.attempts@.len(),
                forall|j1: int, j2: int| 0 <= j1 < j2 < found@.len() ==> found@[j1] < found@[j2],
                forall|j: int|
                    0 <= j < found@.len() ==> 0 <= found@[j] < i && self.attempts@[found@[j]
                        as int].state is Active && after < self.attempts@[found@[j]
                        as int].state->Active_until <= until,
                forall|k: int|
                    0 <= k < i && (#[trigger] self.attempts@[k]).state is Active && after
                        < self.attempts@[k].state->Active_until <= until ==> found@.contains(
                        k as usize,
                    ),
            decreases n - i,
        {
            let a = self.attempts[i];
            match a.state {
                AttemptState::Active { until: u } if after < u && u <= until => {
                    let ghost prev = found@;
                    found.push(i);
                    proof {
                        assert forall|k: int|
                            0 <= k <= i && (#[trigger] self.attempts@[k]).state is Active && after
                                < self.attempts@[k].state->Active_until <= until implies found@.contains(
                            k as usize,
                        ) by {
                            if k < i {
                                let j = choose|j: int|
                                    0 <= j < prev.len() && prev[j] == k as usize;
                                assert(found@[j] == k as usize);
                            } else {
                                assert(found@[prev.len() as int] == i as usize);
                            }
                        }
                    }
                },
                _ => {},
            }
            i = i + 1;
        }
        found
    }
}

/// Appending a fresh attempt keeps the state well-formed, provided the
/// attempt's round has spare capacity and its user no slot there yet.
proof fn lemma_wf_after_attempt_push(pre: Engine, post: Engine, a: Attempt)
    requires
        pre.wf(),
        pre.has_user(a.user),
        0 <= a.round < pre.rounds@.len(),
        count_occupying(pre.attempts@, a.round as int) < pre.rounds@[a.round as int].multiplex,
        !pre.user_occupies(a.user, a.round as int),
        post.users@ == pre.users@,
        post.rounds@ == pre.rounds@,
        post.lineage@ == pre.lineage@,
        post.attempts@ == pre.attempts@.push(a),
    ensures
        post.wf(),
{
    let olen = pre.attempts@.len() as int;
    assert forall|k: int| 0 <= k < post.attempts@.len() implies (
    #[trigger] post.attempts@[k]).round < post.rounds@.len() && post.has_user(
        post.attempts@[k].user,
    ) by {
        if k < olen {
            lemma_has_user_transfer(pre, post, pre.attempts@[k].user);
        } else {
            lemma_has_user_transfer(pre, post, a.user);
        }
    }
    assert forall|r: int| 0 <= r < post.rounds@.len() implies count_occupying(post.attempts@, r)
        <= (#[trigger] post.rounds@[r]).multiplex by {
        lemma_count_occupying_push(pre.attempts@, a, r);
    }
    assert forall|i: int, j: int|
        0 <= i < j < post.attempts@.len() && (#[trigger] post.attempts@[i]).round == (
        #[trigger] post.attempts@[j]).round && post.attempts@[i].user
            == post.attempts@[j].user implies !(post.attempts@[i].state.occupies_slot()
        && post.attempts@[j].state.occupies_slot()) by {
        if j == olen {
            if post.attempts@[i].round == a.round && post.attempts@[i].user == a.user
                && post.attempts@[i].state.occupies_slot() {
                assert(pre.user_occupies(a.user, a.round as int));
            }
        }
    }
}

impl Engine {
    /// How many slot-occupying attempts round `r` holds.
    pub fn occupant_count(&self, r: usize) -> (c: usize)
        ensures
            c == count_occupying(self.attempts@, r as int),
    {
        let n = self.attempts.len();
        let mut c: usize = 0;
        let mut i: usize = 0;
        while i < n
            invariant
                i <= n,
                n == self.attempts@.len(),
                c <= i,
                c == count_occupying(self.attempts@.take(i as int), r as int),
            decreases n - i,
        {
            proof {
                assert(self.attempts@.take(i + 1).drop_last() =~= self.attempts@.take(i as int));
            }
            let a = self.attempts[i];
            if a.round == r && a.state.occupying() {
                c = c + 1;
            }
            i = i + 1;
        }
        proof {
            assert(self.attempts@.take(n as int) =~= self.attempts@);
        }
        c
    }

    /// Whether `uid` already holds a slot-occupying attempt on round `r`.
    pub fn user_occupies_round(&self, uid: u64, r: usize) -> (b: bool)
        ensures
            b == self.user_occupies(uid, r as int),
    {
        let n = self.attempts.len();
        let mut i: usize = 0;
        while i < n
            invariant
                i <= n,
                n == self.attempts@.len(),
                forall|k: int|
                    0 <= k < i ==> !((#[trigger] self.attempts@[k]).user == uid
                        && self.attempts@[k].round == r && self.attempts@[k].state.occupies_slot()),
            decreases n - i,
        {
            let a = self.attempts[i];
            if a.user == uid && a.round == r && a.state.occupying() {
                return true;
            }
            i = i + 1;
        }
        false
    }

    /// The allocator's tie-break metric: how many ancestors of round `r`
    /// were drawn by `uid`.
    pub fn prior_count(&self, uid: u64, r: usize) -> (c: usize)
        ensures
            c == count_prior(self.lineage@, self.attempts@, uid, r as int),
    {
        let n = self.lineage.len();
        let na = self.attempts.len();
        let mut c: usize = 0;
        let mut i: usize = 0;
        while i < n
            invariant
                i <= n,
                n == self.lineage@.len(),
                na == self.attempts@.len(),
                c <= i,
                c == count_prior(self.lineage@.take(i as int), self.attempts@, uid, r as int),
            decreases n - i,
        {
            proof {
                assert(self.lineage@.take(i + 1).drop_last() =~= self.lineage@.take(i as int));
            }
            let e = self.lineage[i];
            if e.round == r && e.attempt < na && self.attempts[e.attempt].user == uid {
                c = c + 1;
            }
            i = i + 1;
        }
        proof {
            assert(self.lineage@.take(n as int) =~= self.lineage@);
        }
        c
    }

    /// Whether round `r` may admit a fresh attempt by `uid` for the key
    /// (mode, nsfw, round_no).
    pub fn is_eligible(&self, uid: u64, mode: Mode, nsfw: bool, round_no: u64, r: usize) -> (b:
        bool)
        requires
            r < self.rounds@.len(),
        ensures
            b == self.eligible(uid, mode, nsfw, round_no, r as int),
    {
        let rd = self.rounds[r];
        if !(rd.mode == mode && rd.nsfw == nsfw && rd.round_no == round_no) {
            return false;
        }
        let occupied = self.occupant_count(r);
        if !((occupied as u64) < rd.multiplex) {
            return false;
        }
        !self.user_occupies_round(uid, r)
    }

    /// Join an existing round: among the rounds carrying the requested
    /// key that have spare capacity and no slot held by `uid`, pick one
    /// where `uid` appears least often in the ancestor chain (spreading a
    /// player's contributions across branches), breaking remaining ties
    /// by `seed`; record `uid`'s active attempt on it.  Rounds past zero
    /// are never created here: with no eligible round the result is
    /// `NotFound`, which also covers "every matching round is full".
    pub fn attempt_existing_round(
        &mut self,
        uid: u64,
        mode: Mode,
        nsfw: bool,
        round_no: u64,
        time_limit: i64,
        now: i64,
        seed: u64,
    ) -> (r: Result<Allocation, EngineError>)
        requires
            old(self).wf(),
            old(self).has_user(uid),
            i64::MIN <= now + time_limit <= i64::MAX,
        ensures
            final(self).wf(),
            final(self).users@ == old(self).users@,
            final(self).rounds@ == old(self).rounds@,
            final(self).lineage@ == old(self).lineage@,
            match r {
                Ok(al) => {
                    &&& old(self).eligible(uid, mode, nsfw, round_no, al.round as int)
                    &&& forall|r2: int|
                        old(self).eligible(uid, mode, nsfw, round_no, r2) ==> old(
                            self,
                        ).prior_appearances(uid, al.round as int) <= old(self).prior_appearances(
                            uid,
                            r2,
                        )
                    &&& al.attempt == old(self).attempts@.len()
                    &&& final(self).attempts@ == old(self).attempts@.push(
                        Attempt {
                            user: uid,
                            round: al.round,
                            state: AttemptState::Active { until: (now + time_limit) as i64 },
                            created_at: now,
                        },
                    )
                },
                Err(e) => {
                    &&& e == EngineError::NotFound
                    &&& final(self).attempts@ == old(self).attempts@
                    &&& forall|r2: int| !old(self).eligible(uid, mode, nsfw, round_no, r2)
                },
            },
    {
        let nr = self.rounds.len();
        let mut have_best: bool = false;
        let mut best_r: usize = 0;
        let mut best_p: usize = 0;
        let mut r: usize = 0;
        while r < nr
            invariant
                r <= nr,
                nr == self.rounds@.len(),
                *self == *old(self),
                !have_best ==> forall|k: int|
                    0 <= k < r ==> !self.eligible(uid, mode, nsfw, round_no, k),
                have_best ==> {
                    &&& best_r < r
                    &&& self.eligible(uid, mode, nsfw, round_no, best_r as int)
                    &&& best_p == self.prior_appearances(uid, best_r as int)
                    &&& forall|k: int|
                        0 <= k < r && self.eligible(uid, mode, nsfw, round_no, k) ==> best_p
                            <= self.prior_appearances(uid, k)
                },
            decreases nr - r,
        {
            if self.is_eligible(uid, mode, nsfw, round_no, r) {
                let p = self.prior_count(uid, r);
                if !have_best || p < best_p {
                    have_best = true;
                    best_r = r;
                    best_p = p;
                }
            }
            r = r + 1;
        }
        if !have_best {
            return Err(EngineError::NotFound);
        }
        let mut cands: Vec<usize> = Vec::new();
        let mut r2: usize = 0;
        while r2 < nr
            invariant
                r2 <= nr,
                nr == self.rounds@.len(),
                *self == *old(self),
                best_r < nr,
                self.eligible(uid, mode, nsfw, round_no, best_r as int),
                best_p == self.prior_appearances(uid, best_r as int),
                forall|j: int|
                    0 <= j < cands@.len() ==> {
                        &&& 0 <= (#[trigger] cands@[j]) < nr
                        &&& self.eligible(uid, mode, nsfw, round_no, cands@[j] as int)
                        &&& best_p == self.prior_appearances(uid, cands@[j] as int)
                    },
                r2 > best_r ==> cands@.len() > 0,
            decreases nr - r2,
        {
            if self.is_eligible(uid, mode, nsfw, round_no, r2) {
                let p = self.prior_count(uid, r2);
                if p == best_p {
                    cands.push(r2);
                }
            }
            r2 = r2 + 1;
        }
        let pick = (seed % (cands.len() as u64)) as usize;
        let chosen = cands[pick];
        let attempt = Attempt {
            user: uid,
            round: chosen,
            state: AttemptState::Active { until: now + time_limit },
            created_at: now,
        };
        let aid = self.attempts.len();
        self.attempts.push(attempt);
        proof {
            lemma_wf_after_attempt_push(*old(self), *self, attempt);
        }
        Ok(Allocation { round: chosen, attempt: aid })
    }
}

/// The intermediate state of [`Engine::forward_complete_round`]: the
/// successor round is pushed, `copied` extends the old lineage table
/// with one copy of each edge that pointed into the predecessor round,
/// and the direct edge from the approved attempt tops it off.
spec fn forward_mid(
    pre: Engine,
    post: Engine,
    copied: Seq<LineageEdge>,
    attempt_id: usize,
    pred_idx: usize,
    new_rid: usize,
    now: i64,
) -> bool {
    &&& pre.wf()
    &&& attempt_id < pre.attempts@.len()
    &&& pre.attempts@[attempt_id as int].state is Approved
    &&& pred_idx == pre.attempts@[attempt_id as int].round
    &&& new_rid == pre.rounds@.len()
    &&& post.users@ == pre.users@
    &&& post.attempts@ == pre.attempts@
    &&& post.rounds@ == pre.rounds@.push(successor_round(pre.rounds@[pred_idx as int], now))
    &&& copied.len() >= pre.lineage@.len()
    &&& forall|k: int| 0 <= k < pre.lineage@.len() ==> copied[k] == pre.lineage@[k]
    &&& forall|k: int|
        pre.lineage@.len() <= k < copied.len() ==> {
            let e = #[trigger] copied[k];
            &&& e.round == new_rid
            &&& e.attempt < pre.attempts@.len()
            &&& pre.attempts@[e.attempt as int].round < pred_idx
            &&& pre.attempts@[e.attempt as int].state is Approved
        }
    &&& forall|k: int|
        pre.lineage@.len() <= k < copied.len() ==> exists|s: int|
            0 <= s < pre.lineage@.len() && (#[trigger] pre.lineage@[s]) == (LineageEdge {
                attempt: (#[trigger] copied[k]).attempt,
                round: pred_idx,
            })
    &&& forall|s: int|
        0 <= s < pre.lineage@.len() && (#[trigger] pre.lineage@[s]).round == pred_idx
            ==> exists|k: int|
            pre.lineage@.len() <= k < copied.len() && (#[trigger] copied[k]).attempt
                == pre.lineage@[s].attempt
    &&& forall|k1: int, k2: int|
        pre.lineage@.len() <= k1 < k2 < copied.len() ==> (#[trigger] copied[k1]).attempt != (
        #[trigger] copied[k2]).attempt
    &&& post.lineage@ == copied.push(LineageEdge { attempt: attempt_id, round: new_rid })
}

/// From the intermediate state, the grown lineage table is well formed.
proof fn lemma_forward_wf(
    pre: Engine,
    post: Engine,
    copied: Seq<LineageEdge>,
    attempt_id: usize,
    pred_idx: usize,
    new_rid: usize,
    now: i64,
)
    requires
        forward_mid(pre, post, copied, attempt_id, pred_idx, new_rid, now),
    ensures
        post.wf(),
{
    let n_edges = pre.lineage@.len() as int;
    let direct = LineageEdge { attempt: attempt_id, round: new_rid };
    let plen = post.lineage@.len() as int;
    assert(post.lineage@[plen - 1] == direct);
    assert forall|k: int| 0 <= k < copied.len() implies post.lineage@[k] == copied[k] by {}
    assert forall|k: int| 0 <= k < plen implies {
        let e = #[trigger] post.lineage@[k];
        &&& e.attempt < post.attempts@.len()
        &&& e.round < post.rounds@.len()
        &&& post.attempts@[e.attempt as int].round < e.round
        &&& post.attempts@[e.attempt as int].state is Approved
    } by {
        if k < n_edges {
            assert(post.lineage@[k] == pre.lineage@[k]);
            assert(pre.lineage@[k].attempt < pre.attempts@.len());
        } else if k < copied.len() {
            assert(post.lineage@[k] == copied[k]);
            assert(pre.attempts@[copied[k].attempt as int].round < pred_idx);
        } else {
            assert(post.lineage@[k] == direct);
        }
    }
    assert forall|k1: int, k2: int| 0 <= k1 < k2 < plen implies (#[trigger] post.lineage@[k1]) != (
    #[trigger] post.lineage@[k2]) by {
        if k2 < n_edges {
            assert(post.lineage@[k1] == pre.lineage@[k1]);
            assert(post.lineage@[k2] == pre.lineage@[k2]);
        } else if k1 < n_edges {
            assert(post.lineage@[k1] == pre.lineage@[k1]);
            assert(pre.lineage@[k1].round < pre.rounds@.len());
            assert(post.lineage@[k2].round == new_rid);
        } else if k2 < copied.len() {
            assert(post.lineage@[k1] == copied[k1]);
            assert(post.lineage@[k2] == copied[k2]);
            assert(copied[k1].attempt != copied[k2].attempt);
        } else {
            assert(post.lineage@[k1] == copied[k1]);
            assert(pre.attempts@[copied[k1].attempt as int].round < pred_idx);
            assert(pre.attempts@[attempt_id as int].round == pred_idx);
        }
    }
    assert forall|k: int| 0 <= k < post.attempts@.len() implies (
    #[trigger] post.attempts@[k]).round < post.rounds@.len() && post.has_user(
        post.attempts@[k].user,
    ) by {
        lemma_has_user_transfer(pre, post, pre.attempts@[k].user);
    }
    assert forall|r2: int| 0 <= r2 < post.rounds@.len() implies count_occupying(post.attempts@, r2)
        <= (#[trigger] post.rounds@[r2]).multiplex by {
        if r2 == new_rid {
            lemma_count_occupying_zero(post.attempts@, r2);
        }
    }
}

/// From the intermediate state, the new round's ancestor set is exactly
/// the predecessor's plus the approved attempt.
proof fn lemma_forward_new_ancestors(
    pre: Engine,
    post: Engine,
    copied: Seq<LineageEdge>,
    attempt_id: usize,
    pred_idx: usize,
    new_rid: usize,
    now: i64,
)
    requires
        forward_mid(pre, post, copied, attempt_id, pred_idx, new_rid, now),
    ensures
        forall|a: int|
            post.is_ancestor(new_rid as int, a) <==> (pre.is_ancestor(pred_idx as int, a) || a
                == attempt_id),
        post.ancestors(new_rid as int) == pre.ancestors(pred_idx as int).insert(attempt_id as int),
{
    let n_edges = pre.lineage@.len() as int;
    let direct = LineageEdge { attempt: attempt_id, round: new_rid };
    assert forall|a: int| post.is_ancestor(new_rid as int, a) implies (pre.is_ancestor(
        pred_idx as int,
        a,
    ) || a == attempt_id) by {
        let k = choose|k: int|
            0 <= k < post.lineage@.len() && (#[trigger] post.lineage@[k]).attempt == a
                && post.lineage@[k].round == new_rid;
        if k < n_edges {
            assert(post.lineage@[k] == copied[k]);
            assert(copied[k] == pre.lineage@[k]);
            assert(pre.lineage@[k].round < pre.rounds@.len());
        } else if k < copied.len() {
            assert(post.lineage@[k] == copied[k]);
            let s = choose|s: int|
                0 <= s < n_edges && (#[trigger] pre.lineage@[s]) == (LineageEdge {
                    attempt: copied[k].attempt,
                    round: pred_idx,
                });
            assert(pre.lineage@[s].attempt == a && pre.lineage@[s].round == pred_idx);
        } else {
            assert(post.lineage@[k] == direct);
        }
    }
    assert forall|a: int| pre.is_ancestor(pred_idx as int, a) implies post.is_ancestor(
        new_rid as int,
        a,
    ) by {
        let s = choose|s: int|
            0 <= s < pre.lineage@.len() && (#[trigger] pre.lineage@[s]).attempt == a
                && pre.lineage@[s].round == pred_idx;
        let k = choose|k: int|
            n_edges <= k < copied.len() && (#[trigger] copied[k]).attempt == pre.lineage@[s].attempt;
        assert(copied[k].round == new_rid);
        assert(post.lineage@[k] == copied[k]);
        assert(post.lineage@[k].attempt == a && post.lineage@[k].round == new_rid);
    }
    assert(post.is_ancestor(new_rid as int, attempt_id as int)) by {
        assert(post.lineage@[copied.len() as int] == direct);
    }
    assert(post.ancestors(new_rid as int) =~= pre.ancestors(pred_idx as int).insert(
        attempt_id as int,
    ));
}

/// From the intermediate state, no existing round's ancestors change.
proof fn lemma_forward_old_ancestors(
    pre: Engine,
    post: Engine,
    copied: Seq<LineageEdge>,
    attempt_id: usize,
    pred_idx: usize,
    new_rid: usize,
    now: i64,
)
    requires
        forward_mid(pre, post, copied, attempt_id, pred_idx, new_rid, now),
    ensures
        forall|r2: int, a: int|
            0 <= r2 < pre.rounds@.len() ==> (post.is_ancestor(r2, a) <==> pre.is_ancestor(r2, a)),
{
    let n_edges = pre.lineage@.len() as int;
    assert forall|r2: int, a: int| 0 <= r2 < pre.rounds@.len() implies (post.is_ancestor(r2, a)
        <==> pre.is_ancestor(r2, a)) by {
        if post.is_ancestor(r2, a) {
            let k = choose|k: int|
                0 <= k < post.lineage@.len() && (#[trigger] post.lineage@[k]).attempt == a
                    && post.lineage@[k].round == r2;
            if k >= n_edges {
                assert(post.lineage@[k].round == new_rid);
                assert(false);
            }
            assert(post.lineage@[k] == copied[k]);
            assert(copied[k] == pre.lineage@[k]);
            assert(pre.lineage@[k].attempt == a && pre.lineage@[k].round == r2);
        }
        if pre.is_ancestor(r2, a) {
            let k = choose|k: int|
                0 <= k < pre.lineage@.len() && (#[trigger] pre.lineage@[k]).attempt == a
                    && pre.lineage@[k].round == r2;
            assert(post.lineage@[k] == copied[k]);
            assert(copied[k] == pre.lineage@[k]);
            assert(post.lineage@[k].attempt == a && post.lineage@[k].round == r2);
        }
    }
}

/// The successor slot a round spawns, as a value.
pub open spec fn successor_round(r: Round, now: i64) -> Round {
    Round {
        mode: r.mode,
        nsfw: r.nsfw,
        round_no: (r.round_no + 1) as u64,
        multiplex: r.mode.spec_multiplex((r.round_no + 1) as u64),
        created_at: now,
    }
}

impl Engine {
    /// Attempt `attempt_id` already has a lineage edge, so the round it
    /// spawned exists.
    pub open spec fn already_forwarded(self, attempt_id: usize) -> bool {
        exists|k: int|
            0 <= k < self.lineage@.len() && (#[trigger] self.lineage@[k]).attempt == attempt_id
    }

    /// Forward an approved attempt: create the successor round (same mode
    /// and maturity flag, next round number, capacity from the mode's
    /// policy) and atomically link into it the predecessor round's whole
    /// inbound ancestor chain plus the approved attempt itself.
    ///
    /// Lineage completeness is part of the contract: the new round's
    /// ancestor set equals the predecessor's ancestor set plus the
    /// approved attempt, with no ancestors lost or duplicated, and no
    /// other round's ancestors change.  Forwarding the same attempt a
    /// second time fails with `StateConflict` instead of duplicating the
    /// round.
    #[verifier::rlimit(60)]
    pub fn forward_complete_round(&mut self, attempt_id: usize, now: i64) -> (r: Result<
        usize,
        EngineError,
    >)
        requires
            old(self).wf(),
            attempt_id < old(self).attempts@.len(),
            old(self).attempts@[attempt_id as int].state is Approved,
            old(self).rounds@[old(self).attempts@[attempt_id as int].round as int].round_no
                < u64::MAX,
        ensures
            final(self).wf(),
            final(self).users@ == old(self).users@,
            final(self).attempts@ == old(self).attempts@,
            match r {
                Ok(new_rid) => {
                    &&& !old(self).already_forwarded(attempt_id)
                    &&& new_rid == old(self).rounds@.len()
                    &&& final(self).rounds@ == old(self).rounds@.push(
                        successor_round(
                            old(self).rounds@[old(self).attempts@[attempt_id as int].round as int],
                            now,
                        ),
                    )
                    &&& forall|a: int|
                        final(self).is_ancestor(new_rid as int, a) <==> (old(self).is_ancestor(
                            old(self).attempts@[attempt_id as int].round as int,
                            a,
                        ) || a == attempt_id)
                    &&& final(self).ancestors(new_rid as int) == old(self).ancestors(
                        old(self).attempts@[attempt_id as int].round as int,
                    ).insert(attempt_id as int)
                    &&& forall|r2: int, a: int|
                        0 <= r2 < old(self).rounds@.len() ==> (final(self).is_ancestor(r2, a)
                            <==> old(self).is_ancestor(r2, a))
                },
                Err(e) => {
                    &&& e == EngineError::StateConflict
                    &&& old(self).already_forwarded(attempt_id)
                    &&& final(self).rounds@ == old(self).rounds@
                    &&& final(self).lineage@ == old(self).lineage@
                },
            },
    {
        let ghost pre = *old(self);
        let n_edges = self.lineage.len();
        let mut i: usize = 0;
        while i < n_edges
            invariant
                i <= n_edges,
                n_edges == self.lineage@.len(),
                *self == *old(self),
                pre == *old(self),
                old(self).wf(),
                forall|k: int| 0 <= k < i ==> (#[trigger] self.lineage@[k]).attempt != attempt_id,
            decreases n_edges - i,
        {
            if self.lineage[i].attempt == attempt_id {
                return Err(EngineError::StateConflict);
            }
            i = i + 1;
        }
        let pred_idx = self.attempts[attempt_id].round;
        let pred_round = self.rounds[pred_idx];
        let new_rid = self.rounds.len();
        let successor = pred_round.forward(now);
        self.rounds.push(successor);
        let mut j: usize = 0;
        while j < n_edges
            invariant
                j <= n_edges,
                pre == *old(self),
                n_edges == pre.lineage@.len(),
                pre.wf(),
                attempt_id < pre.attempts@.len(),
                pred_idx == pre.attempts@[attempt_id as int].round,
                new_rid == pre.rounds@.len(),
                successor == successor_round(pre.rounds@[pred_idx as int], now),
                self.users@ == pre.users@,
                self.attempts@ == pre.attempts@,
                self.rounds@ == pre.rounds@.push(successor),
                self.lineage@.len() >= n_edges,
                forall|k: int| 0 <= k < n_edges ==> self.lineage@[k] == pre.lineage@[k],
                forall|k: int|
                    n_edges <= k < self.lineage@.len() ==> {
                        let e = #[trigger] self.lineage@[k];
                        &&& e.round == new_rid
                        &&& e.attempt < pre.attempts@.len()
                        &&& pre.attempts@[e.attempt as int].round < pred_idx
                        &&& pre.attempts@[e.attempt as int].state is Approved
                    },
                forall|k: int|
                    n_edges <= k < self.lineage@.len() ==> exists|s: int|
                        0 <= s < j && (#[trigger] pre.lineage@[s]) == (LineageEdge {
                            attempt: (#[trigger] self.lineage@[k]).attempt,
                            round: pred_idx,
                        }),
                forall|s: int|
                    0 <= s < j && (#[trigger] pre.lineage@[s]).round == pred_idx ==> exists|k: int|
                        n_edges <= k < self.lineage@.len() && (#[trigger] self.lineage@[k]).attempt
                            == pre.lineage@[s].attempt,
                forall|k1: int, k2: int|
                    n_edges <= k1 < k2 < self.lineage@.len() ==> (
                    #[trigger] self.lineage@[k1]).attempt != (#[trigger] self.lineage@[k2]).attempt,
            decreases n_edges - j,
        {
            let e = self.lineage[j];
            if e.round == pred_idx {
                let ghost prev = self.lineage@;
                proof {
                    assert(e == pre.lineage@[j as int]);
                    assert(pre.lineage@[j as int].attempt < pre.attempts@.len());
                }
                self.lineage.push(LineageEdge { attempt: e.attempt, round: new_rid });
                proof {
                    let newe = LineageEdge { attempt: e.attempt, round: new_rid };
                    let newlen = self.lineage@.len() as int;
                    assert(self.lineage@ == prev.push(newe));
                    assert(self.lineage@[newlen - 1] == newe);
                    assert forall|k: int| n_edges <= k < newlen implies {
                        let ed = #[trigger] self.lineage@[k];
                        &&& ed.round == new_rid
                        &&& ed.attempt < pre.attempts@.len()
                        &&& pre.attempts@[ed.attempt as int].round < pred_idx
                        &&& pre.attempts@[ed.attempt as int].state is Approved
                    } by {
                        if k < newlen - 1 {
                            assert(self.lineage@[k] == prev[k]);
                        }
                    }
                    assert forall|k: int| n_edges <= k < newlen implies exists|s: int|
                        0 <= s < j + 1 && (#[trigger] pre.lineage@[s]) == (LineageEdge {
                            attempt: (#[trigger] self.lineage@[k]).attempt,
                            round: pred_idx,
                        }) by {
                        if k < newlen - 1 {
                            assert(self.lineage@[k] == prev[k]);
                            let s = choose|s: int|
                                0 <= s < j && (#[trigger] pre.lineage@[s]) == (LineageEdge {
                                    attempt: prev[k].attempt,
                                    round: pred_idx,
                                });
                            assert(pre.lineage@[s] == (LineageEdge {
                                attempt: self.lineage@[k].attempt,
                                round: pred_idx,
                            }));
                        } else {
                            assert(pre.lineage@[j as int] == (LineageEdge {
                                attempt: self.lineage@[k].attempt,
                                round: pred_idx,
                            }));
                        }
                    }
                    assert forall|s: int|
                        0 <= s < j + 1 && (#[trigger] pre.lineage@[s]).round
                            == pred_idx implies exists|k: int|
                        n_edges <= k < newlen && (#[trigger] self.lineage@[k]).attempt
                            == pre.lineage@[s].attempt by {
                        if s < j {
                            let k = choose|k: int|
                                n_edges <= k < prev.len() && (#[trigger] prev[k]).attempt
                                    == pre.lineage@[s].attempt;
                            assert(self.lineage@[k].attempt == pre.lineage@[s].attempt);
                        } else {
                            assert(self.lineage@[newlen - 1].attempt == e.attempt);
                        }
                    }
                    assert forall|k1: int, k2: int|
                        n_edges <= k1 < k2 < newlen implies (#[trigger] self.lineage@[k1]).attempt
                            != (#[trigger] self.lineage@[k2]).attempt by {
                        if k2 < newlen - 1 {
                            assert(self.lineage@[k1] == prev[k1]);
                            assert(self.lineage@[k2] == prev[k2]);
                        } else {
                            assert(self.lineage@[k1] == prev[k1]);
                            if prev[k1].attempt == e.attempt {
                                let s = choose|s: int|
                                    0 <= s < j && (#[trigger] pre.lineage@[s]) == (LineageEdge {
                                        attempt: prev[k1].attempt,
                                        round: pred_idx,
                                    });
                                assert(pre.lineage@[s] == pre.lineage@[j as int]);
                                assert(false);
                            }
                        }
                    }
                }
            }
            j = j + 1;
        }
        let ghost copied = self.lineage@;
        self.lineage.push(LineageEdge { attempt: attempt_id, round: new_rid });
        proof {
            assert(forward_mid(pre, *self, copied, attempt_id, pred_idx, new_rid, now));
            lemma_forward_wf(pre, *self, copied, attempt_id, pred_idx, new_rid, now);
            lemma_forward_new_ancestors(pre, *self, copied, attempt_id, pred_idx, new_rid, now);
            lemma_forward_old_ancestors(pre, *self, copied, attempt_id, pred_idx, new_rid, now);
        }
        Ok(new_rid)
    }
}

/// External ids of the users whose one-shot notification flag is set,
/// in directory order.
pub open spec fn notify_ids(s: Seq<UserRec>) -> Seq<u64>
    decreases s.len(),
{
    if s.len() == 0 {
        Seq::empty()
    } else if s.last().notify_once {
        notify_ids(s.drop_last()).push(s.last().id)
    } else {
        notify_ids(s.drop_last())
    }
}

/// A directory that only grew still contains every user it did.
proof fn lemma_has_user_after_push(pre: Engine, post: Engine, uid: u64)
    requires
        pre.has_user(uid),
        post.users@.len() >= pre.users@.len(),
        forall|k: int| 0 <= k < pre.users@.len() ==> post.users@[k] == pre.users@[k],
    ensures
        post.has_user(uid),
{
    let j = choose|j: int| 0 <= j < pre.users@.len() && (#[trigger] pre.users@[j]).id == uid;
    assert(0 <= j < post.users@.len() && post.users@[j].id == uid);
}

/// A directory whose ids are untouched still answers `has_user` the same
/// way, so the attempts stay backed by registered users.
proof fn lemma_has_user_same_ids(pre: Engine, post: Engine, uid: u64)
    requires
        pre.has_user(uid),
        post.users@.len() == pre.users@.len(),
        forall|k: int|
            0 <= k < post.users@.len() ==> (#[trigger] post.users@[k]).id == pre.users@[k].id,
    ensures
        post.has_user(uid),
{
    let j = choose|j: int| 0 <= j < pre.users@.len() && (#[trigger] pre.users@[j]).id == uid;
    assert(0 <= j < post.users@.len() && post.users@[j].id == uid);
}

impl Engine {
    /// Index of the user with external id `id`, if registered.
    fn find_user(&self, id: u64) -> (r: Option<usize>)
        ensures
            match r {
                Some(j) => 0 <= j < self.users@.len() && self.users@[j as int].id == id,
                None => !self.has_user(id),
            },
    {
        let n = self.users.len();
        let mut j: usize = 0;
        while j < n
            invariant
                j <= n,
                n == self.users@.len(),
                forall|k: int| 0 <= k < j ==> (#[trigger] self.users@[k]).id != id,
            decreases n - j,
        {
            if self.users[j].id == id {
                return Some(j);
            }
            j = j + 1;
        }
        None
    }

    /// Idempotent upsert of the user directory: a new external identity
    /// is registered, a known one only has its display name refreshed.
    pub fn create_or_update_user(&mut self, id: u64, name: String, now: i64) -> (r: usize)
        requires
            old(self).wf(),
        ensures
            final(self).wf(),
            final(self).rounds@ == old(self).rounds@,
            final(self).attempts@ == old(self).attempts@,
            final(self).lineage@ == old(self).lineage@,
            final(self).has_user(id),
            r < final(self).users@.len(),
            final(self).users@[r as int].id == id,
            final(self).users@[r as int].name == name,
            old(self).has_user(id) ==> {
                &&& r < old(self).users@.len()
                &&& old(self).users@[r as int].id == id
                &&& final(self).users@ == old(self).users@.update(
                    r as int,
                    UserRec { name, ..old(self).users@[r as int] },
                )
            },
            !old(self).has_user(id) ==> {
                &&& r == old(self).users@.len()
                &&& final(self).users@ == old(self).users@.push(
                    UserRec { id, name, created_at: now, notify_once: false },
                )
            },
    {
        let ghost pre = *old(self);
        match self.find_user(id) {
            Some(j) => {
                self.users[j].name = name;
                proof {
                    let post = *self;
                    assert(post.users@[j as int].id == id);
                    assert forall|k: int| 0 <= k < post.users@.len() implies (
                    #[trigger] post.users@[k]).id == pre.users@[k].id by {}
                    assert forall|k: int| 0 <= k < post.attempts@.len() implies (
                    #[trigger] post.attempts@[k]).round < post.rounds@.len() && post.has_user(
                        post.attempts@[k].user,
                    ) by {
                        lemma_has_user_same_ids(pre, post, pre.attempts@[k].user);
                    }
                    assert(post.wf());
                }
                j
            },
            None => {
                let j = self.users.len();
                self.users.push(UserRec { id, name, created_at: now, notify_once: false });
                proof {
                    let post = *self;
                    assert(post.users@[j as int].id == id);
                    assert forall|k: int| 0 <= k < post.attempts@.len() implies (
                    #[trigger] post.attempts@[k]).round < post.rounds@.len() && post.has_user(
                        post.attempts@[k].user,
                    ) by {
                        lemma_has_user_after_push(pre, post, pre.attempts@[k].user);
                    }
                    assert(post.wf());
                }
                j
            },
        }
    }

    /// Look a registered user up by external id.
    pub fn get_user(&self, id: u64) -> (r: Result<usize, EngineError>)
        ensures
            match r {
                Ok(j) => 0 <= j < self.users@.len() && self.users@[j as int].id == id,
                Err(e) => e == EngineError::NotFound && !self.has_user(id),
            },
    {
        match self.find_user(id) {
            Some(j) => Ok(j),
            None => Err(EngineError::NotFound),
        }
    }

    /// Set or clear the one-shot notification flag of a registered user.
    pub fn update_notify_once(&mut self, id: u64, notify_once: bool) -> (r: Result<
        usize,
        EngineError,
    >)
        requires
            old(self).wf(),
        ensures
            final(self).wf(),
            final(self).rounds@ == old(self).rounds@,
            final(self).attempts@ == old(self).attempts@,
            final(self).lineage@ == old(self).lineage@,
            match r {
                Ok(j) => {
                    &&& 0 <= j < old(self).users@.len()
                    &&& old(self).users@[j as int].id == id
                    &&& final(self).users@ == old(self).users@.update(
                        j as int,
                        UserRec { notify_once, ..old(self).users@[j as int] },
                    )
                },
                Err(e) => {
                    &&& e == EngineError::NotFound
                    &&& !old(self).has_user(id)
                    &&& final(self).users@ == old(self).users@
                },
            },
    {
        let ghost pre = *old(self);
        match self.find_user(id) {
            Some(j) => {
                self.users[j].notify_once = notify_once;
                proof {
                    let post = *self;
                    assert forall|k: int| 0 <= k < post.users@.len() implies (
                    #[trigger] post.users@[k]).id == pre.users@[k].id by {}
                    assert forall|k: int| 0 <= k < post.attempts@.len() implies (
                    #[trigger] post.attempts@[k]).round < post.rounds@.len() && post.has_user(
                        post.attempts@[k].user,
                    ) by {
                        lemma_has_user_same_ids(pre, post, pre.attempts@[k].user);
                    }
                    assert(post.wf());
                }
                Ok(j)
            },
            None => Err(EngineError::NotFound),
        }
    }

    /// Collect the users waiting for a one-shot activity notification and
    /// clear their flags, atomically, so each is notified at most once.
    pub fn take_users_to_notify_once(&mut self) -> (r: Vec<u64>)
        requires
            old(self).wf(),
        ensures
            final(self).wf(),
            final(self).rounds@ == old(self).rounds@,
            final(self).attempts@ == old(self).attempts@,
            final(self).lineage@ == old(self).lineage@,
            r@ == notify_ids(old(self).users@),
            final(self).users@.len() == old(self).users@.len(),
            forall|k: int|
                0 <= k < old(self).users@.len() ==> final(self).users@[k] == (UserRec {
                    notify_once: false,
                    ..old(self).users@[k]
                }),
    {
        let ghost pre = *old(self);
        let n = self.users.len();
        let mut taken: Vec<u64> = Vec::new();
        let mut i: usize = 0;
        while i < n
            invariant
                i <= n,
                n == pre.users@.len(),
                self.users@.len() == n,
                self.rounds@ == pre.rounds@,
                self.attempts@ == pre.attempts@,
                self.lineage@ == pre.lineage@,
                forall|k: int| i <= k < n ==> self.users@[k] == pre.users@[k],
                forall|k: int|
                    0 <= k < i ==> self.users@[k] == (UserRec {
                        notify_once: false,
                        ..pre.users@[k]
                    }),
                taken@ == notify_ids(pre.users@.take(i as int)),
            decreases n - i,
        {
            proof {
                assert(pre.users@.take(i + 1).drop_last() =~= pre.users@.take(i as int));
            }
            if self.users[i].notify_once {
                let uid = self.users[i].id;
                taken.push(uid);
                self.users[i].notify_once = false;
            } else {
                proof {
                    assert(self.users@[i as int] == (UserRec {
                        notify_once: false,
                        ..pre.users@[i as int]
                    }));
                }
            }
            i = i + 1;
        }
        proof {
            assert(pre.users@.take(n as int) =~= pre.users@);
            let post = *self;
            assert forall|k: int| 0 <= k < post.users@.len() implies (
            #[trigger] post.users@[k]).id == pre.users@[k].id by {}
            assert forall|k: int| 0 <= k < post.attempts@.len() implies (
            #[trigger] post.attempts@[k]).round < post.rounds@.len() && post.has_user(
                post.attempts@[k].user,
            ) by {
                lemma_has_user_same_ids(pre, post, pre.attempts@[k].user);
            }
            assert(post.wf());
        }
        taken
    }
}

/// An approved attempt usable as a drawing attribute: it sits on an
/// early, non-NSFW round of the mode whose opening rounds collect
/// attributes.
pub open spec fn ross_attribute(rounds: Seq<Round>, a: Attempt) -> bool {
    &&& a.state is Approved
    &&& a.round < rounds.len()
    &&& rounds[a.round as int].mode is Ross
    &&& !rounds[a.round as int].nsfw
    &&& rounds[a.round as int].round_no <= 3
}

/// How many approved attribute attempts the state holds.
pub open spec fn count_ross_attributes(rounds: Seq<Round>, s: Seq<Attempt>) -> int
    decreases s.len(),
{
    if s.len() == 0 {
        0
    } else {
        count_ross_attributes(rounds, s.drop_last()) + if ross_attribute(rounds, s.last()) {
            1int
        } else {
            0int
        }
    }
}

impl Engine {
    /// Obtain a slot for `uid`: join an eligible round of the requested
    /// key if one exists, and otherwise, for round number zero only,
    /// open a fresh round.  A round number past the mode's final round,
    /// and a missing or full round past zero, are reported as `NotFound`:
    /// the caller cannot tell "no such round" from "all full", both mean
    /// "try again or start fresh".
    pub fn allocate(
        &mut self,
        uid: u64,
        mode: Mode,
        nsfw: bool,
        round_no: u64,
        now: i64,
        seed: u64,
    ) -> (r: Result<Allocation, EngineError>)
        requires
            old(self).wf(),
            old(self).has_user(uid),
            i64::MIN <= now + mode.spec_time_limit(round_no) <= i64::MAX,
        ensures
            final(self).wf(),
            final(self).users@ == old(self).users@,
            final(self).lineage@ == old(self).lineage@,
            match r {
                Ok(al) => {
                    &&& round_no <= mode.spec_last_round()
                    &&& al.attempt == old(self).attempts@.len()
                    &&& final(self).attempts@ == old(self).attempts@.push(
                        Attempt {
                            user: uid,
                            round: al.round,
                            state: AttemptState::Active {
                                until: (now + mode.spec_time_limit(round_no)) as i64,
                            },
                            created_at: now,
                        },
                    )
                    &&& {
                        ||| {
                            &&& old(self).eligible(uid, mode, nsfw, round_no, al.round as int)
                            &&& final(self).rounds@ == old(self).rounds@
                            &&& forall|r2: int|
                                old(self).eligible(uid, mode, nsfw, round_no, r2) ==> old(
                                    self,
                                ).prior_appearances(uid, al.round as int) <= old(
                                    self,
                                ).prior_appearances(uid, r2)
                        }
                        ||| {
                            &&& round_no == 0
                            &&& forall|r2: int| !old(self).eligible(uid, mode, nsfw, round_no, r2)
                            &&& al.round == old(self).rounds@.len()
                            &&& final(self).rounds@ == old(self).rounds@.push(
                                Round {
                                    mode,
                                    nsfw,
                                    round_no: 0,
                                    multiplex: mode.spec_multiplex(0),
                                    created_at: now,
                                },
                            )
                        }
                    }
                },
                Err(e) => {
                    &&& e == EngineError::NotFound
                    &&& final(self).rounds@ == old(self).rounds@
                    &&& final(self).attempts@ == old(self).attempts@
                    &&& (round_no > mode.spec_last_round() || (round_no != 0 && forall|r2: int|
                        !old(self).eligible(uid, mode, nsfw, round_no, r2)))
                },
            },
    {
        if round_no > mode.last_round() {
            return Err(EngineError::NotFound);
        }
        let time_limit = mode.time_limit(round_no);
        match self.attempt_existing_round(uid, mode, nsfw, round_no, time_limit, now, seed) {
            Ok(al) => Ok(al),
            Err(_) => {
                if round_no == 0 {
                    proof {
                        crate::game::lemma_round_zero_has_capacity(mode);
                    }
                    let multiplex = mode.multiplex(0);
                    Ok(self.attempt_new_round(uid, mode, nsfw, multiplex, time_limit, now))
                } else {
                    Err(EngineError::NotFound)
                }
            },
        }
    }

    /// Up to four approved attribute attempts of the attribute-collecting
    /// mode, chosen by `seed`: fewer only if fewer exist.
    pub fn get_random_ross_attributes(&self, seed: u64) -> (r: Vec<usize>)
        ensures
            forall|j1: int, j2: int| 0 <= j1 < j2 < r@.len() ==> r@[j1] != r@[j2],
            forall|j: int|
                0 <= j < r@.len() ==> 0 <= r@[j] < self.attempts@.len() && ross_attribute(
                    self.rounds@,
                    self.attempts@[r@[j] as int],
                ),
            r@.len() == if count_ross_attributes(self.rounds@, self.attempts@) <= 4 {
                count_ross_attributes(self.rounds@, self.attempts@)
            } else {
                4int
            },
    {
        let n = self.attempts.len();
        let nr = self.rounds.len();
        let mut matching: Vec<usize> = Vec::new();
        let mut i: usize = 0;
        while i < n
            invariant
                i <= n,
                n == self.attempts@.len(),
                nr == self.rounds@.len(),
                matching@.len() == count_ross_attributes(
                    self.rounds@,
                    self.attempts@.take(i as int),
                ),
                forall|j1: int, j2: int|
                    0 <= j1 < j2 < matching@.len() ==> matching@[j1] < matching@[j2],
                forall|j: int|
                    0 <= j < matching@.len() ==> 0 <= matching@[j] < i && ross_attribute(
                        self.rounds@,
                        self.attempts@[matching@[j] as int],
                    ),
            decreases n - i,
        {
            proof {
                assert(self.attempts@.take(i + 1).drop_last() =~= self.attempts@.take(i as int));
            }
            let a = self.attempts[i];
            let approved = match a.state {
                AttemptState::Approved { .. } => true,
                _ => false,
            };
            if approved && a.round < nr {
                let rd = self.rounds[a.round];
                let is_ross = match rd.mode {
                    Mode::Ross => true,
                    _ => false,
                };
                if is_ross && !rd.nsfw && rd.round_no <= 3 {
                    matching.push(i);
                }
            }
            i = i + 1;
        }
        proof {
            assert(self.attempts@.take(n as int) =~= self.attempts@);
        }
        let total = matching.len();
        if total <= 4 {
            return matching;
        }
        let start = (seed % ((total - 3) as u64)) as usize;
        let mut out: Vec<usize> = Vec::new();
        let mut k: usize = 0;
        while k < 4
            invariant
                k <= 4,
                total == matching@.len(),
                total > 4,
                start + 4 <= total,
                out@.len() == k,
                forall|j: int| 0 <= j < k ==> out@[j] == matching@[start + j],
                forall|j1: int, j2: int|
                    0 <= j1 < j2 < matching@.len() ==> matching@[j1] < matching@[j2],
                forall|j: int|
                    0 <= j < matching@.len() ==> 0 <= matching@[j] < self.attempts@.len()
                        && ross_attribute(self.rounds@, self.attempts@[matching@[j] as int]),
            decreases 4 - k,
        {
            out.push(matching[start + k]);
            k = k + 1;
        }
        out
    }

    /// Run the sweeper against the wall clock; the pair returned is the
    /// clock reading used and the number of attempts retired at it.
    pub fn sweep_now(&mut self) -> (r: (i64, usize))
        requires
            old(self).wf(),
        ensures
            final(self).wf(),
            final(self).users@ == old(self).users@,
            final(self).rounds@ == old(self).rounds@,
            final(self).lineage@ == old(self).lineage@,
            final(self).attempts@ == sweep_model(old(self).attempts@, r.0),
            r.1 == expired_count(old(self).attempts@, r.0),
    {
        let now = crate::clock::current_unix_time();
        let expired = self.expire_active_attempts(now);
        (now, expired.len())
    }
}

/// The capacity invariant, stated on its own: at every point between
/// operations, a round's slot-occupying attempts never exceed its
/// multiplex capacity.
pub proof fn lemma_capacity_invariant(e: Engine, r: int)
    requires
        e.wf(),
        0 <= r < e.rounds@.len(),
    ensures
        count_occupying(e.attempts@, r) <= e.rounds@[r].multiplex,
{
}

/// The no-double-attempt invariant, stated on its own: two distinct
/// attempts by one user on one round are never simultaneously
/// slot-occupying (equivalently, non-terminal).
pub proof fn lemma_no_double_attempt(e: Engine, i: int, j: int)
    requires
        e.wf(),
        0 <= i < e.attempts@.len(),
        0 <= j < e.attempts@.len(),
        i != j,
        e.attempts@[i].user == e.attempts@[j].user,
        e.attempts@[i].round == e.attempts@[j].round,
        e.attempts@[i].state.occupies_slot(),
    ensures
        !e.attempts@[j].state.occupies_slot(),
{
    if i < j {
    } else {
    }
}

} // verus!
