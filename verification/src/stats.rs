//! The read-only stats and query surface: who holds a slot right now,
//! and how much capacity is left to join, grouped per round key.

use crate::engine::{count_occupying, Attempt, Engine, Round};
use crate::game::{GameLogic, Mode};
use vstd::prelude::*;

verus! {

/// One slot-occupying attempt, as shown on a "who is active" display.
#[derive(Clone, Copy, Debug, PartialEq, Eq, Structural)]
pub struct ActiveUser {
    /// External id of the user holding the slot.
    pub user: u64,
    /// Index of the round the slot belongs to.
    pub round: usize,
}

/// The (user, round) pairs of the slot-occupying attempts, in attempt
/// order.
pub open spec fn active_users_model(s: Seq<Attempt>) -> Seq<ActiveUser>
    decreases s.len(),
{
    if s.len() == 0 {
        Seq::empty()
    } else if s.last().state.occupies_slot() {
        active_users_model(s.drop_last()).push(
            ActiveUser { user: s.last().user, round: s.last().round },
        )
    } else {
        active_users_model(s.drop_last())
    }
}

/// Spare capacity of one group of rounds: same mode, maturity flag and
/// round number.
#[derive(Clone, Copy, Debug, PartialEq, Eq, Structural)]
pub struct UnallocatedRound {
    pub mode: Mode,
    pub nsfw: bool,
    pub round_no: u64,
    pub unallocated: u64,
}

/// The order the grouped stats are reported in: safe-for-work groups
/// first, then by mode in declaration order, then by round number.
pub open spec fn mode_rank(m: Mode) -> int {
    match m {
        Mode::Ross => 0,
        Mode::Evolution => 1,
    }
}

pub open spec fn key_lt(n1: bool, m1: Mode, r1: u64, n2: bool, m2: Mode, r2: u64) -> bool {
    ||| (!n1 && n2)
    ||| (n1 == n2 && mode_rank(m1) < mode_rank(m2))
    ||| (n1 == n2 && m1 == m2 && r1 < r2)
}

/// The key order is total: two keys with neither before the other are
/// the same key.
pub proof fn lemma_key_order_total(n1: bool, m1: Mode, r1: u64, n2: bool, m2: Mode, r2: u64)
    requires
        !key_lt(n1, m1, r1, n2, m2, r2),
        !key_lt(n2, m2, r2, n1, m1, r1),
    ensures
        n1 == n2 && m1 == m2 && r1 == r2,
{
}

/// Spare capacity summed over the first `k` rounds that carry the key.
pub open spec fn unallocated_prefix(
    rounds: Seq<Round>,
    attempts: Seq<Attempt>,
    k: int,
    mode: Mode,
    nsfw: bool,
    round_no: u64,
) -> int
    decreases k,
{
    if k <= 0 {
        0
    } else {
        unallocated_prefix(rounds, attempts, k - 1, mode, nsfw, round_no) + if rounds[k - 1].mode
            == mode && rounds[k - 1].nsfw == nsfw && rounds[k - 1].round_no == round_no {
            rounds[k - 1].multiplex - count_occupying(attempts, k - 1)
        } else {
            0int
        }
    }
}

/// Spare capacity summed over every round that carries the key.
pub open spec fn unallocated_total(
    rounds: Seq<Round>,
    attempts: Seq<Attempt>,
    mode: Mode,
    nsfw: bool,
    round_no: u64,
) -> int {
    unallocated_prefix(rounds, attempts, rounds.len() as int, mode, nsfw, round_no)
}

/// Total multiplex capacity of the first `k` rounds.
pub open spec fn multiplex_prefix(rounds: Seq<Round>, k: int) -> int
    decreases k,
{
    if k <= 0 {
        0
    } else {
        multiplex_prefix(rounds, k - 1) + rounds[k - 1].multiplex
    }
}

/// Under the capacity invariant, a group's spare capacity lies between
/// zero and the total capacity of the rounds considered.
proof fn lemma_unallocated_prefix_bounds(
    rounds: Seq<Round>,
    attempts: Seq<Attempt>,
    k: int,
    mode: Mode,
    nsfw: bool,
    round_no: u64,
)
    requires
        k <= rounds.len(),
        forall|r: int|
            0 <= r < rounds.len() ==> count_occupying(attempts, r) <= (
            #[trigger] rounds[r]).multiplex,
    ensures
        0 <= unallocated_prefix(rounds, attempts, k, mode, nsfw, round_no) <= multiplex_prefix(
            rounds,
            k,
        ),
    decreases k,
{
    if k > 0 {
        lemma_unallocated_prefix_bounds(rounds, attempts, k - 1, mode, nsfw, round_no);
        crate::engine::lemma_count_occupying_nonneg(attempts, k - 1);
    }
}

/// Total capacity only grows with the prefix.
proof fn lemma_multiplex_prefix_mono(rounds: Seq<Round>, k1: int, k2: int)
    requires
        0 <= k1 <= k2 <= rounds.len(),
    ensures
        multiplex_prefix(rounds, k1) <= multiplex_prefix(rounds, k2),
    decreases k2 - k1,
{
    if k1 < k2 {
        lemma_multiplex_prefix_mono(rounds, k1, k2 - 1);
    }
}

/// `u` reports the group of rounds `rd` belongs to.
pub open spec fn entry_matches_round(u: UnallocatedRound, rd: Round) -> bool {
    u.mode == rd.mode && u.nsfw == rd.nsfw && u.round_no == rd.round_no
}

/// Two group entries carry the same key.
pub open spec fn same_key(a: UnallocatedRound, b: UnallocatedRound) -> bool {
    a.mode == b.mode && a.nsfw == b.nsfw && a.round_no == b.round_no
}

/// `a`'s group sorts strictly before `b`'s.
pub open spec fn entry_lt(a: UnallocatedRound, b: UnallocatedRound) -> bool {
    key_lt(a.nsfw, a.mode, a.round_no, b.nsfw, b.mode, b.round_no)
}

/// The report is strictly sorted by group key.
pub open spec fn sorted_groups(s: Seq<UnallocatedRound>) -> bool {
    forall|j1: int, j2: int| 0 <= j1 < j2 < s.len() ==> entry_lt(#[trigger] s[j1], #[trigger] s[j2])
}

fn rank_of(m: Mode) -> (r: u8)
    ensures
        r as int == mode_rank(m),
{
    match m {
        Mode::Ross => 0,
        Mode::Evolution => 1,
    }
}

/// Whether one group entry sorts strictly before another.
fn entry_before(a: &UnallocatedRound, b: &UnallocatedRound) -> (r: bool)
    ensures
        r == entry_lt(*a, *b),
{
    if a.nsfw != b.nsfw {
        return !a.nsfw;
    }
    let rank1 = rank_of(a.mode);
    let rank2 = rank_of(b.mode);
    if rank1 != rank2 {
        return rank1 < rank2;
    }
    a.round_no < b.round_no
}

/// Place a group entry with a fresh key into the sorted report, keeping
/// it sorted; everything else keeps its relative position.
fn insert_group(out: &mut Vec<UnallocatedRound>, entry: UnallocatedRound) -> (pos: usize)
    requires
        sorted_groups(old(out)@),
        forall|j: int| 0 <= j < old(out)@.len() ==> !same_key(#[trigger] old(out)@[j], entry),
    ensures
        pos <= old(out)@.len(),
        final(out)@.len() == old(out)@.len() + 1,
        sorted_groups(final(out)@),
        final(out)@[pos as int] == entry,
        forall|j: int| 0 <= j < pos ==> final(out)@[j] == old(out)@[j],
        forall|j: int| pos < j < final(out)@.len() ==> final(out)@[j] == old(out)@[j - 1],
{
    let n_out = out.len();
    let mut pos: usize = 0;
    while pos < n_out
        invariant_except_break
            pos <= n_out,
            n_out == out@.len(),
            *out == *old(out),
            forall|j: int| 0 <= j < pos ==> entry_lt(#[trigger] out@[j], entry),
        ensures
            pos <= n_out,
            n_out == out@.len(),
            *out == *old(out),
            forall|j: int| 0 <= j < pos ==> entry_lt(#[trigger] out@[j], entry),
            pos < n_out ==> !entry_lt(out@[pos as int], entry),
        decreases n_out - pos,
    {
        let stop = {
            let cur = &out[pos];
            !entry_before(cur, &entry)
        };
        if stop {
            break ;
        }
        pos = pos + 1;
    }
    proof {
        if pos < out@.len() {
            let there = out@[pos as int];
            if !entry_lt(entry, there) {
                lemma_key_order_total(
                    entry.nsfw,
                    entry.mode,
                    entry.round_no,
                    there.nsfw,
                    there.mode,
                    there.round_no,
                );
            }
        }
    }
    let ghost prev = out@;
    out.insert(pos, entry);
    proof {
        prev.insert_ensures(pos as int, entry);
        assert forall|j1: int, j2: int| 0 <= j1 < j2 < out@.len() implies entry_lt(
            #[trigger] out@[j1],
            #[trigger] out@[j2],
        ) by {
            if j1 < pos && j2 < pos {
                assert(out@[j1] == prev[j1] && out@[j2] == prev[j2]);
            } else if j1 < pos && j2 == pos {
                assert(out@[j1] == prev[j1] && out@[j2] == entry);
            } else if j1 < pos {
                assert(out@[j1] == prev[j1] && out@[j2] == prev[j2 - 1]);
            } else if j1 == pos {
                assert(out@[j1] == entry && out@[j2] == prev[j2 - 1]);
                if j2 - 1 > pos {
                    assert(entry_lt(prev[pos as int], prev[j2 - 1]));
                }
            } else {
                assert(out@[j1] == prev[j1 - 1] && out@[j2] == prev[j2 - 1]);
            }
        }
    }
    pos
}

impl Engine {
    /// Spare capacity summed over every round of one group.
    fn group_sum(&self, mode: Mode, nsfw: bool, round_no: u64) -> (sum: u64)
        requires
            self.wf(),
            multiplex_prefix(self.rounds@, self.rounds@.len() as int) <= u64::MAX,
        ensures
            sum == unallocated_total(self.rounds@, self.attempts@, mode, nsfw, round_no),
    {
        let nr = self.rounds.len();
        let mut sum: u64 = 0;
        let mut t: usize = 0;
        while t < nr
            invariant
                t <= nr,
                nr == self.rounds@.len(),
                self.wf(),
                multiplex_prefix(self.rounds@, self.rounds@.len() as int) <= u64::MAX,
                sum == unallocated_prefix(
                    self.rounds@,
                    self.attempts@,
                    t as int,
                    mode,
                    nsfw,
                    round_no,
                ),
            decreases nr - t,
        {
            let rd = self.rounds[t];
            if rd.mode == mode && rd.nsfw == nsfw && rd.round_no == round_no {
                let occupied = self.occupant_count(t);
                proof {
                    assert(count_occupying(self.attempts@, t as int) <= self.rounds@[t
                        as int].multiplex);
                    lemma_unallocated_prefix_bounds(
                        self.rounds@,
                        self.attempts@,
                        t + 1,
                        mode,
                        nsfw,
                        round_no,
                    );
                    lemma_multiplex_prefix_mono(self.rounds@, t + 1, self.rounds@.len() as int);
                }
                sum = sum + (rd.multiplex - (occupied as u64));
            }
            t = t + 1;
        }
        sum
    }

    /// Per (nsfw, mode, round_no) group, the total spare capacity of its
    /// rounds: the sum of multiplex minus occupied slots.  Groups come
    /// back sorted by maturity flag, then mode, then round number; every
    /// group of an existing round appears exactly once.
    #[verifier::rlimit(100)]
    pub fn get_unallocated_rounds(&self) -> (r: Vec<UnallocatedRound>)
        requires
            self.wf(),
            multiplex_prefix(self.rounds@, self.rounds@.len() as int) <= u64::MAX,
        ensures
            sorted_groups(r@),
            forall|j: int|
                0 <= j < r@.len() ==> (exists|t: int|
                    0 <= t < self.rounds@.len() && entry_matches_round(
                        #[trigger] r@[j],
                        #[trigger] self.rounds@[t],
                    )) && r@[j].unallocated == unallocated_total(
                    self.rounds@,
                    self.attempts@,
                    r@[j].mode,
                    r@[j].nsfw,
                    r@[j].round_no,
                ),
            forall|t: int|
                0 <= t < self.rounds@.len() ==> exists|j: int|
                    0 <= j < r@.len() && entry_matches_round(
                        #[trigger] r@[j],
                        #[trigger] self.rounds@[t],
                    ),
    {
        let nr = self.rounds.len();
        let mut out: Vec<UnallocatedRound> = Vec::new();
        let mut k: usize = 0;
        while k < nr
            invariant
                k <= nr,
                nr == self.rounds@.len(),
                self.wf(),
                multiplex_prefix(self.rounds@, self.rounds@.len() as int) <= u64::MAX,
                sorted_groups(out@),
                forall|j: int|
                    0 <= j < out@.len() ==> (exists|t: int|
                        0 <= t < k && entry_matches_round(
                            #[trigger] out@[j],
                            #[trigger] self.rounds@[t],
                        )) && out@[j].unallocated == unallocated_total(
                        self.rounds@,
                        self.attempts@,
                        out@[j].mode,
                        out@[j].nsfw,
                        out@[j].round_no,
                    ),
                forall|t: int|
                    0 <= t < k ==> exists|j: int|
                        0 <= j < out@.len() && entry_matches_round(
                            #[trigger] out@[j],
                            #[trigger] self.rounds@[t],
                        ),
            decreases nr - k,
        {
            let rd = self.rounds[k];
            let mut seen = false;
            let mut t: usize = 0;
            while t < k
                invariant
                    t <= k,
                    k < nr,
                    nr == self.rounds@.len(),
                    rd == self.rounds@[k as int],
                    seen <==> exists|t2: int|
                        0 <= t2 < t && (#[trigger] self.rounds@[t2]).mode == rd.mode
                            && self.rounds@[t2].nsfw == rd.nsfw && self.rounds@[t2].round_no
                            == rd.round_no,
                decreases k - t,
            {
                let rd2 = self.rounds[t];
                if rd2.mode == rd.mode && rd2.nsfw == rd.nsfw && rd2.round_no == rd.round_no {
                    seen = true;
                }
                t = t + 1;
            }
            if !seen {
                let total = self.group_sum(rd.mode, rd.nsfw, rd.round_no);
                let entry = UnallocatedRound {
                    mode: rd.mode,
                    nsfw: rd.nsfw,
                    round_no: rd.round_no,
                    unallocated: total,
                };
                proof {
                    assert forall|j: int| 0 <= j < out@.len() implies !same_key(
                        #[trigger] out@[j],
                        entry,
                    ) by {
                        if same_key(out@[j], entry) {
                            let t2 = choose|t2: int|
                                0 <= t2 < k && entry_matches_round(
                                    out@[j],
                                    #[trigger] self.rounds@[t2],
                                );
                            assert(self.rounds@[t2].mode == rd.mode && self.rounds@[t2].nsfw
                                == rd.nsfw && self.rounds@[t2].round_no == rd.round_no);
                            assert(false);
                        }
                    }
                }
                let ghost prev = out@;
                let pos = insert_group(&mut out, entry);
                proof {
                    assert forall|j: int| 0 <= j < out@.len() implies (exists|t2: int|
                        0 <= t2 < k + 1 && entry_matches_round(
                            #[trigger] out@[j],
                            #[trigger] self.rounds@[t2],
                        )) && out@[j].unallocated == unallocated_total(
                        self.rounds@,
                        self.attempts@,
                        out@[j].mode,
                        out@[j].nsfw,
                        out@[j].round_no,
                    ) by {
                        if j == pos {
                            assert(entry_matches_round(out@[j], self.rounds@[k as int]));
                        } else {
                            let o = if j < pos {
                                prev[j]
                            } else {
                                prev[j - 1]
                            };
                            assert(out@[j] == o);
                            let t2 = choose|t2: int|
                                0 <= t2 < k && entry_matches_round(o, #[trigger] self.rounds@[t2]);
                            assert(entry_matches_round(out@[j], self.rounds@[t2]));
                        }
                    }
                    assert forall|t2: int| 0 <= t2 < k + 1 implies exists|j: int|
                        0 <= j < out@.len() && entry_matches_round(
                            #[trigger] out@[j],
                            #[trigger] self.rounds@[t2],
                        ) by {
                        if t2 == k {
                            assert(entry_matches_round(out@[pos as int], self.rounds@[t2]));
                        } else {
                            let j = choose|j: int|
                                0 <= j < prev.len() && entry_matches_round(
                                    #[trigger] prev[j],
                                    self.rounds@[t2],
                                );
                            if j < pos {
                                assert(entry_matches_round(out@[j], self.rounds@[t2]));
                            } else {
                                assert(out@[j + 1] == prev[j]);
                                assert(entry_matches_round(out@[j + 1], self.rounds@[t2]));
                            }
                        }
                    }
                }
            } else {
                proof {
                    let t2 = choose|t2: int|
                        0 <= t2 < k && (#[trigger] self.rounds@[t2]).mode == rd.mode
                            && self.rounds@[t2].nsfw == rd.nsfw && self.rounds@[t2].round_no
                            == rd.round_no;
                    let j = choose|j: int|
                        0 <= j < out@.len() && entry_matches_round(
                            #[trigger] out@[j],
                            self.rounds@[t2],
                        );
                    assert forall|t3: int| 0 <= t3 < k + 1 implies exists|j2: int|
                        0 <= j2 < out@.len() && entry_matches_round(
                            #[trigger] out@[j2],
                            #[trigger] self.rounds@[t3],
                        ) by {
                        if t3 == k {
                            assert(entry_matches_round(out@[j], self.rounds@[k as int]));
                        }
                    }
                }
            }
            k = k + 1;
        }
        out
    }

    /// The users currently holding a slot-occupying attempt, with the
    /// round each one sits on, in attempt order.
    pub fn get_active_users(&self) -> (r: Vec<ActiveUser>)
        ensures
            r@ == active_users_model(self.attempts@),
    {
        let n = self.attempts.len();
        let mut out: Vec<ActiveUser> = Vec::new();
        let mut i: usize = 0;
        while i < n
            invariant
                i <= n,
                n == self.attempts@.len(),
                out@ == active_users_model(self.attempts@.take(i as int)),
            decreases n - i,
        {
            proof {
                assert(self.attempts@.take(i + 1).drop_last() =~= self.attempts@.take(i as int));
            }
            let a = self.attempts[i];
            if a.state.occupying() {
                out.push(ActiveUser { user: a.user, round: a.round });
            }
            i = i + 1;
        }
        proof {
            assert(self.attempts@.take(n as int) =~= self.attempts@);
        }
        out
    }
}


/// One group of games waiting for players, as a games-availability
/// report shapes it.
#[derive(Clone, Copy, Debug, PartialEq, Eq, Structural)]
pub struct IncompleteGames {
    pub mode: Mode,
    pub count: u64,
    pub round: u64,
    pub nsfw: bool,
}

/// A group a player can actually join: past the opening round and not
/// past the mode's final round.
pub open spec fn playable(g: IncompleteGames) -> bool {
    g.round != 0 && g.round <= g.mode.spec_last_round()
}

/// The playable groups, in their input order.
pub open spec fn playable_model(s: Seq<IncompleteGames>) -> Seq<IncompleteGames>
    decreases s.len(),
{
    if s.len() == 0 {
        Seq::empty()
    } else if playable(s.last()) {
        playable_model(s.drop_last()).push(s.last())
    } else {
        playable_model(s.drop_last())
    }
}

/// Narrowing a games report to the groups a player can join.
pub trait PlayableFilter: Sized {
    spec fn games_view(&self) -> Seq<IncompleteGames>;

    fn filter(self) -> (r: Self)
        ensures
            r.games_view() == playable_model(self.games_view()),
    ;
}

impl PlayableFilter for Vec<IncompleteGames> {
    open spec fn games_view(&self) -> Seq<IncompleteGames> {
        self@
    }

    fn filter(self) -> (r: Self) {
        let n = self.len();
        let mut out: Vec<IncompleteGames> = Vec::new();
        let mut i: usize = 0;
        while i < n
            invariant
                i <= n,
                n == self@.len(),
                out@ == playable_model(self@.take(i as int)),
            decreases n - i,
        {
            proof {
                assert(self@.take(i + 1).drop_last() =~= self@.take(i as int));
            }
            let g = self[i];
            if g.round != 0 && g.round <= g.mode.last_round() {
                out.push(g);
            }
            i = i + 1;
        }
        proof {
            assert(self@.take(n as int) =~= self@);
        }
        out
    }
}

/// A capacity group a player can join right now: past the opening round
/// and not past the mode's final round.
pub open spec fn joinable(u: UnallocatedRound) -> bool {
    u.round_no > 0 && u.round_no <= u.mode.spec_last_round()
}

/// The joinable groups, in their input order.
pub open spec fn joinable_model(s: Seq<UnallocatedRound>) -> Seq<UnallocatedRound>
    decreases s.len(),
{
    if s.len() == 0 {
        Seq::empty()
    } else if joinable(s.last()) {
        joinable_model(s.drop_last()).push(s.last())
    } else {
        joinable_model(s.drop_last())
    }
}

/// Keep only the capacity groups a player can join right now.
pub fn filter_joinable_rounds(v: Vec<UnallocatedRound>) -> (r: Vec<UnallocatedRound>)
    ensures
        r@ == joinable_model(v@),
{
    let n = v.len();
    let mut out: Vec<UnallocatedRound> = Vec::new();
    let mut i: usize = 0;
    while i < n
        invariant
            i <= n,
            n == v@.len(),
            out@ == joinable_model(v@.take(i as int)),
        decreases n - i,
    {
        proof {
            assert(v@.take(i + 1).drop_last() =~= v@.take(i as int));
        }
        let u = v[i];
        if u.round_no > 0 && u.round_no <= u.mode.last_round() {
            out.push(u);
        }
        i = i + 1;
    }
    proof {
        assert(v@.take(n as int) =~= v@);
    }
    out
}

} // verus!
