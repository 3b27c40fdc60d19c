//! Game modes and their policy functions.

use vstd::prelude::*;

verus! {

/// Per-mode policy functions consulted by the allocator and forwarder.
pub trait GameLogic {
    /// Index of the final round of a game in this mode.
    spec fn spec_last_round(&self) -> u64;

    /// Time budget, in seconds, granted for one attempt of the given round.
    spec fn spec_time_limit(&self, round_no: u64) -> i64;

    /// Number of concurrent attempts a round of the given number admits.
    spec fn spec_multiplex(&self, round_no: u64) -> u64;

    fn last_round(&self) -> (r: u64)
        ensures
            r == self.spec_last_round(),
    ;

    fn time_limit(&self, round_no: u64) -> (r: i64)
        ensures
            r == self.spec_time_limit(round_no),
    ;

    fn prompt(&self, round_no: u64) -> &'static str;

    fn multiplex(&self, round_no: u64) -> (r: u64)
        ensures
            r == self.spec_multiplex(round_no),
    ;
}

#[derive(Clone, Copy, Debug, PartialEq, Eq, Structural)]
pub struct Ross;

impl GameLogic for Ross {
    open spec fn spec_last_round(&self) -> u64 {
        4
    }

    open spec fn spec_time_limit(&self, round_no: u64) -> i64 {
        if round_no < 4 {
            900
        } else {
            5200
        }
    }

    open spec fn spec_multiplex(&self, round_no: u64) -> u64 {
        if round_no <= 4 {
            1
        } else {
            0
        }
    }

    fn last_round(&self) -> u64 {
        4
    }

    fn time_limit(&self, round_no: u64) -> i64 {
        if round_no < self.last_round() {
            900
        } else {
            5200
        }
    }

    fn prompt(&self, round_no: u64) -> &'static str {
        if round_no < self.last_round() {
            "Draw an attribute."
        } else {
            "Draw a character using the attributes."
        }
    }

    fn multiplex(&self, round_no: u64) -> u64 {
        match round_no {
            0 => 1,
            1..=4 => 1,
            _ => 0,
        }
    }
}

#[derive(Clone, Copy, Debug, PartialEq, Eq, Structural)]
pub struct Evolution;

impl GameLogic for Evolution {
    open spec fn spec_last_round(&self) -> u64 {
        2
    }

    open spec fn spec_time_limit(&self, round_no: u64) -> i64 {
        if round_no == 0 {
            1800
        } else if round_no == 1 {
            2700
        } else {
            3600
        }
    }

    open spec fn spec_multiplex(&self, round_no: u64) -> u64 {
        1
    }

    fn last_round(&self) -> u64 {
        2
    }

    fn time_limit(&self, round_no: u64) -> i64 {
        match round_no {
            0 => 1800,
            1 => 2700,
            _ => 3600,
        }
    }

    fn prompt(&self, round_no: u64) -> &'static str {
        match round_no {
            0 => "Draw the first, base evolution",
            1 => "Draw the second evolution.",
            _ => "Draw the third, final evolution.",
        }
    }

    fn multiplex(&self, _round_no: u64) -> u64 {
        1
    }
}

#[derive(Clone, Copy, Debug, PartialEq, Eq, Structural)]
pub enum Mode {
    Ross,
    Evolution,
}

impl GameLogic for Mode {
    open spec fn spec_last_round(&self) -> u64 {
        match self {
            Mode::Ross => Ross.spec_last_round(),
            Mode::Evolution => Evolution.spec_last_round(),
        }
    }

    open spec fn spec_time_limit(&self, round_no: u64) -> i64 {
        match self {
            Mode::Ross => Ross.spec_time_limit(round_no),
            Mode::Evolution => Evolution.spec_time_limit(round_no),
        }
    }

    open spec fn spec_multiplex(&self, round_no: u64) -> u64 {
        match self {
            Mode::Ross => Ross.spec_multiplex(round_no),
            Mode::Evolution => Evolution.spec_multiplex(round_no),
        }
    }

    fn last_round(&self) -> u64 {
        match self {
            Mode::Ross => Ross.last_round(),
            Mode::Evolution => Evolution.last_round(),
        }
    }

    fn time_limit(&self, round_no: u64) -> i64 {
        match self {
            Mode::Ross => Ross.time_limit(round_no),
            Mode::Evolution => Evolution.time_limit(round_no),
        }
    }

    fn prompt(&self, round_no: u64) -> &'static str {
        match self {
            Mode::Ross => Ross.prompt(round_no),
            Mode::Evolution => Evolution.prompt(round_no),
        }
    }

    fn multiplex(&self, round_no: u64) -> u64 {
        match self {
            Mode::Ross => Ross.multiplex(round_no),
            Mode::Evolution => Evolution.multiplex(round_no),
        }
    }
}

/// Every mode grants at least one slot to the opening round, so the
/// allocator may always create a fresh round-zero slot.
pub proof fn lemma_round_zero_has_capacity(mode: Mode)
    ensures
        mode.spec_multiplex(0) >= 1,
{
}

/// One player's private view of a running game: the mode and the
/// image references collected from the rounds finished so far.
#[derive(Clone, Debug)]
pub struct GameSession {
    pub mode: Mode,
    pub images: Vec<u64>,
}

impl GameSession {
    pub fn new(mode: Mode) -> (r: Self)
        ensures
            r.mode == mode,
            r.images@.len() == 0,
    {
        Self { images: vec![], mode }
    }

    /// The round the session stands at: one finished image per completed round.
    pub fn round(&self) -> (r: u64)
        requires
            self.images@.len() <= u64::MAX,
        ensures
            r == self.images@.len(),
    {
        self.images.len() as u64
    }
}

} // verus!
