//! The player-facing command vocabulary and the decisions derived from
//! it, kept apart from any command-parsing framework.

use crate::assets::AssetKind;
use crate::game::Mode;
use vstd::prelude::*;

verus! {

/// The game-mode choice of the command that starts a game.
#[derive(Clone, Copy, Debug, PartialEq, Eq, Structural)]
pub enum GameArg {
    Ross,
}

/// The game-mode choice of the command that aborts a session.
#[derive(Clone, Copy, Debug, PartialEq, Eq, Structural)]
pub enum GamemodeArg {
    Ross,
}

/// The asset-kind choice of the asset management commands.
#[derive(Clone, Copy, Debug, PartialEq, Eq, Structural)]
pub enum AssetKindArg {
    InConstruction,
    DrawThis,
}

/// The notification preference a player may pick.
#[derive(Clone, Copy, Debug, PartialEq, Eq, Structural)]
pub enum NotificationArg {
    Disable,
    Once,
    Always,
}

/// The engine mode a start-command choice stands for.
pub fn map_game(mode: GameArg) -> (r: Mode)
    ensures
        r == Mode::Ross,
{
    match mode {
        GameArg::Ross => Mode::Ross,
    }
}

/// The engine mode an abort-command choice stands for.
pub fn map_gamemode(mode: GamemodeArg) -> (r: Mode)
    ensures
        r == Mode::Ross,
{
    match mode {
        GamemodeArg::Ross => Mode::Ross,
    }
}

impl From<AssetKindArg> for AssetKind {
    fn from(value: AssetKindArg) -> (r: AssetKind) {
        match value {
            AssetKindArg::InConstruction => AssetKind::InConstruction,
            AssetKindArg::DrawThis => AssetKind::DrawThis,
        }
    }
}

impl vstd::std_specs::convert::FromSpecImpl<AssetKindArg> for AssetKind {
    open spec fn obeys_from_spec() -> bool {
        true
    }

    open spec fn from_spec(t: AssetKindArg) -> AssetKind {
        match t {
            AssetKindArg::InConstruction => AssetKind::InConstruction,
            AssetKindArg::DrawThis => AssetKind::DrawThis,
        }
    }
}

/// What a notification choice means for the engine and the chat role:
/// whether the one-shot flag is set, and whether the player holds the
/// always-notify role afterwards.
#[derive(Clone, Copy, Debug, PartialEq, Eq, Structural)]
pub struct NotificationPlan {
    pub notify_once: bool,
    pub always_role: bool,
}

pub fn notification_plan(arg: NotificationArg) -> (r: NotificationPlan)
    ensures
        r == match arg {
            NotificationArg::Disable => NotificationPlan { notify_once: false, always_role: false },
            NotificationArg::Once => NotificationPlan { notify_once: true, always_role: false },
            NotificationArg::Always => NotificationPlan { notify_once: false, always_role: true },
        },
{
    match arg {
        NotificationArg::Disable => NotificationPlan { notify_once: false, always_role: false },
        NotificationArg::Once => NotificationPlan { notify_once: true, always_role: false },
        NotificationArg::Always => NotificationPlan { notify_once: false, always_role: true },
    }
}

/// The configured moderation reactions.
#[derive(Clone, Copy, Debug, PartialEq, Eq, Structural)]
pub struct Reactions {
    pub accept: char,
    pub reject: char,
    pub reroll: char,
    pub delete: char,
}

impl Reactions {
    /// What a moderator's reaction means: `Some(true)` to approve,
    /// `Some(false)` to reject, `None` for anything else.  Should the
    /// configuration make both reactions the same, approval wins.
    pub fn verdict(&self, reaction: char) -> (r: Option<bool>)
        ensures
            r == if reaction == self.accept {
                Some(true)
            } else if reaction == self.reject {
                Some(false)
            } else {
                None::<bool>
            },
    {
        if reaction == self.accept {
            Some(true)
        } else if reaction == self.reject {
            Some(false)
        } else {
            None
        }
    }
}

} // verus!
