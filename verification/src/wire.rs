//! The in-process boundary values a transport/session layer exchanges with
//! the core: requests and responses as plain structured data. Serialization
//! itself is a concern of the excluded boundary layer.

use crate::character::Character;
use crate::game_state::{Action as GameAction, GameState};
use crate::id_map::Id;
use crate::map::{GameMap, TeamId};
use crate::skill::Skill;
use vstd::prelude::*;

verus! {

/// A team as the boundary layer names one.
#[derive(Clone, Copy, Debug, PartialEq, Eq, Structural)]
pub enum Team {
    Evil,
    Eviler,
}

/// What kind of action a request submits.
#[derive(Clone, Copy, Debug)]
pub enum ActionKind {
    Movement,
    Skill(Id<Skill>),
}

/// An action as submitted over the boundary: its kind and the targeted
/// cell.
#[derive(Clone, Copy, Debug)]
pub struct Action {
    pub kind: ActionKind,
    pub target: Id<crate::map::Cell>,
}

/// A submitted in-match action.
#[derive(Clone, Copy, Debug)]
pub struct WireAction(pub GameAction);

/// A request to create one character before a match starts.
#[derive(Clone, Debug)]
pub struct WireNewCharRequest {
    pub name: String,
    pub class: Id<crate::class::Class>,
    pub team: TeamId,
    pub position: Id<crate::map::Cell>,
}

/// The answer to a successful match creation.
#[derive(Clone, Debug)]
pub struct WireCreatedGame {
    pub game_id: String,
    pub map: Id<GameMap>,
    pub team_size: usize,
}

/// The answer to a successful character creation.
#[derive(Clone, Debug)]
pub struct WireCreatedChar(pub String, pub Id<Character>);

/// A request to create a match on a map with a fixed roster size per team.
#[derive(Clone, Copy, Debug)]
pub struct WireNewGameRequest {
    pub map: Id<GameMap>,
    pub team_size: usize,
}

/// A match as seen from outside: running, still assembling its roster, or
/// absent.
pub enum WireGetGame {
    Running(GameState),
    BeingCreated(Id<GameMap>, usize),
    Absent,
}

} // verus!
