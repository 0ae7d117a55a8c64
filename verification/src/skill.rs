//! Skills: a named action with a mana cost, a geometric range, an optional
//! hit chance, and the set of effects it applies.

use crate::effect::{Effect, Range};
use crate::id_map::Id;
use vstd::prelude::*;

verus! {

#[derive(Clone, Debug)]
pub struct Skill {
    pub name: String,

    /// Mana cost of casting the skill.
    pub cost: i32,
    pub range: Range,
    /// Hit chance in parts per thousand; `None` means certain. Unused by
    /// the deterministic resolution path of the core.
    pub precision: Option<i32>,
    /// The effects the skill applies, without duplicates.
    pub effects: Vec<Id<Effect>>,
}

impl Skill {
    /// The effect list stands for a set: no effect identifier repeats.
    pub open spec fn effects_distinct(self) -> bool {
        forall|i: int, j: int|
            0 <= i < j < self.effects@.len() ==> self.effects@[i].0 != self.effects@[j].0
    }
}

} // verus!
