//! The content graph: the immutable bundle of classes, skills, effects and
//! maps a match runs against, plus the class/skill applicability indices.
//! Built once before any match and never mutated while matches run.

use crate::class::Class;
use crate::effect::Effect;
use crate::id_map::{Id, IdMap};
use crate::map::GameMap;
use crate::skill::Skill;
use vstd::prelude::*;

verus! {

pub struct GameDefinition {
    pub classes: IdMap<Class>,
    pub skills: IdMap<Skill>,
    pub effects: IdMap<Effect>,
    pub maps: IdMap<GameMap>,

    /// The skills each class may use, indexed by the class identifier.
    pub class_to_skills: Vec<Vec<Id<Skill>>>,
    /// The classes each skill belongs to, indexed by the skill identifier.
    pub skill_to_classes: Vec<Vec<Id<Class>>>,
}

impl GameDefinition {
    /// Internal consistency, assumed established by content loading and
    /// required by the match engine: every effect a skill lists resolves in
    /// the effect arena, no skill lists an effect twice, and every skill's
    /// range bounds are machine-workable.
    pub open spec fn wf(self) -> bool {
        forall|i: int|
            0 <= i < self.skills@.len() ==> {
                let sk = #[trigger] self.skills@[i];
                &&& forall|j: int|
                    0 <= j < sk.effects@.len()
                        ==> (#[trigger] sk.effects@[j]).0 < self.effects@.len()
                &&& sk.effects_distinct()
                &&& sk.range.min <= 0x7fff_ffff
                &&& sk.range.max <= 0x7fff_ffff
            }
    }
}

} // verus!
