//! The match engine: live characters, the active map, the turn order, and
//! the per-turn phase, driven one action at a time.
//!
//! The turn order is recomputed only when it is empty (at match start and at
//! the start of every round): all characters, sorted ascending by effective
//! swiftness and consumed from the end, so the swiftest acts first. Ties are
//! broken by the identifier value, ascending, which makes the order
//! deterministic.

use crate::character::Character;
use crate::damage::{damage_fits, damage_value, sum_int};
use crate::effect::{Effect, EffectKind, Target};
use crate::error::Error;
use crate::game_definition::GameDefinition;
use crate::id_map::{Id, IdMap};
use crate::map::{Cell, GameMap, TeamId};
use crate::skill::Skill;
use vstd::prelude::*;

verus! {

/// The phase of the current turn: whether a movement may still be spent.
#[derive(Clone, Copy, Debug, PartialEq, Eq, Structural)]
pub enum TurnState {
    MoveOrAction,
    ActionOnly,
}

/// The only externally submitted input to the match engine.
#[derive(Clone, Copy, Debug)]
pub enum Action {
    Movement(Id<Cell>),
    Skill(Id<Skill>, Id<Cell>),
}

/// Live match state; mutated by every action.
pub struct GameState {
    pub characters: IdMap<Character>,
    pub map: Id<GameMap>,
    pub turn_order: Vec<Id<Character>>,
    pub turn_state: TurnState,
}

/// The effective swiftness of the character at index `i`, which echoes its
/// class template.
pub open spec fn swiftness_of(g: GameDefinition, chars: Seq<Character>, i: int) -> int {
    g.classes@[chars[i].class.0 as int].swiftness as int
}

/// The initiative order: lower swiftness comes first, ties resolved by the
/// identifier value ascending.
pub open spec fn initiative_le(
    g: GameDefinition,
    chars: Seq<Character>,
    a: Id<Character>,
    b: Id<Character>,
) -> bool {
    ||| swiftness_of(g, chars, a.0 as int) < swiftness_of(g, chars, b.0 as int)
    ||| (swiftness_of(g, chars, a.0 as int) == swiftness_of(g, chars, b.0 as int) && a.0 <= b.0)
}

/// The index of the first (lowest-identifier) character standing on `cell`,
/// scanning from `i`.
pub open spec fn first_at_from(chars: Seq<Character>, cell: int, i: int) -> Option<int>
    decreases chars.len() - i,
{
    if 0 <= i < chars.len() {
        if chars[i].position.0 == cell {
            Some(i)
        } else {
            first_at_from(chars, cell, i + 1)
        }
    } else {
        None
    }
}

/// The occupant of `cell`, if any: the first character standing on it.
pub open spec fn first_at(chars: Seq<Character>, cell: int) -> Option<int> {
    first_at_from(chars, cell, 0)
}

/// Whether a target (the occupant of the targeted cell, if any) satisfies
/// the skill's target policy.
pub open spec fn target_matches(
    attacker: Character,
    target: Option<Character>,
    kind: Target,
) -> bool {
    match target {
        Some(t) => match kind {
            Target::Anything => true,
            Target::Anyone => true,
            Target::Enemy => t.team.0 != attacker.team.0,
            Target::Ally => t.team.0 == attacker.team.0,
        },
        None => kind == Target::Anything,
    }
}

/// The damage value of one effect against a fixed attacker and defender; a
/// buff effect contributes no direct damage.
pub open spec fn effect_damage(
    g: GameDefinition,
    att: Character,
    def: Character,
    eid: Id<Effect>,
) -> int {
    match g.effects@[eid.0 as int].kind {
        EffectKind::DirectDamage(dd) => damage_value(
            dd.damage,
            g.classes@[att.class.0 as int].strength as int,
            g.classes@[def.class.0 as int].health as int,
            g.classes@[def.class.0 as int].armor as int,
            g.classes@[def.class.0 as int].willpower as int,
        ),
        EffectKind::Buff(_) => 0,
    }
}

/// The damage each of a skill's effects deals to the target, in effect
/// order.
pub open spec fn skill_damages(
    g: GameDefinition,
    att: Character,
    def: Character,
    effects: Seq<Id<Effect>>,
) -> Seq<int> {
    effects.map(|k: int, eid: Id<Effect>| effect_damage(g, att, def, eid))
}

/// Whether any of a skill's effects is a buff, whose resolution the core
/// does not define.
pub open spec fn skill_has_buff(g: GameDefinition, sk: Skill) -> bool {
    exists|j: int|
        0 <= j < sk.effects@.len() && (g.effects@[(#[trigger] sk.effects@[j]).0 as int].kind
            matches EffectKind::Buff(_))
}

/// Every damage value the skill produces fits the machine type, and so does
/// the target's health after each applied update.
pub open spec fn skill_arith_ok(
    g: GameDefinition,
    att: Character,
    def: Character,
    sk: Skill,
) -> bool {
    let ds = skill_damages(g, att, def, sk.effects@);
    &&& forall|k: int|
        0 <= k < sk.effects@.len()
            ==> match g.effects@[(#[trigger] sk.effects@[k]).0 as int].kind {
                EffectKind::DirectDamage(dd) => damage_fits(
                    dd.damage,
                    g.classes@[att.class.0 as int].strength as int,
                    g.classes@[def.class.0 as int].health as int,
                    g.classes@[def.class.0 as int].armor as int,
                    g.classes@[def.class.0 as int].willpower as int,
                ),
                EffectKind::Buff(_) => true,
            }
    &&& forall|k: int|
        0 <= k <= ds.len() ==> i32::MIN <= def.current_health - sum_int(#[trigger] ds.take(k))
            <= i32::MAX
}

impl GameState {
    /// The map this match is played on.
    pub open spec fn active_map(self, g: GameDefinition) -> GameMap {
        g.maps@[self.map.0 as int]
    }

    /// The identifier of the character whose turn it is.
    pub open spec fn current_id(self) -> Id<Character> {
        self.turn_order@.last()
    }

    /// Internal consistency the engine maintains and relies on: the content
    /// graph is consistent, the active map resolves and is workable, every
    /// character's class resolves and its position is a cell of the map, no
    /// two characters share a cell, and the turn order holds valid,
    /// pairwise-distinct character identifiers.
    pub open spec fn wf(self, g: GameDefinition) -> bool {
        &&& g.wf()
        &&& self.map.0 < g.maps@.len()
        &&& self.active_map(g).bounded()
        &&& forall|i: int|
            0 <= i < self.characters@.len() ==> (#[trigger] self.characters@[i]).class.0
                < g.classes@.len()
        &&& forall|i: int|
            0 <= i < self.characters@.len() ==> (#[trigger] self.characters@[i]).position.0
                < self.active_map(g).data@.len()
        &&& forall|i: int, j: int|
            0 <= i < j < self.characters@.len() ==> (#[trigger] self.characters@[i]).position.0
                != (#[trigger] self.characters@[j]).position.0
        &&& forall|i: int|
            0 <= i < self.turn_order@.len() ==> (#[trigger] self.turn_order@[i]).0
                < self.characters@.len()
        &&& forall|i: int, j: int|
            0 <= i < j < self.turn_order@.len() ==> (#[trigger] self.turn_order@[i]).0
                != (#[trigger] self.turn_order@[j]).0
    }

    /// The turn order is exactly the characters sorted ascending by
    /// swiftness, ties by identifier: one entry per character, each valid
    /// and distinct, in nondecreasing initiative order.
    pub open spec fn turn_order_sorted(self, g: GameDefinition) -> bool {
        &&& self.turn_order@.len() == self.characters@.len()
        &&& forall|i: int|
            0 <= i < self.turn_order@.len() ==> (#[trigger] self.turn_order@[i]).0
                < self.characters@.len()
        &&& forall|i: int, j: int|
            0 <= i < j < self.turn_order@.len() ==> (#[trigger] self.turn_order@[i]).0
                != (#[trigger] self.turn_order@[j]).0
        &&& forall|i: int, j: int|
            0 <= i < j < self.turn_order@.len() ==> initiative_le(
                g,
                self.characters@,
                #[trigger] self.turn_order@[i],
                #[trigger] self.turn_order@[j],
            )
    }

    /// Recomputes the turn order for a new round: all characters, sorted
    /// ascending by effective swiftness with identifier ties ascending, to
    /// be consumed from the end (the swiftest acts first).
    pub fn new_turn(&mut self, g: &GameDefinition)
        requires
            old(self).turn_order@.len() == 0,
            forall|i: int|
                0 <= i < old(self).characters@.len() ==> (#[trigger] old(
                    self,
                ).characters@[i]).class.0 < g.classes@.len(),
        ensures
            final(self).characters@ =~= old(self).characters@,
            final(self).map == old(self).map,
            final(self).turn_state == old(self).turn_state,
            final(self).turn_order_sorted(*g),
            old(self).wf(*g) ==> final(self).wf(*g),
    {
        let n = self.characters.len();
        let mut order: Vec<Id<Character>> = self.characters.ids();
        let mut i: usize = 1;
        while i < n
            invariant
                n == self.characters@.len(),
                order@.len() == n,
                1 <= i,
                i <= n || n == 0,
                forall|k: int|
                    0 <= k < order@.len() ==> (#[trigger] order@[k]).0 < self.characters@.len(),
                forall|k: int, l: int|
                    0 <= k < l < order@.len() ==> (#[trigger] order@[k]).0
                        != (#[trigger] order@[l]).0,
                forall|k: int, l: int|
                    0 <= k < l < i ==> initiative_le(
                        *g,
                        self.characters@,
                        #[trigger] order@[k],
                        #[trigger] order@[l],
                    ),
                forall|k: int|
                    0 <= k < self.characters@.len() ==> (#[trigger] self.characters@[k]).class.0
                        < g.classes@.len(),
            decreases n - i,
        {
            let mut j: usize = i;
            let mut advancing = true;
            while j > 0 && advancing
                invariant
                    n == self.characters@.len(),
                    order@.len() == n,
                    i < n,
                    j <= i,
                    forall|k: int|
                        0 <= k < order@.len() ==> (#[trigger] order@[k]).0
                            < self.characters@.len(),
                    forall|k: int, l: int|
                        0 <= k < l < order@.len() ==> (#[trigger] order@[k]).0
                            != (#[trigger] order@[l]).0,
                    forall|k: int, l: int|
                        0 <= k < l <= i && l != j ==> initiative_le(
                            *g,
                            self.characters@,
                            #[trigger] order@[k],
                            #[trigger] order@[l],
                        ),
                    forall|l: int|
                        j < l <= i ==> initiative_le(
                            *g,
                            self.characters@,
                            order@[j as int],
                            #[trigger] order@[l],
                        ),
                    !advancing ==> j > 0 && initiative_le(
                        *g,
                        self.characters@,
                        order@[j - 1],
                        order@[j as int],
                    ),
                    forall|k: int|
                        0 <= k < self.characters@.len()
                            ==> (#[trigger] self.characters@[k]).class.0 < g.classes@.len(),
                decreases j + (if advancing {
                    1int
                } else {
                    0
                }),
            {
                let a = order[j - 1];
                let b = order[j];
                let sa = g.classes.get(self.characters.get(a).unwrap().class).unwrap().swiftness;
                let sb = g.classes.get(self.characters.get(b).unwrap().class).unwrap().swiftness;
                if sa < sb || (sa == sb && a.raw() <= b.raw()) {
                    advancing = false;
                } else {
                    order.set(j - 1, b);
                    order.set(j, a);
                    j -= 1;
                }
            }
            proof {
                assert forall|k: int, l: int| 0 <= k < l <= i implies initiative_le(
                    *g,
                    self.characters@,
                    order@[k],
                    order@[l],
                ) by {
                    if l == j {
                        assert(j > 0);
                        if k < j - 1 {
                            assert(initiative_le(*g, self.characters@, order@[k], order@[j - 1]));
                        }
                        assert(initiative_le(*g, self.characters@, order@[j - 1], order@[l]));
                    }
                }
            }
            i += 1;
        }
        self.turn_order = order;
    }

    /// A fresh match: the roster, the battlefield, the first round's turn
    /// order, and a full turn to spend.
    pub fn new(g: &GameDefinition, characters: IdMap<Character>, map: Id<GameMap>) -> (r:
        GameState)
        requires
            g.wf(),
            map.0 < g.maps@.len(),
            g.maps@[map.0 as int].bounded(),
            forall|i: int|
                0 <= i < characters@.len() ==> (#[trigger] characters@[i]).class.0
                    < g.classes@.len(),
            forall|i: int|
                0 <= i < characters@.len() ==> (#[trigger] characters@[i]).position.0
                    < g.maps@[map.0 as int].data@.len(),
            forall|i: int, j: int|
                0 <= i < j < characters@.len() ==> (#[trigger] characters@[i]).position.0
                    != (#[trigger] characters@[j]).position.0,
        ensures
            r.characters@ =~= characters@,
            r.map == map,
            r.turn_state == TurnState::MoveOrAction,
            r.turn_order_sorted(*g),
            r.wf(*g),
    {
        let mut gs = GameState {
            characters,
            map,
            turn_order: Vec::new(),
            turn_state: TurnState::MoveOrAction,
        };
        gs.new_turn(g);
        gs
    }

    /// Whose turn it is: the last entry of the turn order, if a round is in
    /// progress.
    pub fn player_to_play(&self) -> (r: Option<Id<Character>>)
        ensures
            match r {
                Some(id) => self.turn_order@.len() > 0 && id == self.turn_order@.last(),
                None => self.turn_order@.len() == 0,
            },
    {
        let n = self.turn_order.len();
        if n == 0 {
            None
        } else {
            Some(self.turn_order[n - 1])
        }
    }

    /// The character occupying a cell, if any: the lowest identifier wins,
    /// though positions are unique in a consistent state.
    fn player_at(&self, cell: Id<Cell>) -> (r: Option<Id<Character>>)
        ensures
            match r {
                Some(id) => first_at(self.characters@, cell.0 as int) == Some(id.0 as int),
                None => first_at(self.characters@, cell.0 as int) is None,
            },
    {
        let n = self.characters.len();
        let mut i: usize = 0;
        while i < n
            invariant
                n == self.characters@.len(),
                i <= n,
                first_at(self.characters@, cell.0 as int) == first_at_from(
                    self.characters@,
                    cell.0 as int,
                    i as int,
                ),
            decreases n - i,
        {
            proof {
                reveal_with_fuel(first_at_from, 2);
            }
            if self.characters.get(Id::new(i)).unwrap().position.raw() == cell.raw() {
                return Some(Id::new(i));
            }
            i += 1;
        }
        None
    }

    /// Whether a target satisfies the skill's target policy: `Anything`
    /// admits any cell including empty ones; `Anyone` any occupant; `Enemy`
    /// an occupant of another team; `Ally` an occupant of the same team.
    pub fn check_target(attacker: &Character, target: Option<&Character>, target_kind: Target) -> (r:
        bool)
        ensures
            r == target_matches(
                *attacker,
                match target {
                    Some(t) => Some(*t),
                    None => None,
                },
                target_kind,
            ),
    {
        match target {
            Some(t) => match target_kind {
                Target::Anything => true,
                Target::Anyone => true,
                Target::Enemy => t.team.raw() != attacker.team.raw(),
                Target::Ally => t.team.raw() == attacker.team.raw(),
            },
            None => match target_kind {
                Target::Anything => true,
                _ => false,
            },
        }
    }
}

/// A placeholder character, used only to swap a live one out of the arena
/// for the duration of a field update.
fn placeholder_character() -> Character {
    Character {
        name: String::new(),
        class: Id::new(0),
        current_health: 0,
        current_mana: 0,
        position: Id::new(0),
        buffs: Vec::new(),
        team: TeamId::new(0),
    }
}

/// Both states hold the same characters, map, turn order and phase.
pub open spec fn same_state(a: GameState, b: GameState) -> bool {
    &&& a.characters@ =~= b.characters@
    &&& a.map == b.map
    &&& a.turn_order@ =~= b.turn_order@
    &&& a.turn_state == b.turn_state
}

/// The character arena after a skill resolves against the target at index
/// `ti`: the target's health drops by the summed damage values of every
/// listed effect, and nothing else changes.
pub open spec fn chars_after_skill(
    g: GameDefinition,
    chars: Seq<Character>,
    att: Character,
    ti: int,
    sk: Skill,
) -> Seq<Character> {
    let total = sum_int(skill_damages(g, att, chars[ti], sk.effects@));
    chars.update(
        ti,
        Character { current_health: (chars[ti].current_health - total) as i32, ..chars[ti] },
    )
}

/// Positions found by the occupant scan are real, and a miss means no
/// character from the scan start onward stands on the cell.
proof fn lemma_first_at_from_props(chars: Seq<Character>, cell: int, i: int)
    requires
        0 <= i,
    ensures
        match first_at_from(chars, cell, i) {
            Some(t) => i <= t < chars.len() && chars[t].position.0 == cell,
            None => forall|j: int| i <= j < chars.len() ==> (#[trigger] chars[j]).position.0 != cell,
        },
    decreases chars.len() - i,
{
    if 0 <= i < chars.len() {
        if chars[i].position.0 == cell {
        } else {
            lemma_first_at_from_props(chars, cell, i + 1);
        }
    }
}

impl GameState {
    /// The arithmetic precondition of a skill action: whenever the skill
    /// resolves, its target policy and range admit the targeted cell, and a
    /// character occupies it, every damage value and every intermediate
    /// health must fit the machine types.
    pub open spec fn skill_action_fits(self, g: GameDefinition, sid: Id<Skill>, cid: Id<Cell>) -> bool {
        let chars = self.characters@;
        let att = chars[self.current_id().0 as int];
        sid.0 < g.skills@.len() ==> {
            let sk = g.skills@[sid.0 as int];
            match first_at(chars, cid.0 as int) {
                Some(ti) => (target_matches(att, Some(chars[ti]), sk.range.target)
                    && self.active_map(g).range_matches_spec(
                    att.position.0 as int,
                    cid.0 as int,
                    sk.range,
                )) ==> skill_arith_ok(g, att, chars[ti], sk),
                None => true,
            }
        }
    }

    /// Resolves one submitted action for the character whose turn it is.
    ///
    /// A skill is permitted in either phase: the skill must resolve, its
    /// target policy and geometric range must admit the targeted cell, and
    /// a buff among its effects is unsupported; on success every effect's
    /// damage value is applied to the occupant of the cell (if any), the
    /// turn ends, and the result reports whether the round just ended.
    ///
    /// A movement is permitted only while the turn's movement is unspent;
    /// it must be reachable within the character's effective swiftness, and
    /// on success spends the movement without consuming the turn.
    pub fn next_action(&mut self, g: &GameDefinition, ga: Action) -> (res: Result<bool, Error>)
        requires
            old(self).wf(*g),
            old(self).turn_order@.len() > 0,
            (ga matches Action::Skill(sid, cid) ==> cid.0 < old(self).active_map(
                *g,
            ).data@.len() && old(self).skill_action_fits(*g, sid, cid)),
        ensures
            final(self).wf(*g),
            ({
                let chars = old(self).characters@;
                let att = chars[old(self).current_id().0 as int];
                match ga {
                    Action::Movement(cid) => {
                        if old(self).turn_state == TurnState::ActionOnly {
                            &&& res == Err::<bool, Error>(Error::AlreadyMoved)
                            &&& same_state(*final(self), *old(self))
                        } else if !old(self).active_map(*g).reachable_within(
                            att.position.0 as int,
                            cid.0 as int,
                            swiftness_of(*g, chars, old(self).current_id().0 as int),
                        ) {
                            &&& res == Err::<bool, Error>(Error::MoveCellTooFar)
                            &&& same_state(*final(self), *old(self))
                        } else {
                            &&& res == Ok::<bool, Error>(false)
                            &&& final(self).characters@ =~= chars
                            &&& final(self).map == old(self).map
                            &&& final(self).turn_order@ =~= old(self).turn_order@
                            &&& final(self).turn_state == TurnState::ActionOnly
                        }
                    },
                    Action::Skill(sid, cid) => {
                        if sid.0 >= g.skills@.len() {
                            &&& res == Err::<bool, Error>(Error::InvalidSkill)
                            &&& same_state(*final(self), *old(self))
                        } else {
                            let sk = g.skills@[sid.0 as int];
                            let occ = first_at(chars, cid.0 as int);
                            let tgt = match occ {
                                Some(ti) => Some(chars[ti]),
                                None => None,
                            };
                            if !target_matches(att, tgt, sk.range.target) {
                                &&& res == Err::<bool, Error>(Error::InvalidTarget)
                                &&& same_state(*final(self), *old(self))
                            } else if !old(self).active_map(*g).range_matches_spec(
                                att.position.0 as int,
                                cid.0 as int,
                                sk.range,
                            ) {
                                &&& res == Err::<bool, Error>(Error::InvalidRange)
                                &&& same_state(*final(self), *old(self))
                            } else if occ is Some && skill_has_buff(*g, sk) {
                                &&& res == Err::<bool, Error>(Error::UnsupportedEffect)
                                &&& same_state(*final(self), *old(self))
                            } else {
                                &&& res == Ok::<bool, Error>(old(self).turn_order@.len() == 1)
                                &&& final(self).map == old(self).map
                                &&& final(self).turn_order@ =~= old(self).turn_order@.drop_last()
                                &&& final(self).turn_state == TurnState::MoveOrAction
                                &&& match occ {
                                    Some(ti) => final(self).characters@ =~= chars_after_skill(
                                        *g,
                                        chars,
                                        att,
                                        ti,
                                        sk,
                                    ),
                                    None => final(self).characters@ =~= chars,
                                }
                            }
                        }
                    },
                }
            }),
    {
        let n_order = self.turn_order.len();
        let curr_id = self.turn_order[n_order - 1];
        match ga {
            Action::Skill(skill_id, cell_id) => self.execute_skill(curr_id, g, skill_id, cell_id),
            Action::Movement(cell_id) => match self.turn_state {
                TurnState::MoveOrAction => self.execute_move(curr_id, g, cell_id),
                TurnState::ActionOnly => Err(Error::AlreadyMoved),
            },
        }
    }

    /// Validates a movement against the weighted reachability query with
    /// the character's effective swiftness as the budget; on success the
    /// turn phase moves to `ActionOnly` and nothing else changes.
    fn execute_move(&mut self, curr_id: Id<Character>, g: &GameDefinition, cell_id: Id<Cell>) -> (res:
        Result<bool, Error>)
        requires
            old(self).wf(*g),
            old(self).turn_order@.len() > 0,
            curr_id == old(self).current_id(),
            old(self).turn_state == TurnState::MoveOrAction,
        ensures
            final(self).wf(*g),
            ({
                let chars = old(self).characters@;
                let att = chars[curr_id.0 as int];
                if !old(self).active_map(*g).reachable_within(
                    att.position.0 as int,
                    cell_id.0 as int,
                    swiftness_of(*g, chars, curr_id.0 as int),
                ) {
                    &&& res == Err::<bool, Error>(Error::MoveCellTooFar)
                    &&& same_state(*final(self), *old(self))
                } else {
                    &&& res == Ok::<bool, Error>(false)
                    &&& final(self).characters@ =~= chars
                    &&& final(self).map == old(self).map
                    &&& final(self).turn_order@ =~= old(self).turn_order@
                    &&& final(self).turn_state == TurnState::ActionOnly
                }
            }),
    {
        let curr = self.characters.get(curr_id).unwrap();
        let class = g.classes.get(curr.class).unwrap();
        let swiftness = curr.effective_swiftness(class);
        let position = curr.position;
        let map = g.maps.get(self.map).unwrap();
        if map.can_move_to(position, cell_id, swiftness) {
            self.turn_state = TurnState::ActionOnly;
            Ok(false)
        } else {
            Err(Error::MoveCellTooFar)
        }
    }

    /// Resolves a skill cast at a cell: validates the skill, its target
    /// policy and its range, evaluates every effect against the occupant of
    /// the cell (if any), applies all accumulated damage values afterwards,
    /// and ends the turn.
    fn execute_skill(
        &mut self,
        curr_id: Id<Character>,
        g: &GameDefinition,
        skill_id: Id<Skill>,
        cell_id: Id<Cell>,
    ) -> (res: Result<bool, Error>)
        requires
            old(self).wf(*g),
            old(self).turn_order@.len() > 0,
            curr_id == old(self).current_id(),
            cell_id.0 < old(self).active_map(*g).data@.len(),
            old(self).skill_action_fits(*g, skill_id, cell_id),
        ensures
            final(self).wf(*g),
            final(self).turn_state == old(self).turn_state || final(self).turn_state
                == TurnState::MoveOrAction,
            ({
                let chars = old(self).characters@;
                let att = chars[curr_id.0 as int];
                if skill_id.0 >= g.skills@.len() {
                    &&& res == Err::<bool, Error>(Error::InvalidSkill)
                    &&& same_state(*final(self), *old(self))
                } else {
                    let sk = g.skills@[skill_id.0 as int];
                    let occ = first_at(chars, cell_id.0 as int);
                    let tgt = match occ {
                        Some(ti) => Some(chars[ti]),
                        None => None,
                    };
                    if !target_matches(att, tgt, sk.range.target) {
                        &&& res == Err::<bool, Error>(Error::InvalidTarget)
                        &&& same_state(*final(self), *old(self))
                    } else if !old(self).active_map(*g).range_matches_spec(
                        att.position.0 as int,
                        cell_id.0 as int,
                        sk.range,
                    ) {
                        &&& res == Err::<bool, Error>(Error::InvalidRange)
                        &&& same_state(*final(self), *old(self))
                    } else if occ is Some && skill_has_buff(*g, sk) {
                        &&& res == Err::<bool, Error>(Error::UnsupportedEffect)
                        &&& same_state(*final(self), *old(self))
                    } else {
                        &&& res == Ok::<bool, Error>(old(self).turn_order@.len() == 1)
                        &&& final(self).map == old(self).map
                        &&& final(self).turn_order@ =~= old(self).turn_order@.drop_last()
                        &&& final(self).turn_state == TurnState::MoveOrAction
                        &&& match occ {
                            Some(ti) => final(self).characters@ =~= chars_after_skill(
                                *g,
                                chars,
                                att,
                                ti,
                                sk,
                            ),
                            None => final(self).characters@ =~= chars,
                        }
                    }
                }
            }),
    {
        let ghost chars0 = self.characters@;
        let ghost att0 = chars0[curr_id.0 as int];

        let skill = match g.skills.get(skill_id) {
            None => {
                return Err(Error::InvalidSkill);
            },
            Some(s) => s,
        };
        let target_id = self.player_at(cell_id);
        proof {
            lemma_first_at_from_props(chars0, cell_id.0 as int, 0);
        }

        let attacker = self.characters.get(curr_id).unwrap();
        let target_ok = match target_id {
            Some(tid) => GameState::check_target(
                attacker,
                Some(self.characters.get(tid).unwrap()),
                skill.range.target,
            ),
            None => GameState::check_target(attacker, None, skill.range.target),
        };
        if !target_ok {
            return Err(Error::InvalidTarget);
        }

        let position = attacker.position;
        let map = g.maps.get(self.map).unwrap();
        if !map.range_matches(position, cell_id, &skill.range) {
            return Err(Error::InvalidRange);
        }

        if let Some(tid) = target_id {
            let ghost def0 = chars0[tid.0 as int];
            let ghost sk = g.skills@[skill_id.0 as int];
            let ghost ds = skill_damages(*g, att0, def0, sk.effects@);
            proof {
                assert(skill_arith_ok(*g, att0, def0, sk));
            }

            let mut updates: Vec<i32> = Vec::new();
            let ne = skill.effects.len();
            let mut k: usize = 0;
            while k < ne
                invariant
                    *self == *old(self),
                    old(self).wf(*g),
                    old(self).turn_order@.len() > 0,
                    chars0 == old(self).characters@,
                    curr_id == old(self).current_id(),
                    att0 == chars0[curr_id.0 as int],
                    tid.0 < chars0.len(),
                    def0 == chars0[tid.0 as int],
                    first_at(chars0, cell_id.0 as int) == Some(tid.0 as int),
                    target_matches(att0, Some(def0), sk.range.target),
                    old(self).active_map(*g).range_matches_spec(
                        att0.position.0 as int,
                        cell_id.0 as int,
                        sk.range,
                    ),
                    skill_id.0 < g.skills@.len(),
                    *skill == sk,
                    sk == g.skills@[skill_id.0 as int],
                    ds == skill_damages(*g, att0, def0, sk.effects@),
                    ne == sk.effects@.len(),
                    k <= ne,
                    updates@.map_values(|x: i32| x as int) =~= ds.take(k as int),
                    forall|j: int|
                        0 <= j < k ==> !(g.effects@[(#[trigger] sk.effects@[j]).0 as int].kind
                            matches EffectKind::Buff(_)),
                    skill_arith_ok(*g, att0, def0, sk),
                decreases ne - k,
            {
                let eid = skill.effects[k];
                proof {
                    assert(g.wf());
                    assert(sk.effects@[k as int].0 < g.effects@.len());
                }
                let effect = g.effects.get(eid).unwrap();
                match &effect.kind {
                    EffectKind::Buff(_) => {
                        proof {
                            assert(skill_has_buff(*g, sk));
                        }
                        return Err(Error::UnsupportedEffect);
                    },
                    EffectKind::DirectDamage(direct_damage) => {
                        let attacker = self.characters.get(curr_id).unwrap();
                        let defender = self.characters.get(tid).unwrap();
                        let damage = direct_damage.damage.compute_damage(
                            &g.classes,
                            attacker,
                            defender,
                        );
                        proof {
                            assert(damage as int == ds[k as int]);
                            assert(ds.take(k as int + 1).drop_last() =~= ds.take(k as int));
                            assert(ds.take(k as int + 1).last() == ds[k as int]);
                        }
                        updates.push(damage);
                        proof {
                            assert(updates@.map_values(|x: i32| x as int) =~= ds.take(
                                k as int,
                            ).push(damage as int));
                        }
                    },
                }
                k += 1;
            }
            proof {
                assert(!skill_has_buff(*g, sk));
                assert(ds.take(ne as int) =~= ds);
            }

            let ghost dd = ds;
            let ghost to0 = self.turn_order@;
            let ghost ts0 = self.turn_state;
            let ghost map0 = self.map;
            let m = updates.len();
            let mut q: usize = 0;
            proof {
                assert(dd.take(0) =~= Seq::<int>::empty());
                assert(chars0.update(
                    tid.0 as int,
                    Character { current_health: def0.current_health, ..def0 },
                ) =~= chars0);
            }
            while q < m
                invariant
                    g.wf(),
                    self.map == map0,
                    self.turn_order@ =~= to0,
                    self.turn_state == ts0,
                    map0.0 < g.maps@.len(),
                    tid.0 < chars0.len(),
                    def0 == chars0[tid.0 as int],
                    self.characters@.len() == chars0.len(),
                    q <= m,
                    m == updates@.len(),
                    updates@.map_values(|x: i32| x as int) =~= dd,
                    skill_arith_ok(*g, att0, def0, sk),
                    dd == skill_damages(*g, att0, def0, sk.effects@),
                    self.characters@ =~= chars0.update(
                        tid.0 as int,
                        Character {
                            current_health: (def0.current_health - sum_int(
                                dd.take(q as int),
                            )) as i32,
                            ..def0
                        },
                    ),
                decreases m - q,
            {
                let d = updates[q];
                proof {
                    assert(updates@.map_values(|x: i32| x as int)[q as int] == dd[q as int]);
                    assert(d as int == dd[q as int]);
                    assert(dd.take(q as int + 1).drop_last() =~= dd.take(q as int));
                    assert(dd.take(q as int + 1).last() == dd[q as int]);
                    assert(sum_int(dd.take(q as int + 1)) == sum_int(dd.take(q as int)) + dd[q
                        as int]);
                    assert(dd.take(m as int) =~= dd);
                }
                let mut defender = self.characters.replace(tid, placeholder_character());
                defender.current_health = defender.current_health - d;
                let _ = self.characters.replace(tid, defender);
                proof {
                    assert(self.characters@ =~= chars0.update(
                        tid.0 as int,
                        Character {
                            current_health: (def0.current_health - sum_int(
                                dd.take(q as int + 1),
                            )) as i32,
                            ..def0
                        },
                    ));
                }
                q += 1;
            }
            proof {
                assert(dd.take(m as int) =~= dd);
                assert(self.characters@ =~= chars_after_skill(*g, chars0, att0, tid.0 as int, sk));
            }
        }

        let ghost before_pop = self.turn_order@;
        let _ = self.turn_order.pop();
        self.turn_state = TurnState::MoveOrAction;
        proof {
            assert(self.turn_order@ =~= before_pop.drop_last());
            assert forall|i: int, j: int|
                0 <= i < j < self.turn_order@.len() implies (#[trigger] self.turn_order@[i]).0
                != (#[trigger] self.turn_order@[j]).0 by {
                assert(before_pop[i] == self.turn_order@[i]);
                assert(before_pop[j] == self.turn_order@[j]);
            }
        }
        Ok(self.turn_order.len() == 0)
    }
}

} // verus!
