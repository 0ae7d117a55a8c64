//! Live characters and the roster-assembly builder that places them onto a
//! map's reserved starting cells before a match begins.

use crate::class::Class;
use crate::effect::Buff;
use crate::error::Error;
use crate::game_definition::GameDefinition;
use crate::id_map::{Id, IdMap, IdMapBuilder};
use crate::map::{Cell, GameMap, Team, TeamId};
use vstd::prelude::*;

verus! {

/// An active buff on a character. The stats of the buff's applier are a
/// planned extension of this record.
#[derive(Clone, Debug)]
pub struct BuffInstance(pub Buff);

/// A live entity: created at roster-assembly time from its class template,
/// mutated only by the match engine during action resolution. A character
/// is never destroyed mid-match; reduced below zero health it remains live
/// with a non-positive value.
#[derive(Clone, Debug)]
pub struct Character {
    pub name: String,
    pub class: Id<Class>,

    pub current_health: i32,
    pub current_mana: i32,
    pub position: Id<Cell>,
    pub buffs: Vec<BuffInstance>,
    pub team: TeamId,
}

impl Character {
    /// A fresh character: health and mana initialized from the class
    /// template, no active buffs.
    pub fn new(
        id: Id<Class>,
        position: Id<Cell>,
        class: &Class,
        name: String,
        team: TeamId,
    ) -> (c: Character)
        ensures
            c.name == name,
            c.class == id,
            c.current_health == class.health,
            c.current_mana == class.mana,
            c.position == position,
            c.buffs@.len() == 0,
            c.team == team,
    {
        Character {
            name,
            class: id,
            current_health: class.health,
            current_mana: class.mana,
            position,
            buffs: Vec::new(),
            team,
        }
    }

    // The effective stats echo the class template until buff folding is
    // wired in; each is a pure function of the character and its class.
    pub fn effective_health(&self, class: &Class) -> (r: i32)
        ensures
            r == class.health,
    {
        class.health
    }

    pub fn effective_mana(&self, class: &Class) -> (r: i32)
        ensures
            r == class.mana,
    {
        class.mana
    }

    pub fn effective_swiftness(&self, class: &Class) -> (r: i32)
        ensures
            r == class.swiftness,
    {
        class.swiftness
    }

    pub fn effective_strength(&self, class: &Class) -> (r: i32)
        ensures
            r == class.strength,
    {
        class.strength
    }

    pub fn effective_dexterity(&self, class: &Class) -> (r: i32)
        ensures
            r == class.dexterity,
    {
        class.dexterity
    }

    pub fn effective_armor(&self, class: &Class) -> (r: i32)
        ensures
            r == class.armor,
    {
        class.armor
    }

    pub fn effective_intelligence(&self, class: &Class) -> (r: i32)
        ensures
            r == class.intelligence,
    {
        class.intelligence
    }

    pub fn effective_concentration(&self, class: &Class) -> (r: i32)
        ensures
            r == class.concentration,
    {
        class.concentration
    }

    pub fn effective_willpower(&self, class: &Class) -> (r: i32)
        ensures
            r == class.willpower,
    {
        class.willpower
    }
}

/// The characters that `str::trim` strips: Unicode whitespace.
pub open spec fn is_space_char(c: char) -> bool {
    ||| c == ' '
    ||| c == '\u{0009}'
    ||| c == '\u{000A}'
    ||| c == '\u{000B}'
    ||| c == '\u{000C}'
    ||| c == '\u{000D}'
    ||| c == '\u{0085}'
    ||| c == '\u{00A0}'
    ||| c == '\u{1680}'
    ||| c == '\u{2000}'
    ||| c == '\u{2001}'
    ||| c == '\u{2002}'
    ||| c == '\u{2003}'
    ||| c == '\u{2004}'
    ||| c == '\u{2005}'
    ||| c == '\u{2006}'
    ||| c == '\u{2007}'
    ||| c == '\u{2008}'
    ||| c == '\u{2009}'
    ||| c == '\u{200A}'
    ||| c == '\u{2028}'
    ||| c == '\u{2029}'
    ||| c == '\u{202F}'
    ||| c == '\u{205F}'
    ||| c == '\u{3000}'
}

/// A name is invalid when stripping surrounding whitespace leaves nothing:
/// that is, when every character is whitespace (an empty name included).
pub open spec fn name_blank(s: Seq<char>) -> bool {
    forall|i: int| 0 <= i < s.len() ==> is_space_char(#[trigger] s[i])
}

fn space_char(c: char) -> (r: bool)
    ensures
        r == is_space_char(c),
{
    c == ' ' || c == '\u{0009}' || c == '\u{000A}' || c == '\u{000B}' || c == '\u{000C}'
        || c == '\u{000D}' || c == '\u{0085}' || c == '\u{00A0}' || c == '\u{1680}'
        || c == '\u{2000}' || c == '\u{2001}' || c == '\u{2002}' || c == '\u{2003}'
        || c == '\u{2004}' || c == '\u{2005}' || c == '\u{2006}' || c == '\u{2007}'
        || c == '\u{2008}' || c == '\u{2009}' || c == '\u{200A}' || c == '\u{2028}'
        || c == '\u{2029}' || c == '\u{202F}' || c == '\u{205F}' || c == '\u{3000}'
}

fn is_blank(s: &String) -> (r: bool)
    ensures
        r == name_blank(s@),
{
    let st = s.as_str();
    let n = st.unicode_len();
    let mut i: usize = 0;
    while i < n
        invariant
            n == st@.len(),
            st@ == s@,
            i <= n,
            forall|j: int| 0 <= j < i ==> is_space_char(#[trigger] st@[j]),
        decreases n - i,
    {
        let c = st.get_char(i);
        if !space_char(c) {
            return false;
        }
        i += 1;
    }
    true
}

/// An element-for-element copy of a list of cell identifiers.
fn copy_cells(v: &Vec<Id<Cell>>) -> (r: Vec<Id<Cell>>)
    ensures
        r@ =~= v@,
{
    let n = v.len();
    let mut r: Vec<Id<Cell>> = Vec::new();
    let mut i: usize = 0;
    while i < n
        invariant
            n == v@.len(),
            i <= n,
            r@ =~= v@.subrange(0, i as int),
        decreases n - i,
    {
        r.push(v[i]);
        i += 1;
    }
    r
}

/// The first index at which a cell identifier occurs, if any.
fn find_cell(v: &Vec<Id<Cell>>, c: Id<Cell>) -> (r: Option<usize>)
    ensures
        match r {
            Some(k) => k < v@.len() && v@[k as int].0 == c.0 && forall|j: int|
                0 <= j < k ==> (#[trigger] v@[j]).0 != c.0,
            None => forall|j: int| 0 <= j < v@.len() ==> (#[trigger] v@[j]).0 != c.0,
        },
{
    let n = v.len();
    let mut i: usize = 0;
    while i < n
        invariant
            n == v@.len(),
            i <= n,
            forall|j: int| 0 <= j < i ==> (#[trigger] v@[j]).0 != c.0,
        decreases n - i,
    {
        if v[i].raw() == c.raw() {
            return Some(i);
        }
        i += 1;
    }
    None
}

/// Whether a raw cell identifier is among the reserved starting cells of
/// team `t`.
pub open spec fn cell_reserved(teams: Seq<Team>, t: int, pos: usize) -> bool {
    exists|a: int| 0 <= a < teams[t].1@.len() && (#[trigger] teams[t].1@[a]).0 == pos
}

/// A character stands on one of its own team's reserved starting cells.
pub open spec fn position_reserved(teams: Seq<Team>, c: Character) -> bool {
    &&& c.team.0 < teams.len()
    &&& cell_reserved(teams, c.team.0 as int, c.position.0)
}

/// The placement invariant a finished roster satisfies: every character's
/// position is unique, and lies within the reserved starting-cell set of
/// that character's team.
pub open spec fn roster_ok(chars: Seq<Character>, teams: Seq<Team>) -> bool {
    &&& forall|i: int, j: int|
        0 <= i < j < chars.len() ==> (#[trigger] chars[i]).position.0
            != (#[trigger] chars[j]).position.0
    &&& forall|i: int| 0 <= i < chars.len() ==> position_reserved(teams, #[trigger] chars[i])
}

/// Accumulates characters into a character arena while enforcing per-team
/// capacity and starting-cell exclusivity before a match can begin.
pub struct CharacterMapBuilder<'a> {
    pub builder: IdMapBuilder<Character>,
    /// Remaining capacity of each team, indexed by the team identifier.
    pub spots_left: Vec<usize>,
    /// Still-available starting cells of each team, indexed likewise.
    pub cells_left: Vec<Vec<Id<Cell>>>,
    pub game_definition: &'a GameDefinition,
    /// The map whose teams the roster is assembled for.
    pub map_id: Id<GameMap>,
}

impl<'a> CharacterMapBuilder<'a> {
    /// One capacity and one cell list per team.
    pub open spec fn wf(self) -> bool {
        self.spots_left@.len() == self.cells_left@.len()
    }

    /// The reserved starting cells of the builder's map, team by team.
    pub open spec fn teams(self) -> Seq<Team> {
        self.game_definition.maps@[self.map_id.0 as int].teams@
    }

    /// The builder's internal invariant, established by `new` and preserved
    /// by `add`: the map resolves and passed validation; one capacity and
    /// one remaining-cell list exist per team; every remaining cell comes
    /// from its team's reserved list, no cell remains available twice, and
    /// no accepted character's position remains available; the accepted
    /// characters already satisfy the placement invariant.
    pub open spec fn inv(self) -> bool {
        let teams = self.teams();
        &&& self.game_definition.maps.contains_id(self.map_id)
        &&& self.game_definition.maps@[self.map_id.0 as int].starting_cells_distinct()
        &&& self.spots_left@.len() == teams.len()
        &&& self.cells_left@.len() == teams.len()
        &&& forall|t: int, k: int|
            0 <= t < teams.len() && 0 <= k < self.cells_left@[t]@.len()
                ==> cell_reserved(teams, t, (#[trigger] self.cells_left@[t]@[k]).0)
        &&& forall|t: int, k1: int, k2: int|
            0 <= t < teams.len() && 0 <= k1 < k2 < self.cells_left@[t]@.len()
                ==> (#[trigger] self.cells_left@[t]@[k1]).0
                    != (#[trigger] self.cells_left@[t]@[k2]).0
        &&& forall|i: int, t: int, k: int|
            0 <= i < self.builder@.len() && 0 <= t < teams.len() && 0 <= k
                < self.cells_left@[t]@.len()
                ==> (#[trigger] self.builder@[i]).position.0
                    != (#[trigger] self.cells_left@[t]@[k]).0
        &&& roster_ok(self.builder@, teams)
    }

    /// Whether `pos` is still available as a starting cell of team `t`.
    pub open spec fn cell_available(self, t: int, pos: Id<Cell>) -> bool {
        exists|k: int|
            0 <= k < self.cells_left@[t]@.len() && (#[trigger] self.cells_left@[t]@[k]).0 == pos.0
    }

    /// Every team's remaining capacity is zero.
    pub open spec fn all_filled(self) -> bool {
        forall|i: int| 0 <= i < self.spots_left@.len() ==> (#[trigger] self.spots_left@[i]) == 0
    }

    /// A fresh builder for the given map: each of the map's teams starts
    /// with `team_size` open slots and its full reserved cell list.
    pub fn new(game_definition: &'a GameDefinition, map_id: Id<GameMap>, team_size: usize) -> (r:
        Self)
        requires
            game_definition.maps.contains_id(map_id),
            game_definition.maps@[map_id.0 as int].starting_cells_distinct(),
        ensures
            r.wf(),
            r.inv(),
            r.game_definition == game_definition,
            r.map_id == map_id,
            r.builder@.len() == 0,
            ({
                let teams = game_definition.maps@[map_id.0 as int].teams@;
                &&& r.spots_left@.len() == teams.len()
                &&& forall|i: int|
                    0 <= i < teams.len() ==> (#[trigger] r.spots_left@[i]) == team_size
                &&& forall|i: int|
                    0 <= i < teams.len() ==> (#[trigger] r.cells_left@[i])@ =~= teams[i].1@
            }),
    {
        let map = game_definition.maps.get(map_id).unwrap();
        let tl = map.teams.len();
        let mut spots_left: Vec<usize> = Vec::new();
        let mut cells_left: Vec<Vec<Id<Cell>>> = Vec::new();
        let mut i: usize = 0;
        while i < tl
            invariant
                tl == map.teams@.len(),
                i <= tl,
                spots_left@.len() == i,
                cells_left@.len() == i,
                forall|j: int| 0 <= j < i ==> (#[trigger] spots_left@[j]) == team_size,
                forall|j: int| 0 <= j < i ==> (#[trigger] cells_left@[j])@ =~= map.teams@[j].1@,
            decreases tl - i,
        {
            spots_left.push(team_size);
            cells_left.push(copy_cells(&map.teams[i].1));
            i += 1;
        }
        let r = CharacterMapBuilder {
            builder: IdMapBuilder::new(),
            spots_left,
            cells_left,
            game_definition,
            map_id,
        };
        proof {
            let teams = r.teams();
            assert forall|t: int, k: int|
                0 <= t < teams.len() && 0 <= k < r.cells_left@[t]@.len() implies cell_reserved(
                teams,
                t,
                (#[trigger] r.cells_left@[t]@[k]).0,
            ) by {
                assert(r.cells_left@[t]@[k].0 == teams[t].1@[k].0);
            }
            assert forall|t: int, k1: int, k2: int|
                0 <= t < teams.len() && 0 <= k1 < k2 < r.cells_left@[t]@.len() implies (
            #[trigger] r.cells_left@[t]@[k1]).0 != (#[trigger] r.cells_left@[t]@[k2]).0 by {
                assert(teams[t].1@[k1].0 != teams[t].1@[k2].0);
            }
        }
        r
    }

    /// Adds a character, or reports exactly why it cannot join: unknown
    /// class, blank name, full team, or a starting cell that is not in the
    /// team's remaining set (whether never reserved or already taken). On
    /// success the team's capacity shrinks by one, the cell is consumed,
    /// and the character receives the next identifier.
    #[verifier::rlimit(60)]
    pub fn add(&mut self, c: Character) -> (r: Result<Id<Character>, Error>)
        requires
            old(self).wf(),
            old(self).inv(),
            c.team.0 < old(self).spots_left@.len(),
        ensures
            final(self).wf(),
            final(self).inv(),
            final(self).game_definition == old(self).game_definition,
            final(self).map_id == old(self).map_id,
            r is Ok <==> old(self).game_definition.classes.contains_id(c.class) && !name_blank(
                c.name@,
            ) && old(self).spots_left@[c.team.0 as int] > 0 && old(self).cell_available(
                c.team.0 as int,
                c.position,
            ),
            r == Err::<Id<Character>, Error>(Error::InvalidCharacterClass) <==> !old(
                self,
            ).game_definition.classes.contains_id(c.class),
            r == Err::<Id<Character>, Error>(Error::InvalidCharacterName) <==> old(
                self,
            ).game_definition.classes.contains_id(c.class) && name_blank(c.name@),
            r == Err::<Id<Character>, Error>(Error::TeamFull) <==> old(
                self,
            ).game_definition.classes.contains_id(c.class) && !name_blank(c.name@) && old(
                self,
            ).spots_left@[c.team.0 as int] == 0,
            r == Err::<Id<Character>, Error>(Error::InvalidStartingCell) <==> old(
                self,
            ).game_definition.classes.contains_id(c.class) && !name_blank(c.name@) && old(
                self,
            ).spots_left@[c.team.0 as int] > 0 && !old(self).cell_available(
                c.team.0 as int,
                c.position,
            ),
            r is Err ==> *final(self) == *old(self),
            r is Ok ==> ({
                let t = c.team.0 as int;
                &&& old(self).game_definition.classes.contains_id(c.class)
                &&& !name_blank(c.name@)
                &&& old(self).spots_left@[t] > 0
                &&& old(self).cell_available(t, c.position)
                &&& r == Ok::<Id<Character>, Error>(Id(old(self).builder@.len() as usize,
                    core::marker::PhantomData))
                &&& final(self).builder@ =~= old(self).builder@.push(c)
                &&& final(self).spots_left@ =~= old(self).spots_left@.update(
                    t,
                    (old(self).spots_left@[t] - 1) as usize,
                )
                &&& final(self).cells_left@.len() == old(self).cells_left@.len()
                &&& (forall|i: int|
                    0 <= i < old(self).cells_left@.len() && i != t
                        ==> #[trigger] final(self).cells_left@[i] == old(self).cells_left@[i])
                &&& exists|k: int|
                    {
                        &&& 0 <= k < old(self).cells_left@[t]@.len()
                        &&& (#[trigger] old(self).cells_left@[t]@[k]).0 == c.position.0
                        &&& (forall|j: int|
                            0 <= j < k ==> (#[trigger] old(self).cells_left@[t]@[j]).0
                                != c.position.0)
                        &&& final(self).cells_left@[t]@ =~= old(self).cells_left@[t]@.remove(k)
                    }
            }),
    {
        let t = c.team.raw();
        if self.game_definition.classes.get(c.class).is_none() {
            return Err(Error::InvalidCharacterClass);
        }
        if is_blank(&c.name) {
            return Err(Error::InvalidCharacterName);
        }
        let spots = self.spots_left[t];
        if spots == 0 {
            return Err(Error::TeamFull);
        }
        match find_cell(&self.cells_left[t], c.position) {
            None => Err(Error::InvalidStartingCell),
            Some(k) => {
                let mut cells = copy_cells(&self.cells_left[t]);
                cells.remove(k);
                proof {
                    assert(cells@ =~= self.cells_left@[t as int]@.remove(k as int));
                }
                self.cells_left.set(t, cells);
                self.spots_left.set(t, spots - 1);
                let id = self.builder.add(c);
                proof {
                    let teams = old(self).teams();
                    let ti = c.team.0 as int;
                    let oldcells = old(self).cells_left@[ti]@;
                    let oldchars = old(self).builder@;
                    assert(oldcells[k as int].0 == c.position.0);
                    assert(old(self).cell_available(ti, c.position));
                    assert(self.cells_left@[ti]@ =~= oldcells.remove(k as int));

                    // every remaining cell still comes from its team's list
                    assert forall|t2: int, k2: int|
                        0 <= t2 < teams.len() && 0 <= k2 < self.cells_left@[t2]@.len()
                            implies cell_reserved(
                        teams,
                        t2,
                        (#[trigger] self.cells_left@[t2]@[k2]).0,
                    ) by {
                        if t2 == ti {
                            if k2 < k as int {
                                assert(self.cells_left@[t2]@[k2] == oldcells[k2]);
                            } else {
                                assert(self.cells_left@[t2]@[k2] == oldcells[k2 + 1]);
                            }
                        } else {
                            assert(self.cells_left@[t2]@[k2]
                                == old(self).cells_left@[t2]@[k2]);
                        }
                    }

                    // no cell remains available twice
                    assert forall|t2: int, k1: int, k2: int|
                        0 <= t2 < teams.len() && 0 <= k1 < k2 < self.cells_left@[t2]@.len()
                            implies (#[trigger] self.cells_left@[t2]@[k1]).0 != (
                    #[trigger] self.cells_left@[t2]@[k2]).0 by {
                        if t2 == ti {
                            let o1: int = if k1 < k as int {
                                k1
                            } else {
                                k1 + 1
                            };
                            let o2: int = if k2 < k as int {
                                k2
                            } else {
                                k2 + 1
                            };
                            assert(self.cells_left@[t2]@[k1] == oldcells[o1]);
                            assert(self.cells_left@[t2]@[k2] == oldcells[o2]);
                            assert(oldcells[o1].0 != oldcells[o2].0);
                        } else {
                            assert(self.cells_left@[t2]@[k1]
                                == old(self).cells_left@[t2]@[k1]);
                            assert(self.cells_left@[t2]@[k2]
                                == old(self).cells_left@[t2]@[k2]);
                        }
                    }

                    // no accepted position remains available
                    assert forall|i: int, t2: int, k2: int|
                        0 <= i < self.builder@.len() && 0 <= t2 < teams.len() && 0 <= k2
                            < self.cells_left@[t2]@.len() implies (
                    #[trigger] self.builder@[i]).position.0 != (
                    #[trigger] self.cells_left@[t2]@[k2]).0 by {
                        let v = self.cells_left@[t2]@[k2];
                        if t2 == ti {
                            let o2: int = if k2 < k as int {
                                k2
                            } else {
                                k2 + 1
                            };
                            assert(v == oldcells[o2]);
                            if i < oldchars.len() {
                                assert(oldchars[i].position.0 != oldcells[o2].0);
                            } else {
                                assert(self.builder@[i] == c);
                                assert(oldcells[o2].0 != oldcells[k as int].0);
                            }
                        } else {
                            assert(v == old(self).cells_left@[t2]@[k2]);
                            if i < oldchars.len() {
                                assert(oldchars[i].position.0 != v.0);
                            } else {
                                assert(self.builder@[i] == c);
                                // the position is reserved for the character's own
                                // team; a clash with another team's remaining cell
                                // would be an overlap the validated map excludes
                                if c.position.0 == v.0 {
                                    assert(cell_reserved(teams, ti, c.position.0));
                                    let a1 = choose|a: int|
                                        0 <= a < teams[ti].1@.len() && (
                                        #[trigger] teams[ti].1@[a]).0 == c.position.0;
                                    assert(cell_reserved(teams, t2, v.0));
                                    let a2 = choose|a: int|
                                        0 <= a < teams[t2].1@.len() && (
                                        #[trigger] teams[t2].1@[a]).0 == v.0;
                                    assert(teams[ti].1@[a1].0 == teams[t2].1@[a2].0);
                                    assert(false);
                                }
                            }
                        }
                    }

                    // the grown roster keeps the placement invariant
                    assert forall|i: int, j: int|
                        0 <= i < j < self.builder@.len() implies (
                    #[trigger] self.builder@[i]).position.0 != (
                    #[trigger] self.builder@[j]).position.0 by {
                        if j < oldchars.len() {
                            assert(self.builder@[i] == oldchars[i]);
                            assert(self.builder@[j] == oldchars[j]);
                        } else {
                            assert(self.builder@[j] == c);
                            assert(self.builder@[i] == oldchars[i]);
                            assert(oldchars[i].position.0 != oldcells[k as int].0);
                        }
                    }
                    assert forall|i: int| 0 <= i < self.builder@.len() implies position_reserved(
                        teams,
                        #[trigger] self.builder@[i],
                    ) by {
                        if i < oldchars.len() {
                            assert(self.builder@[i] == oldchars[i]);
                            assert(position_reserved(teams, oldchars[i]));
                        } else {
                            assert(self.builder@[i] == c);
                            assert(cell_reserved(teams, ti, oldcells[k as int].0));
                        }
                    }
                }
                Ok(id)
            },
        }
    }

    /// True exactly when every team's roster is complete.
    pub fn can_build(&self) -> (r: bool)
        ensures
            r == self.all_filled(),
    {
        let n = self.spots_left.len();
        let mut i: usize = 0;
        while i < n
            invariant
                n == self.spots_left@.len(),
                i <= n,
                forall|j: int| 0 <= j < i ==> (#[trigger] self.spots_left@[j]) == 0,
            decreases n - i,
        {
            if self.spots_left[i] > 0 {
                return false;
            }
            i += 1;
        }
        true
    }

    /// Finalizes the roster into an immutable character arena. A match
    /// cannot start understaffed, so every slot must already be filled.
    /// The arena holds exactly the accepted characters, whose placement
    /// satisfies `roster_ok` for the builder's map.
    pub fn build(self) -> (r: IdMap<Character>)
        requires
            self.all_filled(),
        ensures
            r@ =~= self.builder@,
            self.inv() ==> roster_ok(r@, self.teams()),
    {
        self.builder.build()
    }

    /// Finalizes the roster, or returns the unconsumed builder while any
    /// team still has open slots. A finalized arena holds exactly the
    /// accepted characters, whose placement satisfies `roster_ok` for the
    /// builder's map.
    pub fn try_build(self) -> (r: Result<IdMap<Character>, Self>)
        ensures
            self.all_filled() ==> (r matches Ok(m) && m@ =~= self.builder@ && (self.inv()
                ==> roster_ok(m@, self.teams()))),
            !self.all_filled() ==> r == Err::<IdMap<Character>, Self>(self),
    {
        if self.can_build() {
            Ok(self.builder.build())
        } else {
            Err(self)
        }
    }
}

} // verus!
