use tactics_core::character::Character;
use tactics_core::class::Class;
use tactics_core::damage::Damage;
use tactics_core::effect::{Buff, BuffKind, DirectDamage, Effect, EffectKind, Range, RangeKind, Target};
use tactics_core::error::Error;
use tactics_core::game_definition::GameDefinition;
use tactics_core::game_state::{Action, GameState, TurnState};
use tactics_core::map::{Cell, CellAttibute, GameMap, Team, TeamId};
use tactics_core::skill::Skill;
use tactics_core::{Id, IdMap, IdMapBuilder};

fn class(swiftness: i32) -> Class {
    Class {
        name: "template".to_owned(),
        health: 30,
        mana: 10,
        swiftness,
        strength: 4,
        dexterity: 0,
        armor: 0,
        intelligence: 0,
        concentration: 0,
        willpower: 0,
    }
}

fn star(min: u32, max: u32, target: Target) -> Range {
    Range {
        min,
        max,
        kind: RangeKind::Star,
        target,
        needs_los: false,
    }
}

fn skill(name: &str, range: Range, effects: Vec<Id<Effect>>) -> Skill {
    Skill {
        name: name.to_owned(),
        cost: 0,
        range,
        precision: None,
        effects,
    }
}

fn flat_map() -> GameMap {
    let mut data = Vec::new();
    for _ in 0..24 {
        data.push(Cell {
            height: 0,
            attribute: CellAttibute::Plain,
        });
    }
    GameMap {
        name: "plain".to_owned(),
        width: 4,
        height: 6,
        data,
        teams: vec![
            Team("red".to_owned(), vec![Id::new(0), Id::new(1)]),
            Team("blue".to_owned(), vec![Id::new(2)]),
        ],
    }
}

/// Classes 0, 1, 2 have swiftness 5, 10 and 1; skill 0 ("wait") targets
/// anything and has no effects; skill 1 ("strike") needs an enemy and deals
/// 10 flat physical damage; skill 2 ("curse") needs an enemy and applies a
/// buff; skill 3 ("double strike") lists two effects with equal damage;
/// skill 4 ("snipe") requires a distance of at least 5.
fn definition() -> GameDefinition {
    let mut classes = IdMapBuilder::new();
    classes.add(class(5));
    classes.add(class(10));
    classes.add(class(1));

    let strike_damage = Damage {
        flat_physical: 10,
        ..Damage::default()
    };
    let mut effects = IdMapBuilder::new();
    let hit = effects.add(Effect {
        kind: EffectKind::DirectDamage(DirectDamage {
            range: None,
            damage: strike_damage.clone(),
        }),
    });
    let weaken = effects.add(Effect {
        kind: EffectKind::Buff(Buff {
            name: "weaken".to_owned(),
            range: None,
            success_rate: None,
            duration: 3,
            kind: BuffKind::DoT(Damage::default()),
        }),
    });
    let hit_again = effects.add(Effect {
        kind: EffectKind::DirectDamage(DirectDamage {
            range: None,
            damage: strike_damage,
        }),
    });

    let mut skills = IdMapBuilder::new();
    skills.add(skill("wait", star(0, 100, Target::Anything), Vec::new()));
    skills.add(skill("strike", star(0, 10, Target::Enemy), vec![hit]));
    skills.add(skill("curse", star(0, 10, Target::Enemy), vec![weaken]));
    skills.add(skill(
        "double strike",
        star(0, 10, Target::Enemy),
        vec![hit, hit_again],
    ));
    skills.add(skill("snipe", star(5, 10, Target::Enemy), vec![hit]));

    let mut maps = IdMapBuilder::new();
    maps.add(flat_map());

    GameDefinition {
        classes: classes.build(),
        skills: skills.build(),
        effects: effects.build(),
        maps: maps.build(),
        class_to_skills: Vec::new(),
        skill_to_classes: Vec::new(),
    }
}

/// Alice (id 0, swiftness 5, red, cell 0), Bob (id 1, swiftness 10, red,
/// cell 1), Carol (id 2, swiftness 1, blue, cell 2).
fn roster(g: &GameDefinition) -> IdMap<Character> {
    let mut builder = IdMapBuilder::new();
    builder.add(Character::new(
        Id::new(0),
        Id::new(0),
        g.classes.get(Id::new(0)).unwrap(),
        "alice".to_owned(),
        TeamId::new(0),
    ));
    builder.add(Character::new(
        Id::new(1),
        Id::new(1),
        g.classes.get(Id::new(1)).unwrap(),
        "bob".to_owned(),
        TeamId::new(0),
    ));
    builder.add(Character::new(
        Id::new(2),
        Id::new(2),
        g.classes.get(Id::new(2)).unwrap(),
        "carol".to_owned(),
        TeamId::new(1),
    ));
    builder.build()
}

fn fresh_state(g: &GameDefinition) -> GameState {
    GameState::new(g, roster(g), Id::new(0))
}

const WAIT: usize = 0;
const STRIKE: usize = 1;
const CURSE: usize = 2;
const DOUBLE_STRIKE: usize = 3;
const SNIPE: usize = 4;

#[test]
fn turn_order_pops_by_descending_swiftness() {
    let g = definition();
    let mut gs = fresh_state(&g);

    // ascending by swiftness: carol (1), alice (5), bob (10)
    let order: Vec<usize> = gs.turn_order.iter().map(|id| id.raw()).collect();
    assert_eq!(order, vec![2, 0, 1]);

    // bob (swiftness 10) acts first, then alice, then carol
    assert_eq!(gs.player_to_play().unwrap().raw(), 1);
    assert_eq!(gs.next_action(&g, Action::Skill(Id::new(WAIT), Id::new(1))), Ok(false));
    assert_eq!(gs.player_to_play().unwrap().raw(), 0);
    assert_eq!(gs.next_action(&g, Action::Skill(Id::new(WAIT), Id::new(0))), Ok(false));
    assert_eq!(gs.player_to_play().unwrap().raw(), 2);
    // the third turn ends the round
    assert_eq!(gs.next_action(&g, Action::Skill(Id::new(WAIT), Id::new(2))), Ok(true));
    assert_eq!(gs.player_to_play(), None);

    // a new round is computed on the next new_turn
    gs.new_turn(&g);
    assert_eq!(gs.player_to_play().unwrap().raw(), 1);
}

#[test]
fn movement_spends_the_move_but_not_the_turn() {
    let g = definition();
    let mut gs = fresh_state(&g);

    // bob moves two cells within swiftness 10
    assert_eq!(gs.next_action(&g, Action::Movement(Id::new(9))), Ok(false));
    assert_eq!(gs.turn_state, TurnState::ActionOnly);
    // still bob's turn
    assert_eq!(gs.player_to_play().unwrap().raw(), 1);
    // a second movement this turn is refused
    assert_eq!(
        gs.next_action(&g, Action::Movement(Id::new(5))),
        Err(Error::AlreadyMoved)
    );
    // the skill is still available, and its resolution resets the phase
    assert_eq!(gs.next_action(&g, Action::Skill(Id::new(WAIT), Id::new(1))), Ok(false));
    assert_eq!(gs.turn_state, TurnState::MoveOrAction);
}

#[test]
fn movement_beyond_the_budget_is_refused() {
    let g = definition();
    let mut gs = fresh_state(&g);

    // bob has swiftness 10, but the far corner costs 3 + 5 = 8 steps from
    // cell 1; an off-grid cell is simply unreachable
    assert_eq!(
        gs.next_action(&g, Action::Movement(Id::new(24))),
        Err(Error::MoveCellTooFar)
    );
    // the move was not spent
    assert_eq!(gs.turn_state, TurnState::MoveOrAction);
}

#[test]
fn movement_does_not_change_the_position() {
    let g = definition();
    let mut gs = fresh_state(&g);
    assert_eq!(gs.next_action(&g, Action::Movement(Id::new(9))), Ok(false));
    assert_eq!(gs.characters.get(Id::new(1)).unwrap().position.raw(), 1);
}

#[test]
fn unknown_skill_is_a_recoverable_error() {
    let g = definition();
    let mut gs = fresh_state(&g);
    assert_eq!(
        gs.next_action(&g, Action::Skill(Id::new(99), Id::new(1))),
        Err(Error::InvalidSkill)
    );
    // the turn was not consumed
    assert_eq!(gs.player_to_play().unwrap().raw(), 1);
}

#[test]
fn an_enemy_skill_rejects_allies_and_empty_cells() {
    let g = definition();
    let mut gs = fresh_state(&g);
    // alice is on bob's team
    assert_eq!(
        gs.next_action(&g, Action::Skill(Id::new(STRIKE), Id::new(0))),
        Err(Error::InvalidTarget)
    );
    // nobody stands on cell 10
    assert_eq!(
        gs.next_action(&g, Action::Skill(Id::new(STRIKE), Id::new(10))),
        Err(Error::InvalidTarget)
    );
}

#[test]
fn a_cell_outside_the_skill_range_is_refused() {
    let g = definition();
    let mut gs = fresh_state(&g);
    // carol is one step away from bob; sniping needs a distance of five
    assert_eq!(
        gs.next_action(&g, Action::Skill(Id::new(SNIPE), Id::new(2))),
        Err(Error::InvalidRange)
    );
}

#[test]
fn a_strike_subtracts_the_damage_from_the_target() {
    let g = definition();
    let mut gs = fresh_state(&g);
    // bob strikes carol: 10 flat physical against armor 0
    assert_eq!(gs.next_action(&g, Action::Skill(Id::new(STRIKE), Id::new(2))), Ok(false));
    assert_eq!(gs.characters.get(Id::new(2)).unwrap().current_health, 20);
    // the turn passed to alice
    assert_eq!(gs.player_to_play().unwrap().raw(), 0);
}

#[test]
fn every_listed_effect_applies_its_damage() {
    let g = definition();
    let mut gs = fresh_state(&g);
    // two distinct effects deal 10 each: both are applied, after all
    // effects have been evaluated
    assert_eq!(
        gs.next_action(&g, Action::Skill(Id::new(DOUBLE_STRIKE), Id::new(2))),
        Ok(false)
    );
    assert_eq!(gs.characters.get(Id::new(2)).unwrap().current_health, 10);
}

#[test]
fn buff_effects_are_surfaced_as_unsupported() {
    let g = definition();
    let mut gs = fresh_state(&g);
    assert_eq!(
        gs.next_action(&g, Action::Skill(Id::new(CURSE), Id::new(2))),
        Err(Error::UnsupportedEffect)
    );
    // nothing changed: carol's health stands, the turn was not consumed
    assert_eq!(gs.characters.get(Id::new(2)).unwrap().current_health, 30);
    assert_eq!(gs.player_to_play().unwrap().raw(), 1);
}

#[test]
fn effects_are_not_evaluated_against_an_empty_cell() {
    let g = definition();
    let mut gs = fresh_state(&g);
    // "wait" accepts empty cells; an unoccupied target simply ends the turn
    assert_eq!(gs.next_action(&g, Action::Skill(Id::new(WAIT), Id::new(10))), Ok(false));
    assert_eq!(gs.player_to_play().unwrap().raw(), 0);
}

#[test]
fn error_messages_describe_each_failure() {
    assert_eq!(
        Error::InvalidMapSize.message(),
        "Map's width*height does not equal its number of cells"
    );
    assert_eq!(Error::TeamFull.message(), "Team is already full");
    assert_eq!(
        Error::MoveCellTooFar.message(),
        "Character cannot move that far"
    );
}
