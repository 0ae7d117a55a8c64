use tactics_core::character::{Character, CharacterMapBuilder};
use tactics_core::class::Class;
use tactics_core::game_definition::GameDefinition;
use tactics_core::map::{Cell, CellAttibute, GameMap, Team, TeamId};
use tactics_core::{Id, IdMapBuilder};

fn knight() -> Class {
    Class {
        name: "knight".to_owned(),
        health: 30,
        mana: 10,
        swiftness: 5,
        strength: 4,
        dexterity: 3,
        armor: 2,
        intelligence: 1,
        concentration: 1,
        willpower: 1,
    }
}

fn flat_map(w: usize, h: usize, teams: Vec<Team>) -> GameMap {
    let mut data = Vec::new();
    for _ in 0..w * h {
        data.push(Cell {
            height: 0,
            attribute: CellAttibute::Plain,
        });
    }
    GameMap {
        name: "plain".to_owned(),
        width: w,
        height: h,
        data,
        teams,
    }
}

fn definition() -> GameDefinition {
    let mut classes = IdMapBuilder::new();
    classes.add(knight());
    let mut maps = IdMapBuilder::new();
    maps.add(flat_map(
        4,
        6,
        vec![
            Team("red".to_owned(), vec![Id::new(0), Id::new(1)]),
            Team("blue".to_owned(), vec![Id::new(22), Id::new(23)]),
        ],
    ));
    GameDefinition {
        classes: classes.build(),
        skills: IdMapBuilder::new().build(),
        effects: IdMapBuilder::new().build(),
        maps: maps.build(),
        class_to_skills: Vec::new(),
        skill_to_classes: Vec::new(),
    }
}

fn character(g: &GameDefinition, name: &str, cell: usize, team: usize) -> Character {
    let class_id = Id::new(0);
    let class = g.classes.get(class_id).unwrap();
    Character::new(
        class_id,
        Id::new(cell),
        class,
        name.to_owned(),
        TeamId::new(team),
    )
}

#[test]
fn team_capacity_is_enforced() {
    let g = definition();
    let mut builder = CharacterMapBuilder::new(&g, Id::new(0), 1);
    assert!(builder.add(character(&g, "alice", 0, 0)).is_ok());
    assert_eq!(
        builder.add(character(&g, "bob", 1, 0)),
        Err(tactics_core::error::Error::TeamFull)
    );
}

#[test]
fn a_claimed_starting_cell_cannot_be_taken_again() {
    let g = definition();
    let mut builder = CharacterMapBuilder::new(&g, Id::new(0), 2);
    assert!(builder.add(character(&g, "alice", 0, 0)).is_ok());
    assert_eq!(
        builder.add(character(&g, "bob", 0, 0)),
        Err(tactics_core::error::Error::InvalidStartingCell)
    );
}

#[test]
fn a_cell_not_reserved_for_the_team_is_rejected() {
    let g = definition();
    let mut builder = CharacterMapBuilder::new(&g, Id::new(0), 1);
    assert_eq!(
        builder.add(character(&g, "alice", 22, 0)),
        Err(tactics_core::error::Error::InvalidStartingCell)
    );
}

#[test]
fn unknown_class_is_rejected() {
    let g = definition();
    let mut builder = CharacterMapBuilder::new(&g, Id::new(0), 1);
    let mut c = character(&g, "alice", 0, 0);
    c.class = Id::new(9);
    assert_eq!(
        builder.add(c),
        Err(tactics_core::error::Error::InvalidCharacterClass)
    );
}

#[test]
fn whitespace_only_name_is_rejected() {
    let g = definition();
    let mut builder = CharacterMapBuilder::new(&g, Id::new(0), 1);
    assert_eq!(
        builder.add(character(&g, " \t ", 0, 0)),
        Err(tactics_core::error::Error::InvalidCharacterName)
    );
    assert_eq!(
        builder.add(character(&g, "", 0, 0)),
        Err(tactics_core::error::Error::InvalidCharacterName)
    );
}

#[test]
fn build_fails_while_any_team_has_open_slots() {
    let g = definition();
    let mut builder = CharacterMapBuilder::new(&g, Id::new(0), 1);
    assert!(builder.add(character(&g, "alice", 0, 0)).is_ok());
    assert!(!builder.can_build());
    let builder = match builder.try_build() {
        Ok(_) => panic!("an understaffed roster must not build"),
        Err(unconsumed) => unconsumed,
    };
    let mut builder = builder;
    assert!(builder.add(character(&g, "carol", 22, 1)).is_ok());
    assert!(builder.can_build());
    let arena = builder.try_build().ok().expect("a full roster builds");
    assert_eq!(arena.len(), 2);
    assert_eq!(arena.get(Id::new(0)).unwrap().name, "alice");
    assert_eq!(arena.get(Id::new(1)).unwrap().name, "carol");
}

#[test]
fn characters_start_with_class_health_and_mana() {
    let g = definition();
    let c = character(&g, "alice", 0, 0);
    assert_eq!(c.current_health, 30);
    assert_eq!(c.current_mana, 10);
    assert!(c.buffs.is_empty());
}
