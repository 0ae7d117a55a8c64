use tactics_core::character::Character;
use tactics_core::class::Class;
use tactics_core::damage::Damage;
use tactics_core::map::TeamId;
use tactics_core::{Id, IdMapBuilder};

fn class(health: i32, strength: i32, armor: i32, willpower: i32) -> Class {
    Class {
        name: "template".to_owned(),
        health,
        mana: 10,
        swiftness: 5,
        strength,
        dexterity: 0,
        armor,
        intelligence: 0,
        concentration: 0,
        willpower,
    }
}

fn zero_damage() -> Damage {
    Damage::default()
}

#[test]
fn flat_physical_damage_is_reduced_by_armor() {
    let mut classes = IdMapBuilder::new();
    let attacker_class = classes.add(class(30, 4, 0, 0));
    let defender_class = classes.add(class(20, 0, 3, 0));
    let classes = classes.build();

    let attacker = Character::new(
        attacker_class,
        Id::new(0),
        classes.get(attacker_class).unwrap(),
        "alice".to_owned(),
        TeamId::new(0),
    );
    let defender = Character::new(
        defender_class,
        Id::new(1),
        classes.get(defender_class).unwrap(),
        "bob".to_owned(),
        TeamId::new(1),
    );

    let damage = Damage {
        flat_physical: 10,
        ..zero_damage()
    };
    assert_eq!(damage.compute_damage(&classes, &attacker, &defender), 7);
}

#[test]
fn percentage_terms_scale_the_defender_health_and_truncate() {
    let mut classes = IdMapBuilder::new();
    let attacker_class = classes.add(class(30, 4, 0, 0));
    let defender_class = classes.add(class(21, 0, 0, 0));
    let classes = classes.build();

    let attacker = Character::new(
        attacker_class,
        Id::new(0),
        classes.get(attacker_class).unwrap(),
        "alice".to_owned(),
        TeamId::new(0),
    );
    let defender = Character::new(
        defender_class,
        Id::new(1),
        classes.get(defender_class).unwrap(),
        "bob".to_owned(),
        TeamId::new(1),
    );

    // 500 parts per thousand of 21 health is 10.5, truncated to 10
    let damage = Damage {
        perc_physical: 500,
        ..zero_damage()
    };
    assert_eq!(damage.compute_damage(&classes, &attacker, &defender), 10);
}

#[test]
fn attacker_strength_modifier_feeds_physical_and_magical_terms() {
    let mut classes = IdMapBuilder::new();
    let attacker_class = classes.add(class(30, 8, 0, 0));
    let defender_class = classes.add(class(20, 0, 1, 2));
    let classes = classes.build();

    let attacker = Character::new(
        attacker_class,
        Id::new(0),
        classes.get(attacker_class).unwrap(),
        "alice".to_owned(),
        TeamId::new(0),
    );
    let defender = Character::new(
        defender_class,
        Id::new(1),
        classes.get(defender_class).unwrap(),
        "bob".to_owned(),
        TeamId::new(1),
    );

    // physical: 1000/1000 of strength 8, minus armor 1 -> 7
    // magical: 500/1000 of strength 8, minus willpower 2 -> 2
    // pure: flat 5
    let damage = Damage {
        flat_pure: 5,
        perc_modif_physical: 1000,
        perc_modif_magical: 500,
        ..zero_damage()
    };
    assert_eq!(damage.compute_damage(&classes, &attacker, &defender), 14);
}

#[test]
fn negative_totals_mean_net_healing() {
    let mut classes = IdMapBuilder::new();
    let attacker_class = classes.add(class(30, 0, 0, 0));
    let defender_class = classes.add(class(20, 0, 4, 0));
    let classes = classes.build();

    let attacker = Character::new(
        attacker_class,
        Id::new(0),
        classes.get(attacker_class).unwrap(),
        "alice".to_owned(),
        TeamId::new(0),
    );
    let defender = Character::new(
        defender_class,
        Id::new(1),
        classes.get(defender_class).unwrap(),
        "bob".to_owned(),
        TeamId::new(1),
    );

    let damage = zero_damage();
    assert_eq!(damage.compute_damage(&classes, &attacker, &defender), -4);
}
