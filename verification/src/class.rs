//! Static class templates: the immutable stat sheet a character is created
//! from.

use vstd::prelude::*;

verus! {

/// One of the stats a class defines; buff effects name the attribute they
/// modify through this enum.
#[derive(Clone, Copy, Debug)]
pub enum Attribute {
    Health,
    Swiftness,
    Strength,
    Dexterity,
    Armor,
    Intelligence,
    Concentration,
    Willpower,
}

/// A static character template. All stats are immutable once authored.
#[derive(Clone, Debug)]
pub struct Class {
    pub name: String,

    // generic stats
    pub health: i32,
    pub mana: i32,
    /// Movement budget per turn, and initiative for the turn order.
    pub swiftness: i32,

    // physical stats
    pub strength: i32,
    pub dexterity: i32,
    pub armor: i32,

    // magical stats
    pub intelligence: i32,
    pub concentration: i32,
    pub willpower: i32,
}

} // verus!
