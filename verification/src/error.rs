//! Error taxonomy of the core.
//!
//! Authoring-time map validation, roster-assembly, and action-time failures
//! are all surfaced as recoverable values of one enum; action resolution
//! reports every violated precondition instead of aborting, so the taxonomy
//! is uniform across the three stages.

use vstd::prelude::*;

verus! {

#[derive(Clone, Copy, Debug, PartialEq, Eq, Structural)]
pub enum Error {
    // map authoring (validation before any match)
    InvalidMapSize,
    OverlappingStartingCells,
    // character creation (before a match starts)
    TeamFull,
    InvalidCharacterName,
    InvalidStartingCell,
    InvalidCharacterClass,
    // player action
    InvalidSkill,
    AlreadyMoved,
    InvalidTarget,
    InvalidRange,
    MoveCellTooFar,
    UnsupportedEffect,
}

/// The description each error variant carries.
pub open spec fn error_text(e: Error) -> Seq<char> {
    match e {
        Error::InvalidMapSize => "Map's width*height does not equal its number of cells"@,
        Error::OverlappingStartingCells => "Starting cells cannot have duplicates (different teams or not)"@,
        Error::TeamFull => "Team is already full"@,
        Error::InvalidStartingCell => "Initial position is either not a starting cell, or is already taken"@,
        Error::InvalidCharacterName => "Character's name cannot be made only of whitespaces"@,
        Error::InvalidCharacterClass => "Class id does not correspond to an existing class"@,
        Error::InvalidSkill => "Skill id does not correspond to an existing skill"@,
        Error::AlreadyMoved => "Character has already moved"@,
        Error::InvalidTarget => "Target is invalid"@,
        Error::InvalidRange => "Range is invalid"@,
        Error::MoveCellTooFar => "Character cannot move that far"@,
        Error::UnsupportedEffect => "Effect kind has no defined resolution"@,
    }
}

impl Error {
    /// A human-readable description of the error.
    pub fn message(&self) -> (r: String)
        ensures
            r@ == error_text(*self),
    {
        match self {
            Error::InvalidMapSize => "Map's width*height does not equal its number of cells".to_owned(),
            Error::OverlappingStartingCells => "Starting cells cannot have duplicates (different teams or not)".to_owned(),
            Error::TeamFull => "Team is already full".to_owned(),
            Error::InvalidStartingCell => "Initial position is either not a starting cell, or is already taken".to_owned(),
            Error::InvalidCharacterName => "Character's name cannot be made only of whitespaces".to_owned(),
            Error::InvalidCharacterClass => "Class id does not correspond to an existing class".to_owned(),
            Error::InvalidSkill => "Skill id does not correspond to an existing skill".to_owned(),
            Error::AlreadyMoved => "Character has already moved".to_owned(),
            Error::InvalidTarget => "Target is invalid".to_owned(),
            Error::InvalidRange => "Range is invalid".to_owned(),
            Error::MoveCellTooFar => "Character cannot move that far".to_owned(),
            Error::UnsupportedEffect => "Effect kind has no defined resolution".to_owned(),
        }
    }
}

} // verus!
