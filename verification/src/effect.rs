//! Skill effects: direct damage with an optional splash area, or a buff.
//!
//! The buff data model is carried in full (kind, duration, success rate,
//! area), but applying a buff during skill resolution has no defined
//! behavior in the core: the match engine surfaces it as an unsupported
//! effect instead of guessing rules.

use crate::class::Attribute;
use crate::damage::Damage;
use vstd::prelude::*;

verus! {

/// The target policy of a skill's range.
#[derive(Clone, Copy, Debug, PartialEq, Eq, Structural)]
pub enum Target {
    /// Any cell, including empty ones (e.g. for an area effect).
    Anything,
    /// Any occupied cell, ally or enemy.
    Anyone,
    /// Only a cell occupied by a character of another team.
    Enemy,
    /// Only a cell occupied by a character of the same team.
    Ally,
}

/// How the area between the origin and the candidate cell is measured.
#[derive(Clone, Copy, Debug)]
pub enum RangeKind {
    /// Unweighted Manhattan distance within `[min, max]`.
    Star,
    /// Straight line in one of the four main directions: the candidate
    /// shares the origin's row or column, and the delta on the other axis
    /// lies in `[min, max]`.
    Cross,
    /// Absolute horizontal delta in `[min, max]`, and the signed vertical
    /// delta in `[min, max]`.
    Square,
}

/// A geometric predicate deciding whether a skill may affect a cell from a
/// given origin.
#[derive(Clone, Copy, Debug)]
pub struct Range {
    /// Inclusive distance bounds, in cells from the origin; 0 means the
    /// origin itself.
    pub min: u32,
    pub max: u32,

    /// How the area is covered.
    pub kind: RangeKind,

    pub target: Target,

    /// Whether this range needs line of sight. Part of the data model, but
    /// declared and unenforced in the core.
    pub needs_los: bool,
}

/// A flat or percentage (parts per thousand) modifier.
#[derive(Clone, Copy, Debug)]
pub enum ValueKind {
    Perc(i32),
    Flat(i32),
}

#[derive(Clone, Debug)]
pub enum BuffKind {
    /// Damage over time; negative values mean healing over time.
    DoT(Damage),
    /// A flat or percentage modifier of one attribute.
    Attribute(Attribute, ValueKind),
}

/// A status effect. Resolution is an extension point: the core stores and
/// transports buffs but never applies one.
#[derive(Clone, Debug)]
pub struct Buff {
    pub name: String,
    /// `None` means the buff applies to the targeted cell only (no
    /// "explosion" around the target).
    pub range: Option<Range>,
    /// Chance of application, in parts per thousand; `None` means certain.
    pub success_rate: Option<i32>,
    /// Duration in turns.
    pub duration: i32,
    pub kind: BuffKind,
}

#[derive(Clone, Debug)]
pub struct DirectDamage {
    /// `None` means the damage applies to the targeted cell only (no
    /// "explosion" around the target).
    pub range: Option<Range>,
    pub damage: Damage,
}

#[derive(Clone, Debug)]
pub enum EffectKind {
    DirectDamage(DirectDamage),
    Buff(Buff),
}

/// An effect, stored in the content graph's effect arena and referenced by
/// skills through its arena identifier.
#[derive(Clone, Debug)]
pub struct Effect {
    pub kind: EffectKind,
}

} // verus!
