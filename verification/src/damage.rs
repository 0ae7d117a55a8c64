//! The damage formula: a pure function combining attacker and defender stats
//! into a signed damage value (negative values are net healing).
//!
//! Percentage coefficients are held in parts per thousand of the stat they
//! scale, so that every term is exact integer arithmetic; each scaled term is
//! truncated toward zero before summation, never on the final total.

use crate::character::Character;
use crate::class::Class;
use crate::id_map::IdMap;
use vstd::arithmetic::div_mod::lemma_multiply_divide_lt;
use vstd::prelude::*;

verus! {

/// Damage coefficients. Flat amounts are plain values; `perc_*` fields scale
/// the defender's health and `perc_modif_*` fields scale the attacker's
/// strength, all in parts per thousand. A zero coefficient is an absent term.
#[derive(Clone, Debug)]
pub struct Damage {
    pub flat_magical: i32,
    pub flat_physical: i32,
    pub flat_pure: i32,

    pub perc_magical: i32,
    pub perc_physical: i32,
    pub perc_pure: i32,

    pub perc_modif_magical: i32,
    pub perc_modif_physical: i32,
}

impl Default for Damage {
    /// All coefficients absent: such a damage value is always zero before
    /// the defender's mitigation stats are subtracted.
    fn default() -> (r: Self)
        ensures
            r.flat_magical == 0 && r.flat_physical == 0 && r.flat_pure == 0,
            r.perc_magical == 0 && r.perc_physical == 0 && r.perc_pure == 0,
            r.perc_modif_magical == 0 && r.perc_modif_physical == 0,
    {
        Damage {
            flat_magical: 0,
            flat_physical: 0,
            flat_pure: 0,
            perc_magical: 0,
            perc_physical: 0,
            perc_pure: 0,
            perc_modif_magical: 0,
            perc_modif_physical: 0,
        }
    }
}

/// The sum of a sequence of damage values.
pub open spec fn sum_int(s: Seq<int>) -> int
    decreases s.len(),
{
    if s.len() == 0 {
        0
    } else {
        sum_int(s.drop_last()) + s.last()
    }
}

/// Integer division truncated toward zero, as the formula's per-term
/// rounding demands (spec-level `/` rounds toward negative infinity).
pub open spec fn div_trunc(a: int, b: int) -> int {
    if a >= 0 {
        a / b
    } else {
        -((-a) / b)
    }
}

/// A percentage term: `perc` parts per thousand of `value`, truncated
/// toward zero.
pub open spec fn permille_of(perc: int, value: int) -> int {
    div_trunc(perc * value, 1000)
}

/// The full damage formula over the relevant effective stats.
pub open spec fn damage_value(
    d: Damage,
    attacker_strength: int,
    defender_health: int,
    defender_armor: int,
    defender_willpower: int,
) -> int {
    let physical_raw = d.flat_physical + permille_of(d.perc_physical as int, defender_health)
        + permille_of(d.perc_modif_physical as int, attacker_strength);
    let magical_raw = d.flat_magical + permille_of(d.perc_magical as int, defender_health)
        + permille_of(d.perc_modif_magical as int, attacker_strength);
    let pure_raw = d.flat_pure + permille_of(d.perc_pure as int, defender_health);
    (physical_raw - defender_armor) + (magical_raw - defender_willpower) + pure_raw
}

/// Whether the formula's value fits the machine result type.
pub open spec fn damage_fits(
    d: Damage,
    attacker_strength: int,
    defender_health: int,
    defender_armor: int,
    defender_willpower: int,
) -> bool {
    i32::MIN <= damage_value(d, attacker_strength, defender_health, defender_armor,
        defender_willpower) <= i32::MAX
}

/// One percentage term, computed exactly.
fn permille_term(perc: i32, value: i32) -> (r: i64)
    ensures
        r == permille_of(perc as int, value as int),
        -0x20_0000_0000_0000 < r < 0x20_0000_0000_0000,
{
    proof {
        assert(-0x4000_0000_0000_0000 <= (perc as int) * (value as int)
            <= 0x4000_0000_0000_0000) by (nonlinear_arith)
            requires
                -0x8000_0000 <= perc as int <= 0x7fff_ffff,
                -0x8000_0000 <= value as int <= 0x7fff_ffff,
        ;
    }
    let p: i64 = (perc as i64) * (value as i64);
    let m: u64 = if p >= 0 {
        p as u64
    } else {
        (-p) as u64
    };
    let q: u64 = m / 1000;
    proof {
        lemma_multiply_divide_lt(m as int, 1000, 0x20_0000_0000_0000);
    }
    if p >= 0 {
        q as i64
    } else {
        -(q as i64)
    }
}

impl Damage {
    /// Combines attacker and defender stats into a signed damage value;
    /// the result is applied as a direct subtraction from health, so a
    /// negative value is net healing. No floor at zero is enforced here.
    pub fn compute_damage(
        &self,
        classes: &IdMap<Class>,
        attacker: &Character,
        defender: &Character,
    ) -> (r: i32)
        requires
            classes.contains_id(attacker.class),
            classes.contains_id(defender.class),
            damage_fits(
                *self,
                classes@[attacker.class.0 as int].strength as int,
                classes@[defender.class.0 as int].health as int,
                classes@[defender.class.0 as int].armor as int,
                classes@[defender.class.0 as int].willpower as int,
            ),
        ensures
            r == damage_value(
                *self,
                classes@[attacker.class.0 as int].strength as int,
                classes@[defender.class.0 as int].health as int,
                classes@[defender.class.0 as int].armor as int,
                classes@[defender.class.0 as int].willpower as int,
            ),
    {
        let c_att = classes.get(attacker.class).unwrap();
        let c_def = classes.get(defender.class).unwrap();

        let att_strength = attacker.effective_strength(c_att);
        let def_health = defender.effective_health(c_def);
        let def_armor = defender.effective_armor(c_def);
        let def_willpower = defender.effective_willpower(c_def);

        let physical_raw: i64 = self.flat_physical as i64
            + permille_term(self.perc_physical, def_health)
            + permille_term(self.perc_modif_physical, att_strength);

        let magical_raw: i64 = self.flat_magical as i64
            + permille_term(self.perc_magical, def_health)
            + permille_term(self.perc_modif_magical, att_strength);

        let pure_raw: i64 = self.flat_pure as i64 + permille_term(self.perc_pure, def_health);

        let physical_final: i64 = physical_raw - def_armor as i64;
        let magical_final: i64 = magical_raw - def_willpower as i64;

        (physical_final + magical_final + pure_raw) as i32
    }
}

} // verus!
