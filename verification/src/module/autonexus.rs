//! The autonexus: follows the damage that the player takes, to leave the map
//! before the server's HP could reach zero.

pub mod aoes;
pub mod ground;
pub mod heals;
pub mod passive;
pub mod projectiles;

use vstd::prelude::*;
use super::{Module, ModuleInstance};
use super::stats::TickStats;
use crate::extra_datatypes::conditions::{
    has_flag, PlayerConditions, PlayerConditions2, ARMORED, ARMOR_BROKEN, CURSED, EXPOSED, INVINCIBLE,
};
use crate::text::{parse_i64, parse_integer, second_field, split_second, starts_with};
use ground::Ground;
use projectiles::Projectiles;

verus! {

#[derive(Debug, Clone)]
pub struct Autonexus {}

/// The autonexus state of one connection, but for the client-side HP, which
/// is a floating-point number and lives beside it.
pub struct AutonexusInst {
    /// The client tick in which the player last took damage.
    pub tick_last_hit: u32,
    /// Ground that damages the player, such as lava.
    pub ground: Ground,
    /// Projectiles and their damage.
    pub projectiles: Projectiles,
}

impl Module for Autonexus {
    type Instance = AutonexusInst;

    fn new() -> Self {
        Autonexus {}
    }

    fn instance(&self) -> (r: AutonexusInst)
        ensures
            r.tick_last_hit == 0,
            r.ground.hazardous_tiles@ == Map::<u32, i64>::empty(),
            r.projectiles.wf(),
            r.projectiles.objects@ == Map::<u32, u16>::empty(),
    {
        AutonexusInst { tick_last_hit: 0, ground: Ground::new(), projectiles: Projectiles::new() }
    }
}

impl ModuleInstance for AutonexusInst {}

/// Division that rounds toward zero, as Rust's `/` on integers does.
pub open spec fn trunc_div(a: int, b: int) -> int {
    if a >= 0 { a / b } else { -((-a) / b) }
}

/// Whether a value fits in an `i64`.
pub open spec fn fits_i64(x: int) -> bool {
    i64::MIN <= x <= i64::MAX
}

/// The defense that applies: one and a half times it while armored.
pub open spec fn effective_def(def: int, c: PlayerConditions) -> int {
    if has_flag(c.bitmask, ARMORED) { def + trunc_div(def, 2) } else { def }
}

/// The damage of a hit after defense: at least a tenth of it, whatever the
/// defense; all of it when it pierces armor or the armor is broken.
pub open spec fn after_defense(dmg: int, armor_piercing: bool, def: int, c: PlayerConditions) -> int {
    if armor_piercing || has_flag(c.bitmask, ARMOR_BROKEN) {
        dmg
    } else {
        let d = dmg - effective_def(def, c);
        let min = trunc_div(dmg, 10);
        if d > min { d } else { min }
    }
}

/// The damage after defense, with 20 more while exposed.
pub open spec fn exposed_damage(dmg: int, armor_piercing: bool, def: int, c: PlayerConditions, c2: PlayerConditions2) -> int {
    let d = after_defense(dmg, armor_piercing, def, c);
    if has_flag(c2.bitmask, EXPOSED) { d + 20 } else { d }
}

/// The damage that a projectile deals: a quarter more while cursed.
pub open spec fn bullet_damage(dmg: int, armor_piercing: bool, def: int, c: PlayerConditions, c2: PlayerConditions2) -> int {
    let d = exposed_damage(dmg, armor_piercing, def, c, c2);
    if has_flag(c2.bitmask, CURSED) { d + trunc_div(d, 4) } else { d }
}

/// The damage that an area attack deals: while cursed, the floor of one and a
/// quarter times it.
pub open spec fn aoe_damage(dmg: int, armor_piercing: bool, def: int, c: PlayerConditions, c2: PlayerConditions2) -> int {
    let d = exposed_damage(dmg, armor_piercing, def, c, c2);
    if has_flag(c2.bitmask, CURSED) { (5 * d) / 4 } else { d }
}

/// The computation of the damage stays within `i64`.
pub open spec fn damage_fits(dmg: int, armor_piercing: bool, def: int, c: PlayerConditions, c2: PlayerConditions2) -> bool {
    &&& fits_i64(effective_def(def, c))
    &&& fits_i64(dmg - effective_def(def, c))
    &&& fits_i64(exposed_damage(dmg, armor_piercing, def, c, c2))
}

fn trunc_div_i64(a: i64, b: i64) -> (r: i64)
    requires
        b > 1,
    ensures
        r == trunc_div(a as int, b as int),
{
    if a >= 0 {
        a / b
    } else {
        // -a may not fit, so divide -(a + 1) and correct
        let p: i64 = -(a + 1);
        let q: i64 = p / b;
        let m: i64 = p % b;
        assert(q * 2 <= p) by (nonlinear_arith)
            requires
                p >= 0,
                b > 1,
                q == p / b,
        ;
        let n: i64 = if m == b - 1 { q + 1 } else { q };
        assert(n == (p + 1) / (b as int)) by (nonlinear_arith)
            requires
                p >= 0,
                b > 1,
                q == p / b,
                m == p % b,
                n == (if m == b - 1 { q + 1 } else { q as int }),
        ;
        assert(n <= p + 1) by (nonlinear_arith)
            requires
                p >= 0,
                b > 1,
                n == (p + 1) / (b as int),
        ;
        -n
    }
}

/// The damage after defense and exposure.
fn exposed_damage_exec(dmg: i64, armor_piercing: bool, def: i64, c: PlayerConditions, c2: PlayerConditions2) -> (r: i64)
    requires
        damage_fits(dmg as int, armor_piercing, def as int, c, c2),
    ensures
        r == exposed_damage(dmg as int, armor_piercing, def as int, c, c2),
{
    let mut damage: i64 = if armor_piercing || c.armor_broken() {
        dmg
    } else {
        let mut d = def;
        if c.armored() {
            d = def + trunc_div_i64(def, 2);
        }
        let damage = dmg - d;
        let min_damage = trunc_div_i64(dmg, 10);
        if damage > min_damage { damage } else { min_damage }
    };
    if c2.exposed() {
        damage = damage + 20;
    }
    damage
}

/// The damage that a projectile deals to the player with these stats.
pub fn projectile_damage(dmg: i16, armor_piercing: bool, tick: &TickStats) -> (r: i64)
    requires
        damage_fits(dmg as int, armor_piercing, tick.stats.def as int, tick.conditions, tick.conditions2),
        fits_i64(bullet_damage(dmg as int, armor_piercing, tick.stats.def as int, tick.conditions, tick.conditions2)),
    ensures
        r == bullet_damage(dmg as int, armor_piercing, tick.stats.def as int, tick.conditions, tick.conditions2),
{
    let d = exposed_damage_exec(dmg as i64, armor_piercing, tick.stats.def, tick.conditions, tick.conditions2);
    if tick.conditions2.cursed() {
        let q = trunc_div_i64(d, 4);
        d + q
    } else {
        d
    }
}

/// The damage that an area attack deals to the player with these stats. While
/// cursed it is the floor of 1.25 times the damage, computed exactly here
/// (which agrees with the same product in `f64` for damage below 2^52).
pub fn area_damage(dmg: u16, armor_piercing: bool, tick: &TickStats) -> (r: i64)
    requires
        damage_fits(dmg as int, armor_piercing, tick.stats.def as int, tick.conditions, tick.conditions2),
        has_flag(tick.conditions2.bitmask, CURSED) ==> -0x10_0000_0000_0000 <= exposed_damage(
            dmg as int,
            armor_piercing,
            tick.stats.def as int,
            tick.conditions,
            tick.conditions2,
        ) <= 0x10_0000_0000_0000,
    ensures
        r == aoe_damage(dmg as int, armor_piercing, tick.stats.def as int, tick.conditions, tick.conditions2),
{
    let d = exposed_damage_exec(dmg as i64, armor_piercing, tick.stats.def, tick.conditions, tick.conditions2);
    if tick.conditions2.cursed() {
        let five = d * 5;
        // floor division by 4
        if five >= 0 {
            five / 4
        } else {
            let p: i64 = -(five + 1);
            let q: i64 = p / 4;
            assert(-(q + 1) == (five as int) / 4) by (nonlinear_arith)
                requires
                    five < 0,
                    p == -(five + 1),
                    q == p / 4,
            ;
            -(q + 1)
        }
    } else {
        d
    }
}

impl AutonexusInst {
    /// The player takes damage: unless invincible, the hit is counted in this
    /// client tick. Returns whether the damage applies.
    pub fn register_hit(&mut self, current: &TickStats, client_tick_id: u32) -> (applies: bool)
        ensures
            applies == !has_flag(current.conditions.bitmask, INVINCIBLE),
            final(self).tick_last_hit == (if applies { client_tick_id } else { old(self).tick_last_hit }),
            final(self).ground == old(self).ground,
            final(self).projectiles == old(self).projectiles,
    {
        if current.conditions.invincible() {
            return false;
        }
        self.tick_last_hit = client_tick_id;
        true
    }

    /// Whether the player went ten client ticks (two seconds) without a hit,
    /// after which the client-side HP follows the server's again.
    pub fn quiet(&self, client_tick_id: u32) -> (r: bool)
        requires
            self.tick_last_hit <= client_tick_id,
        ensures
            r == (client_tick_id - self.tick_last_hit >= 10),
    {
        client_tick_id - self.tick_last_hit >= 10
    }
}

/// What `/autonexus` asks for.
#[derive(Debug, Clone, Copy, PartialEq, Eq, Structural)]
pub enum AutonexusCommand {
    /// The line is not this command.
    NotCommand,
    /// No value was given: show the current threshold.
    ShowThreshold,
    /// The value is no integer.
    InvalidHp,
    /// Set the threshold to this HP.
    SetThreshold(i64),
}

/// What a chat line asks of the autonexus.
pub open spec fn autonexus_command_of(text: Seq<char>) -> AutonexusCommand {
    if !"/autonexus"@.is_prefix_of(text) {
        AutonexusCommand::NotCommand
    } else {
        match second_field(text, ' ') {
            None => AutonexusCommand::ShowThreshold,
            Some(hp) => match parse_integer(hp, 10, i64::MIN as int, i64::MAX as int) {
                Some(v) => AutonexusCommand::SetThreshold(v as i64),
                None => AutonexusCommand::InvalidHp,
            },
        }
    }
}

/// Reads `/autonexus <HP>`, which sets the HP at which to leave the map.
pub fn autonexus_command(text: &str) -> (r: AutonexusCommand)
    ensures
        r == autonexus_command_of(text@),
{
    if !starts_with(text, "/autonexus") {
        return AutonexusCommand::NotCommand;
    }
    match split_second(text, ' ') {
        None => AutonexusCommand::ShowThreshold,
        Some(hp) => match parse_i64(hp.as_str()) {
            Some(v) => AutonexusCommand::SetThreshold(v),
            None => AutonexusCommand::InvalidHp,
        },
    }
}


/// Law: a hit that does not pierce armor, on armor that is not broken, deals
/// at least a tenth of its damage whatever the defense; one that pierces deals
/// all of it.
pub proof fn law_minimum_damage(dmg: int, armor_piercing: bool, def: int, c: PlayerConditions)
    requires
        dmg >= 0,
    ensures
        after_defense(dmg, armor_piercing, def, c) >= dmg / 10,
        armor_piercing ==> after_defense(dmg, armor_piercing, def, c) == dmg,
{
}

/// Law: curses and exposure only ever add damage (to a non-negative hit).
pub proof fn law_conditions_add_damage(dmg: int, armor_piercing: bool, def: int, c: PlayerConditions, c2: PlayerConditions2)
    requires
        dmg >= 0,
    ensures
        exposed_damage(dmg, armor_piercing, def, c, c2) >= after_defense(dmg, armor_piercing, def, c),
        bullet_damage(dmg, armor_piercing, def, c, c2) >= exposed_damage(dmg, armor_piercing, def, c, c2),
        aoe_damage(dmg, armor_piercing, def, c, c2) >= exposed_damage(dmg, armor_piercing, def, c, c2),
        has_flag(c2.bitmask, EXPOSED) ==> exposed_damage(dmg, armor_piercing, def, c, c2) == after_defense(dmg, armor_piercing, def, c) + 20,
{
    let d = exposed_damage(dmg, armor_piercing, def, c, c2);
    assert(d >= 0);
    assert((5 * d) / 4 >= d) by (nonlinear_arith)
        requires
            d >= 0,
    ;
}
} // verus!
