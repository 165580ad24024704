//! The player's condition effects, as bit masks that the server sends in stats.

use vstd::prelude::*;

verus! {

/// Condition effects carried by the `Condition` stat.
#[derive(Debug, Clone, Copy, PartialEq, Eq, Structural)]
pub struct PlayerConditions {
    pub bitmask: u64,
}

/// Condition effects carried by the `Condition2` stat.
#[derive(Debug, Clone, Copy, PartialEq, Eq, Structural)]
pub struct PlayerConditions2 {
    pub bitmask: u64,
}

pub const WEAK: u64 = 0x4;
pub const SLOW: u64 = 0x8;
pub const SICK: u64 = 0x10;
pub const BLIND: u64 = 0x80;
pub const HALLUCINATING: u64 = 0x100;
pub const DRUNK: u64 = 0x200;
pub const CONFUSED: u64 = 0x400;
pub const BLEEDING: u64 = 0x8000;
pub const HEALING: u64 = 0x20000;
pub const IN_COMBAT: u64 = 0x100000;
pub const INVINCIBLE: u64 = 0x800000;
pub const INVULNERABLE: u64 = 0x1000000;
pub const ARMORED: u64 = 0x2000000;
pub const ARMOR_BROKEN: u64 = 0x4000000;
pub const UNSTABLE: u64 = 0x20000000;
pub const DARKNESS: u64 = 0x40000000;

pub const CURSED: u64 = 0x40;
pub const EXPOSED: u64 = 0x20000;

/// Whether `flag` is set in `mask`.
pub open spec fn has_flag(mask: u64, flag: u64) -> bool {
    mask & flag != 0
}

/// `mask` with `flag` set or cleared.
pub open spec fn with_flag(mask: u64, flag: u64, val: bool) -> u64 {
    if val { mask | flag } else { mask & !flag }
}

fn get_flag(mask: u64, flag: u64) -> (r: bool)
    ensures
        r == has_flag(mask, flag),
{
    mask & flag != 0
}

fn set_flag(mask: u64, flag: u64, val: bool) -> (r: u64)
    ensures
        r == with_flag(mask, flag, val),
{
    if val { mask | flag } else { mask & !flag }
}

/// Law: after a flag is set to `val`, reading it gives `val`; every flag that
/// shares no bit with it reads as before; and setting the flag back to what it
/// read before gives the first mask.
pub proof fn law_flag_set_get(mask: u64, flag: u64, other: u64, val: bool)
    requires
        flag != 0,
        flag & ((flag - 1) as u64) == 0,
        flag & other == 0,
    ensures
        has_flag(with_flag(mask, flag, val), flag) == val,
        has_flag(with_flag(mask, flag, val), other) == has_flag(mask, other),
        with_flag(with_flag(mask, flag, val), flag, has_flag(mask, flag)) == mask,
{
    assert(flag != 0 ==> ((mask | flag) & flag != 0) && ((mask & !flag) & flag == 0)) by (bit_vector);
    assert(flag & other == 0 ==> (((mask | flag) & other != 0) == (mask & other != 0)) && (((mask
        & !flag) & other != 0) == (mask & other != 0))) by (bit_vector);
    assert(flag != 0 && flag & ((flag - 1) as u64) == 0 && mask & flag != 0 ==> ((mask | flag) | flag)
        == mask && ((mask & !flag) | flag) == mask) by (bit_vector);
    assert(mask & flag == 0 ==> ((mask | flag) & !flag) == mask && ((mask & !flag) & !flag) == mask)
        by (bit_vector);
}

impl PlayerConditions {
    pub fn weak(&self) -> (r: bool) ensures r == has_flag(self.bitmask, WEAK), { get_flag(self.bitmask, WEAK) }
    pub fn set_weak(&mut self, val: bool) ensures final(self).bitmask == with_flag(old(self).bitmask, WEAK, val), { self.bitmask = set_flag(self.bitmask, WEAK, val); }
    pub fn slow(&self) -> (r: bool) ensures r == has_flag(self.bitmask, SLOW), { get_flag(self.bitmask, SLOW) }
    pub fn set_slow(&mut self, val: bool) ensures final(self).bitmask == with_flag(old(self).bitmask, SLOW, val), { self.bitmask = set_flag(self.bitmask, SLOW, val); }
    pub fn sick(&self) -> (r: bool) ensures r == has_flag(self.bitmask, SICK), { get_flag(self.bitmask, SICK) }
    pub fn set_sick(&mut self, val: bool) ensures final(self).bitmask == with_flag(old(self).bitmask, SICK, val), { self.bitmask = set_flag(self.bitmask, SICK, val); }
    pub fn blind(&self) -> (r: bool) ensures r == has_flag(self.bitmask, BLIND), { get_flag(self.bitmask, BLIND) }
    pub fn set_blind(&mut self, val: bool) ensures final(self).bitmask == with_flag(old(self).bitmask, BLIND, val), { self.bitmask = set_flag(self.bitmask, BLIND, val); }
    pub fn hallucinating(&self) -> (r: bool) ensures r == has_flag(self.bitmask, HALLUCINATING), { get_flag(self.bitmask, HALLUCINATING) }
    pub fn set_hallucinating(&mut self, val: bool) ensures final(self).bitmask == with_flag(old(self).bitmask, HALLUCINATING, val), { self.bitmask = set_flag(self.bitmask, HALLUCINATING, val); }
    pub fn drunk(&self) -> (r: bool) ensures r == has_flag(self.bitmask, DRUNK), { get_flag(self.bitmask, DRUNK) }
    pub fn set_drunk(&mut self, val: bool) ensures final(self).bitmask == with_flag(old(self).bitmask, DRUNK, val), { self.bitmask = set_flag(self.bitmask, DRUNK, val); }
    pub fn confused(&self) -> (r: bool) ensures r == has_flag(self.bitmask, CONFUSED), { get_flag(self.bitmask, CONFUSED) }
    pub fn set_confused(&mut self, val: bool) ensures final(self).bitmask == with_flag(old(self).bitmask, CONFUSED, val), { self.bitmask = set_flag(self.bitmask, CONFUSED, val); }
    pub fn bleeding(&self) -> (r: bool) ensures r == has_flag(self.bitmask, BLEEDING), { get_flag(self.bitmask, BLEEDING) }
    pub fn set_bleeding(&mut self, val: bool) ensures final(self).bitmask == with_flag(old(self).bitmask, BLEEDING, val), { self.bitmask = set_flag(self.bitmask, BLEEDING, val); }
    pub fn healing(&self) -> (r: bool) ensures r == has_flag(self.bitmask, HEALING), { get_flag(self.bitmask, HEALING) }
    pub fn set_healing(&mut self, val: bool) ensures final(self).bitmask == with_flag(old(self).bitmask, HEALING, val), { self.bitmask = set_flag(self.bitmask, HEALING, val); }
    pub fn in_combat(&self) -> (r: bool) ensures r == has_flag(self.bitmask, IN_COMBAT), { get_flag(self.bitmask, IN_COMBAT) }
    pub fn set_in_combat(&mut self, val: bool) ensures final(self).bitmask == with_flag(old(self).bitmask, IN_COMBAT, val), { self.bitmask = set_flag(self.bitmask, IN_COMBAT, val); }
    pub fn invincible(&self) -> (r: bool) ensures r == has_flag(self.bitmask, INVINCIBLE), { get_flag(self.bitmask, INVINCIBLE) }
    pub fn set_invincible(&mut self, val: bool) ensures final(self).bitmask == with_flag(old(self).bitmask, INVINCIBLE, val), { self.bitmask = set_flag(self.bitmask, INVINCIBLE, val); }
    pub fn invulnerable(&self) -> (r: bool) ensures r == has_flag(self.bitmask, INVULNERABLE), { get_flag(self.bitmask, INVULNERABLE) }
    pub fn set_invulnerable(&mut self, val: bool) ensures final(self).bitmask == with_flag(old(self).bitmask, INVULNERABLE, val), { self.bitmask = set_flag(self.bitmask, INVULNERABLE, val); }
    pub fn armored(&self) -> (r: bool) ensures r == has_flag(self.bitmask, ARMORED), { get_flag(self.bitmask, ARMORED) }
    pub fn set_armored(&mut self, val: bool) ensures final(self).bitmask == with_flag(old(self).bitmask, ARMORED, val), { self.bitmask = set_flag(self.bitmask, ARMORED, val); }
    pub fn armor_broken(&self) -> (r: bool) ensures r == has_flag(self.bitmask, ARMOR_BROKEN), { get_flag(self.bitmask, ARMOR_BROKEN) }
    pub fn set_armor_broken(&mut self, val: bool) ensures final(self).bitmask == with_flag(old(self).bitmask, ARMOR_BROKEN, val), { self.bitmask = set_flag(self.bitmask, ARMOR_BROKEN, val); }
    pub fn unstable(&self) -> (r: bool) ensures r == has_flag(self.bitmask, UNSTABLE), { get_flag(self.bitmask, UNSTABLE) }
    pub fn set_unstable(&mut self, val: bool) ensures final(self).bitmask == with_flag(old(self).bitmask, UNSTABLE, val), { self.bitmask = set_flag(self.bitmask, UNSTABLE, val); }
    pub fn darkness(&self) -> (r: bool) ensures r == has_flag(self.bitmask, DARKNESS), { get_flag(self.bitmask, DARKNESS) }
    pub fn set_darkness(&mut self, val: bool) ensures final(self).bitmask == with_flag(old(self).bitmask, DARKNESS, val), { self.bitmask = set_flag(self.bitmask, DARKNESS, val); }
}

impl PlayerConditions2 {
    pub fn cursed(&self) -> (r: bool) ensures r == has_flag(self.bitmask, CURSED), { get_flag(self.bitmask, CURSED) }
    pub fn set_cursed(&mut self, val: bool) ensures final(self).bitmask == with_flag(old(self).bitmask, CURSED, val), { self.bitmask = set_flag(self.bitmask, CURSED, val); }
    pub fn exposed(&self) -> (r: bool) ensures r == has_flag(self.bitmask, EXPOSED), { get_flag(self.bitmask, EXPOSED) }
    pub fn set_exposed(&mut self, val: bool) ensures final(self).bitmask == with_flag(old(self).bitmask, EXPOSED, val), { self.bitmask = set_flag(self.bitmask, EXPOSED, val); }
}

} // verus!
