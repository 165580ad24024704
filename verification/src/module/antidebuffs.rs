//! Clears the client-side debuffs that the user chose to ignore from the
//! player's own condition stat.

use vstd::prelude::*;
use super::{Module, ModuleInstance};
use crate::config::Debuffs;
use crate::extra_datatypes::conditions::{
    has_flag, with_flag, PlayerConditions, BLIND, CONFUSED, DARKNESS, DRUNK, HALLUCINATING, UNSTABLE,
};
use crate::extra_datatypes::find::{
    find_new_object, find_stat, find_status, first_stat, first_status, new_objects_view, stats_view,
    statuses_view,
};
use crate::extra_datatypes::object_status_data::{ObjectStatusData, ObjectStatusView};
use crate::extra_datatypes::statdata::{stat_int, Stat, StatData, StatDataView, StatType, StatView};
use crate::extra_datatypes::ObjectId;

verus! {

#[derive(Debug, Clone)]
pub struct Antidebuffs {}

#[derive(Debug, Clone)]
pub struct AntidebuffsInst {}

impl Module for Antidebuffs {
    type Instance = AntidebuffsInst;

    fn new() -> Self {
        Antidebuffs {}
    }

    fn instance(&self) -> AntidebuffsInst {
        AntidebuffsInst {}
    }
}

impl ModuleInstance for AntidebuffsInst {}

/// `mask` with `flag` cleared when `on`.
pub open spec fn clear_if(mask: u64, on: bool, flag: u64) -> u64 {
    if on { with_flag(mask, flag, false) } else { mask }
}

/// `mask` without the debuffs that `d` disables. (`hexed` is not cleared: it is
/// no client-side effect.)
pub open spec fn without_debuffs(d: Debuffs, mask: u64) -> u64 {
    let m1 = clear_if(mask, d.blind, BLIND);
    let m2 = clear_if(m1, d.hallucinating, HALLUCINATING);
    let m3 = clear_if(m2, d.drunk, DRUNK);
    let m4 = clear_if(m3, d.confused, CONFUSED);
    let m5 = clear_if(m4, d.unstable, UNSTABLE);
    clear_if(m5, d.darkness, DARKNESS)
}

/// Clears in `condition` each debuff that `debuffs` disables.
pub fn remove_debuffs(debuffs: &Debuffs, condition: &mut PlayerConditions)
    ensures
        final(condition).bitmask == without_debuffs(*debuffs, old(condition).bitmask),
{
    if debuffs.blind {
        condition.set_blind(false);
    }
    if debuffs.hallucinating {
        condition.set_hallucinating(false);
    }
    if debuffs.drunk {
        condition.set_drunk(false);
    }
    if debuffs.confused {
        condition.set_confused(false);
    }
    if debuffs.unstable {
        condition.set_unstable(false);
    }
    if debuffs.darkness {
        condition.set_darkness(false);
    }
}

/// The first condition stat of `s`, if it spells an integer as all stats that
/// the game sends do.
pub open spec fn condition_readable(s: Seq<StatDataView>) -> bool {
    first_stat(s, StatType::Condition) matches Some(i) ==> stat_int(s[i].stat) is Some
}

/// `s` with its first condition stat cleared of the disabled debuffs.
pub open spec fn stats_without_debuffs(d: Debuffs, s: Seq<StatDataView>) -> Seq<StatDataView> {
    match first_stat(s, StatType::Condition) {
        Some(i) => s.update(
            i,
            StatDataView {
                stat: StatView::Int(without_debuffs(d, stat_int(s[i].stat).unwrap() as u64) as i64),
                ..s[i]
            },
        ),
        None => s,
    }
}

/// Clears the disabled debuffs from the first condition stat in `stats`.
pub fn clear_debuffs(debuffs: &Debuffs, stats: &mut Vec<StatData>)
    requires
        condition_readable(stats_view(old(stats)@)),
    ensures
        stats_view(final(stats)@) == stats_without_debuffs(*debuffs, stats_view(old(stats)@)),
{
    match find_stat(stats, StatType::Condition) {
        Some(i) => {
            let mut cond = PlayerConditions { bitmask: stats[i].stat.as_int() as u64 };
            remove_debuffs(debuffs, &mut cond);
            let st = StatData {
                stat_type: stats[i].stat_type,
                stat: Stat::Int(cond.bitmask as i64),
                secondary_stat: stats[i].secondary_stat,
            };
            stats.set(i, st);
            assert(stats_view(stats@) =~= stats_without_debuffs(*debuffs, stats_view(old(stats)@)));
        },
        None => {},
    }
}

/// A status with its stats replaced.
pub open spec fn with_stats(v: ObjectStatusView, s: Seq<StatDataView>) -> ObjectStatusView {
    ObjectStatusView { stats: s, ..v }
}

/// The statuses of a tick with the player's own cleared of the disabled debuffs.
pub open spec fn tick_without_debuffs(d: Debuffs, s: Seq<ObjectStatusView>, me: u32) -> Seq<ObjectStatusView> {
    match first_status(s, me) {
        Some(i) => s.update(i, with_stats(s[i], stats_without_debuffs(d, s[i].stats))),
        None => s,
    }
}

/// The player's own status, if there is one, has a readable condition stat.
pub open spec fn own_condition_readable(s: Seq<ObjectStatusView>, me: u32) -> bool {
    first_status(s, me) matches Some(i) ==> condition_readable(s[i].stats)
}

impl AntidebuffsInst {
    /// A new tick: clears the disabled debuffs from the player's own status.
    pub fn new_tick(&self, debuffs: &Debuffs, statuses: &mut Vec<ObjectStatusData>, me: ObjectId)
        requires
            own_condition_readable(statuses_view(old(statuses)@), me.0),
        ensures
            statuses_view(final(statuses)@) == tick_without_debuffs(*debuffs, statuses_view(old(statuses)@), me.0),
    {
        match find_status(statuses, me) {
            Some(i) => {
                let mut status = statuses.remove(i);
                clear_debuffs(debuffs, &mut status.stats);
                statuses.insert(i, status);
                assert(statuses_view(statuses@) =~= tick_without_debuffs(
                    *debuffs,
                    statuses_view(old(statuses)@),
                    me.0,
                ));
            },
            None => {},
        }
    }

    /// An update that adds objects: clears the disabled debuffs from the player,
    /// if the player is among them.
    pub fn update(&self, debuffs: &Debuffs, new_objects: &mut Vec<(u16, ObjectStatusData)>, me: ObjectId)
        requires
            own_condition_readable(new_objects_view(old(new_objects)@), me.0),
        ensures
            new_objects_view(final(new_objects)@) == tick_without_debuffs(
                *debuffs,
                new_objects_view(old(new_objects)@),
                me.0,
            ),
            forall|k: int| 0 <= k < old(new_objects)@.len() ==> final(new_objects)@[k].0 == old(new_objects)@[k].0,
            final(new_objects)@.len() == old(new_objects)@.len(),
    {
        match find_new_object(new_objects, me) {
            Some(i) => {
                let (kind, mut status) = new_objects.remove(i);
                clear_debuffs(debuffs, &mut status.stats);
                new_objects.insert(i, (kind, status));
                assert(new_objects_view(new_objects@) =~= tick_without_debuffs(
                    *debuffs,
                    new_objects_view(old(new_objects)@),
                    me.0,
                ));
            },
            None => {},
        }
    }
}


/// The six debuff bits, cleared by choice, in bit-vector terms.
proof fn lemma_six_cleared(mask: u64, other: u64, b1: bool, b2: bool, b3: bool, b4: bool, b5: bool, b6: bool)
    by (bit_vector)
    requires
        other & (BLIND | HALLUCINATING | DRUNK | CONFUSED | UNSTABLE | DARKNESS) == 0,
    ensures
        ({
            let m6 = clear_if(clear_if(clear_if(clear_if(clear_if(clear_if(mask, b1, BLIND), b2, HALLUCINATING), b3, DRUNK), b4, CONFUSED), b5, UNSTABLE), b6, DARKNESS);
            &&& b1 ==> m6 & BLIND == 0
            &&& b2 ==> m6 & HALLUCINATING == 0
            &&& b3 ==> m6 & DRUNK == 0
            &&& b4 ==> m6 & CONFUSED == 0
            &&& b5 ==> m6 & UNSTABLE == 0
            &&& b6 ==> m6 & DARKNESS == 0
            &&& m6 & other == mask & other
        }),
{
}

/// Law: every debuff that the user disabled is cleared, and every other bit of
/// the condition stat stays as it was.
pub proof fn law_debuffs_cleared(d: Debuffs, mask: u64, other: u64)
    requires
        other & (BLIND | HALLUCINATING | DRUNK | CONFUSED | UNSTABLE | DARKNESS) == 0,
    ensures
        d.blind ==> !has_flag(without_debuffs(d, mask), BLIND),
        d.hallucinating ==> !has_flag(without_debuffs(d, mask), HALLUCINATING),
        d.drunk ==> !has_flag(without_debuffs(d, mask), DRUNK),
        d.confused ==> !has_flag(without_debuffs(d, mask), CONFUSED),
        d.unstable ==> !has_flag(without_debuffs(d, mask), UNSTABLE),
        d.darkness ==> !has_flag(without_debuffs(d, mask), DARKNESS),
        without_debuffs(d, mask) & other == mask & other,
{
    lemma_six_cleared(mask, other, d.blind, d.hallucinating, d.drunk, d.confused, d.unstable, d.darkness);
}
} // verus!
