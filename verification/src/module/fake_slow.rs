//! `/slow`: makes the client believe the player is slowed, by setting the slow
//! bit in the player's condition stat of every tick.

use vstd::prelude::*;
use super::{Module, ModuleInstance};
use super::antidebuffs::with_stats;
use crate::extra_datatypes::conditions::{has_flag, with_flag, PlayerConditions, SLOW};
use crate::extra_datatypes::find::{find_stat, find_status, first_stat, first_status, stats_view, statuses_view};
use crate::extra_datatypes::object_status_data::{ObjectStatusData, ObjectStatusView, WorldPosBits};
use crate::extra_datatypes::statdata::{Stat, StatData, StatDataView, StatType, StatView};
use crate::extra_datatypes::ObjectId;
use crate::text::starts_with;

verus! {

#[derive(Debug, Clone)]
pub struct FakeSlow {}

#[derive(Debug, Clone)]
pub struct FakeSlowInst {
    pub enabled: bool,
    /// Whether the client already saw the current state.
    pub synced: bool,
}

impl Module for FakeSlow {
    type Instance = FakeSlowInst;

    fn new() -> Self {
        FakeSlow {}
    }

    fn instance(&self) -> (r: FakeSlowInst)
        ensures
            !r.enabled,
            r.synced,
    {
        FakeSlowInst { enabled: false, synced: true }
    }
}

impl ModuleInstance for FakeSlowInst {}

/// Whether a chat line is the `/slow` command.
pub fn is_slow_command(text: &str) -> (r: bool)
    ensures
        r == "/slow"@.is_prefix_of(text@),
{
    starts_with(text, "/slow")
}

/// The condition stat that the client is shown.
pub open spec fn slow_stat(newest: PlayerConditions, enabled: bool) -> StatDataView {
    StatDataView {
        stat_type: StatType::Condition,
        stat: StatView::Int(with_flag(newest.bitmask, SLOW, enabled) as i64),
        secondary_stat: -1i64,
    }
}

/// The statuses of a tick after this module, when the player is not slowed already.
pub open spec fn slowed_tick(
    s: Seq<ObjectStatusView>,
    st: StatDataView,
    synced: bool,
    me: u32,
    pos: WorldPosBits,
) -> Seq<ObjectStatusView> {
    match first_status(s, me) {
        Some(i) => match first_stat(s[i].stats, StatType::Condition) {
            Some(j) => s.update(i, with_stats(s[i], s[i].stats.update(j, st))),
            None => if synced {
                s
            } else {
                s.update(i, with_stats(s[i], s[i].stats.push(st)))
            },
        },
        None => if synced {
            s
        } else {
            s.push(ObjectStatusView { object_id: me, position: pos, stats: seq![st] })
        },
    }
}

impl FakeSlowInst {
    /// `/slow`: toggles the effect; the next tick shows the new state. Returns
    /// the message for the user.
    pub fn toggle(&mut self) -> (message: &'static str)
        ensures
            final(self).enabled == !old(self).enabled,
            !final(self).synced,
            message@ == (if final(self).enabled { "Slow enabled."@ } else { "Slow disabled."@ }),
    {
        self.enabled = !self.enabled;
        self.synced = false;
        if self.enabled {
            "Slow enabled."
        } else {
            "Slow disabled."
        }
    }

    /// A new tick. Unless the player is slowed already (then nothing changes),
    /// the player's condition stat is replaced by one with the slow bit as the
    /// module wants it, or added where the client has not seen the state yet.
    pub fn new_tick(
        &mut self,
        statuses: &mut Vec<ObjectStatusData>,
        newest: PlayerConditions,
        me: ObjectId,
        pos: WorldPosBits,
    )
        ensures
            final(self).enabled == old(self).enabled,
            has_flag(newest.bitmask, SLOW) ==> {
                &&& final(statuses)@ == old(statuses)@
                &&& final(self).synced == old(self).synced
            },
            !has_flag(newest.bitmask, SLOW) ==> {
                &&& final(self).synced
                &&& statuses_view(final(statuses)@) == slowed_tick(
                    statuses_view(old(statuses)@),
                    slow_stat(newest, old(self).enabled),
                    old(self).synced,
                    me.0,
                    pos,
                )
            },
    {
        let mut conditions = newest;
        if conditions.slow() {
            return;
        }
        conditions.set_slow(self.enabled);
        let stat = StatData {
            stat_type: StatType::Condition,
            stat: Stat::Int(conditions.bitmask as i64),
            secondary_stat: -1,
        };
        let ghost s = statuses_view(statuses@);
        let ghost st = slow_stat(newest, self.enabled);
        assert(stat@ == st);
        match find_status(statuses, me) {
            Some(i) => {
                let mut status = statuses.remove(i);
                let ghost old_stats = stats_view(status.stats@);
                assert(old_stats == s[i as int].stats);
                match find_stat(&status.stats, StatType::Condition) {
                    Some(j) => {
                        status.stats.set(j, stat);
                        assert(stats_view(status.stats@) =~= old_stats.update(j as int, st));
                    },
                    None => {
                        if !self.synced {
                            status.stats.push(stat);
                            assert(stats_view(status.stats@) =~= old_stats.push(st));
                        }
                    },
                }
                statuses.insert(i, status);
                assert(statuses_view(statuses@) =~= slowed_tick(s, st, old(self).synced, me.0, pos));
            },
            None => {
                if !self.synced {
                    let mut v: Vec<StatData> = Vec::new();
                    v.push(stat);
                    statuses.push(ObjectStatusData { object_id: me, position: pos, stats: v });
                    assert(stats_view(v@) =~= seq![st]);
                    assert(statuses_view(statuses@) =~= slowed_tick(s, st, old(self).synced, me.0, pos));
                } else {
                    return;
                }
            },
        }
        self.synced = true;
    }
}


/// Law: the condition stat that the client is shown has the slow bit exactly
/// when the module is enabled, and every other bit as the server sent it.
pub proof fn law_slow_shown(newest: PlayerConditions, enabled: bool, other: u64)
    requires
        other & SLOW == 0,
    ensures
        slow_stat(newest, enabled).stat matches StatView::Int(v) && has_flag(v as u64, SLOW) == enabled
            && (v as u64) & other == newest.bitmask & other,
{
    let b = newest.bitmask;
    let m = with_flag(b, SLOW, enabled);
    assert((m as i64) as u64 == m) by (bit_vector);
    assert(has_flag(m, SLOW) == enabled && m & other == b & other) by (bit_vector)
        requires
            m == with_flag(b, SLOW, enabled),
            other & SLOW == 0,
    ;
}
} // verus!
