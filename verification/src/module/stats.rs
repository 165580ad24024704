//! The player's stats and conditions, tick by tick: the tick that the client
//! acknowledged last, then each tick that the server sent since.

use vstd::prelude::*;
use std::collections::VecDeque;
use super::{Module, ModuleInstance};
use crate::extra_datatypes::conditions::{PlayerConditions, PlayerConditions2};
use crate::extra_datatypes::object_status_data::WorldPosBits;
use crate::extra_datatypes::find::stats_view;
use crate::extra_datatypes::statdata::{stat_int, StatData, StatDataView, StatType};

verus! {

#[derive(Debug, Clone)]
pub struct Stats {}

/// The stats of one tick.
#[derive(Debug, Clone, Copy)]
pub struct TickStats {
    /// The important stats of the player.
    pub stats: PlayerStats,
    /// The player's condition effects, such as exposed, cursed, bleeding.
    pub conditions: PlayerConditions,
    pub conditions2: PlayerConditions2,
}

/// The stats that the modules use.
#[derive(Debug, Clone, Copy)]
pub struct PlayerStats {
    /// HP on the server's side.
    pub hp: i64,
    pub max_hp: i64,
    pub def: i64,
    pub vit: i64,
    pub spd: i64,
}

/// The stats of the current connection. The first tick is the one the client
/// acknowledged last; the others were sent since and are not acknowledged yet.
/// There is always at least one.
#[derive(Debug, Clone)]
pub struct StatsInst {
    pub ticks: VecDeque<TickStats>,
    /// The player's position as the last move packet gave it.
    pub pos: WorldPosBits,
}

impl Module for Stats {
    type Instance = StatsInst;

    fn new() -> Self {
        Stats {}
    }

    fn instance(&self) -> (r: StatsInst)
        ensures
            r.ticks@ == seq![empty_tick()],
            r.pos == (WorldPosBits { x: 0, y: 0 }),
    {
        let mut ticks = VecDeque::new();
        ticks.push_back(TickStats::empty());
        StatsInst { ticks, pos: WorldPosBits { x: 0, y: 0 } }
    }
}

impl ModuleInstance for StatsInst {}

/// The stats before the server sent any.
pub open spec fn empty_tick() -> TickStats {
    TickStats {
        stats: PlayerStats { hp: 0, max_hp: 10000, def: 0, vit: 0, spd: 0 },
        conditions: PlayerConditions { bitmask: 0 },
        conditions2: PlayerConditions2 { bitmask: 0 },
    }
}

/// The kinds of stats that a tick keeps.
pub open spec fn kept_stat(t: StatType) -> bool {
    t == StatType::MaxHP || t == StatType::Defense || t == StatType::Vitality || t == StatType::HP
        || t == StatType::Speed || t == StatType::Condition || t == StatType::Condition2
}

/// Every stat that a tick keeps spells an integer, as all that the game sends do.
pub open spec fn stats_readable(s: Seq<StatDataView>) -> bool {
    forall|i: int| 0 <= i < s.len() && kept_stat(#[trigger] s[i].stat_type) ==> stat_int(s[i].stat) is Some
}

/// A tick after one stat.
pub open spec fn apply_stat(t: TickStats, s: StatDataView) -> TickStats {
    let v = stat_int(s.stat).unwrap();
    match s.stat_type {
        StatType::MaxHP => TickStats { stats: PlayerStats { max_hp: v, ..t.stats }, ..t },
        StatType::Defense => TickStats { stats: PlayerStats { def: v, ..t.stats }, ..t },
        StatType::Vitality => TickStats { stats: PlayerStats { vit: v, ..t.stats }, ..t },
        StatType::HP => TickStats { stats: PlayerStats { hp: v, ..t.stats }, ..t },
        StatType::Speed => TickStats { stats: PlayerStats { spd: v, ..t.stats }, ..t },
        StatType::Condition => TickStats { conditions: PlayerConditions { bitmask: v as u64 }, ..t },
        StatType::Condition2 => TickStats { conditions2: PlayerConditions2 { bitmask: v as u64 }, ..t },
        _ => t,
    }
}

/// A tick after a list of stats, in order.
pub open spec fn apply_stats(t: TickStats, s: Seq<StatDataView>) -> TickStats
    decreases s.len(),
{
    if s.len() == 0 {
        t
    } else {
        apply_stat(apply_stats(t, s.drop_last()), s.last())
    }
}

impl TickStats {
    fn empty() -> (r: TickStats)
        ensures
            r == empty_tick(),
    {
        TickStats {
            stats: PlayerStats { hp: 0, max_hp: 10000, def: 0, vit: 0, spd: 0 },
            conditions: PlayerConditions { bitmask: 0 },
            conditions2: PlayerConditions2 { bitmask: 0 },
        }
    }
}

/// Applies the stats of the player's status to a tick.
pub fn update_stats(tick: &mut TickStats, stats: &[StatData])
    requires
        stats_readable(stats_view(stats@)),
    ensures
        *final(tick) == apply_stats(*old(tick), stats_view(stats@)),
{
    let ghost s = stats_view(stats@);
    let mut i: usize = 0;
    while i < stats.len()
        invariant
            s == stats_view(stats@),
            stats_readable(s),
            i <= stats.len(),
            *tick == apply_stats(*old(tick), s.take(i as int)),
        decreases stats.len() - i,
    {
        let stat = &stats[i];
        assert(s[i as int] == stat@);
        assert(kept_stat(s[i as int].stat_type) ==> stat_int(s[i as int].stat) is Some);
        match stat.stat_type {
            StatType::MaxHP => {
                tick.stats.max_hp = stat.stat.as_int();
            },
            StatType::Defense => {
                tick.stats.def = stat.stat.as_int();
            },
            StatType::Vitality => {
                tick.stats.vit = stat.stat.as_int();
            },
            StatType::HP => {
                tick.stats.hp = stat.stat.as_int();
            },
            StatType::Speed => {
                tick.stats.spd = stat.stat.as_int();
            },
            StatType::Condition => {
                tick.conditions = PlayerConditions { bitmask: stat.stat.as_int() as u64 };
            },
            StatType::Condition2 => {
                tick.conditions2 = PlayerConditions2 { bitmask: stat.stat.as_int() as u64 };
            },
            _ => {},
        }
        assert(s.take(i + 1).drop_last() =~= s.take(i as int));
        i += 1;
    }
    assert(s.take(stats.len() as int) =~= s);
}

/// A tick for the server's answer that the client has not acknowledged yet.
pub enum TickError {
    /// The client acknowledged a tick that the server had not sent.
    UnsentTick,
}

impl StatsInst {
    /// At least one tick is kept.
    pub open spec fn wf(&self) -> bool {
        self.ticks@.len() >= 1
    }

    /// The current stats: those of the tick that the client acknowledged last.
    pub fn get(&self) -> (r: &TickStats)
        requires
            self.wf(),
        ensures
            *r == self.ticks@[0],
    {
        &self.ticks[0]
    }

    /// The most recent stats: those of the last tick that the server sent.
    pub fn get_newest(&self) -> (r: &TickStats)
        requires
            self.wf(),
        ensures
            *r == self.ticks@.last(),
    {
        &self.ticks[self.ticks.len() - 1]
    }

    /// The client acknowledged a tick with a move packet whose last record, if
    /// any, is the player's new position. The oldest tick is dropped; it is an
    /// error if it is the only one, which then stays.
    pub fn acknowledge_tick(&mut self, last_pos: Option<WorldPosBits>) -> (r: Result<(), TickError>)
        requires
            old(self).wf(),
        ensures
            final(self).wf(),
            final(self).pos == (match last_pos { Some(p) => p, None => old(self).pos }),
            r is Ok <==> old(self).ticks@.len() >= 2,
            r is Ok ==> final(self).ticks@ == old(self).ticks@.drop_first(),
            r is Err ==> final(self).ticks@ == old(self).ticks@,
    {
        if let Some(p) = last_pos {
            self.pos = p;
        }
        if self.ticks.len() < 2 {
            return Err(TickError::UnsentTick);
        }
        let _ = self.ticks.pop_front();
        Ok(())
    }

    /// The server sent a new tick, with the player's own stats if it has any.
    pub fn new_tick(&mut self, my_stats: Option<&Vec<StatData>>)
        requires
            old(self).wf(),
            my_stats matches Some(s) ==> stats_readable(stats_view(s@)),
        ensures
            final(self).wf(),
            final(self).pos == old(self).pos,
            final(self).ticks@ == old(self).ticks@.push(
                match my_stats {
                    Some(s) => apply_stats(old(self).ticks@.last(), stats_view(s@)),
                    None => old(self).ticks@.last(),
                },
            ),
    {
        let mut next = self.ticks[self.ticks.len() - 1];
        if let Some(s) = my_stats {
            update_stats(&mut next, s.as_slice());
        }
        self.ticks.push_back(next);
    }

    /// The server added the player's object: its stats go to the current tick.
    pub fn initial_stats(&mut self, my_stats: &Vec<StatData>)
        requires
            old(self).wf(),
            stats_readable(stats_view(my_stats@)),
        ensures
            final(self).wf(),
            final(self).pos == old(self).pos,
            final(self).ticks@ == old(self).ticks@.update(
                0,
                apply_stats(old(self).ticks@[0], stats_view(my_stats@)),
            ),
    {
        let mut first = self.ticks.pop_front().unwrap();
        update_stats(&mut first, my_stats.as_slice());
        self.ticks.push_front(first);
        assert(self.ticks@ =~= old(self).ticks@.update(
            0,
            apply_stats(old(self).ticks@[0], stats_view(my_stats@)),
        ));
    }
}

} // verus!
