//! What happens to the client-side HP between ticks, and how developer mode
//! shows it in the fame bar. The HP itself is a floating-point number that
//! the program around the library keeps; the decisions are made here.

use vstd::prelude::*;
use crate::extra_datatypes::conditions::{has_flag, BLEEDING, HEALING, IN_COMBAT, SICK};
use crate::extra_datatypes::find::{find_status, first_status, stats_view, statuses_view};
use crate::extra_datatypes::object_status_data::{ObjectStatusData, ObjectStatusView, WorldPosBits};
use crate::extra_datatypes::statdata::{Stat, StatData, StatDataView, StatType, StatView};
use crate::extra_datatypes::ObjectId;
use crate::module::antidebuffs::with_stats;
use crate::module::stats::{StatsInst, TickStats};

verus! {

/// The passive change of the client-side HP in a tick.
#[derive(Debug, Clone, Copy, PartialEq, Eq, Structural)]
pub enum PassiveEffect {
    /// Bleeding: 20 HP per second are lost, down to 1.
    Bleeding,
    /// The healing effect: 20 HP per second, up to the maximum.
    Healing,
    /// Regeneration by vitality (1 + 0.24 vit per second, half of it in
    /// combat), up to the maximum.
    Regeneration { vit: i64, in_combat: bool },
    /// No change: the player is sick, or the server's HP was full in the
    /// previous tick.
    Unchanged,
}

/// The passive change, from the newest tick and the one before it.
pub open spec fn passive_of(newest: TickStats, previous: TickStats) -> PassiveEffect {
    let c = newest.conditions.bitmask;
    if has_flag(c, BLEEDING) {
        PassiveEffect::Bleeding
    } else if has_flag(c, SICK) {
        PassiveEffect::Unchanged
    } else if previous.stats.hp == previous.stats.max_hp {
        PassiveEffect::Unchanged
    } else if has_flag(c, HEALING) {
        PassiveEffect::Healing
    } else {
        PassiveEffect::Regeneration { vit: newest.stats.vit, in_combat: has_flag(c, IN_COMBAT) }
    }
}

/// Law: what happens to the client-side HP between ticks. Bleeding always
/// wins; a sick player does not heal; where the server's HP was full in the
/// previous tick nothing changes, whatever the healing condition; otherwise
/// the healing condition heals, and without it vitality regenerates, at the
/// newest tick's vitality and half speed in combat.
pub proof fn law_passive_effect(newest: TickStats, previous: TickStats)
    ensures
        has_flag(newest.conditions.bitmask, BLEEDING) ==> passive_of(newest, previous) == PassiveEffect::Bleeding,
        !has_flag(newest.conditions.bitmask, BLEEDING) ==> passive_of(newest, previous) != PassiveEffect::Bleeding,
        !has_flag(newest.conditions.bitmask, BLEEDING) && has_flag(newest.conditions.bitmask, SICK)
            ==> passive_of(newest, previous) == PassiveEffect::Unchanged,
        !has_flag(newest.conditions.bitmask, BLEEDING) && previous.stats.hp == previous.stats.max_hp
            ==> passive_of(newest, previous) == PassiveEffect::Unchanged,
        passive_of(newest, previous) == PassiveEffect::Healing <==> (!has_flag(newest.conditions.bitmask, BLEEDING)
            && !has_flag(newest.conditions.bitmask, SICK) && previous.stats.hp != previous.stats.max_hp
            && has_flag(newest.conditions.bitmask, HEALING)),
        passive_of(newest, previous) is Regeneration <==> (!has_flag(newest.conditions.bitmask, BLEEDING)
            && !has_flag(newest.conditions.bitmask, SICK) && previous.stats.hp != previous.stats.max_hp
            && !has_flag(newest.conditions.bitmask, HEALING)),
        passive_of(newest, previous) matches PassiveEffect::Regeneration { vit, in_combat }
            ==> vit == newest.stats.vit && in_combat == has_flag(newest.conditions.bitmask, IN_COMBAT),
{
}

/// The passive change of this tick. The tick before the newest is read only
/// when the player neither bleeds nor is sick; then there must be one.
pub fn passive_effect(stats: &StatsInst) -> (r: PassiveEffect)
    requires
        stats.ticks@.len() >= 1,
        !has_flag(stats.ticks@.last().conditions.bitmask, BLEEDING)
            && !has_flag(stats.ticks@.last().conditions.bitmask, SICK) ==> stats.ticks@.len() >= 2,
    ensures
        r == passive_of(
            stats.ticks@.last(),
            if stats.ticks@.len() >= 2 { stats.ticks@[stats.ticks@.len() - 2] } else { stats.ticks@.last() },
        ),
{
    let newest = stats.get_newest();
    if newest.conditions.bleeding() {
        return PassiveEffect::Bleeding;
    }
    if newest.conditions.sick() {
        return PassiveEffect::Unchanged;
    }
    let previous = &stats.ticks[stats.ticks.len() - 2];
    if previous.stats.hp == previous.stats.max_hp {
        return PassiveEffect::Unchanged;
    }
    if newest.conditions.healing() {
        PassiveEffect::Healing
    } else {
        PassiveEffect::Regeneration { vit: newest.stats.vit, in_combat: newest.conditions.in_combat() }
    }
}

/// Whether a stat is one of the two that the fame bar shows.
pub open spec fn is_fame_stat(t: StatType) -> bool {
    t == StatType::CurrentFame || t == StatType::ClassQuestFame
}

/// The stats without the fame bar's.
pub open spec fn without_fame(s: Seq<StatDataView>) -> Seq<StatDataView>
    decreases s.len(),
{
    if s.len() == 0 {
        s
    } else {
        let r = without_fame(s.drop_last());
        if is_fame_stat(s.last().stat_type) { r } else { r.push(s.last()) }
    }
}

/// The stats with the fame bar showing `hp` of `max_hp`.
pub open spec fn hp_bar(s: Seq<StatDataView>, hp: i64, max_hp: i64) -> Seq<StatDataView> {
    without_fame(s)
        .push(StatDataView { stat_type: StatType::CurrentFame, stat: StatView::Int(hp), secondary_stat: -1i64 })
        .push(StatDataView { stat_type: StatType::ClassQuestFame, stat: StatView::Int(max_hp), secondary_stat: -1i64 })
}

/// The statuses of a tick with the player's fame bar showing the client-side
/// HP; a status for the player is added at `pos` if the tick has none.
pub open spec fn hp_shown(s: Seq<ObjectStatusView>, me: u32, pos: WorldPosBits, hp: i64, max_hp: i64) -> Seq<ObjectStatusView> {
    match first_status(s, me) {
        Some(i) => s.update(i, with_stats(s[i], hp_bar(s[i].stats, hp, max_hp))),
        None => s.push(ObjectStatusView { object_id: me, position: pos, stats: hp_bar(Seq::empty(), hp, max_hp) }),
    }
}

/// Replaces the fame stats of `stats` by the two that show `hp` of `max_hp`.
fn put_hp_bar(stats: &mut Vec<StatData>, hp: i64, max_hp: i64)
    ensures
        stats_view(final(stats)@) == hp_bar(stats_view(old(stats)@), hp, max_hp),
{
    let ghost s = stats_view(stats@);
    let mut i: usize = 0;
    let ghost mut k: int = 0;
    proof {
        assert(s.take(0) =~= Seq::<StatDataView>::empty());
        assert(stats_view(stats@) =~= without_fame(s.take(0)) + s.skip(0));
    }
    while i < stats.len()
        invariant
            0 <= k <= s.len(),
            s == stats_view(old(stats)@),
            stats_view(stats@) == without_fame(s.take(k)) + s.skip(k),
            i == without_fame(s.take(k)).len(),
        decreases stats.len() - i,
    {
        assert(s.take(k + 1).drop_last() =~= s.take(k));
        assert(stats_view(stats@)[i as int] == s[k]);
        assert(stats@[i as int]@ == s[k]);
        let t = stats[i].stat_type;
        assert(s.take(k + 1).last() == s[k]);
        let ghost w = without_fame(s.take(k));
        if t == StatType::CurrentFame || t == StatType::ClassQuestFame {
            assert(without_fame(s.take(k + 1)) == w);
            let ghost before = stats_view(stats@);
            let _ = stats.remove(i);
            assert(stats_view(stats@) =~= before.remove(i as int));
            assert(before.remove(i as int) =~= w + s.skip(k + 1));
        } else {
            assert(without_fame(s.take(k + 1)) == w.push(s[k]));
            assert(stats_view(stats@) =~= without_fame(s.take(k + 1)) + s.skip(k + 1));
            i += 1;
        }
        proof {
            k = k + 1;
        }
    }
    assert(s.skip(k).len() == 0);
    assert(k == s.len());
    assert(s.take(k) =~= s);
    let ghost before = stats_view(stats@);
    stats.push(StatData { stat_type: StatType::CurrentFame, stat: Stat::Int(hp), secondary_stat: -1 });
    stats.push(StatData { stat_type: StatType::ClassQuestFame, stat: Stat::Int(max_hp), secondary_stat: -1 });
    assert(stats_view(stats@) =~= hp_bar(s, hp, max_hp));
}

/// In developer mode the fame bar shows the client-side HP (its floor) of
/// the maximum: the player's status in the tick loses its fame stats and
/// gets the two that show it.
pub fn show_client_hp(statuses: &mut Vec<ObjectStatusData>, me: ObjectId, pos: WorldPosBits, hp: i64, max_hp: i64)
    ensures
        statuses_view(final(statuses)@) == hp_shown(statuses_view(old(statuses)@), me.0, pos, hp, max_hp),
{
    let ghost s = statuses_view(statuses@);
    match find_status(statuses, me) {
        Some(i) => {
            let mut status = statuses.remove(i);
            assert(status@ == s[i as int]);
            put_hp_bar(&mut status.stats, hp, max_hp);
            statuses.insert(i, status);
            assert(statuses_view(statuses@) =~= hp_shown(s, me.0, pos, hp, max_hp));
        },
        None => {
            let mut stats: Vec<StatData> = Vec::new();
            proof {
                assert(stats_view(stats@) =~= Seq::<StatDataView>::empty());
            }
            put_hp_bar(&mut stats, hp, max_hp);
            statuses.push(ObjectStatusData { object_id: me, position: pos, stats });
            assert(statuses_view(statuses@) =~= hp_shown(s, me.0, pos, hp, max_hp));
        },
    }
}

} // verus!
