use std::collections::{BTreeMap, HashMap, HashSet};

use rotmguard::assets::ProjectileInfo;
use rotmguard::damage_monitor::{Report, DamageMonitorHttp};
use rotmguard::text::contains_str;
use rotmguard::extra_datatypes::conditions::{
    PlayerConditions, PlayerConditions2, BLEEDING, HEALING, INVINCIBLE, INVULNERABLE, IN_COMBAT, SICK,
};
use rotmguard::extra_datatypes::statdata::{Stat, StatData, StatType};
use rotmguard::module::autonexus::passive::{passive_effect, show_client_hp, PassiveEffect};
use rotmguard::extra_datatypes::object_status_data::{ObjectStatusData, WorldPosBits};
use rotmguard::extra_datatypes::{ObjectId, ProjectileId};
use rotmguard::flushskip_stats::FlushSkips;
use rotmguard::module::anti_push::{is_antipush_command, AntiPush, ANTI_PUSH_TILE};
use rotmguard::module::autonexus::ground::Ground;
use rotmguard::module::autonexus::heals::Heals;
use rotmguard::module::autonexus::projectiles::{Hit, Projectiles};
use rotmguard::module::autonexus::Autonexus;
use rotmguard::module::general::General;
use rotmguard::module::stats::{PlayerStats, Stats, TickStats};
use rotmguard::module::{Module, PacketFlow};
use rotmguard::packet_logger::{record, Direction};
use rotmguard::packets::{CreateSuccess, TileData};

fn tick(def: i64, conditions: u64) -> TickStats {
    TickStats {
        stats: PlayerStats { hp: 500, max_hp: 700, def, vit: 40, spd: 50 },
        conditions: PlayerConditions { bitmask: conditions },
        conditions2: PlayerConditions2 { bitmask: 0 },
    }
}

fn info(armor_piercing: bool) -> ProjectileInfo {
    ProjectileInfo {
        armor_piercing,
        inflicts_cursed: false,
        inflicts_exposed: false,
        inflicts_sick: false,
        inflicts_bleeding: false,
        inflicts_armor_broken: false,
    }
}

fn status(id: u32) -> ObjectStatusData {
    ObjectStatusData { object_id: ObjectId(id), position: WorldPosBits { x: 0, y: 0 }, stats: vec![] }
}

fn tables() -> BTreeMap<u32, BTreeMap<u32, ProjectileInfo>> {
    let mut per_object = BTreeMap::new();
    per_object.insert(0u32, info(false));
    per_object.insert(1u32, info(true));
    let mut t = BTreeMap::new();
    t.insert(0x0d00u32, per_object);
    t
}

#[test]
fn ground_remembers_hazardous_tiles() {
    let mut hazardous = HashMap::new();
    hazardous.insert(0x70u32, 45i64);
    let mut g = Ground::new();
    g.add_tiles(&vec![
        TileData { x: 3, y: -4, tile_type: 0x70 },
        TileData { x: 5, y: 5, tile_type: 0x71 },
    ], &hazardous);
    assert_eq!(g.ground_damage(3, -4), Some(45));
    assert_eq!(g.ground_damage(5, 5), None);
    assert_eq!(g.ground_damage(-4, 3), None);
}

#[test]
fn heal_notifications() {
    let _ = Heals::new();
    assert_eq!(Heals::heal_amount("s.plus_symbol", "120"), Some(120));
    assert_eq!(Heals::heal_amount("s.minus_symbol", "120"), None);
    assert_eq!(Heals::heal_amount("s.plus_symbol", "many"), None);
}

#[test]
fn projectiles_of_visible_enemies_are_remembered() {
    let mut p = Projectiles::new();
    p.add_remove_objects(&vec![], &vec![(0x0d00, status(7))]);
    let t = tables();
    assert_eq!(p.add_bullet(ObjectId(7), 100, 0, 2, 80, &t), PacketFlow::Forward);
    assert!(matches!(p.player_hit(ProjectileId { id: 101, owner_id: ObjectId(7) }, &tick(30, 0)), Hit::Damage(50)));
    // each projectile hits once
    assert!(matches!(p.player_hit(ProjectileId { id: 101, owner_id: ObjectId(7) }, &tick(30, 0)), Hit::UnknownBullet));
    assert!(matches!(p.player_hit(ProjectileId { id: 100, owner_id: ObjectId(7) }, &tick(30, INVULNERABLE)), Hit::Invulnerable));
    // two shots are two projectiles
    assert!(matches!(p.player_hit(ProjectileId { id: 102, owner_id: ObjectId(7) }, &tick(30, 0)), Hit::UnknownBullet));
    // no shots, nothing remembered
    assert_eq!(p.add_bullet(ObjectId(7), 200, 0, 0, 80, &t), PacketFlow::Forward);
    assert!(matches!(p.player_hit(ProjectileId { id: 200, owner_id: ObjectId(7) }, &tick(30, 0)), Hit::UnknownBullet));
}

#[test]
fn armor_piercing_projectiles_ignore_defense() {
    let mut p = Projectiles::new();
    p.add_remove_objects(&vec![], &vec![(0x0d00, status(9))]);
    assert_eq!(p.add_bullet(ObjectId(9), 0, 1, 1, 80, &tables()), PacketFlow::Forward);
    assert!(matches!(p.player_hit(ProjectileId { id: 0, owner_id: ObjectId(9) }, &tick(30, 0)), Hit::Damage(80)));
}

#[test]
fn unknown_projectile_types_block() {
    let mut p = Projectiles::new();
    // an invisible shooter is let through, and nothing is remembered
    assert_eq!(p.add_bullet(ObjectId(7), 0, 0, 0, 80, &tables()), PacketFlow::Forward);
    assert!(matches!(p.player_hit(ProjectileId { id: 0, owner_id: ObjectId(7) }, &tick(0, 0)), Hit::UnknownBullet));
    p.add_remove_objects(&vec![], &vec![(0x0d00, status(7)), (0x0e00, status(8))]);
    assert_eq!(p.add_bullet(ObjectId(7), 0, 5, 0, 80, &tables()), PacketFlow::Block);
    assert_eq!(p.add_bullet(ObjectId(8), 0, 0, 0, 80, &tables()), PacketFlow::Block);
    // an unknown projectile computes no ids, however many shots
    assert_eq!(p.add_bullet(ObjectId(7), u16::MAX, 5, 200, 80, &tables()), PacketFlow::Block);
    p.add_remove_objects(&vec![ObjectId(7)], &vec![]);
    assert_eq!(p.add_bullet(ObjectId(7), 0, 5, 0, 80, &tables()), PacketFlow::Forward);
}

#[test]
fn hits_are_counted_unless_invincible() {
    let mut a = Autonexus::new().instance();
    assert!(a.register_hit(&tick(0, 0), 5));
    assert_eq!(a.tick_last_hit, 5);
    assert!(!a.register_hit(&tick(0, INVINCIBLE), 9));
    assert_eq!(a.tick_last_hit, 5);
    assert!(!a.quiet(14));
    assert!(a.quiet(15));
}

#[test]
fn client_ticks_are_counted() {
    let mut g = General::new().instance();
    assert!(g.acknowledge_tick(0));
    assert!(!g.acknowledge_tick(7));
    assert!(g.acknowledge_tick(2));
    g.create_success(&CreateSuccess { object_id: ObjectId(42), char_id: 1, unknown: String::new() });
    assert_eq!(g.my_object_id, ObjectId(42));
    g.client_tick_id = u32::MAX;
    assert!(g.acknowledge_tick(u32::MAX));
    assert_eq!(g.client_tick_id, 0);
}

#[test]
fn antipush_replaces_pushing_tiles() {
    assert!(is_antipush_command("/ap"));
    assert!(is_antipush_command("/antipush"));
    let mut pushing = HashSet::new();
    pushing.insert(0x1234u32);
    let mut a = AntiPush::new().instance();
    let mut tiles = vec![TileData { x: 1, y: 2, tile_type: 0x1234 }, TileData { x: 3, y: 4, tile_type: 7 }];
    a.update(&mut tiles, &pushing);
    assert_eq!(tiles[0].tile_type, 0x1234);
    assert_eq!(a.toggle(), "Antipush enabled.");
    let mut tiles = vec![TileData { x: 5, y: 6, tile_type: 0x1234 }];
    a.update(&mut tiles, &pushing);
    // the remembered tile is resent first, then both are replaced
    assert_eq!(tiles, vec![
        TileData { x: 5, y: 6, tile_type: ANTI_PUSH_TILE },
        TileData { x: 1, y: 2, tile_type: ANTI_PUSH_TILE },
    ]);
    assert_eq!(a.toggle(), "Antipush disabled.");
    let mut tiles = vec![];
    a.update(&mut tiles, &pushing);
    assert_eq!(tiles, vec![
        TileData { x: 1, y: 2, tile_type: 0x1234 },
        TileData { x: 5, y: 6, tile_type: 0x1234 },
    ]);
}

#[test]
fn flush_statistics() {
    let mut f = FlushSkips::new();
    f.add_packet(Direction::C2S, 10, false);
    f.add_packet(Direction::C2S, 250, true);
    f.add_packet(Direction::S2C, 7, true);
    assert_eq!(f.c2s.total_packets, 2);
    assert_eq!(f.c2s.flushes, 1);
    assert_eq!(f.c2s.total_time, 250);
    assert_eq!(f.s2c.total_packets, 1);
    assert_eq!(f.s2c.total_time, 7);
}

#[test]
fn log_records() {
    let r = record(Direction::S2C, 0x0102, &[9, 8, 7]);
    assert_eq!(r.len(), 24);
    assert_eq!(r[0], b's');
    assert_eq!(&r[1..4], &[2, 1, 0]);
    assert_eq!(&r[17..21], &[3, 0, 0, 0]);
    assert_eq!(&r[21..], &[9, 8, 7]);
    assert_eq!(record(Direction::C2S, 0, &[])[0], b'c');
}

fn stat(t: StatType, v: i64) -> StatData {
    StatData { stat_type: t, stat: Stat::Int(v), secondary_stat: -1 }
}

#[test]
fn passive_hp_changes() {
    let mut inst = Stats::new().instance();
    inst.new_tick(Some(&vec![stat(StatType::Vitality, 40)]));
    assert_eq!(passive_effect(&inst), PassiveEffect::Regeneration { vit: 40, in_combat: false });
    inst.new_tick(Some(&vec![stat(StatType::Condition, (IN_COMBAT | HEALING) as i64)]));
    assert_eq!(passive_effect(&inst), PassiveEffect::Healing);
    inst.new_tick(Some(&vec![stat(StatType::Condition, (IN_COMBAT | BLEEDING) as i64)]));
    assert_eq!(passive_effect(&inst), PassiveEffect::Bleeding);
    inst.new_tick(Some(&vec![stat(StatType::Condition, SICK as i64)]));
    assert_eq!(passive_effect(&inst), PassiveEffect::Unchanged);
    inst.new_tick(Some(&vec![stat(StatType::Condition, IN_COMBAT as i64), stat(StatType::HP, 10000)]));
    assert_eq!(passive_effect(&inst), PassiveEffect::Regeneration { vit: 40, in_combat: true });
    // the server's HP was full in the previous tick
    inst.new_tick(None);
    assert_eq!(passive_effect(&inst), PassiveEffect::Unchanged);
}

#[test]
fn fame_bar_shows_client_hp() {
    let me = ObjectId(3);
    let mut statuses = vec![ObjectStatusData {
        object_id: me,
        position: WorldPosBits { x: 0, y: 0 },
        stats: vec![stat(StatType::CurrentFame, 999), stat(StatType::HP, 50), stat(StatType::ClassQuestFame, 5)],
    }];
    show_client_hp(&mut statuses, me, WorldPosBits { x: 0, y: 0 }, 48, 700);
    let kinds: Vec<StatType> = statuses[0].stats.iter().map(|s| s.stat_type).collect();
    assert_eq!(kinds, vec![StatType::HP, StatType::CurrentFame, StatType::ClassQuestFame]);
    assert!(matches!(statuses[0].stats[1].stat, Stat::Int(48)));
    assert!(matches!(statuses[0].stats[2].stat, Stat::Int(700)));

    let mut statuses = vec![];
    show_client_hp(&mut statuses, me, WorldPosBits { x: 7, y: 8 }, 1, 2);
    assert_eq!(statuses.len(), 1);
    assert_eq!(statuses[0].object_id, me);
    assert_eq!(statuses[0].position, WorldPosBits { x: 7, y: 8 });
    assert_eq!(statuses[0].stats.len(), 2);
}

fn report(name: &str) -> Report {
    Report { map_name: name.to_string(), time: String::new(), enemy_tabs: vec![], all_items: BTreeMap::new(), all_enemies: BTreeMap::new() }
}

#[test]
fn damage_reports_are_kept_and_found() {
    let mut store = DamageMonitorHttp::new(2);
    store.add_final_report(report("Oryx Sanctuary"));
    store.add_final_report(report("The Shatters"));
    store.add_final_report(report("Lost Halls"));
    assert_eq!(store.memory_counter, 3);
    assert_eq!(store.find_memory_by_name("SHATT"), Some(1));
    assert_eq!(store.find_memory_by_name("oryx"), None);
    assert_eq!(store.find_memory_by_name(""), Some(2));
    assert_eq!(store.find_memory_by_offset(1), Some(2));
    assert_eq!(store.find_memory_by_offset(2), Some(1));
    assert_eq!(store.find_memory_by_offset(3), None);
    assert_eq!(store.find_memory_by_offset(4), None);
    assert_eq!(store.add_live_report(report("Nexus")), 0);
    assert_eq!(store.add_live_report(report("Nexus")), 1);

    let mut current_only = DamageMonitorHttp::new(0);
    current_only.add_final_report(report("Oryx Sanctuary"));
    assert_eq!(current_only.find_memory_by_name(""), None);
    assert_eq!(current_only.find_memory_by_offset(1), None);
}

#[test]
fn substrings() {
    assert!(contains_str("lost halls", "halls"));
    assert!(contains_str("abc", ""));
    assert!(!contains_str("ab", "abc"));
    assert!(!contains_str("lost halls", "hallz"));
}
