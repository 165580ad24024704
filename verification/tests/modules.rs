use rotmguard::config::Debuffs;
use rotmguard::extra_datatypes::conditions::{
    PlayerConditions, PlayerConditions2, ARMORED, ARMOR_BROKEN, BLIND, CURSED, DARKNESS, DRUNK, EXPOSED, SLOW,
};
use rotmguard::extra_datatypes::object_status_data::{ObjectStatusData, WorldPosBits};
use rotmguard::extra_datatypes::statdata::{Stat, StatData, StatType};
use rotmguard::extra_datatypes::ObjectId;
use rotmguard::module::antidebuffs::{clear_debuffs, remove_debuffs, AntidebuffsInst};
use rotmguard::module::autonexus::aoes::AOEs;
use rotmguard::module::autonexus::{area_damage, autonexus_command, projectile_damage, AutonexusCommand};
use rotmguard::module::commands::Commands;
use rotmguard::module::con::{con_answer, con_command, find_server, ConAction, ConAnswer};
use rotmguard::module::cult_staff::CultStaffInst;
use rotmguard::module::fake_slow::{is_slow_command, FakeSlow};
use rotmguard::module::general::{command, dev_mode_answer, hi_answer, hi_color, toggle_dev_mode, GeneralCommand};
use rotmguard::module::NoticeColor;
use rotmguard::server_list::ServerTable;
use rotmguard::module::stats::{PlayerStats, Stats, TickStats};
use rotmguard::module::Module;

fn tick(def: i64, conditions: u64, conditions2: u64) -> TickStats {
    TickStats {
        stats: PlayerStats { hp: 500, max_hp: 700, def, vit: 40, spd: 50 },
        conditions: PlayerConditions { bitmask: conditions },
        conditions2: PlayerConditions2 { bitmask: conditions2 },
    }
}

fn int_stat(t: StatType, v: i64) -> StatData {
    StatData { stat_type: t, stat: Stat::Int(v), secondary_stat: -1 }
}

fn no_debuffs() -> Debuffs {
    Debuffs { blind: false, hallucinating: false, drunk: false, confused: false, hexed: false, unstable: false, darkness: false }
}

#[test]
fn defense_reduces_damage() {
    assert_eq!(projectile_damage(100, false, &tick(30, 0, 0)), 70);
    assert_eq!(projectile_damage(100, true, &tick(30, 0, 0)), 100);
    assert_eq!(projectile_damage(100, false, &tick(30, ARMOR_BROKEN, 0)), 100);
    assert_eq!(projectile_damage(100, false, &tick(30, ARMORED, 0)), 55);
}

#[test]
fn hits_deal_at_least_a_tenth() {
    assert_eq!(projectile_damage(20, false, &tick(30, 0, 0)), 2);
    assert_eq!(projectile_damage(9, false, &tick(100, 0, 0)), 0);
    assert_eq!(area_damage(150, false, &tick(1000, 0, 0)), 15);
}

#[test]
fn exposure_and_curse_add_damage() {
    assert_eq!(projectile_damage(100, false, &tick(30, 0, EXPOSED)), 90);
    assert_eq!(projectile_damage(100, false, &tick(29, 0, CURSED)), 88);
    assert_eq!(area_damage(100, false, &tick(29, 0, CURSED)), 88);
    assert_eq!(area_damage(100, false, &tick(30, 0, CURSED | EXPOSED)), 112);
    assert_eq!(projectile_damage(100, false, &tick(30, 0, CURSED | EXPOSED)), 112);
}

#[test]
fn autonexus_command_forms() {
    assert_eq!(autonexus_command("hello"), AutonexusCommand::NotCommand);
    assert_eq!(autonexus_command("/autonexus"), AutonexusCommand::ShowThreshold);
    assert_eq!(autonexus_command("/autonexus 250"), AutonexusCommand::SetThreshold(250));
    assert_eq!(autonexus_command("/autonexus -5"), AutonexusCommand::SetThreshold(-5));
    assert_eq!(autonexus_command("/autonexus lots"), AutonexusCommand::InvalidHp);
}

#[test]
fn con_reconnects_to_known_servers() {
    match con_command("/con eue") {
        ConAction::Reconnect(ip) => assert_eq!(ip, "18.184.218.174"),
        other => panic!("{other:?}"),
    }
    match con_command("/con USW") {
        ConAction::Reconnect(ip) => assert_eq!(ip, "54.86.47.176"),
        other => panic!("{other:?}"),
    }
    match con_command("/con usw4") {
        ConAction::Reconnect(ip) => assert_eq!(ip, "54.235.235.140"),
        other => panic!("{other:?}"),
    }
    assert_eq!(find_server("aus"), Some("54.79.72.84"));
    assert_eq!(find_server("mars"), None);
}

#[test]
fn con_errors() {
    assert!(matches!(con_command("/con"), ConAction::MissingServer));
    match con_command("/con Mars") {
        ConAction::InvalidServer(s) => assert_eq!(s, "Mars"),
        other => panic!("{other:?}"),
    }
    assert!(matches!(con_command("hi there"), ConAction::NotCommand));
}

#[test]
fn general_commands() {
    assert_eq!(command("/hi"), GeneralCommand::Hi);
    assert_eq!(command("/rotmguard please"), GeneralCommand::Hi);
    assert_eq!(command("/devmode"), GeneralCommand::DevMode);
    assert_eq!(command("/tell x"), GeneralCommand::Other);
    assert!(Commands::is_greeting("/hi"));
    assert!(!Commands::is_greeting("hi"));
}

#[test]
fn greeting_colour_is_one_of_five() {
    for _ in 0..20 {
        let c = hi_color();
        assert!([0xff8080, 0x80ffac, 0x80c6ff, 0xc480ff].contains(&c));
    }
}

#[test]
fn dev_mode_toggles() {
    let mut on = false;
    assert_eq!(toggle_dev_mode(&mut on), "DEVELOPER MODE ON");
    assert!(on);
    assert_eq!(toggle_dev_mode(&mut on), "DEVELOPER MODE OFF");
    assert!(!on);
}

#[test]
fn stats_follow_acknowledged_ticks() {
    let mut inst = Stats::new().instance();
    assert_eq!(inst.get().stats.max_hp, 10000);
    let stats = vec![int_stat(StatType::HP, 321), int_stat(StatType::Defense, 25), int_stat(StatType::Condition, 8)];
    inst.new_tick(Some(&stats));
    assert_eq!(inst.get().stats.hp, 0);
    assert_eq!(inst.get_newest().stats.hp, 321);
    assert_eq!(inst.get_newest().stats.def, 25);
    assert_eq!(inst.get_newest().conditions.bitmask, 8);
    inst.new_tick(None);
    assert!(inst.acknowledge_tick(Some(WorldPosBits { x: 1, y: 2 })).is_ok());
    assert_eq!(inst.get().stats.hp, 321);
    assert_eq!(inst.pos, WorldPosBits { x: 1, y: 2 });
    assert!(inst.acknowledge_tick(None).is_ok());
    assert!(inst.acknowledge_tick(None).is_err());
    // the only tick stays
    assert_eq!(inst.ticks.len(), 1);
    assert_eq!(inst.get().stats.hp, 321);
    assert!(inst.acknowledge_tick(Some(WorldPosBits { x: 5, y: 6 })).is_err());
    assert_eq!(inst.ticks.len(), 1);
    assert_eq!(inst.pos, WorldPosBits { x: 5, y: 6 });
}

#[test]
fn initial_stats_go_to_the_current_tick() {
    let mut inst = Stats::new().instance();
    inst.initial_stats(&vec![int_stat(StatType::MaxHP, 900), StatData {
        stat_type: StatType::Speed,
        stat: Stat::String("75".to_string()),
        secondary_stat: 0,
    }]);
    assert_eq!(inst.get().stats.max_hp, 900);
    assert_eq!(inst.get().stats.spd, 75);
}

#[test]
fn debuffs_are_cleared_as_configured() {
    let mut d = no_debuffs();
    d.blind = true;
    d.darkness = true;
    let mut c = PlayerConditions { bitmask: BLIND | DRUNK | DARKNESS | SLOW };
    remove_debuffs(&d, &mut c);
    assert_eq!(c.bitmask, DRUNK | SLOW);
    let mut c = PlayerConditions { bitmask: BLIND };
    remove_debuffs(&no_debuffs(), &mut c);
    assert_eq!(c.bitmask, BLIND);
}

#[test]
fn only_own_condition_stat_is_cleared() {
    let mut d = no_debuffs();
    d.drunk = true;
    let mut stats = vec![int_stat(StatType::HP, 10), int_stat(StatType::Condition, (DRUNK | SLOW) as i64)];
    clear_debuffs(&d, &mut stats);
    assert!(matches!(stats[1].stat, Stat::Int(v) if v == SLOW as i64));
    assert!(matches!(stats[0].stat, Stat::Int(10)));

    let inst = AntidebuffsInst {};
    let me = ObjectId(5);
    let mut statuses = vec![
        ObjectStatusData { object_id: ObjectId(4), position: WorldPosBits { x: 0, y: 0 }, stats: vec![int_stat(StatType::Condition, DRUNK as i64)] },
        ObjectStatusData { object_id: me, position: WorldPosBits { x: 0, y: 0 }, stats: vec![int_stat(StatType::Condition, DRUNK as i64)] },
    ];
    inst.new_tick(&d, &mut statuses, me);
    assert!(matches!(statuses[0].stats[0].stat, Stat::Int(v) if v == DRUNK as i64));
    assert!(matches!(statuses[1].stats[0].stat, Stat::Int(0)));
}

#[test]
fn fake_slow_shows_the_slow_bit() {
    assert!(is_slow_command("/slow"));
    let mut inst = FakeSlow::new().instance();
    assert_eq!(inst.toggle(), "Slow enabled.");
    let me = ObjectId(1);
    let mut statuses = vec![ObjectStatusData {
        object_id: me,
        position: WorldPosBits { x: 0, y: 0 },
        stats: vec![int_stat(StatType::HP, 3)],
    }];
    inst.new_tick(&mut statuses, PlayerConditions { bitmask: 0 }, me, WorldPosBits { x: 0, y: 0 });
    assert!(inst.synced);
    assert_eq!(statuses[0].stats.len(), 2);
    assert!(matches!(statuses[0].stats[1].stat, Stat::Int(v) if v == SLOW as i64));
    let mut statuses = vec![];
    inst.new_tick(&mut statuses, PlayerConditions { bitmask: 0 }, me, WorldPosBits { x: 0, y: 0 });
    assert!(statuses.is_empty());
    assert_eq!(inst.toggle(), "Slow disabled.");
}

#[test]
fn aoes_are_taken_per_tick() {
    let mut a: AOEs<u32> = AOEs::new();
    a.add_aoe(1);
    a.flush();
    a.add_aoe(2);
    a.add_aoe(3);
    assert_eq!(a.take_acknowledged(), Some(vec![1]));
    assert_eq!(a.take_acknowledged(), Some(vec![2, 3]));
    assert_eq!(a.take_acknowledged(), None);
}

#[test]
fn cult_staff_volley_comes_last_first() {
    let mut c: CultStaffInst<u8> = CultStaffInst::new();
    assert_eq!(c.shoot(1), None);
    assert_eq!(c.shoot(2), None);
    assert_eq!(c.shoot(3), None);
    assert_eq!(c.shoot(4), Some(vec![4, 3, 2, 1]));
    assert_eq!(c.shoot(5), None);
}

#[test]
fn condition_flags_set_and_get() {
    let mut c = PlayerConditions { bitmask: BLIND | DRUNK };
    assert!(c.blind());
    assert!(!c.slow());
    c.set_slow(true);
    assert!(c.slow());
    assert!(c.blind() && c.drunk());
    c.set_blind(false);
    assert!(!c.blind());
    assert_eq!(c.bitmask, DRUNK | SLOW);
    let mut c2 = PlayerConditions2 { bitmask: 0 };
    c2.set_cursed(true);
    assert!(c2.cursed() && !c2.exposed());
}

#[test]
fn aoe_queue_keeps_one_list_per_unacknowledged_tick() {
    let mut a: AOEs<u32> = AOEs::new();
    assert_eq!(a.aoes.len(), 1);
    a.flush();
    a.flush();
    assert_eq!(a.aoes.len(), 3);
    a.add_aoe(7);
    assert_eq!(a.aoes.len(), 3);
    assert_eq!(a.take_acknowledged(), Some(vec![]));
    assert_eq!(a.take_acknowledged(), Some(vec![]));
    assert_eq!(a.aoes.len(), 1);
    a.add_aoe(8);
    assert_eq!(a.take_acknowledged(), Some(vec![7, 8]));
    assert!(a.aoes.is_empty());
}

#[test]
fn con_answers() {
    assert!(matches!(con_answer("hello"), ConAnswer::Forward));
    match con_answer("/con") {
        ConAnswer::Notify(n) => {
            assert_eq!(n.text, "Specify a server. Example: eue");
            assert_eq!(n.color, NoticeColor::Blue);
        },
        _ => panic!("expected a notification"),
    }
    match con_answer("/con EUE") {
        ConAnswer::Reconnect(r) => {
            assert_eq!(r.hostname, "have fun :)");
            assert_eq!(r.address, "18.184.218.174");
            assert_eq!(r.port, 2050);
            assert_eq!(r.game_id, 0xfffffffe);
            assert_eq!(r.key_time, 0xffffffff);
            assert!(r.key.is_empty());
        },
        _ => panic!("expected a reconnect"),
    }
    match con_answer("/con mars") {
        ConAnswer::Notify(n) => {
            assert_eq!(n.text, "Server \"mars\" is invalid.");
            assert_eq!(n.color, NoticeColor::Red);
        },
        _ => panic!("expected a notification"),
    }
}

#[test]
fn greeting_and_dev_mode_answers() {
    let a = hi_answer(ObjectId(42), 0x80ffac);
    assert_eq!(a.notice.text, "hi :)");
    assert_eq!(a.notice.color, NoticeColor::Rgb(0x80ffac));
    assert_eq!(a.effects.len(), 2);
    assert_eq!(a.effects[0].effect_type, 1);
    assert_eq!(a.effects[0].target_object_id, ObjectId(42));
    assert_eq!(f32::from_bits(a.effects[0].pos2.x), 1.0);
    assert_eq!(f32::from_bits(a.effects[0].duration_bits), 5.0);
    assert_eq!(a.effects[1].effect_type, 37);
    assert_eq!(a.effects[1].pos2, WorldPosBits { x: 0, y: 0 });
    assert_eq!(f32::from_bits(a.effects[1].duration_bits), 0.5);
    assert_eq!(a.effects[1].color, 0x80ffac);

    let mut dev = false;
    let n = dev_mode_answer(&mut dev);
    assert!(dev);
    assert_eq!(n.text, "DEVELOPER MODE ON");
    assert_eq!(n.color, NoticeColor::Green);
    assert_eq!(dev_mode_answer(&mut dev).text, "DEVELOPER MODE OFF");
}

#[test]
fn server_table_keeps_the_last_address() {
    let list = vec![
        ("eue".to_string(), "1.1.1.1".to_string()),
        ("aus".to_string(), "2.2.2.2".to_string()),
        ("eue".to_string(), "3.3.3.3".to_string()),
    ];
    let (table, collided) = ServerTable::from_list(list);
    assert_eq!(table.get("eue").map(|s| s.as_str()), Some("3.3.3.3"));
    assert_eq!(table.get("aus").map(|s| s.as_str()), Some("2.2.2.2"));
    assert_eq!(table.get("usw"), None);
    assert_eq!(collided, vec!["eue".to_string()]);
}
