use std::collections::{BTreeMap, BTreeSet, HashMap};

use rotmguard::assets::extract::{
    extract_assets, is_non_xml, overwrite_in, parse_hex_type, process_xml_grounds, process_xml_objects, ExtractError, ExtractedAssets,
};
use rotmguard::assets::object_reader::{self, cult_staff, handle_assets, ReaderError, LoadError};
use rotmguard::assets::process::enchantments::{self, EnchantmentEffect};
use rotmguard::assets::process::objects;
use rotmguard::assets::process::tiles;
use rotmguard::assets::process::{overwrite_region, parse_id, process_xml, ProcessError};
use rotmguard::assets::raw_parse::{align_stream, read_header, read_nul_terminated_string, AssetError};
use rotmguard::assets::reverse_changes::{finish_action, written_hash, FinishAction};
use rotmguard::assets::sprites::{
    extract_subimage, process_sprite, process_spritesheet, try_get_obj_sprite, AnimatedRecord, SheetsByName, SheetRecord, SpriteError, SpriteRecord, Sprites,
};
use rotmguard::assets::xml::{XmlElement, XmlNode};
use rotmguard::assets::{Damage, RawAssets, Texture2D, XmlAsset};
use rotmguard::config::{DamageMonitorConfig, Debuffs, EditAssets, Settings};
use rotmguard::text::is_float_text;
use rotmguard::extra_datatypes::conditions::{BLEEDING, CURSED};
use rotmguard::server_list::{parse_server_list, server_list, short_name, ServerListError};

fn settings(force_debuffs: bool) -> Settings {
    Settings {
        autonexus_hp: 300,
        antilag: false,
        dev_mode: false,
        debuffs: Debuffs { blind: true, hallucinating: false, drunk: true, confused: false, hexed: false, unstable: false, darkness: false },
        edit_assets: EditAssets { enabled: true, force_debuffs },
        damage_monitor: DamageMonitorConfig { enabled: false, keep_memory: 0, open_browser: false },
    }
}

fn xml(s: &str) -> XmlElement {
    parse_xml(s.as_bytes()).expect("valid xml")
}

fn convert(e: xmltree::Element) -> XmlElement {
    XmlElement {
        prefix: e.prefix,
        namespace: e.namespace,
        namespaces: e.namespaces.map(|ns| ns.0.into_iter().collect()),
        name: e.name,
        attributes: e.attributes.into_iter().collect(),
        children: e.children.into_iter().map(convert_node).collect(),
    }
}

fn convert_node(n: xmltree::XMLNode) -> XmlNode {
    match n {
        xmltree::XMLNode::Element(e) => XmlNode::Element(convert(e)),
        xmltree::XMLNode::Comment(c) => XmlNode::Comment(c),
        xmltree::XMLNode::CData(c) => XmlNode::CData(c),
        xmltree::XMLNode::Text(t) => XmlNode::Text(t),
        xmltree::XMLNode::ProcessingInstruction(a, b) => XmlNode::ProcessingInstruction(a, b),
    }
}

/// Reads a document with `xmltree` directly.
fn parse_xml(data: &[u8]) -> Option<XmlElement> {
    xmltree::Element::parse(data).ok().map(convert)
}

const OBJECTS: &str = r#"<Objects>
<Object type="0x0d00" id="Shooter">
  <DisplayId>Big Shooter</DisplayId>
  <Texture><File>chars8x8</File><Index>0x1a</Index></Texture>
  <Projectile id="5"><Damage>40</Damage><ArmorPiercing/><ConditionEffect duration="2">Curse</ConditionEffect></Projectile>
  <Projectile><MinDamage>10</MinDamage><MaxDamage>20</MaxDamage><ConditionEffect effect="3">Blind</ConditionEffect><ConditionEffect duration="1">Bleeding</ConditionEffect></Projectile>
</Object>
<Object type="12" id="Plain"/>
</Objects>"#;

#[test]
fn ids_are_hex_or_decimal() {
    assert_eq!(parse_id("0x1a"), Ok(26));
    assert_eq!(parse_id("26"), Ok(26));
    assert_eq!(parse_id("+26"), Ok(26));
    assert_eq!(parse_id("0x"), Err(ProcessError::InvalidId));
    assert_eq!(parse_id("-1"), Err(ProcessError::InvalidId));
    assert_eq!(parse_id("4294967296"), Err(ProcessError::InvalidId));
    assert_eq!(parse_hex_type("0xff"), Ok(255));
    assert_eq!(parse_hex_type("255"), Err(ExtractError::InvalidType));
}

#[test]
fn edited_documents_are_padded() {
    let r = overwrite_region(100, 5, Some(b"ab".to_vec())).unwrap();
    assert_eq!(r.position, 100);
    assert_eq!(r.data, b"ab   ".to_vec());
    assert!(matches!(overwrite_region(0, 1, Some(b"ab".to_vec())), Err(ProcessError::TooLong)));
    assert!(matches!(overwrite_region(0, 1, None), Err(ProcessError::WriteFailed)));

    let mut file = b"0123456789".to_vec();
    assert_eq!(overwrite_in(&mut file, 2, 4, Some(b"ab".to_vec())), Ok(()));
    assert_eq!(file, b"01ab  6789".to_vec());
    assert_eq!(overwrite_in(&mut file, 2, 1, Some(b"ab".to_vec())), Err(ExtractError::TooLong));
    assert_eq!(file, b"01ab  6789".to_vec());
}

#[test]
fn grounds_are_read() {
    let doc = xml(r#"<GroundTypes><Ground type="0x70" id="Lava"><MaxDamage>45</MaxDamage><Damage>1</Damage></Ground><Ground type="12" id="Belt"><Push/><Damage>3</Damage></Ground><Other/></GroundTypes>"#);
    let mut t = HashMap::new();
    assert_eq!(tiles::parse(&mut t, &doc), Ok(false));
    assert_eq!(t.len(), 2);
    assert_eq!(t[&0x70].name, "Lava");
    assert_eq!(t[&0x70].damage, Some(45));
    assert!(!t[&0x70].is_conveyor);
    assert_eq!(t[&12].damage, Some(3));
    assert!(t[&12].is_conveyor);

    let bad = xml(r#"<GroundTypes><Ground id="x"/></GroundTypes>"#);
    assert_eq!(tiles::parse(&mut t, &bad), Err(ProcessError::MissingType));
    let bad = xml(r#"<GroundTypes><Ground type="1" id="x"><Damage>99999</Damage></Ground></GroundTypes>"#);
    assert_eq!(tiles::parse(&mut t, &bad), Err(ProcessError::InvalidGroundDamage));
}

#[test]
fn enchantments_are_read() {
    let doc = xml(r#"<Enchantments><Enchantment type="0x10"><DisplayId>Regen</DisplayId><Mutators><Mutator stat="HP" amount="2.5">FlatRegen</Mutator><Mutator stat="MP" amount="1">PercentageRegen</Mutator><Mutator stat="HP" amount="4">PercentageRegen</Mutator><Mutator>Other</Mutator></Mutators></Enchantment></Enchantments>"#);
    let mut e = HashMap::new();
    assert_eq!(enchantments::parse(&mut e, &doc), Ok(false));
    let ench = &e[&0x10];
    assert_eq!(ench.name, "Regen");
    assert_eq!(ench.effects.len(), 4);
    assert!(matches!(&ench.effects[0], EnchantmentEffect::FlatLifeRegen(a) if a == "2.5"));
    assert!(matches!(&ench.effects[1], EnchantmentEffect::Other));
    assert!(matches!(&ench.effects[2], EnchantmentEffect::PercentageLifeRegen(a) if a == "4"));
    assert!(matches!(&ench.effects[3], EnchantmentEffect::Other));

    let bad = xml(r#"<Enchantments><Enchantment type="1"><DisplayId>x</DisplayId></Enchantment></Enchantments>"#);
    assert_eq!(enchantments::parse(&mut e, &bad), Err(ProcessError::MissingMutators));
    let bad = xml(r#"<Enchantments><Enchantment type="1"><DisplayId>x</DisplayId><Mutators><Mutator amount="1">FlatRegen</Mutator></Mutators></Enchantment></Enchantments>"#);
    assert_eq!(enchantments::parse(&mut e, &bad), Err(ProcessError::MissingStat));
}

#[test]
fn objects_are_read() {
    let mut doc = xml(OBJECTS);
    let mut o = HashMap::new();
    assert_eq!(objects::parse(&settings(false), &mut o, &mut doc), Ok(false));
    let shooter = &o[&0x0d00];
    assert_eq!(shooter.name, "Big Shooter");
    let sprite = shooter.sprite.as_ref().unwrap();
    assert!(!sprite.is_animated);
    assert_eq!(sprite.spritesheet, "chars8x8");
    assert_eq!(sprite.index, 26);
    assert_eq!(shooter.projectiles.len(), 2);
    let p1 = &shooter.projectiles[&5];
    assert_eq!(p1.damage, Damage::Exact(40));
    assert!(p1.armor_piercing);
    assert_eq!(p1.inflicts.len(), 1);
    assert_eq!(p1.inflicts[0].condition2, CURSED);
    assert_eq!(p1.inflicts[0].duration, "2");
    // the second projectile has no id: it is the second counted
    let p2 = &shooter.projectiles[&1];
    assert_eq!(p2.damage, Damage::Range(10, 20));
    assert_eq!(p2.inflicts.len(), 2);
    assert_eq!(p2.inflicts[0].condition, BLEEDING);
    assert_eq!(p2.inflicts[1].condition, 0);
    assert_eq!(p2.inflicts[1].duration, "3");
    let p = &o[&12];
    assert_eq!(p.name, "Plain");
    assert!(p.sprite.is_none());
}

#[test]
fn unnamed_projectiles_count_from_zero() {
    let mut doc = xml(r#"<Objects><Object type="1" id="a"><Projectile><Damage>5</Damage></Projectile><Projectile><MinDamage>1</MinDamage><MaxDamage>2</MaxDamage><ConditionEffect duration="1">Bleeding</ConditionEffect></Projectile></Object></Objects>"#);
    let mut o = HashMap::new();
    assert_eq!(objects::parse(&settings(false), &mut o, &mut doc), Ok(false));
    let a = &o[&1];
    assert_eq!(a.projectiles[&0].damage, Damage::Exact(5));
    assert_eq!(a.projectiles[&1].damage, Damage::Range(1, 2));
    assert_eq!(a.projectiles[&1].inflicts[0].condition, BLEEDING);
}

#[test]
fn object_errors() {
    let mut o = HashMap::new();
    let mut doc = xml(r#"<Objects><Object type="1" id="a"><Projectile><Damage>5</Damage><MinDamage>1</MinDamage></Projectile></Object></Objects>"#);
    assert_eq!(objects::parse(&settings(false), &mut o, &mut doc), Err(ProcessError::InvalidDamage));
    let mut doc = xml(r#"<Objects><Object type="1" id="a"><Projectile id="0"><Damage>5</Damage></Projectile><Projectile id="0"><Damage>5</Damage></Projectile></Object></Objects>"#);
    assert_eq!(objects::parse(&settings(false), &mut o, &mut doc), Err(ProcessError::DuplicateProjectile));
    let mut doc = xml(r#"<Objects><Object type="1"/></Objects>"#);
    assert_eq!(objects::parse(&settings(false), &mut o, &mut doc), Err(ProcessError::MissingName));
    let mut doc = xml(r#"<Objects><Object type="1" id="a"><Projectile><Damage>5</Damage></Projectile><Subattack projectileId="3"/></Object></Objects>"#);
    assert_eq!(objects::parse(&settings(false), &mut o, &mut doc), Err(ProcessError::UnknownSubattackProjectile));
}

#[test]
fn subattacks_renumber_projectiles() {
    let mut doc = xml(r#"<Objects><Object type="1" id="a"><Projectile id="4"><Damage>5</Damage></Projectile><Projectile id="7"><Damage>9</Damage></Projectile><Subattack projectileId="7"/><Subattack projectileId="4"/><Subattack projectileId="7"/></Object></Objects>"#);
    let mut o = HashMap::new();
    assert_eq!(objects::parse(&settings(false), &mut o, &mut doc), Ok(false));
    let a = &o[&1];
    assert_eq!(a.projectiles.len(), 3);
    assert_eq!(a.projectiles[&0].damage, Damage::Exact(9));
    assert_eq!(a.projectiles[&1].damage, Damage::Exact(5));
    assert_eq!(a.projectiles[&2].damage, Damage::Exact(9));
}

fn count_condition_effects(e: &XmlElement) -> usize {
    let mut n = 0;
    for c in &e.children {
        if let XmlNode::Element(c) = c {
            if c.name == "ConditionEffect" {
                n += 1;
            }
            n += count_condition_effects(c);
        }
    }
    n
}

#[test]
fn forced_debuffs_are_removed_from_the_document() {
    let mut doc = xml(OBJECTS);
    let mut o = HashMap::new();
    assert_eq!(objects::parse(&settings(true), &mut o, &mut doc), Ok(true));
    assert_eq!(count_condition_effects(&doc), 2);
    // without forcing, nothing is edited
    let mut doc = xml(OBJECTS);
    assert_eq!(objects::parse(&settings(false), &mut o, &mut doc), Ok(false));
    assert_eq!(count_condition_effects(&doc), 3);
}

#[test]
fn processed_documents_are_written_back_in_place() {
    let assets = vec![
        XmlAsset { name: "objects".to_string(), data: OBJECTS.as_bytes().to_vec(), position: 64, slot_size: OBJECTS.len() },
        XmlAsset { name: "text".to_string(), data: b"not xml at all".to_vec(), position: 4096, slot_size: 14 },
    ];
    let p = process_xml(&settings(true), &assets).unwrap();
    assert_eq!(p.objects.len(), 2);
    assert_eq!(p.to_overwrite.len(), 1);
    assert_eq!(p.to_overwrite[0].position, 64);
    assert_eq!(p.to_overwrite[0].data.len(), OBJECTS.len());
    let rewritten = parse_xml(&p.to_overwrite[0].data).unwrap();
    assert_eq!(count_condition_effects(&rewritten), 2);

    let p = process_xml(&settings(false), &assets).unwrap();
    assert!(p.to_overwrite.is_empty());
}

#[test]
fn xml_queries() {
    let doc = xml(r#"<a k="v"><b>one</b><c><![CDATA[two]]>three</c><b>four</b></a>"#);
    assert_eq!(doc.attr("k").map(|s| s.as_str()), Some("v"));
    assert_eq!(doc.attr("z"), None);
    assert_eq!(doc.get_child_text("b"), Some("one".to_string()));
    assert_eq!(doc.get_child_text("c"), Some("twothree".to_string()));
    assert_eq!(doc.child_index("c"), Some(1));
    assert!(doc.get_child("d").is_none());
    assert_eq!(doc.get_child_text("a"), None);
}

#[test]
fn projectile_readers() {
    let mut assets = ExtractedAssets::new();
    let mut doc = xml(r#"<Objects><Object type="0x10"><Projectile id="2"><ArmorPiercing/><ConditionEffect>Curse</ConditionEffect></Projectile><Projectile><ConditionEffect>Blind</ConditionEffect></Projectile></Object></Objects>"#);
    let d = Debuffs { blind: true, hallucinating: false, drunk: false, confused: false, hexed: false, unstable: false, darkness: false };
    assert_eq!(process_xml_objects(false, &d, &mut assets, &mut doc), Ok(()));
    let table = &assets.projectiles[&0x10];
    assert!(table[&2].armor_piercing);
    assert!(table[&2].inflicts_cursed);
    assert!(!table[&2].inflicts_sick);
    assert!(table.contains_key(&1));

    let grounds = xml(r#"<GroundTypes><Ground type="0x5"><MaxDamage>70</MaxDamage></Ground><Ground type="0x6"><Push/></Ground></GroundTypes>"#);
    assert_eq!(process_xml_grounds(&mut assets, &grounds), Ok(()));
    let mut h = BTreeMap::new();
    h.insert(5u32, 70i64);
    assert_eq!(assets.hazardous_grounds, h);
    let mut p = BTreeSet::new();
    p.insert(6u32);
    assert_eq!(assets.pushing_grounds, p);
    assert!(is_non_xml("spritesheetf"));
}

#[test]
fn cult_staff_arc_gap() {
    let mut staff = xml(r#"<Object id="Staff of Unholy Sacrifice"><ArcGap>30</ArcGap></Object>"#);
    assert_eq!(cult_staff(&mut staff), Ok(true));
    assert_eq!(staff.get_child_text("ArcGap"), Some("15".to_string()));
    let mut other = xml(r#"<Object id="Wand"><ArcGap>30</ArcGap></Object>"#);
    assert_eq!(cult_staff(&mut other), Ok(false));
    assert_eq!(other.get_child_text("ArcGap"), Some("30".to_string()));
    let mut bad = xml(r#"<Object id="Staff of Unholy Sacrifice"><ArcGap/></Object>"#);
    assert_eq!(cult_staff(&mut bad), Err(ReaderError::InvalidArcGap));
    // the staff without an arc gap is still the staff
    let mut plain = xml(r#"<Object id="Staff of Unholy Sacrifice"><Damage>3</Damage></Object>"#);
    assert_eq!(cult_staff(&mut plain), Ok(true));
    assert_eq!(plain.get_child_text("Damage"), Some("3".to_string()));
}

fn header(version: u32, metadata_size: u32, file_size: u64, data_offset: u64) -> Vec<u8> {
    let mut d = vec![0u8; 8];
    d.extend_from_slice(&version.to_be_bytes());
    d.extend_from_slice(&[0; 4]);
    d.push(0);
    d.extend_from_slice(&[0; 3]);
    d.extend_from_slice(&metadata_size.to_be_bytes());
    d.extend_from_slice(&file_size.to_be_bytes());
    d.extend_from_slice(&data_offset.to_be_bytes());
    d.extend_from_slice(&[0; 8]);
    d.extend_from_slice(b"2021.3\0");
    d
}

#[test]
fn asset_file_header() {
    let d = header(22, 10, 55, 50);
    assert_eq!(d.len(), 55);
    let (h, pos) = read_header(&d).unwrap();
    assert_eq!(h.version, 22);
    assert!(!h.big_endian);
    assert_eq!(h.data_offset, 50);
    assert_eq!(pos, 55);
    assert!(matches!(read_header(&header(101, 10, 55, 50)), Err(AssetError::InvalidAssetsFile)));
    assert!(matches!(read_header(&header(22, 10, 56, 50)), Err(AssetError::InvalidAssetsFile)));
    assert!(matches!(read_header(&d[..40]), Err(AssetError::UnexpectedEnd)));
    assert!(matches!(read_header(&d[..54]), Err(AssetError::InvalidAssetsFile)));
    assert!(matches!(RawAssets::parse(&d[..10]), Err(AssetError::UnexpectedEnd)));
    let mut data = header(22, 10, 55, 50);
    let r = handle_assets(&settings(false), &mut data);
    assert!(matches!(r, Err(LoadError::Read(_))));
    assert_eq!(data, header(22, 10, 55, 50));
}

#[test]
fn nul_terminated_strings_and_alignment() {
    assert_eq!(read_nul_terminated_string(b"ab\0cd\0", 3), Ok(("cd".to_string(), 6)));
    assert_eq!(read_nul_terminated_string(b"ab", 0), Err(AssetError::UnexpectedEnd));
    assert_eq!(read_nul_terminated_string(b"\xff\0", 0), Err(AssetError::InvalidUtf8));
    assert_eq!(align_stream(0), 0);
    assert_eq!(align_stream(5), 8);
    assert_eq!(align_stream(8), 8);
}

fn texture() -> Texture2D {
    // 2 by 2 pixels, row 0 first
    Texture2D { width: 2, height: 2, data: vec![1, 1, 1, 1, 2, 2, 2, 2, 3, 3, 3, 3, 4, 4, 4, 4] }
}

#[test]
fn sprites_are_cut_upside_down() {
    assert_eq!(extract_subimage(&texture(), 1, 0, 1, 2), Ok(vec![4, 4, 4, 4, 2, 2, 2, 2]));
    assert_eq!(extract_subimage(&texture(), 0, 0, 2, 1), Ok(vec![1, 1, 1, 1, 2, 2, 2, 2]));
    assert_eq!(extract_subimage(&texture(), 1, 0, 2, 1), Err(SpriteError::OutOfBounds));
    // a sprite far outside the image is refused before its size is computed
    assert_eq!(extract_subimage(&texture(), 0, 0, 70000, 70000), Err(SpriteError::OutOfBounds));
}

#[test]
fn sprites_are_encoded_as_png() {
    let raw = RawAssets { spritesheetf: vec![], characters: texture(), map_objects: texture(), xml_assets: vec![] };
    let png = process_sprite(&raw, 2, 0, 0, 2, 2).unwrap().unwrap();
    assert_eq!(&png[..8], &[137, 80, 78, 71, 13, 10, 26, 10]);
    let decoder = png::Decoder::new(png.as_slice());
    let mut reader = decoder.read_info().unwrap();
    let mut buf = vec![0; reader.output_buffer_size()];
    let info = reader.next_frame(&mut buf).unwrap();
    assert_eq!((info.width, info.height), (2, 2));
    assert_eq!(&buf[..16], &[3, 3, 3, 3, 4, 4, 4, 4, 1, 1, 1, 1, 2, 2, 2, 2]);
    assert!(process_sprite(&raw, 7, 0, 0, 1, 1).unwrap().is_none());
    assert_eq!(raw.get_sprite(2, 0, 0, 2, 2), png);
}

#[test]
fn undoing_the_edit() {
    let contents = b"edited assets";
    let h = written_hash(contents);
    assert_ne!(h.to_vec(), contents[..].to_vec());
    assert_eq!(finish_action(&h, contents), FinishAction::Restore);
    assert_eq!(finish_action(&h, b"updated by the game"), FinishAction::KeepChanged);
    let empty = written_hash(b"");
    assert_eq!(empty[..4], [0xaf, 0x13, 0x49, 0xb9]);
}

#[test]
fn sheets_are_encoded_by_index() {
    let raw = RawAssets { spritesheetf: vec![], characters: texture(), map_objects: texture(), xml_assets: vec![] };
    let sprites = vec![
        SpriteRecord { index: 3, atlas_id: 2, x: 0, y: 0, w: 1, h: 1 },
        SpriteRecord { index: 9, atlas_id: 1, x: 0, y: 0, w: 1, h: 1 },
        SpriteRecord { index: 4, atlas_id: 4, x: 1, y: 1, w: 1, h: 1 },
    ];
    let sheet = process_spritesheet(&raw, &sprites).unwrap();
    assert_eq!(sheet.keys().copied().collect::<Vec<_>>(), vec![3, 4]);
    let bad = vec![SpriteRecord { index: 0, atlas_id: 2, x: 2, y: 0, w: 1, h: 1 }];
    assert_eq!(process_spritesheet(&raw, &bad).err(), Some(SpriteError::OutOfBounds));

    let sheets = vec![SheetRecord { name: "chars".to_string(), sprites }];
    let animated = vec![
        AnimatedRecord { name: "players".to_string(), index: 1, sprite: SpriteRecord { index: 0, atlas_id: 2, x: 0, y: 0, w: 2, h: 1 } },
        AnimatedRecord { name: "players".to_string(), index: 2, sprite: SpriteRecord { index: 0, atlas_id: 4, x: 0, y: 1, w: 2, h: 1 } },
    ];
    let all = Sprites::process(&raw, &sheets, &animated).unwrap();
    assert_eq!(all.spritesheets.get("chars").unwrap().len(), 2);
    assert!(all.spritesheets.get("players").is_none());
    let players = all.animated_spritesheets.get("players").unwrap();
    assert_eq!(players.keys().copied().collect::<Vec<_>>(), vec![1, 2]);
    let bad_animated = vec![AnimatedRecord { name: "x".to_string(), index: 0, sprite: SpriteRecord { index: 0, atlas_id: 4, x: 1, y: 0, w: 2, h: 1 } }];
    assert!(Sprites::process(&raw, &sheets, &bad_animated).is_err());
}

#[test]
fn server_names_are_shortened() {
    assert_eq!(short_name("EUEast"), "eue");
    assert_eq!(short_name("USSouthWest"), "ussw");
    assert_eq!(short_name("USWest4"), "usw4");
    assert_eq!(short_name("Australia"), "aus");
    assert_eq!(short_name("Asia"), "a");
    assert_eq!(short_name("Ünicode"), "");
}

#[test]
fn server_list_is_read_in_order() {
    let body = b"<Servers><Server><Name>EUEast</Name><DNS>1.2.3.4</DNS></Server><Server><DNS>5.6.7.8</DNS><Name>Australia</Name></Server></Servers>";
    let list = parse_server_list(body).unwrap();
    assert_eq!(list, vec![
        ("eue".to_string(), "1.2.3.4".to_string()),
        ("aus".to_string(), "5.6.7.8".to_string()),
    ]);
    let doc = xml("<Servers><Server><Name>EUEast</Name></Server></Servers>");
    assert_eq!(server_list(&doc), Err(ServerListError::MissingDns));
    let doc = xml("<Servers><Server><DNS>x</DNS></Server></Servers>");
    assert_eq!(server_list(&doc), Err(ServerListError::MissingName));
    assert_eq!(parse_server_list(b"not xml"), Err(ServerListError::NotXml));
}

#[test]
fn object_sprites_are_looked_up() {
    let mut sheet = BTreeMap::new();
    sheet.insert(26u32, vec![1u8, 2, 3]);
    let mut spritesheets = SheetsByName::new();
    spritesheets.insert("chars8x8".to_string(), sheet);
    let sprites = Sprites { animated_spritesheets: SheetsByName::new(), spritesheets };
    let mut doc = xml(OBJECTS);
    let mut o = HashMap::new();
    objects::parse(&settings(false), &mut o, &mut doc).unwrap();
    assert_eq!(try_get_obj_sprite(&o, &sprites, 0x0d00), Some(&vec![1u8, 2, 3]));
    assert_eq!(try_get_obj_sprite(&o, &sprites, 12), None);
    assert_eq!(try_get_obj_sprite(&o, &sprites, 99), None);
}

#[test]
fn object_reader_objects() {
    let mut doc = xml(r#"<Objects><Object type="0x20" id="Boss"><DisplayId>Big Boss</DisplayId><AnimatedTexture><File>bosses</File><Index>7</Index></AnimatedTexture><Projectile id="3"><Damage>50</Damage><ConditionEffect duration="2">Blind</ConditionEffect><ConditionEffect duration="1">Sick</ConditionEffect></Projectile></Object></Objects>"#);
    let mut table = HashMap::new();
    assert_eq!(object_reader::objects(&settings(true), &mut table, &mut doc), Ok(()));
    let boss = &table[&0x20];
    assert_eq!(boss.name, "Big Boss");
    assert!(boss.is_animated);
    assert_eq!(boss.sprite, ("bosses".to_string(), 7));
    assert!(boss.projectiles.contains_key(&3));
    // the forced debuff is gone from the document, the other effect stays
    assert_eq!(count_condition_effects(&doc), 1);
}

#[test]
fn projectile_reader_forced_debuffs() {
    let d = Debuffs { blind: true, hallucinating: false, drunk: false, confused: false, hexed: false, unstable: false, darkness: false };
    let text = r#"<Objects><Object type="0x10"><Projectile><ConditionEffect>Blind</ConditionEffect><ConditionEffect>Sick</ConditionEffect></Projectile></Object></Objects>"#;
    let mut assets = ExtractedAssets::new();
    let mut doc = xml(text);
    assert_eq!(process_xml_objects(true, &d, &mut assets, &mut doc), Ok(()));
    assert_eq!(count_condition_effects(&doc), 1);
    assert!(assets.projectiles[&0x10][&0].inflicts_sick);
    let mut doc = xml(text);
    assert_eq!(process_xml_objects(false, &d, &mut assets, &mut doc), Ok(()));
    assert_eq!(count_condition_effects(&doc), 2);
}

fn objects_error(body: &str) -> Result<bool, ProcessError> {
    let mut doc = xml(&format!("<Objects>{body}</Objects>"));
    let mut o = HashMap::new();
    objects::parse(&settings(false), &mut o, &mut doc)
}

#[test]
fn object_error_variants() {
    assert_eq!(objects_error(r#"<Object id="a"/>"#), Err(ProcessError::MissingType));
    assert_eq!(objects_error(r#"<Object type="zz" id="a"/>"#), Err(ProcessError::InvalidId));
    assert_eq!(objects_error(r#"<Object type="1" id="a"><Texture><File>x</File></Texture></Object>"#), Err(ProcessError::MissingTexturePart));
    assert_eq!(objects_error(r#"<Object type="1" id="a"><Projectile id="300"><Damage>1</Damage></Projectile></Object>"#), Err(ProcessError::InvalidProjectileId));
    assert_eq!(objects_error(r#"<Object type="1" id="a"><Projectile><Damage>x</Damage></Projectile></Object>"#), Err(ProcessError::InvalidDamageValue));
    assert_eq!(objects_error(r#"<Object type="1" id="a"><Projectile><Damage>1</Damage><ConditionEffect duration="1"/></Projectile></Object>"#), Err(ProcessError::MissingConditionText));
    assert_eq!(objects_error(r#"<Object type="1" id="a"><Projectile><Damage>1</Damage><ConditionEffect>Sick</ConditionEffect></Projectile></Object>"#), Err(ProcessError::MissingDuration));
    assert_eq!(objects_error(r#"<Object type="1" id="a"><Subattack/></Object>"#), Err(ProcessError::MissingSubattackId));
    assert_eq!(objects_error(r#"<Object type="1" id="a"><Subattack projectileId="x"/></Object>"#), Err(ProcessError::InvalidSubattackId));
    let many: String = (0..256).map(|_| "<Projectile><Damage>1</Damage></Projectile>").collect();
    assert_eq!(objects_error(&format!(r#"<Object type="1" id="a">{many}</Object>"#)), Err(ProcessError::TooManyProjectiles));
}

#[test]
fn other_error_variants() {
    let mut t = HashMap::new();
    assert_eq!(tiles::parse(&mut t, &xml(r#"<GroundTypes><Ground type="1"/></GroundTypes>"#)), Err(ProcessError::MissingGroundId));
    let mut e = HashMap::new();
    assert_eq!(enchantments::parse(&mut e, &xml(r#"<Enchantments><Enchantment type="1"><Mutators/></Enchantment></Enchantments>"#)), Err(ProcessError::MissingDisplayId));
    assert_eq!(enchantments::parse(&mut e, &xml(r#"<Enchantments><Enchantment type="1"><DisplayId>x</DisplayId><Mutators><Mutator/></Mutators></Enchantment></Enchantments>"#)), Err(ProcessError::MissingMutatorText));
    assert_eq!(enchantments::parse(&mut e, &xml(r#"<Enchantments><Enchantment type="1"><DisplayId>x</DisplayId><Mutators><Mutator stat="HP">FlatRegen</Mutator></Mutators></Enchantment></Enchantments>"#)), Err(ProcessError::MissingAmount));

    let mut assets = ExtractedAssets::new();
    let d = Debuffs { blind: false, hallucinating: false, drunk: false, confused: false, hexed: false, unstable: false, darkness: false };
    let mut doc = xml(r#"<Objects><Object/></Objects>"#);
    assert_eq!(process_xml_objects(false, &d, &mut assets, &mut doc), Err(ExtractError::MissingType));
    let mut doc = xml(r#"<Objects><Object type="0x1"><Projectile id="x"/></Object></Objects>"#);
    assert_eq!(process_xml_objects(false, &d, &mut assets, &mut doc), Err(ExtractError::InvalidProjectileId));
    let mut doc = xml(r#"<Objects><Object type="0x1"><Projectile><ConditionEffect/></Projectile></Object></Objects>"#);
    assert_eq!(process_xml_objects(false, &d, &mut assets, &mut doc), Err(ExtractError::InvalidConditionEffect));
    let grounds = xml(r#"<GroundTypes><Ground type="0x5"><MaxDamage>lots</MaxDamage></Ground></GroundTypes>"#);
    assert_eq!(process_xml_grounds(&mut assets, &grounds), Err(ExtractError::InvalidGroundDamage));

    let mut table = HashMap::new();
    let mut doc = xml(r#"<Objects><Object type="1" id="a"><DisplayId><b/></DisplayId></Object></Objects>"#);
    assert_eq!(object_reader::objects(&settings(false), &mut table, &mut doc), Err(ReaderError::NotText));
    let mut doc = xml(r#"<Objects><Object type="1"/></Objects>"#);
    assert_eq!(object_reader::objects(&settings(false), &mut table, &mut doc), Err(ReaderError::MissingName));
}

#[test]
fn compressed_int_overflow() {
    let mut data: &[u8] = &[0xff, 0xff, 0xff, 0xff, 0xff, 0xff, 0xff, 0xff, 0xff, 0xff, 0x7f];
    assert_eq!(rotmguard::read::read_compressed_int(&mut data), Err(rotmguard::read::ReadError::IntegerOverflow));
}

/// A little-endian assets file with one text asset named `name` holding `text`.
fn assets_file(name: &str, text: &str) -> Vec<u8> {
    let data_offset: u64 = 120;
    let mut body = Vec::new();
    body.extend_from_slice(&(name.len() as u32).to_le_bytes());
    body.extend_from_slice(name.as_bytes());
    while (data_offset as usize + body.len()) % 4 != 0 {
        body.push(0);
    }
    body.extend_from_slice(&(text.len() as u32).to_le_bytes());
    body.extend_from_slice(text.as_bytes());
    let total = data_offset + body.len() as u64;

    let mut d = header(22, 10, total, data_offset);
    d.truncate(48);
    d.extend_from_slice(b"2021\0"); // ends at 53
    d.extend_from_slice(&[0; 4]); // target platform
    d.push(0); // no type tree
    d.extend_from_slice(&1u32.to_le_bytes()); // one type
    d.extend_from_slice(&49i32.to_le_bytes()); // a text asset
    d.extend_from_slice(&[0; 3 + 16]);
    d.extend_from_slice(&1u32.to_le_bytes()); // one object, at 85
    d.extend_from_slice(&[0; 3]); // padding to 92
    d.extend_from_slice(&[0; 8]); // path id
    d.extend_from_slice(&0u64.to_le_bytes()); // offset from the data
    d.extend_from_slice(&(body.len() as u32).to_le_bytes());
    d.extend_from_slice(&0u32.to_le_bytes()); // type 0
    assert_eq!(d.len(), 116);
    d.resize(data_offset as usize, 0);
    d.extend_from_slice(&body);
    d
}

const ASSET_OBJECTS: &str = r#"<?xml version="1.0" encoding="UTF-8"?><Objects><Object type="0x10" id="Thing"><Projectile id="2"><Damage>40</Damage><ArmorPiercing /><ConditionEffect duration="1">Blind</ConditionEffect><ConditionEffect duration="1">Curse</ConditionEffect></Projectile></Object></Objects>"#;

#[test]
fn whole_file_projectile_reader() {
    let data = assets_file("objects", ASSET_OBJECTS);
    let x = extract_assets(&settings(false), &data).unwrap();
    assert!(x.edited.is_none());
    assert!(x.skipped.is_empty());
    let info = x.assets.projectiles[&0x10][&2];
    assert!(info.armor_piercing && info.inflicts_cursed);

    let x = extract_assets(&settings(true), &data).unwrap();
    let edited = x.edited.unwrap();
    assert_eq!(edited.len(), data.len());
    let text_start = data.len() - ASSET_OBJECTS.len();
    let doc = parse_xml(&edited[text_start..]).unwrap();
    assert_eq!(count_condition_effects(&doc), 1);
    assert_eq!(&edited[..text_start], &data[..text_start]);

    let broken = assets_file("objects", "<Objects><Object/></Objects>");
    let x = extract_assets(&settings(false), &broken).unwrap();
    assert_eq!(x.skipped, vec![("objects".to_string(), ExtractError::MissingType)]);
    let not_xml = assets_file("notes", "plain words");
    let x = extract_assets(&settings(false), &not_xml).unwrap();
    assert_eq!(x.skipped, vec![("notes".to_string(), ExtractError::NotXml)]);
}

#[test]
fn whole_file_object_reader() {
    let mut data = assets_file("objects", ASSET_OBJECTS);
    let before = data.clone();
    let mut unedited = settings(false);
    unedited.edit_assets.enabled = false;
    let a = handle_assets(&unedited, &mut data).unwrap();
    assert_eq!(data, before);
    assert_eq!(a.objects[&0x10].name, "Thing");
    assert!(a.objects[&0x10].projectiles[&2].armor_piercing);

    let mut data = assets_file("objects", ASSET_OBJECTS);
    let _ = handle_assets(&settings(true), &mut data).unwrap();
    assert_eq!(data.len(), before.len());
    let doc = parse_xml(&data[before.len() - ASSET_OBJECTS.len()..]).unwrap();
    assert_eq!(count_condition_effects(&doc), 1);
    // written back unedited, the document is the same size and stays readable
    let mut data = assets_file("objects", ASSET_OBJECTS);
    let _ = handle_assets(&settings(false), &mut data).unwrap();
    let doc = parse_xml(&data[before.len() - ASSET_OBJECTS.len()..]).unwrap();
    assert_eq!(count_condition_effects(&doc), 2);

    // the file has no textures, which the newest reader needs
    assert!(matches!(RawAssets::parse(&before), Err(AssetError::MissingSpritesheetf)));
}

#[test]
fn sheets_by_name_keep_the_last_and_merge_sprites() {
    let mut sheets = SheetsByName::new();
    let mut a = BTreeMap::new();
    a.insert(1u32, vec![1u8]);
    sheets.insert("a".to_string(), a);
    let mut b = BTreeMap::new();
    b.insert(2u32, vec![2u8]);
    sheets.insert("a".to_string(), b);
    assert_eq!(sheets.get("a").unwrap().keys().copied().collect::<Vec<_>>(), vec![2]);
    sheets.insert_sprite(&"a".to_string(), 5, vec![5u8]);
    sheets.insert_sprite(&"z".to_string(), 7, vec![7u8]);
    assert_eq!(sheets.get("a").unwrap().keys().copied().collect::<Vec<_>>(), vec![2, 5]);
    assert_eq!(sheets.get("z").unwrap()[&7], vec![7u8]);
    assert!(sheets.get("b").is_none());
}

fn unconvert(e: &XmlElement) -> xmltree::Element {
    xmltree::Element {
        prefix: e.prefix.clone(),
        namespace: e.namespace.clone(),
        namespaces: e.namespaces.as_ref().map(|ns| xmltree::Namespace(ns.iter().cloned().collect())),
        name: e.name.clone(),
        attributes: e.attributes.iter().cloned().collect(),
        children: e.children.iter().map(unconvert_node).collect(),
    }
}

fn unconvert_node(n: &XmlNode) -> xmltree::XMLNode {
    match n {
        XmlNode::Element(e) => xmltree::XMLNode::Element(unconvert(e)),
        XmlNode::Comment(c) => xmltree::XMLNode::Comment(c.clone()),
        XmlNode::CData(c) => xmltree::XMLNode::CData(c.clone()),
        XmlNode::Text(t) => xmltree::XMLNode::Text(t.clone()),
        XmlNode::ProcessingInstruction(a, b) => xmltree::XMLNode::ProcessingInstruction(a.clone(), b.clone()),
    }
}

/// What `xmltree` writes for a document, padded with spaces to `size`.
fn written_padded(e: &XmlElement, size: usize) -> Vec<u8> {
    let mut out = Vec::new();
    unconvert(e).write(&mut out).unwrap();
    assert!(out.len() <= size);
    out.resize(size, b' ');
    out
}

#[test]
fn decimal_text_is_recognised() {
    for ok in ["1", "1.", ".5", "01.50", "1.5e3", "1E-3", "2e+7", "+2", "-0.25", "inf", "-INF", "Infinity", "NaN"] {
        assert!(is_float_text(ok), "{ok}");
        assert!(ok.parse::<f32>().is_ok(), "{ok}");
    }
    for bad in ["", ".", "+", "e5", "1e", "1e+", "1.2.3", "abc", " 1", "1 ", "infinit", "--1", "1,5"] {
        assert!(!is_float_text(bad), "{bad}");
        assert!(bad.parse::<f32>().is_err(), "{bad}");
    }
}

#[test]
fn malformed_durations_and_amounts_are_refused() {
    assert_eq!(
        objects_error(r#"<Object type="1" id="a"><Projectile><Damage>1</Damage><ConditionEffect duration="soon">Curse</ConditionEffect></Projectile></Object>"#),
        Err(ProcessError::InvalidDuration)
    );
    // a condition that is taken out is not read
    let mut o = HashMap::new();
    let mut doc = xml(r#"<Objects><Object type="1" id="a"><Projectile><Damage>1</Damage><ConditionEffect duration="soon">Blind</ConditionEffect></Projectile></Object></Objects>"#);
    assert_eq!(objects::parse(&settings(true), &mut o, &mut doc), Ok(true));

    let mut e = HashMap::new();
    let bad = xml(r#"<Enchantments><Enchantment type="1"><DisplayId>x</DisplayId><Mutators><Mutator stat="HP" amount="lots">FlatRegen</Mutator></Mutators></Enchantment></Enchantments>"#);
    assert_eq!(enchantments::parse(&mut e, &bad), Err(ProcessError::InvalidAmount));
    // of another stat, the amount is not read
    let other = xml(r#"<Enchantments><Enchantment type="1"><DisplayId>x</DisplayId><Mutators><Mutator stat="MP" amount="lots">FlatRegen</Mutator></Mutators></Enchantment></Enchantments>"#);
    assert_eq!(enchantments::parse(&mut e, &other), Ok(false));
    // the object-table reader reads it whatever the stat
    let mut t = HashMap::new();
    assert_eq!(object_reader::enchantments(&mut t, &other), Err(ReaderError::Enchantment(ProcessError::InvalidAmount)));
}

#[test]
fn regions_hold_the_edited_document_padded() {
    let assets = vec![
        XmlAsset { name: "objects".to_string(), data: OBJECTS.as_bytes().to_vec(), position: 64, slot_size: OBJECTS.len() },
        XmlAsset { name: "more".to_string(), data: OBJECTS.as_bytes().to_vec(), position: 9000, slot_size: OBJECTS.len() },
    ];
    let p = process_xml(&settings(true), &assets).unwrap();
    let mut edited = xml(OBJECTS);
    let mut o = HashMap::new();
    objects::parse(&settings(true), &mut o, &mut edited).unwrap();
    let expected = written_padded(&edited, OBJECTS.len());
    assert_eq!(p.to_overwrite.len(), 2);
    assert_eq!(p.to_overwrite[0].data, expected);
    assert_eq!(p.to_overwrite[1].position, 9000);
    assert_eq!(p.to_overwrite[1].data, expected);
    // a slot too small for the written document fails the whole
    let small = vec![XmlAsset { name: "objects".to_string(), data: OBJECTS.as_bytes().to_vec(), position: 0, slot_size: 10 }];
    assert!(matches!(process_xml(&settings(true), &small), Err(ProcessError::TooLong)));
}

#[test]
fn edited_copy_holds_the_edited_document() {
    let data = assets_file("objects", ASSET_OBJECTS);
    let text_start = data.len() - ASSET_OBJECTS.len();
    let x = extract_assets(&settings(true), &data).unwrap();
    let mut edited = xml(ASSET_OBJECTS);
    let mut assets = ExtractedAssets::new();
    process_xml_objects(true, &settings(true).debuffs, &mut assets, &mut edited).unwrap();
    let mut expected = data[..text_start].to_vec();
    expected.extend(written_padded(&edited, ASSET_OBJECTS.len()));
    assert_eq!(x.edited.unwrap(), expected);

    let mut data2 = data.clone();
    handle_assets(&settings(true), &mut data2).unwrap();
    let mut edited = xml(ASSET_OBJECTS);
    let mut table = HashMap::new();
    object_reader::objects(&settings(true), &mut table, &mut edited).unwrap();
    let mut expected = data[..text_start].to_vec();
    expected.extend(written_padded(&edited, ASSET_OBJECTS.len()));
    assert_eq!(data2, expected);
}
