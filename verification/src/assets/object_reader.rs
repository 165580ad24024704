//! The object-table reader of the XML definitions: objects with their
//! names, sprites and projectiles (with damage), grounds, and enchantments
//! with a single effect. Where the user enabled asset editing, the edited
//! document is written back over its bytes in the file.

use vstd::prelude::*;
use std::collections::{BTreeMap, BTreeSet, HashMap};
use super::Damage;
use super::process::{id_value, parse_id, ProcessError};
use super::process::enchantments::{mutator_of, parse_mutator, EffectView, EnchantmentEffect};
use super::process::objects::disabled_debuff;
use super::xml::{
    attr_value, element_view, first_child, has_child_named, is_element_named, lemma_same_element, node_view, parse_xml, write_xml, xml_document,
    xml_written, XmlElement, XmlElementView, XmlNode,
};
use super::extract::{opt_bytes, overwrite_in, overwritten, ExtractError};
use super::raw_parse::{
    align4, align_stream, avail, has_bytes, read_asset_string, read_header, read_objects, read_types,
    spec_asset_string, spec_header, spec_objects, spec_types, u32_at, uint_at, AssetError, ObjectEntry,
};
use crate::config::{Debuffs, Settings};
use crate::text::{float_syntax, is_float_text, parse_i32, parse_i64, parse_integer, parse_u8, str_eq};

verus! {

broadcast use vstd::std_specs::btree::group_btree_axioms, vstd::std_specs::hash::group_hash_axioms,
    vstd::laws_cmp::group_laws_cmp;

/// Why a document could not be read.
#[derive(Debug, Clone, Copy, PartialEq, Eq, Structural)]
pub enum ReaderError {
    /// An element that must hold only text holds more than one node, or a non-text node.
    NotText,
    /// A type attribute is missing.
    MissingType,
    /// An id is no number.
    InvalidId,
    /// An object has no `id`.
    MissingName,
    /// A texture has no `File` or `Index` child.
    MissingTexturePart,
    /// A projectile's `id` is no `u8`.
    InvalidProjectileId,
    /// A damage value is no `i32`.
    InvalidDamageValue,
    /// A projectile names one kind of damage twice.
    RepeatedDamage,
    /// A projectile has neither exactly `Damage` nor both `MinDamage` and `MaxDamage`.
    InvalidDamage,
    /// Two projectiles of an object have one id.
    DuplicateProjectile,
    /// An object has more projectiles than a `u8` counts.
    TooManyProjectiles,
    /// A ground's `MaxDamage` is not one text with an `i64`.
    InvalidGroundDamage,
    /// An enchantment lacks a part, or a mutator is malformed.
    Enchantment(ProcessError),
    /// An enchantment has no mutators.
    NoMutators,
    /// The edited document could not be written.
    WriteFailed,
    /// The edited document is longer than the unedited one.
    TooLong,
    /// The cult staff's `ArcGap` has no value, or not a text.
    InvalidArcGap,
}

/// The text of an element that may hold only text: empty for no children.
pub open spec fn inner_text(e: XmlElement) -> Result<Seq<char>, ReaderError> {
    if e.children@.len() == 0 {
        Ok(Seq::empty())
    } else if e.children@.len() > 1 {
        Err(ReaderError::NotText)
    } else {
        match e.children@[0] {
            XmlNode::Text(t) => Ok(t@),
            _ => Err(ReaderError::NotText),
        }
    }
}

/// Reads the text of an element that may hold only text.
pub fn get_inner_text(element: &XmlElement) -> (r: Result<String, ReaderError>)
    ensures
        match inner_text(*element) {
            Ok(t) => r matches Ok(x) && x@ == t,
            Err(e) => r == Err::<String, ReaderError>(e),
        },
{
    if element.children.len() == 0 {
        return Ok(String::new());
    }
    if element.children.len() > 1 {
        return Err(ReaderError::NotText);
    }
    match &element.children[0] {
        XmlNode::Text(t) => Ok(t.clone()),
        _ => Err(ReaderError::NotText),
    }
}

/// A projectile of an object, with its damage.
#[derive(Debug, Clone, Copy, PartialEq, Eq, Structural)]
pub struct ProjectileInfo {
    pub damage: Damage,
    pub armor_piercing: bool,
    pub inflicts_cursed: bool,
    pub inflicts_exposed: bool,
    pub inflicts_sick: bool,
    pub inflicts_bleeding: bool,
    pub inflicts_armor_broken: bool,
}

/// What the parameters of a projectile give, read from the last.
pub struct ProjScan {
    pub exact: Option<i32>,
    pub min: Option<i32>,
    pub max: Option<i32>,
    pub armor_piercing: bool,
    pub inflicts_cursed: bool,
    pub inflicts_exposed: bool,
    pub inflicts_sick: bool,
    pub inflicts_bleeding: bool,
    pub inflicts_armor_broken: bool,
}

pub open spec fn empty_proj_scan() -> ProjScan {
    ProjScan {
        exact: None,
        min: None,
        max: None,
        armor_piercing: false,
        inflicts_cursed: false,
        inflicts_exposed: false,
        inflicts_sick: false,
        inflicts_bleeding: false,
        inflicts_armor_broken: false,
    }
}

/// A damage value, which may be given once.
pub open spec fn damage_value(p: XmlElement, old: Option<i32>) -> Result<i32, ReaderError> {
    match inner_text(p) {
        Err(e) => Err(e),
        Ok(t) => match parse_integer(t, 10, i32::MIN as int, i32::MAX as int) {
            None => Err(ReaderError::InvalidDamageValue),
            Some(v) => if old is Some { Err(ReaderError::RepeatedDamage) } else { Ok(v as i32) },
        },
    }
}

pub open spec fn with_effect(v: ProjScan, c: Seq<char>) -> ProjScan {
    if c == "Curse"@ {
        ProjScan { inflicts_cursed: true, ..v }
    } else if c == "Exposed"@ {
        ProjScan { inflicts_exposed: true, ..v }
    } else if c == "Sick"@ {
        ProjScan { inflicts_sick: true, ..v }
    } else if c == "Bleeding"@ {
        ProjScan { inflicts_bleeding: true, ..v }
    } else if c == "Armor Broken"@ {
        ProjScan { inflicts_armor_broken: true, ..v }
    } else {
        v
    }
}

pub open spec fn proj_step(v: ProjScan, n: XmlNode) -> Result<ProjScan, ReaderError> {
    match n {
        XmlNode::Element(p) => if p.name@ == "Damage"@ {
            match damage_value(p, v.exact) { Err(e) => Err(e), Ok(d) => Ok(ProjScan { exact: Some(d), ..v }) }
        } else if p.name@ == "MinDamage"@ {
            match damage_value(p, v.min) { Err(e) => Err(e), Ok(d) => Ok(ProjScan { min: Some(d), ..v }) }
        } else if p.name@ == "MaxDamage"@ {
            match damage_value(p, v.max) { Err(e) => Err(e), Ok(d) => Ok(ProjScan { max: Some(d), ..v }) }
        } else if p.name@ == "ArmorPiercing"@ {
            Ok(ProjScan { armor_piercing: true, ..v })
        } else if p.name@ == "ConditionEffect"@ {
            match inner_text(p) { Err(e) => Err(e), Ok(c) => Ok(with_effect(v, c)) }
        } else {
            Ok(v)
        },
        _ => Ok(v),
    }
}

/// The parameters of a projectile from index `k` on, read from the last.
pub open spec fn proj_scan(s: Seq<XmlNode>, k: int) -> Result<ProjScan, ReaderError>
    decreases s.len() - k,
{
    if k >= s.len() || k < 0 {
        Ok(empty_proj_scan())
    } else {
        match proj_scan(s, k + 1) {
            Err(x) => Err(x),
            Ok(v) => proj_step(v, s[k]),
        }
    }
}

/// Whether a parameter of a projectile is taken out.
pub open spec fn proj_removed(n: XmlNode, st: Settings) -> bool {
    &&& n matches XmlNode::Element(p)
    &&& p.name@ == "ConditionEffect"@
    &&& inner_text(p) matches Ok(c)
    &&& st.edit_assets.force_debuffs
    &&& disabled_debuff(c, st.debuffs)
}

pub open spec fn proj_kept(s: Seq<XmlNode>, st: Settings) -> Seq<XmlNode>
    decreases s.len(),
{
    if s.len() == 0 {
        Seq::empty()
    } else {
        (if proj_removed(s[0], st) { Seq::empty() } else { seq![s[0]] }) + proj_kept(s.drop_first(), st)
    }
}

/// A projectile element read: its id, if it has one, and the projectile.
pub open spec fn projectile_of(p: XmlElement) -> Result<(Option<u8>, ProjectileInfo), ReaderError> {
    let id = match attr_value(p.attributes@, "id"@) {
        None => Ok(None),
        Some(s) => match parse_integer(s, 10, 0, 255) {
            Some(v) => Ok(Some(v as u8)),
            None => Err(ReaderError::InvalidProjectileId),
        },
    };
    match id {
        Err(x) => Err(x),
        Ok(id) => match proj_scan(p.children@, 0) {
            Err(x) => Err(x),
            Ok(v) => {
                let damage = match (v.exact, v.min, v.max) {
                    (Some(d), None, None) => Ok(Damage::Exact(d)),
                    (None, Some(a), Some(b)) => Ok(Damage::Range(a, b)),
                    _ => Err(ReaderError::InvalidDamage),
                };
                match damage {
                    Err(x) => Err(x),
                    Ok(damage) => Ok((id, ProjectileInfo {
                        damage,
                        armor_piercing: v.armor_piercing,
                        inflicts_cursed: v.inflicts_cursed,
                        inflicts_exposed: v.inflicts_exposed,
                        inflicts_sick: v.inflicts_sick,
                        inflicts_bleeding: v.inflicts_bleeding,
                        inflicts_armor_broken: v.inflicts_armor_broken,
                    })),
                }
            },
        },
    }
}

/// The projectile element after it was read.
pub open spec fn projectile_edited(old: XmlElement, new: XmlElement, st: Settings) -> bool {
    &&& new.prefix == old.prefix
    &&& new.namespace == old.namespace
    &&& new.namespaces == old.namespaces
    &&& new.name == old.name
    &&& new.attributes == old.attributes
    &&& new.children@ == proj_kept(old.children@, st)
}

proof fn lemma_proj_kept_step(s: Seq<XmlNode>, i: int, st: Settings)
    requires
        0 <= i < s.len(),
    ensures
        proj_kept(s.skip(i), st) == (if proj_removed(s[i], st) { Seq::empty() } else { seq![s[i]] }) + proj_kept(s.skip(i + 1), st),
{
    assert(s.skip(i).drop_first() =~= s.skip(i + 1));
    assert(s.skip(i)[0] == s[i]);
}

proof fn lemma_proj_scan_err(s: Seq<XmlNode>, k: int)
    requires
        0 <= k < s.len(),
        proj_scan(s, k) is Err,
    ensures
        proj_scan(s, 0) == proj_scan(s, k),
    decreases k,
{
    if k > 0 {
        lemma_proj_scan_err(s, k - 1);
    }
}

fn read_damage(p: &XmlElement, old: Option<i32>) -> (r: Result<i32, ReaderError>)
    ensures
        r == damage_value(*p, old),
{
    let t = get_inner_text(p)?;
    match parse_i32(t.as_str()) {
        None => Err(ReaderError::InvalidDamageValue),
        Some(v) => if old.is_some() { Err(ReaderError::RepeatedDamage) } else { Ok(v) },
    }
}

fn set_effect(v: &mut ProjScanExec, c: &str)
    ensures
        final(v)@ == with_effect(old(v)@, c@),
{
    if str_eq(c, "Curse") {
        v.inflicts_cursed = true;
    } else if str_eq(c, "Exposed") {
        v.inflicts_exposed = true;
    } else if str_eq(c, "Sick") {
        v.inflicts_sick = true;
    } else if str_eq(c, "Bleeding") {
        v.inflicts_bleeding = true;
    } else if str_eq(c, "Armor Broken") {
        v.inflicts_armor_broken = true;
    }
}

/// The scan state, at run time.
pub struct ProjScanExec {
    pub exact: Option<i32>,
    pub min: Option<i32>,
    pub max: Option<i32>,
    pub armor_piercing: bool,
    pub inflicts_cursed: bool,
    pub inflicts_exposed: bool,
    pub inflicts_sick: bool,
    pub inflicts_bleeding: bool,
    pub inflicts_armor_broken: bool,
}

impl View for ProjScanExec {
    type V = ProjScan;

    open spec fn view(&self) -> ProjScan {
        ProjScan {
            exact: self.exact,
            min: self.min,
            max: self.max,
            armor_piercing: self.armor_piercing,
            inflicts_cursed: self.inflicts_cursed,
            inflicts_exposed: self.inflicts_exposed,
            inflicts_sick: self.inflicts_sick,
            inflicts_bleeding: self.inflicts_bleeding,
            inflicts_armor_broken: self.inflicts_armor_broken,
        }
    }
}

fn is_disabled(c: &str, d: &Debuffs) -> (r: bool)
    ensures
        r == disabled_debuff(c@, *d),
{
    (str_eq(c, "Blind") && d.blind) || (str_eq(c, "Hallucinating") && d.hallucinating) || (str_eq(c, "Drunk")
        && d.drunk) || (str_eq(c, "Confused") && d.confused) || (str_eq(c, "Unstable") && d.unstable)
        || (str_eq(c, "Darkness") && d.darkness)
}

/// Reads a projectile of an enemy: its id, damage, armor piercing and the
/// effects it inflicts. Where the user forces it, the client-side debuffs are
/// taken out of the element.
#[verifier::spinoff_prover]
#[verifier::rlimit(50)]
pub fn parse_projectile(settings: &Settings, projectile: &mut XmlElement) -> (r: Result<(Option<u8>, ProjectileInfo), ReaderError>)
    ensures
        r == projectile_of(*old(projectile)),
        r is Ok ==> projectile_edited(*old(projectile), *final(projectile), *settings),
{
    let id = match projectile.attr("id") {
        None => None,
        Some(s) => match parse_u8(s.as_str()) {
            Some(v) => Some(v),
            None => return Err(ReaderError::InvalidProjectileId),
        },
    };
    let ghost s0 = projectile.children@;
    let ghost st = *settings;
    let mut v = ProjScanExec {
        exact: None,
        min: None,
        max: None,
        armor_piercing: false,
        inflicts_cursed: false,
        inflicts_exposed: false,
        inflicts_sick: false,
        inflicts_bleeding: false,
        inflicts_armor_broken: false,
    };
    let ghost whole = match proj_scan(s0, 0) {
        Err(x) => Err(x),
        Ok(w) => {
            let damage = match (w.exact, w.min, w.max) {
                (Some(d), None, None) => Ok(Damage::Exact(d)),
                (None, Some(a), Some(b)) => Ok(Damage::Range(a, b)),
                _ => Err(ReaderError::InvalidDamage),
            };
            match damage {
                Err(x) => Err(x),
                Ok(damage) => Ok((id, ProjectileInfo {
                    damage,
                    armor_piercing: w.armor_piercing,
                    inflicts_cursed: w.inflicts_cursed,
                    inflicts_exposed: w.inflicts_exposed,
                    inflicts_sick: w.inflicts_sick,
                    inflicts_bleeding: w.inflicts_bleeding,
                    inflicts_armor_broken: w.inflicts_armor_broken,
                })),
            }
        },
    };
    assert(projectile_of(*old(projectile)) == whole);
    let mut i: usize = projectile.children.len();
    assert(s0.take(i as int) =~= s0);
    assert(s0.skip(i as int) =~= Seq::<XmlNode>::empty());
    while i > 0
        invariant
            i <= s0.len(),
            st == *settings,
            projectile.prefix == old(projectile).prefix,
            projectile.namespace == old(projectile).namespace,
            projectile.namespaces == old(projectile).namespaces,
            projectile.name == old(projectile).name,
            projectile.attributes == old(projectile).attributes,
            s0 == old(projectile).children@,
            projectile_of(*old(projectile)) == whole,
            whole == match proj_scan(s0, 0) {
                Err(x) => Err(x),
                Ok(w) => {
                    let damage = match (w.exact, w.min, w.max) {
                        (Some(d), None, None) => Ok(Damage::Exact(d)),
                        (None, Some(a), Some(b)) => Ok(Damage::Range(a, b)),
                        _ => Err(ReaderError::InvalidDamage),
                    };
                    match damage {
                        Err(x) => Err(x),
                        Ok(damage) => Ok((id, ProjectileInfo {
                            damage,
                            armor_piercing: w.armor_piercing,
                            inflicts_cursed: w.inflicts_cursed,
                            inflicts_exposed: w.inflicts_exposed,
                            inflicts_sick: w.inflicts_sick,
                            inflicts_bleeding: w.inflicts_bleeding,
                            inflicts_armor_broken: w.inflicts_armor_broken,
                        })),
                    }
                },
            },
            projectile.children@ == s0.take(i as int) + proj_kept(s0.skip(i as int), st),
            proj_scan(s0, i as int) == Ok::<ProjScan, ReaderError>(v@),
        decreases i,
    {
        i -= 1;
        proof {
            lemma_proj_kept_step(s0, i as int, st);
            assert(projectile.children@[i as int] == s0[i as int]);
            assert(s0.take(i + 1) =~= s0.take(i as int).push(s0[i as int]));
            reveal_strlit("Damage");
            reveal_strlit("MinDamage");
            reveal_strlit("MaxDamage");
            reveal_strlit("ArmorPiercing");
            reveal_strlit("ConditionEffect");
            assert("Damage"@[0] != "ConditionEffect"@[0]);
            assert("MinDamage"@[0] != "ConditionEffect"@[0]);
            assert("MaxDamage"@[0] != "ConditionEffect"@[0]);
            assert("ArmorPiercing"@[0] != "ConditionEffect"@[0]);
        }
        let mut remove = false;
        let ghost v_before = v@;
        let step: Result<(), ReaderError> = match &projectile.children[i] {
            XmlNode::Element(p) => {
                if str_eq(p.name.as_str(), "Damage") {
                    assert(!proj_removed(s0[i as int], st));
                    match read_damage(p, v.exact) {
                        Ok(d) => { v.exact = Some(d); Ok(()) },
                        Err(x) => Err(x),
                    }
                } else if str_eq(p.name.as_str(), "MinDamage") {
                    match read_damage(p, v.min) {
                        Ok(d) => { v.min = Some(d); Ok(()) },
                        Err(x) => Err(x),
                    }
                } else if str_eq(p.name.as_str(), "MaxDamage") {
                    match read_damage(p, v.max) {
                        Ok(d) => { v.max = Some(d); Ok(()) },
                        Err(x) => Err(x),
                    }
                } else if str_eq(p.name.as_str(), "ArmorPiercing") {
                    assert(!proj_removed(s0[i as int], st));
                    v.armor_piercing = true;
                    Ok(())
                } else if str_eq(p.name.as_str(), "ConditionEffect") {
                    match get_inner_text(p) {
                        Err(x) => Err(x),
                        Ok(c) => {
                            set_effect(&mut v, c.as_str());
                            if settings.edit_assets.force_debuffs && is_disabled(c.as_str(), &settings.debuffs) {
                                remove = true;
                            }
                            assert(remove == proj_removed(s0[i as int], st));
                            Ok(())
                        },
                    }
                } else {
                    Ok(())
                }
            },
            _ => Ok(()),
        };
        match step {
            Err(x) => {
                proof {
                    assert(proj_step(v_before, s0[i as int]) == Err::<ProjScan, ReaderError>(x));
                    assert(proj_scan(s0, i as int) == Err::<ProjScan, ReaderError>(x));
                    lemma_proj_scan_err(s0, i as int);
                    assert(proj_scan(s0, 0) == Err::<ProjScan, ReaderError>(x));
                    assert(whole == Err::<(Option<u8>, ProjectileInfo), ReaderError>(x));
                }
                return Err(x);
            },
            Ok(()) => {},
        }
        if remove {
            assert(proj_removed(s0[i as int], st));
            let _ = projectile.children.remove(i);
            assert(projectile.children@ =~= s0.take(i as int) + proj_kept(s0.skip(i as int), st));
        } else {
            assert(!proj_removed(s0[i as int], st));
            assert(projectile.children@ =~= s0.take(i as int) + proj_kept(s0.skip(i as int), st));
        }
    }
    assert(s0.skip(0) =~= s0);
    assert(s0.take(0) =~= Seq::<XmlNode>::empty());
    assert(projectile.children@ =~= proj_kept(s0, st));
    let damage = match (v.exact, v.min, v.max) {
        (Some(d), None, None) => Damage::Exact(d),
        (None, Some(a), Some(b)) => Damage::Range(a, b),
        _ => return Err(ReaderError::InvalidDamage),
    };
    Ok((id, ProjectileInfo {
        damage,
        armor_piercing: v.armor_piercing,
        inflicts_cursed: v.inflicts_cursed,
        inflicts_exposed: v.inflicts_exposed,
        inflicts_sick: v.inflicts_sick,
        inflicts_bleeding: v.inflicts_bleeding,
        inflicts_armor_broken: v.inflicts_armor_broken,
    }))
}


// ---------------------------------------------------------------- objects

/// An object type.
pub struct Object {
    pub name: String,
    pub is_animated: bool,
    /// Spritesheet name and index.
    pub sprite: (String, u32),
    pub projectiles: BTreeMap<u8, ProjectileInfo>,
}

pub struct ObjectView {
    pub name: Seq<char>,
    pub is_animated: bool,
    pub sprite: (Seq<char>, u32),
    pub projectiles: Map<u8, ProjectileInfo>,
}

impl View for Object {
    type V = ObjectView;

    open spec fn view(&self) -> ObjectView {
        ObjectView {
            name: self.name@,
            is_animated: self.is_animated,
            sprite: (self.sprite.0@, self.sprite.1),
            projectiles: self.projectiles@,
        }
    }
}

/// What an object's parameters give, read in order.
pub struct LObjScan {
    pub obj: ObjectView,
    pub count: u8,
}

/// The sprite that a texture parameter gives.
pub open spec fn texture_of(p: XmlElement) -> Result<(Seq<char>, u32), ReaderError> {
    match first_child(p.children@, "File"@) {
        None => Err(ReaderError::MissingTexturePart),
        Some(i) => match p.children@[i] {
            XmlNode::Element(f) => match inner_text(f) {
                Err(x) => Err(x),
                Ok(file) => match first_child(p.children@, "Index"@) {
                    None => Err(ReaderError::MissingTexturePart),
                    Some(j) => match p.children@[j] {
                        XmlNode::Element(ix) => match inner_text(ix) {
                            Err(x) => Err(x),
                            Ok(index) => match id_value(index) {
                                None => Err(ReaderError::InvalidId),
                                Some(index) => Ok((file, index)),
                            },
                        },
                        _ => Err(ReaderError::MissingTexturePart),
                    },
                },
            },
            _ => Err(ReaderError::MissingTexturePart),
        },
    }
}

pub open spec fn lobject_step(v: LObjScan, n: XmlNode) -> Result<LObjScan, ReaderError> {
    match n {
        XmlNode::Element(p) => if p.name@ == "Projectile"@ {
            match projectile_of(p) {
                Err(x) => Err(x),
                Ok((id, info)) => {
                    let key = match id { Some(k) => k, None => v.count };
                    if v.count == 255 {
                        Err(ReaderError::TooManyProjectiles)
                    } else if v.obj.projectiles.contains_key(key) {
                        Err(ReaderError::DuplicateProjectile)
                    } else {
                        Ok(LObjScan {
                            obj: ObjectView { projectiles: v.obj.projectiles.insert(key, info), ..v.obj },
                            count: (v.count + 1) as u8,
                        })
                    }
                },
            }
        } else if p.name@ == "DisplayId"@ {
            match inner_text(p) {
                Err(x) => Err(x),
                Ok(t) => Ok(LObjScan { obj: ObjectView { name: t, ..v.obj }, ..v }),
            }
        } else if p.name@ == "AnimatedTexture"@ || p.name@ == "Texture"@ {
            match texture_of(p) {
                Err(x) => Err(x),
                Ok(sprite) => Ok(LObjScan {
                    obj: ObjectView { is_animated: p.name@ == "AnimatedTexture"@, sprite, ..v.obj },
                    ..v
                }),
            }
        } else {
            Ok(v)
        },
        _ => Ok(v),
    }
}

pub open spec fn lobject_scan(s: Seq<XmlNode>, k: int, init: LObjScan) -> Result<LObjScan, ReaderError>
    decreases k,
{
    if k <= 0 {
        Ok(init)
    } else {
        match lobject_scan(s, k - 1, init) {
            Err(x) => Err(x),
            Ok(v) => lobject_step(v, s[k - 1]),
        }
    }
}

/// An `Object` element read: its type and the object.
pub open spec fn lobject_of(e: XmlElement) -> Result<(u32, ObjectView), ReaderError> {
    match attr_value(e.attributes@, "type"@) {
        None => Err(ReaderError::MissingType),
        Some(t) => match id_value(t) {
            None => Err(ReaderError::InvalidId),
            Some(kind) => match attr_value(e.attributes@, "id"@) {
                None => Err(ReaderError::MissingName),
                Some(name) => {
                    let init = LObjScan {
                        obj: ObjectView { name, is_animated: false, sprite: (Seq::empty(), 0), projectiles: Map::empty() },
                        count: 0,
                    };
                    match lobject_scan(e.children@, e.children@.len() as int, init) {
                        Err(x) => Err(x),
                        Ok(v) => Ok((kind, v.obj)),
                    }
                },
            },
        },
    }
}

pub open spec fn lchild_edited(old: XmlNode, new: XmlNode, st: Settings) -> bool {
    match old {
        XmlNode::Element(p) => if p.name@ == "Projectile"@ {
            new matches XmlNode::Element(q) && projectile_edited(p, q, st)
        } else {
            new == old
        },
        _ => new == old,
    }
}

pub open spec fn same_but_children(old: XmlElement, new: XmlElement) -> bool {
    &&& new.prefix == old.prefix
    &&& new.namespace == old.namespace
    &&& new.namespaces == old.namespaces
    &&& new.name == old.name
    &&& new.attributes == old.attributes
    &&& new.children@.len() == old.children@.len()
}

pub open spec fn lobject_edited(old: XmlElement, new: XmlElement, st: Settings) -> bool {
    &&& same_but_children(old, new)
    &&& forall|i: int| 0 <= i < old.children@.len() ==> lchild_edited(old.children@[i], #[trigger] new.children@[i], st)
}

proof fn lemma_lobject_err(s: Seq<XmlNode>, k: int, init: LObjScan)
    requires
        0 <= k <= s.len(),
        lobject_scan(s, k, init) is Err,
    ensures
        lobject_scan(s, s.len() as int, init) == lobject_scan(s, k, init),
    decreases s.len() - k,
{
    if k < s.len() {
        lemma_lobject_err(s, k + 1, init);
    }
}

fn parse_texture(p: &XmlElement) -> (r: Result<(String, u32), ReaderError>)
    ensures
        match texture_of(*p) {
            Ok((f, i)) => r matches Ok((f2, i2)) && f2@ == f && i2 == i,
            Err(x) => r == Err::<(String, u32), ReaderError>(x),
        },
{
    let file = match p.get_child("File") {
        None => return Err(ReaderError::MissingTexturePart),
        Some(f) => get_inner_text(f)?,
    };
    let index = match p.get_child("Index") {
        None => return Err(ReaderError::MissingTexturePart),
        Some(ix) => get_inner_text(ix)?,
    };
    match parse_id(index.as_str()) {
        Ok(v) => Ok((file, v)),
        Err(_) => Err(ReaderError::InvalidId),
    }
}

/// Reads an `Object` element: its name, sprite and projectiles.
#[verifier::spinoff_prover]
#[verifier::rlimit(60)]
pub fn parse_object(settings: &Settings, object: &mut XmlElement) -> (r: Result<(u32, Object), ReaderError>)
    ensures
        match lobject_of(*old(object)) {
            Ok((k, v)) => r matches Ok((k2, o)) && k2 == k && o@ == v && lobject_edited(*old(object), *final(object), *settings),
            Err(x) => r matches Err(y) && y == x,
        },
{
    let kind = match object.attr("type") {
        None => return Err(ReaderError::MissingType),
        Some(t) => match parse_id(t.as_str()) {
            Ok(v) => v,
            Err(_) => return Err(ReaderError::InvalidId),
        },
    };
    let name = match object.attr("id") {
        None => return Err(ReaderError::MissingName),
        Some(n) => n.clone(),
    };
    let ghost s0 = object.children@;
    let ghost st = *settings;
    let ghost e0 = *object;
    let ghost init = LObjScan {
        obj: ObjectView { name: name@, is_animated: false, sprite: (Seq::empty(), 0), projectiles: Map::empty() },
        count: 0,
    };
    let mut data = Object { name, is_animated: false, sprite: (String::new(), 0), projectiles: BTreeMap::new() };
    let mut count: u8 = 0;
    let mut i: usize = 0;
    assert(data@ == init.obj);
    while i < object.children.len()
        invariant
            i <= s0.len(),
            s0.len() == object.children@.len(),
            st == *settings,
            e0 == *old(object),
            s0 == e0.children@,
            lobject_of(e0) == match lobject_scan(s0, s0.len() as int, init) {
                Err(x) => Err(x),
                Ok(v) => Ok((kind, v.obj)),
            },
            object.prefix == e0.prefix,
            object.namespace == e0.namespace,
            object.namespaces == e0.namespaces,
            object.name == e0.name,
            object.attributes == e0.attributes,
            forall|j: int| 0 <= j < i ==> lchild_edited(s0[j], #[trigger] object.children@[j], st),
            forall|j: int| i <= j < s0.len() ==> object.children@[j] == s0[j],
            lobject_scan(s0, i as int, init) == Ok::<LObjScan, ReaderError>(LObjScan { obj: data@, count }),
        decreases s0.len() - i,
    {
        let node = object.children.remove(i);
        assert(node == s0[i as int]);
        proof {
            reveal_strlit("Projectile");
            reveal_strlit("DisplayId");
            reveal_strlit("AnimatedTexture");
            reveal_strlit("Texture");
            assert("Projectile"@[0] != "DisplayId"@[0]);
            assert("Projectile"@[0] != "AnimatedTexture"@[0]);
            assert("Projectile"@[0] != "Texture"@[0]);
            assert("DisplayId"@[0] != "AnimatedTexture"@[0]);
            assert("DisplayId"@[0] != "Texture"@[0]);
        }
        match node {
            XmlNode::Element(mut p) => {
                if str_eq(p.name.as_str(), "Projectile") {
                    let res = parse_projectile(settings, &mut p);
                    object.children.insert(i, XmlNode::Element(p));
                    match res {
                        Err(x) => {
                            proof {
                                lemma_lobject_err(s0, i + 1, init);
                            }
                            return Err(x);
                        },
                        Ok((id, info)) => {
                            let key = match id {
                                Some(k) => k,
                                None => count,
                            };
                            if count == 255 {
                                proof {
                                    lemma_lobject_err(s0, i + 1, init);
                                }
                                return Err(ReaderError::TooManyProjectiles);
                            }
                            count = count + 1;
                            if data.projectiles.contains_key(&key) {
                                proof {
                                    lemma_lobject_err(s0, i + 1, init);
                                }
                                return Err(ReaderError::DuplicateProjectile);
                            }
                            data.projectiles.insert(key, info);
                        },
                    }
                } else if str_eq(p.name.as_str(), "DisplayId") {
                    let res = get_inner_text(&p);
                    object.children.insert(i, XmlNode::Element(p));
                    match res {
                        Err(x) => {
                            proof {
                                lemma_lobject_err(s0, i + 1, init);
                            }
                            return Err(x);
                        },
                        Ok(t) => {
                            data.name = t;
                        },
                    }
                } else if str_eq(p.name.as_str(), "AnimatedTexture") || str_eq(p.name.as_str(), "Texture") {
                    let animated = str_eq(p.name.as_str(), "AnimatedTexture");
                    let res = parse_texture(&p);
                    object.children.insert(i, XmlNode::Element(p));
                    match res {
                        Err(x) => {
                            proof {
                                lemma_lobject_err(s0, i + 1, init);
                            }
                            return Err(x);
                        },
                        Ok(sprite) => {
                            data.is_animated = animated;
                            data.sprite = sprite;
                        },
                    }
                } else {
                    object.children.insert(i, XmlNode::Element(p));
                }
            },
            other => {
                object.children.insert(i, other);
            },
        }
        i += 1;
    }
    Ok((kind, data))
}

pub open spec fn lobjects_view(m: Map<u32, Object>) -> Map<u32, ObjectView> {
    m.map_values(|o: Object| o@)
}

/// The object table after the first `k` children of an `Objects` document.
pub open spec fn lobjects_after(m: Map<u32, ObjectView>, s: Seq<XmlNode>, k: int) -> Result<Map<u32, ObjectView>, ReaderError>
    decreases k,
{
    if k <= 0 {
        Ok(m)
    } else {
        match lobjects_after(m, s, k - 1) {
            Err(x) => Err(x),
            Ok(m2) => match s[k - 1] {
                XmlNode::Element(e) => if e.name@ == "Object"@ {
                    match lobject_of(e) {
                        Err(x) => Err(x),
                        Ok((kind, v)) => Ok(m2.insert(kind, v)),
                    }
                } else {
                    Ok(m2)
                },
                _ => Ok(m2),
            },
        }
    }
}

pub open spec fn ldoc_child_edited(old: XmlNode, new: XmlNode, st: Settings) -> bool {
    match old {
        XmlNode::Element(e) => if e.name@ == "Object"@ {
            new matches XmlNode::Element(f) && lobject_edited(e, f, st)
        } else {
            new == old
        },
        _ => new == old,
    }
}

pub open spec fn ldoc_edited(old: XmlElement, new: XmlElement, st: Settings) -> bool {
    &&& same_but_children(old, new)
    &&& forall|i: int| 0 <= i < old.children@.len() ==> ldoc_child_edited(old.children@[i], #[trigger] new.children@[i], st)
}

proof fn lemma_lobjects_err(m: Map<u32, ObjectView>, s: Seq<XmlNode>, k: int)
    requires
        0 <= k <= s.len(),
        lobjects_after(m, s, k) is Err,
    ensures
        lobjects_after(m, s, s.len() as int) == lobjects_after(m, s, k),
    decreases s.len() - k,
{
    if k < s.len() {
        lemma_lobjects_err(m, s, k + 1);
    }
}

/// What reading leaves of a projectile element fixes it by value.
proof fn lemma_lprojectile_unique(p: XmlElement, a: XmlElement, b: XmlElement, st: Settings)
    requires
        projectile_edited(p, a, st),
        projectile_edited(p, b, st),
    ensures
        element_view(a) == element_view(b),
{
    lemma_same_element(a, b);
}

/// What reading leaves of an object element fixes it by value.
proof fn lemma_lobject_unique(o: XmlElement, a: XmlElement, b: XmlElement, st: Settings)
    requires
        lobject_edited(o, a, st),
        lobject_edited(o, b, st),
    ensures
        element_view(a) == element_view(b),
{
    assert forall|i: int| 0 <= i < a.children@.len() implies node_view(#[trigger] a.children@[i]) == node_view(b.children@[i]) by {
        assert(lchild_edited(o.children@[i], a.children@[i], st));
        assert(lchild_edited(o.children@[i], b.children@[i], st));
        if let XmlNode::Element(p) = o.children@[i] {
            if p.name@ == "Projectile"@ {
                if let XmlNode::Element(x) = a.children@[i] {
                    if let XmlNode::Element(y) = b.children@[i] {
                        lemma_lprojectile_unique(p, x, y, st);
                    }
                }
            }
        }
    }
    lemma_same_element(a, b);
}

/// What reading leaves of an `Objects` document fixes it by value.
proof fn lemma_ldoc_unique(x: XmlElement, a: XmlElement, b: XmlElement, st: Settings)
    requires
        ldoc_edited(x, a, st),
        ldoc_edited(x, b, st),
    ensures
        element_view(a) == element_view(b),
{
    assert forall|i: int| 0 <= i < a.children@.len() implies node_view(#[trigger] a.children@[i]) == node_view(b.children@[i]) by {
        assert(ldoc_child_edited(x.children@[i], a.children@[i], st));
        assert(ldoc_child_edited(x.children@[i], b.children@[i], st));
        if let XmlNode::Element(o) = x.children@[i] {
            if o.name@ == "Object"@ {
                if let XmlNode::Element(p) = a.children@[i] {
                    if let XmlNode::Element(q) = b.children@[i] {
                        lemma_lobject_unique(o, p, q, st);
                    }
                }
            }
        }
    }
    lemma_same_element(a, b);
}

/// An `Objects` document as reading it edits it, by value.
/// `ldoc_edited` fixes what reading leaves up to its value (`lemma_ledited_doc`), so
/// any element that it relates to the document stands for it.
pub open spec fn ledited_doc(x: XmlElement, st: Settings) -> XmlElementView {
    element_view(choose|e: XmlElement| ldoc_edited(x, e, st))
}

proof fn lemma_ledited_doc(x: XmlElement, e: XmlElement, st: Settings)
    requires
        ldoc_edited(x, e, st),
    ensures
        element_view(e) == ledited_doc(x, st),
{
    let c = choose|y: XmlElement| ldoc_edited(x, y, st);
    lemma_ldoc_unique(x, e, c, st);
}

/// Reads every `Object` child of an `Objects` document into the table.
#[verifier::spinoff_prover]
#[verifier::rlimit(50)]
pub fn objects(settings: &Settings, table: &mut HashMap<u32, Object>, xml: &mut XmlElement) -> (r: Result<(), ReaderError>)
    ensures
        match lobjects_after(lobjects_view(old(table)@), old(xml).children@, old(xml).children@.len() as int) {
            Ok(m) => r is Ok && lobjects_view(final(table)@) == m && ldoc_edited(*old(xml), *final(xml), *settings),
            Err(x) => r == Err::<(), ReaderError>(x),
        },
{
    let ghost s0 = xml.children@;
    let ghost st = *settings;
    let ghost m0 = lobjects_view(table@);
    let mut i: usize = 0;
    while i < xml.children.len()
        invariant
            i <= s0.len(),
            s0.len() == xml.children@.len(),
            s0 == old(xml).children@,
            st == *settings,
            m0 == lobjects_view(old(table)@),
            same_but_children(*old(xml), *xml),
            forall|j: int| 0 <= j < i ==> ldoc_child_edited(s0[j], #[trigger] xml.children@[j], st),
            forall|j: int| i <= j < s0.len() ==> xml.children@[j] == s0[j],
            lobjects_after(m0, s0, i as int) == Ok::<Map<u32, ObjectView>, ReaderError>(lobjects_view(table@)),
        decreases s0.len() - i,
    {
        let node = xml.children.remove(i);
        assert(node == s0[i as int]);
        match node {
            XmlNode::Element(mut e) => {
                if str_eq(e.name.as_str(), "Object") {
                    let res = parse_object(settings, &mut e);
                    xml.children.insert(i, XmlNode::Element(e));
                    match res {
                        Err(x) => {
                            proof {
                                lemma_lobjects_err(m0, s0, i + 1);
                            }
                            return Err(x);
                        },
                        Ok((kind, o)) => {
                            let ghost ov = o@;
                            let ghost before = table@;
                            table.insert(kind, o);
                            assert(lobjects_view(table@) =~= lobjects_view(before).insert(kind, ov));
                        },
                    }
                } else {
                    xml.children.insert(i, XmlNode::Element(e));
                }
            },
            other => {
                xml.children.insert(i, other);
            },
        }
        i += 1;
    }
    Ok(())
}


// ---------------------------------------------------------------- grounds

/// A ground parameter read: a `MaxDamage` gives the damage, a `Push` marks a
/// conveyor.
pub open spec fn lground_step(h: Map<u32, i64>, c: Set<u32>, kind: u32, n: XmlNode) -> Result<(Map<u32, i64>, Set<u32>), ReaderError> {
    match n {
        XmlNode::Element(p) => {
            let h2 = if p.name@ == "MaxDamage"@ {
                if p.children@.len() != 1 {
                    Err(ReaderError::InvalidGroundDamage)
                } else {
                    match p.children@[0] {
                        XmlNode::Text(t) => match parse_integer(t@, 10, i64::MIN as int, i64::MAX as int) {
                            Some(v) => Ok(h.insert(kind, v as i64)),
                            None => Err(ReaderError::InvalidGroundDamage),
                        },
                        _ => Err(ReaderError::InvalidGroundDamage),
                    }
                }
            } else {
                Ok(h)
            };
            match h2 {
                Err(x) => Err(x),
                Ok(h2) => Ok((h2, if p.name@ == "Push"@ { c.insert(kind) } else { c })),
            }
        },
        _ => Ok((h, c)),
    }
}

pub open spec fn lground_params(h: Map<u32, i64>, c: Set<u32>, kind: u32, s: Seq<XmlNode>, k: int) -> Result<(Map<u32, i64>, Set<u32>), ReaderError>
    decreases k,
{
    if k <= 0 {
        Ok((h, c))
    } else {
        match lground_params(h, c, kind, s, k - 1) {
            Err(x) => Err(x),
            Ok((h2, c2)) => lground_step(h2, c2, kind, s[k - 1]),
        }
    }
}

pub open spec fn lgrounds_step(h: Map<u32, i64>, c: Set<u32>, n: XmlNode) -> Result<(Map<u32, i64>, Set<u32>), ReaderError> {
    match n {
        XmlNode::Element(g) => if g.name@ == "Ground"@ {
            match attr_value(g.attributes@, "type"@) {
                None => Err(ReaderError::MissingType),
                Some(t) => match id_value(t) {
                    None => Err(ReaderError::InvalidId),
                    Some(kind) => lground_params(h, c, kind, g.children@, g.children@.len() as int),
                },
            }
        } else {
            Ok((h, c))
        },
        _ => Ok((h, c)),
    }
}

/// The ground tables after the first `k` children of a `GroundTypes` document.
pub open spec fn lgrounds_after(h: Map<u32, i64>, c: Set<u32>, s: Seq<XmlNode>, k: int) -> Result<(Map<u32, i64>, Set<u32>), ReaderError>
    decreases k,
{
    if k <= 0 {
        Ok((h, c))
    } else {
        match lgrounds_after(h, c, s, k - 1) {
            Err(x) => Err(x),
            Ok((h2, c2)) => lgrounds_step(h2, c2, s[k - 1]),
        }
    }
}

proof fn lemma_lground_params_err(h: Map<u32, i64>, c: Set<u32>, kind: u32, s: Seq<XmlNode>, k: int)
    requires
        0 <= k <= s.len(),
        lground_params(h, c, kind, s, k) is Err,
    ensures
        lground_params(h, c, kind, s, s.len() as int) == lground_params(h, c, kind, s, k),
    decreases s.len() - k,
{
    if k < s.len() {
        lemma_lground_params_err(h, c, kind, s, k + 1);
    }
}

proof fn lemma_lgrounds_err(h: Map<u32, i64>, c: Set<u32>, s: Seq<XmlNode>, k: int)
    requires
        0 <= k <= s.len(),
        lgrounds_after(h, c, s, k) is Err,
    ensures
        lgrounds_after(h, c, s, s.len() as int) == lgrounds_after(h, c, s, k),
    decreases s.len() - k,
{
    if k < s.len() {
        lemma_lgrounds_err(h, c, s, k + 1);
    }
}

/// The type of a `Ground` element, where it names one.
pub open spec fn ground_kind(n: XmlNode) -> Option<u32> {
    match n {
        XmlNode::Element(g) => if g.name@ == "Ground"@ {
            match attr_value(g.attributes@, "type"@) {
                Some(t) => id_value(t),
                None => None,
            }
        } else {
            None
        },
        _ => None,
    }
}

/// Whether an element has a `Push` element among its children.
pub open spec fn has_push(s: Seq<XmlNode>) -> bool {
    has_child_named(s, "Push"@)
}

/// The children of a node, if it is an element.
pub open spec fn node_children(n: XmlNode) -> Seq<XmlNode> {
    match n {
        XmlNode::Element(g) => g.children@,
        _ => Seq::empty(),
    }
}

/// The conveyors after the parameters of one ground: those before, and the
/// ground's own type if and only if a parameter is `Push`.
proof fn lemma_params_conveyors(h: Map<u32, i64>, c: Set<u32>, kind: u32, s: Seq<XmlNode>, k: int)
    requires
        0 <= k <= s.len(),
        lground_params(h, c, kind, s, k) is Ok,
    ensures
        ({
            let c2 = lground_params(h, c, kind, s, k).unwrap().1;
            &&& c.subset_of(c2)
            &&& forall|x: u32| c2.contains(x) && !c.contains(x) ==> x == kind
            &&& has_push(s.take(k)) ==> c2.contains(kind)
            &&& c2.contains(kind) ==> c.contains(kind) || has_push(s.take(k))
        }),
    decreases k,
{
    if k > 0 {
        lemma_params_conveyors(h, c, kind, s, k - 1);
        let c1 = lground_params(h, c, kind, s, k - 1).unwrap().1;
        let c2 = lground_params(h, c, kind, s, k).unwrap().1;
        let t = s.take(k);
        let t1 = s.take(k - 1);
        assert forall|j: int| 0 <= j < k - 1 implies t1[j] == #[trigger] t[j] by {}
        if has_push(t) {
            let j = choose|j: int| 0 <= j < t.len() && is_element_named(#[trigger] t[j], "Push"@);
            if j < k - 1 {
                assert(t1[j] == t[j]);
                assert(has_push(t1));
            }
        }
        if has_push(t1) {
            let j = choose|j: int| 0 <= j < t1.len() && is_element_named(#[trigger] t1[j], "Push"@);
            assert(t[j] == t1[j]);
            assert(has_push(t));
        }
        if let XmlNode::Element(p) = s[k - 1] {
            if p.name@ == "Push"@ {
                assert(t[k - 1] == s[k - 1]);
                assert(has_push(t));
            }
        }
    } else {
        assert(!has_push(s.take(0)));
    }
}

/// Law: after a `GroundTypes` document reads without error, the conveyors are
/// those before and the types of the grounds that have a `Push` parameter:
/// every such ground's type is among them, and nothing else was added.
pub proof fn law_push_grounds_are_conveyors(h: Map<u32, i64>, c: Set<u32>, s: Seq<XmlNode>)
    requires
        lgrounds_after(h, c, s, s.len() as int) is Ok,
    ensures
        ({
            let c2 = lgrounds_after(h, c, s, s.len() as int).unwrap().1;
            &&& c.subset_of(c2)
            &&& forall|i: int| 0 <= i < s.len() && #[trigger] ground_kind(s[i]) is Some && has_push(node_children(s[i]))
                ==> c2.contains(ground_kind(s[i]).unwrap())
            &&& forall|x: u32| #[trigger] c2.contains(x) && !c.contains(x) ==> exists|i: int| 0 <= i < s.len()
                && ground_kind(#[trigger] s[i]) == Some(x) && has_push(node_children(s[i]))
        }),
{
    lemma_grounds_conveyors(h, c, s, s.len() as int);
}

proof fn lemma_grounds_conveyors(h: Map<u32, i64>, c: Set<u32>, s: Seq<XmlNode>, k: int)
    requires
        0 <= k <= s.len(),
        lgrounds_after(h, c, s, k) is Ok,
    ensures
        ({
            let c2 = lgrounds_after(h, c, s, k).unwrap().1;
            &&& c.subset_of(c2)
            &&& forall|i: int| 0 <= i < k && #[trigger] ground_kind(s[i]) is Some && has_push(node_children(s[i]))
                ==> c2.contains(ground_kind(s[i]).unwrap())
            &&& forall|x: u32| #[trigger] c2.contains(x) && !c.contains(x) ==> exists|i: int| 0 <= i < k
                && ground_kind(#[trigger] s[i]) == Some(x) && has_push(node_children(s[i]))
        }),
    decreases k,
{
    if k > 0 {
        lemma_grounds_conveyors(h, c, s, k - 1);
        let (h1, c1) = lgrounds_after(h, c, s, k - 1).unwrap();
        let c2 = lgrounds_after(h, c, s, k).unwrap().1;
        let n = s[k - 1];
        match n {
            XmlNode::Element(g) => {
                if g.name@ == "Ground"@ {
                    let kind = ground_kind(n).unwrap();
                    let ch = g.children@;
                    lemma_params_conveyors(h1, c1, kind, ch, ch.len() as int);
                    assert(ch.take(ch.len() as int) =~= ch);
                    assert(node_children(n) == ch);
                    assert forall|x: u32| #[trigger] c2.contains(x) && !c.contains(x) implies exists|i: int| 0 <= i < k
                        && ground_kind(#[trigger] s[i]) == Some(x) && has_push(node_children(s[i])) by {
                        if !c1.contains(x) {
                            assert(x == kind);
                            assert(ground_kind(s[k - 1]) == Some(x) && has_push(node_children(s[k - 1])));
                        }
                    }
                } else {
                    assert(ground_kind(n) is None);
                }
            },
            _ => {
                assert(ground_kind(n) is None);
            },
        }
    }
}

/// Reads the parameters of one ground into the tables.
fn ground_params(hazardous: &mut BTreeMap<u32, i64>, conveyors: &mut BTreeSet<u32>, kind: u32, g: &XmlElement) -> (r: Result<(), ReaderError>)
    ensures
        match lground_params(old(hazardous)@, old(conveyors)@, kind, g.children@, g.children@.len() as int) {
            Ok((h, c)) => r is Ok && final(hazardous)@ == h && final(conveyors)@ == c,
            Err(x) => r == Err::<(), ReaderError>(x),
        },
{
    let ghost h0 = hazardous@;
    let ghost c0 = conveyors@;
    let mut i: usize = 0;
    while i < g.children.len()
        invariant
            i <= g.children@.len(),
            h0 == old(hazardous)@,
            c0 == old(conveyors)@,
            lground_params(h0, c0, kind, g.children@, i as int) == Ok::<(Map<u32, i64>, Set<u32>), ReaderError>((hazardous@, conveyors@)),
        decreases g.children.len() - i,
    {
        match &g.children[i] {
            XmlNode::Element(p) => {
                if str_eq(p.name.as_str(), "MaxDamage") {
                    let bad = if p.children.len() != 1 {
                        true
                    } else {
                        match &p.children[0] {
                            XmlNode::Text(t) => match parse_i64(t.as_str()) {
                                Some(v) => {
                                    hazardous.insert(kind, v);
                                    false
                                },
                                None => true,
                            },
                            _ => true,
                        }
                    };
                    if bad {
                        proof {
                            lemma_lground_params_err(h0, c0, kind, g.children@, i + 1);
                        }
                        return Err(ReaderError::InvalidGroundDamage);
                    }
                }
                if str_eq(p.name.as_str(), "Push") {
                    conveyors.insert(kind);
                }
            },
            _ => {},
        }
        i += 1;
    }
    Ok(())
}

/// Reads the hazardous and conveyor grounds of a `GroundTypes` document.
pub fn grounds(hazardous: &mut BTreeMap<u32, i64>, conveyors: &mut BTreeSet<u32>, xml: &XmlElement) -> (r: Result<(), ReaderError>)
    ensures
        match lgrounds_after(old(hazardous)@, old(conveyors)@, xml.children@, xml.children@.len() as int) {
            Ok((h, c)) => r is Ok && final(hazardous)@ == h && final(conveyors)@ == c,
            Err(x) => r == Err::<(), ReaderError>(x),
        },
{
    let ghost h0 = hazardous@;
    let ghost c0 = conveyors@;
    let mut i: usize = 0;
    while i < xml.children.len()
        invariant
            i <= xml.children@.len(),
            h0 == old(hazardous)@,
            c0 == old(conveyors)@,
            lgrounds_after(h0, c0, xml.children@, i as int) == Ok::<(Map<u32, i64>, Set<u32>), ReaderError>((hazardous@, conveyors@)),
        decreases xml.children.len() - i,
    {
        match &xml.children[i] {
            XmlNode::Element(g) => {
                if str_eq(g.name.as_str(), "Ground") {
                    let kind = match g.attr("type") {
                        None => {
                            proof {
                                lemma_lgrounds_err(h0, c0, xml.children@, i + 1);
                            }
                            return Err(ReaderError::MissingType);
                        },
                        Some(t) => match parse_id(t.as_str()) {
                            Ok(v) => v,
                            Err(_) => {
                                proof {
                                    lemma_lgrounds_err(h0, c0, xml.children@, i + 1);
                                }
                                return Err(ReaderError::InvalidId);
                            },
                        },
                    };
                    match ground_params(hazardous, conveyors, kind, g) {
                        Ok(()) => {},
                        Err(x) => {
                            proof {
                                lemma_lgrounds_err(h0, c0, xml.children@, i + 1);
                            }
                            return Err(x);
                        },
                    }
                }
            },
            _ => {},
        }
        i += 1;
    }
    Ok(())
}

// ---------------------------------------------------------------- enchantments

/// An enchantment, with the effect of its last mutator.
pub struct Enchantment {
    pub name: String,
    pub effect: EnchantmentEffect,
}

pub struct EnchantmentView {
    pub name: Seq<char>,
    pub effect: EffectView,
}

impl View for Enchantment {
    type V = EnchantmentView;

    open spec fn view(&self) -> EnchantmentView {
        EnchantmentView { name: self.name@, effect: self.effect@ }
    }
}

/// A regeneration mutator: it must have a `stat` and an `amount`; only HP counts.
pub open spec fn lregen_of(m: XmlElement, flat: bool) -> Result<EffectView, ReaderError> {
    match attr_value(m.attributes@, "stat"@) {
        None => Err(ReaderError::Enchantment(ProcessError::MissingStat)),
        Some(stat) => match attr_value(m.attributes@, "amount"@) {
            None => Err(ReaderError::Enchantment(ProcessError::MissingAmount)),
            Some(a) => if !float_syntax(a) {
                Err(ReaderError::Enchantment(ProcessError::InvalidAmount))
            } else {
                Ok(if stat != "HP"@ {
                EffectView::Other
            } else if flat {
                EffectView::FlatLifeRegen(a)
            } else {
                EffectView::PercentageLifeRegen(a)
            })
            },
        },
    }
}

pub open spec fn lmutator_of(m: XmlElement) -> Result<EffectView, ReaderError> {
    match inner_text(m) {
        Err(x) => Err(x),
        Ok(t) => if t == "FlatRegen"@ {
            lregen_of(m, true)
        } else if t == "PercentageRegen"@ {
            lregen_of(m, false)
        } else {
            Ok(EffectView::Other)
        },
    }
}

/// The effect of the last mutator element among the first `k` nodes.
pub open spec fn last_effect(s: Seq<XmlNode>, k: int) -> Result<Option<EffectView>, ReaderError>
    decreases k,
{
    if k <= 0 {
        Ok(None)
    } else {
        match last_effect(s, k - 1) {
            Err(x) => Err(x),
            Ok(e) => match s[k - 1] {
                XmlNode::Element(m) => match lmutator_of(m) {
                    Err(x) => Err(x),
                    Ok(f) => Ok(Some(f)),
                },
                _ => Ok(e),
            },
        }
    }
}

pub open spec fn lenchantment_of(e: XmlElement) -> Result<(u32, EnchantmentView), ReaderError> {
    match attr_value(e.attributes@, "type"@) {
        None => Err(ReaderError::MissingType),
        Some(t) => match id_value(t) {
            None => Err(ReaderError::InvalidId),
            Some(kind) => match first_child(e.children@, "DisplayId"@) {
                None => Err(ReaderError::Enchantment(ProcessError::MissingDisplayId)),
                Some(i) => match e.children@[i] {
                    XmlNode::Element(d) => match inner_text(d) {
                        Err(x) => Err(x),
                        Ok(name) => match first_child(e.children@, "Mutators"@) {
                            None => Err(ReaderError::Enchantment(ProcessError::MissingMutators)),
                            Some(j) => match e.children@[j] {
                                XmlNode::Element(ms) => match last_effect(ms.children@, ms.children@.len() as int) {
                                    Err(x) => Err(x),
                                    Ok(None) => Err(ReaderError::NoMutators),
                                    Ok(Some(effect)) => Ok((kind, EnchantmentView { name, effect })),
                                },
                                _ => Err(ReaderError::Enchantment(ProcessError::MissingMutators)),
                            },
                        },
                    },
                    _ => Err(ReaderError::Enchantment(ProcessError::MissingDisplayId)),
                },
            },
        },
    }
}

proof fn lemma_last_effect_err(s: Seq<XmlNode>, k: int)
    requires
        0 <= k <= s.len(),
        last_effect(s, k) is Err,
    ensures
        last_effect(s, s.len() as int) == last_effect(s, k),
    decreases s.len() - k,
{
    if k < s.len() {
        lemma_last_effect_err(s, k + 1);
    }
}

fn lregen(m: &XmlElement, flat: bool) -> (r: Result<EnchantmentEffect, ReaderError>)
    ensures
        match lregen_of(*m, flat) {
            Ok(v) => r matches Ok(x) && x@ == v,
            Err(x) => r == Err::<EnchantmentEffect, ReaderError>(x),
        },
{
    let stat = match m.attr("stat") {
        None => return Err(ReaderError::Enchantment(ProcessError::MissingStat)),
        Some(s) => s,
    };
    let amount = match m.attr("amount") {
        None => return Err(ReaderError::Enchantment(ProcessError::MissingAmount)),
        Some(a) => a.clone(),
    };
    if !is_float_text(amount.as_str()) {
        return Err(ReaderError::Enchantment(ProcessError::InvalidAmount));
    }
    Ok(if !str_eq(stat.as_str(), "HP") {
        EnchantmentEffect::Other
    } else if flat {
        EnchantmentEffect::FlatLifeRegen(amount)
    } else {
        EnchantmentEffect::PercentageLifeRegen(amount)
    })
}

fn lmutator(m: &XmlElement) -> (r: Result<EnchantmentEffect, ReaderError>)
    ensures
        match lmutator_of(*m) {
            Ok(v) => r matches Ok(x) && x@ == v,
            Err(x) => r == Err::<EnchantmentEffect, ReaderError>(x),
        },
{
    let t = get_inner_text(m)?;
    if str_eq(t.as_str(), "FlatRegen") {
        lregen(m, true)
    } else if str_eq(t.as_str(), "PercentageRegen") {
        lregen(m, false)
    } else {
        Ok(EnchantmentEffect::Other)
    }
}

/// Reads an `Enchantment` element.
pub fn parse_enchantment(e: &XmlElement) -> (r: Result<(u32, Enchantment), ReaderError>)
    ensures
        match lenchantment_of(*e) {
            Ok((k, v)) => r matches Ok((k2, x)) && k2 == k && x@ == v,
            Err(x) => r matches Err(y) && y == x,
        },
{
    let kind = match e.attr("type") {
        None => return Err(ReaderError::MissingType),
        Some(t) => match parse_id(t.as_str()) {
            Ok(v) => v,
            Err(_) => return Err(ReaderError::InvalidId),
        },
    };
    let name = match e.get_child("DisplayId") {
        None => return Err(ReaderError::Enchantment(ProcessError::MissingDisplayId)),
        Some(d) => get_inner_text(d)?,
    };
    let mutators = match e.get_child("Mutators") {
        None => return Err(ReaderError::Enchantment(ProcessError::MissingMutators)),
        Some(m) => m,
    };
    let ghost whole = match last_effect(mutators.children@, mutators.children@.len() as int) {
        Err(x) => Err(x),
        Ok(None) => Err(ReaderError::NoMutators),
        Ok(Some(effect)) => Ok((kind, EnchantmentView { name: name@, effect })),
    };
    assert(lenchantment_of(*e) == whole);
    let mut effect: Option<EnchantmentEffect> = None;
    let mut i: usize = 0;
    while i < mutators.children.len()
        invariant
            i <= mutators.children@.len(),
            lenchantment_of(*e) == whole,
            whole == match last_effect(mutators.children@, mutators.children@.len() as int) {
                Err(x) => Err(x),
                Ok(None) => Err(ReaderError::NoMutators),
                Ok(Some(effect)) => Ok((kind, EnchantmentView { name: name@, effect })),
            },
            last_effect(mutators.children@, i as int) == Ok::<Option<EffectView>, ReaderError>(
                match effect { Some(f) => Some(f@), None => None },
            ),
        decreases mutators.children.len() - i,
    {
        match &mutators.children[i] {
            XmlNode::Element(m) => {
                match lmutator(m) {
                    Err(x) => {
                        proof {
                            lemma_last_effect_err(mutators.children@, i + 1);
                        }
                        return Err(x);
                    },
                    Ok(f) => {
                        effect = Some(f);
                    },
                }
            },
            _ => {},
        }
        i += 1;
    }
    match effect {
        None => Err(ReaderError::NoMutators),
        Some(effect) => Ok((kind, Enchantment { name, effect })),
    }
}

pub open spec fn lenchantments_view(m: Map<u32, Enchantment>) -> Map<u32, EnchantmentView> {
    m.map_values(|x: Enchantment| x@)
}

/// The enchantment table after the first `k` children of an `Enchantments` document.
pub open spec fn lenchantments_after(m: Map<u32, EnchantmentView>, s: Seq<XmlNode>, k: int) -> Result<Map<u32, EnchantmentView>, ReaderError>
    decreases k,
{
    if k <= 0 {
        Ok(m)
    } else {
        match lenchantments_after(m, s, k - 1) {
            Err(x) => Err(x),
            Ok(m2) => match s[k - 1] {
                XmlNode::Element(e) => if e.name@ == "Enchantment"@ {
                    match lenchantment_of(e) {
                        Err(x) => Err(x),
                        Ok((kind, v)) => Ok(m2.insert(kind, v)),
                    }
                } else {
                    Ok(m2)
                },
                _ => Ok(m2),
            },
        }
    }
}

proof fn lemma_lenchantments_err(m: Map<u32, EnchantmentView>, s: Seq<XmlNode>, k: int)
    requires
        0 <= k <= s.len(),
        lenchantments_after(m, s, k) is Err,
    ensures
        lenchantments_after(m, s, s.len() as int) == lenchantments_after(m, s, k),
    decreases s.len() - k,
{
    if k < s.len() {
        lemma_lenchantments_err(m, s, k + 1);
    }
}

/// Reads every `Enchantment` child of an `Enchantments` document.
pub fn enchantments(table: &mut HashMap<u32, Enchantment>, xml: &XmlElement) -> (r: Result<(), ReaderError>)
    ensures
        match lenchantments_after(lenchantments_view(old(table)@), xml.children@, xml.children@.len() as int) {
            Ok(m) => r is Ok && lenchantments_view(final(table)@) == m,
            Err(x) => r == Err::<(), ReaderError>(x),
        },
{
    let ghost m0 = lenchantments_view(table@);
    let mut i: usize = 0;
    while i < xml.children.len()
        invariant
            i <= xml.children@.len(),
            m0 == lenchantments_view(old(table)@),
            lenchantments_after(m0, xml.children@, i as int) == Ok::<Map<u32, EnchantmentView>, ReaderError>(lenchantments_view(table@)),
        decreases xml.children.len() - i,
    {
        match &xml.children[i] {
            XmlNode::Element(e) => {
                if str_eq(e.name.as_str(), "Enchantment") {
                    match parse_enchantment(e) {
                        Err(x) => {
                            proof {
                                lemma_lenchantments_err(m0, xml.children@, i + 1);
                            }
                            return Err(x);
                        },
                        Ok((kind, v)) => {
                            let ghost vv = v@;
                            let ghost before = table@;
                            table.insert(kind, v);
                            assert(lenchantments_view(table@) =~= lenchantments_view(before).insert(kind, vv));
                        },
                    }
                }
            },
            _ => {},
        }
        i += 1;
    }
    Ok(())
}


// ---------------------------------------------------------------- documents

/// The tables that this reader fills.
pub struct Assets {
    pub objects: HashMap<u32, Object>,
    pub hazardous_tiles: BTreeMap<u32, i64>,
    pub conveyor_tiles: BTreeSet<u32>,
    pub enchantments: HashMap<u32, Enchantment>,
}

pub struct AssetsView {
    pub objects: Map<u32, ObjectView>,
    pub hazardous_tiles: Map<u32, i64>,
    pub conveyor_tiles: Set<u32>,
    pub enchantments: Map<u32, EnchantmentView>,
}

impl View for Assets {
    type V = AssetsView;

    open spec fn view(&self) -> AssetsView {
        AssetsView {
            objects: lobjects_view(self.objects@),
            hazardous_tiles: self.hazardous_tiles@,
            conveyor_tiles: self.conveyor_tiles@,
            enchantments: lenchantments_view(self.enchantments@),
        }
    }
}

impl Assets {
    pub fn new() -> (r: Self)
        ensures
            r@.objects == Map::<u32, ObjectView>::empty(),
            r@.hazardous_tiles == Map::<u32, i64>::empty(),
            r@.conveyor_tiles == Set::<u32>::empty(),
            r@.enchantments == Map::<u32, EnchantmentView>::empty(),
    {
        let r = Assets {
            objects: HashMap::new(),
            hazardous_tiles: BTreeMap::new(),
            conveyor_tiles: BTreeSet::new(),
            enchantments: HashMap::new(),
        };
        assert(lobjects_view(r.objects@) =~= Map::<u32, ObjectView>::empty());
        assert(lenchantments_view(r.enchantments@) =~= Map::<u32, EnchantmentView>::empty());
        r
    }
}

/// The tables after a document, by the name of its root.
pub open spec fn ldocument_result(a: AssetsView, xml: XmlElement) -> Result<AssetsView, ReaderError> {
    if xml.name@ == "Objects"@ {
        match lobjects_after(a.objects, xml.children@, xml.children@.len() as int) {
            Err(x) => Err(x),
            Ok(m) => Ok(AssetsView { objects: m, ..a }),
        }
    } else if xml.name@ == "GroundTypes"@ {
        match lgrounds_after(a.hazardous_tiles, a.conveyor_tiles, xml.children@, xml.children@.len() as int) {
            Err(x) => Err(x),
            Ok((h, c)) => Ok(AssetsView { hazardous_tiles: h, conveyor_tiles: c, ..a }),
        }
    } else if xml.name@ == "Enchantments"@ {
        match lenchantments_after(a.enchantments, xml.children@, xml.children@.len() as int) {
            Err(x) => Err(x),
            Ok(m) => Ok(AssetsView { enchantments: m, ..a }),
        }
    } else {
        Ok(a)
    }
}

/// What a document that reads without error is written back as, where asset
/// editing is enabled: an `Objects` document as reading it edited it, a
/// `GroundTypes` or `Enchantments` document as it is. Other documents, and
/// all where editing is off, are not written back.
pub open spec fn lwritten_back(x: XmlElement, st: Settings) -> Option<Option<Seq<u8>>> {
    if !st.edit_assets.enabled {
        None
    } else if x.name@ == "Objects"@ {
        Some(xml_written(ledited_doc(x, st)))
    } else if x.name@ == "GroundTypes"@ || x.name@ == "Enchantments"@ {
        Some(xml_written(element_view(x)))
    } else {
        None
    }
}

/// The file `f` with the written bytes over the `len` bytes at `pos`, padded
/// with spaces: bytes that do not fit are `TooLong`, no bytes `WriteFailed`.
pub open spec fn written_into(f: Seq<u8>, pos: int, len: int, w: Option<Seq<u8>>) -> Result<Seq<u8>, ReaderError> {
    match overwritten(f, pos, len, w) {
        Ok(n) => Ok(n),
        Err(ExtractError::TooLong) => Err(ReaderError::TooLong),
        Err(_) => Err(ReaderError::WriteFailed),
    }
}

/// What one document does to the file `f` and the tables `a`: the file after
/// it, and the tables or the error.
pub open spec fn ldocument_step(f: Seq<u8>, a: AssetsView, x: XmlElement, pos: int, len: int, st: Settings) -> (Seq<u8>, Result<AssetsView, ReaderError>) {
    match ldocument_result(a, x) {
        Err(e) => (f, Err(e)),
        Ok(a2) => match lwritten_back(x, st) {
            None => (f, Ok(a2)),
            Some(w) => match written_into(f, pos, len, w) {
                Ok(n) => (n, Ok(a2)),
                Err(e) => (f, Err(e)),
            },
        },
    }
}

/// Reads a document into the tables. Where asset editing is enabled, the
/// document (edited or not) is written back over its `len` bytes at `pos` of
/// the file, padded with spaces.
pub fn process_xml(settings: &Settings, assets: &mut Assets, mut xml: XmlElement, file: &mut Vec<u8>, pos: usize, len: usize) -> (r: Result<(), ReaderError>)
    requires
        pos + len <= old(file)@.len(),
    ensures
        ({
            let (f, res) = ldocument_step(old(file)@, old(assets)@, xml, pos as int, len as int, *settings);
            &&& final(file)@ == f
            &&& match res {
                Ok(a) => r is Ok && final(assets)@ == a,
                Err(e) => r == Err::<(), ReaderError>(e),
            }
        }),
{
    let ghost x0 = xml;
    if str_eq(xml.name.as_str(), "Objects") {
        objects(settings, &mut assets.objects, &mut xml)?;
    } else if str_eq(xml.name.as_str(), "GroundTypes") {
        grounds(&mut assets.hazardous_tiles, &mut assets.conveyor_tiles, &xml)?;
    } else if str_eq(xml.name.as_str(), "Enchantments") {
        enchantments(&mut assets.enchantments, &xml)?;
    } else {
        return Ok(());
    }
    proof {
        if x0.name@ == "Objects"@ {
            lemma_ledited_doc(x0, xml, *settings);
        }
    }
    if settings.edit_assets.enabled {
        match overwrite_in(file, pos, len, write_xml(&xml)) {
            Ok(()) => {},
            Err(super::extract::ExtractError::TooLong) => return Err(ReaderError::TooLong),
            Err(_) => return Err(ReaderError::WriteFailed),
        }
    }
    Ok(())
}

// ---------------------------------------------------------------- the cult staff

/// The arc gap that makes the four shots of the cult staff look 345 degrees
/// apart instead of 15.
pub open spec fn cult_staff_edited(old: XmlElement, new: XmlElement, i: int) -> bool {
    &&& same_but_children(old, new)
    &&& forall|j: int| 0 <= j < old.children@.len() && j != i ==> new.children@[j] == old.children@[j]
    &&& match (old.children@[i], new.children@[i]) {
        (XmlNode::Element(p), XmlNode::Element(q)) => {
            &&& same_but_children(p, q)
            &&& q.children@[0] matches XmlNode::Text(t) && t@ == "15"@
            &&& forall|j: int| 1 <= j < p.children@.len() ==> q.children@[j] == p.children@[j]
        },
        _ => false,
    }
}

/// Whether an object is the Staff of Unholy Sacrifice.
pub open spec fn is_cult_staff(e: XmlElement) -> bool {
    attr_value(e.attributes@, "id"@) == Some("Staff of Unholy Sacrifice"@)
}

/// What `cult_staff` does to an object: nothing, unless it is the Staff of
/// Unholy Sacrifice with an `ArcGap`, whose first node must be a text.
pub open spec fn cult_staff_of(e: XmlElement) -> Result<Option<int>, ReaderError> {
    if is_cult_staff(e) {
        match first_child(e.children@, "ArcGap"@) {
            None => Ok(None),
            Some(i) => match e.children@[i] {
                XmlNode::Element(p) => if p.children@.len() == 0 {
                    Err(ReaderError::InvalidArcGap)
                } else {
                    match p.children@[0] {
                        XmlNode::Text(_) => Ok(Some(i)),
                        _ => Err(ReaderError::InvalidArcGap),
                    }
                },
                _ => Ok(None),
            },
        }
    } else {
        Ok(None)
    }
}

/// If this object is the cult staff, sets its `ArcGap` (if it has one) to 15.
/// Returns whether it is the cult staff.
pub fn cult_staff(object: &mut XmlElement) -> (r: Result<bool, ReaderError>)
    ensures
        match cult_staff_of(*old(object)) {
            Err(x) => r == Err::<bool, ReaderError>(x),
            Ok(None) => r == Ok::<bool, ReaderError>(is_cult_staff(*old(object))) && *final(object) == *old(object),
            Ok(Some(i)) => r == Ok::<bool, ReaderError>(true) && cult_staff_edited(*old(object), *final(object), i),
        },
{
    let is_staff = match object.attr("id") {
        Some(id) => str_eq(id.as_str(), "Staff of Unholy Sacrifice"),
        None => false,
    };
    if !is_staff {
        return Ok(false);
    }
    let i = match object.child_index("ArcGap") {
        None => return Ok(true),
        Some(i) => i,
    };
    let node = object.children.remove(i);
    match node {
        XmlNode::Element(mut p) => {
            if p.children.len() == 0 {
                object.children.insert(i, XmlNode::Element(p));
                return Err(ReaderError::InvalidArcGap);
            }
            let first = p.children.remove(0);
            match first {
                XmlNode::Text(_) => {
                    p.children.insert(0, XmlNode::Text("15".to_owned()));
                    object.children.insert(i, XmlNode::Element(p));
                    assert(object.children@ =~= old(object).children@.update(i as int, object.children@[i as int]));
                    Ok(true)
                },
                other => {
                    p.children.insert(0, other);
                    object.children.insert(i, XmlNode::Element(p));
                    Err(ReaderError::InvalidArcGap)
                },
            }
        },
        other => {
            object.children.insert(i, other);
            assert(object.children@ =~= old(object).children@);
            Ok(true)
        },
    }
}


// ---------------------------------------------------------------- the assets file

/// Why the assets file could not be read.
#[derive(Debug, Clone, Copy, PartialEq, Eq, Structural)]
pub enum LoadError {
    /// The file itself is malformed.
    Read(AssetError),
    /// A document could not be read.
    Xml(ReaderError),
}

/// Calls `rand::seq::SliceRandom::shuffle` with the thread-local generator:
/// the entries in an order drawn by chance.
#[verifier::external_body]
fn shuffle_entries(v: &mut Vec<ObjectEntry>)
    ensures
        final(v)@.to_multiset() == old(v)@.to_multiset(),
{
    rand::seq::SliceRandom::shuffle(v.as_mut_slice(), &mut rand::thread_rng());
}

/// The header, type table and object table of the file, in the byte order
/// that the header names.
pub open spec fn tables_read(d: Seq<u8>) -> Result<Seq<ObjectEntry>, AssetError> {
    match spec_header(d) {
        Err(e) => Err(e),
        Ok((h, p)) => match spec_types(d, p, h.big_endian) {
            Err(e) => Err(e),
            Ok((types, q)) => spec_objects(d, q, h.big_endian, types, h.data_offset),
        },
    }
}

/// Empty tables.
pub open spec fn no_assets() -> AssetsView {
    AssetsView {
        objects: Map::empty(),
        hazardous_tiles: Map::empty(),
        conveyor_tiles: Set::empty(),
        enchantments: Map::empty(),
    }
}

/// What one object of the file does to the file `d` and the tables `a`: a text
/// asset (tagged 0) is a name, padding to a multiple of 4, then a text that,
/// where it is an XML document, is read into the tables and, where asset
/// editing is enabled, written back over its place. Other objects change
/// nothing.
pub open spec fn entry_step(d: Seq<u8>, a: AssetsView, e: ObjectEntry, be: bool, st: Settings) -> (Seq<u8>, Result<AssetsView, LoadError>) {
    if e.1 != 0 {
        (d, Ok(a))
    } else {
        match spec_asset_string(d, e.0 as int, be) {
            Err(x) => (d, Err(LoadError::Read(x))),
            Ok((_, end)) => {
                let al = align4(end);
                if !avail(d, al, 4) {
                    (d, Err(LoadError::Read(AssetError::UnexpectedEnd)))
                } else {
                    let n = uint_at(d, al, 4, be) as int;
                    if !avail(d, al + 4, n) {
                        (d, Err(LoadError::Read(AssetError::UnexpectedEnd)))
                    } else {
                        match xml_document(d.subrange(al + 4, al + 4 + n)) {
                            None => (d, Ok(a)),
                            Some(x) => {
                                let (d2, res) = ldocument_step(d, a, x, al + 4, n, st);
                                match res {
                                    Err(y) => (d2, Err(LoadError::Xml(y))),
                                    Ok(a2) => (d2, Ok(a2)),
                                }
                            },
                        }
                    }
                }
            },
        }
    }
}

/// The file and the tables after the first `k` objects of `order`, from the
/// file `d` and empty tables; the first object that fails gives the error,
/// and the file as it was then.
pub open spec fn file_state(d: Seq<u8>, order: Seq<ObjectEntry>, k: int, be: bool, st: Settings) -> (Seq<u8>, Result<AssetsView, LoadError>)
    decreases k,
{
    if k <= 0 {
        (d, Ok(no_assets()))
    } else {
        let (f, res) = file_state(d, order, k - 1, be, st);
        match res {
            Err(x) => (f, Err(x)),
            Ok(a) => entry_step(f, a, order[k - 1], be, st),
        }
    }
}

/// Once the first `k` objects fail, all of them do, with the same error and file.
proof fn lemma_file_state_err(d: Seq<u8>, order: Seq<ObjectEntry>, k: int, be: bool, st: Settings)
    requires
        0 <= k <= order.len(),
        file_state(d, order, k, be, st).1 is Err,
    ensures
        file_state(d, order, order.len() as int, be, st) == file_state(d, order, k, be, st),
    decreases order.len() - k,
{
    if k < order.len() {
        lemma_file_state_err(d, order, k + 1, be, st);
    }
}

/// What the reader gives of the file `d`, as the file `f` after it and the
/// result `r`: the objects are read in some order of the file's object table.
pub open spec fn file_read(d: Seq<u8>, st: Settings, f: Seq<u8>, r: Result<AssetsView, LoadError>) -> bool {
    match tables_read(d) {
        Err(e) => r == Err::<AssetsView, LoadError>(LoadError::Read(e)) && f == d,
        Ok(es) => exists|order: Seq<ObjectEntry>| #[trigger] order.to_multiset() == es.to_multiset()
            && file_state(d, order, order.len() as int, spec_header(d).unwrap().0.big_endian, st) == (f, r),
    }
}

/// The view of the reader's result.
pub open spec fn load_view(r: Result<Assets, LoadError>) -> Result<AssetsView, LoadError> {
    match r {
        Ok(a) => Ok(a@),
        Err(e) => Err(e),
    }
}

/// Reads the objects of the file `data` in the order `order`, with the byte
/// order `be`: every text asset that is an XML document goes through
/// `process_xml`; where asset editing is enabled, the documents are written
/// back into `data`.
#[verifier::spinoff_prover]
#[verifier::rlimit(80)]
pub fn read_in_order(settings: &Settings, data: &mut Vec<u8>, be: bool, order: &Vec<ObjectEntry>) -> (r: Result<Assets, LoadError>)
    requires
        old(data)@.len() <= i64::MAX,
    ensures
        final(data)@.len() == old(data)@.len(),
        !settings.edit_assets.enabled ==> final(data)@ == old(data)@,
        file_state(old(data)@, order@, order@.len() as int, be, *settings) == (final(data)@, load_view(r)),
{
    let ghost d0 = data@;
    let dlen = data.len();
    let objects = order;
    let ghost ord = objects@;
    let ghost on = settings.edit_assets.enabled;
    let mut assets = Assets::new();
    let mut i: usize = 0;
    while i < objects.len()
        invariant
            i <= objects@.len(),
            objects@ == ord,
            ord == order@,
            on == settings.edit_assets.enabled,
            data@.len() == dlen,
            dlen == d0.len(),
            d0 == old(data)@,
            dlen <= i64::MAX,
            !on ==> data@ == d0,
            file_state(d0, ord, i as int, be, *settings) == (data@, Ok::<AssetsView, LoadError>(assets@)),
        decreases objects.len() - i,
    {
        let (start, kind) = objects[i];
        if kind == 0 {
            let (_name, e) = match read_asset_string(data.as_slice(), start, be) {
                Ok(x) => x,
                Err(x) => {
                    proof {
                        lemma_file_state_err(d0, ord, i + 1, be, *settings);
                    }
                    return Err(LoadError::Read(x));
                },
            };
            let a = align_stream(e);
            let n = match u32_at(data.as_slice(), a, be) {
                Ok(n) => n,
                Err(x) => {
                    proof {
                        lemma_file_state_err(d0, ord, i + 1, be, *settings);
                    }
                    return Err(LoadError::Read(x));
                },
            };
            let pstart = a + 4;
            if !has_bytes(data.as_slice(), pstart, n as u64) {
                proof {
                    lemma_file_state_err(d0, ord, i + 1, be, *settings);
                }
                return Err(LoadError::Read(AssetError::UnexpectedEnd));
            }
            let doc = parse_xml(vstd::slice::slice_subrange(data.as_slice(), pstart as usize, (pstart + n as u64) as usize));
            match doc {
                None => {},
                Some(xml) => {
                    match process_xml(settings, &mut assets, xml, data, pstart as usize, n as usize) {
                        Ok(()) => {},
                        Err(x) => {
                            proof {
                                lemma_file_state_err(d0, ord, i + 1, be, *settings);
                            }
                            return Err(LoadError::Xml(x));
                        },
                    }
                },
            }
        }
        i += 1;
    }
    Ok(assets)
}

/// Reads the assets file: every text asset that is an XML document goes
/// through `process_xml`, in an order drawn by chance (which only matters
/// where two documents define the same type). Where asset editing is
/// enabled, the documents are written back into `data`.
pub fn handle_assets(settings: &Settings, data: &mut Vec<u8>) -> (r: Result<Assets, LoadError>)
    requires
        old(data)@.len() <= i64::MAX,
    ensures
        final(data)@.len() == old(data)@.len(),
        !settings.edit_assets.enabled ==> final(data)@ == old(data)@,
        file_read(old(data)@, *settings, final(data)@, load_view(r)),
{
    let ghost d0 = data@;
    let dlen = data.len();
    let (header, p) = match read_header(data.as_slice()) {
        Ok(x) => x,
        Err(e) => return Err(LoadError::Read(e)),
    };
    let be = header.big_endian;
    let (types, q) = match read_types(data.as_slice(), p, be) {
        Ok(x) => x,
        Err(e) => return Err(LoadError::Read(e)),
    };
    let mut objects = match read_objects(data.as_slice(), q, be, &types, header.data_offset) {
        Ok(x) => x,
        Err(e) => return Err(LoadError::Read(e)),
    };
    let ghost es = objects@;
    assert(tables_read(d0) == Ok::<Seq<ObjectEntry>, AssetError>(es));
    shuffle_entries(&mut objects);
    let r = read_in_order(settings, data, be, &objects);
    proof {
        assert(objects@.to_multiset() == es.to_multiset());
    }
    r
}


/// Law: unless the user forces the removal of debuffs, reading a projectile
/// leaves its element as it was; in any case it only ever loses children.
pub proof fn law_projectile_edits_only_when_forced(s: Seq<XmlNode>, st: Settings)
    ensures
        proj_kept(s, st).len() <= s.len(),
        !st.edit_assets.force_debuffs ==> proj_kept(s, st) == s,
    decreases s.len(),
{
    if s.len() > 0 {
        law_projectile_edits_only_when_forced(s.drop_first(), st);
        if !st.edit_assets.force_debuffs {
            assert(seq![s[0]] + s.drop_first() =~= s);
        }
    }
}
} // verus!
