//! The projectile reader of the assets: goes through the text assets of the
//! assets file one by one and reads the projectiles of objects and the
//! hazardous and pushing grounds, which are what the autonexus and antipush
//! modules use. Where the user asked for it, client-side debuffs are taken
//! out of the projectiles in a copy of the file.

use vstd::prelude::*;
use std::collections::{BTreeMap, BTreeSet};
use super::ProjectileInfo;
use super::raw_parse::{
    align4, align_stream, avail, has_bytes, read_asset_string, read_header, read_objects, read_types,
    spec_asset_string, spec_header, spec_objects, spec_types, AssetError, ObjectEntry,
};
use super::xml::{parse_xml, xml_document};
use crate::config::Settings;
use super::process::objects::disabled_debuff;
use super::xml::{
    has_child_named, lemma_first_child_some,
    attr_value, element_view, first_child, lemma_same_element, node_view, write_xml, xml_written, XmlElement,
    XmlElementView, XmlNode,
};
use crate::config::Debuffs;
use crate::text::{parse_i64, parse_integer, parse_u32_radix, starts_with, str_eq};
use vstd::string::StrSliceExecFns;

verus! {

broadcast use vstd::std_specs::btree::group_btree_axioms, vstd::laws_cmp::group_laws_cmp;

/// What the projectile reader gives.
pub struct ExtractedAssets {
    /// Object type to its projectiles by projectile type.
    pub projectiles: BTreeMap<u32, BTreeMap<u32, ProjectileInfo>>,
    /// Ground type to the damage it deals.
    pub hazardous_grounds: BTreeMap<u32, i64>,
    /// Grounds that push the player, like conveyors.
    pub pushing_grounds: BTreeSet<u32>,
}

/// The tables, in specifications.
pub struct ExtractedView {
    pub projectiles: Map<u32, Map<u32, ProjectileInfo>>,
    pub hazardous_grounds: Map<u32, i64>,
    pub pushing_grounds: Set<u32>,
}

pub open spec fn projectile_tables_view(m: Map<u32, BTreeMap<u32, ProjectileInfo>>) -> Map<u32, Map<u32, ProjectileInfo>> {
    m.map_values(|t: BTreeMap<u32, ProjectileInfo>| t@)
}

impl View for ExtractedAssets {
    type V = ExtractedView;

    open spec fn view(&self) -> ExtractedView {
        ExtractedView {
            projectiles: projectile_tables_view(self.projectiles@),
            hazardous_grounds: self.hazardous_grounds@,
            pushing_grounds: self.pushing_grounds@,
        }
    }
}

/// Why a document could not be read; the document is then skipped.
#[derive(Debug, Clone, Copy, PartialEq, Eq, Structural)]
pub enum ExtractError {
    /// An object or ground has no `type`.
    MissingType,
    /// A type is not `0x` and hexadecimal digits.
    InvalidType,
    /// A projectile's `id` is no `u32`.
    InvalidProjectileId,
    /// A condition effect holds more or less than one text.
    InvalidConditionEffect,
    /// A ground's `MaxDamage` is not one text with an `i64`.
    InvalidGroundDamage,
    /// The text asset is no XML document.
    NotXml,
    /// The edited document could not be written.
    WriteFailed,
    /// The edited document is longer than the unedited one.
    TooLong,
}

/// The number that a type attribute spells: `0x` and hexadecimal digits.
pub open spec fn hex_type(t: Seq<char>) -> Option<u32> {
    if "0x"@.is_prefix_of(t) {
        match parse_integer(t.skip(2), 16, 0, u32::MAX as int) {
            Some(v) => Some(v as u32),
            None => None,
        }
    } else {
        None
    }
}

/// Reads a type attribute.
pub fn parse_hex_type(t: &str) -> (r: Result<u32, ExtractError>)
    ensures
        match hex_type(t@) {
            Some(v) => r == Ok::<u32, ExtractError>(v),
            None => r == Err::<u32, ExtractError>(ExtractError::InvalidType),
        },
{
    if !starts_with(t, "0x") {
        return Err(ExtractError::InvalidType);
    }
    proof {
        reveal_strlit("0x");
    }
    let rest = t.substring_char(2, t.unicode_len());
    proof {
        assert(rest@ =~= t@.skip(2));
    }
    match parse_u32_radix(rest, 16) {
        Some(v) => Ok(v),
        None => Err(ExtractError::InvalidType),
    }
}

/// The text of an element that holds exactly one text node.
pub open spec fn single_text(e: XmlElement) -> Option<Seq<char>> {
    if e.children@.len() == 1 {
        match e.children@[0] {
            XmlNode::Text(t) => Some(t@),
            _ => None,
        }
    } else {
        None
    }
}

fn get_single_text(e: &XmlElement) -> (r: Option<&String>)
    ensures
        match single_text(*e) {
            Some(t) => r matches Some(x) && x@ == t,
            None => r is None,
        },
{
    if e.children.len() != 1 {
        return None;
    }
    match &e.children[0] {
        XmlNode::Text(t) => Some(t),
        _ => None,
    }
}

/// The flags that a condition effect sets.
pub open spec fn with_condition(v: ProjectileInfo, c: Seq<char>) -> ProjectileInfo {
    if c == "Curse"@ {
        ProjectileInfo { inflicts_cursed: true, ..v }
    } else if c == "Exposed"@ {
        ProjectileInfo { inflicts_exposed: true, ..v }
    } else if c == "Sick"@ {
        ProjectileInfo { inflicts_sick: true, ..v }
    } else if c == "Bleeding"@ {
        ProjectileInfo { inflicts_bleeding: true, ..v }
    } else if c == "Armor Broken"@ {
        ProjectileInfo { inflicts_armor_broken: true, ..v }
    } else {
        v
    }
}

pub open spec fn no_effects() -> ProjectileInfo {
    ProjectileInfo {
        armor_piercing: false,
        inflicts_cursed: false,
        inflicts_exposed: false,
        inflicts_sick: false,
        inflicts_bleeding: false,
        inflicts_armor_broken: false,
    }
}

/// One parameter of a projectile, read.
pub open spec fn extract_step(v: ProjectileInfo, n: XmlNode) -> Result<ProjectileInfo, ExtractError> {
    match n {
        XmlNode::Element(p) => if p.name@ == "ArmorPiercing"@ {
            Ok(ProjectileInfo { armor_piercing: true, ..v })
        } else if p.name@ == "ConditionEffect"@ {
            match single_text(p) {
                None => Err(ExtractError::InvalidConditionEffect),
                Some(c) => Ok(with_condition(v, c)),
            }
        } else {
            Ok(v)
        },
        _ => Ok(v),
    }
}

/// The parameters of a projectile from index `k` on, read from the last.
pub open spec fn extract_scan(s: Seq<XmlNode>, k: int) -> Result<ProjectileInfo, ExtractError>
    decreases s.len() - k,
{
    if k >= s.len() || k < 0 {
        Ok(no_effects())
    } else {
        match extract_scan(s, k + 1) {
            Err(x) => Err(x),
            Ok(v) => extract_step(v, s[k]),
        }
    }
}

/// Whether a parameter of a projectile is taken out.
pub open spec fn extract_removed(n: XmlNode, force: bool, d: Debuffs) -> bool {
    &&& n matches XmlNode::Element(p)
    &&& p.name@ == "ConditionEffect"@
    &&& single_text(p) matches Some(c)
    &&& force
    &&& disabled_debuff(c, d)
}

/// The parameters that stay.
pub open spec fn extract_kept(s: Seq<XmlNode>, force: bool, d: Debuffs) -> Seq<XmlNode>
    decreases s.len(),
{
    if s.len() == 0 {
        Seq::empty()
    } else {
        (if extract_removed(s[0], force, d) { Seq::empty() } else { seq![s[0]] }) + extract_kept(s.drop_first(), force, d)
    }
}

/// A `Projectile` element read: its id (or the count of projectiles before
/// it) and its flags.
pub open spec fn extract_projectile(p: XmlElement, counter: u32) -> Result<(u32, ProjectileInfo), ExtractError> {
    let id = match attr_value(p.attributes@, "id"@) {
        None => Ok(counter),
        Some(s) => match parse_integer(s, 10, 0, u32::MAX as int) {
            Some(v) => Ok(v as u32),
            None => Err(ExtractError::InvalidProjectileId),
        },
    };
    match id {
        Err(x) => Err(x),
        Ok(id) => match extract_scan(p.children@, 0) {
            Err(x) => Err(x),
            Ok(info) => Ok((id, info)),
        },
    }
}

/// The projectile element after it was read.
pub open spec fn extract_projectile_edited(old: XmlElement, new: XmlElement, force: bool, d: Debuffs) -> bool {
    &&& new.prefix == old.prefix
    &&& new.namespace == old.namespace
    &&& new.namespaces == old.namespaces
    &&& new.name == old.name
    &&& new.attributes == old.attributes
    &&& new.children@ == extract_kept(old.children@, force, d)
}

proof fn lemma_extract_kept_step(s: Seq<XmlNode>, i: int, force: bool, d: Debuffs)
    requires
        0 <= i < s.len(),
    ensures
        extract_kept(s.skip(i), force, d) == (if extract_removed(s[i], force, d) { Seq::empty() } else { seq![s[i]] })
            + extract_kept(s.skip(i + 1), force, d),
{
    assert(s.skip(i).drop_first() =~= s.skip(i + 1));
    assert(s.skip(i)[0] == s[i]);
}

proof fn lemma_extract_scan_err(s: Seq<XmlNode>, k: int)
    requires
        0 <= k < s.len(),
        extract_scan(s, k) is Err,
    ensures
        extract_scan(s, 0) == extract_scan(s, k),
    decreases k,
{
    if k > 0 {
        lemma_extract_scan_err(s, k - 1);
    }
}

fn set_condition(v: &mut ProjectileInfo, c: &str)
    ensures
        *final(v) == with_condition(*old(v), c@),
{
    if str_eq(c, "Curse") {
        v.inflicts_cursed = true;
    } else if str_eq(c, "Exposed") {
        v.inflicts_exposed = true;
    } else if str_eq(c, "Sick") {
        v.inflicts_sick = true;
    } else if str_eq(c, "Bleeding") {
        v.inflicts_bleeding = true;
    } else if str_eq(c, "Armor Broken") {
        v.inflicts_armor_broken = true;
    }
}

/// Reads a `Projectile` element of an object; where `force` holds, the
/// disabled debuffs are taken out of it.
pub fn extract_parse_projectile(force: bool, debuffs: &Debuffs, param: &mut XmlElement, counter: u32) -> (r: Result<(u32, ProjectileInfo), ExtractError>)
    ensures
        r == extract_projectile(*old(param), counter),
        r is Ok ==> extract_projectile_edited(*old(param), *final(param), force, *debuffs),
{
    let id = match param.attr("id") {
        None => counter,
        Some(s) => match parse_u32_radix(s.as_str(), 10) {
            Some(v) => v,
            None => return Err(ExtractError::InvalidProjectileId),
        },
    };
    let ghost s0 = param.children@;
    let ghost d = *debuffs;
    let mut info = ProjectileInfo {
        armor_piercing: false,
        inflicts_cursed: false,
        inflicts_exposed: false,
        inflicts_sick: false,
        inflicts_bleeding: false,
        inflicts_armor_broken: false,
    };
    let mut i: usize = param.children.len();
    assert(s0.take(i as int) =~= s0);
    assert(s0.skip(i as int) =~= Seq::<XmlNode>::empty());
    while i > 0
        invariant
            i <= s0.len(),
            d == *debuffs,
            param.prefix == old(param).prefix,
            param.namespace == old(param).namespace,
            param.namespaces == old(param).namespaces,
            param.name == old(param).name,
            param.attributes == old(param).attributes,
            s0 == old(param).children@,
            extract_projectile(*old(param), counter) == match extract_scan(s0, 0) {
                Err(x) => Err(x),
                Ok(v) => Ok((id, v)),
            },
            param.children@ == s0.take(i as int) + extract_kept(s0.skip(i as int), force, d),
            extract_scan(s0, i as int) == Ok::<ProjectileInfo, ExtractError>(info),
        decreases i,
    {
        i -= 1;
        proof {
            lemma_extract_kept_step(s0, i as int, force, d);
            assert(param.children@[i as int] == s0[i as int]);
            assert(s0.take(i + 1) =~= s0.take(i as int).push(s0[i as int]));
        }
        let mut remove = false;
        match &param.children[i] {
            XmlNode::Element(p) => {
                if str_eq(p.name.as_str(), "ArmorPiercing") {
                    proof {
                        reveal_strlit("ArmorPiercing");
                        reveal_strlit("ConditionEffect");
                        assert("ArmorPiercing"@[0] != "ConditionEffect"@[0]);
                    }
                    info.armor_piercing = true;
                } else if str_eq(p.name.as_str(), "ConditionEffect") {
                    match get_single_text(p) {
                        None => {
                            proof {
                                lemma_extract_scan_err(s0, i as int);
                            }
                            return Err(ExtractError::InvalidConditionEffect);
                        },
                        Some(c) => {
                            set_condition(&mut info, c.as_str());
                            if force && disabled_debuff_exec(c.as_str(), debuffs) {
                                remove = true;
                            }
                        },
                    }
                }
            },
            _ => {},
        }
        if remove {
            assert(extract_removed(s0[i as int], force, d));
            let _ = param.children.remove(i);
            assert(param.children@ =~= s0.take(i as int) + extract_kept(s0.skip(i as int), force, d));
        } else {
            assert(!extract_removed(s0[i as int], force, d));
            assert(param.children@ =~= s0.take(i as int) + extract_kept(s0.skip(i as int), force, d));
        }
    }
    assert(s0.skip(0) =~= s0);
    assert(s0.take(0) =~= Seq::<XmlNode>::empty());
    assert(param.children@ =~= extract_kept(s0, force, d));
    Ok((id, info))
}

fn disabled_debuff_exec(c: &str, d: &Debuffs) -> (r: bool)
    ensures
        r == disabled_debuff(c@, *d),
{
    (str_eq(c, "Blind") && d.blind) || (str_eq(c, "Hallucinating") && d.hallucinating) || (str_eq(c, "Drunk")
        && d.drunk) || (str_eq(c, "Confused") && d.confused) || (str_eq(c, "Unstable") && d.unstable)
        || (str_eq(c, "Darkness") && d.darkness)
}


/// The projectiles of an object read so far, and how many were counted.
pub struct ExtractObjScan {
    pub projectiles: Map<u32, ProjectileInfo>,
    pub counter: u32,
}

pub open spec fn extract_object_step(v: ExtractObjScan, n: XmlNode) -> Result<ExtractObjScan, ExtractError> {
    match n {
        XmlNode::Element(p) => if p.name@ == "Projectile"@ {
            match extract_projectile(p, v.counter) {
                Err(x) => Err(x),
                Ok((id, info)) => Ok(ExtractObjScan {
                    projectiles: v.projectiles.insert(id, info),
                    counter: v.counter.wrapping_add(1),
                }),
            }
        } else {
            Ok(v)
        },
        _ => Ok(v),
    }
}

/// The first `k` parameters of an object, read in order.
pub open spec fn extract_object_scan(s: Seq<XmlNode>, k: int) -> Result<ExtractObjScan, ExtractError>
    decreases k,
{
    if k <= 0 {
        Ok(ExtractObjScan { projectiles: Map::empty(), counter: 0 })
    } else {
        match extract_object_scan(s, k - 1) {
            Err(x) => Err(x),
            Ok(v) => extract_object_step(v, s[k - 1]),
        }
    }
}

/// An `Object` element read: its type and projectiles, if it has any.
pub open spec fn extract_object(e: XmlElement) -> Result<Option<(u32, Map<u32, ProjectileInfo>)>, ExtractError> {
    match attr_value(e.attributes@, "type"@) {
        None => Err(ExtractError::MissingType),
        Some(t) => match hex_type(t) {
            None => Err(ExtractError::InvalidType),
            Some(kind) => match extract_object_scan(e.children@, e.children@.len() as int) {
                Err(x) => Err(x),
                Ok(v) => if v.projectiles.is_empty() { Ok(None) } else { Ok(Some((kind, v.projectiles))) },
            },
        },
    }
}

/// A child of an object after it was read: projectiles are edited.
pub open spec fn extract_child_edited(old: XmlNode, new: XmlNode, force: bool, d: Debuffs) -> bool {
    match old {
        XmlNode::Element(p) => if p.name@ == "Projectile"@ {
            new matches XmlNode::Element(q) && extract_projectile_edited(p, q, force, d)
        } else {
            new == old
        },
        _ => new == old,
    }
}

/// An element whose children changed by `f`, all else the same.
pub open spec fn same_but_children(old: XmlElement, new: XmlElement) -> bool {
    &&& new.prefix == old.prefix
    &&& new.namespace == old.namespace
    &&& new.namespaces == old.namespaces
    &&& new.name == old.name
    &&& new.attributes == old.attributes
    &&& new.children@.len() == old.children@.len()
}

pub open spec fn extract_object_edited(old: XmlElement, new: XmlElement, force: bool, d: Debuffs) -> bool {
    &&& same_but_children(old, new)
    &&& forall|i: int| 0 <= i < old.children@.len() ==> extract_child_edited(old.children@[i], #[trigger] new.children@[i], force, d)
}

proof fn lemma_extract_object_err(s: Seq<XmlNode>, k: int)
    requires
        0 <= k <= s.len(),
        extract_object_scan(s, k) is Err,
    ensures
        extract_object_scan(s, s.len() as int) == extract_object_scan(s, k),
    decreases s.len() - k,
{
    if k < s.len() {
        lemma_extract_object_err(s, k + 1);
    }
}

/// Reads an `Object` element: its type, and its projectiles by id (or by
/// their count where they have none).
#[verifier::spinoff_prover]
#[verifier::rlimit(50)]
pub fn extract_parse_object(force: bool, debuffs: &Debuffs, object: &mut XmlElement) -> (r: Result<Option<(u32, BTreeMap<u32, ProjectileInfo>)>, ExtractError>)
    ensures
        match extract_object(*old(object)) {
            Err(x) => r == Err::<Option<(u32, BTreeMap<u32, ProjectileInfo>)>, ExtractError>(x),
            Ok(None) => r matches Ok(None) && extract_object_edited(*old(object), *final(object), force, *debuffs),
            Ok(Some((k, m))) => r matches Ok(Some((k2, m2))) && k2 == k && m2@ == m
                && extract_object_edited(*old(object), *final(object), force, *debuffs),
        },
{
    let kind = match object.attr("type") {
        None => return Err(ExtractError::MissingType),
        Some(t) => parse_hex_type(t.as_str())?,
    };
    let ghost s0 = object.children@;
    let ghost e0 = *object;
    let ghost d = *debuffs;
    let mut projectiles: BTreeMap<u32, ProjectileInfo> = BTreeMap::new();
    let mut counter: u32 = 0;
    let mut i: usize = 0;
    while i < object.children.len()
        invariant
            i <= s0.len(),
            s0.len() == object.children@.len(),
            d == *debuffs,
            e0 == *old(object),
            s0 == e0.children@,
            extract_object(e0) == match extract_object_scan(s0, s0.len() as int) {
                Err(x) => Err(x),
                Ok(v) => if v.projectiles.is_empty() { Ok(None) } else { Ok(Some((kind, v.projectiles))) },
            },
            object.prefix == e0.prefix,
            object.namespace == e0.namespace,
            object.namespaces == e0.namespaces,
            object.name == e0.name,
            object.attributes == e0.attributes,
            forall|j: int| 0 <= j < i ==> extract_child_edited(s0[j], #[trigger] object.children@[j], force, d),
            forall|j: int| i <= j < s0.len() ==> object.children@[j] == s0[j],
            extract_object_scan(s0, i as int) == Ok::<ExtractObjScan, ExtractError>(
                ExtractObjScan { projectiles: projectiles@, counter },
            ),
        decreases s0.len() - i,
    {
        let node = object.children.remove(i);
        assert(node == s0[i as int]);
        match node {
            XmlNode::Element(mut p) => {
                if str_eq(p.name.as_str(), "Projectile") {
                    let res = extract_parse_projectile(force, debuffs, &mut p, counter);
                    object.children.insert(i, XmlNode::Element(p));
                    match res {
                        Err(x) => {
                            proof {
                                lemma_extract_object_err(s0, i + 1);
                            }
                            return Err(x);
                        },
                        Ok((id, info)) => {
                            projectiles.insert(id, info);
                            counter = counter.wrapping_add(1);
                        },
                    }
                } else {
                    object.children.insert(i, XmlNode::Element(p));
                }
            },
            other => {
                object.children.insert(i, other);
            },
        }
        i += 1;
    }
    if projectiles.is_empty() {
        Ok(None)
    } else {
        Ok(Some((kind, projectiles)))
    }
}

/// The projectile table after the first `k` children of an `Objects`
/// document, and the error that stopped the reading, if one did. Objects
/// read before an error stay in the table.
pub open spec fn extract_objects_fold(m: Map<u32, Map<u32, ProjectileInfo>>, s: Seq<XmlNode>, k: int) -> (Map<u32, Map<u32, ProjectileInfo>>, Option<ExtractError>)
    decreases k,
{
    if k <= 0 {
        (m, None)
    } else {
        let (m2, e) = extract_objects_fold(m, s, k - 1);
        if e is Some {
            (m2, e)
        } else {
            match s[k - 1] {
                XmlNode::Element(o) => if o.name@ == "Object"@ {
                    match extract_object(o) {
                        Err(x) => (m2, Some(x)),
                        Ok(None) => (m2, None),
                        Ok(Some((kind, p))) => (m2.insert(kind, p), None),
                    }
                } else {
                    (m2, None)
                },
                _ => (m2, None),
            }
        }
    }
}

pub open spec fn extract_doc_child_edited(old: XmlNode, new: XmlNode, force: bool, d: Debuffs) -> bool {
    match old {
        XmlNode::Element(o) => if o.name@ == "Object"@ {
            new matches XmlNode::Element(q) && extract_object_edited(o, q, force, d)
        } else {
            new == old
        },
        _ => new == old,
    }
}

/// An `Objects` document after it was read without error.
pub open spec fn extract_doc_edited(old: XmlElement, new: XmlElement, force: bool, d: Debuffs) -> bool {
    &&& same_but_children(old, new)
    &&& forall|i: int| 0 <= i < old.children@.len() ==> extract_doc_child_edited(old.children@[i], #[trigger] new.children@[i], force, d)
}

proof fn lemma_extract_fold_err(m: Map<u32, Map<u32, ProjectileInfo>>, s: Seq<XmlNode>, k: int)
    requires
        0 <= k <= s.len(),
        extract_objects_fold(m, s, k).1 is Some,
    ensures
        extract_objects_fold(m, s, s.len() as int) == extract_objects_fold(m, s, k),
    decreases s.len() - k,
{
    if k < s.len() {
        lemma_extract_fold_err(m, s, k + 1);
    }
}

/// What reading leaves of a projectile element fixes it by value.
proof fn lemma_extract_projectile_unique(p: XmlElement, a: XmlElement, b: XmlElement, force: bool, d: Debuffs)
    requires
        extract_projectile_edited(p, a, force, d),
        extract_projectile_edited(p, b, force, d),
    ensures
        element_view(a) == element_view(b),
{
    lemma_same_element(a, b);
}

/// What reading leaves of an object element fixes it by value.
proof fn lemma_extract_object_unique(o: XmlElement, a: XmlElement, b: XmlElement, force: bool, d: Debuffs)
    requires
        extract_object_edited(o, a, force, d),
        extract_object_edited(o, b, force, d),
    ensures
        element_view(a) == element_view(b),
{
    assert forall|i: int| 0 <= i < a.children@.len() implies node_view(#[trigger] a.children@[i]) == node_view(b.children@[i]) by {
        assert(extract_child_edited(o.children@[i], a.children@[i], force, d));
        assert(extract_child_edited(o.children@[i], b.children@[i], force, d));
        if let XmlNode::Element(p) = o.children@[i] {
            if p.name@ == "Projectile"@ {
                if let XmlNode::Element(x) = a.children@[i] {
                    if let XmlNode::Element(y) = b.children@[i] {
                        lemma_extract_projectile_unique(p, x, y, force, d);
                    }
                }
            }
        }
    }
    lemma_same_element(a, b);
}

/// What reading leaves of an `Objects` document fixes it by value.
proof fn lemma_extract_doc_unique(x: XmlElement, a: XmlElement, b: XmlElement, force: bool, d: Debuffs)
    requires
        extract_doc_edited(x, a, force, d),
        extract_doc_edited(x, b, force, d),
    ensures
        element_view(a) == element_view(b),
{
    assert forall|i: int| 0 <= i < a.children@.len() implies node_view(#[trigger] a.children@[i]) == node_view(b.children@[i]) by {
        assert(extract_doc_child_edited(x.children@[i], a.children@[i], force, d));
        assert(extract_doc_child_edited(x.children@[i], b.children@[i], force, d));
        if let XmlNode::Element(o) = x.children@[i] {
            if o.name@ == "Object"@ {
                if let XmlNode::Element(p) = a.children@[i] {
                    if let XmlNode::Element(q) = b.children@[i] {
                        lemma_extract_object_unique(o, p, q, force, d);
                    }
                }
            }
        }
    }
    lemma_same_element(a, b);
}

/// An `Objects` document as reading it edits it, by value, where the
/// disabled debuffs `d` are taken out.
/// `extract_doc_edited` fixes what reading leaves up to its value
/// (`lemma_extract_edited_doc`), so any element that it relates to the
/// document stands for it.
pub open spec fn extract_edited_doc(x: XmlElement, d: Debuffs) -> XmlElementView {
    element_view(choose|e: XmlElement| extract_doc_edited(x, e, true, d))
}

proof fn lemma_extract_edited_doc(x: XmlElement, e: XmlElement, d: Debuffs)
    requires
        extract_doc_edited(x, e, true, d),
    ensures
        element_view(e) == extract_edited_doc(x, d),
{
    let c = choose|y: XmlElement| extract_doc_edited(x, y, true, d);
    lemma_extract_doc_unique(x, e, c, true, d);
}

/// Reads the projectiles of every object of an `Objects` document. An error
/// stops the reading; what was read before it stays in the table.
#[verifier::spinoff_prover]
#[verifier::rlimit(50)]
pub fn process_xml_objects(force: bool, debuffs: &Debuffs, assets: &mut ExtractedAssets, xml: &mut XmlElement) -> (r: Result<(), ExtractError>)
    ensures
        ({
            let (m, e) = extract_objects_fold(old(assets)@.projectiles, old(xml).children@, old(xml).children@.len() as int);
            &&& final(assets)@.projectiles == m
            &&& final(assets)@.hazardous_grounds == old(assets)@.hazardous_grounds
            &&& final(assets)@.pushing_grounds == old(assets)@.pushing_grounds
            &&& match e {
                Some(x) => r == Err::<(), ExtractError>(x),
                None => r is Ok && extract_doc_edited(*old(xml), *final(xml), force, *debuffs),
            }
        }),
{
    let ghost s0 = xml.children@;
    let ghost d = *debuffs;
    let ghost m0 = old(assets)@.projectiles;
    let mut i: usize = 0;
    while i < xml.children.len()
        invariant
            i <= s0.len(),
            s0.len() == xml.children@.len(),
            s0 == old(xml).children@,
            d == *debuffs,
            m0 == old(assets)@.projectiles,
            assets@.hazardous_grounds == old(assets)@.hazardous_grounds,
            assets@.pushing_grounds == old(assets)@.pushing_grounds,
            same_but_children(*old(xml), *xml),
            forall|j: int| 0 <= j < i ==> extract_doc_child_edited(s0[j], #[trigger] xml.children@[j], force, d),
            forall|j: int| i <= j < s0.len() ==> xml.children@[j] == s0[j],
            extract_objects_fold(m0, s0, i as int) == (assets@.projectiles, None::<ExtractError>),
        decreases s0.len() - i,
    {
        let node = xml.children.remove(i);
        assert(node == s0[i as int]);
        match node {
            XmlNode::Element(mut o) => {
                if str_eq(o.name.as_str(), "Object") {
                    let res = extract_parse_object(force, debuffs, &mut o);
                    xml.children.insert(i, XmlNode::Element(o));
                    match res {
                        Err(x) => {
                            proof {
                                lemma_extract_fold_err(m0, s0, i + 1);
                            }
                            return Err(x);
                        },
                        Ok(None) => {},
                        Ok(Some((kind, p))) => {
                            let ghost pv = p@;
                            let ghost before = assets.projectiles@;
                            assets.projectiles.insert(kind, p);
                            assert(projectile_tables_view(assets.projectiles@) =~= projectile_tables_view(before).insert(kind, pv));
                        },
                    }
                } else {
                    xml.children.insert(i, XmlNode::Element(o));
                }
            },
            other => {
                xml.children.insert(i, other);
            },
        }
        i += 1;
    }
    Ok(())
}


// ---------------------------------------------------------------- grounds

/// Law: a ground that reads pushes exactly when one of its children is a
/// `Push` element.
pub proof fn law_pushing_grounds(e: XmlElement)
    ensures
        extract_ground(e) matches Ok((_, _, push)) ==> (push <==> has_child_named(e.children@, "Push"@)),
{
    lemma_first_child_some(e.children@, "Push"@);
}

/// A `Ground` element read: its type, its damage if it has a `MaxDamage`, and
/// whether it pushes.
pub open spec fn extract_ground(e: XmlElement) -> Result<(u32, Option<i64>, bool), ExtractError> {
    match attr_value(e.attributes@, "type"@) {
        None => Err(ExtractError::MissingType),
        Some(t) => match hex_type(t) {
            None => Err(ExtractError::InvalidType),
            Some(kind) => {
                let damage = match first_child(e.children@, "MaxDamage"@) {
                    None => Ok(None),
                    Some(i) => match e.children@[i] {
                        XmlNode::Element(p) => match single_text(p) {
                            None => Err(ExtractError::InvalidGroundDamage),
                            Some(t) => match parse_integer(t, 10, i64::MIN as int, i64::MAX as int) {
                                Some(v) => Ok(Some(v as i64)),
                                None => Err(ExtractError::InvalidGroundDamage),
                            },
                        },
                        _ => Ok(None),
                    },
                };
                match damage {
                    Err(x) => Err(x),
                    Ok(damage) => Ok((kind, damage, first_child(e.children@, "Push"@) is Some)),
                }
            },
        },
    }
}

/// The ground tables after the first `k` children of a `GroundTypes`
/// document, and the error that stopped the reading, if one did.
pub open spec fn extract_grounds_fold(h: Map<u32, i64>, ps: Set<u32>, s: Seq<XmlNode>, k: int) -> (Map<u32, i64>, Set<u32>, Option<ExtractError>)
    decreases k,
{
    if k <= 0 {
        (h, ps, None)
    } else {
        let (h2, p2, e) = extract_grounds_fold(h, ps, s, k - 1);
        if e is Some {
            (h2, p2, e)
        } else {
            match s[k - 1] {
                XmlNode::Element(g) => if g.name@ == "Ground"@ {
                    match extract_ground(g) {
                        Err(x) => (h2, p2, Some(x)),
                        Ok((kind, damage, push)) => (
                            match damage { Some(d) => h2.insert(kind, d), None => h2 },
                            if push { p2.insert(kind) } else { p2 },
                            None,
                        ),
                    }
                } else {
                    (h2, p2, None)
                },
                _ => (h2, p2, None),
            }
        }
    }
}

proof fn lemma_extract_grounds_err(h: Map<u32, i64>, ps: Set<u32>, s: Seq<XmlNode>, k: int)
    requires
        0 <= k <= s.len(),
        extract_grounds_fold(h, ps, s, k).2 is Some,
    ensures
        extract_grounds_fold(h, ps, s, s.len() as int) == extract_grounds_fold(h, ps, s, k),
    decreases s.len() - k,
{
    if k < s.len() {
        lemma_extract_grounds_err(h, ps, s, k + 1);
    }
}

/// Reads a `Ground` element.
pub fn extract_parse_ground(ground: &XmlElement) -> (r: Result<(u32, Option<i64>, bool), ExtractError>)
    ensures
        r == extract_ground(*ground),
{
    let kind = match ground.attr("type") {
        None => return Err(ExtractError::MissingType),
        Some(t) => parse_hex_type(t.as_str())?,
    };
    let damage = match ground.child_index("MaxDamage") {
        None => None,
        Some(i) => match &ground.children[i] {
            XmlNode::Element(p) => match get_single_text(p) {
                None => return Err(ExtractError::InvalidGroundDamage),
                Some(t) => match parse_i64(t.as_str()) {
                    Some(v) => Some(v),
                    None => return Err(ExtractError::InvalidGroundDamage),
                },
            },
            _ => None,
        },
    };
    let push = ground.child_index("Push").is_some();
    Ok((kind, damage, push))
}

/// Reads the hazardous and pushing grounds of a `GroundTypes` document. An
/// error stops the reading; what was read before it stays.
pub fn process_xml_grounds(assets: &mut ExtractedAssets, xml: &XmlElement) -> (r: Result<(), ExtractError>)
    ensures
        ({
            let (h, ps, e) = extract_grounds_fold(
                old(assets)@.hazardous_grounds,
                old(assets)@.pushing_grounds,
                xml.children@,
                xml.children@.len() as int,
            );
            &&& final(assets)@.hazardous_grounds == h
            &&& final(assets)@.pushing_grounds == ps
            &&& final(assets)@.projectiles == old(assets)@.projectiles
            &&& match e {
                Some(x) => r == Err::<(), ExtractError>(x),
                None => r is Ok,
            }
        }),
{
    let ghost h0 = old(assets)@.hazardous_grounds;
    let ghost p0 = old(assets)@.pushing_grounds;
    let mut i: usize = 0;
    while i < xml.children.len()
        invariant
            i <= xml.children@.len(),
            h0 == old(assets)@.hazardous_grounds,
            p0 == old(assets)@.pushing_grounds,
            assets@.projectiles == old(assets)@.projectiles,
            extract_grounds_fold(h0, p0, xml.children@, i as int) == (
                assets@.hazardous_grounds,
                assets@.pushing_grounds,
                None::<ExtractError>,
            ),
        decreases xml.children.len() - i,
    {
        match &xml.children[i] {
            XmlNode::Element(g) => {
                if str_eq(g.name.as_str(), "Ground") {
                    match extract_parse_ground(g) {
                        Err(x) => {
                            proof {
                                lemma_extract_grounds_err(h0, p0, xml.children@, i + 1);
                            }
                            return Err(x);
                        },
                        Ok((kind, damage, push)) => {
                            match damage {
                                Some(d) => {
                                    assets.hazardous_grounds.insert(kind, d);
                                },
                                None => {},
                            }
                            if push {
                                assets.pushing_grounds.insert(kind);
                            }
                        },
                    }
                }
            },
            _ => {},
        }
        i += 1;
    }
    Ok(())
}

// ---------------------------------------------------------------- documents and the file

/// The file `f` with the `raw_len` bytes at `pos` replaced by the written
/// bytes, padded with spaces; longer bytes, or none, are an error.
pub open spec fn overwritten(f: Seq<u8>, pos: int, raw_len: int, written: Option<Seq<u8>>) -> Result<Seq<u8>, ExtractError> {
    match written {
        None => Err(ExtractError::WriteFailed),
        Some(w) => if w.len() > raw_len {
            Err(ExtractError::TooLong)
        } else {
            Ok(f.subrange(0, pos) + w + Seq::new((raw_len - w.len()) as nat, |i: int| 32u8) + f.subrange(pos + raw_len, f.len() as int))
        },
    }
}

/// The bytes of optional bytes.
pub open spec fn opt_bytes(v: Option<Vec<u8>>) -> Option<Seq<u8>> {
    match v {
        Some(b) => Some(b@),
        None => None,
    }
}

/// Replaces `raw_len` bytes at `pos` of the file with the written document,
/// padded with spaces. Longer or no bytes are an error and leave the file.
pub fn overwrite_in(file: &mut Vec<u8>, pos: usize, raw_len: usize, written: Option<Vec<u8>>) -> (r: Result<(), ExtractError>)
    requires
        pos + raw_len <= old(file)@.len(),
    ensures
        match overwritten(old(file)@, pos as int, raw_len as int, opt_bytes(written)) {
            Ok(n) => r is Ok && final(file)@ == n,
            Err(e) => r == Err::<(), ExtractError>(e) && final(file)@ == old(file)@,
        },
{
    let w = match written {
        None => return Err(ExtractError::WriteFailed),
        Some(w) => w,
    };
    if w.len() > raw_len {
        return Err(ExtractError::TooLong);
    }
    let ghost f0 = file@;
    let ghost region = w@ + Seq::new((raw_len - w@.len()) as nat, |i: int| 32u8);
    let mut k: usize = 0;
    while k < raw_len
        invariant
            k <= raw_len,
            pos + raw_len <= f0.len(),
            file@.len() == f0.len(),
            region.len() == raw_len,
            region == w@ + Seq::new((raw_len - w@.len()) as nat, |i: int| 32u8),
            forall|j: int| 0 <= j < pos ==> file@[j] == f0[j],
            forall|j: int| pos + raw_len <= j < f0.len() ==> file@[j] == f0[j],
            forall|j: int| pos <= j < pos + k ==> file@[j] == region[j - pos],
            forall|j: int| pos + k <= j < pos + raw_len ==> file@[j] == f0[j],
        decreases raw_len - k,
    {
        let b: u8 = if k < w.len() { w[k] } else { 32 };
        assert(b == region[k as int]);
        let flen = file.len();
        assert(pos + k < flen);
        file.set(pos + k, b);
        k += 1;
    }
    assert(file@ =~= f0.subrange(0, pos as int) + region + f0.subrange(pos + raw_len, f0.len() as int));
    Ok(())
}

/// What a document read without error is written back as, where a copy of
/// the file is edited: an `Objects` document as reading it edited it, a
/// `GroundTypes` document as it is. Other documents are not written back.
pub open spec fn written_back(x: XmlElement, d: Debuffs) -> Option<Option<Seq<u8>>> {
    if x.name@ == "Objects"@ {
        Some(xml_written(extract_edited_doc(x, d)))
    } else if x.name@ == "GroundTypes"@ {
        Some(xml_written(element_view(x)))
    } else {
        None
    }
}

/// What one document gives, read with the tables `t` and where `f` is the
/// edited copy, if any: the error that skips it, if one does, and the copy
/// after it. A document that reads without error is written back over the
/// `len` bytes at `pos` in the copy, which fails if it does not fit.
pub open spec fn doc_outcome(doc: Option<XmlElement>, t: ExtractedView, f: Option<Seq<u8>>, pos: int, len: int, d: Debuffs) -> (Option<ExtractError>, Option<Seq<u8>>) {
    match doc_error(doc, t) {
        Some(e) => (Some(e), f),
        None => match (f, doc) {
            (Some(c), Some(x)) => match written_back(x, d) {
                None => (None, f),
                Some(w) => match overwritten(c, pos, len, w) {
                    Ok(n) => (None, Some(n)),
                    Err(e) => (Some(e), f),
                },
            },
            _ => (None, f),
        },
    }
}

/// Reads one text asset that may be XML: `None` where it is no XML
/// document. `Objects` and `GroundTypes` documents are read into the tables;
/// where a copy of the file is being edited, the document is written back
/// over its place in the copy.
pub fn process_xml(
    debuffs: &Debuffs,
    assets: &mut ExtractedAssets,
    doc: Option<XmlElement>,
    file: &mut Option<Vec<u8>>,
    xml_pos: usize,
    raw_len: usize,
) -> (r: Result<(), ExtractError>)
    requires
        *old(file) matches Some(f) ==> xml_pos + raw_len <= f@.len(),
    ensures
        ({
            let (e, f) = doc_outcome(doc, old(assets)@, opt_bytes(*old(file)), xml_pos as int, raw_len as int, *debuffs);
            &&& opt_bytes(*final(file)) == f
            &&& match e {
                Some(x) => r == Err::<(), ExtractError>(x),
                None => r is Ok,
            }
        }),
        match doc {
            Some(x) => final(assets)@ == doc_tables(old(assets)@, x),
            None => final(assets)@ == old(assets)@,
        },
{
    let mut xml = match doc {
        None => return Err(ExtractError::NotXml),
        Some(x) => x,
    };
    let ghost xml0 = xml;
    let force = file.is_some();
    proof {
        reveal_strlit("Objects");
        reveal_strlit("GroundTypes");
        assert("Objects"@[0] != "GroundTypes"@[0]);
    }
    if str_eq(xml.name.as_str(), "Objects") {
        match process_xml_objects(force, debuffs, assets, &mut xml) {
            Ok(()) => {},
            Err(e) => return Err(e),
        }
    } else if str_eq(xml.name.as_str(), "GroundTypes") {
        match process_xml_grounds(assets, &xml) {
            Ok(()) => {},
            Err(e) => return Err(e),
        }
    } else {
        return Ok(());
    }
    proof {
        if xml.name@ == "Objects"@ && force {
            lemma_extract_edited_doc(xml0, xml, *debuffs);
        }
    }
    match file {
        Some(f) => overwrite_in(f, xml_pos, raw_len, write_xml(&xml)),
        None => Ok(()),
    }
}


/// The text assets that are known to be no XML.
pub open spec fn non_xml_name(n: Seq<char>) -> bool {
    n == "manifest_xml"@ || n == "COPYING"@ || n == "Errors"@ || n == "ExplainUnzip"@ || n == "cloth_bazaar"@ || n == "Cursors"@ || n == "Dialogs"@ || n == "Keyboard"@ || n == "LICENSE"@ || n == "LineBreaking Following Characters"@ || n == "LineBreaking Leading Characters"@ || n == "manifest_json"@ || n == "spritesheetf"@ || n == "iso_4217"@ || n == "data"@ || n == "manifest"@ || n == "BillingMode"@
}

/// Whether a text asset is known to be no XML.
pub fn is_non_xml(n: &str) -> (r: bool)
    ensures
        r == non_xml_name(n@),
{
    str_eq(n, "manifest_xml") || str_eq(n, "COPYING") || str_eq(n, "Errors") || str_eq(n, "ExplainUnzip") || str_eq(n, "cloth_bazaar") || str_eq(n, "Cursors") || str_eq(n, "Dialogs") || str_eq(n, "Keyboard") || str_eq(n, "LICENSE") || str_eq(n, "LineBreaking Following Characters") || str_eq(n, "LineBreaking Leading Characters") || str_eq(n, "manifest_json") || str_eq(n, "spritesheetf") || str_eq(n, "iso_4217") || str_eq(n, "data") || str_eq(n, "manifest") || str_eq(n, "BillingMode")
}

/// What the reader finds at a text asset: its name and, unless it is known
/// to be no XML, where its text lies and how long it is.
pub struct TextRead {
    pub name: Seq<char>,
    pub xml: Option<(int, int)>,
}

/// The text asset whose data starts at `start` (little endian): its name,
/// padding to a multiple of 4, then its text.
pub open spec fn read_text_asset(d: Seq<u8>, start: int) -> Result<TextRead, AssetError> {
    match spec_asset_string(d, start, false) {
        Err(e) => Err(e),
        Ok((name, e)) => {
            let a = align4(e);
            if !avail(d, e, a - e) {
                Err(AssetError::UnexpectedEnd)
            } else if non_xml_name(name) {
                Ok(TextRead { name, xml: None })
            } else {
                match spec_asset_string(d, a, false) {
                    Err(x) => Err(x),
                    Ok((_, end)) => Ok(TextRead { name, xml: Some((a + 4, end - (a + 4))) }),
                }
            }
        },
    }
}

/// The text assets among the first `k` objects, read in file order.
pub open spec fn text_reads(d: Seq<u8>, es: Seq<ObjectEntry>, k: int) -> Result<Seq<TextRead>, AssetError>
    decreases k,
{
    if k <= 0 {
        Ok(Seq::empty())
    } else {
        match text_reads(d, es, k - 1) {
            Err(e) => Err(e),
            Ok(v) => if es[k - 1].1 == 0 {
                match read_text_asset(d, es[k - 1].0 as int) {
                    Err(e) => Err(e),
                    Ok(t) => Ok(v.push(t)),
                }
            } else {
                Ok(v)
            },
        }
    }
}

/// The object table of the file as the projectile reader reads it: the
/// header (which must be little endian), the type table, then the objects.
pub open spec fn extract_entries(d: Seq<u8>) -> Result<Seq<ObjectEntry>, AssetError> {
    match spec_header(d) {
        Err(e) => Err(e),
        Ok((h, p)) => if h.big_endian {
            Err(AssetError::BigEndianNotSupported)
        } else {
            match spec_types(d, p, false) {
                Err(e) => Err(e),
                Ok((types, q)) => spec_objects(d, q, false, types, h.data_offset),
            }
        },
    }
}

/// What the projectile reader reads of the file: the object table,
/// then each text asset.
pub open spec fn extract_read(d: Seq<u8>) -> Result<Seq<TextRead>, AssetError> {
    match extract_entries(d) {
        Err(e) => Err(e),
        Ok(es) => text_reads(d, es, es.len() as int),
    }
}

/// The document that `xmltree` reads from the text of the text asset whose
/// text string starts at `a`.
pub open spec fn text_document(d: Seq<u8>, a: int) -> Option<XmlElement> {
    match spec_asset_string(d, a, false) {
        Ok((t, _)) => xml_document(vstd::utf8::encode_utf8(t)),
        Err(_) => None,
    }
}

/// The tables after one document: `Objects` and `GroundTypes` documents are
/// read (what was read before an error stays), others change nothing.
pub open spec fn doc_tables(t: ExtractedView, x: XmlElement) -> ExtractedView {
    if x.name@ == "Objects"@ {
        ExtractedView {
            projectiles: extract_objects_fold(t.projectiles, x.children@, x.children@.len() as int).0,
            ..t
        }
    } else if x.name@ == "GroundTypes"@ {
        let (h, ps, _e) = extract_grounds_fold(t.hazardous_grounds, t.pushing_grounds, x.children@, x.children@.len() as int);
        ExtractedView { hazardous_grounds: h, pushing_grounds: ps, ..t }
    } else {
        t
    }
}

/// Empty tables.
pub open spec fn no_extracted() -> ExtractedView {
    ExtractedView { projectiles: Map::empty(), hazardous_grounds: Map::empty(), pushing_grounds: Set::empty() }
}

/// The tables after the first `k` objects of the file: each text asset that
/// may be XML is read as a document, in file order.
pub open spec fn extract_tables(d: Seq<u8>, es: Seq<ObjectEntry>, k: int) -> ExtractedView
    decreases k,
{
    if k <= 0 {
        no_extracted()
    } else {
        let t = extract_tables(d, es, k - 1);
        if es[k - 1].1 == 0 {
            match read_text_asset(d, es[k - 1].0 as int) {
                Ok(TextRead { xml: Some((p, _)), .. }) => match text_document(d, p - 4) {
                    Some(x) => doc_tables(t, x),
                    None => t,
                },
                _ => t,
            }
        } else {
            t
        }
    }
}

/// Why a document is skipped where no copy of the file is edited, if it is.
pub open spec fn doc_error(doc: Option<XmlElement>, t: ExtractedView) -> Option<ExtractError> {
    match doc {
        None => Some(ExtractError::NotXml),
        Some(x) => if x.name@ == "Objects"@ {
            extract_objects_fold(t.projectiles, x.children@, x.children@.len() as int).1
        } else if x.name@ == "GroundTypes"@ {
            extract_grounds_fold(t.hazardous_grounds, t.pushing_grounds, x.children@, x.children@.len() as int).2
        } else {
            None
        },
    }
}

/// What the first `k` objects of the file give besides the tables, where `copy`
/// is the edited copy to start from, if any: the copy after them, and the
/// documents that were skipped, by name, with the error.
pub open spec fn extract_outcome(d: Seq<u8>, es: Seq<ObjectEntry>, k: int, debuffs: Debuffs, copy: Option<Seq<u8>>) -> (Option<Seq<u8>>, Seq<(Seq<char>, ExtractError)>)
    decreases k,
{
    if k <= 0 {
        (copy, Seq::empty())
    } else {
        let (f, v) = extract_outcome(d, es, k - 1, debuffs, copy);
        if es[k - 1].1 == 0 {
            match read_text_asset(d, es[k - 1].0 as int) {
                Ok(TextRead { name, xml: Some((p, len)) }) => {
                    let (e, f2) = doc_outcome(text_document(d, p - 4), extract_tables(d, es, k - 1), f, p, len, debuffs);
                    match e {
                        Some(x) => (f2, v.push((name, x))),
                        None => (f2, v),
                    }
                },
                _ => (f, v),
            }
        } else {
            (f, v)
        }
    }
}

/// The views of the skipped documents.
pub open spec fn skipped_view(v: Seq<(String, ExtractError)>) -> Seq<(Seq<char>, ExtractError)> {
    v.map_values(|p: (String, ExtractError)| (p.0@, p.1))
}

proof fn lemma_text_reads_err(d: Seq<u8>, es: Seq<ObjectEntry>, k: int)
    requires
        0 <= k <= es.len(),
        text_reads(d, es, k) is Err,
    ensures
        text_reads(d, es, es.len() as int) == text_reads(d, es, k),
    decreases es.len() - k,
{
    if k < es.len() {
        lemma_text_reads_err(d, es, k + 1);
    }
}

/// What the projectile reader gives: the tables, the edited copy of
/// the file where the user asked for one, and the documents that were
/// skipped for an error, by name.
pub struct Extracted {
    pub assets: ExtractedAssets,
    pub edited: Option<Vec<u8>>,
    pub skipped: Vec<(String, ExtractError)>,
}

impl ExtractedAssets {
    pub fn new() -> (r: Self)
        ensures
            r@.projectiles == Map::<u32, Map<u32, ProjectileInfo>>::empty(),
            r@.hazardous_grounds == Map::<u32, i64>::empty(),
            r@.pushing_grounds == Set::<u32>::empty(),
    {
        let r = ExtractedAssets { projectiles: BTreeMap::new(), hazardous_grounds: BTreeMap::new(), pushing_grounds: BTreeSet::new() };
        assert(projectile_tables_view(r.projectiles@) =~= Map::<u32, Map<u32, ProjectileInfo>>::empty());
        r
    }
}

/// Reads the assets file `data`: every text asset that is an XML document
/// goes through `process_xml` (a document that fails is skipped and named in
/// the result). Where the user forces the removal of debuffs, the edits go to
/// a copy of the file of the same length.
pub fn extract_assets(settings: &Settings, data: &[u8]) -> (r: Result<Extracted, AssetError>)
    requires
        data@.len() <= i64::MAX,
    ensures
        match extract_read(data@) {
            Err(e) => r == Err::<Extracted, AssetError>(e),
            Ok(_) => r matches Ok(x) && (x.edited is Some <==> settings.edit_assets.force_debuffs)
                && (x.edited matches Some(f) ==> f@.len() == data@.len())
                && (extract_entries(data@) matches Ok(es) && x.assets@ == extract_tables(data@, es, es.len() as int)
                && (opt_bytes(x.edited), skipped_view(x.skipped@)) == extract_outcome(
                    data@,
                    es,
                    es.len() as int,
                    settings.debuffs,
                    if settings.edit_assets.force_debuffs { Some(data@) } else { None },
                )),
        },
{
    let dlen = data.len();
    let (header, p) = read_header(data)?;
    if header.big_endian {
        return Err(AssetError::BigEndianNotSupported);
    }
    let (types, q) = read_types(data, p, false)?;
    let objects = read_objects(data, q, false, &types, header.data_offset)?;
    let ghost es = objects@;
    let mut file: Option<Vec<u8>> = if settings.edit_assets.force_debuffs {
        Some(crate::read::bytes_to_vec(data))
    } else {
        None
    };
    let ghost copy0 = if settings.edit_assets.force_debuffs { Some(data@) } else { None::<Seq<u8>> };
    let mut assets = ExtractedAssets::new();
    let mut skipped: Vec<(String, ExtractError)> = Vec::new();
    let mut i: usize = 0;
    while i < objects.len()
        invariant
            i <= objects@.len(),
            es == objects@,
            dlen == data@.len(),
            dlen <= i64::MAX,
            extract_read(data@) == text_reads(data@, es, es.len() as int),
            text_reads(data@, es, i as int) is Ok,
            file is Some <==> settings.edit_assets.force_debuffs,
            file matches Some(f) ==> f@.len() == dlen,
            extract_entries(data@) == Ok::<Seq<ObjectEntry>, AssetError>(es),
            assets@ == extract_tables(data@, es, i as int),
            (opt_bytes(file), skipped_view(skipped@)) == extract_outcome(data@, es, i as int, settings.debuffs, copy0),
        decreases objects.len() - i,
    {
        let (start, kind) = objects[i];
        if kind == 0 {
            let (name, e) = match read_asset_string(data, start, false) {
                Ok(x) => x,
                Err(x) => {
                    proof {
                        lemma_text_reads_err(data@, es, i + 1);
                    }
                    return Err(x);
                },
            };
            let a = align_stream(e);
            if !has_bytes(data, e, a - e) {
                proof {
                    lemma_text_reads_err(data@, es, i + 1);
                }
                return Err(AssetError::UnexpectedEnd);
            }
            if !is_non_xml(name.as_str()) {
                let (text, end) = match read_asset_string(data, a, false) {
                    Ok(x) => x,
                    Err(x) => {
                        proof {
                            lemma_text_reads_err(data@, es, i + 1);
                        }
                        return Err(x);
                    },
                };
                let doc = parse_xml(text.as_str().as_bytes());
                match process_xml(&settings.debuffs, &mut assets, doc, &mut file, (a + 4) as usize, (end - a - 4) as usize) {
                    Ok(()) => {},
                    Err(x) => {
                        let ghost before = skipped_view(skipped@);
                        skipped.push((name, x));
                        assert(skipped_view(skipped@) =~= before.push((name@, x)));
                    },
                }
            }
        }
        i += 1;
    }
    Ok(Extracted { assets, edited: file, skipped })
}


/// Law: unless a copy of the file is being edited, reading a projectile
/// leaves its element as it was; in any case it only ever loses children.
pub proof fn law_extract_edits_only_when_forced(s: Seq<XmlNode>, force: bool, d: Debuffs)
    ensures
        extract_kept(s, force, d).len() <= s.len(),
        !force ==> extract_kept(s, force, d) == s,
    decreases s.len(),
{
    if s.len() > 0 {
        law_extract_edits_only_when_forced(s.drop_first(), force, d);
        if !force {
            assert(seq![s[0]] + s.drop_first() =~= s);
        }
    }
}
} // verus!
