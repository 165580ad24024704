//! Objects: their names, sprites and projectiles. Where the user asked for it,
//! the condition effects that only blind or confuse the client are taken out
//! of the projectiles, which edits the document.

use vstd::prelude::*;
use std::collections::{BTreeMap, HashMap};
use super::{id_value, parse_id, ProcessError};
use super::tiles::child_text;
use crate::assets::Damage;
use crate::assets::xml::{
    attr_value, element_text, element_view, first_child, lemma_same_element, node_view, XmlElement, XmlElementView,
    XmlNode,
};
use crate::config::{Debuffs, Settings};
use crate::extra_datatypes::conditions::{ARMOR_BROKEN, BLEEDING, CURSED, EXPOSED, SICK, WEAK};
use crate::text::{float_syntax, is_float_text, parse_i32, parse_integer, parse_u8, str_eq};

verus! {

broadcast use vstd::std_specs::hash::group_hash_axioms, vstd::std_specs::btree::group_btree_axioms,
    vstd::laws_cmp::group_laws_cmp;

/// Where an object's sprite lies.
pub struct SpriteId {
    pub is_animated: bool,
    pub spritesheet: String,
    pub index: u32,
}

/// A sprite id, in specifications.
pub struct SpriteIdView {
    pub is_animated: bool,
    pub spritesheet: Seq<char>,
    pub index: u32,
}

impl View for SpriteId {
    type V = SpriteIdView;

    open spec fn view(&self) -> SpriteIdView {
        SpriteIdView { is_animated: self.is_animated, spritesheet: self.spritesheet@, index: self.index }
    }
}

/// A condition effect that a projectile inflicts: its bits in the two
/// condition stats, and its duration as the document writes it.
pub struct ProjectileCondition {
    pub condition: u64,
    pub condition2: u64,
    pub duration: String,
}

pub struct ConditionView {
    pub condition: u64,
    pub condition2: u64,
    pub duration: Seq<char>,
}

impl View for ProjectileCondition {
    type V = ConditionView;

    open spec fn view(&self) -> ConditionView {
        ConditionView { condition: self.condition, condition2: self.condition2, duration: self.duration@ }
    }
}

/// A projectile of an object.
pub struct ProjectileInfo {
    pub damage: Damage,
    pub armor_piercing: bool,
    /// The condition effects, last in the document first.
    pub inflicts: Vec<ProjectileCondition>,
}

pub struct ProjectileInfoView {
    pub damage: Damage,
    pub armor_piercing: bool,
    pub inflicts: Seq<ConditionView>,
}

pub open spec fn conditions_view(v: Seq<ProjectileCondition>) -> Seq<ConditionView> {
    v.map_values(|c: ProjectileCondition| c@)
}

impl View for ProjectileInfo {
    type V = ProjectileInfoView;

    open spec fn view(&self) -> ProjectileInfoView {
        ProjectileInfoView {
            damage: self.damage,
            armor_piercing: self.armor_piercing,
            inflicts: conditions_view(self.inflicts@),
        }
    }
}

/// An object type.
pub struct Object {
    pub name: String,
    pub sprite: Option<SpriteId>,
    /// Projectile type to projectile.
    pub projectiles: BTreeMap<u8, ProjectileInfo>,
}

pub struct ObjectView {
    pub name: Seq<char>,
    pub sprite: Option<SpriteIdView>,
    pub projectiles: Map<u8, ProjectileInfoView>,
}

pub open spec fn projectiles_view(m: Map<u8, ProjectileInfo>) -> Map<u8, ProjectileInfoView> {
    m.map_values(|p: ProjectileInfo| p@)
}

impl View for Object {
    type V = ObjectView;

    open spec fn view(&self) -> ObjectView {
        ObjectView {
            name: self.name@,
            sprite: sprite_view(self.sprite),
            projectiles: projectiles_view(self.projectiles@),
        }
    }
}

pub open spec fn sprite_view(s: Option<SpriteId>) -> Option<SpriteIdView> {
    match s {
        Some(x) => Some(x@),
        None => None,
    }
}

pub open spec fn objects_view(m: Map<u32, Object>) -> Map<u32, ObjectView> {
    m.map_values(|o: Object| o@)
}

// ---------------------------------------------------------------- projectiles

/// Whether a condition effect only affects the client and the user disabled it.
pub open spec fn disabled_debuff(c: Seq<char>, d: Debuffs) -> bool {
    (c == "Blind"@ && d.blind) || (c == "Hallucinating"@ && d.hallucinating) || (c == "Drunk"@ && d.drunk)
        || (c == "Confused"@ && d.confused) || (c == "Unstable"@ && d.unstable) || (c == "Darkness"@
        && d.darkness)
}

/// The duration of a condition effect: its `duration`, else its `effect` attribute.
pub open spec fn duration_of(p: XmlElement) -> Option<Seq<char>> {
    match attr_value(p.attributes@, "duration"@) {
        Some(d) => Some(d),
        None => attr_value(p.attributes@, "effect"@),
    }
}

/// The bits that a condition effect sets, by its name.
pub open spec fn condition_bits(c: Seq<char>, d: Seq<char>) -> ConditionView {
    if c == "Curse"@ {
        ConditionView { condition: 0, condition2: CURSED, duration: d }
    } else if c == "Exposed"@ {
        ConditionView { condition: 0, condition2: EXPOSED, duration: d }
    } else if c == "Sick"@ {
        ConditionView { condition: SICK, condition2: 0, duration: d }
    } else if c == "Bleeding"@ {
        ConditionView { condition: BLEEDING, condition2: 0, duration: d }
    } else if c == "Armor Broken"@ {
        ConditionView { condition: ARMOR_BROKEN, condition2: 0, duration: d }
    } else if c == "Weak"@ {
        ConditionView { condition: WEAK, condition2: 0, duration: d }
    } else {
        ConditionView { condition: 0, condition2: 0, duration: d }
    }
}

/// Law: a condition effect keeps its duration and sets exactly one known
/// flag by its name: `Curse` cursed and `Exposed` exposed (second condition
/// stat), `Sick`, `Bleeding`, `Armor Broken` and `Weak` in the first; any
/// other name sets none.
pub proof fn law_condition_names(c: Seq<char>, d: Seq<char>)
    ensures
        condition_bits(c, d).duration == d,
        (condition_bits(c, d).condition2 == CURSED) <==> c == "Curse"@,
        (condition_bits(c, d).condition2 == EXPOSED) <==> c == "Exposed"@,
        (condition_bits(c, d).condition == SICK) <==> c == "Sick"@,
        (condition_bits(c, d).condition == BLEEDING) <==> c == "Bleeding"@,
        (condition_bits(c, d).condition == ARMOR_BROKEN) <==> c == "Armor Broken"@,
        (condition_bits(c, d).condition == WEAK) <==> c == "Weak"@,
        condition_bits(c, d).condition == 0 || condition_bits(c, d).condition2 == 0,
{
    reveal_strlit("Curse");
    reveal_strlit("Exposed");
    reveal_strlit("Sick");
    reveal_strlit("Bleeding");
    reveal_strlit("Armor Broken");
    reveal_strlit("Weak");
    let names = seq!["Curse"@, "Exposed"@, "Sick"@, "Bleeding"@, "Armor Broken"@, "Weak"@];
    assert(names[0].len() == 5 && names[1].len() == 7 && names[2].len() == 4 && names[3].len() == 8
        && names[4].len() == 12 && names[5].len() == 4);
    assert(names[2][0] != names[5][0]);
    assert(names[0] != names[1] && names[0] != names[2] && names[0] != names[3] && names[0] != names[4] && names[0] != names[5]);
    assert(names[1] != names[2] && names[1] != names[3] && names[1] != names[4] && names[1] != names[5]);
    assert(names[2] != names[3] && names[2] != names[4] && names[2] != names[5]);
    assert(names[3] != names[4] && names[3] != names[5] && names[4] != names[5]);
}

/// Whether a child of a projectile is taken out.
pub open spec fn removed_child(n: XmlNode, st: Settings) -> bool {
    &&& n matches XmlNode::Element(p)
    &&& p.name@ == "ConditionEffect"@
    &&& element_text(p) matches Some(c)
    &&& duration_of(p) is Some
    &&& st.edit_assets.force_debuffs
    &&& disabled_debuff(c, st.debuffs)
}

/// The children that stay.
pub open spec fn kept(s: Seq<XmlNode>, st: Settings) -> Seq<XmlNode>
    decreases s.len(),
{
    if s.len() == 0 {
        Seq::empty()
    } else {
        (if removed_child(s[0], st) { Seq::empty() } else { seq![s[0]] }) + kept(s.drop_first(), st)
    }
}

/// What the parameters of a projectile give, read from the last to the first.
pub struct ScanView {
    pub armor_piercing: bool,
    pub inflicts: Seq<ConditionView>,
    pub modified: bool,
}

pub open spec fn scan_step(v: ScanView, n: XmlNode, st: Settings) -> Result<ScanView, ProcessError> {
    match n {
        XmlNode::Element(p) => if p.name@ == "ArmorPiercing"@ {
            Ok(ScanView { armor_piercing: true, ..v })
        } else if p.name@ == "ConditionEffect"@ {
            match element_text(p) {
                None => Err(ProcessError::MissingConditionText),
                Some(c) => match duration_of(p) {
                    None => Err(ProcessError::MissingDuration),
                    Some(d) => if st.edit_assets.force_debuffs && disabled_debuff(c, st.debuffs) {
                        Ok(ScanView { modified: true, ..v })
                    } else if !float_syntax(d) {
                        Err(ProcessError::InvalidDuration)
                    } else {
                        Ok(ScanView { inflicts: v.inflicts.push(condition_bits(c, d)), ..v })
                    },
                },
            }
        } else {
            Ok(v)
        },
        _ => Ok(v),
    }
}

/// The parameters from index `k` to the end, read from the end.
pub open spec fn scan(s: Seq<XmlNode>, k: int, st: Settings) -> Result<ScanView, ProcessError>
    decreases s.len() - k,
{
    if k >= s.len() || k < 0 {
        Ok(ScanView { armor_piercing: false, inflicts: Seq::empty(), modified: false })
    } else {
        match scan(s, k + 1, st) {
            Err(x) => Err(x),
            Ok(v) => scan_step(v, s[k], st),
        }
    }
}

/// The damage of a projectile.
pub open spec fn damage_of(p: XmlElement) -> Result<Damage, ProcessError> {
    let i32_of = |t: Seq<char>| parse_integer(t, 10, i32::MIN as int, i32::MAX as int);
    match (child_text(p, "Damage"@), child_text(p, "MinDamage"@), child_text(p, "MaxDamage"@)) {
        (Some(e), None, None) => match i32_of(e) {
            Some(v) => Ok(Damage::Exact(v as i32)),
            None => Err(ProcessError::InvalidDamageValue),
        },
        (None, Some(mn), Some(mx)) => match i32_of(mn) {
            None => Err(ProcessError::InvalidDamageValue),
            Some(a) => match i32_of(mx) {
                None => Err(ProcessError::InvalidDamageValue),
                Some(b) => Ok(Damage::Range(a as i32, b as i32)),
            },
        },
        _ => Err(ProcessError::InvalidDamage),
    }
}

/// A `Projectile` element read: its id if it has one, the projectile, and
/// whether its element is edited.
pub open spec fn projectile_of(p: XmlElement, st: Settings) -> Result<(Option<u8>, ProjectileInfoView, bool), ProcessError> {
    let id = match attr_value(p.attributes@, "id"@) {
        None => Ok(None),
        Some(s) => match parse_integer(s, 10, 0, 255) {
            Some(v) => Ok(Some(v as u8)),
            None => Err(ProcessError::InvalidProjectileId),
        },
    };
    match id {
        Err(x) => Err(x),
        Ok(id) => match damage_of(p) {
            Err(x) => Err(x),
            Ok(damage) => match scan(p.children@, 0, st) {
                Err(x) => Err(x),
                Ok(v) => Ok((
                    id,
                    ProjectileInfoView { damage, armor_piercing: v.armor_piercing, inflicts: v.inflicts },
                    v.modified,
                )),
            },
        },
    }
}

/// The projectile element after it was read: only its children change.
pub open spec fn projectile_edited(old: XmlElement, new: XmlElement, st: Settings) -> bool {
    &&& new.prefix == old.prefix
    &&& new.namespace == old.namespace
    &&& new.namespaces == old.namespaces
    &&& new.name == old.name
    &&& new.attributes == old.attributes
    &&& new.children@ == kept(old.children@, st)
}

proof fn lemma_kept_step(s: Seq<XmlNode>, i: int, st: Settings)
    requires
        0 <= i < s.len(),
    ensures
        kept(s.skip(i), st) == (if removed_child(s[i], st) { Seq::empty() } else { seq![s[i]] }) + kept(s.skip(i + 1), st),
{
    assert(s.skip(i).drop_first() =~= s.skip(i + 1));
    assert(s.skip(i)[0] == s[i]);
}

fn parse_damage_value(t: &String) -> (r: Result<i32, ProcessError>)
    ensures
        match parse_integer(t@, 10, i32::MIN as int, i32::MAX as int) {
            Some(v) => r == Ok::<i32, ProcessError>(v as i32),
            None => r == Err::<i32, ProcessError>(ProcessError::InvalidDamageValue),
        },
{
    match parse_i32(t.as_str()) {
        Some(v) => Ok(v),
        None => Err(ProcessError::InvalidDamageValue),
    }
}

/// Reads a projectile's damage.
fn parse_damage(p: &XmlElement) -> (r: Result<Damage, ProcessError>)
    ensures
        r == damage_of(*p),
{
    let exact = p.get_child_text("Damage");
    let min = p.get_child_text("MinDamage");
    let max = p.get_child_text("MaxDamage");
    match (exact, min, max) {
        (Some(e), None, None) => Ok(Damage::Exact(parse_damage_value(&e)?)),
        (None, Some(mn), Some(mx)) => {
            let a = parse_damage_value(&mn)?;
            let b = parse_damage_value(&mx)?;
            Ok(Damage::Range(a, b))
        },
        _ => Err(ProcessError::InvalidDamage),
    }
}

/// The bits of a condition effect, by its name.
fn bits_of(c: &str, duration: String) -> (r: ProjectileCondition)
    ensures
        r@ == condition_bits(c@, duration@),
{
    let (condition, condition2): (u64, u64) = if str_eq(c, "Curse") {
        (0, CURSED)
    } else if str_eq(c, "Exposed") {
        (0, EXPOSED)
    } else if str_eq(c, "Sick") {
        (SICK, 0)
    } else if str_eq(c, "Bleeding") {
        (BLEEDING, 0)
    } else if str_eq(c, "Armor Broken") {
        (ARMOR_BROKEN, 0)
    } else if str_eq(c, "Weak") {
        (WEAK, 0)
    } else {
        (0, 0)
    };
    ProjectileCondition { condition, condition2, duration }
}

/// Whether a condition effect only affects the client and is disabled.
fn is_disabled_debuff(c: &str, d: &Debuffs) -> (r: bool)
    ensures
        r == disabled_debuff(c@, *d),
{
    (str_eq(c, "Blind") && d.blind) || (str_eq(c, "Hallucinating") && d.hallucinating) || (str_eq(c, "Drunk")
        && d.drunk) || (str_eq(c, "Confused") && d.confused) || (str_eq(c, "Unstable") && d.unstable)
        || (str_eq(c, "Darkness") && d.darkness)
}

/// Reads a `Projectile` element: its id, damage, armor piercing and condition
/// effects. Disabled client-side debuffs are taken out of the element when the
/// user asked for it. Returns whether the element was edited.
pub fn parse_projectile(settings: &Settings, projectile: &mut XmlElement) -> (r: Result<(bool, Option<u8>, ProjectileInfo), ProcessError>)
    ensures
        match projectile_of(*old(projectile), *settings) {
            Ok((id, info, modified)) => r matches Ok((m, i, p)) && m == modified && i == id && p@ == info
                && projectile_edited(*old(projectile), *final(projectile), *settings),
            Err(x) => r matches Err(e) && e == x,
        },
{
    let id = match projectile.attr("id") {
        None => None,
        Some(s) => match parse_u8(s.as_str()) {
            Some(v) => Some(v),
            None => return Err(ProcessError::InvalidProjectileId),
        },
    };
    let damage = parse_damage(projectile)?;
    let ghost s0 = projectile.children@;
    let ghost st = *settings;
    let ghost whole = match scan(s0, 0, st) {
        Err(x) => Err(x),
        Ok(v) => Ok((id, ProjectileInfoView { damage, armor_piercing: v.armor_piercing, inflicts: v.inflicts }, v.modified)),
    };
    assert(projectile_of(*old(projectile), st) == whole);
    let mut armor_piercing = false;
    let mut inflicts: Vec<ProjectileCondition> = Vec::new();
    let mut modified = false;
    let mut i: usize = projectile.children.len();
    assert(s0.take(i as int) =~= s0);
    assert(s0.skip(i as int) =~= Seq::<XmlNode>::empty());
    assert(conditions_view(inflicts@) =~= Seq::<ConditionView>::empty());
    while i > 0
        invariant
            i <= s0.len(),
            st == *settings,
            projectile.prefix == old(projectile).prefix,
            projectile.namespace == old(projectile).namespace,
            projectile.namespaces == old(projectile).namespaces,
            projectile.name == old(projectile).name,
            projectile.attributes == old(projectile).attributes,
            s0 == old(projectile).children@,
            projectile_of(*old(projectile), st) == whole,
            whole == match scan(s0, 0, st) {
                Err(x) => Err(x),
                Ok(v) => Ok((id, ProjectileInfoView { damage, armor_piercing: v.armor_piercing, inflicts: v.inflicts }, v.modified)),
            },
            projectile.children@ == s0.take(i as int) + kept(s0.skip(i as int), st),
            scan(s0, i as int, st) == Ok::<ScanView, ProcessError>(
                ScanView { armor_piercing, inflicts: conditions_view(inflicts@), modified },
            ),
        decreases i,
    {
        i -= 1;
        let ghost cur = projectile.children@;
        proof {
            lemma_kept_step(s0, i as int, st);
            assert(projectile.children@[i as int] == s0[i as int]);
            assert(s0.take(i + 1) =~= s0.take(i as int).push(s0[i as int]));
        }
        let mut remove = false;
        match &projectile.children[i] {
            XmlNode::Element(p) => {
                if str_eq(p.name.as_str(), "ArmorPiercing") {
                    proof {
                        reveal_strlit("ArmorPiercing");
                        reveal_strlit("ConditionEffect");
                        assert("ArmorPiercing"@[0] != "ConditionEffect"@[0]);
                    }
                    armor_piercing = true;
                } else if str_eq(p.name.as_str(), "ConditionEffect") {
                    let name = match p.get_text() {
                        Some(t) => t,
                        None => {
                            proof {
                                lemma_scan_err(s0, i as int, st);
                            }
                            return Err(ProcessError::MissingConditionText);
                        },
                    };
                    let duration = match p.attr("duration") {
                        Some(d) => d.clone(),
                        None => match p.attr("effect") {
                            Some(d) => d.clone(),
                            None => {
                                proof {
                                    lemma_scan_err(s0, i as int, st);
                                }
                                return Err(ProcessError::MissingDuration);
                            },
                        },
                    };
                    if settings.edit_assets.force_debuffs && is_disabled_debuff(name.as_str(), &settings.debuffs) {
                        remove = true;
                    } else if !is_float_text(duration.as_str()) {
                        proof {
                            lemma_scan_err(s0, i as int, st);
                        }
                        return Err(ProcessError::InvalidDuration);
                    } else {
                        let ghost before = inflicts@;
                        let c = bits_of(name.as_str(), duration);
                        inflicts.push(c);
                        assert(conditions_view(inflicts@) =~= conditions_view(before).push(c@));
                    }
                }
            },
            _ => {},
        }
        if remove {
            assert(removed_child(s0[i as int], st));
            let _ = projectile.children.remove(i);
            modified = true;
            assert(projectile.children@ =~= s0.take(i as int) + kept(s0.skip(i as int), st));
        } else {
            assert(!removed_child(s0[i as int], st));
            assert(projectile.children@ =~= s0.take(i as int) + kept(s0.skip(i as int), st));
        }
    }
    assert(s0.skip(0) =~= s0);
    assert(s0.take(0) =~= Seq::<XmlNode>::empty());
    assert(projectile.children@ =~= kept(s0, st));
    Ok((modified, id, ProjectileInfo { damage, armor_piercing, inflicts }))
}

/// Once reading a parameter fails, the whole scan fails with that error.
proof fn lemma_scan_err(s: Seq<XmlNode>, k: int, st: Settings)
    requires
        0 <= k < s.len(),
        scan(s, k, st) is Err,
    ensures
        scan(s, 0, st) == scan(s, k, st),
    decreases k,
{
    if k > 0 {
        lemma_scan_err(s, k - 1, st);
    }
}


// ---------------------------------------------------------------- objects

/// A `Subattack` element read: the projectile it uses.
pub open spec fn subattack_of(p: XmlElement) -> Result<u8, ProcessError> {
    match attr_value(p.attributes@, "projectileId"@) {
        None => Err(ProcessError::MissingSubattackId),
        Some(s) => match parse_integer(s, 10, 0, 255) {
            Some(v) => Ok(v as u8),
            None => Err(ProcessError::InvalidSubattackId),
        },
    }
}

/// Reads a `Subattack` element.
pub fn parse_subattack(subattack: &XmlElement) -> (r: Result<u8, ProcessError>)
    ensures
        r == subattack_of(*subattack),
{
    match subattack.attr("projectileId") {
        None => Err(ProcessError::MissingSubattackId),
        Some(s) => match parse_u8(s.as_str()) {
            Some(v) => Ok(v),
            None => Err(ProcessError::InvalidSubattackId),
        },
    }
}

/// The name of an object: its `DisplayId` text, else its `id`.
pub open spec fn name_of(e: XmlElement) -> Result<Seq<char>, ProcessError> {
    match child_text(e, "DisplayId"@) {
        Some(t) => Ok(t),
        None => match attr_value(e.attributes@, "id"@) {
            Some(n) => Ok(n),
            None => Err(ProcessError::MissingName),
        },
    }
}

/// The sprite of an object: from its `AnimatedTexture` or its `Texture`,
/// where it has exactly one of them.
pub open spec fn sprite_of(e: XmlElement) -> Result<Option<SpriteIdView>, ProcessError> {
    let a = first_child(e.children@, "AnimatedTexture"@);
    let t = first_child(e.children@, "Texture"@);
    let k = match (a, t) {
        (Some(i), None) => Some(i),
        (None, Some(i)) => Some(i),
        _ => None,
    };
    match k {
        None => Ok(None),
        Some(i) => match e.children@[i] {
            XmlNode::Element(tex) => match child_text(tex, "File"@) {
                None => Err(ProcessError::MissingTexturePart),
                Some(f) => match child_text(tex, "Index"@) {
                    None => Err(ProcessError::MissingTexturePart),
                    Some(ix) => match id_value(ix) {
                        None => Err(ProcessError::InvalidId),
                        Some(index) => Ok(Some(SpriteIdView { is_animated: a is Some, spritesheet: f, index })),
                    },
                },
            },
            _ => Ok(None),
        },
    }
}

/// What the parameters of an object give, read in order.
pub struct ObjScan {
    pub projectiles: Map<u8, ProjectileInfoView>,
    pub subattacks: Seq<u8>,
    /// Projectiles counted so far, for those without an id.
    pub count: u8,
    pub modified: bool,
}

pub open spec fn object_step(v: ObjScan, n: XmlNode, st: Settings) -> Result<ObjScan, ProcessError> {
    match n {
        XmlNode::Element(p) => if p.name@ == "Projectile"@ {
            match projectile_of(p, st) {
                Err(x) => Err(x),
                Ok((id, info, m)) => {
                    let key = match id { Some(k) => k, None => v.count };
                    if v.count == 255 {
                        Err(ProcessError::TooManyProjectiles)
                    } else if v.projectiles.contains_key(key) {
                        Err(ProcessError::DuplicateProjectile)
                    } else {
                        Ok(ObjScan {
                            projectiles: v.projectiles.insert(key, info),
                            count: (v.count + 1) as u8,
                            modified: v.modified || m,
                            ..v
                        })
                    }
                },
            }
        } else if p.name@ == "Subattack"@ {
            match subattack_of(p) {
                Err(x) => Err(x),
                Ok(pid) => Ok(ObjScan { subattacks: v.subattacks.push(pid), ..v }),
            }
        } else {
            Ok(v)
        },
        _ => Ok(v),
    }
}

/// The first `k` parameters of an object, read in order.
pub open spec fn object_scan(s: Seq<XmlNode>, k: int, st: Settings) -> Result<ObjScan, ProcessError>
    decreases k,
{
    if k <= 0 {
        Ok(ObjScan { projectiles: Map::empty(), subattacks: Seq::empty(), count: 0, modified: false })
    } else {
        match object_scan(s, k - 1, st) {
            Err(x) => Err(x),
            Ok(v) => object_step(v, s[k - 1], st),
        }
    }
}

/// The projectiles that the first `k` subattacks use, by subattack index
/// (counted in a `u8`).
pub open spec fn subattack_table(p: Map<u8, ProjectileInfoView>, sub: Seq<u8>, k: int) -> Result<Map<u8, ProjectileInfoView>, ProcessError>
    decreases k,
{
    if k <= 0 {
        Ok(Map::empty())
    } else {
        match subattack_table(p, sub, k - 1) {
            Err(x) => Err(x),
            Ok(m) => if p.contains_key(sub[k - 1]) {
                Ok(m.insert(((k - 1) % 256) as u8, p[sub[k - 1]]))
            } else {
                Err(ProcessError::UnknownSubattackProjectile)
            },
        }
    }
}

/// An `Object` element read: its type, the object, and whether it is edited.
pub open spec fn object_of(e: XmlElement, st: Settings) -> Result<(u32, ObjectView, bool), ProcessError> {
    match attr_value(e.attributes@, "type"@) {
        None => Err(ProcessError::MissingType),
        Some(t) => match id_value(t) {
            None => Err(ProcessError::InvalidId),
            Some(kind) => match name_of(e) {
                Err(x) => Err(x),
                Ok(name) => match sprite_of(e) {
                    Err(x) => Err(x),
                    Ok(sprite) => match object_scan(e.children@, e.children@.len() as int, st) {
                        Err(x) => Err(x),
                        Ok(v) => {
                            let table = if v.subattacks.len() == 0 {
                                Ok(v.projectiles)
                            } else {
                                subattack_table(v.projectiles, v.subattacks, v.subattacks.len() as int)
                            };
                            match table {
                                Err(x) => Err(x),
                                Ok(projectiles) => Ok((kind, ObjectView { name, sprite, projectiles }, v.modified)),
                            }
                        },
                    },
                },
            },
        },
    }
}

/// A child of an object after it was read: a projectile is edited, the rest
/// stays.
pub open spec fn child_edited(old: XmlNode, new: XmlNode, st: Settings) -> bool {
    match old {
        XmlNode::Element(p) => if p.name@ == "Projectile"@ {
            new matches XmlNode::Element(q) && projectile_edited(p, q, st)
        } else {
            new == old
        },
        _ => new == old,
    }
}

/// The object element after it was read: only projectiles change.
pub open spec fn object_edited(old: XmlElement, new: XmlElement, st: Settings) -> bool {
    &&& new.prefix == old.prefix
    &&& new.namespace == old.namespace
    &&& new.namespaces == old.namespaces
    &&& new.name == old.name
    &&& new.attributes == old.attributes
    &&& new.children@.len() == old.children@.len()
    &&& forall|i: int| 0 <= i < old.children@.len() ==> child_edited(old.children@[i], #[trigger] new.children@[i], st)
}

/// A copy of a projectile.
fn copy_info(p: &ProjectileInfo) -> (r: ProjectileInfo)
    ensures
        r@ == p@,
{
    let mut inflicts: Vec<ProjectileCondition> = Vec::new();
    let mut i: usize = 0;
    while i < p.inflicts.len()
        invariant
            i <= p.inflicts@.len(),
            conditions_view(inflicts@) == conditions_view(p.inflicts@).take(i as int),
        decreases p.inflicts.len() - i,
    {
        let c = &p.inflicts[i];
        let ghost before = inflicts@;
        let nc = ProjectileCondition { condition: c.condition, condition2: c.condition2, duration: c.duration.clone() };
        assert(nc@ == c@);
        inflicts.push(nc);
        assert(conditions_view(inflicts@) =~= conditions_view(before).push(nc@));
        assert(conditions_view(p.inflicts@)[i as int] == c@);
        assert(conditions_view(p.inflicts@).take(i + 1) =~= conditions_view(p.inflicts@).take(i as int).push(c@));
        i += 1;
    }
    assert(conditions_view(p.inflicts@).take(p.inflicts.len() as int) =~= conditions_view(p.inflicts@));
    ProjectileInfo { damage: p.damage, armor_piercing: p.armor_piercing, inflicts }
}

/// Reads the sprite of an object.
fn parse_sprite(object: &XmlElement) -> (r: Result<Option<SpriteId>, ProcessError>)
    ensures
        match sprite_of(*object) {
            Ok(Some(v)) => r matches Ok(Some(x)) && x@ == v,
            Ok(None) => r matches Ok(None),
            Err(e) => r == Err::<Option<SpriteId>, ProcessError>(e),
        },
{
    let a = object.child_index("AnimatedTexture");
    let t = object.child_index("Texture");
    let k = match (a, t) {
        (Some(i), None) => i,
        (None, Some(i)) => i,
        _ => return Ok(None),
    };
    let tex = match &object.children[k] {
        XmlNode::Element(tex) => tex,
        _ => return Ok(None),
    };
    let file = match tex.get_child_text("File") {
        None => return Err(ProcessError::MissingTexturePart),
        Some(f) => f,
    };
    let index = match tex.get_child_text("Index") {
        None => return Err(ProcessError::MissingTexturePart),
        Some(ix) => parse_id(ix.as_str())?,
    };
    Ok(Some(SpriteId { is_animated: a.is_some(), spritesheet: file, index }))
}

proof fn lemma_object_scan_err(s: Seq<XmlNode>, k: int, st: Settings)
    requires
        0 <= k <= s.len(),
        object_scan(s, k, st) is Err,
    ensures
        object_scan(s, s.len() as int, st) == object_scan(s, k, st),
    decreases s.len() - k,
{
    if k < s.len() {
        lemma_object_scan_err(s, k + 1, st);
    }
}

proof fn lemma_subattack_err(p: Map<u8, ProjectileInfoView>, sub: Seq<u8>, k: int)
    requires
        0 <= k <= sub.len(),
        subattack_table(p, sub, k) is Err,
    ensures
        subattack_table(p, sub, sub.len() as int) == subattack_table(p, sub, k),
    decreases sub.len() - k,
{
    if k < sub.len() {
        lemma_subattack_err(p, sub, k + 1);
    }
}

/// Reads an `Object` element into the table: its name, sprite and
/// projectiles (through its subattacks, where it has any). Returns whether
/// the element was edited.
#[verifier::spinoff_prover]
#[verifier::rlimit(50)]
pub fn parse_object(settings: &Settings, objects: &mut HashMap<u32, Object>, object: &mut XmlElement) -> (r: Result<bool, ProcessError>)
    ensures
        match object_of(*old(object), *settings) {
            Ok((k, v, modified)) => r == Ok::<bool, ProcessError>(modified)
                && objects_view(final(objects)@) == objects_view(old(objects)@).insert(k, v)
                && object_edited(*old(object), *final(object), *settings),
            Err(x) => r == Err::<bool, ProcessError>(x),
        },
{
    let kind = match object.attr("type") {
        None => return Err(ProcessError::MissingType),
        Some(t) => parse_id(t.as_str())?,
    };
    let name = match object.get_child_text("DisplayId") {
        Some(t) => t,
        None => match object.attr("id") {
            Some(n) => n.clone(),
            None => return Err(ProcessError::MissingName),
        },
    };
    let sprite = parse_sprite(object)?;
    let ghost s0 = object.children@;
    let ghost st = *settings;
    let ghost e0 = *object;
    let ghost whole = match object_scan(s0, s0.len() as int, st) {
        Err(x) => Err(x),
        Ok(v) => {
            let table = if v.subattacks.len() == 0 {
                Ok(v.projectiles)
            } else {
                subattack_table(v.projectiles, v.subattacks, v.subattacks.len() as int)
            };
            match table {
                Err(x) => Err(x),
                Ok(projectiles) => Ok((kind, ObjectView { name: name@, sprite: sprite_view(sprite), projectiles }, v.modified)),
            }
        },
    };
    assert(object_of(e0, st) == whole);
    let mut projectiles: BTreeMap<u8, ProjectileInfo> = BTreeMap::new();
    let mut subattacks: Vec<u8> = Vec::new();
    let mut count: u8 = 0;
    let mut modified = false;
    let mut i: usize = 0;
    assert(projectiles_view(projectiles@) =~= Map::<u8, ProjectileInfoView>::empty());
    while i < object.children.len()
        invariant
            i <= s0.len(),
            s0.len() == object.children@.len(),
            st == *settings,
            e0 == *old(object),
            s0 == e0.children@,
            object_of(e0, st) == whole,
            whole == match object_scan(s0, s0.len() as int, st) {
                Err(x) => Err(x),
                Ok(v) => {
                    let table = if v.subattacks.len() == 0 {
                        Ok(v.projectiles)
                    } else {
                        subattack_table(v.projectiles, v.subattacks, v.subattacks.len() as int)
                    };
                    match table {
                        Err(x) => Err(x),
                        Ok(projectiles) => Ok((kind, ObjectView { name: name@, sprite: sprite_view(sprite), projectiles }, v.modified)),
                    }
                },
            },
            object.prefix == e0.prefix,
            object.namespace == e0.namespace,
            object.namespaces == e0.namespaces,
            object.name == e0.name,
            object.attributes == e0.attributes,
            forall|j: int| 0 <= j < i ==> child_edited(s0[j], #[trigger] object.children@[j], st),
            forall|j: int| i <= j < s0.len() ==> object.children@[j] == s0[j],
            object_scan(s0, i as int, st) == Ok::<ObjScan, ProcessError>(ObjScan {
                projectiles: projectiles_view(projectiles@),
                subattacks: subattacks@,
                count,
                modified,
            }),
        decreases s0.len() - i,
    {
        let node = object.children.remove(i);
        assert(node == s0[i as int]);
        match node {
            XmlNode::Element(mut p) => {
                if str_eq(p.name.as_str(), "Projectile") {
                    let res = parse_projectile(settings, &mut p);
                    object.children.insert(i, XmlNode::Element(p));
                    match res {
                        Err(x) => {
                            proof {
                                lemma_object_scan_err(s0, i + 1, st);
                            }
                            return Err(x);
                        },
                        Ok((m, id, info)) => {
                            modified = modified || m;
                            let key = match id {
                                Some(k) => k,
                                None => count,
                            };
                            if count == 255 {
                                proof {
                                    lemma_object_scan_err(s0, i + 1, st);
                                }
                                return Err(ProcessError::TooManyProjectiles);
                            }
                            count = count + 1;
                            if projectiles.contains_key(&key) {
                                proof {
                                    lemma_object_scan_err(s0, i + 1, st);
                                }
                                return Err(ProcessError::DuplicateProjectile);
                            }
                            let ghost before = projectiles@;
                            let ghost iv = info@;
                            projectiles.insert(key, info);
                            assert(projectiles_view(projectiles@) =~= projectiles_view(before).insert(key, iv));
                        },
                    }
                } else if str_eq(p.name.as_str(), "Subattack") {
                    proof {
                        reveal_strlit("Projectile");
                        reveal_strlit("Subattack");
                        assert("Projectile"@[0] != "Subattack"@[0]);
                    }
                    let res = parse_subattack(&p);
                    object.children.insert(i, XmlNode::Element(p));
                    match res {
                        Err(x) => {
                            proof {
                                lemma_object_scan_err(s0, i + 1, st);
                            }
                            return Err(x);
                        },
                        Ok(pid) => {
                            subattacks.push(pid);
                        },
                    }
                } else {
                    object.children.insert(i, XmlNode::Element(p));
                }
            },
            other => {
                object.children.insert(i, other);
            },
        }
        i += 1;
    }
    let table = if subattacks.len() == 0 {
        projectiles
    } else {
        let mut table: BTreeMap<u8, ProjectileInfo> = BTreeMap::new();
        let mut j: usize = 0;
        assert(projectiles_view(table@) =~= Map::<u8, ProjectileInfoView>::empty());
        while j < subattacks.len()
            invariant
                j <= subattacks@.len(),
                subattack_table(projectiles_view(projectiles@), subattacks@, j as int)
                    == Ok::<Map<u8, ProjectileInfoView>, ProcessError>(projectiles_view(table@)),
                object_of(e0, st) == whole,
                e0 == *old(object),
                st == *settings,
                whole == match subattack_table(projectiles_view(projectiles@), subattacks@, subattacks@.len() as int) {
                    Err(x) => Err(x),
                    Ok(projectiles) => Ok((kind, ObjectView { name: name@, sprite: sprite_view(sprite), projectiles }, modified)),
                },
            decreases subattacks.len() - j,
        {
            match projectiles.get(&subattacks[j]) {
                None => {
                    proof {
                        lemma_subattack_err(projectiles_view(projectiles@), subattacks@, j + 1);
                    }
                    return Err(ProcessError::UnknownSubattackProjectile);
                },
                Some(p) => {
                    let c = copy_info(p);
                    let ghost before = table@;
                    let key = (j % 256) as u8;
                    table.insert(key, c);
                    assert(projectiles_view(table@) =~= projectiles_view(before).insert(key, p@));
                },
            }
            j += 1;
        }
        table
    };
    let data = Object { name, sprite, projectiles: table };
    let ghost dv = data@;
    objects.insert(kind, data);
    assert(objects_view(objects@) =~= objects_view(old(objects)@).insert(kind, dv));
    Ok(modified)
}


// ---------------------------------------------------------------- documents

/// The object table after the first `k` children of an `Objects` document,
/// and whether any was edited.
pub open spec fn objects_after(m: Map<u32, ObjectView>, s: Seq<XmlNode>, k: int, st: Settings) -> Result<(Map<u32, ObjectView>, bool), ProcessError>
    decreases k,
{
    if k <= 0 {
        Ok((m, false))
    } else {
        match objects_after(m, s, k - 1, st) {
            Err(x) => Err(x),
            Ok((m2, modified)) => match s[k - 1] {
                XmlNode::Element(e) => if e.name@ == "Object"@ {
                    match object_of(e, st) {
                        Err(x) => Err(x),
                        Ok((kind, v, em)) => Ok((m2.insert(kind, v), modified || em)),
                    }
                } else {
                    Ok((m2, modified))
                },
                _ => Ok((m2, modified)),
            },
        }
    }
}

/// A child of the document after it was read: an object is edited, the rest stays.
pub open spec fn doc_child_edited(old: XmlNode, new: XmlNode, st: Settings) -> bool {
    match old {
        XmlNode::Element(e) => if e.name@ == "Object"@ {
            new matches XmlNode::Element(f) && object_edited(e, f, st)
        } else {
            new == old
        },
        _ => new == old,
    }
}

/// The document after it was read: only objects change.
pub open spec fn doc_edited(old: XmlElement, new: XmlElement, st: Settings) -> bool {
    &&& new.prefix == old.prefix
    &&& new.namespace == old.namespace
    &&& new.namespaces == old.namespaces
    &&& new.name == old.name
    &&& new.attributes == old.attributes
    &&& new.children@.len() == old.children@.len()
    &&& forall|i: int| 0 <= i < old.children@.len() ==> doc_child_edited(old.children@[i], #[trigger] new.children@[i], st)
}

proof fn lemma_objects_err(m: Map<u32, ObjectView>, s: Seq<XmlNode>, k: int, st: Settings)
    requires
        0 <= k <= s.len(),
        objects_after(m, s, k, st) is Err,
    ensures
        objects_after(m, s, s.len() as int, st) == objects_after(m, s, k, st),
    decreases s.len() - k,
{
    if k < s.len() {
        lemma_objects_err(m, s, k + 1, st);
    }
}

/// Reads every `Object` child of an `Objects` document into the table.
/// Returns whether the document was edited.
#[verifier::spinoff_prover]
#[verifier::rlimit(50)]
pub fn parse(settings: &Settings, objects: &mut HashMap<u32, Object>, xml: &mut XmlElement) -> (r: Result<bool, ProcessError>)
    ensures
        match objects_after(objects_view(old(objects)@), old(xml).children@, old(xml).children@.len() as int, *settings) {
            Ok((m, modified)) => r == Ok::<bool, ProcessError>(modified) && objects_view(final(objects)@) == m
                && doc_edited(*old(xml), *final(xml), *settings),
            Err(x) => r == Err::<bool, ProcessError>(x),
        },
{
    let ghost s0 = xml.children@;
    let ghost st = *settings;
    let ghost m0 = objects_view(objects@);
    let mut modified = false;
    let mut i: usize = 0;
    while i < xml.children.len()
        invariant
            i <= s0.len(),
            s0.len() == xml.children@.len(),
            s0 == old(xml).children@,
            st == *settings,
            m0 == objects_view(old(objects)@),
            xml.prefix == old(xml).prefix,
            xml.namespace == old(xml).namespace,
            xml.namespaces == old(xml).namespaces,
            xml.name == old(xml).name,
            xml.attributes == old(xml).attributes,
            forall|j: int| 0 <= j < i ==> doc_child_edited(s0[j], #[trigger] xml.children@[j], st),
            forall|j: int| i <= j < s0.len() ==> xml.children@[j] == s0[j],
            objects_after(m0, s0, i as int, st) == Ok::<(Map<u32, ObjectView>, bool), ProcessError>((objects_view(objects@), modified)),
        decreases s0.len() - i,
    {
        let node = xml.children.remove(i);
        assert(node == s0[i as int]);
        match node {
            XmlNode::Element(mut e) => {
                if str_eq(e.name.as_str(), "Object") {
                    let res = parse_object(settings, objects, &mut e);
                    xml.children.insert(i, XmlNode::Element(e));
                    match res {
                        Err(x) => {
                            proof {
                                lemma_objects_err(m0, s0, i + 1, st);
                            }
                            return Err(x);
                        },
                        Ok(m) => {
                            modified = modified || m;
                        },
                    }
                } else {
                    xml.children.insert(i, XmlNode::Element(e));
                }
            },
            other => {
                xml.children.insert(i, other);
            },
        }
        i += 1;
    }
    Ok(modified)
}


/// Law: unless the user forces the removal of debuffs, reading a projectile
/// leaves its element as it was; in any case it only ever loses children.
pub proof fn law_edits_only_when_forced(s: Seq<XmlNode>, st: Settings)
    ensures
        kept(s, st).len() <= s.len(),
        !st.edit_assets.force_debuffs ==> kept(s, st) == s,
    decreases s.len(),
{
    if s.len() > 0 {
        law_edits_only_when_forced(s.drop_first(), st);
        if !st.edit_assets.force_debuffs {
            assert(!removed_child(s[0], st));
            assert(seq![s[0]] + s.drop_first() =~= s);
        }
    }
}

proof fn lemma_scan_unmodified(s: Seq<XmlNode>, k: int, st: Settings)
    requires
        !st.edit_assets.force_debuffs,
    ensures
        scan(s, k, st) matches Ok(v) ==> !v.modified,
    decreases s.len() - k,
{
    if 0 <= k < s.len() {
        lemma_scan_unmodified(s, k + 1, st);
    }
}

proof fn lemma_object_scan_unmodified(s: Seq<XmlNode>, k: int, st: Settings)
    requires
        !st.edit_assets.force_debuffs,
    ensures
        object_scan(s, k, st) matches Ok(v) ==> !v.modified,
    decreases k,
{
    if k > 0 {
        lemma_object_scan_unmodified(s, k - 1, st);
        if let XmlNode::Element(p) = s[k - 1] {
            lemma_scan_unmodified(p.children@, 0, st);
        }
    }
}

/// Law: unless the user forces the removal of debuffs, reading an `Objects`
/// document reports no edit.
pub proof fn law_objects_unedited(m: Map<u32, ObjectView>, s: Seq<XmlNode>, k: int, st: Settings)
    requires
        !st.edit_assets.force_debuffs,
    ensures
        objects_after(m, s, k, st) matches Ok((_, modified)) ==> !modified,
    decreases k,
{
    if k > 0 {
        law_objects_unedited(m, s, k - 1, st);
        if let XmlNode::Element(e) = s[k - 1] {
            lemma_object_scan_unmodified(e.children@, e.children@.len() as int, st);
        }
    }
}

/// What reading a projectile leaves of its element fixes it by value.
proof fn lemma_projectile_edited_unique(p: XmlElement, a: XmlElement, b: XmlElement, st: Settings)
    requires
        projectile_edited(p, a, st),
        projectile_edited(p, b, st),
    ensures
        element_view(a) == element_view(b),
{
    lemma_same_element(a, b);
}

/// What reading an object leaves of its element fixes it by value.
proof fn lemma_object_edited_unique(o: XmlElement, a: XmlElement, b: XmlElement, st: Settings)
    requires
        object_edited(o, a, st),
        object_edited(o, b, st),
    ensures
        element_view(a) == element_view(b),
{
    assert forall|i: int| 0 <= i < a.children@.len() implies node_view(#[trigger] a.children@[i]) == node_view(b.children@[i]) by {
        assert(child_edited(o.children@[i], a.children@[i], st));
        assert(child_edited(o.children@[i], b.children@[i], st));
        if let XmlNode::Element(p) = o.children@[i] {
            if p.name@ == "Projectile"@ {
                if let XmlNode::Element(x) = a.children@[i] {
                    if let XmlNode::Element(y) = b.children@[i] {
                        lemma_projectile_edited_unique(p, x, y, st);
                    }
                }
            }
        }
    }
    lemma_same_element(a, b);
}

/// What reading an `Objects` document leaves of it fixes it by value.
proof fn lemma_doc_edited_unique(d: XmlElement, a: XmlElement, b: XmlElement, st: Settings)
    requires
        doc_edited(d, a, st),
        doc_edited(d, b, st),
    ensures
        element_view(a) == element_view(b),
{
    assert forall|i: int| 0 <= i < a.children@.len() implies node_view(#[trigger] a.children@[i]) == node_view(b.children@[i]) by {
        assert(doc_child_edited(d.children@[i], a.children@[i], st));
        assert(doc_child_edited(d.children@[i], b.children@[i], st));
        if let XmlNode::Element(e) = d.children@[i] {
            if e.name@ == "Object"@ {
                if let XmlNode::Element(x) = a.children@[i] {
                    if let XmlNode::Element(y) = b.children@[i] {
                        lemma_object_edited_unique(e, x, y, st);
                    }
                }
            }
        }
    }
    lemma_same_element(a, b);
}

/// An `Objects` document as reading it edits it, by value.
/// `doc_edited` fixes what reading leaves up to its value (`lemma_edited_doc`), so
/// any element that it relates to the document stands for it.
pub open spec fn edited_doc(d: XmlElement, st: Settings) -> XmlElementView {
    element_view(choose|e: XmlElement| doc_edited(d, e, st))
}

/// The document that reading leaves is, by value, `edited_doc`.
pub proof fn lemma_edited_doc(d: XmlElement, e: XmlElement, st: Settings)
    requires
        doc_edited(d, e, st),
    ensures
        element_view(e) == edited_doc(d, st),
{
    let c = choose|x: XmlElement| doc_edited(d, x, st);
    lemma_doc_edited_unique(d, e, c, st);
}
} // verus!
