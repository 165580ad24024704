//! Enchantments: their names and the effects of their mutators. Amounts are
//! kept as the text the document gives; reading them as numbers is left to
//! the program around the library, which may use floating point.

use vstd::prelude::*;
use std::collections::HashMap;
use super::{id_value, parse_id, ProcessError};
use super::tiles::child_text;
use crate::assets::xml::{attr_value, element_text, first_child, XmlElement, XmlNode};
use crate::text::{float_syntax, is_float_text, str_eq};

verus! {

broadcast use vstd::std_specs::hash::group_hash_axioms;

/// What an enchantment's mutator does, as far as the modules care.
pub enum EnchantmentEffect {
    /// Regenerates this much HP per second (the amount's text).
    FlatLifeRegen(String),
    /// Regenerates this percentage of HP per second (the amount's text).
    PercentageLifeRegen(String),
    Other,
}

/// An effect, in specifications.
pub enum EffectView {
    FlatLifeRegen(Seq<char>),
    PercentageLifeRegen(Seq<char>),
    Other,
}

impl View for EnchantmentEffect {
    type V = EffectView;

    open spec fn view(&self) -> EffectView {
        match self {
            EnchantmentEffect::FlatLifeRegen(a) => EffectView::FlatLifeRegen(a@),
            EnchantmentEffect::PercentageLifeRegen(a) => EffectView::PercentageLifeRegen(a@),
            EnchantmentEffect::Other => EffectView::Other,
        }
    }
}

/// The views of a list of effects.
pub open spec fn effects_view(v: Seq<EnchantmentEffect>) -> Seq<EffectView> {
    v.map_values(|x: EnchantmentEffect| x@)
}

pub struct Enchantment {
    pub name: String,
    pub effects: Vec<EnchantmentEffect>,
}

/// An enchantment, in specifications.
pub struct EnchantmentView {
    pub name: Seq<char>,
    pub effects: Seq<EffectView>,
}

impl View for Enchantment {
    type V = EnchantmentView;

    open spec fn view(&self) -> EnchantmentView {
        EnchantmentView { name: self.name@, effects: effects_view(self.effects@) }
    }
}

/// A regeneration mutator: of HP it gives its amount, of other stats nothing.
pub open spec fn regen_of(m: XmlElement, flat: bool) -> Result<EffectView, ProcessError> {
    match attr_value(m.attributes@, "stat"@) {
        None => Err(ProcessError::MissingStat),
        Some(stat) => if stat == "HP"@ {
            match attr_value(m.attributes@, "amount"@) {
                None => Err(ProcessError::MissingAmount),
                Some(a) => if !float_syntax(a) {
                    Err(ProcessError::InvalidAmount)
                } else {
                    Ok(if flat { EffectView::FlatLifeRegen(a) } else { EffectView::PercentageLifeRegen(a) })
                },
            }
        } else {
            Ok(EffectView::Other)
        },
    }
}

/// A mutator element read.
pub open spec fn mutator_of(m: XmlElement) -> Result<EffectView, ProcessError> {
    match element_text(m) {
        None => Err(ProcessError::MissingMutatorText),
        Some(t) => if t == "FlatRegen"@ {
            regen_of(m, true)
        } else if t == "PercentageRegen"@ {
            regen_of(m, false)
        } else {
            Ok(EffectView::Other)
        },
    }
}

/// The effects of the mutator elements among the first nodes, in order.
pub open spec fn effects_of(s: Seq<XmlNode>) -> Result<Seq<EffectView>, ProcessError>
    decreases s.len(),
{
    if s.len() == 0 {
        Ok(Seq::empty())
    } else {
        match effects_of(s.drop_last()) {
            Err(x) => Err(x),
            Ok(v) => match s.last() {
                XmlNode::Element(m) => match mutator_of(m) {
                    Err(x) => Err(x),
                    Ok(f) => Ok(v.push(f)),
                },
                _ => Ok(v),
            },
        }
    }
}

/// An `Enchantment` element read.
pub open spec fn enchantment_of(e: XmlElement) -> Result<(u32, EnchantmentView), ProcessError> {
    match attr_value(e.attributes@, "type"@) {
        None => Err(ProcessError::MissingType),
        Some(t) => match id_value(t) {
            None => Err(ProcessError::InvalidId),
            Some(k) => match child_text(e, "DisplayId"@) {
                None => Err(ProcessError::MissingDisplayId),
                Some(name) => match first_child(e.children@, "Mutators"@) {
                    None => Err(ProcessError::MissingMutators),
                    Some(i) => match e.children@[i] {
                        XmlNode::Element(ms) => match effects_of(ms.children@) {
                            Err(x) => Err(x),
                            Ok(effects) => Ok((k, EnchantmentView { name, effects })),
                        },
                        _ => Err(ProcessError::MissingMutators),
                    },
                },
            },
        },
    }
}

/// The enchantment table after the children of an `Enchantments` document.
pub open spec fn enchantments_after(m: Map<u32, EnchantmentView>, s: Seq<XmlNode>) -> Result<Map<u32, EnchantmentView>, ProcessError>
    decreases s.len(),
{
    if s.len() == 0 {
        Ok(m)
    } else {
        match enchantments_after(m, s.drop_last()) {
            Err(x) => Err(x),
            Ok(m2) => match s.last() {
                XmlNode::Element(e) => if e.name@ == "Enchantment"@ {
                    match enchantment_of(e) {
                        Err(x) => Err(x),
                        Ok((k, v)) => Ok(m2.insert(k, v)),
                    }
                } else {
                    Ok(m2)
                },
                _ => Ok(m2),
            },
        }
    }
}

/// The views of an enchantment table.
pub open spec fn enchantments_view(m: Map<u32, Enchantment>) -> Map<u32, EnchantmentView> {
    m.map_values(|x: Enchantment| x@)
}

fn regen(mutator: &XmlElement, flat: bool) -> (r: Result<EnchantmentEffect, ProcessError>)
    ensures
        match regen_of(*mutator, flat) {
            Ok(v) => r matches Ok(x) && x@ == v,
            Err(x) => r == Err::<EnchantmentEffect, ProcessError>(x),
        },
{
    match mutator.attr("stat") {
        None => Err(ProcessError::MissingStat),
        Some(stat) => {
            if str_eq(stat.as_str(), "HP") {
                match mutator.attr("amount") {
                    None => Err(ProcessError::MissingAmount),
                    Some(a) => {
                        if !is_float_text(a.as_str()) {
                            return Err(ProcessError::InvalidAmount);
                        }
                        let amount = a.clone();
                        Ok(if flat {
                            EnchantmentEffect::FlatLifeRegen(amount)
                        } else {
                            EnchantmentEffect::PercentageLifeRegen(amount)
                        })
                    },
                }
            } else {
                Ok(EnchantmentEffect::Other)
            }
        },
    }
}

/// Reads a mutator.
pub fn parse_mutator(mutator: &XmlElement) -> (r: Result<EnchantmentEffect, ProcessError>)
    ensures
        match mutator_of(*mutator) {
            Ok(v) => r matches Ok(x) && x@ == v,
            Err(x) => r == Err::<EnchantmentEffect, ProcessError>(x),
        },
{
    match mutator.get_text() {
        None => Err(ProcessError::MissingMutatorText),
        Some(t) => {
            if str_eq(t.as_str(), "FlatRegen") {
                regen(mutator, true)
            } else if str_eq(t.as_str(), "PercentageRegen") {
                regen(mutator, false)
            } else {
                Ok(EnchantmentEffect::Other)
            }
        },
    }
}

/// Reads one `Enchantment` element into the table. Nothing is edited.
pub fn parse_enchantment(enchantments: &mut HashMap<u32, Enchantment>, element: &XmlElement) -> (r: Result<bool, ProcessError>)
    ensures
        match enchantment_of(*element) {
            Ok((k, v)) => r == Ok::<bool, ProcessError>(false)
                && enchantments_view(final(enchantments)@) == enchantments_view(old(enchantments)@).insert(k, v),
            Err(x) => r == Err::<bool, ProcessError>(x),
        },
{
    let kind = match element.attr("type") {
        None => return Err(ProcessError::MissingType),
        Some(t) => parse_id(t.as_str())?,
    };
    let name = match element.get_child_text("DisplayId") {
        None => return Err(ProcessError::MissingDisplayId),
        Some(n) => n,
    };
    let mutators = match element.get_child("Mutators") {
        None => return Err(ProcessError::MissingMutators),
        Some(m) => m,
    };
    let mut effects: Vec<EnchantmentEffect> = Vec::new();
    let mut i: usize = 0;
    assert(mutators.children@.take(0) =~= Seq::<XmlNode>::empty());
    assert(effects_view(effects@) =~= Seq::<EffectView>::empty());
    let ghost whole = match effects_of(mutators.children@) {
        Err(x) => Err(x),
        Ok(effects) => Ok((kind, EnchantmentView { name: name@, effects })),
    };
    assert(enchantment_of(*element) == whole);
    while i < mutators.children.len()
        invariant
            i <= mutators.children@.len(),
            enchantment_of(*element) == whole,
            whole == match effects_of(mutators.children@) {
                Err(x) => Err(x),
                Ok(effects) => Ok((kind, EnchantmentView { name: name@, effects })),
            },
            effects_of(mutators.children@.take(i as int)) == Ok::<Seq<EffectView>, ProcessError>(effects_view(effects@)),
        decreases mutators.children.len() - i,
    {
        assert(mutators.children@.take(i + 1).drop_last() =~= mutators.children@.take(i as int));
        match &mutators.children[i] {
            XmlNode::Element(m) => {
                match parse_mutator(m) {
                    Ok(f) => {
                        let ghost before = effects@;
                        effects.push(f);
                        assert(effects_view(effects@) =~= effects_view(before).push(f@));
                    },
                    Err(x) => {
                        proof {
                            lemma_effects_err(mutators.children@, (i + 1) as int);
                        }
                        return Err(x);
                    },
                }
            },
            _ => {},
        }
        i += 1;
    }
    assert(mutators.children@.take(mutators.children.len() as int) =~= mutators.children@);
    let enchantment = Enchantment { name, effects };
    enchantments.insert(kind, enchantment);
    assert(enchantments_view(enchantments@) =~= enchantments_view(old(enchantments)@).insert(kind, enchantment@));
    Ok(false)
}

/// Reads every `Enchantment` child of an `Enchantments` document.
pub fn parse(enchantments: &mut HashMap<u32, Enchantment>, xml: &XmlElement) -> (r: Result<bool, ProcessError>)
    ensures
        match enchantments_after(enchantments_view(old(enchantments)@), xml.children@) {
            Ok(m) => r == Ok::<bool, ProcessError>(false) && enchantments_view(final(enchantments)@) == m,
            Err(x) => r == Err::<bool, ProcessError>(x),
        },
{
    let mut i: usize = 0;
    while i < xml.children.len()
        invariant
            i <= xml.children@.len(),
            enchantments_after(enchantments_view(old(enchantments)@), xml.children@.take(i as int))
                == Ok::<Map<u32, EnchantmentView>, ProcessError>(enchantments_view(enchantments@)),
        decreases xml.children.len() - i,
    {
        assert(xml.children@.take(i + 1).drop_last() =~= xml.children@.take(i as int));
        match &xml.children[i] {
            XmlNode::Element(e) => {
                if str_eq(e.name.as_str(), "Enchantment") {
                    match parse_enchantment(enchantments, e) {
                        Ok(_) => {},
                        Err(x) => {
                            proof {
                                lemma_enchantments_err(enchantments_view(old(enchantments)@), xml.children@, (i + 1) as int);
                            }
                            return Err(x);
                        },
                    }
                }
            },
            _ => {},
        }
        i += 1;
    }
    assert(xml.children@.take(xml.children.len() as int) =~= xml.children@);
    Ok(false)
}

proof fn lemma_effects_err(s: Seq<XmlNode>, k: int)
    requires
        0 <= k <= s.len(),
        effects_of(s.take(k)) is Err,
    ensures
        effects_of(s) == effects_of(s.take(k)),
    decreases s.len() - k,
{
    if k == s.len() {
        assert(s.take(k) =~= s);
    } else {
        assert(s.take(k + 1).drop_last() =~= s.take(k));
        lemma_effects_err(s, k + 1);
    }
}

proof fn lemma_enchantments_err(m: Map<u32, EnchantmentView>, s: Seq<XmlNode>, k: int)
    requires
        0 <= k <= s.len(),
        enchantments_after(m, s.take(k)) is Err,
    ensures
        enchantments_after(m, s) == enchantments_after(m, s.take(k)),
    decreases s.len() - k,
{
    if k == s.len() {
        assert(s.take(k) =~= s);
    } else {
        assert(s.take(k + 1).drop_last() =~= s.take(k));
        lemma_enchantments_err(m, s, k + 1);
    }
}

} // verus!
