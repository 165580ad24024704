//! Grounds: their names, the damage they deal, and which push the player.

use vstd::prelude::*;
use std::collections::HashMap;
use super::{id_value, parse_id, ProcessError};
use crate::assets::xml::{attr_value, element_text, first_child, has_child_named, lemma_first_child_some, XmlElement, XmlNode};
use crate::text::{parse_i16, parse_integer, str_eq};

verus! {

broadcast use vstd::std_specs::hash::group_hash_axioms;

/// A ground type.
pub struct Tile {
    pub name: String,
    pub damage: Option<i16>,
    pub is_conveyor: bool,
}

/// A ground type, in specifications.
pub struct TileView {
    pub name: Seq<char>,
    pub damage: Option<i16>,
    pub is_conveyor: bool,
}

impl View for Tile {
    type V = TileView;

    open spec fn view(&self) -> TileView {
        TileView { name: self.name@, damage: self.damage, is_conveyor: self.is_conveyor }
    }
}

/// The text of a child element, as `get_child_text` gives it.
pub open spec fn child_text(e: XmlElement, name: Seq<char>) -> Option<Seq<char>> {
    match first_child(e.children@, name) {
        Some(i) => match e.children@[i] {
            XmlNode::Element(c) => element_text(c),
            _ => None,
        },
        None => None,
    }
}

/// The damage text of a ground: `MaxDamage`, else `Damage`.
pub open spec fn ground_damage_text(e: XmlElement) -> Option<Seq<char>> {
    match child_text(e, "MaxDamage"@) {
        Some(t) => Some(t),
        None => child_text(e, "Damage"@),
    }
}

/// A `Ground` element read.
pub open spec fn ground_of(e: XmlElement) -> Result<(u32, TileView), ProcessError> {
    match attr_value(e.attributes@, "type"@) {
        None => Err(ProcessError::MissingType),
        Some(t) => match id_value(t) {
            None => Err(ProcessError::InvalidId),
            Some(ground_type) => match attr_value(e.attributes@, "id"@) {
                None => Err(ProcessError::MissingGroundId),
                Some(name) => {
                    let damage = match ground_damage_text(e) {
                        None => Ok(None),
                        Some(d) => match parse_integer(d, 10, i16::MIN as int, i16::MAX as int) {
                            Some(v) => Ok(Some(v as i16)),
                            None => Err(ProcessError::InvalidGroundDamage),
                        },
                    };
                    match damage {
                        Err(x) => Err(x),
                        Ok(damage) => Ok((
                            ground_type,
                            TileView { name, damage, is_conveyor: first_child(e.children@, "Push"@) is Some },
                        )),
                    }
                },
            },
        },
    }
}

/// The ground table after the children of a `GroundTypes` document, in order.
pub open spec fn grounds_after(m: Map<u32, TileView>, s: Seq<XmlNode>) -> Result<Map<u32, TileView>, ProcessError>
    decreases s.len(),
{
    if s.len() == 0 {
        Ok(m)
    } else {
        match grounds_after(m, s.drop_last()) {
            Err(x) => Err(x),
            Ok(m2) => match s.last() {
                XmlNode::Element(e) => if e.name@ == "Ground"@ {
                    match ground_of(e) {
                        Err(x) => Err(x),
                        Ok((k, v)) => Ok(m2.insert(k, v)),
                    }
                } else {
                    Ok(m2)
                },
                _ => Ok(m2),
            },
        }
    }
}

/// Law: a ground that reads is a conveyor exactly when one of its children is
/// a `Push` element.
pub proof fn law_conveyor_tiles(e: XmlElement)
    ensures
        ground_of(e) matches Ok((_, v)) ==> (v.is_conveyor <==> has_child_named(e.children@, "Push"@)),
{
    lemma_first_child_some(e.children@, "Push"@);
}

/// The views of a ground table.
pub open spec fn tiles_view(m: Map<u32, Tile>) -> Map<u32, TileView> {
    m.map_values(|t: Tile| t@)
}

/// Reads one `Ground` element into the table.
pub fn parse_ground(tiles: &mut HashMap<u32, Tile>, ground: &XmlElement) -> (r: Result<bool, ProcessError>)
    ensures
        match ground_of(*ground) {
            Ok((k, v)) => r == Ok::<bool, ProcessError>(false) && tiles_view(final(tiles)@) == tiles_view(old(tiles)@).insert(k, v),
            Err(x) => r == Err::<bool, ProcessError>(x),
        },
{
    let ground_type = match ground.attr("type") {
        None => return Err(ProcessError::MissingType),
        Some(t) => parse_id(t.as_str())?,
    };
    let name = match ground.attr("id") {
        None => return Err(ProcessError::MissingGroundId),
        Some(n) => n.clone(),
    };
    let is_conveyor = ground.get_child("Push").is_some();
    let text = match ground.get_child_text("MaxDamage") {
        Some(t) => Some(t),
        None => ground.get_child_text("Damage"),
    };
    let damage = match text {
        None => None,
        Some(t) => match parse_i16(t.as_str()) {
            Some(v) => Some(v),
            None => return Err(ProcessError::InvalidGroundDamage),
        },
    };
    let tile = Tile { name, damage, is_conveyor };
    tiles.insert(ground_type, tile);
    assert(tiles_view(tiles@) =~= tiles_view(old(tiles)@).insert(ground_type, tile@));
    Ok(false)
}

/// Reads every `Ground` child of a `GroundTypes` document. Nothing is edited.
pub fn parse(tiles: &mut HashMap<u32, Tile>, xml: &XmlElement) -> (r: Result<bool, ProcessError>)
    ensures
        match grounds_after(tiles_view(old(tiles)@), xml.children@) {
            Ok(m) => r == Ok::<bool, ProcessError>(false) && tiles_view(final(tiles)@) == m,
            Err(x) => r == Err::<bool, ProcessError>(x),
        },
{
    let mut i: usize = 0;
    while i < xml.children.len()
        invariant
            i <= xml.children@.len(),
            grounds_after(tiles_view(old(tiles)@), xml.children@.take(i as int)) == Ok::<Map<u32, TileView>, ProcessError>(tiles_view(tiles@)),
        decreases xml.children.len() - i,
    {
        assert(xml.children@.take(i + 1).drop_last() =~= xml.children@.take(i as int));
        match &xml.children[i] {
            XmlNode::Element(e) => {
                if str_eq(e.name.as_str(), "Ground") {
                    match parse_ground(tiles, e) {
                        Ok(_) => {},
                        Err(x) => {
                            proof {
                                lemma_grounds_err(tiles_view(old(tiles)@), xml.children@, (i + 1) as int);
                            }
                            return Err(x);
                        },
                    }
                }
            },
            _ => {},
        }
        i += 1;
    }
    assert(xml.children@.take(xml.children.len() as int) =~= xml.children@);
    Ok(false)
}

/// Once reading fails, it stays failed with the same error.
proof fn lemma_grounds_err(m: Map<u32, TileView>, s: Seq<XmlNode>, k: int)
    requires
        0 <= k <= s.len(),
        grounds_after(m, s.take(k)) is Err,
    ensures
        grounds_after(m, s) == grounds_after(m, s.take(k)),
    decreases s.len() - k,
{
    if k == s.len() {
        assert(s.take(k) =~= s);
    } else {
        assert(s.take(k + 1).drop_last() =~= s.take(k));
        lemma_grounds_err(m, s, k + 1);
    }
}

} // verus!
