//! Reads the game's XML definitions (objects, grounds, enchantments) into the
//! tables that the modules use, and edits them where the user asked for it.

pub mod enchantments;
pub mod objects;
pub mod tiles;

use vstd::prelude::*;
use std::collections::{BTreeMap, HashMap};
use super::xml::{parse_xml, write_xml, xml_document, xml_written, XmlElement};
use super::XmlAsset;
use crate::config::Settings;
use crate::text::str_eq;
use enchantments::{enchantments_after, enchantments_view, Enchantment, EnchantmentView};
use objects::{doc_edited, edited_doc, lemma_edited_doc, law_objects_unedited, objects_after, objects_view, Object, ObjectView};
use tiles::{grounds_after, tiles_view, Tile, TileView};
use crate::text::{parse_integer, parse_u32_radix, starts_with};
use vstd::string::StrSliceExecFns;

verus! {

/// Why reading the XML definitions failed.
#[derive(Debug, Clone, Copy, PartialEq, Eq, Structural)]
pub enum ProcessError {
    /// An element has no `type` attribute.
    MissingType,
    /// A type or index is no number.
    InvalidId,
    /// An object has neither a `DisplayId` nor an `id`.
    MissingName,
    /// A texture has no `File` or no `Index`.
    MissingTexturePart,
    /// A projectile's `id` is no `u8`.
    InvalidProjectileId,
    /// A damage value is no number.
    InvalidDamageValue,
    /// A projectile has neither exactly `Damage` nor both `MinDamage` and `MaxDamage`.
    InvalidDamage,
    /// A condition effect has no text.
    MissingConditionText,
    /// A condition effect has neither a `duration` nor an `effect` attribute.
    MissingDuration,
    /// A condition effect's duration is no decimal number.
    InvalidDuration,
    /// Two projectiles of an object have one id.
    DuplicateProjectile,
    /// An object has more projectiles than a `u8` counts.
    TooManyProjectiles,
    /// A subattack has no `projectileId`.
    MissingSubattackId,
    /// A subattack's `projectileId` is no `u8`.
    InvalidSubattackId,
    /// A subattack names a projectile that the object does not have.
    UnknownSubattackProjectile,
    /// A ground has no `id`.
    MissingGroundId,
    /// A ground's damage is no `i16`.
    InvalidGroundDamage,
    /// An enchantment has no `DisplayId` text.
    MissingDisplayId,
    /// An enchantment has no `Mutators`.
    MissingMutators,
    /// A mutator has no text.
    MissingMutatorText,
    /// A regeneration mutator has no `stat`.
    MissingStat,
    /// A regeneration mutator of HP has no `amount`.
    MissingAmount,
    /// A regeneration mutator's `amount` is no decimal number.
    InvalidAmount,
    /// An edited document could not be written.
    WriteFailed,
    /// An edited document is longer than the unedited one.
    TooLong,
}

/// The number that an id attribute spells: hexadecimal after `0x`, decimal
/// otherwise.
pub open spec fn id_value(s: Seq<char>) -> Option<u32> {
    let v = if "0x"@.is_prefix_of(s) {
        parse_integer(s.skip(2), 16, 0, u32::MAX as int)
    } else {
        parse_integer(s, 10, 0, u32::MAX as int)
    };
    match v {
        Some(x) => Some(x as u32),
        None => None,
    }
}

/// Reads an id attribute.
pub fn parse_id(id: &str) -> (r: Result<u32, ProcessError>)
    ensures
        match id_value(id@) {
            Some(v) => r == Ok::<u32, ProcessError>(v),
            None => r == Err::<u32, ProcessError>(ProcessError::InvalidId),
        },
{
    let v = if starts_with(id, "0x") {
        proof {
            reveal_strlit("0x");
        }
        let rest = id.substring_char(2, id.unicode_len());
        proof {
            assert(rest@ =~= id@.skip(2));
        }
        parse_u32_radix(rest, 16)
    } else {
        parse_u32_radix(id, 10)
    };
    match v {
        Some(x) => Ok(x),
        None => Err(ProcessError::InvalidId),
    }
}

/// Instructs to overwrite a region of the assets file.
pub struct OverwriteRegion {
    pub position: u64,
    pub data: Vec<u8>,
}

/// The region that replaces an edited document: the written bytes, padded
/// with spaces (which XML ignores) to the unedited size. Longer bytes, or no
/// bytes, are an error.
pub open spec fn padded(written: Option<Seq<u8>>, slot_size: nat) -> Result<Seq<u8>, ProcessError> {
    match written {
        None => Err(ProcessError::WriteFailed),
        Some(b) => if b.len() > slot_size {
            Err(ProcessError::TooLong)
        } else {
            Ok(b + Seq::new((slot_size - b.len()) as nat, |i: int| 32u8))
        },
    }
}

/// Makes the region that overwrites a document of `slot_size` bytes at
/// `position` with what writing the edited document gave.
pub fn overwrite_region(position: u64, slot_size: usize, written: Option<Vec<u8>>) -> (r: Result<OverwriteRegion, ProcessError>)
    ensures
        match padded(
            match written { Some(w) => Some(w@), None => None },
            slot_size as nat,
        ) {
            Ok(d) => r matches Ok(region) && region.position == position && region.data@ == d,
            Err(e) => r == Err::<OverwriteRegion, ProcessError>(e),
        },
{
    let mut data = match written {
        None => return Err(ProcessError::WriteFailed),
        Some(w) => w,
    };
    if data.len() > slot_size {
        return Err(ProcessError::TooLong);
    }
    let ghost start = data@;
    while data.len() < slot_size
        invariant
            start.len() <= data@.len() <= slot_size,
            data@ == start + Seq::new((data@.len() - start.len()) as nat, |i: int| 32u8),
        decreases slot_size - data.len(),
    {
        data.push(32u8);
        assert(data@ =~= start + Seq::new((data@.len() - start.len()) as nat, |i: int| 32u8));
    }
    Ok(OverwriteRegion { position, data })
}


/// The tables read from the XML documents, and the regions of the assets file
/// that edited documents overwrite.
pub struct Processed {
    pub objects: HashMap<u32, Object>,
    pub enchantments: HashMap<u32, Enchantment>,
    pub tiles: HashMap<u32, Tile>,
    pub to_overwrite: Vec<OverwriteRegion>,
}

/// The tables, in specifications.
pub struct TablesView {
    pub objects: Map<u32, ObjectView>,
    pub enchantments: Map<u32, EnchantmentView>,
    pub tiles: Map<u32, TileView>,
}

impl Processed {
    pub open spec fn tables(&self) -> TablesView {
        TablesView {
            objects: objects_view(self.objects@),
            enchantments: enchantments_view(self.enchantments@),
            tiles: tiles_view(self.tiles@),
        }
    }

    /// Empty tables, nothing to overwrite.
    pub fn new() -> (r: Self)
        ensures
            r.objects@ == Map::<u32, Object>::empty(),
            r.enchantments@ == Map::<u32, Enchantment>::empty(),
            r.tiles@ == Map::<u32, Tile>::empty(),
            r.to_overwrite@.len() == 0,
    {
        Processed { objects: HashMap::new(), enchantments: HashMap::new(), tiles: HashMap::new(), to_overwrite: Vec::new() }
    }
}

/// The tables after a document, by the name of its root, and whether the
/// document was edited. Other documents are of no interest.
pub open spec fn document_result(t: TablesView, xml: XmlElement, st: Settings) -> Result<(TablesView, bool), ProcessError> {
    if xml.name@ == "Objects"@ {
        match objects_after(t.objects, xml.children@, xml.children@.len() as int, st) {
            Err(x) => Err(x),
            Ok((m, modified)) => Ok((TablesView { objects: m, ..t }, modified)),
        }
    } else if xml.name@ == "GroundTypes"@ {
        match grounds_after(t.tiles, xml.children@) {
            Err(x) => Err(x),
            Ok(m) => Ok((TablesView { tiles: m, ..t }, false)),
        }
    } else if xml.name@ == "Enchantments"@ {
        match enchantments_after(t.enchantments, xml.children@) {
            Err(x) => Err(x),
            Ok(m) => Ok((TablesView { enchantments: m, ..t }, false)),
        }
    } else {
        Ok((t, false))
    }
}

/// Reads one document into the tables. Returns whether it was edited; only
/// an `Objects` document is edited.
pub fn inner(settings: &Settings, processed: &mut Processed, xml: &mut XmlElement) -> (r: Result<bool, ProcessError>)
    ensures
        final(processed).to_overwrite@ == old(processed).to_overwrite@,
        match document_result(old(processed).tables(), *old(xml), *settings) {
            Ok((t, modified)) => r == Ok::<bool, ProcessError>(modified) && final(processed).tables() == t
                && (if old(xml).name@ == "Objects"@ { doc_edited(*old(xml), *final(xml), *settings) } else { *final(xml) == *old(xml) }),
            Err(x) => r == Err::<bool, ProcessError>(x),
        },
{
    if str_eq(xml.name.as_str(), "Objects") {
        objects::parse(settings, &mut processed.objects, xml)
    } else if str_eq(xml.name.as_str(), "GroundTypes") {
        tiles::parse(&mut processed.tiles, xml)
    } else if str_eq(xml.name.as_str(), "Enchantments") {
        enchantments::parse(&mut processed.enchantments, xml)
    } else {
        Ok(false)
    }
}

/// A region of the assets file by value: its position and its bytes.
pub open spec fn regions_view(v: Seq<OverwriteRegion>) -> Seq<(u64, Seq<u8>)> {
    v.map_values(|r: OverwriteRegion| (r.position, r.data@))
}

/// Empty tables.
pub open spec fn no_tables() -> TablesView {
    TablesView { objects: Map::empty(), enchantments: Map::empty(), tiles: Map::empty() }
}

/// What the first `k` assets give, in file order: the tables, and the regions
/// that overwrite the edited `Objects` documents, each the document as edited,
/// written back and padded to its asset's size. Assets that are no XML
/// document are skipped; the first document that fails to read, or whose
/// edited form cannot be written back into its place, gives the error.
pub open spec fn xml_processed(assets: Seq<XmlAsset>, k: int, st: Settings) -> Result<(TablesView, Seq<(u64, Seq<u8>)>), ProcessError>
    decreases k,
{
    if k <= 0 {
        Ok((no_tables(), Seq::empty()))
    } else {
        match xml_processed(assets, k - 1, st) {
            Err(x) => Err(x),
            Ok((t, regions)) => match xml_document(assets[k - 1].data@) {
                None => Ok((t, regions)),
                Some(doc) => match document_result(t, doc, st) {
                    Err(x) => Err(x),
                    Ok((t2, modified)) => if !modified {
                        Ok((t2, regions))
                    } else {
                        match padded(xml_written(edited_doc(doc, st)), assets[k - 1].slot_size as nat) {
                            Err(x) => Err(x),
                            Ok(d) => Ok((t2, regions.push((assets[k - 1].position, d)))),
                        }
                    },
                },
            },
        }
    }
}

/// Once the first `k` assets fail, all of them do, with the same error.
proof fn lemma_xml_processed_err(assets: Seq<XmlAsset>, k: int, st: Settings)
    requires
        0 <= k <= assets.len(),
        xml_processed(assets, k, st) is Err,
    ensures
        xml_processed(assets, assets.len() as int, st) == xml_processed(assets, k, st),
    decreases assets.len() - k,
{
    if k < assets.len() {
        lemma_xml_processed_err(assets, k + 1, st);
    }
}

/// Reads every text asset that is an XML document (others are skipped) into
/// the tables, in file order. Each edited document is written back and padded
/// to its unedited size, as a region to overwrite; documents are edited only
/// where the user forces the removal of debuffs.
#[verifier::rlimit(60)]
#[verifier::spinoff_prover]
pub fn process_xml(settings: &Settings, xml_assets: &Vec<XmlAsset>) -> (r: Result<Processed, ProcessError>)
    ensures
        match xml_processed(xml_assets@, xml_assets@.len() as int, *settings) {
            Ok((t, regions)) => r matches Ok(p) && p.tables() == t && regions_view(p.to_overwrite@) == regions,
            Err(x) => r == Err::<Processed, ProcessError>(x),
        },
        !settings.edit_assets.force_debuffs ==> (r matches Ok(p) ==> p.to_overwrite@.len() == 0),
{
    let mut processed = Processed::new();
    proof {
        assert(processed.tables() =~= no_tables()) by {
            assert(objects_view(processed.objects@) =~= Map::<u32, ObjectView>::empty());
            assert(enchantments_view(processed.enchantments@) =~= Map::<u32, EnchantmentView>::empty());
            assert(tiles_view(processed.tiles@) =~= Map::<u32, TileView>::empty());
        }
        assert(regions_view(processed.to_overwrite@) =~= Seq::<(u64, Seq<u8>)>::empty());
    }
    let mut i: usize = 0;
    while i < xml_assets.len()
        invariant
            i <= xml_assets@.len(),
            xml_processed(xml_assets@, i as int, *settings) == Ok::<(TablesView, Seq<(u64, Seq<u8>)>), ProcessError>(
                (processed.tables(), regions_view(processed.to_overwrite@)),
            ),
            !settings.edit_assets.force_debuffs ==> processed.to_overwrite@.len() == 0,
        decreases xml_assets.len() - i,
    {
        let asset = &xml_assets[i];
        match parse_xml(asset.data.as_slice()) {
            None => {},
            Some(mut doc) => {
                let ghost t0 = processed.tables();
                let ghost d0 = doc;
                let modified = match inner(settings, &mut processed, &mut doc) {
                    Ok(m) => m,
                    Err(x) => {
                        proof {
                            lemma_xml_processed_err(xml_assets@, i + 1, *settings);
                        }
                        return Err(x);
                    },
                };
                proof {
                    if d0.name@ == "Objects"@ && !settings.edit_assets.force_debuffs {
                        law_objects_unedited(t0.objects, d0.children@, d0.children@.len() as int, *settings);
                    }
                }
                if modified {
                    proof {
                        assert(d0.name@ == "Objects"@);
                        lemma_edited_doc(d0, doc, *settings);
                    }
                    let region = match overwrite_region(asset.position, asset.slot_size, write_xml(&doc)) {
                        Ok(region) => region,
                        Err(x) => {
                            proof {
                                lemma_xml_processed_err(xml_assets@, i + 1, *settings);
                            }
                            return Err(x);
                        },
                    };
                    let ghost before = processed.to_overwrite@;
                    processed.to_overwrite.push(region);
                    assert(regions_view(processed.to_overwrite@) =~= regions_view(before).push((region.position, region.data@)));
                }
            },
        }
        i += 1;
    }
    assert(xml_assets@.len() == i);
    Ok(processed)
}

/// Law: an edited document that fits is padded to exactly its unedited size,
/// and starts with what was written.
pub proof fn law_padded_size(written: Seq<u8>, slot_size: nat)
    requires
        written.len() <= slot_size,
    ensures
        padded(Some(written), slot_size) matches Ok(d) && d.len() == slot_size
            && d.subrange(0, written.len() as int) == written,
{
    let d = written + Seq::new((slot_size - written.len()) as nat, |i: int| 32u8);
    assert(d.subrange(0, written.len() as int) =~= written);
}
} // verus!
