//! The game's assets: reading the assets file and the XML definitions in it.

pub mod extract;
pub mod object_reader;
pub mod raw_parse;
pub mod reverse_changes;
pub mod sprites;
pub mod process;
pub mod xml;

use vstd::prelude::*;

verus! {

/// The damage of a projectile: exact, or a range from which the server picks.
#[derive(Debug, Clone, Copy, PartialEq, Eq, Structural)]
pub enum Damage {
    Exact(i32),
    Range(i32, i32),
}

/// What the autonexus needs to know of an enemy projectile.
#[derive(Debug, Clone, Copy, PartialEq, Eq, Structural)]
pub struct ProjectileInfo {
    pub armor_piercing: bool,
    pub inflicts_cursed: bool,
    pub inflicts_exposed: bool,
    pub inflicts_sick: bool,
    pub inflicts_bleeding: bool,
    pub inflicts_armor_broken: bool,
}

/// The parts of the assets file that this program uses.
pub struct RawAssets {
    /// The `spritesheetf` text asset: where each sprite lies in the textures.
    pub spritesheetf: Vec<u8>,
    pub characters: Texture2D,
    pub map_objects: Texture2D,
    /// Every text asset that looks like XML, in file order.
    pub xml_assets: Vec<XmlAsset>,
}

/// An RGBA32 image.
pub struct Texture2D {
    pub width: u32,
    pub height: u32,
    pub data: Vec<u8>,
}

/// A text asset that looks like XML.
pub struct XmlAsset {
    pub name: String,
    pub data: Vec<u8>,
    /// Where its data lies in the file, for when it is to be overwritten.
    pub position: u64,
    pub slot_size: usize,
}

/// A texture, in specifications.
pub struct TextureView {
    pub width: u32,
    pub height: u32,
    pub data: Seq<u8>,
}

impl View for Texture2D {
    type V = TextureView;

    open spec fn view(&self) -> TextureView {
        TextureView { width: self.width, height: self.height, data: self.data@ }
    }
}

/// An XML text asset, in specifications.
pub struct XmlAssetView {
    pub name: Seq<char>,
    pub data: Seq<u8>,
    pub position: u64,
    pub slot_size: usize,
}

impl View for XmlAsset {
    type V = XmlAssetView;

    open spec fn view(&self) -> XmlAssetView {
        XmlAssetView {
            name: self.name@,
            data: self.data@,
            position: self.position,
            slot_size: self.slot_size,
        }
    }
}

/// The parts of the assets file, in specifications.
pub struct RawAssetsView {
    pub spritesheetf: Seq<u8>,
    pub characters: TextureView,
    pub map_objects: TextureView,
    pub xml_assets: Seq<XmlAssetView>,
}

impl View for RawAssets {
    type V = RawAssetsView;

    open spec fn view(&self) -> RawAssetsView {
        RawAssetsView {
            spritesheetf: self.spritesheetf@,
            characters: self.characters@,
            map_objects: self.map_objects@,
            xml_assets: self.xml_assets@.map_values(|x: XmlAsset| x@),
        }
    }
}

} // verus!
