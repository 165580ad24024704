//! Cutting sprites out of the game's texture atlases and encoding them as PNG.

use vstd::prelude::*;
use std::collections::{BTreeMap, HashMap};
use super::{RawAssets, Texture2D, TextureView};
use super::process::objects::Object;
use crate::text::str_eq;

verus! {

broadcast use vstd::std_specs::btree::group_btree_axioms, vstd::laws_cmp::group_laws_cmp,
    vstd::std_specs::hash::group_hash_axioms;

/// Sprite index to PNG data.
pub type Spritesheet = BTreeMap<u32, Vec<u8>>;

/// Every sprite, by spritesheet name.
pub struct Sprites {
    pub animated_spritesheets: SheetsByName,
    pub spritesheets: SheetsByName,
}

/// Spritesheets by name, kept as a list in which the last entry under a name
/// is the one that counts.
pub struct SheetsByName {
    pub entries: Vec<(String, Spritesheet)>,
}

/// The sheets of a list by name, each as its PNG files by index; a later
/// entry hides an earlier one of the same name.
pub open spec fn named_sheets(s: Seq<(String, Spritesheet)>) -> Map<Seq<char>, Map<u32, Seq<u8>>>
    decreases s.len(),
{
    if s.len() == 0 {
        Map::empty()
    } else {
        named_sheets(s.drop_last()).insert(s.last().0@, sheet_view(s.last().1))
    }
}

/// Entries after `k` that have another name do not change what a name finds.
proof fn lemma_named_prefix(s: Seq<(String, Spritesheet)>, k: int, n: Seq<char>)
    requires
        0 <= k <= s.len(),
        forall|j: int| k <= j < s.len() ==> (#[trigger] s[j]).0@ != n,
    ensures
        named_sheets(s).get(n) == named_sheets(s.take(k)).get(n),
    decreases s.len(),
{
    if k == s.len() {
        assert(s.take(k) =~= s);
    } else {
        assert(s.last() == s[s.len() - 1]);
        lemma_named_prefix(s.drop_last(), k, n);
        assert(s.drop_last().take(k) =~= s.take(k));
    }
}

/// Taking out an entry of another name does not change what a name finds.
proof fn lemma_named_remove(s: Seq<(String, Spritesheet)>, i: int, n: Seq<char>)
    requires
        0 <= i < s.len(),
        s[i].0@ != n,
    ensures
        named_sheets(s.remove(i)).get(n) == named_sheets(s).get(n),
    decreases s.len(),
{
    if i == s.len() - 1 {
        assert(s.remove(i) =~= s.drop_last());
    } else {
        lemma_named_remove(s.drop_last(), i, n);
        assert(s.remove(i).drop_last() =~= s.drop_last().remove(i));
        assert(s.remove(i).last() == s.last());
    }
}

impl View for SheetsByName {
    type V = Map<Seq<char>, Map<u32, Seq<u8>>>;

    open spec fn view(&self) -> Self::V {
        named_sheets(self.entries@)
    }
}

impl SheetsByName {
    pub fn new() -> (r: Self)
        ensures
            r@ == Map::<Seq<char>, Map<u32, Seq<u8>>>::empty(),
    {
        SheetsByName { entries: Vec::new() }
    }

    /// The position of the entry that counts under `name`.
    fn position(&self, name: &str) -> (r: Option<usize>)
        ensures
            match r {
                None => !self@.contains_key(name@),
                Some(i) => i < self.entries@.len() && self.entries@[i as int].0@ == name@
                    && self@.get(name@) == Some(sheet_view(self.entries@[i as int].1)),
            },
    {
        let mut i: usize = self.entries.len();
        while i > 0
            invariant
                i <= self.entries@.len(),
                forall|j: int| i <= j < self.entries@.len() ==> (#[trigger] self.entries@[j]).0@ != name@,
            decreases i,
        {
            if str_eq(self.entries[i - 1].0.as_str(), name) {
                proof {
                    let s = self.entries@;
                    lemma_named_prefix(s, i as int, name@);
                    assert(s.take(i as int).drop_last() =~= s.take(i - 1));
                    assert(s.take(i as int).last() == s[i - 1]);
                }
                return Some(i - 1);
            }
            i -= 1;
        }
        proof {
            lemma_named_prefix(self.entries@, 0, name@);
        }
        None
    }

    /// The sheet under `name`.
    pub fn get(&self, name: &str) -> (r: Option<&Spritesheet>)
        ensures
            match r {
                None => !self@.contains_key(name@),
                Some(sh) => self@.get(name@) == Some(sheet_view(*sh)),
            },
    {
        match self.position(name) {
            None => None,
            Some(i) => Some(&self.entries[i].1),
        }
    }

    /// Puts `sheet` under `name`, in place of any sheet of that name.
    pub fn insert(&mut self, name: String, sheet: Spritesheet)
        ensures
            final(self)@ == old(self)@.insert(name@, sheet_view(sheet)),
    {
        let ghost before = self.entries@;
        self.entries.push((name, sheet));
        proof {
            assert(self.entries@.drop_last() =~= before);
        }
    }

    /// Adds the PNG `png` under `index` to the sheet under `name`, which
    /// starts empty.
    pub fn insert_sprite(&mut self, name: &String, index: u32, png: Vec<u8>)
        ensures
            final(self)@ == old(self)@.insert(name@, match old(self)@.get(name@) {
                Some(m) => m.insert(index, png@),
                None => Map::<u32, Seq<u8>>::empty().insert(index, png@),
            }),
    {
        let ghost before = self.entries@;
        match self.position(name.as_str()) {
            None => {
                let mut sheet: Spritesheet = BTreeMap::new();
                sheet.insert(index, png);
                assert(sheet_view(sheet) =~= Map::<u32, Seq<u8>>::empty().insert(index, png@));
                self.insert(name.clone(), sheet);
            },
            Some(i) => {
                let (n, mut sheet) = self.entries.remove(i);
                let ghost old_sheet = sheet;
                sheet.insert(index, png);
                assert(sheet_view(sheet) =~= sheet_view(old_sheet).insert(index, png@));
                let ghost removed = self.entries@;
                self.entries.push((n, sheet));
                proof {
                    assert(removed =~= before.remove(i as int));
                    assert(self.entries@.drop_last() =~= removed);
                    assert forall|m: Seq<char>| m != name@ implies
                        #[trigger] named_sheets(removed).get(m) == named_sheets(before).get(m) by {
                        lemma_named_remove(before, i as int, m);
                    }
                    let a = named_sheets(self.entries@);
                    let b = named_sheets(before).insert(name@, sheet_view(sheet));
                    assert forall|m: Seq<char>| a.get(m) == b.get(m) by {
                        if m != name@ {
                            assert(named_sheets(removed).get(m) == named_sheets(before).get(m));
                        }
                    }
                    assert(a =~= b) by {
                        assert forall|m: Seq<char>| a.contains_key(m) == b.contains_key(m) by {
                            assert(a.get(m) == b.get(m));
                        }
                        assert forall|m: Seq<char>| a.contains_key(m) implies a[m] == b[m] by {
                            assert(a.get(m) == b.get(m));
                        }
                    }
                }
            },
        }
    }
}

/// Why a sprite could not be cut out.
#[derive(Debug, Clone, Copy, PartialEq, Eq, Structural)]
pub enum SpriteError {
    /// The sprite's bounds leave the atlas.
    OutOfBounds,
}

/// One row of a sprite: `w4` bytes of row `row` of an image `stride` bytes wide,
/// from byte `x4` of the row on.
pub open spec fn image_row(d: Seq<u8>, stride: int, x4: int, w4: int, row: int) -> Seq<u8> {
    d.subrange(stride * row + x4, stride * row + x4 + w4)
}

/// The rows `top - 1`, `top - 2`, ..., `top - k` of a sprite, one after the
/// other: the image turned upside down.
pub open spec fn rows_down(d: Seq<u8>, stride: int, x4: int, w4: int, top: int, k: nat) -> Seq<u8>
    decreases k,
{
    if k == 0 {
        Seq::empty()
    } else {
        rows_down(d, stride, x4, w4, top, (k - 1) as nat) + image_row(d, stride, x4, w4, top - k)
    }
}

/// The sprite at `(x, y)` of size `w` by `h` in an RGBA image, upside down.
pub open spec fn subimage(t: TextureView, x: u32, y: u32, w: u32, h: u32) -> Seq<u8> {
    rows_down(t.data, t.width * 4, x * 4, w * 4, y + h, h as nat)
}

/// The rows that a sprite within the image's bounds reads are in its data.
pub open spec fn rows_present(t: TextureView, x: u32, y: u32, w: u32, h: u32) -> bool {
    x + w <= t.width && y + h <= t.height && h > 0 ==> t.width * 4 * (y + h - 1) + (x + w) * 4 <= t.data.len()
}

/// Cuts the sprite at `(x, y)` of size `width` by `height` out of an RGBA
/// image, turned upside down.
pub fn extract_subimage(image: &Texture2D, x: u32, y: u32, width: u32, height: u32) -> (r: Result<Vec<u8>, SpriteError>)
    requires
        x + width <= u32::MAX,
        y + height <= u32::MAX,
        x + width <= image.width && y + height <= image.height ==> width * height <= u32::MAX
            && image.width * 4 <= usize::MAX,
        rows_present(image@, x, y, width, height),
    ensures
        if x + width > image.width || y + height > image.height {
            r == Err::<Vec<u8>, SpriteError>(SpriteError::OutOfBounds)
        } else {
            r matches Ok(v) && v@ == subimage(image@, x, y, width, height)
        },
{
    if x + width > image.width || y + height > image.height {
        return Err(SpriteError::OutOfBounds);
    }
    let ghost t = image@;
    let mut sub: Vec<u8> = Vec::new();
    let stride: usize = image.width as usize * 4;
    let sub_stride: usize = width as usize * 4;
    let mut k: u32 = 0;
    while k < height
        invariant
            k <= height,
            t == image@,
            stride == image.width * 4,
            sub_stride == width * 4,
            x + width <= image.width,
            y + height <= image.height,
            rows_present(t, x, y, width, height),
            sub@ == rows_down(t.data, stride as int, x * 4, sub_stride as int, y + height, k as nat),
        decreases height - k,
    {
        let row = y + height - 1 - k;
        assert(stride * row + x * 4 + sub_stride <= t.data.len()) by (nonlinear_arith)
            requires
                row <= y + height - 1,
                stride == image.width * 4,
                sub_stride == width * 4,
                x + width <= image.width,
                height > 0,
                image.width * 4 * (y + height - 1) + (x + width) * 4 <= t.data.len(),
        ;
        let dlen = image.data.len();
        assert(stride * (row as usize) + x * 4 + sub_stride <= dlen);
        let start: usize = stride * row as usize + x as usize * 4;
        let end: usize = start + sub_stride;
        let mut j: usize = start;
        let ghost before = sub@;
        while j < end
            invariant
                start <= j <= end,
                end <= image.data@.len(),
                sub@ == before + image.data@.subrange(start as int, j as int),
            decreases end - j,
        {
            sub.push(image.data[j]);
            assert(image.data@.subrange(start as int, j + 1) =~= image.data@.subrange(start as int, j as int).push(image.data@[j as int]));
            j += 1;
        }
        assert(image_row(t.data, stride as int, x * 4, sub_stride as int, y + height - (k + 1)) =~= image.data@.subrange(start as int, end as int));
        k += 1;
    }
    Ok(sub)
}

/// The PNG file (RGBA, 8 bits per channel, the `png` crate's default options)
/// that encodes an image.
pub uninterp spec fn png_rgba8(width: u32, height: u32, pixels: Seq<u8>) -> Seq<u8>;

/// Calls the `png` crate's `Encoder` (RGBA, 8 bits per channel) on an image
/// and returns the file it writes. The encoder fails only on an empty image or
/// pixel data of the wrong length, which `requires` leaves out.
#[verifier::external_body]
fn encode_png(width: u32, height: u32, pixels: &[u8]) -> (r: Vec<u8>)
    requires
        width > 0,
        height > 0,
        pixels@.len() == width * height * 4,
    ensures
        r@ == png_rgba8(width, height, pixels@),
{
    let mut out: Vec<u8> = Vec::new();
    let mut encoder = png::Encoder::new(&mut out, width, height);
    encoder.set_color(png::ColorType::Rgba);
    encoder.set_depth(png::BitDepth::Eight);
    let mut writer = encoder.write_header().unwrap();
    writer.write_image_data(pixels).unwrap();
    writer.finish().unwrap();
    out
}

/// The atlas that a sprite lies in: 2 is the characters, 4 the map objects.
pub open spec fn atlas_of(raw: RawAssets, atlas_id: i64) -> Option<Texture2D> {
    if atlas_id == 2 {
        Some(raw.characters)
    } else if atlas_id == 4 {
        Some(raw.map_objects)
    } else {
        None
    }
}

/// A sprite can be cut from its atlas: its position, counted from the bottom,
/// lies within the atlas's height, and its rows lie in the atlas's data.
pub open spec fn sprite_fits(t: TextureView, x: u32, pos_y: u32, w: u32, h: u32) -> bool {
    &&& pos_y + h <= t.height
    &&& x + w <= u32::MAX
    &&& w * h <= u32::MAX
    &&& t.width * 4 <= usize::MAX
    &&& rows_present(t, x, (t.height - pos_y - h) as u32, w, h)
}

/// The PNG data of a sprite: `None` for atlases other than the characters
/// and the map objects.
pub fn process_sprite(raw: &RawAssets, atlas_id: i64, x: u32, pos_y: u32, w: u32, h: u32) -> (r: Result<Option<Vec<u8>>, SpriteError>)
    requires
        w > 0,
        h > 0,
        atlas_of(*raw, atlas_id) matches Some(t) ==> sprite_fits(t@, x, pos_y, w, h),
    ensures
        match atlas_of(*raw, atlas_id) {
            None => r matches Ok(None),
            Some(t) => {
                let y = (t.height - pos_y - h) as u32;
                if x + w > t.width || y + h > t.height {
                    r == Err::<Option<Vec<u8>>, SpriteError>(SpriteError::OutOfBounds)
                } else {
                    r matches Ok(Some(png)) && png@ == png_rgba8(w, h, subimage(t@, x, y, w, h))
                }
            },
        },
{
    let sheet = if atlas_id == 2 {
        &raw.characters
    } else if atlas_id == 4 {
        &raw.map_objects
    } else {
        return Ok(None);
    };
    let y = sheet.height - pos_y - h;
    let sub = extract_subimage(sheet, x, y, w, h)?;
    proof {
        let t = sheet@;
        assert forall|i: int| (y + h) - h <= i < y + h implies #[trigger] row_ok(t.data, t.width * 4, x * 4, w * 4, i) by {
            assert(0 <= (t.width * 4) * i + x * 4 && (t.width * 4) * i + x * 4 + w * 4 <= t.data.len()) by (nonlinear_arith)
                requires
                    y <= i < y + h,
                    x + w <= t.width,
                    t.width * 4 * (y + h - 1) + (x + w) * 4 <= t.data.len(),
            ;
        }
        lemma_rows_len(t.data, t.width * 4, x * 4, w * 4, y + h, h as nat);
        assert((w * 4) * h == w * h * 4) by (nonlinear_arith);
    }
    Ok(Some(encode_png(w, h, sub.as_slice())))
}

/// Whether row `i` lies within the data.
pub open spec fn row_ok(d: Seq<u8>, stride: int, x4: int, w4: int, i: int) -> bool {
    0 <= stride * i + x4 && stride * i + x4 + w4 <= d.len()
}

/// A cut-out image has `w4` bytes per row.
proof fn lemma_rows_len(d: Seq<u8>, stride: int, x4: int, w4: int, top: int, k: nat)
    requires
        w4 >= 0,
        forall|i: int| top - k <= i < top ==> #[trigger] row_ok(d, stride, x4, w4, i),
    ensures
        rows_down(d, stride, x4, w4, top, k).len() == w4 * k,
    decreases k,
{
    if k > 0 {
        assert(row_ok(d, stride, x4, w4, top - k));
        assert(image_row(d, stride, x4, w4, top - k).len() == w4);
        lemma_rows_len(d, stride, x4, w4, top, (k - 1) as nat);
        assert(w4 * k == w4 * (k - 1) + w4) by (nonlinear_arith);
        assert(rows_down(d, stride, x4, w4, top, k) == rows_down(d, stride, x4, w4, top, (k - 1) as nat) + image_row(d, stride, x4, w4, top - k));
    } else {
        assert(w4 * k == 0) by (nonlinear_arith)
            requires
                k == 0,
        ;
    }
}


/// Law: a sprite cut out of an atlas has four bytes for each of its pixels.
pub proof fn law_subimage_size(t: TextureView, x: u32, y: u32, w: u32, h: u32)
    requires
        x + w <= t.width,
        y + h <= t.height,
        t.width * 4 * t.height <= t.data.len(),
    ensures
        subimage(t, x, y, w, h).len() == w * h * 4,
{
    assert forall|i: int| (y + h) - h <= i < y + h implies #[trigger] row_ok(t.data, t.width * 4, x * 4, w * 4, i) by {
        assert(0 <= (t.width * 4) * i + x * 4 && (t.width * 4) * i + x * 4 + w * 4 <= t.data.len()) by (nonlinear_arith)
            requires
                y <= i < y + h,
                x + w <= t.width,
                y + h <= t.height,
                t.width * 4 * t.height <= t.data.len(),
        ;
    }
    lemma_rows_len(t.data, t.width * 4, x * 4, w * 4, y + h, h as nat);
    assert((w * 4) * h == w * h * 4) by (nonlinear_arith);
}

/// A sprite's entry in the sprite sheet index: its index in its sheet, the
/// atlas it lies in, and its rectangle, `y` counted from the bottom of the atlas.
#[derive(Debug, Clone, Copy)]
pub struct SpriteRecord {
    pub index: u32,
    pub atlas_id: i64,
    pub x: u32,
    pub y: u32,
    pub w: u32,
    pub h: u32,
}

/// A sprite sheet of the index: its name and its sprites.
#[derive(Debug, Clone)]
pub struct SheetRecord {
    pub name: String,
    pub sprites: Vec<SpriteRecord>,
}

/// An animated sprite of the index: the name of its sheet, its index there,
/// and where it lies.
#[derive(Debug, Clone)]
pub struct AnimatedRecord {
    pub name: String,
    pub index: u32,
    pub sprite: SpriteRecord,
}

/// A sprite can be encoded: it is not empty and, in an atlas that is read,
/// it can be cut out.
pub open spec fn record_fits(raw: RawAssets, s: SpriteRecord) -> bool {
    &&& s.w > 0
    &&& s.h > 0
    &&& atlas_of(raw, s.atlas_id) matches Some(t) ==> sprite_fits(t@, s.x, s.y, s.w, s.h)
}

/// The PNG of a sprite: `None` for atlases that are not read.
pub open spec fn sprite_png(raw: RawAssets, s: SpriteRecord) -> Result<Option<Seq<u8>>, SpriteError> {
    match atlas_of(raw, s.atlas_id) {
        None => Ok(None),
        Some(t) => {
            let y = (t.height - s.y - s.h) as u32;
            if s.x + s.w > t.width || y + s.h > t.height {
                Err(SpriteError::OutOfBounds)
            } else {
                Ok(Some(png_rgba8(s.w, s.h, subimage(t@, s.x, y, s.w, s.h))))
            }
        },
    }
}

/// A sheet's sprites read in order: each one with an image is entered under
/// its index, a later one replacing an earlier one; the first that leaves its
/// atlas is an error.
pub open spec fn sheet_after(raw: RawAssets, recs: Seq<SpriteRecord>) -> Result<Map<u32, Seq<u8>>, SpriteError>
    decreases recs.len(),
{
    if recs.len() == 0 {
        Ok(Map::empty())
    } else {
        match sheet_after(raw, recs.drop_last()) {
            Err(e) => Err(e),
            Ok(m) => match sprite_png(raw, recs.last()) {
                Err(e) => Err(e),
                Ok(None) => Ok(m),
                Ok(Some(p)) => Ok(m.insert(recs.last().index, p)),
            },
        }
    }
}

/// The PNG files of a sheet, by index.
pub open spec fn sheet_view(s: Spritesheet) -> Map<u32, Seq<u8>> {
    s@.map_values(|v: Vec<u8>| v@)
}

/// Encodes every sprite of a sheet that lies in a read atlas.
pub fn process_spritesheet(raw: &RawAssets, sprites: &Vec<SpriteRecord>) -> (r: Result<Spritesheet, SpriteError>)
    requires
        forall|i: int| 0 <= i < sprites@.len() ==> record_fits(*raw, #[trigger] sprites@[i]),
    ensures
        match sheet_after(*raw, sprites@) {
            Ok(m) => r matches Ok(s) && sheet_view(s) == m,
            Err(e) => r matches Err(x) && x == e,
        },
{
    let mut sheet: Spritesheet = BTreeMap::new();
    proof {
        assert(sprites@.take(0) =~= Seq::<SpriteRecord>::empty());
        assert(sheet_view(sheet) =~= Map::<u32, Seq<u8>>::empty());
    }
    let mut i: usize = 0;
    while i < sprites.len()
        invariant
            i <= sprites@.len(),
            forall|j: int| 0 <= j < sprites@.len() ==> record_fits(*raw, #[trigger] sprites@[j]),
            sheet_after(*raw, sprites@.take(i as int)) == Ok::<Map<u32, Seq<u8>>, SpriteError>(sheet_view(sheet)),
        decreases sprites.len() - i,
    {
        let rec = sprites[i];
        assert(sprites@.take(i + 1).drop_last() =~= sprites@.take(i as int));
        assert(record_fits(*raw, sprites@[i as int]));
        match process_sprite(raw, rec.atlas_id, rec.x, rec.y, rec.w, rec.h) {
            Err(e) => {
                proof {
                    lemma_sheet_err(*raw, sprites@, i as int + 1);
                }
                return Err(e);
            },
            Ok(None) => {},
            Ok(Some(png)) => {
                let ghost before = sheet_view(sheet);
                sheet.insert(rec.index, png);
                assert(sheet_view(sheet) =~= before.insert(rec.index, png@));
            },
        }
        i += 1;
    }
    assert(sprites@.take(sprites@.len() as int) =~= sprites@);
    Ok(sheet)
}

/// Once a prefix of the sprites fails, all of them do.
proof fn lemma_sheet_err(raw: RawAssets, recs: Seq<SpriteRecord>, k: int)
    requires
        0 <= k <= recs.len(),
        sheet_after(raw, recs.take(k)) is Err,
    ensures
        sheet_after(raw, recs) == sheet_after(raw, recs.take(k)),
    decreases recs.len() - k,
{
    if k < recs.len() {
        assert(recs.take(k + 1).drop_last() =~= recs.take(k));
        lemma_sheet_err(raw, recs, k + 1);
    } else {
        assert(recs.take(k) =~= recs);
    }
}

/// Some sheet or animated sprite leaves its atlas.
pub open spec fn sprites_fail(raw: RawAssets, sheets: Seq<SheetRecord>, animated: Seq<AnimatedRecord>) -> bool {
    ||| exists|i: int| 0 <= i < sheets.len() && #[trigger] sheet_after(raw, sheets[i].sprites@) is Err
    ||| exists|j: int| 0 <= j < animated.len() && #[trigger] sprite_png(raw, animated[j].sprite) is Err
}

/// The plain sheets that the index gives, by name (a later sheet of the same
/// name replaces an earlier one); a sheet that fails counts as empty.
pub open spec fn plain_sheets(raw: RawAssets, sheets: Seq<SheetRecord>) -> Map<Seq<char>, Map<u32, Seq<u8>>>
    decreases sheets.len(),
{
    if sheets.len() == 0 {
        Map::empty()
    } else {
        let m = match sheet_after(raw, sheets.last().sprites@) {
            Ok(m) => m,
            Err(_) => Map::empty(),
        };
        plain_sheets(raw, sheets.drop_last()).insert(sheets.last().name@, m)
    }
}

/// The animated sheets that the index gives, by name: each sprite that lies in
/// a read atlas is added under its index to the sheet of its name.
pub open spec fn animated_sheets(raw: RawAssets, animated: Seq<AnimatedRecord>) -> Map<Seq<char>, Map<u32, Seq<u8>>>
    decreases animated.len(),
{
    if animated.len() == 0 {
        Map::empty()
    } else {
        let prev = animated_sheets(raw, animated.drop_last());
        let a = animated.last();
        match sprite_png(raw, a.sprite) {
            Ok(Some(p)) => prev.insert(a.name@, match prev.get(a.name@) {
                Some(m) => m.insert(a.index, p),
                None => Map::<u32, Seq<u8>>::empty().insert(a.index, p),
            }),
            _ => prev,
        }
    }
}

impl Sprites {
    /// Encodes every sprite of the index: those of each sheet under the
    /// sheet's name, and the animated ones under their own sheet's name and
    /// index. Fails if any sprite leaves its atlas.
    pub fn process(raw: &RawAssets, sheets: &Vec<SheetRecord>, animated: &Vec<AnimatedRecord>) -> (r: Result<Sprites, SpriteError>)
        requires
            forall|i: int, k: int| 0 <= i < sheets@.len() && 0 <= k < sheets@[i].sprites@.len()
                ==> record_fits(*raw, #[trigger] sheets@[i].sprites@[k]),
            forall|j: int| 0 <= j < animated@.len() ==> record_fits(*raw, #[trigger] animated@[j].sprite),
        ensures
            r is Err <==> sprites_fail(*raw, sheets@, animated@),
            r matches Ok(all) ==> all.spritesheets@ == plain_sheets(*raw, sheets@)
                && all.animated_spritesheets@ == animated_sheets(*raw, animated@),
    {
        let mut spritesheets = SheetsByName::new();
        let mut i: usize = 0;
        assert(sheets@.take(0).len() == 0);
        while i < sheets.len()
            invariant
                i <= sheets@.len(),
                forall|a: int, k: int| 0 <= a < sheets@.len() && 0 <= k < sheets@[a].sprites@.len()
                    ==> record_fits(*raw, #[trigger] sheets@[a].sprites@[k]),
                forall|a: int| 0 <= a < i ==> #[trigger] sheet_after(*raw, sheets@[a].sprites@) is Ok,
                spritesheets@ == plain_sheets(*raw, sheets@.take(i as int)),
            decreases sheets.len() - i,
        {
            let sheet = &sheets[i];
            match process_spritesheet(raw, &sheet.sprites) {
                Err(e) => {
                    assert(sheet_after(*raw, sheets@[i as int].sprites@) is Err);
                    return Err(e);
                },
                Ok(s) => {
                    spritesheets.insert(sheet.name.clone(), s);
                    proof {
                        let t = sheets@.take(i + 1);
                        assert(t.drop_last() =~= sheets@.take(i as int));
                        assert(t.last() == sheets@[i as int]);
                    }
                },
            }
            i += 1;
        }
        assert(sheets@.take(sheets@.len() as int) =~= sheets@);
        let mut animated_spritesheets = SheetsByName::new();
        assert(animated@.take(0).len() == 0);
        let mut j: usize = 0;
        while j < animated.len()
            invariant
                j <= animated@.len(),
                forall|b: int| 0 <= b < animated@.len() ==> record_fits(*raw, #[trigger] animated@[b].sprite),
                forall|b: int| 0 <= b < j ==> #[trigger] sprite_png(*raw, animated@[b].sprite) is Ok,
                spritesheets@ == plain_sheets(*raw, sheets@),
                animated_spritesheets@ == animated_sheets(*raw, animated@.take(j as int)),
            decreases animated.len() - j,
        {
            let a = &animated[j];
            let rec = a.sprite;
            proof {
                let t = animated@.take(j + 1);
                assert(t.drop_last() =~= animated@.take(j as int));
                assert(t.last() == animated@[j as int]);
            }
            match process_sprite(raw, rec.atlas_id, rec.x, rec.y, rec.w, rec.h) {
                Err(e) => {
                    assert(sprite_png(*raw, animated@[j as int].sprite) is Err);
                    return Err(e);
                },
                Ok(None) => {},
                Ok(Some(png)) => {
                    animated_spritesheets.insert_sprite(&a.name, a.index, png);
                },
            }
            j += 1;
        }
        assert(animated@.take(animated@.len() as int) =~= animated@);
        Ok(Sprites { animated_spritesheets, spritesheets })
    }
}

/// The PNG of an object's sprite: looked up by the object's type, then in
/// the animated or plain sheets by the sprite's sheet name, then by its index.
pub open spec fn obj_sprite(objects: Map<u32, Object>, sprites: Sprites, object_id: u32) -> Option<Seq<u8>> {
    match objects.get(object_id) {
        None => None,
        Some(o) => match o.sprite {
            None => None,
            Some(id) => {
                let sheets = if id.is_animated { sprites.animated_spritesheets@ } else { sprites.spritesheets@ };
                match sheets.get(id.spritesheet@) {
                    None => None,
                    Some(sheet) => sheet.get(id.index),
                }
            },
        },
    }
}

/// The PNG of an object's sprite, if the object, its sprite, the sheet and the
/// index are all there.
pub fn try_get_obj_sprite<'a>(objects: &'a HashMap<u32, Object>, sprites: &'a Sprites, object_id: u32) -> (r: Option<&'a Vec<u8>>)
    ensures
        match r {
            None => obj_sprite(objects@, *sprites, object_id) is None,
            Some(png) => obj_sprite(objects@, *sprites, object_id) == Some(png@),
        },
{
    let obj = match objects.get(&object_id) {
        Some(o) => o,
        None => return None,
    };
    let id = match &obj.sprite {
        Some(id) => id,
        None => return None,
    };
    let sheets = if id.is_animated { &sprites.animated_spritesheets } else { &sprites.spritesheets };
    let sheet = match sheets.get(id.spritesheet.as_str()) {
        Some(s) => s,
        None => return None,
    };
    match sheet.get(&id.index) {
        Some(png) => {
            assert(sheet_view(*sheet).get(id.index) == Some(png@));
            Some(png)
        },
        None => {
            assert(!sheet_view(*sheet).contains_key(id.index));
            None
        },
    }
}

impl RawAssets {
    /// The PNG of the sprite at `(x, y)` (counted from the bottom) of size
    /// `w` by `h` in atlas 2 (characters) or 4 (map objects). The sprite must
    /// lie in its atlas.
    pub fn get_sprite(&self, atlas_id: i64, x: u32, y: u32, w: u32, h: u32) -> (r: Vec<u8>)
        requires
            w > 0,
            h > 0,
            atlas_of(*self, atlas_id) matches Some(t) && sprite_fits(t@, x, y, w, h) && x + w <= t.width,
        ensures
            atlas_of(*self, atlas_id) matches Some(t) && r@ == png_rgba8(w, h, subimage(t@, x, (t.height - y - h) as u32, w, h)),
    {
        match process_sprite(self, atlas_id, x, y, w, h) {
            Ok(Some(png)) => png,
            _ => {
                assert(false);
                Vec::new()
            },
        }
    }
}
} // verus!
