//! Reading the game's `resources.assets` file (a Unity serialized file) down
//! to the parts this program needs: the `spritesheetf` text asset, the
//! `characters` and `mapObjects` textures, and every text asset that looks
//! like XML.

use vstd::prelude::*;
use byteorder::ByteOrder;
use super::{RawAssets, RawAssetsView, Texture2D, TextureView, XmlAsset, XmlAssetView};
use crate::text::str_eq;

verus! {

/// Why the assets file could not be read.
#[derive(Debug, Clone, Copy, PartialEq, Eq, Structural)]
pub enum AssetError {
    /// The file ends in the middle of a value.
    UnexpectedEnd,
    /// The header fails the sanity checks.
    InvalidAssetsFile,
    /// A string is not valid UTF-8.
    InvalidUtf8,
    /// The file carries type trees, which are not supported.
    TypeTreeNotSupported,
    /// The file is big endian, which the projectile reader does not support.
    BigEndianNotSupported,
    /// An object names a type index beyond the type table.
    TypeIndexOutOfRange,
    /// A second text asset named `spritesheetf`.
    DuplicateSpritesheetf,
    /// A texture that is not in the RGBA32 format.
    NotRgba32,
    /// A second `characters` texture.
    DuplicateCharacters,
    /// A second `mapObjects` texture.
    DuplicateMapObjects,
    /// No text asset named `spritesheetf`.
    MissingSpritesheetf,
    /// No `characters` texture.
    MissingCharacters,
    /// No `mapObjects` texture.
    MissingMapObjects,
}

/// The value of big-endian bytes.
pub open spec fn be_value(s: Seq<u8>) -> nat
    decreases s.len(),
{
    if s.len() == 0 { 0 } else { (be_value(s.drop_last()) * 256 + s.last()) as nat }
}

/// The value of little-endian bytes.
pub open spec fn le_value(s: Seq<u8>) -> nat
    decreases s.len(),
{
    if s.len() == 0 { 0 } else { (le_value(s.drop_first()) * 256 + s[0]) as nat }
}

/// The value of bytes in the given byte order.
pub open spec fn uint_value(s: Seq<u8>, big_endian: bool) -> nat {
    if big_endian { be_value(s) } else { le_value(s) }
}

/// Whether `n` bytes are present at `pos`.
pub open spec fn avail(d: Seq<u8>, pos: int, n: int) -> bool {
    0 <= pos && 0 <= n && pos + n <= d.len()
}

/// The unsigned number of `n` bytes at `pos`.
pub open spec fn uint_at(d: Seq<u8>, pos: int, n: int, big_endian: bool) -> nat {
    uint_value(d.subrange(pos, pos + n), big_endian)
}

/// The signed reading of a 32-bit quantity.
pub open spec fn signed32(u: nat) -> int {
    if u >= 0x8000_0000 { u - 0x1_0000_0000 } else { u as int }
}

/// `pos` moved forward to the next multiple of 4.
pub open spec fn align4(pos: int) -> int {
    ((pos + 3) / 4) * 4
}

/// `byteorder::BigEndian::read_u32`: the big-endian value of the first four bytes.
#[verifier::external_body]
fn be_read_u32(buf: &[u8]) -> (r: u32)
    requires
        buf@.len() >= 4,
    ensures
        r as nat == be_value(buf@.subrange(0, 4)),
{
    byteorder::BigEndian::read_u32(buf)
}

/// `byteorder::LittleEndian::read_u32`: the little-endian value of the first four bytes.
#[verifier::external_body]
fn le_read_u32(buf: &[u8]) -> (r: u32)
    requires
        buf@.len() >= 4,
    ensures
        r as nat == le_value(buf@.subrange(0, 4)),
{
    byteorder::LittleEndian::read_u32(buf)
}

/// `byteorder::BigEndian::read_u64`: the big-endian value of the first eight bytes.
#[verifier::external_body]
fn be_read_u64(buf: &[u8]) -> (r: u64)
    requires
        buf@.len() >= 8,
    ensures
        r as nat == be_value(buf@.subrange(0, 8)),
{
    byteorder::BigEndian::read_u64(buf)
}

/// `byteorder::LittleEndian::read_u64`: the little-endian value of the first eight bytes.
#[verifier::external_body]
fn le_read_u64(buf: &[u8]) -> (r: u64)
    requires
        buf@.len() >= 8,
    ensures
        r as nat == le_value(buf@.subrange(0, 8)),
{
    byteorder::LittleEndian::read_u64(buf)
}

/// Whether `n` bytes are present at `pos` (computed without overflow).
pub(crate) fn has_bytes(data: &[u8], pos: u64, n: u64) -> (r: bool)
    ensures
        r == avail(data@, pos as int, n as int),
{
    let len = data.len() as u64;
    pos <= len && n <= len - pos
}

/// Reads a 32-bit number at `pos` in the given byte order.
pub(crate) fn u32_at(data: &[u8], pos: u64, big_endian: bool) -> (r: Result<u32, AssetError>)
    ensures
        match r {
            Ok(v) => avail(data@, pos as int, 4) && v as nat == uint_at(data@, pos as int, 4, big_endian),
            Err(e) => !avail(data@, pos as int, 4) && e == AssetError::UnexpectedEnd,
        },
{
    let _len = data.len();
    if !has_bytes(data, pos, 4) {
        return Err(AssetError::UnexpectedEnd);
    }
    let sub = vstd::slice::slice_subrange(data, pos as usize, pos as usize + 4);
    assert(sub@.subrange(0, 4) =~= data@.subrange(pos as int, pos + 4));
    if big_endian { Ok(be_read_u32(sub)) } else { Ok(le_read_u32(sub)) }
}

/// Reads a 64-bit number at `pos` in the given byte order.
fn u64_at(data: &[u8], pos: u64, big_endian: bool) -> (r: Result<u64, AssetError>)
    ensures
        match r {
            Ok(v) => avail(data@, pos as int, 8) && v as nat == uint_at(data@, pos as int, 8, big_endian),
            Err(e) => !avail(data@, pos as int, 8) && e == AssetError::UnexpectedEnd,
        },
{
    let _len = data.len();
    if !has_bytes(data, pos, 8) {
        return Err(AssetError::UnexpectedEnd);
    }
    let sub = vstd::slice::slice_subrange(data, pos as usize, pos as usize + 8);
    assert(sub@.subrange(0, 8) =~= data@.subrange(pos as int, pos + 8));
    if big_endian { Ok(be_read_u64(sub)) } else { Ok(le_read_u64(sub)) }
}

/// `pos` moved forward to the next multiple of 4.
pub fn align_stream(pos: u64) -> (r: u64)
    requires
        pos <= u64::MAX - 3,
    ensures
        r as int == align4(pos as int),
{
    (pos + 3) / 4 * 4
}

/// The header of the file.
#[derive(Debug, Clone, Copy)]
pub struct Header {
    pub version: i32,
    pub big_endian: bool,
    pub metadata_size: u32,
    pub file_size: u64,
    pub data_offset: u64,
}

/// The index of the first zero byte in `s`, or -1.
pub open spec fn first_zero(s: Seq<u8>) -> int
    decreases s.len(),
{
    if s.len() == 0 {
        -1
    } else if s[0] == 0 {
        0
    } else {
        let r = first_zero(s.drop_first());
        if r < 0 { -1 } else { r + 1 }
    }
}

proof fn lemma_first_zero(s: Seq<u8>, k: int)
    requires
        0 <= k <= s.len(),
        forall|j: int| 0 <= j < k ==> s[j] != 0,
    ensures
        k < s.len() && s[k] == 0 ==> first_zero(s) == k,
        k == s.len() ==> first_zero(s) == -1,
    decreases k,
{
    if k > 0 {
        lemma_first_zero(s.drop_first(), k - 1);
    }
}

/// A NUL-terminated UTF-8 string at `pos`: its characters and the position after the NUL.
pub open spec fn spec_nul_string(d: Seq<u8>, pos: int) -> Result<(Seq<char>, int), AssetError> {
    let k = first_zero(d.skip(pos));
    if k < 0 {
        Err(AssetError::UnexpectedEnd)
    } else if !vstd::utf8::valid_utf8(d.subrange(pos, pos + k)) {
        Err(AssetError::InvalidUtf8)
    } else {
        Ok((vstd::utf8::decode_utf8(d.subrange(pos, pos + k)), pos + k + 1))
    }
}

/// Reads a NUL-terminated UTF-8 string at `pos`; gives it and the position
/// after the NUL.
pub fn read_nul_terminated_string(data: &[u8], pos: u64) -> (r: Result<(String, u64), AssetError>)
    requires
        pos <= data@.len(),
    ensures
        match r {
            Ok((s, p)) => spec_nul_string(data@, pos as int) == Ok::<(Seq<char>, int), AssetError>((s@, p as int)),
            Err(e) => spec_nul_string(data@, pos as int) == Err::<(Seq<char>, int), AssetError>(e),
        },
{
    let len = data.len();
    let start = pos as usize;
    let mut k: usize = start;
    while k < len && data[k] != 0
        invariant
            start <= k <= len,
            len == data@.len(),
            start == pos,
            forall|j: int| start <= j < k ==> data@[j] != 0,
        decreases len - k,
    {
        k += 1;
    }
    proof {
        let t = data@.skip(start as int);
        assert forall|j: int| 0 <= j < k - start implies t[j] != 0 by {
            assert(t[j] == data@[j + start]);
        }
        lemma_first_zero(t, k - start);
    }
    if k == len {
        return Err(AssetError::UnexpectedEnd);
    }
    let bytes = vstd::slice::slice_subrange(data, start, k);
    match crate::read::string_from_utf8(crate::read::bytes_to_vec(bytes)) {
        Some(s) => Ok((s, (k + 1) as u64)),
        None => Err(AssetError::InvalidUtf8),
    }
}

/// The header of the file (always big endian, 48 bytes), checked for sanity,
/// and the position after the NUL-terminated engine version that follows it.
pub open spec fn spec_header(d: Seq<u8>) -> Result<(Header, int), AssetError> {
    if d.len() < 48 {
        Err(AssetError::UnexpectedEnd)
    } else {
        let version = signed32(uint_at(d, 8, 4, true));
        let metadata_size = uint_at(d, 20, 4, true);
        let file_size = uint_at(d, 24, 8, true);
        let data_offset = uint_at(d, 32, 8, true);
        let real_size = d.len();
        let version_unsigned = if version < 0 { version + 0x1_0000_0000_0000_0000 } else { version };
        if version > 100 || file_size > real_size || metadata_size > real_size || version_unsigned > real_size
            || data_offset > real_size || file_size < metadata_size || file_size < data_offset {
            Err(AssetError::InvalidAssetsFile)
        } else {
            match spec_nul_string(d, 48) {
                Ok((_, p)) => Ok((
                    Header {
                        version: version as i32,
                        big_endian: d[16] != 0,
                        metadata_size: metadata_size as u32,
                        file_size: file_size as u64,
                        data_offset: data_offset as u64,
                    },
                    p,
                )),
                Err(e) => Err(e),
            }
        }
    }
}


/// Reads the header and the NUL-terminated engine version after it; gives
/// the header and the position after the version.
pub fn read_header(data: &[u8]) -> (r: Result<(Header, u64), AssetError>)
    ensures
        match r {
            Ok((h, p)) => spec_header(data@) == Ok::<(Header, int), AssetError>((h, p as int)),
            Err(e) => spec_header(data@) == Err::<(Header, int), AssetError>(e),
        },
{
    let len = data.len();
    if len < 48 {
        return Err(AssetError::UnexpectedEnd);
    }
    let version_u = u32_at(data, 8, true)?;
    let version: i32 = if version_u >= 0x8000_0000 {
        (version_u as i64 - 0x1_0000_0000) as i32
    } else {
        version_u as i32
    };
    let big_endian = data[16] != 0;
    let metadata_size = u32_at(data, 20, true)?;
    let file_size = u64_at(data, 24, true)?;
    let data_offset = u64_at(data, 32, true)?;
    let real_size = len as u64;
    let version_unsigned: u64 = if version < 0 {
        (version as i128 + 0x1_0000_0000_0000_0000) as u64
    } else {
        version as u64
    };
    if version > 100 || file_size > real_size || metadata_size as u64 > real_size || version_unsigned
        > real_size || data_offset > real_size || file_size < metadata_size as u64 || file_size
        < data_offset {
        return Err(AssetError::InvalidAssetsFile);
    }
    let (_version_string, after) = read_nul_terminated_string(data, 48)?;
    Ok((Header { version, big_endian, metadata_size, file_size, data_offset }, after))
}

/// One entry of the type table at `pos`: its class id and the position after it.
pub open spec fn spec_type_entry(d: Seq<u8>, pos: int, be: bool) -> Result<(i32, int), AssetError> {
    if !avail(d, pos, 4) {
        Err(AssetError::UnexpectedEnd)
    } else {
        let class_id = signed32(uint_at(d, pos, 4, be));
        let size = 4 + 3 + (if class_id == 114 { 16int } else { 0int }) + 16;
        if !avail(d, pos, size) {
            Err(AssetError::UnexpectedEnd)
        } else {
            Ok((class_id as i32, pos + size))
        }
    }
}

/// The first `n` entries of the type table that starts at `pos`.
pub open spec fn spec_type_entries(d: Seq<u8>, pos: int, n: nat, be: bool) -> Result<(Seq<i32>, int), AssetError>
    decreases n,
{
    if n == 0 {
        Ok((Seq::empty(), pos))
    } else {
        match spec_type_entries(d, pos, (n - 1) as nat, be) {
            Ok((ts, q)) => match spec_type_entry(d, q, be) {
                Ok((t, q2)) => Ok((ts.push(t), q2)),
                Err(e) => Err(e),
            },
            Err(e) => Err(e),
        }
    }
}

/// The target platform, the type-tree flag (which must be clear), the type
/// count and the type table, from `pos` on.
pub open spec fn spec_types(d: Seq<u8>, pos: int, be: bool) -> Result<(Seq<i32>, int), AssetError> {
    if !avail(d, pos, 5) {
        Err(AssetError::UnexpectedEnd)
    } else if d[pos + 4] != 0 {
        Err(AssetError::TypeTreeNotSupported)
    } else if !avail(d, pos + 5, 4) {
        Err(AssetError::UnexpectedEnd)
    } else {
        spec_type_entries(d, pos + 9, uint_at(d, pos + 5, 4, be), be)
    }
}

proof fn lemma_type_entries_err(d: Seq<u8>, pos: int, i: nat, n: nat, be: bool)
    requires
        i <= n,
        spec_type_entries(d, pos, i, be) is Err,
    ensures
        spec_type_entries(d, pos, n, be) == spec_type_entries(d, pos, i, be),
    decreases n - i,
{
    if i < n {
        lemma_type_entries_err(d, pos, i, (n - 1) as nat, be);
    }
}

/// Reads the type table: the class id of each type.
pub(crate) fn read_types(data: &[u8], pos: u64, be: bool) -> (r: Result<(Vec<i32>, u64), AssetError>)
    ensures
        match r {
            Ok((ts, p)) => spec_types(data@, pos as int, be) == Ok::<(Seq<i32>, int), AssetError>((ts@, p as int)),
            Err(e) => spec_types(data@, pos as int, be) == Err::<(Seq<i32>, int), AssetError>(e),
        },
{
    let _len = data.len();
    if !has_bytes(data, pos, 5) {
        return Err(AssetError::UnexpectedEnd);
    }
    if data[(pos + 4) as usize] != 0 {
        return Err(AssetError::TypeTreeNotSupported);
    }
    let count = u32_at(data, pos + 5, be)?;
    let mut types: Vec<i32> = Vec::new();
    let mut q: u64 = pos + 9;
    let mut i: u32 = 0;
    while i < count
        invariant
            i <= count,
            count as nat == uint_at(data@, pos + 5, 4, be),
            q <= data@.len(),
            data@.len() <= usize::MAX,
            spec_types(data@, pos as int, be) == spec_type_entries(data@, pos + 9, count as nat, be),
            spec_type_entries(data@, pos + 9, i as nat, be) == Ok::<(Seq<i32>, int), AssetError>((types@, q as int)),
        decreases count - i,
    {
        let cid_u = match u32_at(data, q, be) {
            Ok(v) => v,
            Err(e) => {
                proof {
                    lemma_type_entries_err(data@, pos + 9, (i + 1) as nat, count as nat, be);
                }
                return Err(e);
            },
        };
        let class_id: i32 = if cid_u >= 0x8000_0000 {
            (cid_u as i64 - 0x1_0000_0000) as i32
        } else {
            cid_u as i32
        };
        let size: u64 = if class_id == 114 { 39 } else { 23 };
        if !has_bytes(data, q, size) {
            proof {
                lemma_type_entries_err(data@, pos + 9, (i + 1) as nat, count as nat, be);
            }
            return Err(AssetError::UnexpectedEnd);
        }
        types.push(class_id);
        q = q + size;
        i += 1;
    }
    Ok((types, q))
}

/// Which kinds of object this reader keeps.
pub const TEXT_ASSET: i32 = 49;
pub const TEXTURE2D_ASSET: i32 = 28;

/// An object of interest: where its data lies, and whether it is a text
/// asset (tagged 0) or a texture (tagged 1).
pub type ObjectEntry = (u64, u8);

/// One entry of the object table at `pos` (24 bytes: path id, data offset,
/// byte size, type index): the object it names, if it is a text asset or a texture.
pub open spec fn spec_object_entry(d: Seq<u8>, pos: int, be: bool, types: Seq<i32>, data_offset: u64)
    -> Result<Option<ObjectEntry>, AssetError>
{
    if !avail(d, pos, 24) {
        Err(AssetError::UnexpectedEnd)
    } else {
        let offset = uint_at(d, pos + 8, 8, be);
        let type_id = uint_at(d, pos + 20, 4, be);
        if type_id >= types.len() {
            Err(AssetError::TypeIndexOutOfRange)
        } else {
            let class = types[type_id as int];
            let at = ((offset + data_offset) % 0x1_0000_0000_0000_0000) as u64;
            if class == TEXT_ASSET {
                Ok(Some((at, 0u8)))
            } else if class == TEXTURE2D_ASSET {
                Ok(Some((at, 1u8)))
            } else {
                Ok(None)
            }
        }
    }
}

/// The objects of interest among the first `n` entries of the object table at `pos`.
pub open spec fn spec_object_entries(d: Seq<u8>, pos: int, n: nat, be: bool, types: Seq<i32>, data_offset: u64)
    -> Result<Seq<ObjectEntry>, AssetError>
    decreases n,
{
    if n == 0 {
        Ok(Seq::empty())
    } else {
        match spec_object_entries(d, pos, (n - 1) as nat, be, types, data_offset) {
            Ok(es) => match spec_object_entry(d, pos + 24 * (n - 1), be, types, data_offset) {
                Ok(Some(e)) => Ok(es.push(e)),
                Ok(None) => Ok(es),
                Err(e) => Err(e),
            },
            Err(e) => Err(e),
        }
    }
}

/// The object count at `pos`, then the table of objects from the next
/// multiple of 4 on.
pub open spec fn spec_objects(d: Seq<u8>, pos: int, be: bool, types: Seq<i32>, data_offset: u64)
    -> Result<Seq<ObjectEntry>, AssetError>
{
    if !avail(d, pos, 4) {
        Err(AssetError::UnexpectedEnd)
    } else {
        spec_object_entries(d, align4(pos + 4), uint_at(d, pos, 4, be), be, types, data_offset)
    }
}

proof fn lemma_object_entries_err(d: Seq<u8>, pos: int, i: nat, n: nat, be: bool, types: Seq<i32>, off: u64)
    requires
        i <= n,
        spec_object_entries(d, pos, i, be, types, off) is Err,
    ensures
        spec_object_entries(d, pos, n, be, types, off) == spec_object_entries(d, pos, i, be, types, off),
    decreases n - i,
{
    if i < n {
        lemma_object_entries_err(d, pos, i, (n - 1) as nat, be, types, off);
    }
}

/// Reads the object table and keeps the text assets and textures.
#[verifier::spinoff_prover]
#[verifier::rlimit(40)]
pub(crate) fn read_objects(data: &[u8], pos: u64, be: bool, types: &Vec<i32>, data_offset: u64)
    -> (r: Result<Vec<ObjectEntry>, AssetError>)
    requires
        pos <= data@.len(),
        data@.len() <= i64::MAX,
    ensures
        match r {
            Ok(es) => spec_objects(data@, pos as int, be, types@, data_offset)
                == Ok::<Seq<ObjectEntry>, AssetError>(es@),
            Err(e) => spec_objects(data@, pos as int, be, types@, data_offset)
                == Err::<Seq<ObjectEntry>, AssetError>(e),
        },
{
    let len = data.len();
    let count = u32_at(data, pos, be)?;
    let table = align_stream(pos + 4);
    let mut entries: Vec<ObjectEntry> = Vec::new();
    let mut i: u32 = 0;
    while i < count
        invariant
            i <= count,
            len == data@.len(),
            count as nat == uint_at(data@, pos as int, 4, be),
            table as int == align4(pos + 4),
            table <= len + 3,
            spec_object_entries(data@, table as int, i as nat, be, types@, data_offset)
                == Ok::<Seq<ObjectEntry>, AssetError>(entries@),
        decreases count - i,
    {
        let at = table as u128 + 24 * (i as u128);
        if at + 24 > len as u128 {
            proof {
                lemma_object_entries_err(data@, table as int, (i + 1) as nat, count as nat, be, types@, data_offset);
            }
            return Err(AssetError::UnexpectedEnd);
        }
        let at = at as u64;
        let offset = u64_at(data, at + 8, be)?;
        let type_id = u32_at(data, at + 20, be)?;
        if type_id as usize >= types.len() {
            proof {
                lemma_object_entries_err(data@, table as int, (i + 1) as nat, count as nat, be, types@, data_offset);
            }
            return Err(AssetError::TypeIndexOutOfRange);
        }
        let class = types[type_id as usize];
        let start = offset.wrapping_add(data_offset);
        if class == TEXT_ASSET {
            entries.push((start, 0));
        } else if class == TEXTURE2D_ASSET {
            entries.push((start, 1));
        }
        i += 1;
    }
    Ok(entries)
}


/// Whether a byte is ASCII whitespace (`u8::is_ascii_whitespace`).
pub open spec fn is_ascii_ws(b: u8) -> bool {
    b == 32 || b == 9 || b == 10 || b == 12 || b == 13
}

/// Whether the first byte of `s` that is not whitespace is `<` (or there is none).
pub open spec fn looks_like_xml(s: Seq<u8>) -> bool
    decreases s.len(),
{
    if s.len() == 0 {
        true
    } else if is_ascii_ws(s[0]) {
        looks_like_xml(s.drop_first())
    } else {
        s[0] == 60
    }
}

/// A string at `pos`: a 32-bit length in the file's byte order, then UTF-8 bytes.
pub open spec fn spec_asset_string(d: Seq<u8>, pos: int, be: bool) -> Result<(Seq<char>, int), AssetError> {
    if !avail(d, pos, 4) {
        Err(AssetError::UnexpectedEnd)
    } else {
        let n = uint_at(d, pos, 4, be) as int;
        if !avail(d, pos + 4, n) {
            Err(AssetError::UnexpectedEnd)
        } else if !vstd::utf8::valid_utf8(d.subrange(pos + 4, pos + 4 + n)) {
            Err(AssetError::InvalidUtf8)
        } else {
            Ok((vstd::utf8::decode_utf8(d.subrange(pos + 4, pos + 4 + n)), pos + 4 + n))
        }
    }
}

/// What has been collected while going through the objects.
pub struct ScanView {
    pub spritesheetf: Option<Seq<u8>>,
    pub characters: Option<TextureView>,
    pub map_objects: Option<TextureView>,
    pub xml: Seq<XmlAssetView>,
}

/// Nothing collected yet.
pub open spec fn empty_scan() -> ScanView {
    ScanView { spritesheetf: None, characters: None, map_objects: None, xml: Seq::empty() }
}

/// A text asset at `pos`: its name, then (at the next multiple of 4) its
/// length and data. `spritesheetf` is kept; other assets are kept when their
/// data looks like XML.
#[verifier::opaque]
pub open spec fn spec_text_step(d: Seq<u8>, acc: ScanView, pos: int, be: bool) -> Result<ScanView, AssetError> {
    match spec_asset_string(d, pos, be) {
        Err(e) => Err(e),
        Ok((name, p1)) => {
            let p2 = align4(p1);
            if !avail(d, p2, 4) {
                Err(AssetError::UnexpectedEnd)
            } else {
                let len = uint_at(d, p2, 4, be) as int;
                let p3 = p2 + 4;
                if name == "spritesheetf"@ {
                    if !avail(d, p3, len) {
                        Err(AssetError::UnexpectedEnd)
                    } else if acc.spritesheetf is Some {
                        Err(AssetError::DuplicateSpritesheetf)
                    } else {
                        Ok(ScanView {
                            spritesheetf: Some(d.subrange(p3, p3 + len)),
                            characters: acc.characters,
                            map_objects: acc.map_objects,
                            xml: acc.xml,
                        })
                    }
                } else if !looks_like_xml(d.skip(p3)) {
                    Ok(acc)
                } else if !avail(d, p3, len) {
                    Err(AssetError::UnexpectedEnd)
                } else {
                    Ok(ScanView {
                        spritesheetf: acc.spritesheetf,
                        characters: acc.characters,
                        map_objects: acc.map_objects,
                        xml: acc.xml.push(XmlAssetView {
                            name,
                            data: d.subrange(p3, p3 + len),
                            position: p3 as u64,
                            slot_size: len as usize,
                        }),
                    })
                }
            }
        },
    }
}

/// A texture at `pos`: its name; only `characters` and `mapObjects` are read
/// on. Then (with alignment to 4 bytes between groups) the fallback format
/// and two flags; width, height, image size, stripped mips and the format,
/// which must be RGBA32 (4); the mip count and four flags; eleven numbers;
/// the length of a platform blob, which is skipped; and the image data.
#[verifier::opaque]
pub open spec fn spec_texture_step(d: Seq<u8>, acc: ScanView, pos: int, be: bool) -> Result<ScanView, AssetError> {
    match spec_asset_string(d, pos, be) {
        Err(e) => Err(e),
        Ok((name, p1)) => if name != "mapObjects"@ && name != "characters"@ {
            Ok(acc)
        } else {
            let p2 = align4(p1);
            let p3 = align4(p2 + 6);
            let p4 = align4(p3 + 28);
            if !avail(d, p2, 6) || !avail(d, p3, 20) {
                Err(AssetError::UnexpectedEnd)
            } else if uint_at(d, p3 + 16, 4, be) != 4 {
                Err(AssetError::NotRgba32)
            } else if !avail(d, p3 + 20, 8) || !avail(d, p4, 48) {
                Err(AssetError::UnexpectedEnd)
            } else {
                let p5 = align4(p4 + 48 + uint_at(d, p4 + 44, 4, be));
                if !avail(d, p5, 4) {
                    Err(AssetError::UnexpectedEnd)
                } else {
                    let size = uint_at(d, p5, 4, be) as int;
                    if !avail(d, p5 + 4, size) {
                        Err(AssetError::UnexpectedEnd)
                    } else {
                        let tex = TextureView {
                            width: uint_at(d, p3, 4, be) as u32,
                            height: uint_at(d, p3 + 4, 4, be) as u32,
                            data: d.subrange(p5 + 4, p5 + 4 + size),
                        };
                        if name == "characters"@ {
                            if acc.characters is Some {
                                Err(AssetError::DuplicateCharacters)
                            } else {
                                Ok(ScanView {
                                    spritesheetf: acc.spritesheetf,
                                    characters: Some(tex),
                                    map_objects: acc.map_objects,
                                    xml: acc.xml,
                                })
                            }
                        } else if acc.map_objects is Some {
                            Err(AssetError::DuplicateMapObjects)
                        } else {
                            Ok(ScanView {
                                spritesheetf: acc.spritesheetf,
                                characters: acc.characters,
                                map_objects: Some(tex),
                                xml: acc.xml,
                            })
                        }
                    }
                }
            }
        },
    }
}

/// Goes through the objects in the given order.
pub open spec fn spec_scan(d: Seq<u8>, objs: Seq<ObjectEntry>, be: bool) -> Result<ScanView, AssetError>
    decreases objs.len(),
{
    if objs.len() == 0 {
        Ok(empty_scan())
    } else {
        match spec_scan(d, objs.drop_last(), be) {
            Ok(acc) => if objs.last().1 == 0 {
                spec_text_step(d, acc, objs.last().0 as int, be)
            } else {
                spec_texture_step(d, acc, objs.last().0 as int, be)
            },
            Err(e) => Err(e),
        }
    }
}

/// The collected parts, each of which must have been found.
pub open spec fn spec_finish(r: Result<ScanView, AssetError>) -> Result<RawAssetsView, AssetError> {
    match r {
        Err(e) => Err(e),
        Ok(s) => match (s.spritesheetf, s.characters, s.map_objects) {
            (None, _, _) => Err(AssetError::MissingSpritesheetf),
            (Some(_), None, _) => Err(AssetError::MissingCharacters),
            (Some(_), Some(_), None) => Err(AssetError::MissingMapObjects),
            (Some(sf), Some(c), Some(m)) => Ok(RawAssetsView {
                spritesheetf: sf,
                characters: c,
                map_objects: m,
                xml_assets: s.xml,
            }),
        },
    }
}

/// The objects of interest of the file and its byte order: header, engine
/// version, then (in the byte order the header names) the type table and
/// the object table.
pub open spec fn spec_entries(d: Seq<u8>) -> Result<(Seq<ObjectEntry>, bool), AssetError> {
    match spec_header(d) {
        Err(e) => Err(e),
        Ok((h, p)) => match spec_types(d, p, h.big_endian) {
            Err(e) => Err(e),
            Ok((types, q)) => match spec_objects(d, q, h.big_endian, types, h.data_offset) {
                Err(e) => Err(e),
                Ok(es) => Ok((es, h.big_endian)),
            },
        },
    }
}

/// `sorted` holds the objects of `es` in order of position.
pub open spec fn sorted_by_position(sorted: Seq<ObjectEntry>, es: Seq<ObjectEntry>) -> bool {
    &&& sorted.to_multiset() == es.to_multiset()
    &&& forall|i: int, j: int| 0 <= i < j < sorted.len() ==> sorted[i].0 <= sorted[j].0
}

/// Sorts the object entries (`slice::sort_unstable`). Claims what the
/// documentation says: the result is a reordering of the input, in order.
#[verifier::external_body]
fn sort_entries(v: &mut Vec<ObjectEntry>)
    ensures
        sorted_by_position(final(v)@, old(v)@),
{
    v.sort_unstable();
}

/// What has been collected while going through the objects.
pub struct Scan {
    pub spritesheetf: Option<Vec<u8>>,
    pub characters: Option<Texture2D>,
    pub map_objects: Option<Texture2D>,
    pub xml_assets: Vec<XmlAsset>,
}

impl View for Scan {
    type V = ScanView;

    open spec fn view(&self) -> ScanView {
        ScanView {
            spritesheetf: match &self.spritesheetf {
                Some(v) => Some(v@),
                None => None,
            },
            characters: match &self.characters {
                Some(t) => Some(t@),
                None => None,
            },
            map_objects: match &self.map_objects {
                Some(t) => Some(t@),
                None => None,
            },
            xml: self.xml_assets@.map_values(|x: XmlAsset| x@),
        }
    }
}

/// Reads a length-prefixed string at `pos`; gives it and the position after it.
pub(crate) fn read_asset_string(data: &[u8], pos: u64, be: bool) -> (r: Result<(String, u64), AssetError>)
    requires
        data@.len() <= i64::MAX,
    ensures
        match r {
            Ok((s, p)) => spec_asset_string(data@, pos as int, be) == Ok::<(Seq<char>, int), AssetError>((s@, p as int)),
            Err(e) => spec_asset_string(data@, pos as int, be) == Err::<(Seq<char>, int), AssetError>(e),
        },
{
    let _len = data.len();
    let n = u32_at(data, pos, be)?;
    if !has_bytes(data, pos + 4, n as u64) {
        return Err(AssetError::UnexpectedEnd);
    }
    let end = pos + 4 + n as u64;
    let bytes = vstd::slice::slice_subrange(data, (pos + 4) as usize, end as usize);
    match crate::read::string_from_utf8(crate::read::bytes_to_vec(bytes)) {
        Some(s) => Ok((s, end)),
        None => Err(AssetError::InvalidUtf8),
    }
}

/// Whether the data from `pos` on looks like XML.
fn xml_hint(data: &[u8], pos: u64) -> (r: bool)
    requires
        pos <= data@.len(),
    ensures
        r == looks_like_xml(data@.skip(pos as int)),
{
    let len = data.len();
    let mut i = pos as usize;
    while i < len
        invariant
            len == data@.len(),
            pos <= i <= len,
            looks_like_xml(data@.skip(pos as int)) == looks_like_xml(data@.skip(i as int)),
        decreases len - i,
    {
        let b = data[i];
        assert(data@.skip(i as int).drop_first() =~= data@.skip(i + 1));
        if !(b == 32 || b == 9 || b == 10 || b == 12 || b == 13) {
            return b == 60;
        }
        i += 1;
    }
    assert(data@.skip(i as int) =~= Seq::<u8>::empty());
    true
}

/// Copies `n` bytes at `pos`, which must be present.
fn copy_bytes(data: &[u8], pos: u64, n: u64) -> (r: Vec<u8>)
    requires
        avail(data@, pos as int, n as int),
    ensures
        r@ == data@.subrange(pos as int, pos + n),
{
    let _len = data.len();
    crate::read::bytes_to_vec(vstd::slice::slice_subrange(data, pos as usize, (pos + n) as usize))
}

/// Handles a text asset at `pos`.
fn scan_text(data: &[u8], pos: u64, be: bool, acc: &mut Scan) -> (r: Result<(), AssetError>)
    requires
        data@.len() <= i64::MAX,
    ensures
        match r {
            Ok(()) => spec_text_step(data@, old(acc)@, pos as int, be) == Ok::<ScanView, AssetError>(final(acc)@),
            Err(e) => spec_text_step(data@, old(acc)@, pos as int, be) == Err::<ScanView, AssetError>(e),
        },
{
    let _len = data.len();
    reveal(spec_text_step);
    let (name, p1) = read_asset_string(data, pos, be)?;
    let p2 = align_stream(p1);
    let len = u32_at(data, p2, be)?;
    let p3 = p2 + 4;
    if str_eq(name.as_str(), "spritesheetf") {
        if !has_bytes(data, p3, len as u64) {
            return Err(AssetError::UnexpectedEnd);
        }
        let bytes = copy_bytes(data, p3, len as u64);
        if acc.spritesheetf.is_some() {
            return Err(AssetError::DuplicateSpritesheetf);
        }
        acc.spritesheetf = Some(bytes);
        Ok(())
    } else {
        if !xml_hint(data, p3) {
            return Ok(());
        }
        if !has_bytes(data, p3, len as u64) {
            return Err(AssetError::UnexpectedEnd);
        }
        let bytes = copy_bytes(data, p3, len as u64);
        let asset = XmlAsset { name, data: bytes, position: p3, slot_size: len as usize };
        let ghost prev = acc.xml_assets@.map_values(|x: XmlAsset| x@);
        acc.xml_assets.push(asset);
        assert(acc.xml_assets@.map_values(|x: XmlAsset| x@) =~= prev.push(asset@));
        Ok(())
    }
}

/// Handles a texture at `pos`.
fn scan_texture(data: &[u8], pos: u64, be: bool, acc: &mut Scan) -> (r: Result<(), AssetError>)
    requires
        data@.len() <= i64::MAX,
    ensures
        match r {
            Ok(()) => spec_texture_step(data@, old(acc)@, pos as int, be) == Ok::<ScanView, AssetError>(final(acc)@),
            Err(e) => spec_texture_step(data@, old(acc)@, pos as int, be) == Err::<ScanView, AssetError>(e),
        },
{
    let _len = data.len();
    reveal(spec_texture_step);
    let (name, p1) = read_asset_string(data, pos, be)?;
    let is_characters = str_eq(name.as_str(), "characters");
    if !str_eq(name.as_str(), "mapObjects") && !is_characters {
        return Ok(());
    }
    let p2 = align_stream(p1);
    if !has_bytes(data, p2, 6) {
        return Err(AssetError::UnexpectedEnd);
    }
    let p3 = align_stream(p2 + 6);
    if !has_bytes(data, p3, 20) {
        return Err(AssetError::UnexpectedEnd);
    }
    let width = u32_at(data, p3, be)?;
    let height = u32_at(data, p3 + 4, be)?;
    let format = u32_at(data, p3 + 16, be)?;
    if format != 4 {
        return Err(AssetError::NotRgba32);
    }
    if !has_bytes(data, p3 + 20, 8) {
        return Err(AssetError::UnexpectedEnd);
    }
    let p4 = align_stream(p3 + 28);
    if !has_bytes(data, p4, 48) {
        return Err(AssetError::UnexpectedEnd);
    }
    let blob = u32_at(data, p4 + 44, be)?;
    let p5 = align_stream(p4 + 48 + blob as u64);
    let size = u32_at(data, p5, be)?;
    if !has_bytes(data, p5 + 4, size as u64) {
        return Err(AssetError::UnexpectedEnd);
    }
    let tex = Texture2D { width, height, data: copy_bytes(data, p5 + 4, size as u64) };
    if is_characters {
        if acc.characters.is_some() {
            return Err(AssetError::DuplicateCharacters);
        }
        acc.characters = Some(tex);
    } else {
        if acc.map_objects.is_some() {
            return Err(AssetError::DuplicateMapObjects);
        }
        acc.map_objects = Some(tex);
    }
    Ok(())
}

/// What the parse gives, in specifications.
pub open spec fn raw_result_view(r: Result<RawAssets, AssetError>) -> Result<RawAssetsView, AssetError> {
    match r {
        Ok(a) => Ok(a@),
        Err(e) => Err(e),
    }
}

/// Goes through the objects in order.
fn scan_objects(data: &[u8], objects: &Vec<ObjectEntry>, be: bool) -> (r: Result<Scan, AssetError>)
    requires
        data@.len() <= i64::MAX,
    ensures
        match r {
            Ok(acc) => spec_scan(data@, objects@, be) == Ok::<ScanView, AssetError>(acc@),
            Err(e) => spec_scan(data@, objects@, be) == Err::<ScanView, AssetError>(e),
        },
{
    let ghost sorted = objects@;
    let mut acc = Scan { spritesheetf: None, characters: None, map_objects: None, xml_assets: Vec::new() };
    assert(acc@.xml =~= Seq::<XmlAssetView>::empty());
    assert(sorted.take(0) =~= Seq::<ObjectEntry>::empty());
    let n = objects.len();
    let mut i: usize = 0;
    while i < n
        invariant
            n == sorted.len(),
            objects@ == sorted,
            data@.len() <= i64::MAX,
            i <= n,
            spec_scan(data@, sorted.take(i as int), be) == Ok::<ScanView, AssetError>(acc@),
        decreases n - i,
    {
        let (pos, kind) = objects[i];
        assert(sorted.take(i + 1).drop_last() =~= sorted.take(i as int));
        let res = if kind == 0 {
            scan_text(data, pos, be, &mut acc)
        } else {
            scan_texture(data, pos, be, &mut acc)
        };
        if let Err(e) = res {
            proof {
                lemma_scan_err(data@, sorted, (i + 1) as nat, be);
            }
            return Err(e);
        }
        i += 1;
    }
    assert(sorted.take(n as int) =~= sorted);
    Ok(acc)
}

/// Checks that each part was found.
fn finish_scan(acc: Scan) -> (r: Result<RawAssets, AssetError>)
    ensures
        raw_result_view(r) == spec_finish(Ok::<ScanView, AssetError>(acc@)),
{
    let Scan { spritesheetf, characters, map_objects, xml_assets } = acc;
    let spritesheetf = match spritesheetf {
        Some(s) => s,
        None => return Err(AssetError::MissingSpritesheetf),
    };
    let characters = match characters {
        Some(c) => c,
        None => return Err(AssetError::MissingCharacters),
    };
    let map_objects = match map_objects {
        Some(m) => m,
        None => return Err(AssetError::MissingMapObjects),
    };
    Ok(RawAssets { spritesheetf, characters, map_objects, xml_assets })
}

impl RawAssets {
    /// Reads the parts of the assets file `data` that this program uses. The
    /// objects are visited in order of position; where two share a position
    /// either order may be taken.
    pub fn parse(data: &[u8]) -> (r: Result<RawAssets, AssetError>)
        requires
            data@.len() <= i64::MAX,
        ensures
            match spec_entries(data@) {
                Err(e) => r == Err::<RawAssets, AssetError>(e),
                Ok((es, be)) => exists|sorted: Seq<ObjectEntry>|
                    #[trigger] sorted_by_position(sorted, es) && raw_result_view(r) == spec_finish(
                        spec_scan(data@, sorted, be),
                    ),
            },
    {
        let _len = data.len();
        let (header, p) = read_header(data)?;
        let be = header.big_endian;
        let (types, q) = read_types(data, p, be)?;
        let mut objects = read_objects(data, q, be, &types, header.data_offset)?;
        let ghost es = objects@;
        sort_entries(&mut objects);
        let res = match scan_objects(data, &objects, be) {
            Ok(acc) => finish_scan(acc),
            Err(e) => Err(e),
        };
        assert(spec_entries(data@) == Ok::<(Seq<ObjectEntry>, bool), AssetError>((es, be)));
        assert(sorted_by_position(objects@, es));
        assert(raw_result_view(res) == spec_finish(spec_scan(data@, objects@, be)));
        assert(match spec_entries(data@) {
            Err(e) => res == Err::<RawAssets, AssetError>(e),
            Ok((es2, be2)) => exists|sorted: Seq<ObjectEntry>|
                #[trigger] sorted_by_position(sorted, es2) && raw_result_view(res) == spec_finish(
                    spec_scan(data@, sorted, be2),
                ),
        }) by {
            let ghost w = objects@;
            assert(spec_entries(data@) matches Ok((a, b)) && a == es && b == be);
            assert(sorted_by_position(w, es));
            assert(raw_result_view(res) == spec_finish(spec_scan(data@, w, be)));
            assert(exists|sorted: Seq<ObjectEntry>|
                #[trigger] sorted_by_position(sorted, es) && raw_result_view(res) == spec_finish(
                    spec_scan(data@, sorted, be),
                ));
        }
        res
    }
}

proof fn lemma_scan_err(d: Seq<u8>, objs: Seq<ObjectEntry>, i: nat, be: bool)
    requires
        i <= objs.len(),
        spec_scan(d, objs.take(i as int), be) is Err,
    ensures
        spec_scan(d, objs, be) == spec_scan(d, objs.take(i as int), be),
    decreases objs.len() - i,
{
    if i < objs.len() {
        assert(objs.take(i as int + 1).drop_last() =~= objs.take(i as int));
        lemma_scan_err(d, objs, i + 1, be);
    } else {
        assert(objs.take(i as int) =~= objs);
    }
}

} // verus!
