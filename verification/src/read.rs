//! Deserialization of values in the game's wire format; the inverse of `write`.

use vstd::prelude::*;
use crate::write::{abs_int, be_u16, be_u32, compressed_bytes, cont_bytes, string_bytes, twos};

verus! {

/// Why a value could not be read.
#[derive(Debug, Clone, Copy, PartialEq, Eq)]
pub enum ReadError {
    /// The data ended before the value did.
    UnexpectedEnd,
    /// A string was not valid UTF-8.
    InvalidUtf8,
    /// A compressed integer does not fit in 64 bits.
    IntegerOverflow,
    /// The data holds a value that the format does not allow.
    InvalidData,
}

/// `parsed` says that `v` was read from `before`, leaving `after`.
pub open spec fn read_ok<V>(parsed: Option<(V, int)>, v: V, before: Seq<u8>, after: Seq<u8>) -> bool {
    match parsed {
        Some((pv, n)) => pv == v && 0 <= n <= before.len() && after == before.skip(n),
        None => false,
    }
}

/// A value that can be read in the game protocol format.
pub trait RPRead: View + Sized {
    /// The value at the start of `data` and the number of bytes it takes, if any.
    spec fn rp_parse(data: Seq<u8>) -> Option<(Self::V, int)>;

    /// Reads a value from the start of `data` and advances `data` past it.
    /// On error `data` is left as it was.
    fn rp_read(data: &mut &[u8]) -> (r: Result<Self, ReadError>)
        ensures
            match r {
                Ok(v) => read_ok(Self::rp_parse(old(data)@), v@, old(data)@, final(data)@),
                Err(_) => Self::rp_parse(old(data)@) is None && final(data)@ == old(data)@,
            },
    ;
}

/// The byte at the start of `s`.
pub open spec fn parse_u8(s: Seq<u8>) -> Option<(u8, int)> {
    if s.len() >= 1 { Some((s[0], 1)) } else { None }
}

/// A big-endian 16-bit number at the start of `s`.
pub open spec fn parse_be16(s: Seq<u8>) -> Option<(int, int)> {
    if s.len() >= 2 { Some((s[0] * 256 + s[1], 2)) } else { None }
}

/// A big-endian 32-bit number at the start of `s`.
pub open spec fn parse_be32(s: Seq<u8>) -> Option<(int, int)> {
    if s.len() >= 4 {
        Some((((s[0] * 256 + s[1]) * 256 + s[2]) * 256 + s[3], 4))
    } else {
        None
    }
}

/// Reads one byte.
pub fn read_byte(data: &mut &[u8]) -> (r: Result<u8, ReadError>)
    ensures
        match r {
            Ok(v) => read_ok(parse_u8(old(data)@), v, old(data)@, final(data)@),
            Err(e) => parse_u8(old(data)@) is None && final(data)@ == old(data)@ && e == ReadError::UnexpectedEnd,
        },
{
    if data.len() == 0 {
        return Err(ReadError::UnexpectedEnd);
    }
    let b = data[0];
    *data = vstd::slice::slice_subrange(*data, 1, data.len());
    Ok(b)
}


/// Reads `n` bytes.
pub fn read_bytes<'a>(data: &mut &'a [u8], n: usize) -> (r: Result<&'a [u8], ReadError>)
    ensures
        match r {
            Ok(v) => old(data)@.len() >= n && v@ == old(data)@.subrange(0, n as int)
                && final(data)@ == old(data)@.skip(n as int),
            Err(e) => old(data)@.len() < n && final(data)@ == old(data)@ && e
                == ReadError::UnexpectedEnd,
        },
{
    if data.len() < n {
        return Err(ReadError::UnexpectedEnd);
    }
    let bytes = vstd::slice::slice_subrange(*data, 0, n);
    *data = vstd::slice::slice_subrange(*data, n, data.len());
    Ok(bytes)
}

/// Reads a big-endian 16-bit number.
fn read_be16(data: &mut &[u8]) -> (r: Result<u16, ReadError>)
    ensures
        match r {
            Ok(v) => read_ok(parse_be16(old(data)@), v as int, old(data)@, final(data)@),
            Err(e) => parse_be16(old(data)@) is None && final(data)@ == old(data)@ && e == ReadError::UnexpectedEnd,
        },
{
    let b = read_bytes(data, 2)?;
    Ok(b[0] as u16 * 256 + b[1] as u16)
}

/// Reads a big-endian 32-bit number.
fn read_be32(data: &mut &[u8]) -> (r: Result<u32, ReadError>)
    ensures
        match r {
            Ok(v) => read_ok(parse_be32(old(data)@), v as int, old(data)@, final(data)@),
            Err(e) => parse_be32(old(data)@) is None && final(data)@ == old(data)@ && e == ReadError::UnexpectedEnd,
        },
{
    let b = read_bytes(data, 4)?;
    Ok(((b[0] as u32 * 256 + b[1] as u32) * 256 + b[2] as u32) * 256 + b[3] as u32)
}

/// Maps a parsed number through `f`, keeping the length.
pub open spec fn map_parse<A, B>(p: Option<(A, int)>, f: spec_fn(A) -> B) -> Option<(B, int)> {
    match p {
        Some((a, n)) => Some((f(a), n)),
        None => None,
    }
}

/// The signed value of an unsigned `bits`-bit quantity `u` (modulus `m = 2^bits`).
pub open spec fn signed(u: int, m: int) -> int {
    if u >= m / 2 { u - m } else { u }
}

impl RPRead for bool {
    open spec fn rp_parse(data: Seq<u8>) -> Option<(bool, int)> {
        map_parse(parse_u8(data), |b: u8| b != 0)
    }

    fn rp_read(data: &mut &[u8]) -> (r: Result<bool, ReadError>) {
        let b = read_byte(data)?;
        Ok(b != 0)
    }
}

impl RPRead for u8 {
    open spec fn rp_parse(data: Seq<u8>) -> Option<(u8, int)> {
        parse_u8(data)
    }

    fn rp_read(data: &mut &[u8]) -> (r: Result<u8, ReadError>) {
        read_byte(data)
    }
}

impl RPRead for u16 {
    open spec fn rp_parse(data: Seq<u8>) -> Option<(u16, int)> {
        map_parse(parse_be16(data), |x: int| x as u16)
    }

    fn rp_read(data: &mut &[u8]) -> (r: Result<u16, ReadError>) {
        read_be16(data)
    }
}

impl RPRead for u32 {
    open spec fn rp_parse(data: Seq<u8>) -> Option<(u32, int)> {
        map_parse(parse_be32(data), |x: int| x as u32)
    }

    fn rp_read(data: &mut &[u8]) -> (r: Result<u32, ReadError>) {
        read_be32(data)
    }
}

impl RPRead for i8 {
    open spec fn rp_parse(data: Seq<u8>) -> Option<(i8, int)> {
        map_parse(parse_u8(data), |b: u8| signed(b as int, 256) as i8)
    }

    fn rp_read(data: &mut &[u8]) -> (r: Result<i8, ReadError>) {
        let b = read_byte(data)?;
        Ok(if b >= 128 { (b as i16 - 256) as i8 } else { b as i8 })
    }
}

impl RPRead for i16 {
    open spec fn rp_parse(data: Seq<u8>) -> Option<(i16, int)> {
        map_parse(parse_be16(data), |x: int| signed(x, 0x10000) as i16)
    }

    fn rp_read(data: &mut &[u8]) -> (r: Result<i16, ReadError>) {
        let u = read_be16(data)?;
        Ok(if u >= 0x8000 { (u as i32 - 0x10000) as i16 } else { u as i16 })
    }
}

impl RPRead for i32 {
    open spec fn rp_parse(data: Seq<u8>) -> Option<(i32, int)> {
        map_parse(parse_be32(data), |x: int| signed(x, 0x1_0000_0000) as i32)
    }

    fn rp_read(data: &mut &[u8]) -> (r: Result<i32, ReadError>) {
        let u = read_be32(data)?;
        Ok(if u >= 0x8000_0000 { (u as i64 - 0x1_0000_0000) as i32 } else { u as i32 })
    }
}

/// Decodes UTF-8 bytes into a `String`, or `None` where they are not valid UTF-8.
/// Calls `String::from_utf8` and claims what its documentation says: it
/// succeeds exactly on valid UTF-8 and gives the characters that the bytes encode.
#[verifier::external_body]
pub(crate) fn string_from_utf8(bytes: Vec<u8>) -> (r: Option<String>)
    ensures
        r is Some <==> vstd::utf8::valid_utf8(bytes@),
        r matches Some(s) ==> s@ == vstd::utf8::decode_utf8(bytes@),
{
    String::from_utf8(bytes).ok()
}

/// A string at the start of `s`: a 16-bit big-endian byte length, then that
/// many bytes of valid UTF-8.
pub open spec fn parse_string(s: Seq<u8>) -> Option<(Seq<char>, int)> {
    match parse_be16(s) {
        Some((n, _)) => if s.len() >= 2 + n && vstd::utf8::valid_utf8(s.subrange(2, 2 + n)) {
            Some((vstd::utf8::decode_utf8(s.subrange(2, 2 + n)), 2 + n))
        } else {
            None
        },
        None => None,
    }
}

/// Copies a byte slice into a new vector.
pub fn bytes_to_vec(bytes: &[u8]) -> (v: Vec<u8>)
    ensures
        v@ == bytes@,
{
    let mut v: Vec<u8> = Vec::new();
    crate::write::extend_bytes(&mut v, bytes);
    assert(v@ =~= bytes@);
    v
}

impl RPRead for String {
    open spec fn rp_parse(data: Seq<u8>) -> Option<(Seq<char>, int)> {
        parse_string(data)
    }

    fn rp_read(data: &mut &[u8]) -> (r: Result<String, ReadError>) {
        let mut d: &[u8] = *data;
        let n = read_be16(&mut d)?;
        let bytes = read_bytes(&mut d, n as usize)?;
        proof {
            assert(old(data)@.subrange(2, 2 + n as int) =~= bytes@);
        }
        match string_from_utf8(bytes_to_vec(bytes)) {
            Some(s) => {
                *data = d;
                assert(final(data)@ =~= old(data)@.skip(2 + n as int));
                Ok(s)
            },
            None => Err(ReadError::InvalidUtf8),
        }
    }
}

/// The value of continuation bytes `s` (seven bits each, least significant group first).
pub open spec fn cont_value(s: Seq<u8>) -> nat
    decreases s.len(),
{
    if s.len() == 0 {
        0
    } else {
        (s[0] % 128) as nat + 128 * cont_value(s.drop_first())
    }
}

/// The continuation bytes at the start of `s`: all bytes up to and including
/// the first one whose high bit is clear.
pub open spec fn parse_cont(s: Seq<u8>) -> Option<(nat, int)>
    decreases s.len(),
{
    if s.len() == 0 {
        None
    } else if s[0] < 128 {
        Some((s[0] as nat, 1))
    } else {
        match parse_cont(s.drop_first()) {
            Some((m, n)) => Some(((s[0] - 128) as nat + 128 * m, n + 1)),
            None => None,
        }
    }
}

/// A compressed integer at the start of `s`, if it is complete and fits in 64 bits.
pub open spec fn parse_compressed(s: Seq<u8>) -> Option<(i64, int)> {
    if s.len() == 0 {
        None
    } else {
        let b = s[0];
        let low = (b % 64) as nat;
        let negative = b % 128 >= 64;
        let mag: Option<(nat, int)> = if b >= 128 {
            match parse_cont(s.drop_first()) {
                Some((m, n)) => Some((low + 64 * m, n + 1)),
                None => None,
            }
        } else {
            Some((low, 1))
        };
        match mag {
            Some((m, n)) => {
                let v: int = if negative { -m } else { m as int };
                if i64::MIN <= v <= i64::MAX { Some((v as i64, n)) } else { None }
            },
            None => None,
        }
    }
}

proof fn lemma_parse_cont_some(s: Seq<u8>, k: int)
    requires
        0 <= k < s.len(),
        s[k] < 128,
        forall|i: int| 0 <= i < k ==> s[i] >= 128,
    ensures
        parse_cont(s) == Some((cont_value(s.subrange(0, k + 1)), k + 1)),
    decreases k,
{
    let t = s.subrange(0, k + 1);
    if k > 0 {
        lemma_parse_cont_some(s.drop_first(), k - 1);
        assert(s.drop_first().subrange(0, k) =~= t.drop_first());
        assert(s[0] % 128 == s[0] - 128);
        assert(cont_value(t) == (t[0] % 128) as nat + 128 * cont_value(t.drop_first()));
    } else {
        assert(t.drop_first() =~= Seq::<u8>::empty());
        assert(cont_value(Seq::<u8>::empty()) == 0);
        assert(cont_value(t) == (t[0] % 128) as nat + 128 * cont_value(t.drop_first()));
    }
}

proof fn lemma_parse_cont_none(s: Seq<u8>)
    requires
        forall|i: int| 0 <= i < s.len() ==> s[i] >= 128,
    ensures
        parse_cont(s) is None,
    decreases s.len(),
{
    if s.len() > 0 {
        lemma_parse_cont_none(s.drop_first());
    }
}

/// The saturation bound for a continuation value: anything at or above it
/// gives a magnitude beyond 64 bits.
pub open spec fn cont_cap() -> nat {
    0x200_0000_0000_0001
}

/// Reads the continuation bytes of a compressed integer; returns their value,
/// capped at `cont_cap()`.
fn read_cont(data: &mut &[u8]) -> (r: Result<u64, ReadError>)
    ensures
        match r {
            Ok(m) => match parse_cont(old(data)@) {
                Some((v, n)) => m as nat == (if v < cont_cap() { v } else { cont_cap() })
                    && 0 < n <= old(data)@.len() && final(data)@ == old(data)@.skip(n),
                None => false,
            },
            Err(e) => parse_cont(old(data)@) is None && final(data)@ == old(data)@ && e == ReadError::UnexpectedEnd,
        },
{
    let s: &[u8] = *data;
    let len = s.len();
    let mut k: usize = 0;
    while k < len && s[k] >= 128
        invariant
            len == s@.len(),
            k <= len,
            forall|i: int| 0 <= i < k ==> s@[i] >= 128,
        decreases len - k,
    {
        k += 1;
    }
    if k == len {
        proof {
            lemma_parse_cont_none(s@);
        }
        return Err(ReadError::UnexpectedEnd);
    }
    proof {
        lemma_parse_cont_some(s@, k as int);
    }
    let cap: u64 = 0x200_0000_0000_0001;
    let mut m: u64 = (s[k] % 128) as u64;
    let mut i: usize = k;
    proof {
        let t = s@.subrange(k as int, k + 1);
        assert(t.drop_first() =~= Seq::<u8>::empty());
        assert(cont_value(Seq::<u8>::empty()) == 0);
        assert(cont_value(t) == (t[0] % 128) as nat + 128 * cont_value(t.drop_first()));
    }
    while i > 0
        invariant
            i <= k < len,
            len == s@.len(),
            cap == cont_cap(),
            m as nat == (if cont_value(s@.subrange(i as int, k + 1)) < cap {
                cont_value(s@.subrange(i as int, k + 1))
            } else {
                cap as nat
            }),
        decreases i,
    {
        let ghost prev = cont_value(s@.subrange(i as int, k + 1));
        i -= 1;
        assert(s@.subrange(i as int, k + 1).drop_first() =~= s@.subrange(i + 1, k + 1));
        let low = (s[i] % 128) as u64;
        assert(cont_value(s@.subrange(i as int, k + 1)) == low as nat + 128 * prev);
        if m >= cap {
            m = cap;
        } else {
            let next: u128 = low as u128 + 128 * (m as u128);
            m = if next >= cap as u128 { cap } else { next as u64 };
        }
    }
    *data = vstd::slice::slice_subrange(s, k + 1, len);
    assert(final(data)@ =~= old(data)@.skip(k + 1));
    Ok(m)
}

/// The data holds a whole compressed integer: a first byte and, if it says
/// so, continuation bytes up to one with its high bit clear.
pub open spec fn compressed_complete(s: Seq<u8>) -> bool {
    s.len() > 0 && (s[0] >= 128 ==> parse_cont(s.drop_first()) is Some)
}

/// Reads an integer in the compressed format.
pub fn read_compressed_int(data: &mut &[u8]) -> (r: Result<i64, ReadError>)
    ensures
        match r {
            Ok(v) => read_ok(parse_compressed(old(data)@), v, old(data)@, final(data)@),
            Err(e) => parse_compressed(old(data)@) is None && final(data)@ == old(data)@
                && e == (if compressed_complete(old(data)@) { ReadError::IntegerOverflow } else { ReadError::UnexpectedEnd }),
        },
{
    let mut d: &[u8] = *data;
    let b = read_byte(&mut d)?;
    let ghost s = old(data)@;
    let low: u64 = (b % 64) as u64;
    let negative = b % 128 >= 64;
    // the magnitude, where a continuation value at the cap stands for any larger one
    let mag: u128;
    let ghost spec_mag: nat;
    let ghost used: int;
    if b >= 128 {
        assert(s.drop_first() =~= d@);
        let m = read_cont(&mut d)?;
        mag = low as u128 + 64 * (m as u128);
        proof {
            let (v, n) = parse_cont(s.drop_first()).unwrap();
            spec_mag = low as nat + 64 * v;
            used = n + 1;
            assert(d@ =~= s.skip(used));
            if v >= cont_cap() {
                assert(mag >= 64 * cont_cap());
                assert(spec_mag >= 64 * cont_cap());
            } else {
                assert(mag == spec_mag);
            }
        }
    } else {
        mag = low as u128;
        proof {
            spec_mag = low as nat;
            used = 1;
        }
    }
    assert(parse_compressed(s) == (if (if negative { -spec_mag } else { spec_mag as int }) >= i64::MIN
        && (if negative { -spec_mag } else { spec_mag as int }) <= i64::MAX {
        Some(((if negative { -spec_mag } else { spec_mag as int }) as i64, used))
    } else {
        None
    }));
    if negative {
        if mag > 0x8000_0000_0000_0000 {
            return Err(ReadError::IntegerOverflow);
        }
        *data = d;
        if mag == 0x8000_0000_0000_0000 {
            Ok(i64::MIN)
        } else {
            Ok(-(mag as i64))
        }
    } else {
        if mag > 0x7fff_ffff_ffff_ffff {
            return Err(ReadError::IntegerOverflow);
        }
        *data = d;
        Ok(mag as i64)
    }
}


/// Law: reading back an encoded 16-bit number gives the number, whatever follows it.
pub proof fn law_u16_roundtrip(x: u16, rest: Seq<u8>)
    ensures
        <u16 as RPRead>::rp_parse(<u16 as crate::write::RPWrite>::rp_bytes(x) + rest) == Some((x, 2int)),
{
    let s = be_u16(x as int) + rest;
    assert(s[0] == ((x / 256) % 256) as u8 && s[1] == (x % 256) as u8);
    assert(s[0] * 256 + s[1] == x);
}

/// Law: reading back an encoded 32-bit number gives the number, whatever follows it.
pub proof fn law_u32_roundtrip(x: u32, rest: Seq<u8>)
    ensures
        <u32 as RPRead>::rp_parse(<u32 as crate::write::RPWrite>::rp_bytes(x) + rest) == Some((x, 4int)),
{
    let s = be_u32(x as int) + rest;
    assert(((s[0] * 256 + s[1]) * 256 + s[2]) * 256 + s[3] == x);
}

/// Law: reading back an encoded signed 16-bit number gives the number.
pub proof fn law_i16_roundtrip(x: i16, rest: Seq<u8>)
    ensures
        <i16 as RPRead>::rp_parse(<i16 as crate::write::RPWrite>::rp_bytes(x) + rest) == Some((x, 2int)),
{
    let u = twos(x as int, 0x10000);
    let s = be_u16(u) + rest;
    assert(s[0] * 256 + s[1] == u);
}

/// Law: reading back an encoded signed 32-bit number gives the number.
pub proof fn law_i32_roundtrip(x: i32, rest: Seq<u8>)
    ensures
        <i32 as RPRead>::rp_parse(<i32 as crate::write::RPWrite>::rp_bytes(x) + rest) == Some((x, 4int)),
{
    let u = twos(x as int, 0x1_0000_0000);
    let s = be_u32(u) + rest;
    assert(((s[0] * 256 + s[1]) * 256 + s[2]) * 256 + s[3] == u);
}

/// Law: reading back an encoded byte, signed byte or boolean gives the value.
pub proof fn law_byte_roundtrip(x: u8, y: i8, b: bool, rest: Seq<u8>)
    ensures
        <u8 as RPRead>::rp_parse(<u8 as crate::write::RPWrite>::rp_bytes(x) + rest) == Some((x, 1int)),
        <i8 as RPRead>::rp_parse(<i8 as crate::write::RPWrite>::rp_bytes(y) + rest) == Some((y, 1int)),
        <bool as RPRead>::rp_parse(<bool as crate::write::RPWrite>::rp_bytes(b) + rest) == Some((b, 1int)),
{
    assert((seq![x] + rest)[0] == x);
    assert((seq![twos(y as int, 256) as u8] + rest)[0] == twos(y as int, 256) as u8);
    assert((seq![if b { 1u8 } else { 0u8 }] + rest)[0] == if b { 1u8 } else { 0u8 });
}

/// Law: reading back an encoded string gives the string, provided its UTF-8
/// form is shorter than 2^16 bytes (longer ones have their length cut to 16 bits).
pub proof fn law_string_roundtrip(s: Seq<char>, rest: Seq<u8>)
    requires
        vstd::utf8::encode_utf8(s).len() < 0x10000,
    ensures
        parse_string(string_bytes(s) + rest) == Some((s, string_bytes(s).len() as int)),
{
    let e = vstd::utf8::encode_utf8(s);
    let t = string_bytes(s) + rest;
    let n = e.len() as int;
    assert(t[0] * 256 + t[1] == n);
    assert(t.subrange(2, 2 + n) =~= e);
    vstd::utf8::encode_utf8_valid_utf8(s);
    vstd::utf8::encode_utf8_decode_utf8(s);
}

proof fn lemma_cont_roundtrip(m: nat, rest: Seq<u8>)
    requires
        m > 0,
    ensures
        parse_cont(cont_bytes(m) + rest) == Some((m, cont_bytes(m).len() as int)),
    decreases m,
{
    let t = cont_bytes(m) + rest;
    if m < 128 {
        assert(t[0] == m as u8);
    } else {
        lemma_cont_roundtrip(m / 128, rest);
        assert(t.drop_first() =~= cont_bytes(m / 128) + rest);
        assert(t[0] == (m % 128 + 128) as u8);
    }
}

/// Law: reading back a compressed integer gives the integer, whatever follows it.
/// The most negative 64-bit integer has no encoding (its magnitude does not fit).
pub proof fn law_compressed_roundtrip(v: i64, rest: Seq<u8>)
    requires
        v != i64::MIN,
    ensures
        parse_compressed(compressed_bytes(v as int) + rest) == Some((v, compressed_bytes(v as int).len() as int)),
{
    let mag = abs_int(v as int);
    let t = compressed_bytes(v as int) + rest;
    let first = t[0];
    assert(first % 64 == mag % 64);
    assert((first >= 128) == (mag / 64 != 0));
    assert((first % 128 >= 64) == (v < 0));
    if mag / 64 != 0 {
        lemma_cont_roundtrip(mag / 64, rest);
        assert(t.drop_first() =~= cont_bytes(mag / 64) + rest);
    } else {
        assert(cont_bytes(0) =~= Seq::<u8>::empty());
    }
}

} // verus!
