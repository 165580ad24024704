//! Serialization of values in the game's wire format (big endian, strings
//! prefixed by a 16-bit length, integers of the "compressed" kind).

use vstd::prelude::*;

verus! {

/// The two big-endian bytes of `x`.
pub open spec fn be_u16(x: int) -> Seq<u8> {
    seq![((x / 256) % 256) as u8, (x % 256) as u8]
}

/// The four big-endian bytes of `x`.
pub open spec fn be_u32(x: int) -> Seq<u8> {
    seq![
        ((x / 0x1000000) % 256) as u8,
        ((x / 0x10000) % 256) as u8,
        ((x / 0x100) % 256) as u8,
        (x % 256) as u8,
    ]
}

/// `x` taken modulo `2^bits` (two's complement representation of a signed value).
pub open spec fn twos(x: int, modulus: int) -> int {
    if x < 0 { x + modulus } else { x }
}

/// A value that can be written in the game protocol format.
pub trait RPWrite: View {
    /// The bytes that `rp_write` appends for a value with the given view.
    spec fn rp_bytes(v: Self::V) -> Seq<u8>;

    /// Whether a value with the given view has an encoding (the compressed
    /// integer format has none for the most negative 64-bit integer).
    spec fn rp_writable(v: Self::V) -> bool;

    /// Appends the encoding of `self` to `buf`; returns how many bytes were written.
    fn rp_write(&self, buf: &mut Vec<u8>) -> (written: usize)
        requires
            Self::rp_writable(self@),
        ensures
            final(buf)@ == old(buf)@ + Self::rp_bytes(self@),
            written == Self::rp_bytes(self@).len(),
    ;
}

/// Appends one byte.
fn push_byte(buf: &mut Vec<u8>, b: u8)
    ensures
        final(buf)@ == old(buf)@ + seq![b],
{
    buf.push(b);
    assert(buf@ =~= old(buf)@ + seq![b]);
}

impl RPWrite for bool {
    open spec fn rp_bytes(v: bool) -> Seq<u8> {
        seq![if v { 1u8 } else { 0u8 }]
    }

    open spec fn rp_writable(v: bool) -> bool {
        true
    }

    fn rp_write(&self, buf: &mut Vec<u8>) -> (written: usize) {
        push_byte(buf, if *self { 1 } else { 0 });
        1
    }
}

impl RPWrite for u8 {
    open spec fn rp_bytes(v: u8) -> Seq<u8> {
        seq![v]
    }

    open spec fn rp_writable(v: u8) -> bool {
        true
    }

    fn rp_write(&self, buf: &mut Vec<u8>) -> (written: usize) {
        push_byte(buf, *self);
        1
    }
}

/// Appends the big-endian bytes of a 16-bit quantity.
fn push_be_u16(buf: &mut Vec<u8>, x: u16)
    ensures
        final(buf)@ == old(buf)@ + be_u16(x as int),
{
    push_byte(buf, (x / 256) as u8);
    push_byte(buf, (x % 256) as u8);
    assert(buf@ =~= old(buf)@ + be_u16(x as int));
}

/// Appends the big-endian bytes of a 32-bit quantity.
fn push_be_u32(buf: &mut Vec<u8>, x: u32)
    ensures
        final(buf)@ == old(buf)@ + be_u32(x as int),
{
    push_byte(buf, (x / 0x1000000) as u8);
    push_byte(buf, ((x / 0x10000) % 256) as u8);
    push_byte(buf, ((x / 0x100) % 256) as u8);
    push_byte(buf, (x % 256) as u8);
    assert(buf@ =~= old(buf)@ + be_u32(x as int));
}

impl RPWrite for u16 {
    open spec fn rp_bytes(v: u16) -> Seq<u8> {
        be_u16(v as int)
    }

    open spec fn rp_writable(v: u16) -> bool {
        true
    }

    fn rp_write(&self, buf: &mut Vec<u8>) -> (written: usize) {
        push_be_u16(buf, *self);
        2
    }
}

impl RPWrite for u32 {
    open spec fn rp_bytes(v: u32) -> Seq<u8> {
        be_u32(v as int)
    }

    open spec fn rp_writable(v: u32) -> bool {
        true
    }

    fn rp_write(&self, buf: &mut Vec<u8>) -> (written: usize) {
        push_be_u32(buf, *self);
        4
    }
}

impl RPWrite for i8 {
    open spec fn rp_bytes(v: i8) -> Seq<u8> {
        seq![twos(v as int, 256) as u8]
    }

    open spec fn rp_writable(v: i8) -> bool {
        true
    }

    fn rp_write(&self, buf: &mut Vec<u8>) -> (written: usize) {
        let b: u8 = if *self < 0 { (*self as i16 + 256) as u8 } else { *self as u8 };
        push_byte(buf, b);
        1
    }
}

impl RPWrite for i16 {
    open spec fn rp_bytes(v: i16) -> Seq<u8> {
        be_u16(twos(v as int, 0x10000))
    }

    open spec fn rp_writable(v: i16) -> bool {
        true
    }

    fn rp_write(&self, buf: &mut Vec<u8>) -> (written: usize) {
        let u: u16 = if *self < 0 { (*self as i32 + 0x10000) as u16 } else { *self as u16 };
        push_be_u16(buf, u);
        2
    }
}

impl RPWrite for i32 {
    open spec fn rp_bytes(v: i32) -> Seq<u8> {
        be_u32(twos(v as int, 0x1_0000_0000))
    }

    open spec fn rp_writable(v: i32) -> bool {
        true
    }

    fn rp_write(&self, buf: &mut Vec<u8>) -> (written: usize) {
        let u: u32 = if *self < 0 { (*self as i64 + 0x1_0000_0000) as u32 } else { *self as u32 };
        push_be_u32(buf, u);
        4
    }
}

/// The encoding of a string: its UTF-8 length as a 16-bit big-endian number
/// (taken modulo 2^16, as the length is cut to 16 bits), then its UTF-8 bytes.
pub open spec fn string_bytes(s: Seq<char>) -> Seq<u8> {
    be_u16((vstd::utf8::encode_utf8(s).len() % 0x10000) as int) + vstd::utf8::encode_utf8(s)
}

/// Appends the string encoding of `s`; returns how many bytes were written.
pub fn write_str(s: &str, buf: &mut Vec<u8>) -> (written: usize)
    ensures
        final(buf)@ == old(buf)@ + string_bytes(s@),
        written == string_bytes(s@).len(),
{
    let start = buf.len();
    let bytes = s.as_bytes();
    let len = bytes.len();
    push_be_u16(buf, (len % 0x10000) as u16);
    extend_bytes(buf, bytes);
    assert(buf@ =~= old(buf)@ + string_bytes(s@));
    buf.len() - start
}

/// Appends all bytes of `bytes`.
pub fn extend_bytes(buf: &mut Vec<u8>, bytes: &[u8])
    ensures
        final(buf)@ == old(buf)@ + bytes@,
{
    let n = bytes.len();
    let mut i: usize = 0;
    while i < n
        invariant
            n == bytes@.len(),
            0 <= i <= n,
            buf@ == old(buf)@ + bytes@.subrange(0, i as int),
        decreases n - i,
    {
        push_byte(buf, bytes[i]);
        assert(bytes@.subrange(0, i + 1) =~= bytes@.subrange(0, i as int) + seq![bytes@[i as int]]);
        i += 1;
    }
    assert(bytes@.subrange(0, n as int) =~= bytes@);
}

impl RPWrite for String {
    open spec fn rp_bytes(v: Seq<char>) -> Seq<u8> {
        string_bytes(v)
    }

    open spec fn rp_writable(v: Seq<char>) -> bool {
        true
    }

    fn rp_write(&self, buf: &mut Vec<u8>) -> (written: usize) {
        write_str(self.as_str(), buf)
    }
}


/// The continuation bytes that carry `m` seven bits at a time, least
/// significant group first; every byte but the last has its high bit set.
pub open spec fn cont_bytes(m: nat) -> Seq<u8>
    decreases m,
{
    if m == 0 {
        Seq::empty()
    } else if m < 128 {
        seq![m as u8]
    } else {
        seq![(m % 128 + 128) as u8] + cont_bytes(m / 128)
    }
}

/// The magnitude of `v`.
pub open spec fn abs_int(v: int) -> nat {
    if v < 0 { (-v) as nat } else { v as nat }
}

/// The "compressed" encoding of an integer: a first byte holding the low six
/// bits of the magnitude, the sign (bit 6) and a continuation flag (bit 7),
/// then the rest of the magnitude as in `cont_bytes`.
pub open spec fn compressed_bytes(v: int) -> Seq<u8> {
    let mag = abs_int(v);
    let first = mag % 64 + (if mag / 64 != 0 { 128int } else { 0int }) + (if v < 0 {
        64int
    } else {
        0int
    });
    seq![first as u8] + cont_bytes(mag / 64)
}

/// Writes `value` in the compressed integer format; returns the number of bytes written.
pub fn write_compressed_int(value: &i64, buf: &mut Vec<u8>) -> (written: usize)
    requires
        *value != i64::MIN,
    ensures
        final(buf)@ == old(buf)@ + compressed_bytes(*value as int),
        written == compressed_bytes(*value as int).len(),
{
    let start = buf.len();
    let is_negative = *value < 0;
    let mut rest: i64 = if is_negative { -*value } else { *value };
    let mut byte: u8 = (rest % 64) as u8;
    rest = rest / 64;
    if rest != 0 {
        byte = byte + 128;
    }
    if is_negative {
        byte = byte + 64;
    }
    push_byte(buf, byte);
    assert(buf@ + cont_bytes(rest as nat) =~= old(buf)@ + compressed_bytes(*value as int));
    while rest != 0
        invariant
            rest >= 0,
            buf@ + cont_bytes(rest as nat) == old(buf)@ + compressed_bytes(*value as int),
        decreases rest,
    {
        let ghost before = buf@;
        let ghost prev = rest;
        let mut byte: u8 = (rest % 128) as u8;
        rest = rest / 128;
        if rest != 0 {
            byte = byte + 128;
        }
        push_byte(buf, byte);
        assert(cont_bytes(prev as nat) =~= seq![byte] + cont_bytes(rest as nat));
        assert(buf@ + cont_bytes(rest as nat) =~= before + cont_bytes(prev as nat));
    }
    assert(buf@ =~= old(buf)@ + compressed_bytes(*value as int));
    buf.len() - start
}

} // verus!
