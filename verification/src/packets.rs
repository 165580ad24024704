//! Packets of the game protocol. The packets whose payloads this library
//! decodes are `PlayerText`, `TextPacket` and `CreateSuccess`; the other kinds
//! are carried as their raw payload bytes.

use vstd::prelude::*;
use crate::extra_datatypes::ObjectId;
use crate::read::{parse_be32, parse_string, parse_u8, read_bytes, read_byte, read_ok, ReadError, RPRead};
use crate::write::{be_u16, be_u32, extend_bytes, string_bytes, write_str, RPWrite};

verus! {

/// One tile of the map, as an update packet sends it.
#[derive(Debug, Clone, Copy, PartialEq, Eq, Structural)]
pub struct TileData {
    pub x: i16,
    pub y: i16,
    pub tile_type: u16,
}

/// The key of a tile position: `x` and `y`, each shifted to be unsigned, `x`
/// in the high half. Keys order positions as pairs `(x, y)` are ordered.
pub open spec fn tile_key(x: i16, y: i16) -> u32 {
    ((x + 32768) * 65536 + (y + 32768)) as u32
}

/// The position that a key stands for.
pub open spec fn key_x(k: u32) -> i16 {
    (k / 65536 - 32768) as i16
}

pub open spec fn key_y(k: u32) -> i16 {
    (k % 65536 - 32768) as i16
}

/// Packs a tile position into its key.
pub fn pack_tile(x: i16, y: i16) -> (k: u32)
    ensures
        k == tile_key(x, y),
        key_x(k) == x,
        key_y(k) == y,
{
    let hx = (x as i32 + 32768) as u32;
    let hy = (y as i32 + 32768) as u32;
    hx * 65536 + hy
}

/// The position that a key stands for.
pub fn unpack_tile(k: u32) -> (r: (i16, i16))
    ensures
        r.0 == key_x(k),
        r.1 == key_y(k),
{
    (((k / 65536) as i32 - 32768) as i16, ((k % 65536) as i32 - 32768) as i16)
}

/// A chat message typed by the player (client to server).
#[derive(Debug, Clone)]
pub struct PlayerText {
    pub text: String,
}

impl View for PlayerText {
    type V = Seq<char>;

    open spec fn view(&self) -> Seq<char> {
        self.text@
    }
}

impl RPRead for PlayerText {
    open spec fn rp_parse(data: Seq<u8>) -> Option<(Seq<char>, int)> {
        parse_string(data)
    }

    fn rp_read(data: &mut &[u8]) -> (r: Result<PlayerText, ReadError>) {
        let text = String::rp_read(data)?;
        Ok(PlayerText { text })
    }
}

impl RPWrite for PlayerText {
    open spec fn rp_bytes(v: Seq<char>) -> Seq<u8> {
        string_bytes(v)
    }

    open spec fn rp_writable(v: Seq<char>) -> bool {
        true
    }

    fn rp_write(&self, buf: &mut Vec<u8>) -> (written: usize) {
        self.text.rp_write(buf)
    }
}

/// Tells the client the id of its player after it entered a map (server to client).
#[derive(Debug, Clone)]
pub struct CreateSuccess {
    pub object_id: ObjectId,
    pub char_id: u32,
    pub unknown: String,
}

/// `CreateSuccess`, in specifications.
pub struct CreateSuccessView {
    pub object_id: u32,
    pub char_id: u32,
    pub unknown: Seq<char>,
}

impl View for CreateSuccess {
    type V = CreateSuccessView;

    open spec fn view(&self) -> CreateSuccessView {
        CreateSuccessView { object_id: self.object_id.0, char_id: self.char_id, unknown: self.unknown@ }
    }
}

/// A `CreateSuccess` payload at the start of `s`.
pub open spec fn parse_create_success(s: Seq<u8>) -> Option<(CreateSuccessView, int)> {
    match parse_be32(s) {
        Some((id, n1)) => match parse_be32(s.skip(n1)) {
            Some((ch, n2)) => match parse_string(s.skip(n1 + n2)) {
                Some((u, n3)) => Some((
                    CreateSuccessView { object_id: id as u32, char_id: ch as u32, unknown: u },
                    n1 + n2 + n3,
                )),
                None => None,
            },
            None => None,
        },
        None => None,
    }
}

/// The encoding of a `CreateSuccess` payload.
pub open spec fn create_success_bytes(v: CreateSuccessView) -> Seq<u8> {
    be_u32(v.object_id as int) + be_u32(v.char_id as int) + string_bytes(v.unknown)
}

impl RPRead for CreateSuccess {
    open spec fn rp_parse(data: Seq<u8>) -> Option<(CreateSuccessView, int)> {
        parse_create_success(data)
    }

    fn rp_read(data: &mut &[u8]) -> (r: Result<CreateSuccess, ReadError>) {
        let mut d: &[u8] = *data;
        let ghost s0 = d@;
        let object_id = u32::rp_read(&mut d)?;
        assert(d@ =~= s0.skip(4));
        let char_id = u32::rp_read(&mut d)?;
        assert(d@ =~= s0.skip(8));
        let unknown = String::rp_read(&mut d)?;
        assert(d@ =~= s0.skip(s0.len() - d@.len()));
        *data = d;
        Ok(CreateSuccess { object_id: ObjectId(object_id), char_id, unknown })
    }
}

impl RPWrite for CreateSuccess {
    open spec fn rp_bytes(v: CreateSuccessView) -> Seq<u8> {
        create_success_bytes(v)
    }

    open spec fn rp_writable(v: CreateSuccessView) -> bool {
        true
    }

    fn rp_write(&self, buf: &mut Vec<u8>) -> (written: usize) {
        let start = buf.len();
        self.object_id.0.rp_write(buf);
        self.char_id.rp_write(buf);
        self.unknown.rp_write(buf);
        assert(buf@ =~= old(buf)@ + create_success_bytes(self@));
        buf.len() - start
    }
}

/// Law: a `CreateSuccess` whose string is shorter than 2^16 UTF-8 bytes is
/// read back from its encoding, whatever follows it.
pub proof fn law_create_success_roundtrip(v: CreateSuccessView, rest: Seq<u8>)
    requires
        vstd::utf8::encode_utf8(v.unknown).len() < 0x10000,
    ensures
        parse_create_success(create_success_bytes(v) + rest) == Some((v, create_success_bytes(v).len() as int)),
{
    let b3 = string_bytes(v.unknown);
    let all = create_success_bytes(v) + rest;
    crate::read::law_u32_roundtrip(v.object_id, all.skip(4));
    assert(all =~= be_u32(v.object_id as int) + all.skip(4));
    crate::read::law_u32_roundtrip(v.char_id, b3 + rest);
    assert(all.skip(4) =~= be_u32(v.char_id as int) + (b3 + rest));
    assert(all.skip(8) =~= b3 + rest);
    crate::read::law_string_roundtrip(v.unknown, rest);
}

/// A chat message shown to the player (server to client).
#[derive(Debug, Clone)]
pub struct TextPacket {
    pub name: String,
    pub object_id: ObjectId,
    pub num_stars: u16,
    pub bubble_time: u8,
    pub recipient: String,
    pub text: String,
    pub clean_text: String,
    pub is_supporter: bool,
    pub star_background: u32,
}

/// `TextPacket`, in specifications.
pub struct TextPacketView {
    pub name: Seq<char>,
    pub object_id: u32,
    pub num_stars: u16,
    pub bubble_time: u8,
    pub recipient: Seq<char>,
    pub text: Seq<char>,
    pub clean_text: Seq<char>,
    pub is_supporter: bool,
    pub star_background: u32,
}

impl View for TextPacket {
    type V = TextPacketView;

    open spec fn view(&self) -> TextPacketView {
        TextPacketView {
            name: self.name@,
            object_id: self.object_id.0,
            num_stars: self.num_stars,
            bubble_time: self.bubble_time,
            recipient: self.recipient@,
            text: self.text@,
            clean_text: self.clean_text@,
            is_supporter: self.is_supporter,
            star_background: self.star_background,
        }
    }
}

/// The first fields of a `TextPacket`: name, object id, stars, bubble time, recipient.
pub open spec fn parse_text_head(s: Seq<u8>) -> Option<((Seq<char>, u32, u16, u8, Seq<char>), int)> {
    match parse_string(s) {
        Some((name, n1)) => match parse_be32(s.skip(n1)) {
            Some((id, n2)) => match crate::read::parse_be16(s.skip(n1 + n2)) {
                Some((stars, n3)) => match parse_u8(s.skip(n1 + n2 + n3)) {
                    Some((bubble, n4)) => match parse_string(s.skip(n1 + n2 + n3 + n4)) {
                        Some((recipient, n5)) => Some((
                            (name, id as u32, stars as u16, bubble, recipient),
                            n1 + n2 + n3 + n4 + n5,
                        )),
                        None => None,
                    },
                    None => None,
                },
                None => None,
            },
            None => None,
        },
        None => None,
    }
}

/// The last fields of a `TextPacket`: text, clean text, supporter flag, star background.
pub open spec fn parse_text_tail(s: Seq<u8>) -> Option<((Seq<char>, Seq<char>, bool, u32), int)> {
    match parse_string(s) {
        Some((text, n1)) => match parse_string(s.skip(n1)) {
            Some((clean, n2)) => match parse_u8(s.skip(n1 + n2)) {
                Some((sup, n3)) => match parse_be32(s.skip(n1 + n2 + n3)) {
                    Some((bg, n4)) => Some(((text, clean, sup != 0, bg as u32), n1 + n2 + n3 + n4)),
                    None => None,
                },
                None => None,
            },
            None => None,
        },
        None => None,
    }
}

/// A `TextPacket` payload at the start of `s`: the fields in declaration order.
pub open spec fn parse_text_packet(s: Seq<u8>) -> Option<(TextPacketView, int)> {
    match parse_text_head(s) {
        Some(((name, object_id, num_stars, bubble_time, recipient), n1)) => match parse_text_tail(s.skip(n1)) {
            Some(((text, clean_text, is_supporter, star_background), n2)) => Some((
                TextPacketView {
                    name,
                    object_id,
                    num_stars,
                    bubble_time,
                    recipient,
                    text,
                    clean_text,
                    is_supporter,
                    star_background,
                },
                n1 + n2,
            )),
            None => None,
        },
        None => None,
    }
}

/// The encoding of a `TextPacket` payload.
pub open spec fn text_packet_bytes(v: TextPacketView) -> Seq<u8> {
    string_bytes(v.name) + be_u32(v.object_id as int) + be_u16(v.num_stars as int) + seq![v.bubble_time]
        + string_bytes(v.recipient) + string_bytes(v.text) + string_bytes(v.clean_text) + seq![
        if v.is_supporter { 1u8 } else { 0u8 }] + be_u32(v.star_background as int)
}

fn read_text_head(data: &mut &[u8]) -> (r: Result<(String, u32, u16, u8, String), ReadError>)
    ensures
        match r {
            Ok(v) => read_ok(parse_text_head(old(data)@), (v.0@, v.1, v.2, v.3, v.4@), old(data)@, final(data)@),
            Err(_) => parse_text_head(old(data)@) is None && final(data)@ == old(data)@,
        },
{
    let mut d: &[u8] = *data;
    let ghost s0 = d@;
    let name = String::rp_read(&mut d)?;
    assert(d@ =~= s0.skip(s0.len() - d@.len()));
    let object_id = u32::rp_read(&mut d)?;
    assert(d@ =~= s0.skip(s0.len() - d@.len()));
    let num_stars = u16::rp_read(&mut d)?;
    assert(d@ =~= s0.skip(s0.len() - d@.len()));
    let bubble_time = u8::rp_read(&mut d)?;
    assert(d@ =~= s0.skip(s0.len() - d@.len()));
    let recipient = String::rp_read(&mut d)?;
    assert(d@ =~= s0.skip(s0.len() - d@.len()));
    *data = d;
    Ok((name, object_id, num_stars, bubble_time, recipient))
}

fn read_text_tail(data: &mut &[u8]) -> (r: Result<(String, String, bool, u32), ReadError>)
    ensures
        match r {
            Ok(v) => read_ok(parse_text_tail(old(data)@), (v.0@, v.1@, v.2, v.3), old(data)@, final(data)@),
            Err(_) => parse_text_tail(old(data)@) is None && final(data)@ == old(data)@,
        },
{
    let mut d: &[u8] = *data;
    let ghost s0 = d@;
    let text = String::rp_read(&mut d)?;
    assert(d@ =~= s0.skip(s0.len() - d@.len()));
    let clean_text = String::rp_read(&mut d)?;
    assert(d@ =~= s0.skip(s0.len() - d@.len()));
    let is_supporter = bool::rp_read(&mut d)?;
    assert(d@ =~= s0.skip(s0.len() - d@.len()));
    let star_background = u32::rp_read(&mut d)?;
    assert(d@ =~= s0.skip(s0.len() - d@.len()));
    *data = d;
    Ok((text, clean_text, is_supporter, star_background))
}

impl RPRead for TextPacket {
    open spec fn rp_parse(data: Seq<u8>) -> Option<(TextPacketView, int)> {
        parse_text_packet(data)
    }

    fn rp_read(data: &mut &[u8]) -> (r: Result<TextPacket, ReadError>) {
        let mut d: &[u8] = *data;
        let ghost s0 = d@;
        let (name, object_id, num_stars, bubble_time, recipient) = read_text_head(&mut d)?;
        assert(d@ =~= s0.skip(s0.len() - d@.len()));
        let (text, clean_text, is_supporter, star_background) = read_text_tail(&mut d)?;
        assert(d@ =~= s0.skip(s0.len() - d@.len()));
        *data = d;
        Ok(TextPacket {
            name,
            object_id: ObjectId(object_id),
            num_stars,
            bubble_time,
            recipient,
            text,
            clean_text,
            is_supporter,
            star_background,
        })
    }
}

impl RPWrite for TextPacket {
    open spec fn rp_bytes(v: TextPacketView) -> Seq<u8> {
        text_packet_bytes(v)
    }

    open spec fn rp_writable(v: TextPacketView) -> bool {
        true
    }

    fn rp_write(&self, buf: &mut Vec<u8>) -> (written: usize) {
        let start = buf.len();
        self.name.rp_write(buf);
        self.object_id.0.rp_write(buf);
        self.num_stars.rp_write(buf);
        self.bubble_time.rp_write(buf);
        self.recipient.rp_write(buf);
        self.text.rp_write(buf);
        self.clean_text.rp_write(buf);
        self.is_supporter.rp_write(buf);
        self.star_background.rp_write(buf);
        assert(buf@ =~= old(buf)@ + text_packet_bytes(self@));
        buf.len() - start
    }
}


/// Takes all the remaining bytes as a raw payload.
fn read_rest(data: &mut &[u8]) -> (r: Vec<u8>)
    ensures
        r@ == old(data)@,
        final(data)@ == Seq::<u8>::empty(),
{
    let v = crate::read::bytes_to_vec(*data);
    *data = vstd::slice::slice_subrange(*data, data.len(), data.len());
    v
}

/// A packet from the client to the server.
#[derive(Debug, Clone)]
pub enum ClientPacket {
    PlayerText(PlayerText),
    /// The payload of a `Move` packet.
    Move(Vec<u8>),
    /// The payload of a `PlayerHit` packet.
    PlayerHit(Vec<u8>),
    /// The payload of a `GroundDamage` packet.
    GroundDamage(Vec<u8>),
    Escape,
    /// Any other packet: its id and its payload.
    Unknown { id: u8, bytes: Vec<u8> },
}

/// A client packet, in specifications.
pub enum ClientPacketView {
    PlayerText(Seq<char>),
    Move(Seq<u8>),
    PlayerHit(Seq<u8>),
    GroundDamage(Seq<u8>),
    Escape,
    Unknown(u8, Seq<u8>),
}

impl View for ClientPacket {
    type V = ClientPacketView;

    open spec fn view(&self) -> ClientPacketView {
        match self {
            ClientPacket::PlayerText(p) => ClientPacketView::PlayerText(p@),
            ClientPacket::Move(b) => ClientPacketView::Move(b@),
            ClientPacket::PlayerHit(b) => ClientPacketView::PlayerHit(b@),
            ClientPacket::GroundDamage(b) => ClientPacketView::GroundDamage(b@),
            ClientPacket::Escape => ClientPacketView::Escape,
            ClientPacket::Unknown { id, bytes } => ClientPacketView::Unknown(*id, bytes@),
        }
    }
}

/// The packet id of each kind of client packet; `Unknown` has the next free value.
pub open spec fn client_discriminator(p: ClientPacketView) -> u8 {
    match p {
        ClientPacketView::PlayerText(_) => 9,
        ClientPacketView::Move(_) => 62,
        ClientPacketView::PlayerHit(_) => 90,
        ClientPacketView::GroundDamage(_) => 103,
        ClientPacketView::Escape => 105,
        ClientPacketView::Unknown(_, _) => 106,
    }
}

/// A client packet at the start of `s`: an id byte, then the payload. A
/// packet of an unknown id keeps the rest of the data as its payload but
/// counts only the id byte as read.
pub open spec fn parse_client_packet(s: Seq<u8>) -> Option<(ClientPacketView, int)> {
    if s.len() == 0 {
        None
    } else {
        let rest = s.skip(1);
        match s[0] {
            9 => match parse_string(rest) {
                Some((t, n)) => Some((ClientPacketView::PlayerText(t), n + 1)),
                None => None,
            },
            62 => Some((ClientPacketView::Move(rest), s.len() as int)),
            90 => Some((ClientPacketView::PlayerHit(rest), s.len() as int)),
            103 => Some((ClientPacketView::GroundDamage(rest), s.len() as int)),
            105 => Some((ClientPacketView::Escape, 1)),
            id => Some((ClientPacketView::Unknown(id, rest), 1)),
        }
    }
}

/// The encoding of a client packet.
pub open spec fn client_packet_bytes(p: ClientPacketView) -> Seq<u8> {
    match p {
        ClientPacketView::PlayerText(t) => seq![9u8] + string_bytes(t),
        ClientPacketView::Move(b) => seq![62u8] + b,
        ClientPacketView::PlayerHit(b) => seq![90u8] + b,
        ClientPacketView::GroundDamage(b) => seq![103u8] + b,
        ClientPacketView::Escape => seq![105u8],
        ClientPacketView::Unknown(id, b) => seq![id] + b,
    }
}

impl ClientPacket {
    /// The packet id of this kind of packet.
    pub fn discriminator(&self) -> (d: u8)
        ensures
            d == client_discriminator(self@),
    {
        match self {
            ClientPacket::PlayerText(_) => 9,
            ClientPacket::Move(_) => 62,
            ClientPacket::PlayerHit(_) => 90,
            ClientPacket::GroundDamage(_) => 103,
            ClientPacket::Escape => 105,
            ClientPacket::Unknown { .. } => 106,
        }
    }
}

impl RPRead for ClientPacket {
    open spec fn rp_parse(data: Seq<u8>) -> Option<(ClientPacketView, int)> {
        parse_client_packet(data)
    }

    fn rp_read(data: &mut &[u8]) -> (r: Result<ClientPacket, ReadError>) {
        let mut d: &[u8] = *data;
        let ghost s0 = d@;
        let id = read_byte(&mut d)?;
        let ghost s1 = d@;
        assert(s1 =~= s0.skip(1));
        let packet = match id {
            9 => {
                let p = PlayerText::rp_read(&mut d)?;
                assert(d@ =~= s0.skip(s0.len() - d@.len()));
                ClientPacket::PlayerText(p)
            },
            62 => ClientPacket::Move(read_rest(&mut d)),
            90 => ClientPacket::PlayerHit(read_rest(&mut d)),
            103 => ClientPacket::GroundDamage(read_rest(&mut d)),
            105 => ClientPacket::Escape,
            _ => ClientPacket::Unknown { id, bytes: crate::read::bytes_to_vec(d) },
        };
        assert(d@ =~= s0.skip(s0.len() - d@.len()));
        *data = d;
        Ok(packet)
    }
}

impl RPWrite for ClientPacket {
    open spec fn rp_bytes(v: ClientPacketView) -> Seq<u8> {
        client_packet_bytes(v)
    }

    open spec fn rp_writable(v: ClientPacketView) -> bool {
        true
    }

    fn rp_write(&self, buf: &mut Vec<u8>) -> (written: usize) {
        let start = buf.len();
        let id = match self {
            ClientPacket::Unknown { id, .. } => *id,
            _ => self.discriminator(),
        };
        id.rp_write(buf);
        match self {
            ClientPacket::PlayerText(p) => {
                p.rp_write(buf);
            },
            ClientPacket::Move(b) => extend_bytes(buf, b.as_slice()),
            ClientPacket::PlayerHit(b) => extend_bytes(buf, b.as_slice()),
            ClientPacket::GroundDamage(b) => extend_bytes(buf, b.as_slice()),
            ClientPacket::Escape => {},
            ClientPacket::Unknown { bytes, .. } => extend_bytes(buf, bytes.as_slice()),
        }
        assert(buf@ =~= old(buf)@ + client_packet_bytes(self@));
        buf.len() - start
    }
}

/// Law: a client packet is read back from its encoding when its text (if
/// any) is shorter than 2^16 UTF-8 bytes and an `Unknown` packet does not
/// carry the id of a kind this library knows.
/// A big-endian 32-bit number reads back.
proof fn lemma_be32(x: u32, rest: Seq<u8>)
    ensures
        parse_be32(be_u32(x as int) + rest) == Some((x as int, 4int)),
{
    let s = be_u32(x as int) + rest;
    assert(((s[0] * 256 + s[1]) * 256 + s[2]) * 256 + s[3] == x);
}

/// A big-endian 16-bit number reads back.
proof fn lemma_be16(x: u16, rest: Seq<u8>)
    ensures
        crate::read::parse_be16(be_u16(x as int) + rest) == Some((x as int, 2int)),
{
    let s = be_u16(x as int) + rest;
    assert(s[0] == ((x / 256) % 256) as u8 && s[1] == (x % 256) as u8);
    assert(s[0] * 256 + s[1] == x);
}

/// The head of a text packet reads back.
proof fn lemma_text_head(v: TextPacketView, rest: Seq<u8>)
    requires
        vstd::utf8::encode_utf8(v.name).len() < 0x10000,
        vstd::utf8::encode_utf8(v.recipient).len() < 0x10000,
    ensures
        ({
            let head = string_bytes(v.name) + be_u32(v.object_id as int) + be_u16(v.num_stars as int)
                + seq![v.bubble_time] + string_bytes(v.recipient);
            parse_text_head(head + rest) == Some(((v.name, v.object_id, v.num_stars, v.bubble_time, v.recipient), head.len() as int))
        }),
{
    let a = string_bytes(v.name);
    let b = be_u32(v.object_id as int);
    let c = be_u16(v.num_stars as int);
    let d = seq![v.bubble_time];
    let e = string_bytes(v.recipient);
    let all = a + b + c + d + e + rest;
    let n1 = a.len() as int;
    assert(all =~= a + (b + c + d + e + rest));
    crate::read::law_string_roundtrip(v.name, b + c + d + e + rest);
    assert(all.skip(n1) =~= b + (c + d + e + rest));
    lemma_be32(v.object_id, c + d + e + rest);
    assert(all.skip(n1 + 4) =~= c + (d + e + rest));
    lemma_be16(v.num_stars, d + e + rest);
    assert(all.skip(n1 + 6) =~= d + e + rest);
    assert(all.skip(n1 + 7) =~= e + rest);
    crate::read::law_string_roundtrip(v.recipient, rest);
}

/// The tail of a text packet reads back.
proof fn lemma_text_tail(v: TextPacketView, rest: Seq<u8>)
    requires
        vstd::utf8::encode_utf8(v.text).len() < 0x10000,
        vstd::utf8::encode_utf8(v.clean_text).len() < 0x10000,
    ensures
        ({
            let tail = string_bytes(v.text) + string_bytes(v.clean_text) + seq![if v.is_supporter { 1u8 } else { 0u8 }]
                + be_u32(v.star_background as int);
            parse_text_tail(tail + rest) == Some(((v.text, v.clean_text, v.is_supporter, v.star_background), tail.len() as int))
        }),
{
    let f = string_bytes(v.text);
    let g = string_bytes(v.clean_text);
    let h = seq![if v.is_supporter { 1u8 } else { 0u8 }];
    let k = be_u32(v.star_background as int);
    let all = f + g + h + k + rest;
    assert(all =~= f + (g + h + k + rest));
    crate::read::law_string_roundtrip(v.text, g + h + k + rest);
    assert(all.skip(f.len() as int) =~= g + (h + k + rest));
    crate::read::law_string_roundtrip(v.clean_text, h + k + rest);
    assert(all.skip((f.len() + g.len()) as int) =~= h + k + rest);
    assert(all.skip((f.len() + g.len() + 1) as int) =~= k + rest);
    lemma_be32(v.star_background, rest);
}

/// Law: reading back an encoded text packet gives the packet, whatever
/// follows it, provided each of its strings is shorter than 2^16 bytes.
#[verifier::rlimit(60)]
#[verifier::spinoff_prover]
pub proof fn law_text_packet_roundtrip(v: TextPacketView, rest: Seq<u8>)
    requires
        vstd::utf8::encode_utf8(v.name).len() < 0x10000,
        vstd::utf8::encode_utf8(v.recipient).len() < 0x10000,
        vstd::utf8::encode_utf8(v.text).len() < 0x10000,
        vstd::utf8::encode_utf8(v.clean_text).len() < 0x10000,
    ensures
        parse_text_packet(text_packet_bytes(v) + rest) == Some((v, text_packet_bytes(v).len() as int)),
{
    let head = string_bytes(v.name) + be_u32(v.object_id as int) + be_u16(v.num_stars as int)
        + seq![v.bubble_time] + string_bytes(v.recipient);
    let tail = string_bytes(v.text) + string_bytes(v.clean_text) + seq![if v.is_supporter { 1u8 } else { 0u8 }]
        + be_u32(v.star_background as int);
    assert(text_packet_bytes(v) =~= head + tail);
    assert(text_packet_bytes(v) + rest =~= head + (tail + rest));
    lemma_text_head(v, tail + rest);
    assert((text_packet_bytes(v) + rest).skip(head.len() as int) =~= tail + rest);
    lemma_text_tail(v, rest);
}

/// Law: reading back an encoded server packet gives the packet. Packets whose
/// payload this library does not decode are read back as raw bytes; an
/// unknown packet carries an id that no known packet has.
pub proof fn law_server_packet_roundtrip(p: ServerPacketView)
    requires
        p matches ServerPacketView::Text(t) ==> vstd::utf8::encode_utf8(t.name).len() < 0x10000
            && vstd::utf8::encode_utf8(t.recipient).len() < 0x10000
            && vstd::utf8::encode_utf8(t.text).len() < 0x10000
            && vstd::utf8::encode_utf8(t.clean_text).len() < 0x10000,
        p matches ServerPacketView::CreateSuccess(c) ==> vstd::utf8::encode_utf8(c.unknown).len() < 0x10000,
        p matches ServerPacketView::Unknown(id, _) ==> id != 10 && id != 11 && id != 18 && id != 35
            && id != 42 && id != 44 && id != 45 && id != 64 && id != 67 && id != 101,
    ensures
        parse_server_packet(server_packet_bytes(p)) matches Some((q, _)) && q == p,
{
    let b = server_packet_bytes(p);
    match p {
        ServerPacketView::Text(t) => {
            assert(b.skip(1) =~= text_packet_bytes(t) + Seq::<u8>::empty());
            law_text_packet_roundtrip(t, Seq::<u8>::empty());
        },
        ServerPacketView::CreateSuccess(c) => {
            assert(b.skip(1) =~= create_success_bytes(c) + Seq::<u8>::empty());
            law_create_success_roundtrip(c, Seq::<u8>::empty());
        },
        ServerPacketView::NewTick(x) => assert(b.skip(1) =~= x),
        ServerPacketView::ShowEffect(x) => assert(b.skip(1) =~= x),
        ServerPacketView::Goto(x) => assert(b.skip(1) =~= x),
        ServerPacketView::EnemyShoot(x) => assert(b.skip(1) =~= x),
        ServerPacketView::Update(x) => assert(b.skip(1) =~= x),
        ServerPacketView::Reconnect(x) => assert(b.skip(1) =~= x),
        ServerPacketView::Aoe(x) => assert(b.skip(1) =~= x),
        ServerPacketView::Notification(x) => assert(b.skip(1) =~= x),
        ServerPacketView::Unknown(_, x) => assert(b.skip(1) =~= x),
    }
}

/// Law: reading back an encoded client packet gives the packet. Packets whose
/// payload this library does not decode are read back as raw bytes; an
/// unknown packet carries an id that no known packet has.
pub proof fn law_client_packet_roundtrip(p: ClientPacketView)
    requires
        p matches ClientPacketView::PlayerText(t) ==> vstd::utf8::encode_utf8(t).len() < 0x10000,
        p matches ClientPacketView::Unknown(id, _) ==> id != 9 && id != 62 && id != 90 && id != 103
            && id != 105,
    ensures
        parse_client_packet(client_packet_bytes(p)) matches Some((q, _)) && q == p,
{
    let b = client_packet_bytes(p);
    match p {
        ClientPacketView::PlayerText(t) => {
            assert(b.skip(1) =~= string_bytes(t) + Seq::<u8>::empty());
            crate::read::law_string_roundtrip(t, Seq::<u8>::empty());
        },
        ClientPacketView::Move(x) => assert(b.skip(1) =~= x),
        ClientPacketView::PlayerHit(x) => assert(b.skip(1) =~= x),
        ClientPacketView::GroundDamage(x) => assert(b.skip(1) =~= x),
        ClientPacketView::Escape => {},
        ClientPacketView::Unknown(_, x) => assert(b.skip(1) =~= x),
    }
}

/// A packet from the server to the client.
#[derive(Debug, Clone)]
pub enum ServerPacket {
    /// The payload of a `NewTick` packet.
    NewTick(Vec<u8>),
    /// The payload of a `ShowEffect` packet.
    ShowEffect(Vec<u8>),
    /// The payload of a `Goto` packet.
    Goto(Vec<u8>),
    /// The payload of an `EnemyShoot` packet.
    EnemyShoot(Vec<u8>),
    /// The payload of an `Update` packet.
    Update(Vec<u8>),
    Text(TextPacket),
    /// The payload of a `Reconnect` packet.
    Reconnect(Vec<u8>),
    /// The payload of an `Aoe` packet.
    Aoe(Vec<u8>),
    /// The payload of a `Notification` packet.
    Notification(Vec<u8>),
    CreateSuccess(CreateSuccess),
    /// Any other packet: its id and its payload.
    Unknown { id: u8, bytes: Vec<u8> },
}

/// A server packet, in specifications.
pub enum ServerPacketView {
    NewTick(Seq<u8>),
    ShowEffect(Seq<u8>),
    Goto(Seq<u8>),
    EnemyShoot(Seq<u8>),
    Update(Seq<u8>),
    Text(TextPacketView),
    Reconnect(Seq<u8>),
    Aoe(Seq<u8>),
    Notification(Seq<u8>),
    CreateSuccess(CreateSuccessView),
    Unknown(u8, Seq<u8>),
}

impl View for ServerPacket {
    type V = ServerPacketView;

    open spec fn view(&self) -> ServerPacketView {
        match self {
            ServerPacket::NewTick(b) => ServerPacketView::NewTick(b@),
            ServerPacket::ShowEffect(b) => ServerPacketView::ShowEffect(b@),
            ServerPacket::Goto(b) => ServerPacketView::Goto(b@),
            ServerPacket::EnemyShoot(b) => ServerPacketView::EnemyShoot(b@),
            ServerPacket::Update(b) => ServerPacketView::Update(b@),
            ServerPacket::Text(p) => ServerPacketView::Text(p@),
            ServerPacket::Reconnect(b) => ServerPacketView::Reconnect(b@),
            ServerPacket::Aoe(b) => ServerPacketView::Aoe(b@),
            ServerPacket::Notification(b) => ServerPacketView::Notification(b@),
            ServerPacket::CreateSuccess(p) => ServerPacketView::CreateSuccess(p@),
            ServerPacket::Unknown { id, bytes } => ServerPacketView::Unknown(*id, bytes@),
        }
    }
}

/// The packet id of each kind of server packet; `Unknown` has the next free value.
pub open spec fn server_discriminator(p: ServerPacketView) -> u8 {
    match p {
        ServerPacketView::NewTick(_) => 10,
        ServerPacketView::ShowEffect(_) => 11,
        ServerPacketView::Goto(_) => 18,
        ServerPacketView::EnemyShoot(_) => 35,
        ServerPacketView::Update(_) => 42,
        ServerPacketView::Text(_) => 44,
        ServerPacketView::Reconnect(_) => 45,
        ServerPacketView::Aoe(_) => 64,
        ServerPacketView::Notification(_) => 67,
        ServerPacketView::CreateSuccess(_) => 101,
        ServerPacketView::Unknown(_, _) => 102,
    }
}

/// A server packet at the start of `s`, read as `parse_client_packet` reads client packets.
pub open spec fn parse_server_packet(s: Seq<u8>) -> Option<(ServerPacketView, int)> {
    if s.len() == 0 {
        None
    } else {
        let rest = s.skip(1);
        let all = s.len() as int;
        match s[0] {
            10 => Some((ServerPacketView::NewTick(rest), all)),
            11 => Some((ServerPacketView::ShowEffect(rest), all)),
            18 => Some((ServerPacketView::Goto(rest), all)),
            35 => Some((ServerPacketView::EnemyShoot(rest), all)),
            42 => Some((ServerPacketView::Update(rest), all)),
            44 => match parse_text_packet(rest) {
                Some((t, n)) => Some((ServerPacketView::Text(t), n + 1)),
                None => None,
            },
            45 => Some((ServerPacketView::Reconnect(rest), all)),
            64 => Some((ServerPacketView::Aoe(rest), all)),
            67 => Some((ServerPacketView::Notification(rest), all)),
            101 => match parse_create_success(rest) {
                Some((c, n)) => Some((ServerPacketView::CreateSuccess(c), n + 1)),
                None => None,
            },
            id => Some((ServerPacketView::Unknown(id, rest), 1)),
        }
    }
}

/// The encoding of a server packet.
pub open spec fn server_packet_bytes(p: ServerPacketView) -> Seq<u8> {
    match p {
        ServerPacketView::NewTick(b) => seq![10u8] + b,
        ServerPacketView::ShowEffect(b) => seq![11u8] + b,
        ServerPacketView::Goto(b) => seq![18u8] + b,
        ServerPacketView::EnemyShoot(b) => seq![35u8] + b,
        ServerPacketView::Update(b) => seq![42u8] + b,
        ServerPacketView::Text(t) => seq![44u8] + text_packet_bytes(t),
        ServerPacketView::Reconnect(b) => seq![45u8] + b,
        ServerPacketView::Aoe(b) => seq![64u8] + b,
        ServerPacketView::Notification(b) => seq![67u8] + b,
        ServerPacketView::CreateSuccess(c) => seq![101u8] + create_success_bytes(c),
        ServerPacketView::Unknown(id, b) => seq![id] + b,
    }
}

impl ServerPacket {
    /// The packet id of this kind of packet.
    pub fn discriminator(&self) -> (d: u8)
        ensures
            d == server_discriminator(self@),
    {
        match self {
            ServerPacket::NewTick(_) => 10,
            ServerPacket::ShowEffect(_) => 11,
            ServerPacket::Goto(_) => 18,
            ServerPacket::EnemyShoot(_) => 35,
            ServerPacket::Update(_) => 42,
            ServerPacket::Text(_) => 44,
            ServerPacket::Reconnect(_) => 45,
            ServerPacket::Aoe(_) => 64,
            ServerPacket::Notification(_) => 67,
            ServerPacket::CreateSuccess(_) => 101,
            ServerPacket::Unknown { .. } => 102,
        }
    }
}

impl RPRead for ServerPacket {
    open spec fn rp_parse(data: Seq<u8>) -> Option<(ServerPacketView, int)> {
        parse_server_packet(data)
    }

    fn rp_read(data: &mut &[u8]) -> (r: Result<ServerPacket, ReadError>) {
        let mut d: &[u8] = *data;
        let ghost s0 = d@;
        let id = read_byte(&mut d)?;
        let ghost s1 = d@;
        assert(s1 =~= s0.skip(1));
        let packet = match id {
            10 => ServerPacket::NewTick(read_rest(&mut d)),
            11 => ServerPacket::ShowEffect(read_rest(&mut d)),
            18 => ServerPacket::Goto(read_rest(&mut d)),
            35 => ServerPacket::EnemyShoot(read_rest(&mut d)),
            42 => ServerPacket::Update(read_rest(&mut d)),
            44 => {
                let p = TextPacket::rp_read(&mut d)?;
                assert(d@ =~= s0.skip(s0.len() - d@.len()));
                ServerPacket::Text(p)
            },
            45 => ServerPacket::Reconnect(read_rest(&mut d)),
            64 => ServerPacket::Aoe(read_rest(&mut d)),
            67 => ServerPacket::Notification(read_rest(&mut d)),
            101 => {
                let p = CreateSuccess::rp_read(&mut d)?;
                assert(d@ =~= s0.skip(s0.len() - d@.len()));
                ServerPacket::CreateSuccess(p)
            },
            _ => ServerPacket::Unknown { id, bytes: crate::read::bytes_to_vec(d) },
        };
        assert(d@ =~= s0.skip(s0.len() - d@.len()));
        *data = d;
        Ok(packet)
    }
}

impl RPWrite for ServerPacket {
    open spec fn rp_bytes(v: ServerPacketView) -> Seq<u8> {
        server_packet_bytes(v)
    }

    open spec fn rp_writable(v: ServerPacketView) -> bool {
        true
    }

    fn rp_write(&self, buf: &mut Vec<u8>) -> (written: usize) {
        let start = buf.len();
        let id = match self {
            ServerPacket::Unknown { id, .. } => *id,
            _ => self.discriminator(),
        };
        id.rp_write(buf);
        match self {
            ServerPacket::NewTick(b) => extend_bytes(buf, b.as_slice()),
            ServerPacket::ShowEffect(b) => extend_bytes(buf, b.as_slice()),
            ServerPacket::Goto(b) => extend_bytes(buf, b.as_slice()),
            ServerPacket::EnemyShoot(b) => extend_bytes(buf, b.as_slice()),
            ServerPacket::Update(b) => extend_bytes(buf, b.as_slice()),
            ServerPacket::Text(p) => {
                p.rp_write(buf);
            },
            ServerPacket::Reconnect(b) => extend_bytes(buf, b.as_slice()),
            ServerPacket::Aoe(b) => extend_bytes(buf, b.as_slice()),
            ServerPacket::Notification(b) => extend_bytes(buf, b.as_slice()),
            ServerPacket::CreateSuccess(p) => {
                p.rp_write(buf);
            },
            ServerPacket::Unknown { bytes, .. } => extend_bytes(buf, bytes.as_slice()),
        }
        assert(buf@ =~= old(buf)@ + server_packet_bytes(self@));
        buf.len() - start
    }
}


/// Law: a tile position survives being packed into a key, and keys order
/// positions as the pairs `(x, y)` are ordered.
pub proof fn law_tile_key(x1: i16, y1: i16, x2: i16, y2: i16)
    ensures
        key_x(tile_key(x1, y1)) == x1,
        key_y(tile_key(x1, y1)) == y1,
        (tile_key(x1, y1) < tile_key(x2, y2)) == (x1 < x2 || (x1 == x2 && y1 < y2)),
{
    assert(key_x(tile_key(x1, y1)) == x1 && key_y(tile_key(x1, y1)) == y1) by (nonlinear_arith);
}
} // verus!
