use rotmguard::extra_datatypes::object_status_data::{ObjectStatusData, WorldPosBits};
use rotmguard::extra_datatypes::statdata::{Stat, StatData, StatType};
use rotmguard::extra_datatypes::ObjectId;
use rotmguard::packets::{pack_tile, unpack_tile, ClientPacket, CreateSuccess, PlayerText, ServerPacket, TextPacket};
use rotmguard::read::{read_byte, read_bytes, read_compressed_int, ReadError, RPRead};
use rotmguard::write::{write_compressed_int, write_str, RPWrite};

fn compressed(v: i64) -> Vec<u8> {
    let mut buf = Vec::new();
    let n = write_compressed_int(&v, &mut buf);
    assert_eq!(n, buf.len());
    buf
}

#[test]
fn compressed_int_small_values_take_one_byte() {
    assert_eq!(compressed(0), vec![0x00]);
    assert_eq!(compressed(63), vec![0x3f]);
    assert_eq!(compressed(-1), vec![0x41]);
    assert_eq!(compressed(-63), vec![0x7f]);
}

#[test]
fn compressed_int_continuation_bytes() {
    assert_eq!(compressed(64), vec![0x80, 0x01]);
    assert_eq!(compressed(100), vec![0xa4, 0x01]);
    assert_eq!(compressed(-100), vec![0xe4, 0x01]);
    assert_eq!(compressed(8192), vec![0x80, 0x80, 0x01]);
}

#[test]
fn compressed_int_roundtrip() {
    for v in [0i64, 1, -1, 63, 64, -64, 1000, -123456, i64::MAX, i64::MIN + 1] {
        let buf = compressed(v);
        let mut data: &[u8] = &buf;
        assert_eq!(read_compressed_int(&mut data), Ok(v));
        assert!(data.is_empty());
    }
}

#[test]
fn compressed_int_leaves_the_rest() {
    let mut data: &[u8] = &[0xa4, 0x01, 0x07];
    assert_eq!(read_compressed_int(&mut data), Ok(100));
    assert_eq!(data, &[0x07]);
}

#[test]
fn compressed_int_truncated_is_an_error() {
    let mut data: &[u8] = &[0x80];
    assert!(read_compressed_int(&mut data).is_err());
    assert_eq!(data, &[0x80]);
}

#[test]
fn byte_reads() {
    let mut data: &[u8] = &[1, 2, 3];
    assert_eq!(read_byte(&mut data), Ok(1));
    assert_eq!(read_bytes(&mut data, 2), Ok(&[2u8, 3][..]));
    assert_eq!(read_byte(&mut data), Err(ReadError::UnexpectedEnd));
    assert_eq!(read_bytes(&mut data, 1), Err(ReadError::UnexpectedEnd));
}

#[test]
fn integers_are_big_endian() {
    let mut buf = Vec::new();
    assert_eq!(0x1234u16.rp_write(&mut buf), 2);
    assert_eq!((-2i32).rp_write(&mut buf), 4);
    assert_eq!(true.rp_write(&mut buf), 1);
    assert_eq!(buf, vec![0x12, 0x34, 0xff, 0xff, 0xff, 0xfe, 1]);
    let mut data: &[u8] = &buf;
    assert_eq!(u16::rp_read(&mut data), Ok(0x1234));
    assert_eq!(i32::rp_read(&mut data), Ok(-2));
    assert_eq!(bool::rp_read(&mut data), Ok(true));
}

#[test]
fn strings_carry_their_length() {
    let mut buf = Vec::new();
    assert_eq!(write_str("hé", &mut buf), 5);
    assert_eq!(buf, vec![0, 3, b'h', 0xc3, 0xa9]);
    let mut data: &[u8] = &buf;
    assert_eq!(String::rp_read(&mut data).unwrap(), "hé");
}

#[test]
fn invalid_utf8_is_refused() {
    let mut data: &[u8] = &[0, 1, 0xff];
    assert_eq!(String::rp_read(&mut data), Err(ReadError::InvalidUtf8));
    assert_eq!(data.len(), 3);
}

#[test]
fn player_text_roundtrip() {
    let p = ClientPacket::PlayerText(PlayerText { text: "/con eue".to_string() });
    assert_eq!(p.discriminator(), 9);
    let mut buf = Vec::new();
    let n = p.rp_write(&mut buf);
    assert_eq!(n, buf.len());
    assert_eq!(buf[0], 9);
    let mut data: &[u8] = &buf;
    match ClientPacket::rp_read(&mut data).unwrap() {
        ClientPacket::PlayerText(t) => assert_eq!(t.text, "/con eue"),
        _ => panic!("wrong packet"),
    }
}

#[test]
fn unknown_client_packet_keeps_its_bytes() {
    let mut data: &[u8] = &[200, 1, 2, 3];
    match ClientPacket::rp_read(&mut data).unwrap() {
        ClientPacket::Unknown { id, bytes } => {
            assert_eq!(id, 200);
            assert_eq!(bytes, vec![1, 2, 3]);
        }
        _ => panic!("wrong packet"),
    }
}

#[test]
fn text_packet_roundtrip() {
    let t = TextPacket {
        name: "Oryx".to_string(),
        object_id: ObjectId(77),
        num_stars: 5,
        bubble_time: 3,
        recipient: "".to_string(),
        text: "hello".to_string(),
        clean_text: "hello".to_string(),
        is_supporter: true,
        star_background: 0xdeadbeef,
    };
    let p = ServerPacket::Text(t);
    assert_eq!(p.discriminator(), 44);
    let mut buf = Vec::new();
    p.rp_write(&mut buf);
    let mut data: &[u8] = &buf;
    match ServerPacket::rp_read(&mut data).unwrap() {
        ServerPacket::Text(t) => {
            assert_eq!(t.name, "Oryx");
            assert_eq!(t.object_id, ObjectId(77));
            assert_eq!(t.num_stars, 5);
            assert_eq!(t.bubble_time, 3);
            assert_eq!(t.text, "hello");
            assert!(t.is_supporter);
            assert_eq!(t.star_background, 0xdeadbeef);
        }
        _ => panic!("wrong packet"),
    }
    assert!(data.is_empty());
}

#[test]
fn create_success_roundtrip() {
    let p = ServerPacket::CreateSuccess(CreateSuccess {
        object_id: ObjectId(1234),
        char_id: 9,
        unknown: "x".to_string(),
    });
    let mut buf = Vec::new();
    p.rp_write(&mut buf);
    assert_eq!(buf, vec![101, 0, 0, 4, 210, 0, 0, 0, 9, 0, 1, b'x']);
    let mut data: &[u8] = &buf;
    match ServerPacket::rp_read(&mut data).unwrap() {
        ServerPacket::CreateSuccess(c) => {
            assert_eq!(c.object_id, ObjectId(1234));
            assert_eq!(c.char_id, 9);
            assert_eq!(c.unknown, "x");
        }
        _ => panic!("wrong packet"),
    }
}

#[test]
fn raw_server_packets_keep_their_payload() {
    let p = ServerPacket::NewTick(vec![1, 2, 3]);
    let mut buf = Vec::new();
    p.rp_write(&mut buf);
    assert_eq!(buf, vec![10, 1, 2, 3]);
    let mut data: &[u8] = &buf;
    match ServerPacket::rp_read(&mut data).unwrap() {
        ServerPacket::NewTick(b) => assert_eq!(b, vec![1, 2, 3]),
        _ => panic!("wrong packet"),
    }
}

#[test]
fn tile_positions_pack_and_unpack() {
    assert_eq!(pack_tile(0, 0), 0x8000_8000);
    assert_eq!(pack_tile(-32768, 32767), 0x0000_ffff);
    for (x, y) in [(0i16, 0i16), (-5, 7), (i16::MIN, i16::MAX), (100, -100)] {
        assert_eq!(unpack_tile(pack_tile(x, y)), (x, y));
    }
    assert!(pack_tile(1, -30000) > pack_tile(0, 30000));
}

#[test]
fn stats_roundtrip() {
    let status = ObjectStatusData {
        object_id: ObjectId(300),
        position: WorldPosBits { x: 0x3f80_0000, y: 0x4000_0000 },
        stats: vec![
            StatData { stat_type: StatType::HP, stat: Stat::Int(-750), secondary_stat: -1 },
            StatData { stat_type: StatType::Name, stat: Stat::String("Wizard".to_string()), secondary_stat: 0 },
            StatData { stat_type: StatType::Other(200), stat: Stat::Int(7), secondary_stat: 3 },
        ],
    };
    let mut buf = Vec::new();
    let n = status.rp_write(&mut buf);
    assert_eq!(n, buf.len());
    let mut data: &[u8] = &buf;
    let back = ObjectStatusData::rp_read(&mut data).unwrap();
    assert!(data.is_empty());
    assert_eq!(back.object_id, ObjectId(300));
    assert_eq!(back.position, WorldPosBits { x: 0x3f80_0000, y: 0x4000_0000 });
    assert_eq!(back.stats.len(), 3);
    assert_eq!(back.stats[0].stat.as_int(), -750);
    assert_eq!(back.stats[1].stat.as_str(), "Wizard");
    assert_eq!(back.stats[2].stat_type, StatType::Other(200));
    assert_eq!(back.stats[2].secondary_stat, 3);
}

#[test]
fn stat_codes() {
    assert_eq!(StatType::from_code(1), StatType::HP);
    assert_eq!(StatType::from_code(96), StatType::Condition2);
    assert_eq!(StatType::from_code(200), StatType::Other(200));
    assert_eq!(StatType::Defense.code(), 21);
    assert_eq!(Stat::String("-12".to_string()).as_int(), -12);
}
