//! The status of one object: its id, position and a list of stats.

use vstd::prelude::*;
use super::ObjectId;
use super::statdata::{parse_stat_data, stat_data_bytes, stat_data_writable, StatData, StatDataView};
use crate::read::{
    parse_be32, parse_compressed, read_compressed_int, read_ok, ReadError, RPRead,
};
use crate::write::{be_u32, compressed_bytes, write_compressed_int, RPWrite};

verus! {

/// A world position as it travels on the wire: the IEEE-754 bit patterns of
/// its two coordinates.
#[derive(Debug, Clone, Copy, PartialEq, Eq, Structural)]
pub struct WorldPosBits {
    pub x: u32,
    pub y: u32,
}

/// The most stats that one object status may hold.
pub const MAX_STATS: i64 = 10000;

/// The status of an object.
#[derive(Debug, Clone)]
pub struct ObjectStatusData {
    pub object_id: ObjectId,
    pub position: WorldPosBits,
    pub stats: Vec<StatData>,
}

/// The status of an object, in specifications.
pub struct ObjectStatusView {
    pub object_id: u32,
    pub position: WorldPosBits,
    pub stats: Seq<StatDataView>,
}

impl View for ObjectStatusData {
    type V = ObjectStatusView;

    open spec fn view(&self) -> ObjectStatusView {
        ObjectStatusView {
            object_id: self.object_id.0,
            position: self.position,
            stats: self.stats@.map_values(|st: StatData| st@),
        }
    }
}

/// `n` stats, one after the other, at the start of `s`.
pub open spec fn parse_stats(s: Seq<u8>, n: nat) -> Option<(Seq<StatDataView>, int)>
    decreases n,
{
    if n == 0 {
        Some((Seq::empty(), 0))
    } else {
        match parse_stats(s, (n - 1) as nat) {
            Some((vs, k)) => match parse_stat_data(s.skip(k)) {
                Some((v, m)) => Some((vs.push(v), k + m)),
                None => None,
            },
            None => None,
        }
    }
}

/// The encodings of the stats, one after the other.
pub open spec fn stats_bytes(vs: Seq<StatDataView>) -> Seq<u8>
    decreases vs.len(),
{
    if vs.len() == 0 {
        Seq::empty()
    } else {
        stats_bytes(vs.drop_last()) + stat_data_bytes(vs.last())
    }
}

/// An object status at the start of `s`: a compressed object id (kept modulo
/// 2^32), the two coordinates, a compressed count in `0..=10000`, then that many stats.
pub open spec fn parse_object_status(s: Seq<u8>) -> Option<(ObjectStatusView, int)> {
    match parse_compressed(s) {
        Some((id, n1)) => match parse_be32(s.skip(n1)) {
            Some((x, n2)) => match parse_be32(s.skip(n1 + n2)) {
                Some((y, n3)) => match parse_compressed(s.skip(n1 + n2 + n3)) {
                    Some((count, n4)) => if 0 <= count <= MAX_STATS {
                        match parse_stats(s.skip(n1 + n2 + n3 + n4), count as nat) {
                            Some((stats, n5)) => Some((
                                ObjectStatusView {
                                    object_id: (id % 0x1_0000_0000) as u32,
                                    position: WorldPosBits { x: x as u32, y: y as u32 },
                                    stats,
                                },
                                n1 + n2 + n3 + n4 + n5,
                            )),
                            None => None,
                        }
                    } else {
                        None
                    },
                    None => None,
                },
                None => None,
            },
            None => None,
        },
        None => None,
    }
}

/// The encoding of an object status.
pub open spec fn object_status_bytes(v: ObjectStatusView) -> Seq<u8> {
    compressed_bytes(v.object_id as int) + be_u32(v.position.x as int) + be_u32(v.position.y as int)
        + compressed_bytes(v.stats.len() as int) + stats_bytes(v.stats)
}

/// `v` taken modulo 2^32 (what `as u32` keeps of a 64-bit integer).
fn wrap_u32(v: i64) -> (r: u32)
    ensures
        r as int == v as int % 0x1_0000_0000,
{
    if v >= 0 {
        (v % 0x1_0000_0000) as u32
    } else {
        let a: u64 = (-(v as i128)) as u64;
        let rem: u64 = a % 0x1_0000_0000;
        if rem == 0 {
            0
        } else {
            (0x1_0000_0000 - rem) as u32
        }
    }
}

impl RPRead for ObjectStatusData {
    open spec fn rp_parse(data: Seq<u8>) -> Option<(ObjectStatusView, int)> {
        parse_object_status(data)
    }

    fn rp_read(data: &mut &[u8]) -> (r: Result<ObjectStatusData, ReadError>) {
        let mut d: &[u8] = *data;
        let ghost s0 = d@;
        let id = read_compressed_int(&mut d)?;
        let ghost s1 = d@;
        assert(s1 =~= s0.skip(s0.len() - s1.len()));
        let x = u32::rp_read(&mut d)?;
        let ghost s2 = d@;
        assert(s2 =~= s0.skip(s0.len() - s2.len()));
        let y = u32::rp_read(&mut d)?;
        let ghost s3 = d@;
        assert(s3 =~= s0.skip(s0.len() - s3.len()));
        let n_stats = read_compressed_int(&mut d)?;
        let ghost s4 = d@;
        assert(s4 =~= s0.skip(s0.len() - s4.len()));
        let ghost pre = (s0.len() - s4.len()) as int;
        assert(parse_object_status(s0) == (if 0 <= n_stats <= MAX_STATS {
            match parse_stats(s4, n_stats as nat) {
                Some((stats, n5)) => Some((
                    ObjectStatusView {
                        object_id: (id % 0x1_0000_0000) as u32,
                        position: WorldPosBits { x: x, y: y },
                        stats,
                    },
                    pre + n5,
                )),
                None => None,
            }
        } else {
            None
        }));
        if n_stats < 0 || n_stats > MAX_STATS {
            return Err(ReadError::InvalidData);
        }
        let mut stats: Vec<StatData> = Vec::new();
        let mut i: i64 = 0;
        assert(stats@.map_values(|st: StatData| st@) =~= Seq::<StatDataView>::empty());
        assert(d@ =~= s4.skip(0));
        while i < n_stats
            invariant
                0 <= i <= n_stats <= MAX_STATS,
                s0 == old(data)@,
                data@ == s0,
                parse_stats(s4, n_stats as nat) is None ==> parse_object_status(s0) is None,
                d@.len() <= s4.len(),
                d@ == s4.skip(s4.len() - d@.len()),
                parse_stats(s4, i as nat) == Some((stats@.map_values(|st: StatData| st@), s4.len() - d@.len())),
            decreases n_stats - i,
        {
            let ghost before = d@;
            let st = match StatData::rp_read(&mut d) {
                Ok(st) => st,
                Err(e) => {
                    assert(parse_stats(s4, (i + 1) as nat) is None);
                    assert(parse_stats(s4, n_stats as nat) is None) by {
                        lemma_parse_stats_none(s4, (i + 1) as nat, n_stats as nat);
                    }
                    return Err(e);
                },
            };
            let ghost prev = stats@.map_values(|q: StatData| q@);
            stats.push(st);
            assert(stats@.map_values(|q: StatData| q@) =~= prev.push(st@));
            assert(d@ =~= s4.skip(s4.len() - d@.len()));
            i += 1;
        }
        *data = d;
        assert(final(data)@ =~= s0.skip(s0.len() - final(data)@.len()));
        Ok(ObjectStatusData {
            object_id: ObjectId(wrap_u32(id)),
            position: WorldPosBits { x, y },
            stats,
        })
    }
}

proof fn lemma_parse_stats_none(s: Seq<u8>, i: nat, n: nat)
    requires
        i <= n,
        parse_stats(s, i) is None,
    ensures
        parse_stats(s, n) is None,
    decreases n - i,
{
    if i < n {
        lemma_parse_stats_none(s, i + 1, n);
    }
}

impl RPWrite for ObjectStatusData {
    open spec fn rp_bytes(v: ObjectStatusView) -> Seq<u8> {
        object_status_bytes(v)
    }

    open spec fn rp_writable(v: ObjectStatusView) -> bool {
        &&& v.stats.len() <= i64::MAX
        &&& forall|i: int| 0 <= i < v.stats.len() ==> stat_data_writable(#[trigger] v.stats[i])
    }

    fn rp_write(&self, buf: &mut Vec<u8>) -> (written: usize) {
        let start = buf.len();
        write_compressed_int(&(self.object_id.0 as i64), buf);
        self.position.x.rp_write(buf);
        self.position.y.rp_write(buf);
        write_compressed_int(&(self.stats.len() as i64), buf);
        let ghost head = buf@;
        assert(head =~= old(buf)@ + compressed_bytes(self.object_id.0 as int) + be_u32(self.position.x as int)
            + be_u32(self.position.y as int) + compressed_bytes(self@.stats.len() as int));
        let ghost views = self.stats@.map_values(|st: StatData| st@);
        let n = self.stats.len();
        let mut i: usize = 0;
        assert(views.take(0) =~= Seq::<StatDataView>::empty());
        assert(buf@ =~= head + stats_bytes(views.take(0)));
        while i < n
            invariant
                n == self.stats@.len(),
                views == self.stats@.map_values(|st: StatData| st@),
                Self::rp_writable(self@),
                i <= n,
                buf@ == head + stats_bytes(views.take(i as int)),
            decreases n - i,
        {
            assert(self@.stats[i as int] == views[i as int]);
            assert(stat_data_writable(views[i as int]));
            self.stats[i].rp_write(buf);
            assert(views.take(i + 1).drop_last() =~= views.take(i as int));
            i += 1;
        }
        assert(views.take(n as int) =~= views);
        assert(buf@ =~= old(buf)@ + object_status_bytes(self@));
        buf.len() - start
    }
}

proof fn lemma_stats_roundtrip(vs: Seq<StatDataView>, rest: Seq<u8>)
    requires
        forall|i: int| 0 <= i < vs.len() ==> stat_roundtrips(#[trigger] vs[i]),
    ensures
        parse_stats(stats_bytes(vs) + rest, vs.len()) == Some((vs, stats_bytes(vs).len() as int)),
    decreases vs.len(),
{
    if vs.len() > 0 {
        let last = vs.last();
        let lb = stat_data_bytes(last);
        assert(stat_roundtrips(vs[vs.len() - 1]));
        lemma_stats_roundtrip(vs.drop_last(), lb + rest);
        let all = stats_bytes(vs) + rest;
        assert(all =~= stats_bytes(vs.drop_last()) + (lb + rest));
        assert(all.skip(stats_bytes(vs.drop_last()).len() as int) =~= lb + rest);
        super::statdata::law_stat_data_roundtrip(last, rest);
        assert(vs.drop_last().push(last) =~= vs);
    }
}

/// The conditions under which a stat is read back from its encoding (see
/// `law_stat_data_roundtrip`).
pub open spec fn stat_roundtrips(v: StatDataView) -> bool {
    &&& stat_data_writable(v)
    &&& super::statdata::stat_type_of(super::statdata::stat_code(v.stat_type)) == v.stat_type
    &&& (v.stat is String) == super::statdata::is_string_stat(super::statdata::stat_code(v.stat_type))
    &&& v.stat matches super::statdata::StatView::String(t) ==> vstd::utf8::encode_utf8(t).len() < 0x10000
}

/// Law: an object status is read back from its encoding, whatever follows
/// it, when it holds at most 10000 stats and each of them reads back.
pub proof fn law_object_status_roundtrip(v: ObjectStatusView, rest: Seq<u8>)
    requires
        v.stats.len() <= MAX_STATS,
        forall|i: int| 0 <= i < v.stats.len() ==> stat_roundtrips(#[trigger] v.stats[i]),
    ensures
        parse_object_status(object_status_bytes(v) + rest) == Some((v, object_status_bytes(v).len() as int)),
{
    let b1 = compressed_bytes(v.object_id as int);
    let b4 = compressed_bytes(v.stats.len() as int);
    let b5 = stats_bytes(v.stats);
    let r4 = b5 + rest;
    let r3 = b4 + r4;
    let r2 = be_u32(v.position.y as int) + r3;
    let r1 = be_u32(v.position.x as int) + r2;
    let all = object_status_bytes(v) + rest;
    let n1 = b1.len() as int;
    let n4 = b4.len() as int;
    assert(all =~= b1 + r1);
    assert(all.skip(n1) =~= r1);
    assert(all.skip(n1 + 4) =~= r2);
    assert(all.skip(n1 + 8) =~= r3);
    assert(all.skip(n1 + 8 + n4) =~= r4);
    assert(parse_compressed(all) == Some((v.object_id as i64, n1))) by {
        crate::read::law_compressed_roundtrip(v.object_id as i64, r1);
    }
    assert(parse_be32(all.skip(n1)) == Some((v.position.x as int, 4int))) by {
        crate::read::law_u32_roundtrip(v.position.x, r2);
    }
    assert(parse_be32(all.skip(n1 + 4)) == Some((v.position.y as int, 4int))) by {
        crate::read::law_u32_roundtrip(v.position.y, r3);
    }
    assert(parse_compressed(all.skip(n1 + 8)) == Some((v.stats.len() as i64, n4))) by {
        crate::read::law_compressed_roundtrip(v.stats.len() as i64, r4);
    }
    assert(parse_stats(all.skip(n1 + 8 + n4), v.stats.len()) == Some((v.stats, b5.len() as int))) by {
        lemma_stats_roundtrip(v.stats, rest);
    }
    lemma_object_status_unfold(all, v, n1, n4, b5.len() as int);
}

proof fn lemma_object_status_unfold(s: Seq<u8>, v: ObjectStatusView, n1: int, n4: int, n5: int)
    requires
        0 <= v.stats.len() <= MAX_STATS,
        parse_compressed(s) == Some((v.object_id as i64, n1)),
        parse_be32(s.skip(n1)) == Some((v.position.x as int, 4int)),
        parse_be32(s.skip(n1 + 4)) == Some((v.position.y as int, 4int)),
        parse_compressed(s.skip(n1 + 8)) == Some((v.stats.len() as i64, n4)),
        parse_stats(s.skip(n1 + 8 + n4), v.stats.len()) == Some((v.stats, n5)),
    ensures
        parse_object_status(s) == Some((v, n1 + 8 + n4 + n5)),
{
    assert((v.object_id as i64) % 0x1_0000_0000 == v.object_id);
}


} // verus!
