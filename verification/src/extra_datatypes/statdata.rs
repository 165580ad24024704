//! One stat of an object (its HP, its conditions, its name, ...) as the server sends it.

use vstd::prelude::*;
use crate::read::{
    parse_compressed, parse_string, parse_u8, read_byte, read_compressed_int, read_ok, ReadError,
    RPRead,
};
use crate::text::{parse_i64, parse_integer};
use crate::write::{compressed_bytes, string_bytes, write_compressed_int, write_str, RPWrite};

verus! {

/// The kind of a stat, by its code on the wire.
#[derive(Debug, Clone, Copy, PartialEq, Eq, Structural)]
pub enum StatType {
    MaxHP,
    HP,
    MaxMP,
    MP,
    Defense,
    Speed,
    Vitality,
    Condition,
    Name,
    CurrentFame,
    ClassQuestFame,
    GuildName,
    Condition2,
    Other(u8),
}

/// The stat type that a code stands for.
pub open spec fn stat_type_of(code: u8) -> StatType {
    match code {
        0 => StatType::MaxHP,
        1 => StatType::HP,
        3 => StatType::MaxMP,
        4 => StatType::MP,
        21 => StatType::Defense,
        22 => StatType::Speed,
        26 => StatType::Vitality,
        29 => StatType::Condition,
        31 => StatType::Name,
        57 => StatType::CurrentFame,
        58 => StatType::ClassQuestFame,
        62 => StatType::GuildName,
        96 => StatType::Condition2,
        i => StatType::Other(i),
    }
}

/// The code that is written for a stat type. The named variants have codes
/// 0..=96 as listed; `Other` writes the code it holds.
pub open spec fn stat_code(t: StatType) -> u8 {
    match t {
        StatType::MaxHP => 0,
        StatType::HP => 1,
        StatType::MaxMP => 3,
        StatType::MP => 4,
        StatType::Defense => 21,
        StatType::Speed => 22,
        StatType::Vitality => 26,
        StatType::Condition => 29,
        StatType::Name => 31,
        StatType::CurrentFame => 57,
        StatType::ClassQuestFame => 58,
        StatType::GuildName => 62,
        StatType::Condition2 => 96,
        StatType::Other(i) => i,
    }
}

impl StatType {
    /// The stat type that a wire code stands for.
    pub fn from_code(code: u8) -> (t: StatType)
        ensures
            t == stat_type_of(code),
    {
        match code {
            0 => StatType::MaxHP,
            1 => StatType::HP,
            3 => StatType::MaxMP,
            4 => StatType::MP,
            21 => StatType::Defense,
            22 => StatType::Speed,
            26 => StatType::Vitality,
            29 => StatType::Condition,
            31 => StatType::Name,
            57 => StatType::CurrentFame,
            58 => StatType::ClassQuestFame,
            62 => StatType::GuildName,
            96 => StatType::Condition2,
            i => StatType::Other(i),
        }
    }

    /// The wire code of this stat type.
    pub fn code(&self) -> (c: u8)
        ensures
            c == stat_code(*self),
    {
        match self {
            StatType::MaxHP => 0,
            StatType::HP => 1,
            StatType::MaxMP => 3,
            StatType::MP => 4,
            StatType::Defense => 21,
            StatType::Speed => 22,
            StatType::Vitality => 26,
            StatType::Condition => 29,
            StatType::Name => 31,
            StatType::CurrentFame => 57,
            StatType::ClassQuestFame => 58,
            StatType::GuildName => 62,
            StatType::Condition2 => 96,
            StatType::Other(i) => *i,
        }
    }
}

/// Law: a code read as a stat type is written back as the same code; and a
/// stat type is read back from its code unless it is an `Other` holding the
/// code of a named variant.
pub proof fn law_stat_code_roundtrip(code: u8, t: StatType)
    ensures
        stat_code(stat_type_of(code)) == code,
        (t matches StatType::Other(i) ==> stat_type_of(i) is Other) ==> stat_type_of(stat_code(t)) == t,
{
}

/// Law: the stat codes of the protocol. Each named stat type is read from
/// exactly one code, the one the server sends for it (HP 1, max HP 0,
/// defense 21, speed 22, vitality 26, condition 29, ...); every other code is
/// kept as it came.
pub proof fn law_stat_code_table(code: u8)
    ensures
        (stat_type_of(code) == StatType::MaxHP) <==> code == 0,
        (stat_type_of(code) == StatType::HP) <==> code == 1,
        (stat_type_of(code) == StatType::MaxMP) <==> code == 3,
        (stat_type_of(code) == StatType::MP) <==> code == 4,
        (stat_type_of(code) == StatType::Defense) <==> code == 21,
        (stat_type_of(code) == StatType::Speed) <==> code == 22,
        (stat_type_of(code) == StatType::Vitality) <==> code == 26,
        (stat_type_of(code) == StatType::Condition) <==> code == 29,
        (stat_type_of(code) == StatType::Name) <==> code == 31,
        (stat_type_of(code) == StatType::CurrentFame) <==> code == 57,
        (stat_type_of(code) == StatType::ClassQuestFame) <==> code == 58,
        (stat_type_of(code) == StatType::GuildName) <==> code == 62,
        (stat_type_of(code) == StatType::Condition2) <==> code == 96,
        stat_type_of(code) is Other ==> stat_type_of(code) == StatType::Other(code),
        stat_code(StatType::Speed) == 22 && stat_code(StatType::Vitality) == 26 && stat_code(StatType::Defense) == 21
            && stat_code(StatType::HP) == 1 && stat_code(StatType::MaxHP) == 0 && stat_code(StatType::Condition) == 29
            && stat_code(StatType::Condition2) == 96,
{
}

/// Whether the stat with this code carries a string rather than an integer.
pub open spec fn is_string_stat(code: u8) -> bool {
    code == 6 || code == 31 || code == 38 || code == 54 || code == 62 || code == 71 || code == 72
        || code == 80 || code == 82 || code == 115 || code == 121 || code == 127 || code == 128
        || code == 147
}

fn string_stat(code: u8) -> (r: bool)
    ensures
        r == is_string_stat(code),
{
    code == 6 || code == 31 || code == 38 || code == 54 || code == 62 || code == 71 || code == 72
        || code == 80 || code == 82 || code == 115 || code == 121 || code == 127 || code == 128
        || code == 147
}

/// The value of a stat.
#[derive(Debug, Clone)]
pub enum Stat {
    String(String),
    Int(i64),
}

/// The value of a stat, in specifications.
pub enum StatView {
    String(Seq<char>),
    Int(i64),
}

impl View for Stat {
    type V = StatView;

    open spec fn view(&self) -> StatView {
        match self {
            Stat::String(s) => StatView::String(s@),
            Stat::Int(i) => StatView::Int(*i),
        }
    }
}

/// The integer value of a stat: the number itself, or the number its string spells.
pub open spec fn stat_int(v: StatView) -> Option<i64> {
    match v {
        StatView::Int(i) => Some(i),
        StatView::String(s) => match parse_integer(s, 10, i64::MIN as int, i64::MAX as int) {
            Some(x) => Some(x as i64),
            None => None,
        },
    }
}

impl Stat {
    /// The integer value of the stat. A string stat must spell an integer.
    pub fn as_int(&self) -> (r: i64)
        requires
            stat_int(self@) is Some,
        ensures
            stat_int(self@) == Some(r),
    {
        match self {
            Stat::String(s) => parse_i64(s.as_str()).unwrap(),
            Stat::Int(i) => *i,
        }
    }

    /// The text of a string stat.
    pub fn as_str(&self) -> (r: &str)
        requires
            self@ is String,
        ensures
            self@ == StatView::String(r@),
    {
        match self {
            Stat::String(s) => s.as_str(),
            Stat::Int(_) => {
                assert(false);
                ""
            },
        }
    }
}

/// One stat of an object.
#[derive(Debug, Clone)]
pub struct StatData {
    pub stat_type: StatType,
    pub stat: Stat,
    pub secondary_stat: i64,
}

/// A stat, in specifications.
pub struct StatDataView {
    pub stat_type: StatType,
    pub stat: StatView,
    pub secondary_stat: i64,
}

impl View for StatData {
    type V = StatDataView;

    open spec fn view(&self) -> StatDataView {
        StatDataView { stat_type: self.stat_type, stat: self.stat@, secondary_stat: self.secondary_stat }
    }
}

/// A stat value at the start of `s`: a string for string stats, else a compressed integer.
pub open spec fn parse_stat_value(code: u8, s: Seq<u8>) -> Option<(StatView, int)> {
    if is_string_stat(code) {
        match parse_string(s) {
            Some((t, n)) => Some((StatView::String(t), n)),
            None => None,
        }
    } else {
        match parse_compressed(s) {
            Some((i, n)) => Some((StatView::Int(i), n)),
            None => None,
        }
    }
}

/// A stat at the start of `s`: its code, its value, and a compressed secondary value.
pub open spec fn parse_stat_data(s: Seq<u8>) -> Option<(StatDataView, int)> {
    match parse_u8(s) {
        Some((code, n1)) => match parse_stat_value(code, s.skip(n1)) {
            Some((v, n2)) => match parse_compressed(s.skip(n1 + n2)) {
                Some((sec, n3)) => Some((
                    StatDataView { stat_type: stat_type_of(code), stat: v, secondary_stat: sec },
                    n1 + n2 + n3,
                )),
                None => None,
            },
            None => None,
        },
        None => None,
    }
}

/// The encoding of a stat value.
pub open spec fn stat_value_bytes(v: StatView) -> Seq<u8> {
    match v {
        StatView::String(t) => string_bytes(t),
        StatView::Int(i) => compressed_bytes(i as int),
    }
}

/// The encoding of a stat.
pub open spec fn stat_data_bytes(v: StatDataView) -> Seq<u8> {
    seq![stat_code(v.stat_type)] + stat_value_bytes(v.stat) + compressed_bytes(v.secondary_stat as int)
}

/// Whether a stat can be written: its integers must not be the most negative one.
pub open spec fn stat_data_writable(v: StatDataView) -> bool {
    &&& v.secondary_stat != i64::MIN
    &&& v.stat matches StatView::Int(i) ==> i != i64::MIN
}

impl RPRead for StatData {
    open spec fn rp_parse(data: Seq<u8>) -> Option<(StatDataView, int)> {
        parse_stat_data(data)
    }

    fn rp_read(data: &mut &[u8]) -> (r: Result<StatData, ReadError>) {
        let mut d: &[u8] = *data;
        let ghost s0 = d@;
        let code = read_byte(&mut d)?;
        let ghost s1 = d@;
        let stat = if string_stat(code) {
            Stat::String(String::rp_read(&mut d)?)
        } else {
            Stat::Int(read_compressed_int(&mut d)?)
        };
        let ghost s2 = d@;
        proof {
            let n1 = s0.len() - s1.len();
            let n2 = s1.len() - s2.len();
            assert(s1 =~= s0.skip(n1));
            assert(s2 =~= s0.skip(n1 + n2));
        }
        let secondary_stat = read_compressed_int(&mut d)?;
        proof {
            assert(d@ =~= s0.skip(s0.len() - d@.len()));
        }
        *data = d;
        Ok(StatData { stat_type: StatType::from_code(code), stat, secondary_stat })
    }
}

impl RPWrite for StatData {
    open spec fn rp_bytes(v: StatDataView) -> Seq<u8> {
        stat_data_bytes(v)
    }

    open spec fn rp_writable(v: StatDataView) -> bool {
        stat_data_writable(v)
    }

    fn rp_write(&self, buf: &mut Vec<u8>) -> (written: usize) {
        let start = buf.len();
        let code = self.stat_type.code();
        code.rp_write(buf);
        match &self.stat {
            Stat::String(s) => {
                write_str(s.as_str(), buf);
            },
            Stat::Int(i) => {
                write_compressed_int(i, buf);
            },
        }
        write_compressed_int(&self.secondary_stat, buf);
        assert(buf@ =~= old(buf)@ + stat_data_bytes(self@));
        buf.len() - start
    }
}

/// Law: a stat that can be written is read back from its encoding, whatever
/// follows it, provided that its value is of the kind its code calls for (a
/// string exactly for the string stats, of fewer than 2^16 UTF-8 bytes) and
/// that its type reads back from its code.
pub proof fn law_stat_data_roundtrip(v: StatDataView, rest: Seq<u8>)
    requires
        stat_data_writable(v),
        stat_type_of(stat_code(v.stat_type)) == v.stat_type,
        (v.stat is String) == is_string_stat(stat_code(v.stat_type)),
        v.stat matches StatView::String(t) ==> vstd::utf8::encode_utf8(t).len() < 0x10000,
    ensures
        parse_stat_data(stat_data_bytes(v) + rest) == Some((v, stat_data_bytes(v).len() as int)),
{
    let code = stat_code(v.stat_type);
    let vb = stat_value_bytes(v.stat);
    let sb = compressed_bytes(v.secondary_stat as int);
    let all = stat_data_bytes(v) + rest;
    assert(all =~= seq![code] + (vb + (sb + rest)));
    assert(all.skip(1) =~= vb + (sb + rest));
    match v.stat {
        StatView::String(t) => crate::read::law_string_roundtrip(t, sb + rest),
        StatView::Int(i) => crate::read::law_compressed_roundtrip(i, sb + rest),
    }
    assert(all.skip(1 + vb.len() as int) =~= sb + rest);
    crate::read::law_compressed_roundtrip(v.secondary_stat, rest);
}


} // verus!
