//! The game's server list, as the list service sends it: a document whose
//! elements each name a server and its address. Names are shortened for the
//! `/con` command: `EUEast` becomes `eue`.

use vstd::prelude::*;
use crate::assets::process::tiles::child_text;
use crate::assets::xml::{parse_xml, xml_document, XmlElement, XmlNode};
use crate::text::str_eq;

verus! {

/// Why the server list could not be read.
#[derive(Debug, Clone, Copy, PartialEq, Eq, Structural)]
pub enum ServerListError {
    /// The list is no XML document.
    NotXml,
    /// A server has no `Name` text.
    MissingName,
    /// A server has no `DNS` text.
    MissingDns,
}

/// The ASCII upper-case letters and digits of UTF-8 bytes, letters turned to
/// lower case. (In UTF-8 these bytes stand only for those characters.)
pub open spec fn kept_lower(b: Seq<u8>) -> Seq<u8>
    decreases b.len(),
{
    if b.len() == 0 {
        Seq::empty()
    } else {
        let rest = kept_lower(b.drop_last());
        let c = b.last();
        if 65 <= c <= 90 {
            rest.push((c + 32) as u8)
        } else if 48 <= c <= 57 {
            rest.push(c)
        } else {
            rest
        }
    }
}

/// The UTF-8 bytes of the short name of a server: `aus` for Australia (as
/// `A` is Asia already), else the upper-case letters and digits of its
/// name, in lower case.
pub open spec fn short_name_bytes(name: Seq<char>) -> Seq<u8> {
    if name == "Australia"@ {
        seq![97u8, 117u8, 115u8]
    } else {
        kept_lower(vstd::utf8::encode_utf8(name))
    }
}

/// Bytes below 128 are valid UTF-8.
proof fn lemma_ascii_valid(b: Seq<u8>)
    requires
        forall|i: int| 0 <= i < b.len() ==> b[i] < 128,
    ensures
        vstd::utf8::valid_utf8(b),
    decreases b.len(),
{
    if b.len() > 0 {
        let b0 = b[0];
        assert((b0 & 0x7F) as u32 <= 0x7F) by (bit_vector);
        assert(vstd::utf8::pop_first_scalar(b) =~= b.skip(1));
        lemma_ascii_valid(b.skip(1));
    }
}

/// What `kept_lower` gives is below 128.
proof fn lemma_kept_ascii(b: Seq<u8>)
    ensures
        forall|i: int| 0 <= i < kept_lower(b).len() ==> kept_lower(b)[i] < 128,
    decreases b.len(),
{
    if b.len() > 0 {
        lemma_kept_ascii(b.drop_last());
        let rest = kept_lower(b.drop_last());
        let c = b.last();
        assert forall|i: int| 0 <= i < kept_lower(b).len() implies kept_lower(b)[i] < 128 by {
            if i < rest.len() {
                assert(kept_lower(b)[i] == rest[i]);
            }
        }
    }
}

/// The short name of a server, for `/con`.
pub fn short_name(name: &str) -> (r: String)
    ensures
        r@ == vstd::utf8::decode_utf8(short_name_bytes(name@)),
{
    if str_eq(name, "Australia") {
        let out: Vec<u8> = vec![97u8, 117u8, 115u8];
        proof {
            lemma_ascii_valid(out@);
            assert(out@ == short_name_bytes(name@));
        }
        return match crate::read::string_from_utf8(out) {
            Some(s) => s,
            None => String::new(),
        };
    }
    let bytes = name.as_bytes();
    let mut out: Vec<u8> = Vec::new();
    let mut i: usize = 0;
    while i < bytes.len()
        invariant
            i <= bytes@.len(),
            out@ == kept_lower(bytes@.take(i as int)),
        decreases bytes.len() - i,
    {
        let c = bytes[i];
        assert(bytes@.take(i + 1).drop_last() =~= bytes@.take(i as int));
        if 65 <= c && c <= 90 {
            out.push(c + 32);
        } else if 48 <= c && c <= 57 {
            out.push(c);
        }
        i += 1;
    }
    proof {
        assert(bytes@.take(bytes@.len() as int) =~= bytes@);
        lemma_kept_ascii(bytes@);
        lemma_ascii_valid(out@);
    }
    match crate::read::string_from_utf8(out) {
        Some(s) => s,
        None => String::new(),
    }
}

/// The servers of the list's children, in order: each element gives its
/// short name and its address; other nodes are passed over.
pub open spec fn server_entries(s: Seq<XmlNode>) -> Result<Seq<(Seq<char>, Seq<char>)>, ServerListError>
    decreases s.len(),
{
    if s.len() == 0 {
        Ok(Seq::empty())
    } else {
        match server_entries(s.drop_last()) {
            Err(x) => Err(x),
            Ok(v) => match s.last() {
                XmlNode::Element(e) => match child_text(e, "Name"@) {
                    None => Err(ServerListError::MissingName),
                    Some(name) => match child_text(e, "DNS"@) {
                        None => Err(ServerListError::MissingDns),
                        Some(address) => Ok(v.push((vstd::utf8::decode_utf8(short_name_bytes(name)), address))),
                    },
                },
                _ => Ok(v),
            },
        }
    }
}

/// The views of a list of pairs of strings.
pub open spec fn pairs_view(v: Seq<(String, String)>) -> Seq<(Seq<char>, Seq<char>)> {
    v.map_values(|p: (String, String)| (p.0@, p.1@))
}

/// Once a prefix of the children fails, all of them do.
proof fn lemma_entries_err(s: Seq<XmlNode>, k: int)
    requires
        0 <= k <= s.len(),
        server_entries(s.take(k)) is Err,
    ensures
        server_entries(s) == server_entries(s.take(k)),
    decreases s.len() - k,
{
    if k < s.len() {
        assert(s.take(k + 1).drop_last() =~= s.take(k));
        lemma_entries_err(s, k + 1);
    } else {
        assert(s.take(k) =~= s);
    }
}

/// Reads the servers of a parsed list: short name and address of each, in
/// document order.
pub fn server_list(xml: &XmlElement) -> (r: Result<Vec<(String, String)>, ServerListError>)
    ensures
        match server_entries(xml.children@) {
            Ok(v) => r matches Ok(w) && pairs_view(w@) == v,
            Err(e) => r == Err::<Vec<(String, String)>, ServerListError>(e),
        },
{
    let mut out: Vec<(String, String)> = Vec::new();
    let mut i: usize = 0;
    proof {
        assert(xml.children@.take(0) =~= Seq::<XmlNode>::empty());
        assert(pairs_view(out@) =~= Seq::<(Seq<char>, Seq<char>)>::empty());
    }
    while i < xml.children.len()
        invariant
            i <= xml.children@.len(),
            server_entries(xml.children@.take(i as int)) == Ok::<Seq<(Seq<char>, Seq<char>)>, ServerListError>(pairs_view(out@)),
        decreases xml.children.len() - i,
    {
        assert(xml.children@.take(i + 1).drop_last() =~= xml.children@.take(i as int));
        match &xml.children[i] {
            XmlNode::Element(e) => {
                let name = match e.get_child_text("Name") {
                    Some(n) => n,
                    None => {
                        proof {
                            lemma_entries_err(xml.children@, i + 1);
                        }
                        return Err(ServerListError::MissingName);
                    },
                };
                let address = match e.get_child_text("DNS") {
                    Some(a) => a,
                    None => {
                        proof {
                            lemma_entries_err(xml.children@, i + 1);
                        }
                        return Err(ServerListError::MissingDns);
                    },
                };
                let ghost before = pairs_view(out@);
                let short = short_name(name.as_str());
                out.push((short, address));
                assert(pairs_view(out@) =~= before.push((short@, address@)));
            },
            _ => {},
        }
        i += 1;
    }
    assert(xml.children@.take(xml.children@.len() as int) =~= xml.children@);
    Ok(out)
}

/// Reads the server list from the service's answer.
pub fn parse_server_list(body: &[u8]) -> (r: Result<Vec<(String, String)>, ServerListError>)
    ensures
        match xml_document(body@) {
            None => r == Err::<Vec<(String, String)>, ServerListError>(ServerListError::NotXml),
            Some(doc) => match server_entries(doc.children@) {
                Ok(v) => r matches Ok(w) && pairs_view(w@) == v,
                Err(e) => r == Err::<Vec<(String, String)>, ServerListError>(e),
            },
        },
{
    match parse_xml(body) {
        None => Err(ServerListError::NotXml),
        Some(doc) => server_list(&doc),
    }
}


/// Addresses by short name; a later entry hides an earlier one of the same name.
pub open spec fn named_addresses(p: Seq<(Seq<char>, Seq<char>)>) -> Map<Seq<char>, Seq<char>>
    decreases p.len(),
{
    if p.len() == 0 {
        Map::empty()
    } else {
        named_addresses(p.drop_last()).insert(p.last().0, p.last().1)
    }
}

/// The names of the list, in order, that an earlier entry already had.
pub open spec fn collisions(p: Seq<(Seq<char>, Seq<char>)>) -> Seq<Seq<char>>
    decreases p.len(),
{
    if p.len() == 0 {
        Seq::empty()
    } else if named_addresses(p.drop_last()).contains_key(p.last().0) {
        collisions(p.drop_last()).push(p.last().0)
    } else {
        collisions(p.drop_last())
    }
}

/// Entries after `k` with another name do not change what a name finds.
proof fn lemma_addresses_prefix(p: Seq<(Seq<char>, Seq<char>)>, k: int, n: Seq<char>)
    requires
        0 <= k <= p.len(),
        forall|j: int| k <= j < p.len() ==> (#[trigger] p[j]).0 != n,
    ensures
        named_addresses(p).get(n) == named_addresses(p.take(k)).get(n),
    decreases p.len(),
{
    if k == p.len() {
        assert(p.take(k) =~= p);
    } else {
        lemma_addresses_prefix(p.drop_last(), k, n);
        assert(p.drop_last().take(k) =~= p.take(k));
    }
}

/// The servers by short name, as the list gives them.
pub struct ServerTable {
    pub entries: Vec<(String, String)>,
}

impl View for ServerTable {
    type V = Map<Seq<char>, Seq<char>>;

    open spec fn view(&self) -> Self::V {
        named_addresses(pairs_view(self.entries@))
    }
}

/// The names of a list of strings.
pub open spec fn strings_view(v: Seq<String>) -> Seq<Seq<char>> {
    v.map_values(|s: String| s@)
}

impl ServerTable {
    /// The address of the server with a short name.
    pub fn get(&self, name: &str) -> (r: Option<&String>)
        ensures
            match r {
                None => !self@.contains_key(name@),
                Some(a) => self@.get(name@) == Some(a@),
            },
    {
        let ghost p = pairs_view(self.entries@);
        let mut i: usize = self.entries.len();
        while i > 0
            invariant
                i <= self.entries@.len(),
                p == pairs_view(self.entries@),
                forall|j: int| i <= j < p.len() ==> (#[trigger] p[j]).0 != name@,
            decreases i,
        {
            if str_eq(self.entries[i - 1].0.as_str(), name) {
                proof {
                    lemma_addresses_prefix(p, i as int, name@);
                    assert(p.take(i as int).drop_last() =~= p.take(i - 1));
                    assert(p.take(i as int).last() == p[i - 1]);
                }
                return Some(&self.entries[i - 1].1);
            }
            assert(p[i - 1].0 != name@);
            i -= 1;
        }
        proof {
            lemma_addresses_prefix(p, 0, name@);
        }
        None
    }

    /// The table of a server list, and the names that occur more than once
    /// (each time after the first); the last address of a name counts.
    pub fn from_list(list: Vec<(String, String)>) -> (r: (ServerTable, Vec<String>))
        ensures
            r.0@ == named_addresses(pairs_view(list@)),
            strings_view(r.1@) == collisions(pairs_view(list@)),
    {
        let ghost p = pairs_view(list@);
        let mut table = ServerTable { entries: Vec::new() };
        let mut collided: Vec<String> = Vec::new();
        let mut i: usize = 0;
        assert(pairs_view(table.entries@) =~= p.take(0));
        assert(strings_view(collided@) =~= Seq::<Seq<char>>::empty());
        while i < list.len()
            invariant
                i <= list@.len(),
                p == pairs_view(list@),
                pairs_view(table.entries@) == p.take(i as int),
                strings_view(collided@) == collisions(p.take(i as int)),
            decreases list.len() - i,
        {
            let name = list[i].0.clone();
            let address = list[i].1.clone();
            let ghost t = p.take(i + 1);
            assert(t.drop_last() =~= p.take(i as int));
            assert(t.last() == p[i as int]);
            let seen = table.get(name.as_str()).is_some();
            if seen {
                let ghost before = strings_view(collided@);
                collided.push(name.clone());
                assert(strings_view(collided@) =~= before.push(name@));
            }
            let ghost before = pairs_view(table.entries@);
            table.entries.push((name, address));
            assert(pairs_view(table.entries@) =~= before.push((p[i as int].0, p[i as int].1)));
            i += 1;
        }
        assert(p.take(list@.len() as int) =~= p);
        (table, collided)
    }
}
} // verus!
