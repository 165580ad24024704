//! `/antipush`: replaces every tile that pushes the player with a tile that
//! does not.

use vstd::prelude::*;
use std::collections::{BTreeMap, HashSet};
use super::{Module, ModuleInstance};
use crate::packets::{key_x, key_y, pack_tile, tile_key, unpack_tile, TileData};
use crate::text::starts_with;
use vstd::std_specs::btree::{increasing_seq, spec_btree_map_iter};
use vstd::std_specs::iter::IteratorSpec;
use vstd::laws_cmp::obeys_cmp;
use vstd::std_specs::cmp::OrdSpec;

verus! {

broadcast use vstd::std_specs::btree::group_btree_axioms, vstd::std_specs::hash::group_hash_axioms,
    vstd::laws_cmp::group_laws_cmp;

/// The tile that replaces pushing tiles: spider dirt, which slows walking to 35%.
pub const ANTI_PUSH_TILE: u16 = 0x2230;

#[derive(Debug, Clone)]
pub struct AntiPush {}

/// The pushing tiles seen in this map, by position (keyed as `tile_key` packs
/// it), with their own type.
#[derive(Debug, Clone)]
pub struct AntiPushInst {
    pub tiles: BTreeMap<u32, u16>,
    pub enabled: bool,
    /// Whether the client already saw the current state.
    pub synced: bool,
}

impl Module for AntiPush {
    type Instance = AntiPushInst;

    fn new() -> Self {
        AntiPush {}
    }

    fn instance(&self) -> (r: AntiPushInst)
        ensures
            r.tiles@ == Map::<u32, u16>::empty(),
            !r.enabled,
            r.synced,
    {
        AntiPushInst { tiles: BTreeMap::new(), enabled: false, synced: true }
    }
}

impl ModuleInstance for AntiPushInst {}

/// Whether a chat line is the `/ap` or `/antipush` command.
pub fn is_antipush_command(text: &str) -> (r: bool)
    ensures
        r == ("/ap"@.is_prefix_of(text@) || "/antipush"@.is_prefix_of(text@)),
{
    starts_with(text, "/ap") || starts_with(text, "/antipush")
}

/// The tile that resends a remembered pushing tile in the current state.
pub open spec fn resent_tile(k: u32, tile_type: u16, enabled: bool) -> TileData {
    TileData { x: key_x(k), y: key_y(k), tile_type: if enabled { ANTI_PUSH_TILE } else { tile_type } }
}

/// `r` resends each remembered tile once, in increasing order of position.
pub open spec fn resends(m: Map<u32, u16>, enabled: bool, r: Seq<TileData>) -> bool {
    exists|keys: Seq<u32>| {
        &&& keys.len() == r.len()
        &&& (forall|i: int, j: int| 0 <= i < j < keys.len() ==> keys[i] < keys[j])
        &&& keys.len() == m.dom().len()
        &&& (forall|i: int| 0 <= i < keys.len() ==> #[trigger] m.contains_key(keys[i])
            && r[i] == resent_tile(keys[i], m[keys[i]], enabled))
    }
}

/// The remembered tiles after the tiles of an update went by.
pub open spec fn remember(m: Map<u32, u16>, t: Seq<TileData>, pushing: Set<u32>) -> Map<u32, u16>
    decreases t.len(),
{
    if t.len() == 0 {
        m
    } else {
        let m2 = remember(m, t.drop_last(), pushing);
        let l = t.last();
        if pushing.contains(l.tile_type as u32) {
            m2.insert(tile_key(l.x, l.y), l.tile_type)
        } else {
            m2
        }
    }
}

/// A tile of an update after this module.
pub open spec fn replaced_tile(t: TileData, pushing: Set<u32>, enabled: bool) -> TileData {
    if enabled && pushing.contains(t.tile_type as u32) {
        TileData { tile_type: ANTI_PUSH_TILE, ..t }
    } else {
        t
    }
}

/// The keys that a map's iterator yields come in increasing order.
proof fn lemma_increasing_keys(s0: Seq<(&u32, &u16)>)
    requires
        increasing_seq(s0.map_values(|kv: (&u32, &u16)| *kv.0)),
    ensures
        forall|i: int, j: int| 0 <= i < j < s0.len() ==> *s0[i].0 < *s0[j].0,
{
    let sq = s0.map_values(|kv: (&u32, &u16)| *kv.0);
    assert(obeys_cmp::<u32>());
    assert forall|i: int, j: int| 0 <= i < j < s0.len() implies *s0[i].0 < *s0[j].0 by {
        assert(sq[i] == *s0[i].0);
        assert(sq[j] == *s0[j].0);
        assert(sq[i].cmp_spec(&sq[j]) is Less);
    }
}

impl AntiPushInst {
    /// `/antipush`: toggles the replacement; the next update shows the new
    /// state. Returns the message for the user.
    pub fn toggle(&mut self) -> (message: &'static str)
        ensures
            final(self).enabled == !old(self).enabled,
            !final(self).synced,
            final(self).tiles@ == old(self).tiles@,
            message@ == (if final(self).enabled { "Antipush enabled."@ } else { "Antipush disabled."@ }),
    {
        self.enabled = !self.enabled;
        self.synced = false;
        if self.enabled {
            "Antipush enabled."
        } else {
            "Antipush disabled."
        }
    }

    /// An update with map tiles. If the client has not seen the current state,
    /// every remembered tile is resent first. Then each pushing tile of the
    /// update is remembered and, while enabled, replaced.
    pub fn update(&mut self, tiles: &mut Vec<TileData>, pushing: &HashSet<u32>)
        ensures
            final(self).enabled == old(self).enabled,
            final(self).synced,
            exists|sent: Seq<TileData>| {
                &&& (if old(self).synced { sent.len() == 0 } else { resends(old(self).tiles@, old(self).enabled, sent) })
                &&& final(self).tiles@ == remember(old(self).tiles@, old(tiles)@ + sent, pushing@)
                &&& final(tiles)@ == (old(tiles)@ + sent).map_values(|t: TileData| replaced_tile(t, pushing@, old(self).enabled))
            },
    {
        let ghost start = tiles@;
        if !self.synced {
            let ghost m = self.tiles@;
            let ghost mut keys: Seq<u32> = Seq::empty();
            let iter = self.tiles.iter();
            let ghost s0 = iter.remaining();
            proof {
                lemma_increasing_keys(s0);
            }
            for kv in it: iter
                invariant
                    m == self.tiles@,
                    self.enabled == old(self).enabled,
                    tiles@.len() == start.len() + keys.len(),
                    keys.len() == it.index(),
                    tiles@.subrange(0, start.len() as int) == start,
                    it.seq() == s0,
                    s0 == spec_btree_map_iter(&self.tiles).remaining(),
                    s0.len() == m.dom().len(),
                    forall|i: int, j: int| 0 <= i < j < s0.len() ==> *s0[i].0 < *s0[j].0,
                    forall|i: int| 0 <= i < keys.len() ==> keys[i] == *s0[i].0,
                    forall|i: int, j: int| 0 <= i < j < keys.len() ==> keys[i] < keys[j],
                    forall|i: int| 0 <= i < keys.len() ==> #[trigger] m.contains_key(keys[i])
                        && tiles@[start.len() + i] == resent_tile(keys[i], m[keys[i]], self.enabled),
            {
                let (k, v) = kv;
                let (x, y) = unpack_tile(*k);
                let t = if self.enabled { ANTI_PUSH_TILE } else { *v };
                tiles.push(TileData { x, y, tile_type: t });
                proof {
                    let n = keys.len() as int;
                    assert(s0[n] == kv);
                    assert(m.contains_key(*s0[n].0) && m[*s0[n].0] == *s0[n].1);
                    keys = keys.push(*k);
                }
            }
            assert(keys.len() == m.dom().len());
            assert(resends(m, self.enabled, tiles@.skip(start.len() as int)));
            self.synced = true;
        }
        let ghost mid = tiles@;
        let mut i: usize = 0;
        while i < tiles.len()
            invariant
                mid.len() == tiles@.len(),
                i <= tiles.len(),
                self.synced,
                self.enabled == old(self).enabled,
                self.tiles@ == remember(old(self).tiles@, mid.take(i as int), pushing@),
                forall|j: int| 0 <= j < i ==> tiles@[j] == replaced_tile(mid[j], pushing@, self.enabled),
                forall|j: int| i <= j < tiles.len() ==> tiles@[j] == mid[j],
            decreases tiles.len() - i,
        {
            let t = tiles[i];
            if pushing.contains(&(t.tile_type as u32)) {
                let k = pack_tile(t.x, t.y);
                self.tiles.insert(k, t.tile_type);
                if self.enabled {
                    tiles.set(i, TileData { x: t.x, y: t.y, tile_type: ANTI_PUSH_TILE });
                }
            }
            assert(mid.take(i + 1).drop_last() =~= mid.take(i as int));
            i += 1;
        }
        assert(mid.take(mid.len() as int) =~= mid);
        assert(mid =~= start + mid.skip(start.len() as int));
        assert(tiles@ =~= mid.map_values(|t: TileData| replaced_tile(t, pushing@, old(self).enabled)));
    }
}


/// Law: while the module is enabled, no tile that the client is sent pushes
/// (unless the replacement itself did); while disabled, tiles pass unchanged.
pub proof fn law_no_pushing_tiles(t: TileData, pushing: Set<u32>, enabled: bool)
    ensures
        enabled ==> !pushing.contains(replaced_tile(t, pushing, enabled).tile_type as u32)
            || replaced_tile(t, pushing, enabled).tile_type == ANTI_PUSH_TILE,
        !enabled ==> replaced_tile(t, pushing, enabled) == t,
        replaced_tile(t, pushing, enabled).x == t.x && replaced_tile(t, pushing, enabled).y == t.y,
{
}
} // verus!
