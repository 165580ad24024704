//! Ground that damages the player, such as lava.

use vstd::prelude::*;
use std::collections::HashMap;
use crate::packets::{pack_tile, tile_key, TileData};

verus! {

broadcast use vstd::std_specs::hash::group_hash_axioms;

/// Every hazardous tile seen, by position (keyed as `tile_key` packs it), with
/// the damage it deals.
pub struct Ground {
    pub hazardous_tiles: HashMap<u32, i64>,
}

/// The hazardous tiles after the tiles of an update went by.
pub open spec fn add_hazards(m: Map<u32, i64>, t: Seq<TileData>, hazardous: Map<u32, i64>) -> Map<u32, i64>
    decreases t.len(),
{
    if t.len() == 0 {
        m
    } else {
        let m2 = add_hazards(m, t.drop_last(), hazardous);
        let l = t.last();
        if hazardous.contains_key(l.tile_type as u32) {
            m2.insert(tile_key(l.x, l.y), hazardous[l.tile_type as u32])
        } else {
            m2
        }
    }
}

impl Ground {
    pub fn new() -> (r: Self)
        ensures
            r.hazardous_tiles@ == Map::<u32, i64>::empty(),
    {
        Ground { hazardous_tiles: HashMap::new() }
    }

    /// Remembers each tile of an update whose ground type deals damage.
    pub fn add_tiles(&mut self, tiles: &Vec<TileData>, hazardous: &HashMap<u32, i64>)
        ensures
            final(self).hazardous_tiles@ == add_hazards(old(self).hazardous_tiles@, tiles@, hazardous@),
    {
        let mut i: usize = 0;
        while i < tiles.len()
            invariant
                i <= tiles.len(),
                self.hazardous_tiles@ == add_hazards(old(self).hazardous_tiles@, tiles@.take(i as int), hazardous@),
            decreases tiles.len() - i,
        {
            let t = tiles[i];
            match hazardous.get(&(t.tile_type as u32)) {
                Some(damage) => {
                    self.hazardous_tiles.insert(pack_tile(t.x, t.y), *damage);
                },
                None => {},
            }
            assert(tiles@.take(i + 1).drop_last() =~= tiles@.take(i as int));
            i += 1;
        }
        assert(tiles@.take(tiles.len() as int) =~= tiles@);
    }

    /// The damage of the ground at a position, if it was seen to deal damage.
    pub fn ground_damage(&self, x: i16, y: i16) -> (r: Option<i64>)
        ensures
            r == self.hazardous_tiles@.get(tile_key(x, y)),
    {
        match self.hazardous_tiles.get(&pack_tile(x, y)) {
            Some(d) => Some(*d),
            None => None,
        }
    }
}

} // verus!
