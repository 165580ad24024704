//! The projectiles that enemies shoot, remembered until they hit the player or
//! are forgotten for newer ones.

use vstd::prelude::*;
use std::collections::BTreeMap;
use lru::LruCache;
use std::collections::hash_map::RandomState;
use super::{bullet_damage, damage_fits, fits_i64, projectile_damage};
use crate::assets::ProjectileInfo;
use crate::extra_datatypes::conditions::{has_flag, INVULNERABLE};
use crate::extra_datatypes::object_status_data::ObjectStatusData;
use crate::extra_datatypes::{ObjectId, ProjectileId};
use crate::module::PacketFlow;
use crate::module::stats::TickStats;

verus! {

broadcast use vstd::std_specs::btree::group_btree_axioms, vstd::laws_cmp::group_laws_cmp;

/// How many projectiles are remembered at once. Too few, and the autonexus
/// misses hits when many projectiles fly at once.
pub const BULLET_CACHE_SIZE: usize = 10000;

#[verifier::external_type_specification]
#[verifier::external_body]
#[verifier::reject_recursive_types(K)]
#[verifier::reject_recursive_types(V)]
#[verifier::reject_recursive_types(S)]
pub struct ExLruCache<K, V, S>(lru::LruCache<K, V, S>);

/// A projectile in flight: the damage it was shot with and what it is.
#[derive(Debug, Clone, Copy)]
pub struct Bullet {
    pub damage: i16,
    pub info: ProjectileInfo,
}

/// The projectiles in a cache, by key.
pub uninterp spec fn bullet_entries(c: LruCache<u64, Bullet, RandomState>) -> Map<u64, Bullet>;

/// The keys of a cache from the most recently used to the least.
pub uninterp spec fn bullet_order(c: LruCache<u64, Bullet, RandomState>) -> Seq<u64>;

/// The capacity that a cache was made with.
pub uninterp spec fn bullet_capacity(c: LruCache<u64, Bullet, RandomState>) -> nat;

/// A cache after `put`: the key's value is replaced, or the key is added and,
/// when the cache is full, the least recently used entry leaves. Either way the
/// key becomes the most recently used.
pub open spec fn lru_put(m: Map<u64, Bullet>, o: Seq<u64>, cap: nat, k: u64, v: Bullet) -> (Map<u64, Bullet>, Seq<u64>) {
    if m.contains_key(k) {
        (m.insert(k, v), seq![k] + o.remove_value(k))
    } else if o.len() < cap {
        (m.insert(k, v), seq![k] + o)
    } else {
        (m.remove(o.last()).insert(k, v), seq![k] + o.drop_last())
    }
}

/// Calls `lru::LruCache::with_hasher` with a capacity and std's hasher: an
/// empty cache.
#[verifier::external_body]
fn new_bullet_cache(cap: usize) -> (cache: LruCache<u64, Bullet, RandomState>)
    requires
        cap > 0,
    ensures
        forall|k: u64| !bullet_entries(cache).contains_key(k),
        bullet_order(cache).len() == 0,
        bullet_capacity(cache) == cap,
{
    LruCache::with_hasher(std::num::NonZeroUsize::new(cap).unwrap(), RandomState::new())
}

/// Calls `lru::LruCache::put`: the entry is set and becomes the most recently
/// used; a new key in a full cache pushes out the least recently used entry.
#[verifier::external_body]
fn put_bullet(c: &mut LruCache<u64, Bullet, RandomState>, k: u64, v: Bullet)
    ensures
        (bullet_entries(*final(c)), bullet_order(*final(c))) == lru_put(
            bullet_entries(*old(c)),
            bullet_order(*old(c)),
            bullet_capacity(*old(c)),
            k,
            v,
        ),
        bullet_capacity(*final(c)) == bullet_capacity(*old(c)),
{
    c.put(k, v);
}

/// Calls `lru::LruCache::pop`: removes the entry of a key and returns its value.
#[verifier::external_body]
fn pop_bullet(c: &mut LruCache<u64, Bullet, RandomState>, k: u64) -> (r: Option<Bullet>)
    ensures
        r == bullet_entries(*old(c)).get(k),
        bullet_entries(*final(c)) == bullet_entries(*old(c)).remove(k),
        bullet_order(*final(c)) == bullet_order(*old(c)).remove_value(k),
        bullet_capacity(*final(c)) == bullet_capacity(*old(c)),
{
    c.pop(&k)
}

/// The key of a projectile: its owner in the high bits, its own id in the low 16.
pub open spec fn bullet_key(owner: u32, id: u16) -> u64 {
    (owner * 65536 + id) as u64
}

fn key_of(owner: u32, id: u16) -> (k: u64)
    ensures
        k == bullet_key(owner, id),
{
    owner as u64 * 65536 + id as u64
}

/// All projectiles in flight, and the type of each visible object.
pub struct Projectiles {
    pub bullets: LruCache<u64, Bullet, RandomState>,
    pub objects: BTreeMap<u32, u16>,
}

/// The cache after the shots of one enemy: `n` projectiles with consecutive ids.
pub open spec fn put_shots(
    m: Map<u64, Bullet>,
    o: Seq<u64>,
    cap: nat,
    owner: u32,
    first: u16,
    n: nat,
    b: Bullet,
) -> (Map<u64, Bullet>, Seq<u64>)
    decreases n,
{
    if n == 0 {
        (m, o)
    } else {
        let (m2, o2) = put_shots(m, o, cap, owner, first, (n - 1) as nat, b);
        lru_put(m2, o2, cap, bullet_key(owner, (first + n - 1) as u16), b)
    }
}

/// The visible objects after an update removed and added some.
pub open spec fn removed_objects(m: Map<u32, u16>, r: Seq<ObjectId>) -> Map<u32, u16>
    decreases r.len(),
{
    if r.len() == 0 {
        m
    } else {
        removed_objects(m, r.drop_last()).remove(r.last().0)
    }
}

pub open spec fn added_objects(m: Map<u32, u16>, a: Seq<(u16, ObjectStatusData)>) -> Map<u32, u16>
    decreases a.len(),
{
    if a.len() == 0 {
        m
    } else {
        added_objects(m, a.drop_last()).insert(a.last().1.object_id.0, a.last().0)
    }
}

/// What a hit by a projectile comes to.
#[derive(Debug, Clone, Copy)]
pub enum Hit {
    /// The projectile is not known: the packet is blocked, as a disconnect is
    /// better than a death.
    UnknownBullet,
    /// The player is invulnerable: no damage.
    Invulnerable,
    /// This much damage.
    Damage(i64),
}

impl Projectiles {
    pub open spec fn wf(&self) -> bool {
        bullet_capacity(self.bullets) == BULLET_CACHE_SIZE
    }

    pub fn new() -> (r: Self)
        ensures
            r.wf(),
            forall|k: u64| !bullet_entries(r.bullets).contains_key(k),
            bullet_order(r.bullets).len() == 0,
            r.objects@ == Map::<u32, u16>::empty(),
    {
        Projectiles { bullets: new_bullet_cache(BULLET_CACHE_SIZE), objects: BTreeMap::new() }
    }

    /// Objects left the visible area and others entered it.
    pub fn add_remove_objects(&mut self, to_remove: &Vec<ObjectId>, new_objects: &Vec<(u16, ObjectStatusData)>)
        ensures
            final(self).objects@ == added_objects(removed_objects(old(self).objects@, to_remove@), new_objects@),
            final(self).bullets == old(self).bullets,
    {
        let mut i: usize = 0;
        while i < to_remove.len()
            invariant
                i <= to_remove.len(),
                self.objects@ == removed_objects(old(self).objects@, to_remove@.take(i as int)),
                self.bullets == old(self).bullets,
            decreases to_remove.len() - i,
        {
            let _ = self.objects.remove(&to_remove[i].0);
            assert(to_remove@.take(i + 1).drop_last() =~= to_remove@.take(i as int));
            i += 1;
        }
        assert(to_remove@.take(to_remove.len() as int) =~= to_remove@);
        let ghost mid = self.objects@;
        let mut j: usize = 0;
        while j < new_objects.len()
            invariant
                j <= new_objects.len(),
                self.objects@ == added_objects(mid, new_objects@.take(j as int)),
                self.bullets == old(self).bullets,
            decreases new_objects.len() - j,
        {
            self.objects.insert(new_objects[j].1.object_id.0, new_objects[j].0);
            assert(new_objects@.take(j + 1).drop_last() =~= new_objects@.take(j as int));
            j += 1;
        }
        assert(new_objects@.take(new_objects.len() as int) =~= new_objects@);
    }

    /// An enemy shot `numshots` projectiles with consecutive ids from
    /// `first_id`. They are remembered if the shooter is visible and its
    /// projectile type is known; a visible shooter with an unknown projectile
    /// blocks the packet.
    pub fn add_bullet(
        &mut self,
        owner: ObjectId,
        first_id: u16,
        bullet_type: u8,
        numshots: u8,
        damage: i16,
        projectiles: &BTreeMap<u32, BTreeMap<u32, ProjectileInfo>>,
    ) -> (flow: PacketFlow)
        requires
            old(self).wf(),
            (old(self).objects@.get(owner.0) matches Some(t) && projectiles@.get(t as u32) matches Some(table)
                && table@.contains_key(bullet_type as u32)) ==> first_id + numshots <= u16::MAX + 1,
        ensures
            final(self).wf(),
            final(self).objects@ == old(self).objects@,
            match old(self).objects@.get(owner.0) {
                None => flow == PacketFlow::Forward && final(self).bullets == old(self).bullets,
                Some(t) => match projectiles@.get(t as u32) {
                    None => flow == PacketFlow::Block && final(self).bullets == old(self).bullets,
                    Some(table) => match table@.get(bullet_type as u32) {
                        None => flow == PacketFlow::Block && final(self).bullets == old(self).bullets,
                        Some(info) => flow == PacketFlow::Forward && (
                            bullet_entries(final(self).bullets),
                            bullet_order(final(self).bullets),
                        ) == put_shots(
                            bullet_entries(old(self).bullets),
                            bullet_order(old(self).bullets),
                            BULLET_CACHE_SIZE as nat,
                            owner.0,
                            first_id,
                            numshots as nat,
                            Bullet { damage, info },
                        ),
                    },
                },
            },
    {
        let object_type = match self.objects.get(&owner.0) {
            Some(t) => *t,
            None => return PacketFlow::Forward,
        };
        let table = match projectiles.get(&(object_type as u32)) {
            Some(t) => t,
            None => return PacketFlow::Block,
        };
        let info = match table.get(&(bullet_type as u32)) {
            Some(i) => *i,
            None => return PacketFlow::Block,
        };
        let b = Bullet { damage, info };
        let mut i: u16 = 0;
        while i < numshots as u16
            invariant
                0 <= i <= numshots,
                first_id + numshots <= u16::MAX + 1,
                bullet_capacity(self.bullets) == BULLET_CACHE_SIZE,
                self.objects@ == old(self).objects@,
                (bullet_entries(self.bullets), bullet_order(self.bullets)) == put_shots(
                    bullet_entries(old(self).bullets),
                    bullet_order(old(self).bullets),
                    BULLET_CACHE_SIZE as nat,
                    owner.0,
                    first_id,
                    i as nat,
                    b,
                ),
            decreases numshots - i,
        {
            put_bullet(&mut self.bullets, key_of(owner.0, first_id + i), b);
            i += 1;
        }
        PacketFlow::Forward
    }

    /// The player says a projectile hit: it is forgotten, and its damage
    /// computed from the current stats.
    pub fn player_hit(&mut self, bullet: ProjectileId, current: &TickStats) -> (r: Hit)
        requires
            old(self).wf(),
            bullet_entries(old(self).bullets).get(bullet_key(bullet.owner_id.0, bullet.id)) matches Some(b)
                ==> damage_fits(b.damage as int, b.info.armor_piercing, current.stats.def as int, current.conditions, current.conditions2)
                && fits_i64(bullet_damage(b.damage as int, b.info.armor_piercing, current.stats.def as int, current.conditions, current.conditions2)),
        ensures
            final(self).wf(),
            final(self).objects@ == old(self).objects@,
            bullet_entries(final(self).bullets) == bullet_entries(old(self).bullets).remove(bullet_key(bullet.owner_id.0, bullet.id)),
            bullet_order(final(self).bullets) == bullet_order(old(self).bullets).remove_value(bullet_key(bullet.owner_id.0, bullet.id)),
            match bullet_entries(old(self).bullets).get(bullet_key(bullet.owner_id.0, bullet.id)) {
                None => r is UnknownBullet,
                Some(b) => if has_flag(current.conditions.bitmask, INVULNERABLE) {
                    r is Invulnerable
                } else {
                    r == Hit::Damage(bullet_damage(
                        b.damage as int,
                        b.info.armor_piercing,
                        current.stats.def as int,
                        current.conditions,
                        current.conditions2,
                    ) as i64)
                },
            },
    {
        let b = match pop_bullet(&mut self.bullets, key_of(bullet.owner_id.0, bullet.id)) {
            Some(b) => b,
            None => return Hit::UnknownBullet,
        };
        if current.conditions.invulnerable() {
            return Hit::Invulnerable;
        }
        Hit::Damage(projectile_damage(b.damage, b.info.armor_piercing, current))
    }
}


/// Law: a projectile just put in the cache is found there with its value, it
/// becomes the most recently used, and the cache holds no more keys than its
/// capacity (when its keys and its order agree, as the cache keeps them).
pub proof fn law_put_then_get(m: Map<u64, Bullet>, o: Seq<u64>, cap: nat, k: u64, v: Bullet)
    requires
        cap > 0,
        o.len() <= cap,
        m.contains_key(k) ==> o.contains(k),
    ensures
        lru_put(m, o, cap, k, v).0.get(k) == Some(v),
        lru_put(m, o, cap, k, v).1.len() <= cap,
        lru_put(m, o, cap, k, v).1[0] == k,
{
    if m.contains_key(k) {
        o.index_of_first_ensures(k);
    }
}
} // verus!
