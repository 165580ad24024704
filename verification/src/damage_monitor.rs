//! The damage reports that the damage monitor shows, as plain values, and
//! the store that keeps the live pages and the reports of earlier dungeons.
//! Rendering them as HTML and serving them is left to the program around
//! the library.

use vstd::prelude::*;
use std::collections::BTreeMap;
use std::collections::hash_map::RandomState;
use lru::LruCache;
use crate::module::con::{lowercase, to_lowercase};
use crate::text::{contains_str, has_substring};

verus! {

/// The report of one dungeon.
pub struct Report {
    pub map_name: String,
    pub time: String,
    pub enemy_tabs: Vec<EnemyTab>,
    /// Item id to its sprite, base64.
    pub all_items: BTreeMap<u32, Option<String>>,
    /// Enemy object type to its sprite, base64.
    pub all_enemies: BTreeMap<u32, Option<String>>,
}

/// The damage dealt to one enemy.
pub struct EnemyTab {
    pub name: String,
    pub object_id: u32,
    pub total_damage: i64,
    pub players: Vec<PlayerRow>,
}

/// One player's damage to an enemy.
pub struct PlayerRow {
    pub name: String,
    pub is_self: bool,
    pub status: char,
    pub damage: i64,
    pub damage_percent: String,
    pub items: [Option<PlayerItem>; 4],
}

/// An item that a player wore.
pub struct PlayerItem {
    pub id: u32,
    pub name: String,
    pub enchantments: Vec<String>,
}


/// How many live pages are kept.
pub const LIVE_PAGES: usize = 15;

/// A cache of pages: each page under its id, with the lower-case name of its
/// map.
pub type PageCache = LruCache<usize, (String, Report), RandomState>;

/// The ids of the pages in a cache, from the most recently used to the least.
pub uninterp spec fn page_order(c: LruCache<usize, (String, Report), RandomState>) -> Seq<usize>;

/// The lower-case map name of each page in a cache, by id.
pub uninterp spec fn page_names(c: LruCache<usize, (String, Report), RandomState>) -> Map<usize, Seq<char>>;

/// The capacity that a cache was made with.
pub uninterp spec fn page_capacity(c: LruCache<usize, (String, Report), RandomState>) -> nat;

/// A cache after `put` of a new id: the page is added as the most recently
/// used and, when the cache is full, the least recently used one leaves.
/// (An id that is there already is replaced and moved to the front.)
pub open spec fn page_put(m: Map<usize, Seq<char>>, o: Seq<usize>, cap: nat, k: usize, name: Seq<char>) -> (Map<usize, Seq<char>>, Seq<usize>) {
    if m.contains_key(k) {
        (m.insert(k, name), seq![k] + o.remove_value(k))
    } else if o.len() < cap {
        (m.insert(k, name), seq![k] + o)
    } else {
        (m.remove(o.last()).insert(k, name), seq![k] + o.drop_last())
    }
}

/// Calls `lru::LruCache::with_hasher` with a capacity and std's hasher: an
/// empty cache.
#[verifier::external_body]
fn new_page_cache(cap: usize) -> (c: PageCache)
    requires
        cap > 0,
    ensures
        forall|k: usize| !page_names(c).contains_key(k),
        page_order(c).len() == 0,
        page_capacity(c) == cap,
{
    LruCache::with_hasher(std::num::NonZeroUsize::new(cap).unwrap(), RandomState::new())
}

/// Calls `lru::LruCache::put`: the page is set under its id and becomes the
/// most recently used; a new id in a full cache pushes out the least
/// recently used page.
#[verifier::external_body]
fn put_page(c: &mut PageCache, k: usize, name: String, page: Report)
    ensures
        (page_names(*final(c)), page_order(*final(c))) == page_put(
            page_names(*old(c)),
            page_order(*old(c)),
            page_capacity(*old(c)),
            k,
            name@,
        ),
        page_capacity(*final(c)) == page_capacity(*old(c)),
{
    c.put(k, (name, page));
}

/// Calls `lru::LruCache::contains`: whether a page has the id (the order of
/// use does not change).
#[verifier::external_body]
fn has_page(c: &PageCache, k: usize) -> (r: bool)
    ensures
        r == page_names(*c).contains_key(k),
{
    c.contains(&k)
}

/// Calls `lru::LruCache::iter` and keeps each page's id and name: the pages
/// from the most recently used to the least.
#[verifier::external_body]
fn pages_by_use(c: &PageCache) -> (r: Vec<(usize, String)>)
    ensures
        r@.len() == page_order(*c).len(),
        forall|i: int| 0 <= i < r@.len() ==> r@[i].0 == page_order(*c)[i]
            && r@[i].1@ == page_names(*c)[page_order(*c)[i]],
{
    c.iter().map(|(k, v)| (*k, v.0.clone())).collect()
}

/// The pages of the damage monitor: the live pages of the current dungeon,
/// and the final reports of earlier ones. Each report gets the next id of
/// its kind.
pub struct DamageMonitorHttp {
    pub live_counter: usize,
    pub memory_counter: usize,
    pub live_pages: PageCache,
    /// `None` where no earlier dungeon is kept.
    pub memory: Option<PageCache>,
}

/// The id of the first page, from the most recently used on, whose map name
/// holds `pat`.
pub open spec fn first_named(order: Seq<usize>, names: Map<usize, Seq<char>>, pat: Seq<char>) -> Option<usize>
    decreases order.len(),
{
    if order.len() == 0 {
        None
    } else if has_substring(names[order[0]], pat) {
        Some(order[0])
    } else {
        first_named(order.drop_first(), names, pat)
    }
}

impl DamageMonitorHttp {
    /// Every kept page has an id below the counter of its kind, so the next
    /// id is new.
    pub open spec fn wf(&self) -> bool {
        &&& forall|k: usize| #[trigger] page_names(self.live_pages).contains_key(k) ==> k < self.live_counter
        &&& self.memory matches Some(m) ==> forall|k: usize| #[trigger] page_names(m).contains_key(k) ==> k < self.memory_counter
    }

    /// An empty store that keeps `LIVE_PAGES` live pages and `keep_memory`
    /// earlier reports (none for 0: only the current dungeon is kept).
    pub fn new(keep_memory: u32) -> (r: Self)
        ensures
            r.wf(),
            r.live_counter == 0,
            r.memory_counter == 0,
            page_capacity(r.live_pages) == LIVE_PAGES,
            page_order(r.live_pages).len() == 0,
            forall|k: usize| !page_names(r.live_pages).contains_key(k),
            r.memory is None <==> keep_memory == 0,
            r.memory matches Some(m) ==> page_capacity(m) == keep_memory && page_order(m).len() == 0
                && forall|k: usize| !page_names(m).contains_key(k),
    {
        let memory = if keep_memory == 0 {
            None
        } else {
            Some(new_page_cache(keep_memory as usize))
        };
        DamageMonitorHttp { live_counter: 0, memory_counter: 0, live_pages: new_page_cache(LIVE_PAGES), memory }
    }

    /// Keeps the final report of a dungeon under the next id, with its map
    /// name in lower case.
    pub fn add_final_report(&mut self, page: Report)
        requires
            old(self).wf(),
            old(self).memory_counter < usize::MAX,
        ensures
            final(self).wf(),
            final(self).memory_counter == old(self).memory_counter + 1,
            final(self).live_counter == old(self).live_counter,
            final(self).live_pages == old(self).live_pages,
            final(self).memory is Some == old(self).memory is Some,
            old(self).memory matches Some(m) ==> !page_names(m).contains_key(old(self).memory_counter),
            old(self).memory matches Some(m) ==> (final(self).memory matches Some(n)
                && (page_names(n), page_order(n)) == page_put(
                    page_names(m),
                    page_order(m),
                    page_capacity(m),
                    old(self).memory_counter,
                    lowercase(page.map_name@),
                )
                && page_capacity(n) == page_capacity(m)),
    {
        let id = self.memory_counter;
        self.memory_counter = id + 1;
        let name = to_lowercase(page.map_name.as_str());
        match &mut self.memory {
            Some(m) => put_page(m, id, name, page),
            None => {},
        }
    }

    /// Keeps a live page under the next id, with its map name in lower case,
    /// and returns the id.
    pub fn add_live_report(&mut self, page: Report) -> (id: usize)
        requires
            old(self).wf(),
            old(self).live_counter < usize::MAX,
        ensures
            final(self).wf(),
            !page_names(old(self).live_pages).contains_key(id),
            id == old(self).live_counter,
            final(self).live_counter == old(self).live_counter + 1,
            final(self).memory_counter == old(self).memory_counter,
            final(self).memory == old(self).memory,
            (page_names(final(self).live_pages), page_order(final(self).live_pages)) == page_put(
                page_names(old(self).live_pages),
                page_order(old(self).live_pages),
                page_capacity(old(self).live_pages),
                id,
                lowercase(page.map_name@),
            ),
            page_capacity(final(self).live_pages) == page_capacity(old(self).live_pages),
    {
        let id = self.live_counter;
        self.live_counter = id + 1;
        let name = to_lowercase(page.map_name.as_str());
        put_page(&mut self.live_pages, id, name, page);
        id
    }

    /// The id of the most recently used earlier report whose map name holds
    /// `substr`, letters compared in lower case.
    pub fn find_memory_by_name(&self, substr: &str) -> (r: Option<usize>)
        ensures
            r == (match self.memory {
                None => None,
                Some(m) => first_named(page_order(m), page_names(m), lowercase(substr@)),
            }),
    {
        let m = match &self.memory {
            None => return None,
            Some(m) => m,
        };
        let pat = to_lowercase(substr);
        let pages = pages_by_use(m);
        let ghost order = page_order(*m);
        let ghost names = page_names(*m);
        let mut i: usize = 0;
        assert(order.skip(0) =~= order);
        while i < pages.len()
            invariant
                i <= pages@.len(),
                pages@.len() == order.len(),
                forall|j: int| 0 <= j < pages@.len() ==> pages@[j].0 == order[j] && pages@[j].1@ == names[order[j]],
                first_named(order, names, pat@) == first_named(order.skip(i as int), names, pat@),
                pat@ == lowercase(substr@),
                self.memory matches Some(mm) && page_order(mm) == order && page_names(mm) == names,
            decreases pages.len() - i,
        {
            assert(order.skip(i as int).drop_first() =~= order.skip(i + 1));
            assert(order.skip(i as int)[0] == order[i as int]);
            if contains_str(pages[i].1.as_str(), pat.as_str()) {
                assert(first_named(order.skip(i as int), names, pat@) == Some(order[i as int]));
                return Some(pages[i].0);
            }
            i += 1;
        }
        assert(order.skip(i as int) =~= Seq::<usize>::empty());
        None
    }

    /// The id of the earlier report `offset` places back from the next id,
    /// if it is still kept.
    pub fn find_memory_by_offset(&self, offset: usize) -> (r: Option<usize>)
        ensures
            r == (match self.memory {
                Some(m) => if offset <= self.memory_counter
                    && page_names(m).contains_key((self.memory_counter - offset) as usize) {
                    Some((self.memory_counter - offset) as usize)
                } else {
                    None
                },
                None => None,
            }),
    {
        let m = match &self.memory {
            None => return None,
            Some(m) => m,
        };
        if offset > self.memory_counter {
            return None;
        }
        let index = self.memory_counter - offset;
        if has_page(m, index) {
            Some(index)
        } else {
            None
        }
    }
}


/// Law: a page put under a new id is found under it, with its name, and is
/// the most recently used; the cache keeps no more pages than its capacity.
pub proof fn law_page_put_found(m: Map<usize, Seq<char>>, o: Seq<usize>, cap: nat, k: usize, name: Seq<char>)
    requires
        cap > 0,
        o.len() <= cap,
        !m.contains_key(k),
    ensures
        page_put(m, o, cap, k, name).0.get(k) == Some(name),
        page_put(m, o, cap, k, name).1[0] == k,
        page_put(m, o, cap, k, name).1.len() <= cap,
{
}
} // verus!
