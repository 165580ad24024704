//! Finding an object's status in a packet, and a stat of some kind in a status.

use vstd::prelude::*;
use super::ObjectId;
use super::object_status_data::{ObjectStatusData, ObjectStatusView};
use super::statdata::{StatData, StatDataView, StatType};

verus! {

/// Whether `i` is the first status in `s` that belongs to object `id`.
pub open spec fn is_first_status(s: Seq<ObjectStatusView>, id: u32, i: int) -> bool {
    &&& 0 <= i < s.len()
    &&& s[i].object_id == id
    &&& forall|j: int| 0 <= j < i ==> s[j].object_id != id
}

/// The index of the first status in `s` that belongs to object `id`, if any.
pub open spec fn first_status(s: Seq<ObjectStatusView>, id: u32) -> Option<int> {
    if exists|i: int| is_first_status(s, id, i) {
        Some(choose|i: int| is_first_status(s, id, i))
    } else {
        None
    }
}

/// The first index is unique, and there is one whenever some status belongs to `id`.
pub proof fn lemma_first_status(s: Seq<ObjectStatusView>, id: u32, i: int)
    ensures
        is_first_status(s, id, i) ==> first_status(s, id) == Some(i),
        first_status(s, id) is None ==> forall|j: int| 0 <= j < s.len() ==> s[j].object_id != id,
{
    if is_first_status(s, id, i) {
        let k = choose|k: int| is_first_status(s, id, k);
        assert(k == i);
    }
    if first_status(s, id) is None {
        assert forall|j: int| 0 <= j < s.len() implies s[j].object_id != id by {
            if s[j].object_id == id {
                lemma_earliest(s, id, j);
            }
        }
    }
}

/// Below a matching index there is a first match.
proof fn lemma_earliest(s: Seq<ObjectStatusView>, id: u32, k: int)
    requires
        0 <= k < s.len(),
        s[k].object_id == id,
    ensures
        exists|i: int| is_first_status(s, id, i),
    decreases k,
{
    if exists|j: int| 0 <= j < k && s[j].object_id == id {
        let j = choose|j: int| 0 <= j < k && s[j].object_id == id;
        lemma_earliest(s, id, j);
    } else {
        assert(is_first_status(s, id, k));
    }
}

/// The views of a list of statuses.
pub open spec fn statuses_view(v: Seq<ObjectStatusData>) -> Seq<ObjectStatusView> {
    v.map_values(|st: ObjectStatusData| st@)
}

/// The position of the first status that belongs to object `id`, as
/// `NewTick::get_status_of` finds it.
pub fn find_status(statuses: &Vec<ObjectStatusData>, id: ObjectId) -> (r: Option<usize>)
    ensures
        match r {
            Some(i) => first_status(statuses_view(statuses@), id.0) == Some(i as int),
            None => first_status(statuses_view(statuses@), id.0) is None,
        },
{
    let ghost s = statuses_view(statuses@);
    let mut i: usize = 0;
    while i < statuses.len()
        invariant
            s == statuses_view(statuses@),
            i <= statuses.len(),
            forall|j: int| 0 <= j < i ==> s[j].object_id != id.0,
        decreases statuses.len() - i,
    {
        if statuses[i].object_id.0 == id.0 {
            proof {
                assert(is_first_status(s, id.0, i as int));
                lemma_first_status(s, id.0, i as int);
            }
            return Some(i);
        }
        i += 1;
    }
    proof {
        if first_status(s, id.0) is Some {
            let k = choose|k: int| is_first_status(s, id.0, k);
            assert(s[k].object_id == id.0);
        }
    }
    None
}

/// The statuses of the objects that an update adds, each with its object type.
pub open spec fn new_objects_view(v: Seq<(u16, ObjectStatusData)>) -> Seq<ObjectStatusView> {
    v.map_values(|o: (u16, ObjectStatusData)| o.1@)
}

/// The position of the first added object that is object `id`.
pub fn find_new_object(objects: &Vec<(u16, ObjectStatusData)>, id: ObjectId) -> (r: Option<usize>)
    ensures
        match r {
            Some(i) => first_status(new_objects_view(objects@), id.0) == Some(i as int),
            None => first_status(new_objects_view(objects@), id.0) is None,
        },
{
    let ghost s = new_objects_view(objects@);
    let mut i: usize = 0;
    while i < objects.len()
        invariant
            s == new_objects_view(objects@),
            i <= objects.len(),
            forall|j: int| 0 <= j < i ==> s[j].object_id != id.0,
        decreases objects.len() - i,
    {
        if objects[i].1.object_id.0 == id.0 {
            proof {
                assert(is_first_status(s, id.0, i as int));
                lemma_first_status(s, id.0, i as int);
            }
            return Some(i);
        }
        i += 1;
    }
    proof {
        if first_status(s, id.0) is Some {
            let k = choose|k: int| is_first_status(s, id.0, k);
            assert(s[k].object_id == id.0);
        }
    }
    None
}


/// Whether `i` is the first stat of kind `t` in `s`.
pub open spec fn is_first_stat(s: Seq<StatDataView>, t: StatType, i: int) -> bool {
    &&& 0 <= i < s.len()
    &&& s[i].stat_type == t
    &&& forall|j: int| 0 <= j < i ==> s[j].stat_type != t
}

/// The index of the first stat of kind `t` in `s`, if any.
pub open spec fn first_stat(s: Seq<StatDataView>, t: StatType) -> Option<int> {
    if exists|i: int| is_first_stat(s, t, i) {
        Some(choose|i: int| is_first_stat(s, t, i))
    } else {
        None
    }
}

proof fn lemma_earliest_stat(s: Seq<StatDataView>, t: StatType, k: int)
    requires
        0 <= k < s.len(),
        s[k].stat_type == t,
    ensures
        exists|i: int| is_first_stat(s, t, i),
    decreases k,
{
    if exists|j: int| 0 <= j < k && s[j].stat_type == t {
        let j = choose|j: int| 0 <= j < k && s[j].stat_type == t;
        lemma_earliest_stat(s, t, j);
    } else {
        assert(is_first_stat(s, t, k));
    }
}

/// The first index is unique, and there is one whenever a stat of kind `t` is there.
pub proof fn lemma_first_stat(s: Seq<StatDataView>, t: StatType, i: int)
    ensures
        is_first_stat(s, t, i) ==> first_stat(s, t) == Some(i),
        first_stat(s, t) is None ==> forall|j: int| 0 <= j < s.len() ==> s[j].stat_type != t,
{
    if is_first_stat(s, t, i) {
        let k = choose|k: int| is_first_stat(s, t, k);
        assert(k == i);
    }
    if first_stat(s, t) is None {
        assert forall|j: int| 0 <= j < s.len() implies s[j].stat_type != t by {
            if s[j].stat_type == t {
                lemma_earliest_stat(s, t, j);
            }
        }
    }
}

/// The views of a list of stats.
pub open spec fn stats_view(v: Seq<StatData>) -> Seq<StatDataView> {
    v.map_values(|st: StatData| st@)
}

/// The position of the first stat of kind `t`.
pub fn find_stat(stats: &Vec<StatData>, t: StatType) -> (r: Option<usize>)
    ensures
        match r {
            Some(i) => first_stat(stats_view(stats@), t) == Some(i as int),
            None => first_stat(stats_view(stats@), t) is None,
        },
{
    let ghost s = stats_view(stats@);
    let mut i: usize = 0;
    while i < stats.len()
        invariant
            s == stats_view(stats@),
            i <= stats.len(),
            forall|j: int| 0 <= j < i ==> s[j].stat_type != t,
        decreases stats.len() - i,
    {
        if stats[i].stat_type == t {
            proof {
                assert(is_first_stat(s, t, i as int));
                lemma_first_stat(s, t, i as int);
            }
            return Some(i);
        }
        i += 1;
    }
    proof {
        if first_stat(s, t) is Some {
            let k = choose|k: int| is_first_stat(s, t, k);
            assert(s[k].stat_type == t);
        }
    }
    None
}


} // verus!
