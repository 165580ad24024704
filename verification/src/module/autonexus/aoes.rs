//! Area attacks, queued by the tick in which they happened until the client
//! acknowledges that tick.

use vstd::prelude::*;
use std::collections::VecDeque;

verus! {

/// The first list holds the area attacks of the oldest tick that the client
/// did not acknowledge yet; the next, of the tick after it; and so on.
pub struct AOEs<T> {
    pub aoes: VecDeque<Vec<T>>,
}

/// A call that changes the queue.
pub enum AoeOp<T> {
    /// `add_aoe` with this attack.
    Add(T),
    /// `flush`: the server sent a new tick.
    Flush,
    /// `take_acknowledged`: the client acknowledged a tick.
    Take,
}

/// How a call changes the lists of the queue.
pub open spec fn aoe_step<T>(before: Seq<Vec<T>>, after: Seq<Vec<T>>, op: AoeOp<T>) -> bool {
    match op {
        AoeOp::Add(aoe) => {
            &&& after.len() == before.len()
            &&& after.drop_last() == before.drop_last()
            &&& after.last()@ == before.last()@.push(aoe)
        },
        AoeOp::Flush => {
            &&& after.len() == before.len() + 1
            &&& after.drop_last() == before
            &&& after.last()@ == Seq::<T>::empty()
        },
        AoeOp::Take => if before.len() == 0 {
            after == before
        } else {
            after == before.drop_first()
        },
    }
}

/// The number of new ticks among the calls.
pub open spec fn flushes<T>(ops: Seq<AoeOp<T>>) -> int
    decreases ops.len(),
{
    if ops.len() == 0 {
        0
    } else {
        flushes(ops.drop_last()) + if ops.last() is Flush { 1int } else { 0int }
    }
}

/// The number of acknowledged ticks among the calls.
pub open spec fn takes<T>(ops: Seq<AoeOp<T>>) -> int
    decreases ops.len(),
{
    if ops.len() == 0 {
        0
    } else {
        takes(ops.drop_last()) + if ops.last() is Take { 1int } else { 0int }
    }
}

/// Law: from a new queue, through any calls in which the client never has
/// acknowledged more ticks than the server sent, the queue holds one list
/// more than the ticks sent and not yet acknowledged, so it never runs empty:
/// each acknowledgement finds a list, and an attack always has a list to go to.
pub proof fn law_aoe_queue_len<T>(states: Seq<Seq<Vec<T>>>, ops: Seq<AoeOp<T>>)
    requires
        states.len() == ops.len() + 1,
        states[0].len() == 1,
        forall|i: int| 0 <= i < ops.len() ==> aoe_step(states[i], states[i + 1], #[trigger] ops[i]),
        forall|k: int| 0 <= k <= ops.len() ==> takes(#[trigger] ops.take(k)) <= flushes(ops.take(k)),
    ensures
        forall|k: int| 0 <= k <= ops.len() ==> (#[trigger] states[k]).len() == 1 + flushes(ops.take(k)) - takes(ops.take(k)),
        forall|k: int| 0 <= k <= ops.len() ==> (#[trigger] states[k]).len() >= 1,
    decreases ops.len(),
{
    if ops.len() > 0 {
        let n = ops.len() - 1;
        let ps = states.drop_last();
        let po = ops.drop_last();
        assert forall|i: int| 0 <= i < po.len() implies aoe_step(ps[i], ps[i + 1], #[trigger] po[i]) by {
            assert(po[i] == ops[i]);
            assert(aoe_step(states[i], states[i + 1], ops[i]));
        }
        assert forall|k: int| 0 <= k <= po.len() implies takes(#[trigger] po.take(k)) <= flushes(po.take(k)) by {
            assert(po.take(k) =~= ops.take(k));
        }
        law_aoe_queue_len(ps, po);
        assert(ops.take(n + 1) =~= ops);
        assert(ops.take(n + 1).drop_last() =~= ops.take(n));
        assert(po.take(n) =~= ops.take(n));
        assert(ps[n] == states[n]);
        assert(aoe_step(states[n], states[n + 1], ops[n]));
        assert(takes(ops.take(n + 1)) <= flushes(ops.take(n + 1)));
        assert forall|k: int| 0 <= k <= ops.len() implies (#[trigger] states[k]).len() == 1 + flushes(ops.take(k)) - takes(ops.take(k)) by {
            if k <= n {
                assert(po.take(k) =~= ops.take(k));
                assert(ps[k] == states[k]);
                assert(ps[k].len() == 1 + flushes(po.take(k)) - takes(po.take(k)));
            }
        }
    } else {
        assert(ops.take(0) =~= ops);
    }
}

impl<T> AOEs<T> {
    /// One empty list, for the current tick.
    pub fn new() -> (r: Self)
        ensures
            r.aoes@.len() == 1,
            r.aoes@[0]@ == Seq::<T>::empty(),
    {
        let mut aoes = VecDeque::new();
        aoes.push_back(Vec::new());
        AOEs { aoes }
    }

    /// An area attack happened in the newest tick.
    pub fn add_aoe(&mut self, aoe: T)
        requires
            old(self).aoes@.len() >= 1,
        ensures
            aoe_step(old(self).aoes@, final(self).aoes@, AoeOp::Add(aoe)),
    {
        let mut last = self.aoes.pop_back().unwrap();
        last.push(aoe);
        self.aoes.push_back(last);
        assert(self.aoes@.drop_last() =~= old(self).aoes@.drop_last());
    }

    /// The server sent a new tick: its area attacks go to a new list.
    pub fn flush(&mut self)
        ensures
            aoe_step(old(self).aoes@, final(self).aoes@, AoeOp::<T>::Flush),
    {
        self.aoes.push_back(Vec::new());
        assert(self.aoes@.drop_last() =~= old(self).aoes@);
    }

    /// The client acknowledged a tick: its area attacks are taken out, to be
    /// checked against the player's position. `None` if the client
    /// acknowledged more ticks than the server sent.
    pub fn take_acknowledged(&mut self) -> (r: Option<Vec<T>>)
        ensures
            aoe_step(old(self).aoes@, final(self).aoes@, AoeOp::<T>::Take),
            old(self).aoes@.len() == 0 ==> r is None,
            old(self).aoes@.len() > 0 ==> r == Some(old(self).aoes@[0]),
    {
        self.aoes.pop_front()
    }
}

} // verus!
