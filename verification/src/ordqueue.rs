//! The receiving side of a channel that hands items on in the order of
//! the indices that they were sent with, whatever order they arrive in.

use vstd::prelude::*;

verus! {

/// Items that have arrived and are waiting for their turn.
pub struct OrdQueueIter<T> {
    /// The index whose turn it is.
    pub next_index: usize,
    pub receive_buffer: Vec<(usize, T)>,
}

/// The place of the least index among the first `n` waiting items.
pub open spec fn is_least_of<T>(buffer: Seq<(usize, T)>, n: int, at: int) -> bool {
    &&& 0 <= at < n
    &&& forall|k: int| 0 <= k < n ==> buffer[at].0 <= (#[trigger] buffer[k]).0
}

/// An empty queue, in which it is the turn of index 0.
pub fn new<T>() -> (q: OrdQueueIter<T>)
    ensures
        q.next_index == 0,
        q.receive_buffer@.len() == 0,
{
    OrdQueueIter { next_index: 0, receive_buffer: Vec::new() }
}

impl<T> OrdQueueIter<T> {
    /// Some item is waiting whose turn it is.
    pub open spec fn is_ready(&self) -> bool {
        exists|k: int|
            0 <= k < self.receive_buffer@.len() && (#[trigger] self.receive_buffer@[k]).0
                == self.next_index
    }

    /// No item is waiting whose turn has passed.
    pub open spec fn in_order(&self) -> bool {
        forall|k: int|
            0 <= k < self.receive_buffer@.len() ==> (#[trigger] self.receive_buffer@[k]).0
                >= self.next_index
    }

    fn least(&self) -> (at: usize)
        requires
            self.receive_buffer@.len() > 0,
        ensures
            is_least_of(self.receive_buffer@, self.receive_buffer@.len() as int, at as int),
    {
        let mut at: usize = 0;
        let mut k: usize = 1;
        while k < self.receive_buffer.len()
            invariant
                1 <= k <= self.receive_buffer.len(),
                is_least_of(self.receive_buffer@, k as int, at as int),
            decreases self.receive_buffer.len() - k,
        {
            if self.receive_buffer[k].0 < self.receive_buffer[at].0 {
                at = k;
            }
            k += 1;
        }
        at
    }

    /// Whether more has to arrive before an item can be handed on: none
    /// of the waiting items has its turn.
    pub fn wants_more(&self) -> (more: bool)
        requires
            self.in_order(),
        ensures
            more == !self.is_ready(),
    {
        if self.receive_buffer.len() == 0 {
            return true;
        }
        let at = self.least();
        let more = self.receive_buffer[at].0 != self.next_index;
        proof {
            if !more {
                assert(self.receive_buffer@[at as int].0 == self.next_index);
            }
        }
        more
    }

    /// Takes in an item that has arrived with its index.
    pub fn push(&mut self, index: usize, item: T)
        ensures
            final(self).next_index == old(self).next_index,
            final(self).receive_buffer@ == old(self).receive_buffer@.push((index, item)),
            old(self).in_order() && index >= old(self).next_index ==> final(self).in_order(),
    {
        self.receive_buffer.push((index, item));
    }

    /// Hands on the waiting item with the least index, and gives the turn
    /// to the index after the one whose turn it was. Where an item was
    /// ready, it is the item whose turn it was, so that items leave in the
    /// order of their indices whatever order they arrived in. Where none
    /// is waiting, none is handed on.
    pub fn pop(&mut self) -> (res: Option<T>)
        requires
            old(self).next_index < usize::MAX,
        ensures
            res is Some <==> old(self).receive_buffer@.len() > 0,
            res is None ==> *final(self) == *old(self),
            res matches Some(item) ==> exists|at: int|
                {
                    &&& #[trigger] is_least_of(
                        old(self).receive_buffer@,
                        old(self).receive_buffer@.len() as int,
                        at,
                    )
                    &&& old(self).receive_buffer@[at].1 == item
                    &&& final(self).receive_buffer@ == old(self).receive_buffer@.remove(at)
                    &&& final(self).next_index == old(self).next_index + 1
                    &&& (old(self).is_ready() && old(self).in_order() ==> old(
                        self,
                    ).receive_buffer@[at].0 == old(self).next_index)
                },
    {
        if self.receive_buffer.len() == 0 {
            return None;
        }
        let at = self.least();
        let (_, item) = self.receive_buffer.remove(at);
        self.next_index += 1;
        assert(is_least_of(
            old(self).receive_buffer@,
            old(self).receive_buffer@.len() as int,
            at as int,
        ));
        Some(item)
    }
}

/// Items whose indices differ stay in order once one has left in its
/// turn: none of those that wait has the turn that has passed.
pub proof fn lemma_pop_keeps_order<T>(buffer: Seq<(usize, T)>, next_index: usize, at: int)
    requires
        is_least_of(buffer, buffer.len() as int, at),
        buffer[at].0 == next_index,
        forall|i: int, j: int|
            0 <= i < buffer.len() && 0 <= j < buffer.len() && i != j ==> (#[trigger] buffer[i]).0
                != (#[trigger] buffer[j]).0,
    ensures
        forall|k: int|
            0 <= k < buffer.remove(at).len() ==> (#[trigger] buffer.remove(at)[k]).0 > next_index,
{
    assert forall|k: int| 0 <= k < buffer.remove(at).len() implies (#[trigger] buffer.remove(
        at,
    )[k]).0 > next_index by {
        let j = if k < at {
            k
        } else {
            k + 1
        };
        assert(buffer.remove(at)[k] == buffer[j]);
        assert(buffer[at].0 <= buffer[j].0);
        assert(buffer[at].0 != buffer[j].0);
    }
}

/// The items arrive with the indices from 0 up to their number, each
/// index once, in whatever order.
pub open spec fn is_schedule<T>(arrivals: Seq<(usize, T)>) -> bool {
    &&& forall|p: int| 0 <= p < arrivals.len() ==> (#[trigger] arrivals[p]).0 < arrivals.len()
    &&& forall|p: int, q: int|
        0 <= p < arrivals.len() && 0 <= q < arrivals.len() && p != q ==> (#[trigger] arrivals[p]).0
            != (#[trigger] arrivals[q]).0
    &&& forall|j: int| 0 <= j < arrivals.len() ==> #[trigger] has_index(arrivals, j)
}

/// Some item arrives with the index `j`.
pub open spec fn has_index<T>(arrivals: Seq<(usize, T)>, j: int) -> bool {
    exists|p: int| 0 <= p < arrivals.len() && (#[trigger] arrivals[p]).0 == j
}

/// The items of a vector from the last to the first.
fn turned_round<T>(items: Vec<T>) -> (turned: Vec<T>)
    ensures
        turned.len() == items.len(),
        forall|j: int| 0 <= j < turned.len() ==> turned@[j] == items@[items.len() - 1 - j],
{
    let ghost all = items@;
    let mut left = items;
    let mut turned: Vec<T> = Vec::new();
    while left.len() > 0
        invariant
            left.len() + turned.len() == all.len(),
            left@ == all.subrange(0, left.len() as int),
            forall|j: int| 0 <= j < turned.len() ==> turned@[j] == all[all.len() - 1 - j],
        decreases left.len(),
    {
        let ghost before = left@;
        let item = left.pop().unwrap();
        assert(item == all[left.len() as int]) by {
            assert(before[before.len() - 1] == all.subrange(0, before.len() as int)[before.len()
                - 1]);
        }
        assert(left@ =~= all.subrange(0, left.len() as int));
        turned.push(item);
    }
    turned
}

/// The item is one of the first `k` that arrive.
pub open spec fn has_arrived<T>(arrivals: Seq<(usize, T)>, k: int, x: (usize, T)) -> bool {
    exists|p: int| 0 <= p < k && #[trigger] arrivals[p] == x
}

/// The item is among those that wait.
pub open spec fn is_waiting<T>(buffer: Seq<(usize, T)>, x: (usize, T)) -> bool {
    exists|b: int| 0 <= b < buffer.len() && #[trigger] buffer[b] == x
}

/// The item at place `j` of what was handed on is the one of the first `k`
/// arrivals that came with the index `j`.
pub open spec fn is_handed_on<T>(arrivals: Seq<(usize, T)>, k: int, out: Seq<T>, j: int) -> bool {
    exists|p: int| 0 <= p < k && (#[trigger] arrivals[p]).0 == j && arrivals[p].1 == out[j]
}

/// No two of the waiting items have the same index.
pub open spec fn has_distinct_indices<T>(buffer: Seq<(usize, T)>) -> bool {
    forall|a: int, b: int|
        0 <= a < buffer.len() && 0 <= b < buffer.len() && a != b ==> (#[trigger] buffer[a]).0 != (
        #[trigger] buffer[b]).0
}

/// What holds of the queue between the arrivals: the items handed on are
/// those with the indices whose turn has passed, and the items that wait
/// are the others that have arrived.
pub open spec fn is_reordering<T>(
    arrivals: Seq<(usize, T)>,
    k: int,
    queue: &OrdQueueIter<T>,
    out: Seq<T>,
) -> bool {
    &&& queue.in_order()
    &&& queue.next_index == out.len()
    &&& out.len() + queue.receive_buffer@.len() <= k
    &&& has_distinct_indices(queue.receive_buffer@)
    &&& forall|j: int| 0 <= j < out.len() ==> #[trigger] is_handed_on(arrivals, k, out, j)
    &&& forall|b: int|
        0 <= b < queue.receive_buffer@.len() ==> has_arrived(
            arrivals,
            k,
            #[trigger] queue.receive_buffer@[b],
        )
    &&& forall|p: int|
        0 <= p < k && (#[trigger] arrivals[p]).0 >= queue.next_index ==> is_waiting(
            queue.receive_buffer@,
            arrivals[p],
        )
}

/// Hands the items on in the order of their indices, whatever order they
/// arrive in: every item waits until the items before it have left. The
/// item at place `j` of the result is the one that arrived with index `j`.
pub fn reorder<T>(arrivals: Vec<(usize, T)>) -> (out: Vec<T>)
    requires
        is_schedule(arrivals@),
    ensures
        out.len() == arrivals.len(),
        forall|p: int|
            0 <= p < arrivals.len() ==> out@[(#[trigger] arrivals@[p]).0 as int] == arrivals@[p].1,
{
    let ghost all = arrivals@;
    let n = arrivals.len();
    let mut coming = turned_round(arrivals);
    let mut queue: OrdQueueIter<T> = new();
    let mut out: Vec<T> = Vec::new();
    let mut k: usize = 0;
    while k < n
        invariant
            n == all.len(),
            is_schedule(all),
            k <= n,
            coming.len() == n - k,
            forall|j: int| 0 <= j < coming.len() ==> coming@[j] == all[n - 1 - j],
            is_reordering(all, k as int, &queue, out@),
            !queue.is_ready(),
        decreases n - k,
    {
        let (index, item) = coming.pop().unwrap();
        assert((index, item) == all[k as int]);
        // the turn of an item has not passed before it arrives
        assert(index >= queue.next_index) by {
            if index < queue.next_index {
                assert(is_handed_on(all, k as int, out@, index as int));
                let p = choose|p: int|
                    0 <= p < k && (#[trigger] all[p]).0 == index as int && all[p].1
                        == out@[index as int];
                assert(all[p].0 != all[k as int].0);
            }
        }
        let ghost waiting = queue.receive_buffer@;
        queue.push(index, item);
        proof {
            let now = queue.receive_buffer@;
            assert forall|a: int, b: int|
                0 <= a < now.len() && 0 <= b < now.len() && a != b implies (#[trigger] now[a]).0 != (
            #[trigger] now[b]).0 by {
                if a < waiting.len() && b < waiting.len() {
                    assert(now[a] == waiting[a]);
                    assert(now[b] == waiting[b]);
                } else {
                    let other = if a < waiting.len() {
                        a
                    } else {
                        b
                    };
                    assert(now[other] == waiting[other]);
                    assert(has_arrived(all, k as int, waiting[other]));
                    let p = choose|p: int| 0 <= p < k && #[trigger] all[p] == waiting[other];
                    assert(all[p].0 != all[k as int].0);
                }
            }
            assert forall|j: int| 0 <= j < out.len() implies #[trigger] is_handed_on(
                all,
                k + 1,
                out@,
                j,
            ) by {
                assert(is_handed_on(all, k as int, out@, j));
                let p = choose|p: int|
                    0 <= p < k && (#[trigger] all[p]).0 == j && all[p].1 == out@[j];
                assert(0 <= p < k + 1 && all[p].0 == j && all[p].1 == out@[j]);
            }
            assert forall|b: int| 0 <= b < now.len() implies has_arrived(
                all,
                k + 1,
                #[trigger] now[b],
            ) by {
                if b < waiting.len() {
                    assert(now[b] == waiting[b]);
                    assert(has_arrived(all, k as int, waiting[b]));
                    let p = choose|p: int| 0 <= p < k && #[trigger] all[p] == waiting[b];
                    assert(0 <= p < k + 1 && all[p] == now[b]);
                } else {
                    assert(all[k as int] == now[b]);
                }
            }
            assert forall|p: int|
                0 <= p < k + 1 && (#[trigger] all[p]).0 >= queue.next_index implies is_waiting(
                now,
                all[p],
            ) by {
                if p < k {
                    assert(is_waiting(waiting, all[p]));
                    let b = choose|b: int| 0 <= b < waiting.len() && #[trigger] waiting[b] == all[p];
                    assert(now[b] == all[p]);
                } else {
                    assert(now[waiting.len() as int] == all[p]);
                }
            }
        }
        k += 1;
        while !queue.wants_more()
            invariant
                n == all.len(),
                is_schedule(all),
                k <= n,
                is_reordering(all, k as int, &queue, out@),
            decreases queue.receive_buffer@.len(),
        {
            let ghost waiting = queue.receive_buffer@;
            let ghost sent = out@;
            let ghost turn = queue.next_index;
            let item = queue.pop().unwrap();
            let ghost at = choose|at: int|
                {
                    &&& #[trigger] is_least_of(waiting, waiting.len() as int, at)
                    &&& waiting[at].1 == item
                    &&& queue.receive_buffer@ == waiting.remove(at)
                    &&& waiting[at].0 == turn
                };
            out.push(item);
            proof {
                let now = queue.receive_buffer@;
                lemma_pop_keeps_order(waiting, turn, at);
                assert forall|b: int| 0 <= b < now.len() implies (#[trigger] now[b]).0
                    >= queue.next_index by {
                    assert(waiting.remove(at)[b].0 > turn);
                }
                assert forall|j: int| 0 <= j < out.len() implies #[trigger] is_handed_on(
                    all,
                    k as int,
                    out@,
                    j,
                ) by {
                    if j < sent.len() {
                        assert(is_handed_on(all, k as int, sent, j));
                        let p = choose|p: int|
                            0 <= p < k && (#[trigger] all[p]).0 == j && all[p].1 == sent[j];
                        assert(all[p].1 == out@[j]);
                    } else {
                        assert(has_arrived(all, k as int, waiting[at]));
                        let p = choose|p: int| 0 <= p < k && #[trigger] all[p] == waiting[at];
                        assert(all[p].0 == j && all[p].1 == out@[j]);
                    }
                }
                assert forall|b: int| 0 <= b < now.len() implies has_arrived(
                    all,
                    k as int,
                    #[trigger] now[b],
                ) by {
                    let from = if b < at {
                        b
                    } else {
                        b + 1
                    };
                    assert(now[b] == waiting[from]);
                    assert(has_arrived(all, k as int, waiting[from]));
                }
                assert forall|p: int|
                    0 <= p < k && (#[trigger] all[p]).0 >= queue.next_index implies is_waiting(
                    now,
                    all[p],
                ) by {
                    assert(is_waiting(waiting, all[p]));
                    let from = choose|b: int|
                        0 <= b < waiting.len() && #[trigger] waiting[b] == all[p];
                    assert(from != at);
                    let b = if from < at {
                        from
                    } else {
                        from - 1
                    };
                    assert(now[b] == waiting[from]);
                }
                assert forall|a: int, b: int|
                    0 <= a < now.len() && 0 <= b < now.len() && a != b implies (#[trigger] now[a]).0
                    != (#[trigger] now[b]).0 by {
                    let fa = if a < at {
                        a
                    } else {
                        a + 1
                    };
                    let fb = if b < at {
                        b
                    } else {
                        b + 1
                    };
                    assert(now[a] == waiting[fa]);
                    assert(now[b] == waiting[fb]);
                }
            }
        }
    }
    // every item has arrived, so none is left waiting for another
    assert(out.len() == n) by {
        if out.len() < n {
            let j = out.len() as int;
            assert(has_index(all, j));
            let p = choose|p: int| 0 <= p < all.len() && (#[trigger] all[p]).0 == j;
            assert(is_waiting(queue.receive_buffer@, all[p]));
            let b = choose|b: int|
                0 <= b < queue.receive_buffer@.len() && #[trigger] queue.receive_buffer@[b]
                    == all[p];
            assert(queue.receive_buffer@[b].0 == queue.next_index);
            assert(queue.is_ready());
        }
    }
    assert forall|p: int| 0 <= p < all.len() implies out@[(#[trigger] all[p]).0 as int]
        == all[p].1 by {
        let j = all[p].0 as int;
        assert(is_handed_on(all, k as int, out@, j));
        let q = choose|q: int| 0 <= q < k && (#[trigger] all[q]).0 == j && all[q].1 == out@[j];
        if q != p {
            assert(all[q].0 != all[p].0);
        }
    }
    out
}

} // verus!
