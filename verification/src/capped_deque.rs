//! A double-ended queue with a fixed capacity: pushing onto a full queue
//! drops the oldest element.  Used by the debug overlay to keep the most
//! recent samples of a time series.

use std::collections::vec_deque::Iter;
use std::collections::VecDeque;

use vstd::prelude::*;
use vstd::std_specs::vecdeque::into_iter_elts;

verus! {

/// A queue that never grows beyond `max_size` elements: `push_back` on a
/// full queue first drops the front element.
pub struct CappedVecDeque<T> {
    container: VecDeque<T>,
    max_size: usize,
}

impl<T> CappedVecDeque<T> {
    /// The held elements, oldest first.
    pub closed spec fn view(&self) -> Seq<T> {
        self.container@
    }

    /// The capacity the queue was created with.
    pub closed spec fn cap(&self) -> nat {
        self.max_size as nat
    }

    /// An empty queue that will never hold more than `max_size` elements.
    pub fn new(max_size: usize) -> (q: CappedVecDeque<T>)
        ensures
            q@.len() == 0,
            q.cap() == max_size,
    {
        CappedVecDeque { container: VecDeque::new(), max_size }
    }

    /// Append a value; if the queue would exceed its capacity, the oldest
    /// element leaves.
    pub fn push_back(&mut self, value: T)
        ensures
            final(self).cap() == old(self).cap(),
            final(self)@ == if old(self)@.len() + 1 > old(self).cap() {
                old(self)@.push(value).drop_first()
            } else {
                old(self)@.push(value)
            },
            old(self)@.len() <= old(self).cap() ==> final(self)@.len() <= final(self).cap(),
    {
        self.container.push_back(value);
        if self.container.len() > self.max_size {
            let ghost pre = self.container@;
            let dropped = self.container.pop_front();
            proof {
                assert(dropped is Some);
                assert(self.container@ =~= pre.drop_first());
            }
        }
    }

    /// An iterator over the held elements, oldest first.
    pub fn iter(&self) -> (it: Iter<'_, T>)
        ensures
            into_iter_elts(it).len() == self@.len(),
            forall|i: int| 0 <= i < self@.len() ==> *(#[trigger] into_iter_elts(it)[i]) == self@[i],
    {
        let it = self.container.iter();
        proof {
            vstd::std_specs::vecdeque::axiom_spec_iter(&self.container);
        }
        it
    }
}

} // verus!
