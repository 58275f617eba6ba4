//! The shared contact-id allocator: recycling ids so that points persisting
//! frame-to-frame keep a stable identity and disappearing points give theirs
//! back.

use vstd::prelude::*;

verus! {

/// An id source with recycling. Scoped to whatever owns contact identity
/// across a run (typically one broad-phase pair registry) and passed by
/// mutable reference to every call that may create manifold points.
#[derive(Clone, Debug)]
pub struct IdAllocator {
    pub next: usize,
    pub free_ids: Vec<usize>,
}

impl IdAllocator {
    /// Every recycled id was once handed out, and none is listed twice.
    pub open spec fn wf(self) -> bool {
        &&& forall|i: int| 0 <= i < self.free_ids.len() ==> #[trigger] self.free_ids[i] < self.next
        &&& forall|i: int, j: int|
            0 <= i < j < self.free_ids.len() ==> self.free_ids[i] != self.free_ids[j]
    }

    /// An id currently handed out: allocated once and not yet freed.
    pub open spec fn is_live(self, id: usize) -> bool {
        id < self.next && !self.free_ids@.contains(id)
    }

    pub fn new() -> (r: IdAllocator)
        ensures
            r.wf(),
            r.next == 0,
            r.free_ids@.len() == 0,
            forall|id: usize| !r.is_live(id),
    {
        IdAllocator { next: 0, free_ids: Vec::new() }
    }

    /// Hands out an id that is not live: a recycled one if any is waiting,
    /// otherwise a fresh one. Every other id keeps its liveness.
    pub fn allocate(&mut self) -> (r: usize)
        requires
            old(self).wf(),
            old(self).next < usize::MAX,
        ensures
            final(self).wf(),
            !old(self).is_live(r),
            final(self).is_live(r),
            forall|id: usize| id != r ==> final(self).is_live(id) == old(self).is_live(id),
            final(self).next >= old(self).next,
            final(self).next <= old(self).next + 1,
    {
        let popped = self.free_ids.pop();
        match popped {
            Some(id) => {
                proof {
                    assert(old(self).free_ids@.contains(id));
                    assert(forall|x: usize|
                        old(self).free_ids@.drop_last().contains(x)
                            ==> old(self).free_ids@.contains(x));
                    assert forall|x: usize|
                        x != id && old(self).free_ids@.contains(x)
                            implies self.free_ids@.contains(x) by {
                        let k = choose|k: int|
                            0 <= k < old(self).free_ids@.len() && old(self).free_ids@[k] == x;
                        assert(k != old(self).free_ids@.len() - 1);
                        assert(self.free_ids@[k] == x);
                    };
                }
                id
            },
            None => {
                let id = self.next;
                self.next = self.next + 1;
                id
            },
        }
    }

    /// Returns a live id to the pool.
    pub fn free(&mut self, id: usize)
        requires
            old(self).wf(),
            old(self).is_live(id),
        ensures
            final(self).wf(),
            !final(self).is_live(id),
            forall|x: usize| x != id ==> final(self).is_live(x) == old(self).is_live(x),
            final(self).next == old(self).next,
    {
        self.free_ids.push(id);
        proof {
            assert(self.free_ids@ == old(self).free_ids@.push(id));
            assert(self.free_ids@.contains(id)) by {
                assert(self.free_ids@[self.free_ids@.len() - 1] == id);
            };
            assert forall|x: usize|
                x != id && old(self).free_ids@.contains(x)
                    implies self.free_ids@.contains(x) by {
                let k = choose|k: int|
                    0 <= k < old(self).free_ids@.len() && old(self).free_ids@[k] == x;
                assert(self.free_ids@[k] == x);
            };
            assert forall|x: usize|
                self.free_ids@.contains(x) && x != id
                    implies old(self).free_ids@.contains(x) by {
                let k = choose|k: int|
                    0 <= k < self.free_ids@.len() && self.free_ids@[k] == x;
                assert(k < old(self).free_ids@.len());
            };
        }
    }
}

} // verus!
