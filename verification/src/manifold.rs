//! The persistent contact manifold: the generator's output, rebuilt every
//! update while its id cache keeps point identity across the clear boundary.

use vstd::prelude::*;
use crate::contact::{Contact, ContactKinematic};
use crate::feature::FeatureId;
use crate::ids::IdAllocator;

verus! {

/// One stored contact with its kinematic model, the feature pair that
/// produced it, and its solver-stable id.
#[derive(Clone, Debug)]
pub struct TrackedContact {
    pub contact: Contact,
    pub kinematic: ContactKinematic,
    pub fid1: FeatureId,
    pub fid2: FeatureId,
    pub id: usize,
}

/// A cache entry: the feature pair and id of a contact from the previous
/// update. `taken` marks entries whose id was already reused this update.
#[derive(Clone, Copy, Debug)]
pub struct CacheEntry {
    pub fid1: FeatureId,
    pub fid2: FeatureId,
    pub id: usize,
    pub taken: bool,
}

/// The persistent output of one generator: the current contacts, the two
/// subshape indices they apply to, and the id cache of the previous update.
#[derive(Clone, Debug)]
pub struct ContactManifold {
    pub subshape_id1: usize,
    pub subshape_id2: usize,
    pub contacts: Vec<TrackedContact>,
    pub cache: Vec<CacheEntry>,
}

/// The first untaken cache entry carrying the feature pair, if any.
pub open spec fn find_match_from(cache: Seq<CacheEntry>, f1: FeatureId, f2: FeatureId, i: int)
    -> Option<int>
    decreases cache.len() - i,
{
    if i < 0 || i >= cache.len() {
        None
    } else if !cache[i].taken && cache[i].fid1 == f1 && cache[i].fid2 == f2 {
        Some(i)
    } else {
        find_match_from(cache, f1, f2, i + 1)
    }
}

pub open spec fn find_match(cache: Seq<CacheEntry>, f1: FeatureId, f2: FeatureId) -> Option<int> {
    find_match_from(cache, f1, f2, 0)
}

/// The clear boundary of one update: the manifold's new id cache is exactly
/// the previous contacts' feature pairs and ids, all of them available for
/// reuse; the allocator handed out nothing new, and every previous contact
/// id is still live (so it stays meaningful across the clear).
pub open spec fn cache_saved(
    pre: ContactManifold,
    post: ContactManifold,
    ids_pre: IdAllocator,
    ids_post: IdAllocator,
) -> bool {
    &&& post.cache@.len() == pre.contacts@.len()
    &&& forall|i: int| 0 <= i < pre.contacts@.len()
        ==> (#[trigger] post.cache@[i]) == (CacheEntry {
            fid1: pre.contacts@[i].fid1,
            fid2: pre.contacts@[i].fid2,
            id: pre.contacts@[i].id,
            taken: false,
        })
    &&& ids_post.next == ids_pre.next
    &&& forall|i: int| 0 <= i < pre.contacts@.len()
        ==> ids_post.is_live(#[trigger] pre.contacts@[i].id)
}

impl ContactManifold {
    /// Well-formedness against the allocator that owns the ids: every stored
    /// id is live, contact ids are pairwise distinct, untaken cache ids are
    /// pairwise distinct, and an untaken cache id collides with no contact id.
    pub open spec fn wf(self, ids: IdAllocator) -> bool {
        &&& forall|i: int| 0 <= i < self.contacts.len() ==> ids.is_live(#[trigger] self.contacts[i].id)
        &&& forall|i: int|
            0 <= i < self.cache.len() && !self.cache[i].taken
                ==> ids.is_live(#[trigger] self.cache[i].id)
        &&& forall|i: int, j: int|
            0 <= i < j < self.contacts.len() ==> self.contacts[i].id != self.contacts[j].id
        &&& forall|i: int, j: int|
            0 <= i < j < self.cache.len() && !self.cache[i].taken && !self.cache[j].taken
                ==> self.cache[i].id != self.cache[j].id
        &&& forall|i: int, j: int|
            0 <= i < self.contacts.len() && 0 <= j < self.cache.len() && !self.cache[j].taken
                ==> self.contacts[i].id != self.cache[j].id
    }

    pub fn new() -> (r: ContactManifold)
        ensures
            r.subshape_id1 == 0, r.subshape_id2 == 0,
            r.contacts@.len() == 0,
            r.cache@.len() == 0,
            forall|a: IdAllocator| r.wf(a),
    {
        ContactManifold {
            subshape_id1: 0,
            subshape_id2: 0,
            contacts: Vec::new(),
            cache: Vec::new(),
        }
    }

    pub fn len(&self) -> (r: usize)
        ensures
            r == self.contacts@.len(),
    {
        self.contacts.len()
    }

    pub fn set_subshape_id1(&mut self, id: usize)
        ensures
            *final(self) == (ContactManifold { subshape_id1: id, ..*old(self) }),
    {
        self.subshape_id1 = id;
    }

    pub fn set_subshape_id2(&mut self, id: usize)
        ensures
            *final(self) == (ContactManifold { subshape_id2: id, ..*old(self) }),
    {
        self.subshape_id2 = id;
    }

    /// Ends the previous update's life: ids of cache entries that were never
    /// reused go back to the allocator, the current contacts become the new
    /// cache (all untaken), and the contact list is emptied. Ids therefore
    /// stay meaningful across the clear boundary.
    pub fn save_cache_and_clear(&mut self, ids: &mut IdAllocator)
        requires
            old(ids).wf(),
            old(self).wf(*old(ids)),
        ensures
            final(ids).wf(),
            final(self).wf(*final(ids)),
            final(self).contacts@.len() == 0,
            final(self).cache@.len() == old(self).contacts@.len(),
            forall|i: int| 0 <= i < old(self).contacts@.len()
                ==> (#[trigger] final(self).cache@[i]) == (CacheEntry {
                    fid1: old(self).contacts@[i].fid1,
                    fid2: old(self).contacts@[i].fid2,
                    id: old(self).contacts@[i].id,
                    taken: false,
                }),
            final(self).subshape_id1 == old(self).subshape_id1,
            final(self).subshape_id2 == old(self).subshape_id2,
            forall|i: int| 0 <= i < old(self).contacts@.len()
                ==> final(ids).is_live(#[trigger] old(self).contacts@[i].id),
            final(ids).next == old(ids).next,
            cache_saved(*old(self), *final(self), *old(ids), *final(ids)),
    {
        let mut i: usize = 0;
        while i < self.cache.len()
            invariant
                ids.wf(),
                self.wf(*ids),
                self.subshape_id1 == old(self).subshape_id1,
                self.subshape_id2 == old(self).subshape_id2,
                self.cache@.len() == old(self).cache@.len(),
                forall|j: int| 0 <= j < self.cache@.len()
                    ==> (#[trigger] self.cache@[j]).id == old(self).cache@[j].id
                        && (j >= i ==> self.cache@[j].taken == old(self).cache@[j].taken)
                        && (j < i ==> self.cache@[j].taken),
                0 <= i <= self.cache@.len(),
                self.contacts@ == old(self).contacts@,
                forall|j: int| 0 <= j < self.contacts@.len()
                    ==> ids.is_live(#[trigger] self.contacts@[j].id),
                ids.next == old(ids).next,
            decreases self.cache@.len() - i,
        {
            if !self.cache[i].taken {
                let id = self.cache[i].id;
                ids.free(id);
                self.cache[i].taken = true;
            }
            i += 1;
        }
        let mut new_cache: Vec<CacheEntry> = Vec::new();
        let mut k: usize = 0;
        while k < self.contacts.len()
            invariant
                0 <= k <= self.contacts@.len(),
                new_cache@.len() == k,
                forall|j: int| 0 <= j < k
                    ==> (#[trigger] new_cache@[j]) == (CacheEntry {
                        fid1: self.contacts@[j].fid1,
                        fid2: self.contacts@[j].fid2,
                        id: self.contacts@[j].id,
                        taken: false,
                    }),
            decreases self.contacts@.len() - k,
        {
            let c = &self.contacts[k];
            new_cache.push(CacheEntry { fid1: c.fid1, fid2: c.fid2, id: c.id, taken: false });
            k += 1;
        }
        self.cache = new_cache;
        self.contacts = Vec::new();
    }

    /// Stores one contact. If an untaken cache entry carries the same feature
    /// pair, its id is reused (the entry becomes taken); otherwise a fresh id
    /// is allocated. Returns the id the contact received.
    pub fn push(
        &mut self,
        contact: Contact,
        kinematic: ContactKinematic,
        fid1: FeatureId,
        fid2: FeatureId,
        ids: &mut IdAllocator,
    ) -> (r: usize)
        requires
            old(ids).wf(),
            old(self).wf(*old(ids)),
            old(ids).next < usize::MAX,
            old(self).contacts@.len() < usize::MAX,
        ensures
            final(ids).wf(),
            final(self).wf(*final(ids)),
            final(self).contacts@.len() == old(self).contacts@.len() + 1,
            final(self).contacts@.last() == (TrackedContact {
                contact, kinematic, fid1, fid2, id: r,
            }),
            forall|i: int| 0 <= i < old(self).contacts@.len()
                ==> final(self).contacts@[i] == old(self).contacts@[i],
            final(self).subshape_id1 == old(self).subshape_id1,
            final(self).subshape_id2 == old(self).subshape_id2,
            // Warm-starting: a cached feature pair keeps its id.
            match find_match(old(self).cache@, fid1, fid2) {
                Some(j) => {
                    &&& r == old(self).cache@[j].id
                    &&& final(self).cache@.len() == old(self).cache@.len()
                    &&& forall|i: int| 0 <= i < old(self).cache@.len() && i != j
                        ==> final(self).cache@[i] == old(self).cache@[i]
                    &&& final(self).cache@[j] == (CacheEntry { taken: true, ..old(self).cache@[j] })
                    &&& *final(ids) == *old(ids)
                },
                None => {
                    &&& final(self).cache@ == old(self).cache@
                    &&& !old(ids).is_live(r)
                    &&& final(ids).is_live(r)
                    &&& forall|x: usize| x != r ==> final(ids).is_live(x) == old(ids).is_live(x)
                },
            },
            final(ids).next >= old(ids).next,
            final(ids).next <= old(ids).next + 1,
    {
        let found = find_cache(&self.cache, fid1, fid2);
        let id: usize;
        match found {
            Some(j) => {
                id = self.cache[j].id;
                self.cache[j].taken = true;
            },
            None => {
                id = ids.allocate();
            },
        }
        self.contacts.push(TrackedContact { contact, kinematic, fid1, fid2, id });
        id
    }
}

/// Id persistence: after `save_cache_and_clear`, the cache carries the
/// previous update's contacts untaken and in order; the first push whose
/// feature pair equals that of a previous contact, no earlier contact
/// sharing it, finds exactly that entry — `push` then reuses its id, so a
/// contact whose generating feature pair is unchanged between two
/// consecutive updates keeps its id.
pub proof fn lemma_id_persistence(old_contacts: Seq<TrackedContact>, cache: Seq<CacheEntry>, j: int)
    requires
        cache.len() == old_contacts.len(),
        forall|i: int| 0 <= i < old_contacts.len()
            ==> (#[trigger] cache[i]) == (CacheEntry {
                fid1: old_contacts[i].fid1,
                fid2: old_contacts[i].fid2,
                id: old_contacts[i].id,
                taken: false,
            }),
        0 <= j < old_contacts.len(),
        forall|i: int| 0 <= i < j
            ==> !((#[trigger] old_contacts[i]).fid1 == old_contacts[j].fid1
                && old_contacts[i].fid2 == old_contacts[j].fid2),
    ensures
        find_match(cache, old_contacts[j].fid1, old_contacts[j].fid2) == Some(j),
{
    lemma_find_match_skips(cache, old_contacts[j].fid1, old_contacts[j].fid2, 0, j);
}

pub proof fn lemma_find_match_skips(cache: Seq<CacheEntry>, f1: FeatureId, f2: FeatureId, i: int, j: int)
    requires
        0 <= i <= j < cache.len(),
        !cache[j].taken, cache[j].fid1 == f1, cache[j].fid2 == f2,
        forall|k: int| i <= k < j
            ==> !((#[trigger] cache[k]).fid1 == f1 && cache[k].fid2 == f2 && !cache[k].taken),
    ensures
        find_match_from(cache, f1, f2, i) == Some(j),
    decreases j - i,
{
    if i < j {
        lemma_find_match_skips(cache, f1, f2, i + 1, j);
    }
}

/// A found match is a real one: in bounds, untaken, carrying the pair.
pub proof fn lemma_find_match_props(cache: Seq<CacheEntry>, f1: FeatureId, f2: FeatureId, i: int)
    requires
        0 <= i,
        find_match_from(cache, f1, f2, i) is Some,
    ensures
        ({
            let j = find_match_from(cache, f1, f2, i).unwrap();
            &&& i <= j < cache.len()
            &&& !cache[j].taken
            &&& cache[j].fid1 == f1
            &&& cache[j].fid2 == f2
        }),
    decreases cache.len() - i,
{
    if i < cache.len() && !(!cache[i].taken && cache[i].fid1 == f1 && cache[i].fid2 == f2) {
        lemma_find_match_props(cache, f1, f2, i + 1);
    }
}

/// Warm-start persistence across one clear boundary, as a relation between
/// the contact lists before and after: a new contact whose feature pair
/// identified exactly one previous contact, and which is the first of the
/// new list to carry that pair, keeps the previous contact's id.
pub open spec fn ids_persist(pre: Seq<TrackedContact>, post: Seq<TrackedContact>) -> bool {
    forall|k: int, j: int|
        0 <= k < post.len() && 0 <= j < pre.len()
            && (#[trigger] post[k]).fid1 == (#[trigger] pre[j]).fid1
            && post[k].fid2 == pre[j].fid2
            && (forall|i: int|
                0 <= i < pre.len() && i != j
                    ==> !((#[trigger] pre[i]).fid1 == pre[j].fid1
                        && pre[i].fid2 == pre[j].fid2))
            && (forall|i: int|
                0 <= i < k
                    ==> !((#[trigger] post[i]).fid1 == post[k].fid1
                        && post[i].fid2 == post[k].fid2))
            ==> post[k].id == pre[j].id
}

/// Finds the first untaken cache entry with the given feature pair.
fn find_cache(cache: &Vec<CacheEntry>, fid1: FeatureId, fid2: FeatureId) -> (r: Option<usize>)
    ensures
        match r {
            Some(j) => {
                &&& find_match(cache@, fid1, fid2) == Some(j as int)
                &&& j < cache@.len()
                &&& !cache@[j as int].taken
                &&& cache@[j as int].fid1 == fid1
                &&& cache@[j as int].fid2 == fid2
            },
            None => find_match(cache@, fid1, fid2) is None,
        },
{
    let mut i: usize = 0;
    while i < cache.len()
        invariant
            0 <= i <= cache@.len(),
            find_match_from(cache@, fid1, fid2, 0) == find_match_from(cache@, fid1, fid2, i as int),
        decreases cache@.len() - i,
    {
        let e = &cache[i];
        if !e.taken && e.fid1 == fid1 && e.fid2 == fid2 {
            return Some(i);
        }
        i += 1;
    }
    None
}

} // verus!
