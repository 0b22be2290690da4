//! The entity/component store: an open-ended set of per-kind columns, each
//! dense or sparse, kept length-synchronized with the entity counter, with
//! exclusive checked-out access to single columns.

use vstd::prelude::*;
use vstd::pervasive::VecAdditionalExecFns;
use std::collections::HashMap;
use crate::components::Component;
use crate::components::ComponentStorage;
use crate::components::DenseColumn;
use crate::components::SparseColumn;

verus! {

broadcast use vstd::std_specs::hash::group_hash_axioms;

/// What storing a component does to a store: the value's kind gains a column
/// of the matching strategy if it had none, the entry for the entity in that
/// column becomes the value, and every other column is untouched.
pub open spec fn spec_add_component<V: Component>(
    pre: World<V>,
    id: usize,
    c: V,
    post: World<V>,
) -> bool {
    let k = c.spec_kind();
    &&& post.entities() == pre.entities()
    &&& if c.spec_sparse() {
        &&& post.has_sparse(k)
        &&& !post.sparse_taken(k)
        &&& post.sparse_at(k) == (if pre.has_sparse(k) {
            pre.sparse_at(k)
        } else {
            Map::<usize, V>::empty()
        }).insert(id, c)
        &&& forall|k2: usize| k2 != k ==> post.has_sparse(k2) == pre.has_sparse(k2)
        &&& forall|k2: usize|
            k2 != k && pre.has_sparse(k2) ==> post.sparse_at(k2) == pre.sparse_at(k2)
                && post.sparse_taken(k2) == pre.sparse_taken(k2)
        &&& forall|k2: usize| post.has_dense(k2) == pre.has_dense(k2)
        &&& forall|k2: usize|
            pre.has_dense(k2) ==> post.dense_at(k2) == pre.dense_at(k2) && post.dense_taken(k2)
                == pre.dense_taken(k2)
    } else {
        &&& post.has_dense(k)
        &&& !post.dense_taken(k)
        &&& post.dense_at(k) == (if pre.has_dense(k) {
            pre.dense_at(k)
        } else {
            Seq::<Option<V>>::new(pre.entities(), |i: int| None)
        }).update(id as int, Some(c))
        &&& forall|k2: usize| k2 != k ==> post.has_dense(k2) == pre.has_dense(k2)
        &&& forall|k2: usize|
            k2 != k && pre.has_dense(k2) ==> post.dense_at(k2) == pre.dense_at(k2)
                && post.dense_taken(k2) == pre.dense_taken(k2)
        &&& forall|k2: usize| post.has_sparse(k2) == pre.has_sparse(k2)
        &&& forall|k2: usize|
            pre.has_sparse(k2) ==> post.sparse_at(k2) == pre.sparse_at(k2) && post.sparse_taken(
                k2,
            ) == pre.sparse_taken(k2)
    }
}

/// What removing an entity's component of one kind does to a store: the
/// entity's entry leaves the kind's dense and sparse columns, and every
/// other entry and every other column is untouched. The entity's id is
/// never reused.
pub open spec fn spec_remove_entity<V>(
    pre: World<V>,
    kind: usize,
    id: usize,
    post: World<V>,
) -> bool {
    &&& post.entities() == pre.entities()
    &&& forall|k2: usize| post.has_dense(k2) == pre.has_dense(k2)
    &&& forall|k2: usize| post.has_sparse(k2) == pre.has_sparse(k2)
    &&& pre.has_dense(kind) ==> post.dense_at(kind) == pre.dense_at(kind).update(
        id as int,
        None,
    ) && !post.dense_taken(kind)
    &&& pre.has_sparse(kind) ==> post.sparse_at(kind) == pre.sparse_at(kind).remove(id)
        && !post.sparse_taken(kind)
    &&& forall|k2: usize|
        k2 != kind && pre.has_dense(k2) ==> post.dense_at(k2) == pre.dense_at(k2)
            && post.dense_taken(k2) == pre.dense_taken(k2)
    &&& forall|k2: usize|
        k2 != kind && pre.has_sparse(k2) ==> post.sparse_at(k2) == pre.sparse_at(k2)
            && post.sparse_taken(k2) == pre.sparse_taken(k2)
}

/// The store. Entity ids are indices: the next entity created gets the
/// current counter value, and ids are never reused. Every dense column has
/// exactly one slot per entity, except while checked out.
pub struct World<V> {
    num_entities: usize,
    components: Vec<DenseColumn<V>>,
    components_sparse: Vec<SparseColumn<V>>,
}

impl<V> World<V> {
    /// The number of entities ever created.
    pub closed spec fn entities(self) -> nat {
        self.num_entities as nat
    }

    /// Whether a dense column for the kind exists.
    pub closed spec fn has_dense(self, k: usize) -> bool {
        exists|i: int| 0 <= i < self.components@.len() && self.components@[i].kind == k
    }

    /// The index of the dense column for the kind.
    pub(crate) closed spec fn dense_idx(self, k: usize) -> int {
        choose|i: int| 0 <= i < self.components@.len() && self.components@[i].kind == k
    }

    /// Whether the dense column for the kind is checked out.
    pub closed spec fn dense_taken(self, k: usize) -> bool {
        self.components@[self.dense_idx(k)].taken
    }

    /// The slots of the dense column for the kind, one per entity.
    pub closed spec fn dense_at(self, k: usize) -> Seq<Option<V>> {
        self.components@[self.dense_idx(k)].slots@
    }

    /// Whether a sparse column for the kind exists.
    pub closed spec fn has_sparse(self, k: usize) -> bool {
        exists|i: int|
            0 <= i < self.components_sparse@.len() && self.components_sparse@[i].kind == k
    }

    /// The index of the sparse column for the kind.
    pub(crate) closed spec fn sparse_idx(self, k: usize) -> int {
        choose|i: int|
            0 <= i < self.components_sparse@.len() && self.components_sparse@[i].kind == k
    }

    /// Whether the sparse column for the kind is checked out.
    pub closed spec fn sparse_taken(self, k: usize) -> bool {
        self.components_sparse@[self.sparse_idx(k)].taken
    }

    /// The entries of the sparse column for the kind, keyed by entity id.
    pub closed spec fn sparse_at(self, k: usize) -> Map<usize, V> {
        self.components_sparse@[self.sparse_idx(k)].map@
    }

    /// Well-formedness: kinds name columns uniquely, and every dense column
    /// that is not checked out has one slot per entity.
    pub closed spec fn wf(self) -> bool {
        &&& forall|i: int, j: int|
            0 <= i < j < self.components@.len()
                ==> self.components@[i].kind != self.components@[j].kind
        &&& forall|i: int, j: int|
            0 <= i < j < self.components_sparse@.len()
                ==> self.components_sparse@[i].kind != self.components_sparse@[j].kind
        &&& forall|i: int|
            0 <= i < self.components@.len() && !self.components@[i].taken
                ==> (#[trigger] self.components@[i]).slots@.len() == self.num_entities
    }

    /// Creates an empty store: no entities, no columns.
    pub fn new() -> (w: Self)
        ensures
            w.wf(),
            w.entities() == 0,
            forall|k: usize| !w.has_dense(k) && !w.has_sparse(k),
    {
        Self { num_entities: 0, components: Vec::new(), components_sparse: Vec::new() }
    }

    /// Creates an entity with no components and returns its id. Every
    /// existing dense column grows by one empty slot, so the new entity's
    /// slot is empty in each of them; sparse columns are untouched.
    pub fn add_entity(&mut self) -> (id: usize)
        requires
            old(self).wf(),
            old(self).entities() < usize::MAX,
            forall|k: usize| old(self).has_dense(k) ==> !old(self).dense_taken(k),
        ensures
            final(self).wf(),
            id == old(self).entities(),
            final(self).entities() == old(self).entities() + 1,
            forall|k: usize| final(self).has_dense(k) == old(self).has_dense(k),
            forall|k: usize|
                old(self).has_dense(k) ==> {
                    &&& final(self).dense_at(k) == old(self).dense_at(k).push(None)
                    &&& !final(self).dense_taken(k)
                },
            forall|k: usize| final(self).has_sparse(k) == old(self).has_sparse(k),
            forall|k: usize|
                old(self).has_sparse(k) ==> {
                    &&& final(self).sparse_at(k) == old(self).sparse_at(k)
                    &&& final(self).sparse_taken(k) == old(self).sparse_taken(k)
                },
    {
        let entity_id = self.num_entities;
        self.num_entities = self.num_entities + 1;
        let n = self.components.len();
        let mut i: usize = 0;
        while i < n
            invariant
                n == self.components@.len(),
                0 <= i <= n,
                self.num_entities == old(self).num_entities + 1,
                self.components_sparse@ == old(self).components_sparse@,
                forall|j: int|
                    0 <= j < n ==> (#[trigger] self.components@[j]).kind
                        == old(self).components@[j].kind,
                forall|j: int|
                    0 <= j < n ==> (#[trigger] self.components@[j]).taken
                        == old(self).components@[j].taken,
                forall|j: int|
                    0 <= j < i ==> (#[trigger] self.components@[j]).slots@
                        == old(self).components@[j].slots@.push(None::<V>),
                forall|j: int|
                    i <= j < n ==> (#[trigger] self.components@[j]).slots@
                        == old(self).components@[j].slots@,
            decreases n - i,
        {
            let col = &mut self.components[i];
            col.push_none();
            i = i + 1;
        }
        proof {
            self.lemma_columns_match(*old(self));
        }
        entity_id
    }

    /// Where dense kinds are unique, a column with the sought kind is the
    /// dense column of that kind.
    proof fn lemma_dense_idx_is(self, k: usize, i: int)
        requires
            forall|p: int, q: int|
                0 <= p < q < self.components@.len()
                    ==> self.components@[p].kind != self.components@[q].kind,
            0 <= i < self.components@.len(),
            self.components@[i].kind == k,
        ensures
            self.has_dense(k),
            self.dense_idx(k) == i,
            self.dense_taken(k) == self.components@[i].taken,
            self.dense_at(k) == self.components@[i].slots@,
    {
        assert(self.has_dense(k));
        let j = self.dense_idx(k);
        assert(0 <= j < self.components@.len() && self.components@[j].kind == k);
        if i != j {
            assert(false);
        }
    }

    /// Where sparse kinds are unique, a column with the sought kind is the
    /// sparse column of that kind.
    proof fn lemma_sparse_idx_is(self, k: usize, i: int)
        requires
            forall|p: int, q: int|
                0 <= p < q < self.components_sparse@.len()
                    ==> self.components_sparse@[p].kind != self.components_sparse@[q].kind,
            0 <= i < self.components_sparse@.len(),
            self.components_sparse@[i].kind == k,
        ensures
            self.has_sparse(k),
            self.sparse_idx(k) == i,
            self.sparse_taken(k) == self.components_sparse@[i].taken,
            self.sparse_at(k) == self.components_sparse@[i].map@,
    {
        assert(self.has_sparse(k));
        let j = self.sparse_idx(k);
        assert(0 <= j < self.components_sparse@.len() && self.components_sparse@[j].kind == k);
        if i != j {
            assert(false);
        }
    }

    /// Stores a single component for an entity. The value's own kind and
    /// sparseness pick the column: an existing entry for the entity is
    /// overwritten, and a never-seen kind first gets a fresh column, dense
    /// ones pre-sized with one empty slot per entity.
    pub fn add_component(&mut self, id: usize, c: V) where V: Component
        requires
            old(self).wf(),
            id < old(self).entities(),
            c.spec_sparse() && old(self).has_sparse(c.spec_kind()) ==> !old(self).sparse_taken(
                c.spec_kind(),
            ),
            !c.spec_sparse() && old(self).has_dense(c.spec_kind()) ==> !old(self).dense_taken(
                c.spec_kind(),
            ),
        ensures
            final(self).wf(),
            spec_add_component(*old(self), id, c, *final(self)),
    {
        if c.is_sparse() {
            let kind = c.kind();
            let n = self.components_sparse.len();
            let mut found: usize = n;
            let mut i: usize = 0;
            while i < n
                invariant
                    n == self.components_sparse@.len(),
                    0 <= i <= n,
                    found <= n,
                    found == n ==> forall|j: int|
                        0 <= j < i ==> (#[trigger] self.components_sparse@[j]).kind != kind,
                    found < n ==> self.components_sparse@[found as int].kind == kind,
                decreases n - i,
            {
                if self.components_sparse[i].kind == kind {
                    if found == n {
                        found = i;
                    }
                }
                i = i + 1;
            }
            if found < n {
                proof {
                    old(self).lemma_sparse_idx_is(kind, found as int);
                }
                let mut col = SparseColumn { kind, taken: false, map: HashMap::new() };
                self.components_sparse.set_and_swap(found, &mut col);
                col.map.insert(id, c);
                self.components_sparse.set(found, col);
                proof {
                    self.lemma_columns_match(*old(self));
                    self.lemma_sparse_idx_is(kind, found as int);
                    assert forall|k2: usize| k2 != kind && old(self).has_sparse(k2) implies
                        self.sparse_at(k2) == old(self).sparse_at(k2) && self.sparse_taken(k2)
                            == old(self).sparse_taken(k2) by {
                        let j = old(self).sparse_idx(k2);
                        old(self).lemma_sparse_idx_is(k2, j);
                        self.lemma_sparse_idx_is(k2, j);
                    }
                    assert forall|k2: usize| old(self).has_dense(k2) implies self.dense_at(k2)
                        == old(self).dense_at(k2) && self.dense_taken(k2) == old(
                        self,
                    ).dense_taken(k2) by {
                        let j = old(self).dense_idx(k2);
                        old(self).lemma_dense_idx_is(k2, j);
                        self.lemma_dense_idx_is(k2, j);
                    }
                }
            } else {
                assert(!old(self).has_sparse(c.spec_kind()));
                let mut map: HashMap<usize, V> = HashMap::new();
                map.insert(id, c);
                self.components_sparse.push(SparseColumn { kind, taken: false, map });
                proof {
                    self.lemma_sparse_idx_is(kind, n as int);
                    assert forall|k2: usize| k2 != kind implies self.has_sparse(k2) == old(
                        self,
                    ).has_sparse(k2) by {
                        if self.has_sparse(k2) {
                            let j = self.sparse_idx(k2);
                            assert(0 <= j < n);
                            assert(old(self).components_sparse@[j].kind == k2);
                        }
                        if old(self).has_sparse(k2) {
                            let j = old(self).sparse_idx(k2);
                            assert(self.components_sparse@[j].kind == k2);
                        }
                    }
                    assert forall|k2: usize| k2 != kind && old(self).has_sparse(k2) implies
                        self.sparse_at(k2) == old(self).sparse_at(k2) && self.sparse_taken(k2)
                            == old(self).sparse_taken(k2) by {
                        let j = old(self).sparse_idx(k2);
                        old(self).lemma_sparse_idx_is(k2, j);
                        self.lemma_sparse_idx_is(k2, j);
                    }
                    assert forall|k2: usize| old(self).has_dense(k2) implies self.dense_at(k2)
                        == old(self).dense_at(k2) && self.dense_taken(k2) == old(
                        self,
                    ).dense_taken(k2) by {
                        let j = old(self).dense_idx(k2);
                        old(self).lemma_dense_idx_is(k2, j);
                        self.lemma_dense_idx_is(k2, j);
                    }
                    assert(self.sparse_at(kind) =~= Map::<usize, V>::empty().insert(id, c));
                }
            }
        } else {
            let kind = c.kind();
            let n = self.components.len();
            let mut found: usize = n;
            let mut i: usize = 0;
            while i < n
                invariant
                    n == self.components@.len(),
                    0 <= i <= n,
                    found <= n,
                    found == n ==> forall|j: int|
                        0 <= j < i ==> (#[trigger] self.components@[j]).kind != kind,
                    found < n ==> self.components@[found as int].kind == kind,
                decreases n - i,
            {
                if self.components[i].kind == kind {
                    if found == n {
                        found = i;
                    }
                }
                i = i + 1;
            }
            if found < n {
                proof {
                    old(self).lemma_dense_idx_is(kind, found as int);
                    assert(self.components@[found as int].slots@.len() == self.num_entities);
                }
                let mut col = DenseColumn { kind, taken: false, slots: Vec::new() };
                self.components.set_and_swap(found, &mut col);
                col.slots.set(id, Some(c));
                self.components.set(found, col);
                proof {
                    self.lemma_columns_match(*old(self));
                    self.lemma_dense_idx_is(kind, found as int);
                    assert forall|k2: usize| k2 != kind && old(self).has_dense(k2) implies
                        self.dense_at(k2) == old(self).dense_at(k2) && self.dense_taken(k2)
                            == old(self).dense_taken(k2) by {
                        let j = old(self).dense_idx(k2);
                        old(self).lemma_dense_idx_is(k2, j);
                        self.lemma_dense_idx_is(k2, j);
                    }
                    assert forall|k2: usize| old(self).has_sparse(k2) implies self.sparse_at(k2)
                        == old(self).sparse_at(k2) && self.sparse_taken(k2) == old(
                        self,
                    ).sparse_taken(k2) by {
                        let j = old(self).sparse_idx(k2);
                        old(self).lemma_sparse_idx_is(k2, j);
                        self.lemma_sparse_idx_is(k2, j);
                    }
                }
            } else {
                assert(!old(self).has_dense(c.spec_kind()));
                let mut slots: Vec<Option<V>> = Vec::new();
                let count = self.num_entities;
                while slots.len() < count
                    invariant
                        slots@.len() <= count,
                        forall|j: int| 0 <= j < slots@.len() ==> (#[trigger] slots@[j]) is None,
                    decreases count - slots@.len(),
                {
                    slots.push(None);
                }
                assert(slots@ =~= Seq::<Option<V>>::new(old(self).entities(), |j: int| None));
                slots.set(id, Some(c));
                self.components.push(DenseColumn { kind, taken: false, slots });
                proof {
                    self.lemma_dense_idx_is(kind, n as int);
                    assert forall|k2: usize| k2 != kind implies self.has_dense(k2) == old(
                        self,
                    ).has_dense(k2) by {
                        if self.has_dense(k2) {
                            let j = self.dense_idx(k2);
                            assert(0 <= j < n);
                            assert(old(self).components@[j].kind == k2);
                        }
                        if old(self).has_dense(k2) {
                            let j = old(self).dense_idx(k2);
                            assert(self.components@[j].kind == k2);
                        }
                    }
                    assert forall|k2: usize| k2 != kind && old(self).has_dense(k2) implies
                        self.dense_at(k2) == old(self).dense_at(k2) && self.dense_taken(k2)
                            == old(self).dense_taken(k2) by {
                        let j = old(self).dense_idx(k2);
                        old(self).lemma_dense_idx_is(k2, j);
                        self.lemma_dense_idx_is(k2, j);
                    }
                    assert forall|k2: usize| old(self).has_sparse(k2) implies self.sparse_at(k2)
                        == old(self).sparse_at(k2) && self.sparse_taken(k2) == old(
                        self,
                    ).sparse_taken(k2) by {
                        let j = old(self).sparse_idx(k2);
                        old(self).lemma_sparse_idx_is(k2, j);
                        self.lemma_sparse_idx_is(k2, j);
                    }
                }
            }
        }
    }

    /// Removes the given entity's component of the given kind, from the
    /// kind's dense column, its sparse column, or both, whichever exist.
    /// This is a per-kind operation, not a whole-entity teardown, and the
    /// entity's id stays allocated: ids are never reused.
    pub fn remove_entity(&mut self, kind: usize, id: usize)
        requires
            old(self).wf(),
            id < old(self).entities(),
            old(self).has_dense(kind) ==> !old(self).dense_taken(kind),
            old(self).has_sparse(kind) ==> !old(self).sparse_taken(kind),
        ensures
            final(self).wf(),
            spec_remove_entity(*old(self), kind, id, *final(self)),
    {
        let n = self.components.len();
        let mut found: usize = n;
        let mut i: usize = 0;
        while i < n
            invariant
                n == self.components@.len(),
                0 <= i <= n,
                found <= n,
                found == n ==> forall|j: int|
                    0 <= j < i ==> (#[trigger] self.components@[j]).kind != kind,
                found < n ==> self.components@[found as int].kind == kind,
            decreases n - i,
        {
            if self.components[i].kind == kind {
                if found == n {
                    found = i;
                }
            }
            i = i + 1;
        }
        if found < n {
            proof {
                old(self).lemma_dense_idx_is(kind, found as int);
                assert(self.components@[found as int].slots@.len() == self.num_entities);
            }
            let mut col = DenseColumn { kind, taken: false, slots: Vec::new() };
            self.components.set_and_swap(found, &mut col);
            col.slots.set(id, None);
            self.components.set(found, col);
        } else {
            assert(!old(self).has_dense(kind));
        }
        let ghost mid = *self;
        proof {
            mid.lemma_columns_match(*old(self));
        }
        let m = self.components_sparse.len();
        let mut sfound: usize = m;
        let mut si: usize = 0;
        while si < m
            invariant
                m == self.components_sparse@.len(),
                0 <= si <= m,
                sfound <= m,
                sfound == m ==> forall|j: int|
                    0 <= j < si ==> (#[trigger] self.components_sparse@[j]).kind != kind,
                sfound < m ==> self.components_sparse@[sfound as int].kind == kind,
            decreases m - si,
        {
            if self.components_sparse[si].kind == kind {
                if sfound == m {
                    sfound = si;
                }
            }
            si = si + 1;
        }
        if sfound < m {
            proof {
                mid.lemma_sparse_idx_is(kind, sfound as int);
            }
            let mut col = SparseColumn { kind, taken: false, map: HashMap::new() };
            self.components_sparse.set_and_swap(sfound, &mut col);
            col.map.remove(&id);
            self.components_sparse.set(sfound, col);
        } else {
            assert(!mid.has_sparse(kind));
            assert(!old(self).has_sparse(kind));
        }
        proof {
            self.lemma_columns_match(*old(self));
            if old(self).has_dense(kind) {
                self.lemma_dense_idx_is(kind, found as int);
            }
            if old(self).has_sparse(kind) {
                mid.lemma_sparse_idx_is(kind, mid.sparse_idx(kind));
                self.lemma_sparse_idx_is(kind, sfound as int);
            }
            assert forall|k2: usize| k2 != kind && old(self).has_dense(k2) implies self.dense_at(
                k2,
            ) == old(self).dense_at(k2) && self.dense_taken(k2) == old(self).dense_taken(k2) by {
                let j = old(self).dense_idx(k2);
                old(self).lemma_dense_idx_is(k2, j);
                self.lemma_dense_idx_is(k2, j);
            }
            assert forall|k2: usize| k2 != kind && old(self).has_sparse(k2) implies self.sparse_at(
                k2,
            ) == old(self).sparse_at(k2) && self.sparse_taken(k2) == old(self).sparse_taken(
                k2,
            ) by {
                let j = old(self).sparse_idx(k2);
                old(self).lemma_sparse_idx_is(k2, j);
                self.lemma_sparse_idx_is(k2, j);
            }
        }
    }

    /// Checks out the dense column for the kind, or reports that the kind
    /// has no dense column. The caller gets the slots, one per entity, and
    /// owes them back through `return_components`; until then the column
    /// counts as checked out, and a second checkout is a caller error that
    /// the contract excludes.
    pub fn borrow_components_mut(&mut self, kind: usize) -> (r: Option<Vec<Option<V>>>)
        requires
            old(self).wf(),
            old(self).has_dense(kind) ==> !old(self).dense_taken(kind),
        ensures
            final(self).wf(),
            final(self).entities() == old(self).entities(),
            r is Some <==> old(self).has_dense(kind),
            !old(self).has_dense(kind) ==> *final(self) == *old(self),
            old(self).has_dense(kind) ==> {
                &&& r matches Some(data) && data@ == old(self).dense_at(kind)
                &&& final(self).dense_taken(kind)
                &&& forall|k2: usize| final(self).has_dense(k2) == old(self).has_dense(k2)
                &&& forall|k2: usize| final(self).has_sparse(k2) == old(self).has_sparse(k2)
                &&& forall|k2: usize|
                    k2 != kind && old(self).has_dense(k2) ==> final(self).dense_at(k2) == old(
                        self,
                    ).dense_at(k2) && final(self).dense_taken(k2) == old(self).dense_taken(k2)
                &&& forall|k2: usize|
                    old(self).has_sparse(k2) ==> final(self).sparse_at(k2) == old(self).sparse_at(
                        k2,
                    ) && final(self).sparse_taken(k2) == old(self).sparse_taken(k2)
            },
    {
        let n = self.components.len();
        let mut found: usize = n;
        let mut i: usize = 0;
        while i < n
            invariant
                n == self.components@.len(),
                0 <= i <= n,
                found <= n,
                found == n ==> forall|j: int|
                    0 <= j < i ==> (#[trigger] self.components@[j]).kind != kind,
                found < n ==> self.components@[found as int].kind == kind,
            decreases n - i,
        {
            if self.components[i].kind == kind {
                if found == n {
                    found = i;
                }
            }
            i = i + 1;
        }
        if found < n {
            proof {
                old(self).lemma_dense_idx_is(kind, found as int);
            }
            if self.components[found].taken {
                // A second checkout of one column, a caller error the
                // contract excludes. Detected at run time and answered with
                // no column rather than handing out stale slots.
                return None;
            }
            let mut col = DenseColumn { kind, taken: true, slots: Vec::new() };
            self.components.set_and_swap(found, &mut col);
            proof {
                self.lemma_columns_match(*old(self));
                self.lemma_dense_idx_is(kind, found as int);
                assert forall|k2: usize| k2 != kind && old(self).has_dense(k2) implies
                    self.dense_at(k2) == old(self).dense_at(k2) && self.dense_taken(k2) == old(
                    self,
                ).dense_taken(k2) by {
                    let j = old(self).dense_idx(k2);
                    old(self).lemma_dense_idx_is(k2, j);
                    self.lemma_dense_idx_is(k2, j);
                }
                assert forall|k2: usize| old(self).has_sparse(k2) implies self.sparse_at(k2)
                    == old(self).sparse_at(k2) && self.sparse_taken(k2) == old(self).sparse_taken(
                    k2,
                ) by {
                    let j = old(self).sparse_idx(k2);
                    old(self).lemma_sparse_idx_is(k2, j);
                    self.lemma_sparse_idx_is(k2, j);
                }
            }
            let DenseColumn { kind: _, taken: _, slots } = col;
            Some(slots)
        } else {
            assert(!old(self).has_dense(kind));
            None
        }
    }

    /// Returns a checked-out dense column for the kind. The slots must
    /// still hold one entry per entity; they become the column's contents
    /// again and the column stops counting as checked out.
    pub fn return_components(&mut self, kind: usize, data: Vec<Option<V>>)
        requires
            old(self).wf(),
            old(self).has_dense(kind),
            old(self).dense_taken(kind),
            data@.len() == old(self).entities(),
        ensures
            final(self).wf(),
            final(self).entities() == old(self).entities(),
            forall|k2: usize| final(self).has_dense(k2) == old(self).has_dense(k2),
            forall|k2: usize| final(self).has_sparse(k2) == old(self).has_sparse(k2),
            final(self).dense_at(kind) == data@,
            !final(self).dense_taken(kind),
            forall|k2: usize|
                k2 != kind && old(self).has_dense(k2) ==> final(self).dense_at(k2) == old(
                    self,
                ).dense_at(k2) && final(self).dense_taken(k2) == old(self).dense_taken(k2),
            forall|k2: usize|
                old(self).has_sparse(k2) ==> final(self).sparse_at(k2) == old(self).sparse_at(k2)
                    && final(self).sparse_taken(k2) == old(self).sparse_taken(k2),
    {
        let n = self.components.len();
        let mut found: usize = n;
        let mut i: usize = 0;
        while i < n
            invariant
                n == self.components@.len(),
                0 <= i <= n,
                found <= n,
                found == n ==> forall|j: int|
                    0 <= j < i ==> (#[trigger] self.components@[j]).kind != kind,
                found < n ==> self.components@[found as int].kind == kind,
            decreases n - i,
        {
            if self.components[i].kind == kind {
                if found == n {
                    found = i;
                }
            }
            i = i + 1;
        }
        if found < n {
            proof {
                old(self).lemma_dense_idx_is(kind, found as int);
            }
            if !self.components[found].taken {
                // A return of a column nobody checked out, a caller error
                // the contract excludes. Detected at run time and refused
                // rather than overwriting live slots.
                return;
            }
            let mut col = DenseColumn { kind, taken: false, slots: data };
            self.components.set_and_swap(found, &mut col);
            proof {
                self.lemma_columns_match(*old(self));
                self.lemma_dense_idx_is(kind, found as int);
                assert forall|k2: usize| k2 != kind && old(self).has_dense(k2) implies
                    self.dense_at(k2) == old(self).dense_at(k2) && self.dense_taken(k2) == old(
                    self,
                ).dense_taken(k2) by {
                    let j = old(self).dense_idx(k2);
                    old(self).lemma_dense_idx_is(k2, j);
                    self.lemma_dense_idx_is(k2, j);
                }
                assert forall|k2: usize| old(self).has_sparse(k2) implies self.sparse_at(k2)
                    == old(self).sparse_at(k2) && self.sparse_taken(k2) == old(self).sparse_taken(
                    k2,
                ) by {
                    let j = old(self).sparse_idx(k2);
                    old(self).lemma_sparse_idx_is(k2, j);
                    self.lemma_sparse_idx_is(k2, j);
                }
            }
        } else {
            proof {
                assert(!old(self).has_dense(kind));
                assert(false);
            }
        }
    }

    /// Checks out the sparse column for the kind, or reports that the kind
    /// has no sparse column. The caller gets the entries keyed by entity id
    /// and owes them back through `return_components_sparse`; until then
    /// the column counts as checked out.
    pub fn borrow_components_sparse_mut(&mut self, kind: usize) -> (r: Option<HashMap<usize, V>>)
        requires
            old(self).wf(),
            old(self).has_sparse(kind) ==> !old(self).sparse_taken(kind),
        ensures
            final(self).wf(),
            final(self).entities() == old(self).entities(),
            r is Some <==> old(self).has_sparse(kind),
            !old(self).has_sparse(kind) ==> *final(self) == *old(self),
            old(self).has_sparse(kind) ==> {
                &&& r matches Some(data) && data@ == old(self).sparse_at(kind)
                &&& final(self).sparse_taken(kind)
                &&& forall|k2: usize| final(self).has_dense(k2) == old(self).has_dense(k2)
                &&& forall|k2: usize| final(self).has_sparse(k2) == old(self).has_sparse(k2)
                &&& forall|k2: usize|
                    k2 != kind && old(self).has_sparse(k2) ==> final(self).sparse_at(k2) == old(
                        self,
                    ).sparse_at(k2) && final(self).sparse_taken(k2) == old(self).sparse_taken(k2)
                &&& forall|k2: usize|
                    old(self).has_dense(k2) ==> final(self).dense_at(k2) == old(self).dense_at(k2)
                        && final(self).dense_taken(k2) == old(self).dense_taken(k2)
            },
    {
        let m = self.components_sparse.len();
        let mut found: usize = m;
        let mut i: usize = 0;
        while i < m
            invariant
                m == self.components_sparse@.len(),
                0 <= i <= m,
                found <= m,
                found == m ==> forall|j: int|
                    0 <= j < i ==> (#[trigger] self.components_sparse@[j]).kind != kind,
                found < m ==> self.components_sparse@[found as int].kind == kind,
            decreases m - i,
        {
            if self.components_sparse[i].kind == kind {
                if found == m {
                    found = i;
                }
            }
            i = i + 1;
        }
        if found < m {
            proof {
                old(self).lemma_sparse_idx_is(kind, found as int);
            }
            if self.components_sparse[found].taken {
                // A second checkout of one column, a caller error the
                // contract excludes. Detected at run time and answered with
                // no column rather than handing out stale entries.
                return None;
            }
            let mut col = SparseColumn { kind, taken: true, map: HashMap::new() };
            self.components_sparse.set_and_swap(found, &mut col);
            proof {
                self.lemma_columns_match(*old(self));
                self.lemma_sparse_idx_is(kind, found as int);
                assert forall|k2: usize| k2 != kind && old(self).has_sparse(k2) implies
                    self.sparse_at(k2) == old(self).sparse_at(k2) && self.sparse_taken(k2) == old(
                    self,
                ).sparse_taken(k2) by {
                    let j = old(self).sparse_idx(k2);
                    old(self).lemma_sparse_idx_is(k2, j);
                    self.lemma_sparse_idx_is(k2, j);
                }
                assert forall|k2: usize| old(self).has_dense(k2) implies self.dense_at(k2) == old(
                    self,
                ).dense_at(k2) && self.dense_taken(k2) == old(self).dense_taken(k2) by {
                    let j = old(self).dense_idx(k2);
                    old(self).lemma_dense_idx_is(k2, j);
                    self.lemma_dense_idx_is(k2, j);
                }
            }
            let SparseColumn { kind: _, taken: _, map } = col;
            Some(map)
        } else {
            assert(!old(self).has_sparse(kind));
            None
        }
    }

    /// Returns a checked-out sparse column for the kind. The entries become
    /// the column's contents again and the column stops counting as checked
    /// out.
    pub fn return_components_sparse(&mut self, kind: usize, data: HashMap<usize, V>)
        requires
            old(self).wf(),
            old(self).has_sparse(kind),
            old(self).sparse_taken(kind),
        ensures
            final(self).wf(),
            final(self).entities() == old(self).entities(),
            forall|k2: usize| final(self).has_dense(k2) == old(self).has_dense(k2),
            forall|k2: usize| final(self).has_sparse(k2) == old(self).has_sparse(k2),
            final(self).sparse_at(kind) == data@,
            !final(self).sparse_taken(kind),
            forall|k2: usize|
                k2 != kind && old(self).has_sparse(k2) ==> final(self).sparse_at(k2) == old(
                    self,
                ).sparse_at(k2) && final(self).sparse_taken(k2) == old(self).sparse_taken(k2),
            forall|k2: usize|
                old(self).has_dense(k2) ==> final(self).dense_at(k2) == old(self).dense_at(k2)
                    && final(self).dense_taken(k2) == old(self).dense_taken(k2),
    {
        let m = self.components_sparse.len();
        let mut found: usize = m;
        let mut i: usize = 0;
        while i < m
            invariant
                m == self.components_sparse@.len(),
                0 <= i <= m,
                found <= m,
                found == m ==> forall|j: int|
                    0 <= j < i ==> (#[trigger] self.components_sparse@[j]).kind != kind,
                found < m ==> self.components_sparse@[found as int].kind == kind,
            decreases m - i,
        {
            if self.components_sparse[i].kind == kind {
                if found == m {
                    found = i;
                }
            }
            i = i + 1;
        }
        if found < m {
            proof {
                old(self).lemma_sparse_idx_is(kind, found as int);
            }
            if !self.components_sparse[found].taken {
                // A return of a column nobody checked out, a caller error
                // the contract excludes. Detected at run time and refused
                // rather than overwriting live entries.
                return;
            }
            let mut col = SparseColumn { kind, taken: false, map: data };
            self.components_sparse.set_and_swap(found, &mut col);
            proof {
                self.lemma_columns_match(*old(self));
                self.lemma_sparse_idx_is(kind, found as int);
                assert forall|k2: usize| k2 != kind && old(self).has_sparse(k2) implies
                    self.sparse_at(k2) == old(self).sparse_at(k2) && self.sparse_taken(k2) == old(
                    self,
                ).sparse_taken(k2) by {
                    let j = old(self).sparse_idx(k2);
                    old(self).lemma_sparse_idx_is(k2, j);
                    self.lemma_sparse_idx_is(k2, j);
                }
                assert forall|k2: usize| old(self).has_dense(k2) implies self.dense_at(k2) == old(
                    self,
                ).dense_at(k2) && self.dense_taken(k2) == old(self).dense_taken(k2) by {
                    let j = old(self).dense_idx(k2);
                    old(self).lemma_dense_idx_is(k2, j);
                    self.lemma_dense_idx_is(k2, j);
                }
            }
        } else {
            proof {
                assert(!old(self).has_sparse(kind));
                assert(false);
            }
        }
    }

    /// Drops every column and resets the entity counter to zero.
    pub fn clear(&mut self)
        ensures
            final(self).wf(),
            final(self).entities() == 0,
            forall|k: usize| !final(self).has_dense(k) && !final(self).has_sparse(k),
    {
        self.components = Vec::new();
        self.components_sparse = Vec::new();
        self.num_entities = 0;
    }

    /// The number of entities ever created.
    pub fn num_entities(&self) -> (n: usize)
        ensures
            n == self.entities(),
    {
        self.num_entities
    }

    /// Two stores whose columns pair up kind by kind agree on which kinds
    /// exist and on where each kind's column sits.
    proof fn lemma_columns_match(self, other: Self)
        requires
            self.components@.len() == other.components@.len(),
            forall|j: int|
                0 <= j < self.components@.len() ==> (#[trigger] self.components@[j]).kind
                    == other.components@[j].kind,
            self.components_sparse@.len() == other.components_sparse@.len(),
            forall|j: int|
                0 <= j < self.components_sparse@.len()
                    ==> (#[trigger] self.components_sparse@[j]).kind
                    == other.components_sparse@[j].kind,
            forall|i: int, j: int|
                0 <= i < j < self.components@.len()
                    ==> self.components@[i].kind != self.components@[j].kind,
            forall|i: int, j: int|
                0 <= i < j < self.components_sparse@.len()
                    ==> self.components_sparse@[i].kind != self.components_sparse@[j].kind,
        ensures
            forall|k: usize| self.has_dense(k) == other.has_dense(k),
            forall|k: usize|
                #[trigger] self.has_dense(k) ==> self.dense_idx(k) == other.dense_idx(k)
                    && 0 <= self.dense_idx(k) < self.components@.len()
                    && self.components@[self.dense_idx(k)].kind == k,
            forall|k: usize| self.has_sparse(k) == other.has_sparse(k),
            forall|k: usize|
                #[trigger] self.has_sparse(k) ==> self.sparse_idx(k) == other.sparse_idx(k)
                    && 0 <= self.sparse_idx(k) < self.components_sparse@.len()
                    && self.components_sparse@[self.sparse_idx(k)].kind == k,
    {
        assert forall|k: usize| self.has_dense(k) == other.has_dense(k) by {
            if self.has_dense(k) {
                let i = choose|i: int|
                    0 <= i < self.components@.len() && self.components@[i].kind == k;
                assert(other.components@[i].kind == k);
            }
            if other.has_dense(k) {
                let i = choose|i: int|
                    0 <= i < other.components@.len() && other.components@[i].kind == k;
                assert(self.components@[i].kind == k);
            }
        }
        assert forall|k: usize| #[trigger] self.has_dense(k) implies self.dense_idx(k)
            == other.dense_idx(k) && 0 <= self.dense_idx(k) < self.components@.len()
            && self.components@[self.dense_idx(k)].kind == k by {
            let i = self.dense_idx(k);
            assert(0 <= i < self.components@.len() && self.components@[i].kind == k);
            let j = other.dense_idx(k);
            assert(0 <= j < other.components@.len() && other.components@[j].kind == k);
            if i != j {
                assert(self.components@[j].kind == k);
                assert(false);
            }
        }
        assert forall|k: usize| self.has_sparse(k) == other.has_sparse(k) by {
            if self.has_sparse(k) {
                let i = choose|i: int|
                    0 <= i < self.components_sparse@.len()
                        && self.components_sparse@[i].kind == k;
                assert(other.components_sparse@[i].kind == k);
            }
            if other.has_sparse(k) {
                let i = choose|i: int|
                    0 <= i < other.components_sparse@.len()
                        && other.components_sparse@[i].kind == k;
                assert(self.components_sparse@[i].kind == k);
            }
        }
        assert forall|k: usize| #[trigger] self.has_sparse(k) implies self.sparse_idx(k)
            == other.sparse_idx(k) && 0 <= self.sparse_idx(k) < self.components_sparse@.len()
            && self.components_sparse@[self.sparse_idx(k)].kind == k by {
            let i = self.sparse_idx(k);
            assert(0 <= i < self.components_sparse@.len()
                && self.components_sparse@[i].kind == k);
            let j = other.sparse_idx(k);
            assert(0 <= j < other.components_sparse@.len()
                && other.components_sparse@[j].kind == k);
            if i != j {
                assert(self.components_sparse@[j].kind == k);
                assert(false);
            }
        }
    }
}

/// Law: creating an entity grows every pre-existing dense column by exactly
/// one slot, the new entity's slot, and that slot is empty; the column's
/// existing slots are untouched. The premises are what `add_entity` ensures
/// of any dense column that existed before the call.
pub proof fn lemma_add_entity_grows_dense<V>(pre: World<V>, post: World<V>, k: usize)
    requires
        pre.has_dense(k),
        post.dense_at(k) == pre.dense_at(k).push(None),
    ensures
        post.dense_at(k).len() == pre.dense_at(k).len() + 1,
        post.dense_at(k)[pre.dense_at(k).len() as int] is None,
        forall|j: int| 0 <= j < pre.dense_at(k).len() ==> post.dense_at(k)[j] == pre.dense_at(k)[j],
{
}

/// Law: a component stored for an entity reads back from the matching
/// column, at that entity's id, as exactly the stored value.
pub proof fn lemma_component_stored<V: Component>(w0: World<V>, id: usize, c: V, w1: World<V>)
    requires
        w0.wf(),
        id < w0.entities(),
        !c.spec_sparse() && w0.has_dense(c.spec_kind()) ==> !w0.dense_taken(c.spec_kind()),
        spec_add_component(w0, id, c, w1),
    ensures
        c.spec_sparse() ==> w1.sparse_at(c.spec_kind()).contains_key(id) && w1.sparse_at(
            c.spec_kind(),
        )[id] == c,
        !c.spec_sparse() ==> w1.dense_at(c.spec_kind()).len() == w0.entities() && w1.dense_at(
            c.spec_kind(),
        )[id as int] == Some(c),
{
}

/// Law: a component stored for an entity still reads back unchanged after a
/// second component is stored, whenever the second store goes to a
/// different column (another kind, or the other backing strategy) or to a
/// different entity. Insertion order between distinct kinds therefore does
/// not matter for what each column holds.
pub proof fn lemma_component_read_back<V: Component>(
    w0: World<V>,
    id: usize,
    c: V,
    w1: World<V>,
    id2: usize,
    c2: V,
    w2: World<V>,
)
    requires
        w0.wf(),
        w1.wf(),
        id < w0.entities(),
        id2 < w1.entities(),
        !c.spec_sparse() && w0.has_dense(c.spec_kind()) ==> !w0.dense_taken(c.spec_kind()),
        spec_add_component(w0, id, c, w1),
        spec_add_component(w1, id2, c2, w2),
        !(c2.spec_kind() == c.spec_kind() && c2.spec_sparse() == c.spec_sparse() && id2 == id),
    ensures
        c.spec_sparse() ==> w2.sparse_at(c.spec_kind()).contains_key(id) && w2.sparse_at(
            c.spec_kind(),
        )[id] == c,
        !c.spec_sparse() ==> w2.dense_at(c.spec_kind())[id as int] == Some(c),
{
    lemma_component_stored(w0, id, c, w1);
    let k = c.spec_kind();
    if c.spec_sparse() {
        if c2.spec_sparse() && c2.spec_kind() == k {
            assert(w2.sparse_at(k) == w1.sparse_at(k).insert(id2, c2));
        } else {
            assert(w2.sparse_at(k) == w1.sparse_at(k));
        }
    } else {
        if !c2.spec_sparse() && c2.spec_kind() == k {
            assert(w2.dense_at(k) == w1.dense_at(k).update(id2 as int, Some(c2)));
        } else {
            assert(w2.dense_at(k) == w1.dense_at(k));
        }
    }
}

/// Law: removing an entity's component of one kind leaves the entity's
/// entry absent from that kind's columns, leaves every other entity's entry
/// of that kind untouched, and touches no other kind. The premises are what
/// `remove_entity` ensures.
pub proof fn lemma_removed_component_absent<V>(
    w0: World<V>,
    kind: usize,
    id: usize,
    w1: World<V>,
)
    requires
        w0.wf(),
        id < w0.entities(),
        w0.has_dense(kind) ==> !w0.dense_taken(kind),
        spec_remove_entity(w0, kind, id, w1),
    ensures
        w0.has_dense(kind) ==> w1.dense_at(kind)[id as int] is None && forall|j: int|
            0 <= j < w0.dense_at(kind).len() && j != id ==> w1.dense_at(kind)[j] == w0.dense_at(
                kind,
            )[j],
        w0.has_sparse(kind) ==> !w1.sparse_at(kind).contains_key(id) && forall|j: usize|
            j != id ==> #[trigger] w1.sparse_at(kind).contains_key(j) == w0.sparse_at(
                kind,
            ).contains_key(j) && (w0.sparse_at(kind).contains_key(j) ==> w1.sparse_at(kind)[j]
                == w0.sparse_at(kind)[j]),
{
}

} // verus!
