//! The storage side of the entity/component store: the `Component` trait
//! that component values implement to pick their backing strategy, and the
//! two backing column types, dense (one slot per entity) and sparse (keyed
//! by entity id).

use vstd::prelude::*;
use std::collections::HashMap;

verus! {

/// A component value. Each value reports a stable small key identifying its
/// component kind, and whether that kind is stored sparsely (in a map keyed
/// by entity id) or densely (in a column with one slot per entity).
///
/// Implementations outside this crate are not verified; the store's
/// contracts hold as far as `kind` and `is_sparse` really follow their
/// specification functions, which any implementation that returns fixed
/// values per variant does.
pub trait Component: Sized {
    /// The kind key, as contracts see it.
    spec fn spec_kind(&self) -> usize;

    /// Whether the kind is sparse, as contracts see it.
    spec fn spec_sparse(&self) -> bool;

    /// The stable key of this value's component kind.
    fn kind(&self) -> (k: usize)
        ensures
            k == self.spec_kind(),
    ;

    /// Whether this value's kind is stored sparsely.
    fn is_sparse(&self) -> (b: bool)
        ensures
            b == self.spec_sparse(),
    ;
}

/// The interface common to the two backing stores: each can grow by one
/// empty slot when an entity is created.
pub trait ComponentStorage: Sized {
    /// What growing by one empty slot does to the store.
    spec fn grown(pre: Self, post: Self) -> bool;

    /// Appends one empty slot for a newly created entity, where the backing
    /// strategy has per-entity slots at all.
    fn push_none(&mut self)
        ensures
            Self::grown(*old(self), *final(self)),
    ;
}

/// A dense column: one optional slot per entity for a single component
/// kind. While the column is checked out (`taken`), its slots live with the
/// borrower and `slots` is empty.
pub struct DenseColumn<V> {
    /// The component kind this column stores.
    pub kind: usize,
    /// Whether the column is currently checked out.
    pub taken: bool,
    /// One slot per entity, empty while checked out.
    pub slots: Vec<Option<V>>,
}

impl<V> ComponentStorage for DenseColumn<V> {
    open spec fn grown(pre: Self, post: Self) -> bool {
        &&& post.kind == pre.kind
        &&& post.taken == pre.taken
        &&& post.slots@ == pre.slots@.push(None)
    }

    fn push_none(&mut self) {
        self.slots.push(None);
    }
}

/// A sparse column: a map from entity id to component value for a single
/// component kind. While the column is checked out (`taken`), its entries
/// live with the borrower and `map` is empty.
pub struct SparseColumn<V> {
    /// The component kind this column stores.
    pub kind: usize,
    /// Whether the column is currently checked out.
    pub taken: bool,
    /// The entries, keyed by entity id, empty while checked out.
    pub map: HashMap<usize, V>,
}

impl<V> ComponentStorage for SparseColumn<V> {
    open spec fn grown(pre: Self, post: Self) -> bool {
        post == pre
    }

    fn push_none(&mut self) {
        // A sparse column has no per-entity slots, so there is nothing to
        // grow: absent entries simply are not keys.
    }
}

} // verus!
