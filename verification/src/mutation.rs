//! Mutations submitted to the store and the per-mutation results it returns.

use vstd::prelude::*;

use crate::entity::{DatastoreEntity, DatastoreEntityView, Key, KeyView};

verus! {

/// What one mutation does: write a whole entity, or remove the entity with a
/// given identity.
pub enum MutationOperation {
    Upsert(DatastoreEntity),
    Delete(Key),
}

/// Mathematical model of a [`MutationOperation`].
#[verifier::ext_equal]
pub ghost enum MutationOperationView {
    Upsert(DatastoreEntityView),
    Delete(KeyView),
}

impl View for MutationOperation {
    type V = MutationOperationView;

    open spec fn view(&self) -> MutationOperationView {
        match self {
            MutationOperation::Upsert(e) => MutationOperationView::Upsert(e@),
            MutationOperation::Delete(k) => MutationOperationView::Delete(k@),
        }
    }
}

impl DeepView for MutationOperation {
    type V = MutationOperationView;

    open spec fn deep_view(&self) -> MutationOperationView {
        self.view()
    }
}

/// One mutation, carrying the version the caller last observed. If
/// `base_version` is set and does not match the version currently stored for
/// the addressed entity, the mutation conflicts.
pub struct Mutation {
    pub operation: MutationOperation,
    pub base_version: Option<i64>,
}

/// Mathematical model of a [`Mutation`].
#[verifier::ext_equal]
pub ghost struct MutationView {
    pub operation: MutationOperationView,
    pub base_version: Option<i64>,
}

impl View for Mutation {
    type V = MutationView;

    open spec fn view(&self) -> MutationView {
        MutationView { operation: self.operation@, base_version: self.base_version }
    }
}

impl DeepView for Mutation {
    type V = MutationView;

    open spec fn deep_view(&self) -> MutationView {
        self.view()
    }
}

impl MutationView {
    /// The identity a mutation addresses, as far as one is attached to it.
    pub open spec fn target(self) -> Option<KeyView> {
        match self.operation {
            MutationOperationView::Upsert(e) => e.key,
            MutationOperationView::Delete(k) => Some(k),
        }
    }

    /// A mutation the store accepts: an upsert always carries a key
    /// placeholder (possibly incomplete), a delete always a resolved key.
    pub open spec fn wf(self) -> bool {
        match self.operation {
            MutationOperationView::Upsert(e) => e.key is Some,
            MutationOperationView::Delete(k) => true,
        }
    }
}

/// The store's verdict on one submitted mutation: whether a conflict was
/// detected against the expected version, and the key the store allocated,
/// set only when the mutation allocated one.
pub struct MutationResult {
    pub conflict_detected: Option<bool>,
    pub key: Option<Key>,
}

/// Mathematical model of a [`MutationResult`].
#[verifier::ext_equal]
pub ghost struct MutationResultView {
    pub conflict_detected: Option<bool>,
    pub key: Option<KeyView>,
}

impl View for MutationResult {
    type V = MutationResultView;

    open spec fn view(&self) -> MutationResultView {
        MutationResultView { conflict_detected: self.conflict_detected, key: self.key.deep_view() }
    }
}

impl DeepView for MutationResult {
    type V = MutationResultView;

    open spec fn deep_view(&self) -> MutationResultView {
        self.view()
    }
}

/// The store's response to a commit: one result per submitted mutation, in
/// submission order, or nothing at all if the store acknowledged nothing.
pub struct CommitResponse {
    pub mutation_results: Option<Vec<MutationResult>>,
}

/// Mathematical model of a [`CommitResponse`].
#[verifier::ext_equal]
pub ghost struct CommitResponseView {
    pub mutation_results: Option<Seq<MutationResultView>>,
}

impl View for CommitResponse {
    type V = CommitResponseView;

    open spec fn view(&self) -> CommitResponseView {
        CommitResponseView { mutation_results: self.mutation_results.deep_view() }
    }
}

impl DeepView for CommitResponse {
    type V = CommitResponseView;

    open spec fn deep_view(&self) -> CommitResponseView {
        self.view()
    }
}

} // verus!
