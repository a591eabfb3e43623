//! The explicit transaction batch: an accumulation of entity mutations that
//! commit together as one atomic operation.

use vstd::prelude::*;

use crate::entity::DatastoreEntity;
use crate::error::{DatastoreClientError, DatastorersError};
use crate::mutation::{CommitResponse, Mutation, MutationResultView, MutationView};
use crate::store::{spec_begin, spec_commit, InMemoryDatastore};
use crate::update::{
    build_delete_mutation, build_upsert_mutation, parse_mutation_result, spec_build_delete,
    spec_build_upsert, spec_expects_key_after_commit,
};

verus! {

/// What the result interpreter makes of a batch commit response for `n`
/// submitted mutations: no results at all, or fewer than submitted, is
/// `KeyAssignmentFailed` (the store acknowledged less than the whole batch);
/// more results than submitted is `AmbiguousResult`; otherwise each result
/// is inspected for a conflict, in order, and any conflict fails the commit
/// with `DataConflict`.
pub open spec fn spec_interpret_batch(n: int, results: Option<Seq<MutationResultView>>) -> Result<
    (),
    DatastoreClientError,
> {
    match results {
        None => Err(DatastoreClientError::KeyAssignmentFailed),
        Some(rs) => if rs.len() > n {
            Err(DatastoreClientError::AmbiguousResult)
        } else if rs.len() < n {
            Err(DatastoreClientError::KeyAssignmentFailed)
        } else if exists|i: int| 0 <= i < rs.len() && rs[i].conflict_detected == Some(true) {
            Err(DatastoreClientError::DataConflict)
        } else {
            Ok(())
        },
    }
}

/// Interprets the store's response to a batch commit of `n` mutations. Every
/// result's conflict verdict is inspected exactly once, before anything
/// else, so no conflict is masked; assigned identities are not read back
/// here.
pub fn interpret_batch_response(n: usize, response: &CommitResponse) -> (r: Result<
    (),
    DatastorersError,
>)
    ensures
        match spec_interpret_batch(n as int, response@.mutation_results) {
            Ok(u) => r is Ok,
            Err(ce) => r matches Err(e) && e.is_client_error(ce),
        },
{
    match &response.mutation_results {
        None => Err(
            DatastorersError::DatastoreClientError(DatastoreClientError::KeyAssignmentFailed),
        ),
        Some(results) => {
            proof {
                assert(response@.mutation_results == Some(results.deep_view()));
            }
            if results.len() > n {
                return Err(DatastorersError::DatastoreClientError(
                    DatastoreClientError::AmbiguousResult,
                ));
            }
            if results.len() < n {
                return Err(DatastorersError::DatastoreClientError(
                    DatastoreClientError::KeyAssignmentFailed,
                ));
            }
            let m = results.len();
            let mut i: usize = 0;
            while i < m
                invariant
                    i <= m,
                    m == results@.len(),
                    m == n,
                    response@.mutation_results == Some(results.deep_view()),
                    forall|j: int|
                        0 <= j < i ==> results.deep_view()[j].conflict_detected != Some(true),
                decreases m - i,
            {
                proof {
                    assert(results.deep_view()[i as int] == results@[i as int]@);
                }
                match parse_mutation_result(&results[i]) {
                    Err(e) => {
                        proof {
                            assert(results.deep_view()[i as int].conflict_detected == Some(true));
                        }
                        return Err(e);
                    },
                    Ok(_assigned_key) => {},
                }
                i = i + 1;
            }
            Ok(())
        },
    }
}

/// An explicit, caller-controlled transaction: created by `begin_transaction`
/// (which acquires a handle from the store), grown by `push_save` and
/// `push_delete` (which queue mutations without touching the store), and
/// terminated exactly once by `commit`, which consumes the batch and submits
/// all pending mutations as one atomic request under the held handle. A
/// batch that is dropped uncommitted has applied nothing; the store-side
/// transaction is simply abandoned.
pub struct TransactionConnection {
    handle: i64,
    pending: Vec<Mutation>,
}

impl TransactionConnection {
    /// The mutations queued so far, in push order.
    pub closed spec fn pending_view(&self) -> Seq<MutationView> {
        self.pending.deep_view()
    }

    /// The transaction handle held for the batch's lifetime.
    pub closed spec fn handle_id(&self) -> i64 {
        self.handle
    }

    /// Opens a transaction: acquires a handle from the store and returns an
    /// empty batch that exclusively owns it.
    pub fn begin_transaction(store: &mut InMemoryDatastore) -> (t: Self)
        requires
            old(store)@.next_handle < i64::MAX,
        ensures
            final(store)@ == spec_begin(old(store)@).0,
            old(store)@.wf() ==> final(store)@.wf(),
            t.pending_view() == Seq::<MutationView>::empty(),
            t.handle_id() == spec_begin(old(store)@).1,
    {
        let handle = store.begin_transaction();
        let t = TransactionConnection { handle, pending: Vec::new() };
        proof {
            assert(t.pending_view() =~= Seq::<MutationView>::empty());
        }
        t
    }

    /// Queues an upsert of the record, after the same identity policy check
    /// a standalone commit makes. Touches no network; on rejection the batch
    /// is unchanged and stays usable.
    pub fn push_save(&mut self, entity: DatastoreEntity) -> (r: Result<(), DatastorersError>)
        ensures
            final(self).handle_id() == old(self).handle_id(),
            match spec_expects_key_after_commit(entity@.key) {
                Ok(b) => r is Ok && final(self).pending_view() == old(self).pending_view().push(
                    spec_build_upsert(entity@),
                ),
                Err(ce) => r matches Err(e) && e.is_client_error(ce) && final(self).pending_view()
                    == old(self).pending_view(),
            },
    {
        let ghost ev = entity@;
        match build_upsert_mutation(entity) {
            Ok(m) => {
                self.pending.push(m);
                proof {
                    assert(self.pending_view() =~= old(self).pending_view().push(
                        spec_build_upsert(ev),
                    ));
                }
                Ok(())
            },
            Err(e) => Err(e),
        }
    }

    /// Queues a delete of the record's entity; fails with `NotFound` when
    /// the record carries no identity. Touches no network; on rejection the
    /// batch is unchanged and stays usable.
    pub fn push_delete(&mut self, entity: DatastoreEntity) -> (r: Result<(), DatastorersError>)
        ensures
            final(self).handle_id() == old(self).handle_id(),
            match spec_build_delete(entity@) {
                Ok(m) => r is Ok && final(self).pending_view() == old(self).pending_view().push(m),
                Err(ce) => r matches Err(e) && e.is_client_error(ce) && final(self).pending_view()
                    == old(self).pending_view(),
            },
    {
        let ghost ev = entity@;
        match build_delete_mutation(entity) {
            Ok(m) => {
                self.pending.push(m);
                proof {
                    assert(self.pending_view() =~= old(self).pending_view().push(
                        spec_build_delete(ev)->Ok_0,
                    ));
                }
                Ok(())
            },
            Err(e) => Err(e),
        }
    }

    /// Commits the batch: submits all pending mutations as one atomic
    /// request under the held handle, and consumes the batch, so neither a
    /// second commit nor a later push can happen. If any mutation conflicts,
    /// the whole transaction fails with `DataConflict` and none of the
    /// pending mutations takes effect.
    pub fn commit(self, store: &mut InMemoryDatastore) -> (r: Result<(), DatastorersError>)
        requires
            old(store)@.wf(),
            old(store)@.next_version < i64::MAX,
            old(store)@.next_id + self.pending_view().len() <= i64::MAX,
        ensures
            final(store)@.wf(),
            final(store)@ == spec_commit(old(store)@, self.pending_view()).0,
            match spec_interpret_batch(
                self.pending_view().len() as int,
                Some(spec_commit(old(store)@, self.pending_view()).1),
            ) {
                Ok(u) => r is Ok,
                Err(ce) => r matches Err(e) && e.is_client_error(ce),
            },
    {
        let n = self.pending.len();
        let response = store.apply_commit(&self.pending, self.handle);
        interpret_batch_response(n, &response)
    }
}

} // verus!
