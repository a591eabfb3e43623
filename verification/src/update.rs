//! The mutation/commit protocol: deciding what to send to the store,
//! interpreting the store's response, detecting write conflicts, and
//! assigning server-side identity back onto the record.

use vstd::prelude::*;

use crate::entity::{
    check_key_incomplete, key_is_incomplete, DatastoreEntity, DatastoreEntityView, Key, KeyView,
};
use crate::error::{DatastoreClientError, DatastoreParseError, DatastorersError};
use crate::mutation::{
    CommitResponse, CommitResponseView, Mutation, MutationOperation, MutationResult,
    MutationResultView, MutationView,
};
use crate::store::{spec_begin, spec_commit, DatastoreView, InMemoryDatastore};

verus! {

/// What the identity policy decides for a record's key: `Ok(true)` when the
/// store must assign the identity, `Ok(false)` when the identity is already
/// resolved, and `Err(KeyMissing)` when no placeholder is present at all.
pub open spec fn spec_expects_key_after_commit(key: Option<KeyView>) -> Result<
    bool,
    DatastoreClientError,
> {
    match key {
        Some(k) => Ok(key_is_incomplete(k)),
        None => Err(DatastoreClientError::KeyMissing),
    }
}

/// Identity assignment policy: decides, before submission, whether the store
/// is expected to assign a new key. Every record, even a new one, must carry
/// a structurally valid — possibly incomplete — identity placeholder;
/// `KeyMissing` is raised when none is present. The verdict is `true` iff the
/// placeholder's path is non-empty and its first element carries neither a
/// literal name nor a literal id.
pub fn expects_key_after_commit(key: &Option<Key>) -> (r: Result<bool, DatastoreClientError>)
    ensures
        r == spec_expects_key_after_commit(key.deep_view()),
{
    match key {
        Some(k) => Ok(check_key_incomplete(k)),
        None => Err(DatastoreClientError::KeyMissing),
    }
}

/// The conflict check's verdict on one mutation result: `Conflict`, or
/// `Clean` carrying whatever identity the store assigned.
pub open spec fn spec_parse_mutation_result(r: MutationResultView) -> Result<
    Option<KeyView>,
    DatastoreClientError,
> {
    if r.conflict_detected == Some(true) {
        Err(DatastoreClientError::DataConflict)
    } else {
        Ok(r.key)
    }
}

/// Inspects one mutation result: fails with `DataConflict` iff the store
/// reported a conflict, and otherwise hands back the key the store assigned,
/// if any. This is the one place a conflict is observed; interpreters call it
/// exactly once per result, before any identity-assignment branch.
pub fn parse_mutation_result(result: &MutationResult) -> (r: Result<Option<Key>, DatastorersError>)
    ensures
        match spec_parse_mutation_result(result@) {
            Ok(k) => r matches Ok(k2) && k2.deep_view() == k,
            Err(ce) => r matches Err(e) && e.is_client_error(ce),
        },
{
    if let Some(conflict_detected) = result.conflict_detected {
        if conflict_detected {
            return Err(DatastorersError::DatastoreClientError(DatastoreClientError::DataConflict));
        }
    }
    match &result.key {
        Some(k) => Ok(Some(k.clone())),
        None => Ok(None),
    }
}

/// The mutation a commit of `e` submits: an upsert of the whole record, with
/// the record's current version as the expected version.
pub open spec fn spec_build_upsert(e: DatastoreEntityView) -> MutationView {
    MutationView {
        operation: crate::mutation::MutationOperationView::Upsert(e),
        base_version: e.version,
    }
}

/// The mutation a delete of `e` submits, or `NotFound` when the record
/// carries no identity to address.
pub open spec fn spec_build_delete(e: DatastoreEntityView) -> Result<
    MutationView,
    DatastoreClientError,
> {
    match e.key {
        Some(k) => Ok(
            MutationView {
                operation: crate::mutation::MutationOperationView::Delete(k),
                base_version: e.version,
            },
        ),
        None => Err(DatastoreClientError::NotFound),
    }
}

/// Builds the upsert mutation for a record, after the identity policy has
/// accepted it. Consumes the record into the mutation.
pub fn build_upsert_mutation(entity: DatastoreEntity) -> (r: Result<Mutation, DatastorersError>)
    ensures
        match spec_expects_key_after_commit(entity@.key) {
            Ok(b) => r matches Ok(m) && m@ == spec_build_upsert(entity@),
            Err(ce) => r matches Err(e) && e.is_client_error(ce),
        },
{
    match expects_key_after_commit(&entity.key) {
        Ok(_) => {
            let base_version = entity.version;
            Ok(Mutation { operation: MutationOperation::Upsert(entity), base_version })
        },
        Err(e) => Err(DatastorersError::DatastoreClientError(e)),
    }
}

/// Builds the delete mutation for a record: fails with `NotFound` when the
/// record carries no resolved identity, since there is nothing to address.
pub fn build_delete_mutation(entity: DatastoreEntity) -> (r: Result<Mutation, DatastorersError>)
    ensures
        match spec_build_delete(entity@) {
            Ok(m) => r matches Ok(m2) && m2@ == m,
            Err(ce) => r matches Err(e) && e.is_client_error(ce),
        },
{
    let base_version = entity.version;
    match entity.key {
        Some(k) => Ok(Mutation { operation: MutationOperation::Delete(k), base_version }),
        None => Err(DatastorersError::DatastoreClientError(DatastoreClientError::NotFound)),
    }
}

/// What the result interpreter makes of a commit response for one submitted
/// mutation: no results at all is `KeyAssignmentFailed`; exactly one result
/// is inspected for a conflict first, then for the assigned identity when
/// one was expected; more than one result is `AmbiguousResult`.
pub open spec fn spec_interpret_commit(
    expects_key: bool,
    e: DatastoreEntityView,
    resp: CommitResponseView,
) -> Result<DatastoreEntityView, DatastoreClientError> {
    match resp.mutation_results {
        None => Err(DatastoreClientError::KeyAssignmentFailed),
        Some(rs) => if rs.len() == 0 {
            Err(DatastoreClientError::KeyAssignmentFailed)
        } else if rs.len() == 1 {
            if rs[0].conflict_detected == Some(true) {
                Err(DatastoreClientError::DataConflict)
            } else if expects_key {
                match rs[0].key {
                    Some(k) => Ok(DatastoreEntityView { key: Some(k), ..e }),
                    None => Err(DatastoreClientError::KeyAssignmentFailed),
                }
            } else {
                Ok(e)
            }
        } else {
            Err(DatastoreClientError::AmbiguousResult)
        },
    }
}

/// Interprets the store's response to a single-mutation commit. The conflict
/// check runs exactly once, before any identity handling, so a conflict is
/// never masked by an early return. On success the returned record is the
/// submitted one, with its identity replaced by the assigned one iff the
/// policy predicted an assignment; the caller's record itself is not
/// mutated.
pub fn interpret_commit_response(
    expects_key: bool,
    entity: &DatastoreEntity,
    response: &CommitResponse,
) -> (r: Result<DatastoreEntity, DatastorersError>)
    ensures
        match spec_interpret_commit(expects_key, entity@, response@) {
            Ok(ev) => r matches Ok(e2) && e2@ == ev,
            Err(ce) => r matches Err(e) && e.is_client_error(ce),
        },
{
    match &response.mutation_results {
        None => Err(
            DatastorersError::DatastoreClientError(DatastoreClientError::KeyAssignmentFailed),
        ),
        Some(results) => {
            proof {
                assert(response@.mutation_results == Some(results.deep_view()));
            }
            if results.len() == 0 {
                Err(DatastorersError::DatastoreClientError(
                    DatastoreClientError::KeyAssignmentFailed,
                ))
            } else if results.len() == 1 {
                proof {
                    assert(results.deep_view()[0] == results@[0]@);
                }
                match parse_mutation_result(&results[0]) {
                    Err(e) => Err(e),
                    Ok(assigned_key) => {
                        let mut result_entity = entity.clone();
                        if expects_key {
                            match assigned_key {
                                Some(key) => {
                                    result_entity.set_key(Some(key));
                                    proof {
                                        assert(result_entity@ =~= (DatastoreEntityView {
                                            key: results.deep_view()[0].key,
                                            ..entity@
                                        }));
                                    }
                                    Ok(result_entity)
                                },
                                None => Err(DatastorersError::DatastoreClientError(
                                    DatastoreClientError::KeyAssignmentFailed,
                                )),
                            }
                        } else {
                            Ok(result_entity)
                        }
                    },
                }
            } else {
                Err(DatastorersError::DatastoreClientError(DatastoreClientError::AmbiguousResult))
            }
        },
    }
}

/// What the result interpreter makes of a delete response: no results at all
/// is `DeleteFailed`; one result is inspected for a conflict; more than one
/// is `AmbiguousResult`. Success carries no payload.
pub open spec fn spec_interpret_delete(resp: CommitResponseView) -> Result<
    (),
    DatastoreClientError,
> {
    match resp.mutation_results {
        None => Err(DatastoreClientError::DeleteFailed),
        Some(rs) => if rs.len() == 0 {
            Err(DatastoreClientError::DeleteFailed)
        } else if rs.len() == 1 {
            if rs[0].conflict_detected == Some(true) {
                Err(DatastoreClientError::DataConflict)
            } else {
                Ok(())
            }
        } else {
            Err(DatastoreClientError::AmbiguousResult)
        },
    }
}

/// Interprets the store's response to a single-mutation delete.
pub fn interpret_delete_response(response: &CommitResponse) -> (r: Result<(), DatastorersError>)
    ensures
        match spec_interpret_delete(response@) {
            Ok(u) => r is Ok,
            Err(ce) => r matches Err(e) && e.is_client_error(ce),
        },
{
    match &response.mutation_results {
        None => Err(DatastorersError::DatastoreClientError(DatastoreClientError::DeleteFailed)),
        Some(results) => {
            proof {
                assert(response@.mutation_results == Some(results.deep_view()));
            }
            if results.len() == 0 {
                Err(DatastorersError::DatastoreClientError(DatastoreClientError::DeleteFailed))
            } else if results.len() == 1 {
                proof {
                    assert(results.deep_view()[0] == results@[0]@);
                }
                match parse_mutation_result(&results[0]) {
                    Err(e) => Err(e),
                    Ok(_assigned_key) => Ok(()),
                }
            } else {
                Err(DatastorersError::DatastoreClientError(DatastoreClientError::AmbiguousResult))
            }
        },
    }
}

/// What a standalone commit of one record does to the store and returns to
/// the caller: the policy inspects the record, an implicit transaction is
/// begun, the single upsert mutation is committed under it, and the response
/// is interpreted.
pub open spec fn spec_commit_one(s: DatastoreView, e: DatastoreEntityView) -> (
    DatastoreView,
    Result<DatastoreEntityView, DatastoreClientError>,
) {
    match spec_expects_key_after_commit(e.key) {
        Err(ce) => (s, Err(ce)),
        Ok(expects) => {
            let s1 = spec_begin(s).0;
            let committed = spec_commit(s1, seq![spec_build_upsert(e)]);
            (
                committed.0,
                spec_interpret_commit(
                    expects,
                    e,
                    CommitResponseView { mutation_results: Some(committed.1) },
                ),
            )
        },
    }
}

/// What a standalone delete of one record does to the store and returns:
/// `NotFound` without any store interaction when the record carries no
/// identity; otherwise a single delete mutation is committed under an
/// implicit transaction and the response interpreted.
pub open spec fn spec_delete_one(s: DatastoreView, e: DatastoreEntityView) -> (
    DatastoreView,
    Result<(), DatastoreClientError>,
) {
    match spec_build_delete(e) {
        Err(ce) => (s, Err(ce)),
        Ok(m) => {
            let s1 = spec_begin(s).0;
            let committed = spec_commit(s1, seq![m]);
            (
                committed.0,
                spec_interpret_delete(CommitResponseView { mutation_results: Some(committed.1) }),
            )
        },
    }
}

/// Commits one record as a standalone operation: begins an implicit
/// transaction against the store, submits exactly one upsert mutation under
/// it, and interprets the result. The caller's record is not mutated; a new
/// record reflecting server-assigned state is returned. Nothing is retried
/// or swallowed: conflict and ambiguity surface as errors.
pub fn commit_one(store: &mut InMemoryDatastore, entity: DatastoreEntity) -> (r: Result<
    DatastoreEntity,
    DatastorersError,
>)
    requires
        old(store)@.wf(),
        old(store)@.next_handle < i64::MAX,
        old(store)@.next_version < i64::MAX,
        old(store)@.next_id < i64::MAX,
    ensures
        final(store)@.wf(),
        final(store)@ == spec_commit_one(old(store)@, entity@).0,
        match spec_commit_one(old(store)@, entity@).1 {
            Ok(ev) => r matches Ok(e2) && e2@ == ev,
            Err(ce) => r matches Err(e) && e.is_client_error(ce),
        },
{
    let expects_key = match expects_key_after_commit(&entity.key) {
        Ok(b) => b,
        Err(e) => {
            return Err(DatastorersError::DatastoreClientError(e));
        },
    };
    let result_entity = entity.clone();
    let base_version = entity.version;
    let mut mutations: Vec<Mutation> = Vec::new();
    mutations.push(Mutation { operation: MutationOperation::Upsert(entity), base_version });
    proof {
        assert(mutations.deep_view() =~= seq![spec_build_upsert(result_entity@)]);
    }
    let handle = store.begin_transaction();
    let response = store.apply_commit(&mutations, handle);
    interpret_commit_response(expects_key, &result_entity, &response)
}

/// Deletes one record as a standalone operation: requires the record to
/// carry a resolved identity (`NotFound` otherwise), begins an implicit
/// transaction, submits exactly one delete mutation under it, and interprets
/// the result.
pub fn delete_one(store: &mut InMemoryDatastore, entity: DatastoreEntity) -> (r: Result<
    (),
    DatastorersError,
>)
    requires
        old(store)@.wf(),
        old(store)@.next_handle < i64::MAX,
        old(store)@.next_version < i64::MAX,
        old(store)@.next_id < i64::MAX,
    ensures
        final(store)@.wf(),
        final(store)@ == spec_delete_one(old(store)@, entity@).0,
        match spec_delete_one(old(store)@, entity@).1 {
            Ok(u) => r is Ok,
            Err(ce) => r matches Err(e) && e.is_client_error(ce),
        },
{
    let ghost ev = entity@;
    let mutation = match build_delete_mutation(entity) {
        Ok(m) => m,
        Err(e) => {
            return Err(e);
        },
    };
    let mut mutations: Vec<Mutation> = Vec::new();
    mutations.push(mutation);
    proof {
        assert(mutations.deep_view() =~= seq![spec_build_delete(ev)->Ok_0]);
    }
    let handle = store.begin_transaction();
    let response = store.apply_commit(&mutations, handle);
    interpret_delete_response(&response)
}

/// The capability interface of the persistence protocol: any record type
/// convertible to and from the generic entity record gains `commit` and
/// `delete`, implemented once here in terms of [`commit_one`] and
/// [`delete_one`]. An implementor states what its conversions mean through
/// the two spec functions; `commit` and `delete` are then pinned to the
/// exact composition of the conversions with the standalone operations.
pub trait DatastorersUpdatable: Sized {
    /// The entity image of this record: the entity record `try_into_entity`
    /// produces, as a mathematical value, or the mapping error it raises.
    spec fn into_entity_spec(self) -> Result<DatastoreEntityView, DatastoreParseError>;

    /// What `try_from_entity` makes of an entity with the given image: the
    /// relation between the image and the recovered record or error.
    spec fn from_entity_spec(entity: DatastoreEntityView, r: Result<Self, DatastorersError>) -> bool;

    /// Converts the typed record into the generic entity record; fails with
    /// a parse error when required fields are unset.
    fn try_into_entity(self) -> (r: Result<DatastoreEntity, DatastorersError>)
        ensures
            match Self::into_entity_spec(self) {
                Ok(ev) => r matches Ok(e) && e@ == ev,
                Err(pe) => r matches Err(e) && e.is_parse_error(pe),
            },
    ;

    /// Converts the generic entity record back into the typed record; fails
    /// with a parse error when required properties are absent.
    fn try_from_entity(entity: DatastoreEntity) -> (r: Result<Self, DatastorersError>)
        ensures
            Self::from_entity_spec(entity@, r),
    ;

    /// Commits this record against the store and returns the record
    /// reflecting server-assigned state. The outcome is exactly the
    /// composition of the conversions with the standalone commit: a mapping
    /// failure propagates its parse error and leaves the store untouched;
    /// otherwise the store undergoes one standalone commit of the record's
    /// entity image, whose protocol error propagates unchanged, and on
    /// success the result is the typed image of the returned record.
    fn commit(self, store: &mut InMemoryDatastore) -> (r: Result<Self, DatastorersError>)
        requires
            old(store)@.wf(),
            old(store)@.next_handle < i64::MAX,
            old(store)@.next_version < i64::MAX,
            old(store)@.next_id < i64::MAX,
        ensures
            final(store)@.wf(),
            match Self::into_entity_spec(self) {
                Err(pe) => {
                    &&& final(store)@ == old(store)@
                    &&& r matches Err(e) && e.is_parse_error(pe)
                },
                Ok(ev) => {
                    &&& final(store)@ == spec_commit_one(old(store)@, ev).0
                    &&& match spec_commit_one(old(store)@, ev).1 {
                        Err(ce) => r matches Err(e) && e.is_client_error(ce),
                        Ok(ev2) => Self::from_entity_spec(ev2, r),
                    }
                },
            },
    {
        match self.try_into_entity() {
            Ok(entity) => match commit_one(store, entity) {
                Ok(result_entity) => Self::try_from_entity(result_entity),
                Err(e) => Err(e),
            },
            Err(e) => Err(e),
        }
    }

    /// Deletes this record's entity from the store. The outcome is exactly
    /// the standalone delete of the record's entity image: a mapping failure
    /// propagates its parse error with nothing submitted; otherwise the
    /// delete's protocol error, or its success, is the caller's outcome.
    fn delete(self, store: &mut InMemoryDatastore) -> (r: Result<(), DatastorersError>)
        requires
            old(store)@.wf(),
            old(store)@.next_handle < i64::MAX,
            old(store)@.next_version < i64::MAX,
            old(store)@.next_id < i64::MAX,
        ensures
            final(store)@.wf(),
            match Self::into_entity_spec(self) {
                Err(pe) => {
                    &&& final(store)@ == old(store)@
                    &&& r matches Err(e) && e.is_parse_error(pe)
                },
                Ok(ev) => {
                    &&& final(store)@ == spec_delete_one(old(store)@, ev).0
                    &&& match spec_delete_one(old(store)@, ev).1 {
                        Ok(u) => r is Ok,
                        Err(ce) => r matches Err(e) && e.is_client_error(ce),
                    }
                },
            },
    {
        match self.try_into_entity() {
            Ok(entity) => delete_one(store, entity),
            Err(e) => Err(e),
        }
    }
}

impl DatastorersUpdatable for DatastoreEntity {
    /// The generic entity record is its own entity image.
    open spec fn into_entity_spec(self) -> Result<DatastoreEntityView, DatastoreParseError> {
        Ok(self@)
    }

    /// Recovering the generic entity record always succeeds and keeps the
    /// image.
    open spec fn from_entity_spec(
        entity: DatastoreEntityView,
        r: Result<Self, DatastorersError>,
    ) -> bool {
        r matches Ok(e) && e@ == entity
    }

    fn try_into_entity(self) -> (r: Result<DatastoreEntity, DatastorersError>) {
        Ok(self)
    }

    fn try_from_entity(entity: DatastoreEntity) -> (r: Result<Self, DatastorersError>) {
        Ok(entity)
    }
}

} // verus!
