//! The laws of the commit protocol, proved over the specification-level
//! behaviour of the store model and the protocol functions.

use vstd::prelude::*;

use crate::entity::{key_is_incomplete, DatastoreEntityView, KeyView};
use crate::error::DatastoreClientError;
use crate::mutation::{CommitResponseView, MutationView};
use crate::store::{
    conflict_flag, lemma_lookup_remove_same, lemma_lookup_upsert_same, lemma_lookup_version_below,
    mutation_conflicts, spec_any_conflict, spec_apply, spec_apply_one, spec_assign_key, spec_begin,
    spec_commit, spec_lookup, DatastoreView, StoredEntityView,
};
use crate::transaction::spec_interpret_batch;
use crate::update::{
    spec_build_upsert, spec_commit_one, spec_delete_one, spec_expects_key_after_commit,
    spec_interpret_commit,
};

verus! {

/// A commit of a single mutation, unfolded: the one result carries the
/// conflict verdict judged against the starting entries; on conflict the
/// store is untouched, otherwise the single mutation is applied and the
/// version counter consumed.
proof fn lemma_commit_singleton(s: DatastoreView, m: MutationView)
    ensures
        ({
            let c = spec_commit(s, seq![m]);
            &&& c.1.len() == 1
            &&& c.1[0].conflict_detected == conflict_flag(s.entries, m)
            &&& (mutation_conflicts(s.entries, m) ==> c.0 == s && c.1[0].key is None)
            &&& (!mutation_conflicts(s.entries, m) ==> c.0 == (DatastoreView {
                next_version: s.next_version + 1,
                ..spec_apply_one(s, m, s.next_version as i64).0
            }) && c.1[0].key == spec_apply_one(s, m, s.next_version as i64).1)
        }),
{
    let muts = seq![m];
    assert(muts.len() == 1);
    assert(muts[0] == m);
    if mutation_conflicts(s.entries, m) {
        assert(spec_any_conflict(s.entries, muts));
    } else {
        assert(!spec_any_conflict(s.entries, muts)) by {
            if spec_any_conflict(s.entries, muts) {
                let i = choose|i: int|
                    0 <= i < muts.len() && mutation_conflicts(s.entries, muts[i]);
                assert(muts[i] == m);
            }
        }
        let v = s.next_version as i64;
        assert(muts.drop_last() =~= Seq::<MutationView>::empty());
        assert(muts.last() == m);
        assert(spec_apply(s, muts.drop_last(), v).0 == s);
        assert(spec_apply(s, muts.drop_last(), v).1 =~= Seq::<Option<KeyView>>::empty());
        assert(spec_apply(s, muts, v).0 == spec_apply_one(s, m, v).0);
        assert(spec_apply(s, muts, v).1 =~= seq![spec_apply_one(s, m, v).1]);
    }
}

/// Law: for a new record — an identity placeholder not yet resolved to a
/// name or id, and no version token — a successful commit returns a record
/// whose identity is set, and that identity is stable: committing the
/// returned record again succeeds and keeps the same identity.
pub proof fn lemma_new_record_identity_stable(s: DatastoreView, e: DatastoreEntityView)
    requires
        s.wf(),
        e.key matches Some(k) && key_is_incomplete(k),
        e.version is None,
    ensures
        ({
            let first = spec_commit_one(s, e);
            &&& first.1 is Ok
            &&& first.1->Ok_0.key is Some
            &&& !key_is_incomplete(first.1->Ok_0.key->Some_0)
            &&& spec_commit_one(first.0, first.1->Ok_0).1 is Ok
            &&& spec_commit_one(first.0, first.1->Ok_0).1->Ok_0.key == first.1->Ok_0.key
        }),
{
    let k = e.key->Some_0;
    let m = spec_build_upsert(e);
    let s1 = spec_begin(s).0;
    assert(!mutation_conflicts(s1.entries, m));
    lemma_commit_singleton(s1, m);
    let v = s1.next_version as i64;
    let nk = spec_assign_key(k, s1.next_id as i64);
    assert(spec_apply_one(s1, m, v).1 == Some(nk));
    assert(nk.path[0].id is Some);
    assert(!key_is_incomplete(nk));
    let e1 = DatastoreEntityView { key: Some(nk), ..e };
    assert(spec_commit_one(s, e).1 == Ok::<DatastoreEntityView, DatastoreClientError>(e1));
    let s2 = spec_commit_one(s, e).0;
    let m2 = spec_build_upsert(e1);
    let s3 = spec_begin(s2).0;
    assert(!mutation_conflicts(s3.entries, m2));
    lemma_commit_singleton(s3, m2);
    assert(spec_expects_key_after_commit(e1.key) == Ok::<bool, DatastoreClientError>(false));
    assert(spec_commit_one(s2, e1).1 == Ok::<DatastoreEntityView, DatastoreClientError>(e1));
}

/// Law: committing an already-identified record that bears no version token
/// (such a record predates version tracking and skips conflict checks)
/// twice in sequence succeeds both times, yields the same identity both
/// times, and the stored version advances between the two commits.
pub proof fn lemma_identified_commit_idempotent(s: DatastoreView, e: DatastoreEntityView)
    requires
        s.wf(),
        e.key matches Some(k) && !key_is_incomplete(k),
        e.version is None,
        i64::MIN <= s.next_version,
        s.next_version + 2 <= i64::MAX,
    ensures
        ({
            let first = spec_commit_one(s, e);
            let second = spec_commit_one(first.0, first.1->Ok_0);
            &&& first.1 is Ok && first.1->Ok_0.key == e.key
            &&& second.1 is Ok && second.1->Ok_0.key == e.key
            &&& spec_lookup(first.0.entries, e.key->Some_0) is Some
            &&& spec_lookup(second.0.entries, e.key->Some_0) is Some
            &&& spec_lookup(second.0.entries, e.key->Some_0)->Some_0.version > spec_lookup(
                first.0.entries,
                e.key->Some_0,
            )->Some_0.version
        }),
{
    let k = e.key->Some_0;
    let m = spec_build_upsert(e);
    let s1 = spec_begin(s).0;
    assert(!mutation_conflicts(s1.entries, m));
    lemma_commit_singleton(s1, m);
    let v1 = s1.next_version as i64;
    let ne1 = StoredEntityView { key: k, properties: e.properties, version: v1 };
    lemma_lookup_upsert_same(s1.entries, ne1);
    assert(spec_commit_one(s, e).1 == Ok::<DatastoreEntityView, DatastoreClientError>(e));
    let s2 = spec_commit_one(s, e).0;
    assert(spec_lookup(s2.entries, k) == Some(ne1));
    let s3 = spec_begin(s2).0;
    assert(!mutation_conflicts(s3.entries, m));
    lemma_commit_singleton(s3, m);
    let v2 = s3.next_version as i64;
    let ne2 = StoredEntityView { key: k, properties: e.properties, version: v2 };
    lemma_lookup_upsert_same(s3.entries, ne2);
    assert(spec_commit_one(s2, e).1 == Ok::<DatastoreEntityView, DatastoreClientError>(e));
    assert(spec_lookup(spec_commit_one(s2, e).0.entries, k) == Some(ne2));
    assert(v2 == s.next_version + 1);
    assert(v1 == s.next_version);
}

/// Law: if records `a` and `b` both derive from the same stored version of
/// the entity at `k`, and `a` commits first, then `b`'s commit — still
/// bearing the old version — fails with `DataConflict`, and the stored
/// state reflects only `a`'s change.
pub proof fn lemma_conflicting_commit(
    s: DatastoreView,
    a: DatastoreEntityView,
    b: DatastoreEntityView,
    k: KeyView,
    v0: i64,
)
    requires
        s.wf(),
        a.key == Some(k),
        b.key == Some(k),
        !key_is_incomplete(k),
        a.version == Some(v0),
        b.version == Some(v0),
        spec_lookup(s.entries, k) matches Some(se) && se.version == v0,
        i64::MIN <= s.next_version,
        s.next_version + 1 <= i64::MAX,
    ensures
        ({
            let first = spec_commit_one(s, a);
            let second = spec_commit_one(first.0, b);
            &&& first.1 is Ok
            &&& spec_lookup(first.0.entries, k) == Some(
                StoredEntityView {
                    key: k,
                    properties: a.properties,
                    version: s.next_version as i64,
                },
            )
            &&& second.1 == Err::<DatastoreEntityView, DatastoreClientError>(
                DatastoreClientError::DataConflict,
            )
            &&& second.0.entries == first.0.entries
        }),
{
    let ma = spec_build_upsert(a);
    let s1 = spec_begin(s).0;
    assert(!mutation_conflicts(s1.entries, ma));
    lemma_commit_singleton(s1, ma);
    let v1 = s1.next_version as i64;
    let ne1 = StoredEntityView { key: k, properties: a.properties, version: v1 };
    lemma_lookup_upsert_same(s1.entries, ne1);
    assert(spec_commit_one(s, a).1 == Ok::<DatastoreEntityView, DatastoreClientError>(a));
    let s2 = spec_commit_one(s, a).0;
    assert(spec_lookup(s2.entries, k) == Some(ne1));
    lemma_lookup_version_below(s.entries, k, s.next_version);
    assert(v0 < s.next_version);
    assert(v1 != v0);
    let mb = spec_build_upsert(b);
    let s3 = spec_begin(s2).0;
    assert(mutation_conflicts(s3.entries, mb));
    lemma_commit_singleton(s3, mb);
    assert(conflict_flag(s3.entries, mb) == Some(true));
}

/// Law: a delete whose version token no longer matches what is stored under
/// the identity — the version advanced, or the identity no longer resolves
/// at all — fails with `DataConflict` and leaves the store unchanged.
pub proof fn lemma_stale_delete_conflicts(
    s: DatastoreView,
    e: DatastoreEntityView,
    k: KeyView,
)
    requires
        s.wf(),
        e.key == Some(k),
        e.version is Some,
        match spec_lookup(s.entries, k) {
            Some(se) => se.version != e.version->Some_0,
            None => true,
        },
    ensures
        ({
            let d = spec_delete_one(s, e);
            &&& d.1 == Err::<(), DatastoreClientError>(DatastoreClientError::DataConflict)
            &&& d.0.entries == s.entries
        }),
{
    let m = MutationView {
        operation: crate::mutation::MutationOperationView::Delete(k),
        base_version: e.version,
    };
    let s1 = spec_begin(s).0;
    assert(mutation_conflicts(s1.entries, m));
    lemma_commit_singleton(s1, m);
    assert(conflict_flag(s1.entries, m) == Some(true));
}

/// Law: after a successful versioned delete, the identity no longer
/// resolves — a re-fetch finds nothing — and a second delete of the same
/// identity bearing any version token fails with `DataConflict`: a delete
/// never silently succeeds twice.
pub proof fn lemma_delete_then_delete(
    s: DatastoreView,
    e: DatastoreEntityView,
    e2: DatastoreEntityView,
    k: KeyView,
)
    requires
        s.wf(),
        e.key == Some(k),
        e.version matches Some(v0) && (spec_lookup(s.entries, k) matches Some(se) && se.version
            == v0),
        e2.key == Some(k),
        e2.version is Some,
    ensures
        ({
            let first = spec_delete_one(s, e);
            let second = spec_delete_one(first.0, e2);
            &&& first.1 is Ok
            &&& spec_lookup(first.0.entries, k) is None
            &&& second.1 == Err::<(), DatastoreClientError>(DatastoreClientError::DataConflict)
            &&& second.0.entries == first.0.entries
        }),
{
    let m = MutationView {
        operation: crate::mutation::MutationOperationView::Delete(k),
        base_version: e.version,
    };
    let s1 = spec_begin(s).0;
    assert(!mutation_conflicts(s1.entries, m));
    lemma_commit_singleton(s1, m);
    lemma_lookup_remove_same(s1.entries, k);
    let first = spec_delete_one(s, e);
    assert(spec_lookup(first.0.entries, k) is None);
    let m2 = MutationView {
        operation: crate::mutation::MutationOperationView::Delete(k),
        base_version: e2.version,
    };
    let s3 = spec_begin(first.0).0;
    assert(mutation_conflicts(s3.entries, m2));
    lemma_commit_singleton(s3, m2);
    assert(conflict_flag(s3.entries, m2) == Some(true));
}

/// Law: response-shape boundary for a single-mutation commit. A response
/// with no results at all fails with `KeyAssignmentFailed`; a response with
/// two or more results for the one submitted mutation fails with
/// `AmbiguousResult`, whatever the results say.
pub proof fn lemma_response_shape(
    expects_key: bool,
    e: DatastoreEntityView,
    resp: CommitResponseView,
)
    ensures
        resp.mutation_results is None ==> spec_interpret_commit(expects_key, e, resp) == Err::<
            DatastoreEntityView,
            DatastoreClientError,
        >(DatastoreClientError::KeyAssignmentFailed),
        (resp.mutation_results matches Some(rs) && rs.len() == 0) ==> spec_interpret_commit(
            expects_key,
            e,
            resp,
        ) == Err::<DatastoreEntityView, DatastoreClientError>(
            DatastoreClientError::KeyAssignmentFailed,
        ),
        (resp.mutation_results matches Some(rs) && rs.len() >= 2) ==> spec_interpret_commit(
            expects_key,
            e,
            resp,
        ) == Err::<DatastoreEntityView, DatastoreClientError>(
            DatastoreClientError::AmbiguousResult,
        ),
{
}

/// Law: transaction atomicity. If any mutation of a batch conflicts against
/// the state the commit begins with, the commit fails with `DataConflict`
/// and the store is exactly as before: neither that mutation's effect nor
/// any other's is observable afterwards.
pub proof fn lemma_transaction_atomicity(s: DatastoreView, muts: Seq<MutationView>, i: int)
    requires
        0 <= i < muts.len(),
        mutation_conflicts(s.entries, muts[i]),
    ensures
        spec_commit(s, muts).0 == s,
        spec_interpret_batch(muts.len() as int, Some(spec_commit(s, muts).1)) == Err::<
            (),
            DatastoreClientError,
        >(DatastoreClientError::DataConflict),
{
    assert(spec_any_conflict(s.entries, muts));
    let rs = spec_commit(s, muts).1;
    assert(rs[i].conflict_detected == Some(true));
    assert(exists|j: int| 0 <= j < rs.len() && rs[j].conflict_detected == Some(true));
}

} // verus!
