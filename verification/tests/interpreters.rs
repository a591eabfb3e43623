use datastore_entity::entity::{DatastoreEntity, Key, PathElement, Property, PropertyValue};
use datastore_entity::error::{DatastoreClientError, DatastorersError};
use datastore_entity::mutation::{CommitResponse, MutationResult};
use datastore_entity::store::InMemoryDatastore;
use datastore_entity::transaction::{interpret_batch_response, TransactionConnection};
use datastore_entity::update::{
    commit_one, delete_one, expects_key_after_commit, interpret_commit_response,
    interpret_delete_response, parse_mutation_result,
};

fn incomplete_key() -> Key {
    Key { path: vec![PathElement::incomplete("Test".to_string())] }
}

fn id_key(id: i64) -> Key {
    Key { path: vec![PathElement::with_id("Test".to_string(), id)] }
}

fn name_key(name: &str) -> Key {
    Key { path: vec![PathElement::with_name("Test".to_string(), name.to_string())] }
}

fn bare_entity(key: Option<Key>) -> DatastoreEntity {
    DatastoreEntity::new(key, None)
}

fn clean_result(key: Option<Key>) -> MutationResult {
    MutationResult { conflict_detected: Some(false), key }
}

fn conflicted_result() -> MutationResult {
    MutationResult { conflict_detected: Some(true), key: None }
}

fn response(results: Option<Vec<MutationResult>>) -> CommitResponse {
    CommitResponse { mutation_results: results }
}

fn assert_client_error<T>(result: Result<T, DatastorersError>, expected: DatastoreClientError) {
    match result {
        Ok(_) => panic!("expected the call to fail"),
        Err(e) => assert_eq!(e.client_error(), Some(expected), "expected {:?}", expected),
    }
}

#[test]
fn test_expects_key_policy() {
    // No identity placeholder at all: structurally invalid
    assert_eq!(expects_key_after_commit(&None), Err(DatastoreClientError::KeyMissing));
    // Empty path: not a placeholder awaiting assignment
    assert_eq!(
        expects_key_after_commit(&Some(Key { path: vec![] })),
        Ok(false)
    );
    // First element carries neither name nor id: the store will assign
    assert_eq!(expects_key_after_commit(&Some(incomplete_key())), Ok(true));
    // A literal id or name means the identity is already resolved
    assert_eq!(expects_key_after_commit(&Some(id_key(4))), Ok(false));
    assert_eq!(expects_key_after_commit(&Some(name_key("n"))), Ok(false));
}

#[test]
fn test_parse_mutation_result() {
    // A reported conflict always surfaces
    assert_client_error(
        parse_mutation_result(&conflicted_result()),
        DatastoreClientError::DataConflict,
    );
    // No conflict: the assigned key, if any, is handed back
    let parsed = parse_mutation_result(&clean_result(Some(id_key(3)))).expect("no conflict");
    assert_eq!(parsed.expect("a key was assigned").path[0].id, Some(3));
    let parsed = parse_mutation_result(&clean_result(None)).expect("no conflict");
    assert!(parsed.is_none());
    // An absent verdict counts as no conflict
    let parsed = parse_mutation_result(&MutationResult { conflict_detected: None, key: None });
    assert!(parsed.expect("no conflict").is_none());
}

#[test]
fn test_commit_response_zero_results() {
    let entity = bare_entity(Some(incomplete_key()));
    assert_client_error(
        interpret_commit_response(true, &entity, &response(None)),
        DatastoreClientError::KeyAssignmentFailed,
    );
    assert_client_error(
        interpret_commit_response(true, &entity, &response(Some(vec![]))),
        DatastoreClientError::KeyAssignmentFailed,
    );
    // The same boundary holds when no assigned identity was expected
    assert_client_error(
        interpret_commit_response(false, &entity, &response(Some(vec![]))),
        DatastoreClientError::KeyAssignmentFailed,
    );
}

#[test]
fn test_commit_response_many_results() {
    let entity = bare_entity(Some(incomplete_key()));
    assert_client_error(
        interpret_commit_response(
            true,
            &entity,
            &response(Some(vec![clean_result(Some(id_key(1))), clean_result(Some(id_key(2)))])),
        ),
        DatastoreClientError::AmbiguousResult,
    );
}

#[test]
fn test_commit_response_conflict_never_masked() {
    // Even when the caller does not need the returned identity, a conflict
    // in the one result surfaces
    let entity = bare_entity(Some(id_key(8)));
    assert_client_error(
        interpret_commit_response(false, &entity, &response(Some(vec![conflicted_result()]))),
        DatastoreClientError::DataConflict,
    );
    // And it wins over identity assignment when one was expected
    let entity = bare_entity(Some(incomplete_key()));
    assert_client_error(
        interpret_commit_response(
            true,
            &entity,
            &response(Some(vec![MutationResult {
                conflict_detected: Some(true),
                key: Some(id_key(1)),
            }])),
        ),
        DatastoreClientError::DataConflict,
    );
}

#[test]
fn test_commit_response_identity_assignment() {
    // Expected and delivered: the returned record carries the assigned key
    let entity = bare_entity(Some(incomplete_key()));
    let updated = interpret_commit_response(
        true,
        &entity,
        &response(Some(vec![clean_result(Some(id_key(77)))])),
    )
    .expect("assignment succeeds");
    assert_eq!(updated.key().expect("key is set").path[0].id, Some(77));

    // Expected but not delivered
    assert_client_error(
        interpret_commit_response(true, &entity, &response(Some(vec![clean_result(None)]))),
        DatastoreClientError::KeyAssignmentFailed,
    );

    // Not expected: the original identity is kept, whatever was returned
    let entity = bare_entity(Some(id_key(5)));
    let kept = interpret_commit_response(
        false,
        &entity,
        &response(Some(vec![clean_result(Some(id_key(99)))])),
    )
    .expect("commit succeeds");
    assert_eq!(kept.key().expect("key is kept").path[0].id, Some(5));
}

#[test]
fn test_delete_response_shapes() {
    assert_client_error(
        interpret_delete_response(&response(None)),
        DatastoreClientError::DeleteFailed,
    );
    assert_client_error(
        interpret_delete_response(&response(Some(vec![]))),
        DatastoreClientError::DeleteFailed,
    );
    assert_client_error(
        interpret_delete_response(&response(Some(vec![conflicted_result()]))),
        DatastoreClientError::DataConflict,
    );
    assert_client_error(
        interpret_delete_response(&response(Some(vec![clean_result(None), clean_result(None)]))),
        DatastoreClientError::AmbiguousResult,
    );
    assert!(interpret_delete_response(&response(Some(vec![clean_result(None)]))).is_ok());
}

#[test]
fn test_batch_response_shapes() {
    // No results, or fewer than submitted: the store acknowledged less than
    // the whole batch
    assert_client_error(
        interpret_batch_response(1, &response(None)),
        DatastoreClientError::KeyAssignmentFailed,
    );
    assert_client_error(
        interpret_batch_response(2, &response(Some(vec![clean_result(None)]))),
        DatastoreClientError::KeyAssignmentFailed,
    );
    // More results than submitted
    assert_client_error(
        interpret_batch_response(1, &response(Some(vec![clean_result(None), clean_result(None)]))),
        DatastoreClientError::AmbiguousResult,
    );
    // A conflict anywhere fails the whole batch
    assert_client_error(
        interpret_batch_response(
            2,
            &response(Some(vec![clean_result(None), conflicted_result()])),
        ),
        DatastoreClientError::DataConflict,
    );
    // The clean exact-count response passes
    assert!(
        interpret_batch_response(2, &response(Some(vec![clean_result(None), clean_result(None)])))
            .is_ok()
    );
    assert!(interpret_batch_response(0, &response(Some(vec![]))).is_ok());
}

#[test]
fn test_commit_without_placeholder_is_key_missing() {
    let mut store = InMemoryDatastore::new();
    assert_client_error(
        commit_one(&mut store, bare_entity(None)),
        DatastoreClientError::KeyMissing,
    );
}

#[test]
fn test_delete_without_key_is_not_found() {
    let mut store = InMemoryDatastore::new();
    assert_client_error(
        delete_one(&mut store, bare_entity(None)),
        DatastoreClientError::NotFound,
    );
}

#[test]
fn test_push_rejection_leaves_batch_usable() {
    let mut store = InMemoryDatastore::new();
    let mut transaction = TransactionConnection::begin_transaction(&mut store);

    // A record without a placeholder is rejected and never queued
    assert_client_error(
        transaction.push_save(bare_entity(None)),
        DatastoreClientError::KeyMissing,
    );
    assert_client_error(
        transaction.push_delete(bare_entity(None)),
        DatastoreClientError::NotFound,
    );

    // The batch is still usable: a valid push and commit go through
    let entity = DatastoreEntity {
        key: Some(id_key(1)),
        version: None,
        properties: vec![Property {
            name: "field".to_string(),
            value: PropertyValue::Text("v".to_string()),
        }],
    };
    transaction.push_save(entity).expect("push succeeds");
    transaction.commit(&mut store).expect("commit succeeds");
    assert!(store.get_entity(&id_key(1)).is_some());
}

#[test]
fn test_empty_transaction_commit() {
    let mut store = InMemoryDatastore::new();
    let transaction = TransactionConnection::begin_transaction(&mut store);
    transaction.commit(&mut store).expect("an empty batch commits");
}

#[test]
fn test_entity_property_mapping() {
    let mut entity = bare_entity(Some(id_key(1)));
    assert!(entity.get_property(&"a".to_string()).is_none());

    entity.set_property("a".to_string(), PropertyValue::Integer(1));
    entity.set_property("b".to_string(), PropertyValue::Integer(2));
    match entity.get_property(&"a".to_string()) {
        Some(PropertyValue::Integer(v)) => assert_eq!(*v, 1),
        _ => panic!("expected property a"),
    }

    // Setting an existing name replaces its binding in place
    entity.set_property("a".to_string(), PropertyValue::Text("replaced".to_string()));
    match entity.get_property(&"a".to_string()) {
        Some(PropertyValue::Text(s)) => assert_eq!(s.as_str(), "replaced"),
        _ => panic!("expected property a to be replaced"),
    }
    match entity.get_property(&"b".to_string()) {
        Some(PropertyValue::Integer(v)) => assert_eq!(*v, 2),
        _ => panic!("expected property b to be untouched"),
    }
}

#[test]
fn test_get_entity_not_found() {
    let store = InMemoryDatastore::new();
    assert!(store.get_entity(&id_key(12345)).is_none());
}
