use datastore_entity::entity::{DatastoreEntity, Key, PathElement, Property, PropertyValue};
use datastore_entity::error::{DatastoreClientError, DatastorersError};
use datastore_entity::store::InMemoryDatastore;
use datastore_entity::transaction::TransactionConnection;
use datastore_entity::update::{commit_one, delete_one, DatastorersUpdatable};

fn incomplete_key() -> Key {
    Key { path: vec![PathElement::incomplete("Test".to_string())] }
}

fn id_key(id: i64) -> Key {
    Key { path: vec![PathElement::with_id("Test".to_string(), id)] }
}

fn prop(name: &str, value: PropertyValue) -> Property {
    Property { name: name.to_string(), value }
}

fn new_entity(properties: Vec<Property>) -> DatastoreEntity {
    DatastoreEntity { key: Some(incomplete_key()), version: None, properties }
}

fn key_of(entity: &DatastoreEntity) -> Key {
    entity.key().expect("entity has a key")
}

fn int_prop_of(entity: &DatastoreEntity, name: &str) -> i64 {
    match entity.get_property(&name.to_string()) {
        Some(PropertyValue::Integer(v)) => *v,
        other => panic!("expected an integer property, got {:?}", other.is_some()),
    }
}

fn bool_prop_of(entity: &DatastoreEntity, name: &str) -> bool {
    match entity.get_property(&name.to_string()) {
        Some(PropertyValue::Boolean(v)) => *v,
        other => panic!("expected a boolean property, got {:?}", other.is_some()),
    }
}

fn assert_client_error<T>(result: Result<T, DatastorersError>, expected: DatastoreClientError) {
    match result {
        Ok(_) => panic!("expected the call to fail"),
        Err(e) => assert_eq!(e.client_error(), Some(expected), "expected {:?}", expected),
    }
}

#[test]
fn test_insert_and_update() {
    let mut store = InMemoryDatastore::new();
    let original_bool_value = false;
    let original_entity = new_entity(vec![
        prop("Name", PropertyValue::Text("alpha".to_string())),
        prop("bool_property", PropertyValue::Boolean(original_bool_value)),
        prop("int_property", PropertyValue::Integer(7)),
    ]);

    let test_entity = original_entity.commit(&mut store).expect("insert succeeds");
    assert!(test_entity.key().is_some());
    // Save the identity for later validations
    let id_after_insert = key_of(&test_entity);

    // Update the same item: fetch it back, flip the boolean, commit again
    let mut fetched = store.get_entity(&id_after_insert).expect("stored after insert");
    fetched.set_property(
        "bool_property".to_string(),
        PropertyValue::Boolean(!original_bool_value),
    );
    let updated = fetched.commit(&mut store).expect("update succeeds");

    // Shall have been updated
    let stored = store.get_entity(&id_after_insert).expect("still stored");
    assert_eq!(bool_prop_of(&stored, "bool_property"), !original_bool_value);

    // But the identity shall remain the same
    assert_eq!(key_of(&updated).path.len(), 1);
    assert_eq!(key_of(&updated).path[0].id, id_after_insert.path[0].id);
}

#[test]
fn test_update_property() {
    let mut store = InMemoryDatastore::new();
    let original = new_entity(vec![prop("Name", PropertyValue::Text("before".to_string()))]);
    let inserted = original.commit(&mut store).expect("insert succeeds");
    let key = key_of(&inserted);

    // Fetch, change the property value and commit
    let mut fetched = store.get_entity(&key).expect("stored after insert");
    fetched.set_property("Name".to_string(), PropertyValue::Text("after".to_string()));
    fetched.commit(&mut store).expect("update succeeds");

    // Fetch again: the entity keeps its key and carries the new value
    let refetched = store.get_entity(&key).expect("still stored");
    match refetched.get_property(&"Name".to_string()) {
        Some(PropertyValue::Text(s)) => assert_eq!(s.as_str(), "after"),
        _ => panic!("expected the Name property"),
    }
}

#[test]
fn test_update_array_property() {
    let mut store = InMemoryDatastore::new();
    let string_value_a = "value-a".to_string();
    let string_value_b = "value-b".to_string();
    let string_value_c = "value-c".to_string();

    let entity = new_entity(vec![prop(
        "str_array_property",
        PropertyValue::TextArray(vec![string_value_a.clone(), string_value_b.clone()]),
    )]);
    let inserted = entity.commit(&mut store).expect("insert succeeds");
    let key = key_of(&inserted);

    // Change the array and commit
    let mut fetched = store.get_entity(&key).expect("stored after insert");
    fetched.set_property(
        "str_array_property".to_string(),
        PropertyValue::TextArray(vec![string_value_b.clone(), string_value_c.clone()]),
    );
    fetched.commit(&mut store).expect("update succeeds");

    let refetched = store.get_entity(&key).expect("still stored");
    match refetched.get_property(&"str_array_property".to_string()) {
        Some(PropertyValue::TextArray(values)) => {
            assert_eq!(values, &vec![string_value_b, string_value_c]);
        }
        _ => panic!("expected the array property"),
    }
}

#[test]
fn test_delete() {
    let mut store = InMemoryDatastore::new();
    let inserted_a = new_entity(vec![prop("int_property", PropertyValue::Integer(1))])
        .commit(&mut store)
        .expect("insert a succeeds");
    let inserted_b = new_entity(vec![prop("int_property", PropertyValue::Integer(2))])
        .commit(&mut store)
        .expect("insert b succeeds");

    let key_a = key_of(&inserted_a);
    let key_b = key_of(&inserted_b);

    // Both shall be fetchable
    assert!(store.get_entity(&key_a).is_some());
    assert!(store.get_entity(&key_b).is_some());

    // Delete one (a freshly fetched copy carries the stored version)
    let fetched_b = store.get_entity(&key_b).expect("b stored");
    fetched_b.delete(&mut store).expect("delete succeeds");

    // Only entity a shall be fetchable
    assert!(store.get_entity(&key_a).is_some());
    assert!(store.get_entity(&key_b).is_none());
}

#[test]
fn test_optional_values() {
    let mut store = InMemoryDatastore::new();

    // A record may carry no properties at all: commit assigns its identity
    let inserted_empty = new_entity(vec![]).commit(&mut store).expect("insert succeeds");
    let key = key_of(&inserted_empty);

    // Set some of the values and commit
    let mut with_values = store.get_entity(&key).expect("stored after insert");
    with_values.set_property("Name".to_string(), PropertyValue::Text("set".to_string()));
    with_values.set_property("bool_property".to_string(), PropertyValue::Boolean(true));
    with_values.commit(&mut store).expect("update succeeds");

    // Fetch and validate that the set properties are saved and the others
    // are still absent
    let mut fetched = store.get_entity(&key).expect("still stored");
    match fetched.get_property(&"Name".to_string()) {
        Some(PropertyValue::Text(s)) => assert_eq!(s.as_str(), "set"),
        _ => panic!("expected the Name property"),
    }
    assert!(fetched.get_property(&"bool_property".to_string()).is_some());
    assert!(fetched.get_property(&"int_property".to_string()).is_none());
    assert!(fetched.get_property(&"str_array_property".to_string()).is_none());

    // Set the rest of the values
    fetched.set_property("int_property".to_string(), PropertyValue::Integer(10));
    fetched.set_property("str_array_property".to_string(), PropertyValue::TextArray(vec![]));
    fetched.commit(&mut store).expect("update succeeds");

    // Fetch and validate the result
    let fetched = store.get_entity(&key).expect("still stored");
    assert_eq!(int_prop_of(&fetched, "int_property"), 10);
    assert!(bool_prop_of(&fetched, "bool_property"));
    match fetched.get_property(&"str_array_property".to_string()) {
        Some(PropertyValue::TextArray(values)) => assert!(values.is_empty()),
        _ => panic!("expected the array property"),
    }
}

#[test]
fn test_coliding_update() {
    let mut store = InMemoryDatastore::new();
    // Insert one entity
    let inserted = new_entity(vec![prop("int_property", PropertyValue::Integer(0))])
        .commit(&mut store)
        .expect("insert succeeds");
    let key = key_of(&inserted);

    // Go fetch it two times (and change both fetched entities)
    let mut a = store.get_entity(&key).expect("stored");
    let prop_int_a = 100;
    a.set_property("int_property".to_string(), PropertyValue::Integer(prop_int_a));

    let mut b = store.get_entity(&key).expect("stored");
    b.set_property("int_property".to_string(), PropertyValue::Integer(200));

    // Save the first one => we expect success
    commit_one(&mut store, a).expect("first commit succeeds");

    // Save the second one => we expect error (collision)
    assert_client_error(commit_one(&mut store, b), DatastoreClientError::DataConflict);

    // Fetch one last time, the changes in a shall have been saved
    let fetched = store.get_entity(&key).expect("still stored");
    assert_eq!(int_prop_of(&fetched, "int_property"), prop_int_a);
}

#[test]
fn test_coliding_delete() {
    let mut store = InMemoryDatastore::new();
    // Insert one entity
    let inserted = new_entity(vec![prop("int_property", PropertyValue::Integer(0))])
        .commit(&mut store)
        .expect("insert succeeds");
    let key = key_of(&inserted);

    // Go fetch it two times (and change the first fetched entity)
    let mut a = store.get_entity(&key).expect("stored");
    let prop_int_a = 100;
    a.set_property("int_property".to_string(), PropertyValue::Integer(prop_int_a));

    let b = store.get_entity(&key).expect("stored");

    // Save the first one => we expect success
    commit_one(&mut store, a).expect("first commit succeeds");

    // Delete the second one => we expect error (collision)
    assert_client_error(delete_one(&mut store, b), DatastoreClientError::DataConflict);

    // Fetch one last time, the changes in a shall have been saved
    let fetched = store.get_entity(&key).expect("still stored");
    assert_eq!(int_prop_of(&fetched, "int_property"), prop_int_a);
}

#[test]
fn test_transaction_with_update() {
    let mut store = InMemoryDatastore::new();

    // Create two entities
    let original_prop_int_a = 1;
    let original_prop_int_b = 2;
    let inserted_a = new_entity(vec![prop("int_property", PropertyValue::Integer(original_prop_int_a))])
        .commit(&mut store)
        .expect("insert a succeeds");
    let inserted_b = new_entity(vec![prop("int_property", PropertyValue::Integer(original_prop_int_b))])
        .commit(&mut store)
        .expect("insert b succeeds");
    let key_a = key_of(&inserted_a);
    let key_b = key_of(&inserted_b);

    // Create a transaction, fetch and modify both entities, push both
    let mut transaction = TransactionConnection::begin_transaction(&mut store);

    let mut a = store.get_entity(&key_a).expect("a stored");
    let prop_int_a = 100;
    a.set_property("int_property".to_string(), PropertyValue::Integer(prop_int_a));
    transaction.push_save(a).expect("push a succeeds");

    let mut b = store.get_entity(&key_b).expect("b stored");
    let prop_int_b = 200;
    b.set_property("int_property".to_string(), PropertyValue::Integer(prop_int_b));
    transaction.push_save(b).expect("push b succeeds");

    // Transaction not committed, a and b shall have their original values
    let fetched_a = store.get_entity(&key_a).expect("a stored");
    assert_eq!(int_prop_of(&fetched_a, "int_property"), original_prop_int_a);
    let fetched_b = store.get_entity(&key_b).expect("b stored");
    assert_eq!(int_prop_of(&fetched_b, "int_property"), original_prop_int_b);

    // Commit transaction
    transaction.commit(&mut store).expect("transaction commit succeeds");

    // Fetch and validate that both items got updated
    let fetched_a = store.get_entity(&key_a).expect("a stored");
    assert_eq!(int_prop_of(&fetched_a, "int_property"), prop_int_a);
    let fetched_b = store.get_entity(&key_b).expect("b stored");
    assert_eq!(int_prop_of(&fetched_b, "int_property"), prop_int_b);
}

#[test]
fn test_transaction_conflict_is_atomic() {
    let mut store = InMemoryDatastore::new();

    // Two stored entities
    let inserted_a = new_entity(vec![prop("field", PropertyValue::Text("a0".to_string()))])
        .commit(&mut store)
        .expect("insert a succeeds");
    let inserted_b = new_entity(vec![prop("field", PropertyValue::Text("b0".to_string()))])
        .commit(&mut store)
        .expect("insert b succeeds");
    let key_a = key_of(&inserted_a);
    let key_b = key_of(&inserted_b);

    // Advance b so that an old copy of it is stale
    let stale_b = store.get_entity(&key_b).expect("b stored");
    let mut b_newer = store.get_entity(&key_b).expect("b stored");
    b_newer.set_property("field".to_string(), PropertyValue::Text("b1".to_string()));
    commit_one(&mut store, b_newer).expect("advance b succeeds");

    // A batch where the first mutation is fine and the second conflicts
    let mut transaction = TransactionConnection::begin_transaction(&mut store);
    let mut a = store.get_entity(&key_a).expect("a stored");
    a.set_property("field".to_string(), PropertyValue::Text("a1".to_string()));
    transaction.push_save(a).expect("push a succeeds");
    let mut stale = stale_b;
    stale.set_property("field".to_string(), PropertyValue::Text("b2".to_string()));
    transaction.push_save(stale).expect("push stale b succeeds");

    assert_client_error(transaction.commit(&mut store), DatastoreClientError::DataConflict);

    // Neither mutation's effect is observable afterwards
    let fetched_a = store.get_entity(&key_a).expect("a stored");
    match fetched_a.get_property(&"field".to_string()) {
        Some(PropertyValue::Text(s)) => assert_eq!(s.as_str(), "a0"),
        _ => panic!("expected the field property"),
    }
    let fetched_b = store.get_entity(&key_b).expect("b stored");
    match fetched_b.get_property(&"field".to_string()) {
        Some(PropertyValue::Text(s)) => assert_eq!(s.as_str(), "b1"),
        _ => panic!("expected the field property"),
    }
}

#[test]
fn test_transaction_stale_version_rolls_back() {
    let mut store = InMemoryDatastore::new();

    // record1 is stored at version 5; record2's stored version is actually 4
    store.set_entry(
        id_key(1),
        vec![prop("field", PropertyValue::Text("one".to_string()))],
        5,
    );
    store.set_entry(
        id_key(2),
        vec![prop("field", PropertyValue::Text("two".to_string()))],
        4,
    );

    // record bears version 5 and adds a new field
    let mut record = DatastoreEntity {
        key: Some(id_key(1)),
        version: Some(5),
        properties: vec![prop("field", PropertyValue::Text("one".to_string()))],
    };
    record.set_property("new_field".to_string(), PropertyValue::Text("x".to_string()));

    // record2 bears version 3, which is stale
    let mut record2 = DatastoreEntity {
        key: Some(id_key(2)),
        version: Some(3),
        properties: vec![],
    };
    record2.set_property("field".to_string(), PropertyValue::Text("y".to_string()));

    let mut transaction = TransactionConnection::begin_transaction(&mut store);
    transaction.push_save(record).expect("push record succeeds");
    transaction.push_save(record2).expect("push record2 succeeds");

    // The commit fails with a conflict
    assert_client_error(transaction.commit(&mut store), DatastoreClientError::DataConflict);

    // A subsequent fetch of record1 shows no changes
    let fetched = store.get_entity(&id_key(1)).expect("record1 stored");
    assert_eq!(fetched.version(), Some(5));
    match fetched.get_property(&"field".to_string()) {
        Some(PropertyValue::Text(s)) => assert_eq!(s.as_str(), "one"),
        _ => panic!("expected the field property"),
    }
    assert!(fetched.get_property(&"new_field".to_string()).is_none());
}

#[test]
fn test_new_record_identity_is_stable() {
    let mut store = InMemoryDatastore::new();
    let inserted = new_entity(vec![prop("field", PropertyValue::Text("v".to_string()))])
        .commit(&mut store)
        .expect("insert succeeds");
    let assigned = key_of(&inserted);
    assert_eq!(assigned.path[0].id, Some(1));
    assert!(assigned.path[0].name.is_none());

    // Committing the returned record again keeps the identity
    let committed_again = inserted.commit(&mut store).expect("second commit succeeds");
    assert_eq!(key_of(&committed_again).path[0].id, Some(1));
}

#[test]
fn test_commit_twice_advances_version() {
    let mut store = InMemoryDatastore::new();
    let entity = DatastoreEntity {
        key: Some(id_key(9)),
        version: None,
        properties: vec![prop("field", PropertyValue::Text("v".to_string()))],
    };

    let committed = entity.commit(&mut store).expect("first commit succeeds");
    let v1 = store.get_entity(&id_key(9)).expect("stored").version();
    assert_eq!(v1, Some(1));

    committed.commit(&mut store).expect("second commit succeeds");
    let v2 = store.get_entity(&id_key(9)).expect("stored").version();
    assert_eq!(v2, Some(2));
}

#[test]
fn test_delete_then_delete_stale_copy() {
    let mut store = InMemoryDatastore::new();
    let inserted = new_entity(vec![prop("field", PropertyValue::Text("v".to_string()))])
        .commit(&mut store)
        .expect("insert succeeds");
    let key = key_of(&inserted);

    // Two fresh fetches of the same entity
    let first_copy = store.get_entity(&key).expect("stored");
    let second_copy = store.get_entity(&key).expect("stored");

    delete_one(&mut store, first_copy).expect("first delete succeeds");

    // The identity no longer resolves
    assert!(store.get_entity(&key).is_none());

    // Deleting the stale copy does not silently succeed
    assert_client_error(delete_one(&mut store, second_copy), DatastoreClientError::DataConflict);
}

#[test]
fn test_delete_conflicts_after_version_advanced() {
    let mut store = InMemoryDatastore::new();
    let inserted = new_entity(vec![prop("int_property", PropertyValue::Integer(0))])
        .commit(&mut store)
        .expect("insert succeeds");
    let key = key_of(&inserted);

    let stale = store.get_entity(&key).expect("stored");
    let newer = store.get_entity(&key).expect("stored");
    commit_one(&mut store, newer).expect("advance succeeds");

    // The stale copy's version no longer matches
    assert_client_error(delete_one(&mut store, stale), DatastoreClientError::DataConflict);
    assert!(store.get_entity(&key).is_some());
}
