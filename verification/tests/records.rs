use datastore_entity::entity::{DatastoreEntity, DatastoreEntityView, Key, PathElement, PropertyValue};
use datastore_entity::error::{DatastoreParseError, DatastorersError};
use datastore_entity::store::InMemoryDatastore;
use datastore_entity::update::DatastorersUpdatable;

fn incomplete_key() -> Key {
    Key { path: vec![PathElement::incomplete("Test".to_string())] }
}

fn assert_parse_error<T>(result: Result<T, DatastorersError>, expected: DatastoreParseError) {
    match result {
        Ok(_) => panic!("expected the conversion to fail"),
        Err(DatastorersError::ParseError(parse_error)) => {
            assert_eq!(parse_error, expected, "expected error to be {:?}", expected)
        }
        Err(_) => panic!("expected a parse error"),
    }
}

/// A typed record: by converting to and from the generic entity record it
/// gains `commit` and `delete` through the capability interface.
struct TestRecord {
    key: Option<Key>,
    version: Option<i64>,
    prop_string: String,
}

impl DatastorersUpdatable for TestRecord {
    // The trait's specification members are ghost: outside verified code
    // they are never called, and an implementation only stubs them.
    fn into_entity_spec(self) -> Result<DatastoreEntityView, DatastoreParseError> {
        unreachable!()
    }

    fn from_entity_spec(
        _entity: DatastoreEntityView,
        _r: Result<Self, DatastorersError>,
    ) -> bool {
        unreachable!()
    }

    fn try_into_entity(self) -> Result<DatastoreEntity, DatastorersError> {
        let mut entity = DatastoreEntity::new(self.key, self.version);
        entity.set_property("Name".to_string(), PropertyValue::Text(self.prop_string));
        Ok(entity)
    }

    fn try_from_entity(entity: DatastoreEntity) -> Result<Self, DatastorersError> {
        let prop_string = match entity.get_property(&"Name".to_string()) {
            Some(PropertyValue::Text(s)) => s.clone(),
            Some(_) => {
                return Err(DatastorersError::ParseError(DatastoreParseError::WrongValueType))
            }
            None => return Err(DatastorersError::ParseError(DatastoreParseError::NoSuchValue)),
        };
        let key = entity.key();
        let version = entity.version();
        Ok(TestRecord { key, version, prop_string })
    }
}

#[test]
fn test_typed_record_commit() {
    let mut store = InMemoryDatastore::new();
    let record = TestRecord {
        key: Some(incomplete_key()),
        version: None,
        prop_string: "typed".to_string(),
    };

    let committed = record.commit(&mut store).expect("commit succeeds");
    let key = committed.key.clone().expect("identity was assigned");
    assert_eq!(key.path[0].id, Some(1));
    assert_eq!(committed.prop_string.as_str(), "typed");

    // The stored entity converts back into the typed record
    let fetched = store.get_entity(&key).expect("stored");
    let fetched_record = TestRecord::try_from_entity(fetched).expect("conversion succeeds");
    assert_eq!(fetched_record.prop_string.as_str(), "typed");
    assert_eq!(fetched_record.version, Some(1));

    // And the typed record can delete its entity again
    fetched_record.delete(&mut store).expect("delete succeeds");
    assert!(store.get_entity(&key).is_none());
}

#[test]
fn test_typed_record_missing_value() {
    // An entity without the required property does not convert
    let entity = DatastoreEntity::new(Some(incomplete_key()), None);
    assert_parse_error(TestRecord::try_from_entity(entity), DatastoreParseError::NoSuchValue);
}

#[test]
fn test_typed_record_wrong_value_type() {
    // An entity whose property has the wrong type does not convert
    let mut entity = DatastoreEntity::new(Some(incomplete_key()), None);
    entity.set_property("Name".to_string(), PropertyValue::Integer(3));
    assert_parse_error(TestRecord::try_from_entity(entity), DatastoreParseError::WrongValueType);
}
