use avro_schema_registry::api::errors::{ApiAvroErrorCode, ApiError};
use avro_schema_registry::api::version::VersionLimit;
use avro_schema_registry::api::{delete_subject, get_subject_versions, register_schema, SchemaBody};
use avro_schema_registry::db::models::{
    Config, DeleteSchemaVersion, NewSchemaVersion, RegisterSchema, Schema, SchemaVersion, Subject,
};
use avro_schema_registry::db::Store;
use avro_schema_registry::text::{decimal, same_text};

fn expect_error<T: std::fmt::Debug>(got: Result<T, ApiError>, status: u16, code: u16, message: &str) {
    let error = got.unwrap_err();
    assert_eq!(error.status_code, status);
    assert_eq!(error.response.error_code.code(), code);
    assert_eq!(error.response.message, message);
}

fn register(store: &mut Store, subject: &str, schema: &str) -> Result<Schema, ApiError> {
    Schema::register_new_version(
        store,
        RegisterSchema { subject: subject.to_string(), schema: schema.to_string() },
    )
}

/// A store whose subject `s` takes any schema.
fn lenient_store() -> Store {
    let mut store = Store::new();
    Config::set_global_compatibility(&mut store, "NONE").unwrap();
    store
}

fn bind(store: &mut Store, version: Option<i32>, subject_id: i64, schema_id: i64) -> SchemaVersion {
    SchemaVersion::insert(store, NewSchemaVersion { version, subject_id, schema_id }).unwrap()
}

#[test]
fn version_limits_are_inclusive() {
    assert!(!0u32.within_limits());
    assert!(1u32.within_limits());
    assert!(2u32.within_limits());
    assert!(2_147_483_647u32.within_limits());
    assert!(!2_147_483_648u32.within_limits());
    assert!(!u32::MAX.within_limits());
}

#[test]
fn error_codes_have_numbers_messages_and_classes() {
    let all = [
        (ApiAvroErrorCode::SubjectNotFound, 40401, 404, "Subject not found"),
        (ApiAvroErrorCode::VersionNotFound, 40402, 404, "Version not found"),
        (ApiAvroErrorCode::SchemaNotFound, 40403, 404, "Schema not found"),
        (ApiAvroErrorCode::InvalidAvroSchema, 42201, 422, "Invalid Avro schema"),
        (ApiAvroErrorCode::InvalidVersion, 42202, 422, "Invalid version"),
        (ApiAvroErrorCode::InvalidCompatibilityLevel, 42203, 422, "Invalid compatibility level"),
        (ApiAvroErrorCode::BackendDatastoreError, 50001, 500, "Error in the backend datastore"),
        (ApiAvroErrorCode::OperationTimedOut, 50002, 500, "Operation timed out"),
        (
            ApiAvroErrorCode::MasterForwardingError,
            50003,
            500,
            "Error while forwarding the request to the master",
        ),
    ];
    for (code, number, status, message) in all {
        assert_eq!(code.code(), number);
        assert_eq!(code.message(), message);
        let error = ApiError::new(code);
        assert_eq!(error.status_code, status);
        assert_eq!(error.response.error_code, code);
        assert_eq!(error.response.message, message);
    }
}

#[test]
fn integers_are_written_in_decimal() {
    assert_eq!(decimal(0), "0");
    assert_eq!(decimal(7), "7");
    assert_eq!(decimal(10), "10");
    assert_eq!(decimal(1234567890), "1234567890");
    assert_eq!(decimal(-1), "-1");
    assert_eq!(decimal(-905), "-905");
    assert_eq!(decimal(i64::MAX), "9223372036854775807");
    assert_eq!(decimal(i64::MIN), "-9223372036854775808");
    assert!(same_text("abc", "abc"));
    assert!(!same_text("abc", "abd"));
    assert!(!same_text("abc", "ab"));
    assert!(same_text("", ""));
}

#[test]
fn registering_twice_is_registering_once() {
    let mut store = Store::new();
    let first = register(&mut store, "s", "\"string\"").unwrap();
    let second = register(&mut store, "s", "\"string\"").unwrap();
    assert_eq!(first.id, second.id);
    assert_eq!(store.subjects.len(), 1);
    assert_eq!(store.schemas.len(), 1);
    assert_eq!(store.schema_versions.len(), 1);
    assert_eq!(store.next_schema_version_id, 2);
    // Another text of the same schema is the same schema.
    let third = register(&mut store, "s", " { \"type\" : \"string\" } ").unwrap();
    assert_eq!(third.id, first.id);
    assert_eq!(third.json, "\"string\"");
    assert_eq!(store.schemas.len(), 1);
    assert_eq!(store.schema_versions.len(), 1);
}

#[test]
fn one_schema_serves_two_subjects() {
    let mut store = Store::new();
    let first = register(&mut store, "a", "\"string\"").unwrap();
    let second = register(&mut store, "b", "\"string\"").unwrap();
    assert_eq!(first.id, second.id);
    assert_eq!(store.schemas.len(), 1);
    assert_eq!(store.subjects.len(), 2);
    assert_eq!(store.schema_versions.len(), 2);
    let rows: Vec<(i64, Option<i32>, i64, i64)> = store
        .schema_versions
        .iter()
        .map(|r| (r.id, r.version, r.subject_id, r.schema_id))
        .collect();
    assert_eq!(rows, vec![(1, Some(1), 1, 1), (2, Some(1), 2, 1)]);
}

#[test]
fn versions_count_up_from_one() {
    let mut store = lenient_store();
    store.clock = 1000;
    assert_eq!(register(&mut store, "s", "\"string\"").unwrap().id, 1);
    assert_eq!(register(&mut store, "s", "\"int\"").unwrap().id, 2);
    assert_eq!(register(&mut store, "t", "\"int\"").unwrap().id, 2);
    assert_eq!(register(&mut store, "s", "\"long\"").unwrap().id, 3);
    assert_eq!(register(&mut store, "t", "\"boolean\"").unwrap().id, 4);
    assert_eq!(
        get_subject_versions(&store, "s".to_string()).unwrap().versions,
        vec![Some(1), Some(2), Some(3)]
    );
    assert_eq!(
        get_subject_versions(&store, "t".to_string()).unwrap().versions,
        vec![Some(1), Some(2)]
    );
    assert_eq!(
        SchemaVersion::latest_version_with_subject_name(&store, "s".to_string()).unwrap(),
        Some(3)
    );
    assert_eq!(
        SchemaVersion::latest_version_with_subject_name(&store, "nobody".to_string()).unwrap(),
        None
    );
    assert_eq!(SchemaVersion::get_schema_id(&store, "s".to_string(), 2).unwrap(), (2, 2, "\"int\"".to_string()));
    assert_eq!(
        SchemaVersion::get_schema_id_from_latest(&store, "t".to_string()).unwrap(),
        (4, 2, "\"boolean\"".to_string())
    );
    assert_eq!(store.subjects[0].name, "s");
    assert_eq!((store.subjects[0].created_at, store.subjects[0].updated_at), (1000, 1000));
    assert_eq!(store.schemas[0].created_at, 1000);
    // After the latest version is deleted its number is given again.
    assert_eq!(
        SchemaVersion::delete_version_with_subject(
            &mut store,
            DeleteSchemaVersion { subject: "s".to_string(), version: 3 }
        )
        .unwrap(),
        3
    );
    assert_eq!(register(&mut store, "s", "\"double\"").unwrap().id, 5);
    assert_eq!(
        get_subject_versions(&store, "s".to_string()).unwrap().versions,
        vec![Some(1), Some(2), Some(3)]
    );
}

#[test]
fn deleting_a_subject_takes_all_its_versions() {
    let mut store = lenient_store();
    register(&mut store, "s", "\"string\"").unwrap();
    register(&mut store, "t", "\"int\"").unwrap();
    register(&mut store, "s", "\"int\"").unwrap();
    register(&mut store, "s", "\"long\"").unwrap();
    Config::set_with_subject_name(&mut store, "s".to_string(), "FULL".to_string()).unwrap();
    Config::set_with_subject_name(&mut store, "t".to_string(), "FORWARD".to_string()).unwrap();
    let removed = delete_subject(&mut store, "s".to_string()).unwrap();
    assert_eq!(removed.versions, vec![Some(1), Some(2), Some(3)]);
    // No binding of the subject is left, and the subject and its override are gone.
    assert_eq!(store.schema_versions.len(), 1);
    assert_eq!(store.schema_versions[0].subject_id, 2);
    let names: Vec<&str> = store.subjects.iter().map(|s| s.name.as_str()).collect();
    assert_eq!(names, vec!["t"]);
    let overrides: Vec<Option<i64>> = store.configs.iter().map(|c| c.subject_id).collect();
    assert_eq!(overrides, vec![None, Some(2)]);
    // The schema that the other subject is bound to stays; the others go.
    let bodies: Vec<&str> = store.schemas.iter().map(|s| s.json.as_str()).collect();
    assert_eq!(bodies, vec!["\"int\""]);
    expect_error(get_subject_versions(&store, "s".to_string()), 404, 40401, "Subject not found");
    assert_eq!(get_subject_versions(&store, "t".to_string()).unwrap().versions, vec![Some(1)]);
    expect_error(delete_subject(&mut store, "s".to_string()), 404, 40401, "Subject not found");
    // Identifiers are not given again.
    assert_eq!(register(&mut store, "s", "\"string\"").unwrap().id, 4);
    assert_eq!(store.subjects[1].id, 3);
}

#[test]
fn a_subject_without_versions_is_not_deleted() {
    let mut store = Store::new();
    Subject::insert(&mut store, "s".to_string()).unwrap();
    expect_error(Subject::delete_by_name(&mut store, "s".to_string()), 404, 40401, "Subject not found");
    assert_eq!(store.subjects.len(), 1);
    assert_eq!(
        SchemaVersion::delete_subject_with_name(&mut store, "s".to_string()).unwrap(),
        Vec::<Option<i32>>::new()
    );
    assert_eq!(store.subjects.len(), 1);
}

#[test]
fn subjects_are_inserted_once() {
    let mut store = Store::new();
    let a = Subject::insert(&mut store, "a".to_string()).unwrap();
    let b = Subject::insert(&mut store, "b".to_string()).unwrap();
    let again = Subject::insert(&mut store, "a".to_string()).unwrap();
    assert_eq!((a.id, b.id, again.id), (1, 2, 1));
    assert_eq!(store.subjects.len(), 2);
    assert_eq!(store.next_subject_id, 3);
    assert_eq!(Subject::get_by_name(&store, "b".to_string()).unwrap().id, 2);
    expect_error(Subject::get_by_name(&store, "c".to_string()), 404, 40401, "Subject not found");
    assert_eq!(Subject::distinct_names(&store).unwrap(), vec!["a", "b"]);
    assert!(Subject::is_named(&store, 1, &"a".to_string()));
    assert!(!Subject::is_named(&store, 1, &"b".to_string()));
    assert!(!Subject::is_named(&store, 3, &"a".to_string()));
    store.next_subject_id = i64::MAX;
    expect_error(
        Subject::insert(&mut store, "c".to_string()),
        500,
        50001,
        "Error in the backend datastore",
    );
    assert_eq!(Subject::insert(&mut store, "a".to_string()).unwrap().id, 1);
    assert_eq!(store.subjects.len(), 2);
}

#[test]
fn bindings_are_found_and_counted() {
    let mut store = Store::new();
    Subject::insert(&mut store, "a".to_string()).unwrap();
    Subject::insert(&mut store, "b".to_string()).unwrap();
    Schema::new(&mut store, "\"string\"".to_string(), "f1".to_string()).unwrap();
    Schema::new(&mut store, "\"int\"".to_string(), "f2".to_string()).unwrap();
    let row = bind(&mut store, Some(1), 1, 1);
    assert_eq!((row.id, row.version, row.subject_id, row.schema_id), (1, Some(1), 1, 1));
    bind(&mut store, Some(2), 1, 2);
    bind(&mut store, Some(1), 2, 2);
    assert_eq!(SchemaVersion::find(&store, 1, 2).unwrap().id, 2);
    expect_error(SchemaVersion::find(&store, 2, 1), 404, 40402, "Version not found");
    assert_eq!(SchemaVersion::with_schema_and_subject(&store, "a".to_string(), 2).unwrap(), 1);
    assert_eq!(SchemaVersion::with_schema_and_subject(&store, "b".to_string(), 1).unwrap(), 0);
    assert_eq!(SchemaVersion::with_schema_and_subject(&store, "c".to_string(), 1).unwrap(), 0);
    // A binding of a schema that is not stored does not count.
    bind(&mut store, Some(3), 1, 9);
    assert_eq!(SchemaVersion::with_schema_and_subject(&store, "a".to_string(), 9).unwrap(), 0);
    // Two bindings of one pair count twice.
    bind(&mut store, Some(4), 1, 2);
    assert_eq!(SchemaVersion::with_schema_and_subject(&store, "a".to_string(), 2).unwrap(), 2);
    store.next_schema_version_id = i64::MAX;
    expect_error(
        SchemaVersion::insert(
            &mut store,
            NewSchemaVersion { version: Some(5), subject_id: 1, schema_id: 1 },
        ),
        500,
        50001,
        "Error in the backend datastore",
    );
    assert_eq!(store.schema_versions.len(), 5);
}

#[test]
fn versions_are_listed_in_ascending_order() {
    let mut store = Store::new();
    Subject::insert(&mut store, "a".to_string()).unwrap();
    Subject::insert(&mut store, "b".to_string()).unwrap();
    Schema::new(&mut store, "\"string\"".to_string(), "f1".to_string()).unwrap();
    bind(&mut store, Some(3), 1, 1);
    bind(&mut store, Some(7), 2, 1);
    bind(&mut store, None, 1, 1);
    bind(&mut store, Some(1), 1, 1);
    bind(&mut store, Some(2), 1, 1);
    bind(&mut store, Some(3), 1, 1);
    // Ascending, and a missing number after every number.
    assert_eq!(
        SchemaVersion::versions_with_subject_name(&store, "a".to_string()).unwrap(),
        vec![Some(1), Some(2), Some(3), Some(3), None]
    );
    assert_eq!(
        SchemaVersion::versions_with_subject_name(&store, "b".to_string()).unwrap(),
        vec![Some(7)]
    );
    // The latest version is the greatest number; a row without one is passed over.
    assert_eq!(
        SchemaVersion::latest_version_with_subject_name(&store, "a".to_string()).unwrap(),
        Some(3)
    );
    assert_eq!(
        SchemaVersion::get_schema_id_from_latest(&store, "a".to_string()).unwrap(),
        (1, 3, "\"string\"".to_string())
    );
    assert_eq!(
        SchemaVersion::get_schema_id_from_latest(&store, "b".to_string()).unwrap(),
        (1, 7, "\"string\"".to_string())
    );
    // Of two rows at one version the first is resolved.
    store.schema_versions[5].schema_id = 5;
    assert_eq!(SchemaVersion::get_schema_id(&store, "a".to_string(), 3).unwrap().0, 1);
    // A row whose schema is not stored is a datastore error.
    store.schema_versions[0].schema_id = 5;
    expect_error(
        SchemaVersion::get_schema_id(&store, "a".to_string(), 3),
        500,
        50001,
        "Error in the backend datastore",
    );
    // Deleting a version takes every row that has it.
    assert_eq!(
        SchemaVersion::delete_version_with_subject(
            &mut store,
            DeleteSchemaVersion { subject: "a".to_string(), version: 3 }
        )
        .unwrap(),
        3
    );
    assert_eq!(
        SchemaVersion::versions_with_subject_name(&store, "a".to_string()).unwrap(),
        vec![Some(1), Some(2), None]
    );
}

#[test]
fn a_failed_registration_leaves_no_trace() {
    let mut store = Store::new();
    store.next_schema_version_id = i64::MAX;
    expect_error(
        register(&mut store, "s", "\"string\""),
        500,
        50001,
        "Error in the backend datastore",
    );
    assert!(store.subjects.is_empty());
    assert!(store.schemas.is_empty());
    assert_eq!((store.next_subject_id, store.next_schema_id), (1, 1));

    let mut store = Store::new();
    store.next_schema_id = i64::MAX;
    expect_error(
        register(&mut store, "s", "\"string\""),
        500,
        50001,
        "Error in the backend datastore",
    );
    assert!(store.subjects.is_empty());

    let mut store = Store::new();
    store.next_subject_id = i64::MAX;
    expect_error(
        register(&mut store, "s", "\"string\""),
        500,
        50001,
        "Error in the backend datastore",
    );
    assert!(store.schemas.is_empty());
    assert!(store.schema_versions.is_empty());

    // The last version number cannot be followed.
    let mut store = lenient_store();
    register(&mut store, "s", "\"string\"").unwrap();
    store.schema_versions[0].version = Some(i32::MAX);
    expect_error(
        register(&mut store, "s", "\"int\""),
        500,
        50001,
        "Error in the backend datastore",
    );
    assert_eq!(store.schemas.len(), 1);
    store.schema_versions[0].version = Some(i32::MAX - 1);
    register(&mut store, "s", "\"int\"").unwrap();
    assert_eq!(store.schema_versions[1].version, Some(i32::MAX));
}

#[test]
fn a_known_schema_is_bound_without_being_stored_again() {
    let mut store = lenient_store();
    let known = Schema::new(&mut store, "\"string\"".to_string(), "f1".to_string()).unwrap();
    let bound =
        Schema::create_new_version(&mut store, None, "f1".to_string(), "s".to_string(), Some(known))
            .unwrap();
    assert_eq!(bound.id, 1);
    assert_eq!(store.schemas.len(), 1);
    assert_eq!(store.schema_versions.len(), 1);
    assert_eq!(store.schema_versions[0].version, Some(1));
    let fresh = Schema::create_new_version(
        &mut store,
        Some("\"int\"".to_string()),
        "f2".to_string(),
        "s".to_string(),
        None,
    )
    .unwrap();
    assert_eq!((fresh.id, fresh.fingerprint.as_str(), fresh.json.as_str()), (2, "f2", "\"int\""));
    assert_eq!(store.schema_versions[1].version, Some(2));
    // Neither a body nor a row: nothing to bind.
    expect_error(
        Schema::create_new_version(&mut store, None, "f3".to_string(), "s".to_string(), None),
        500,
        50001,
        "Error in the backend datastore",
    );
    assert_eq!(store.schema_versions.len(), 2);
}

#[test]
fn registered_identifiers_are_written_in_decimal() {
    let mut store = lenient_store();
    store.next_schema_id = 41;
    let body = |schema: &str| SchemaBody { schema: schema.to_string() };
    assert_eq!(register_schema(&mut store, "s".to_string(), body("\"string\"")).unwrap().id, "41");
    assert_eq!(register_schema(&mut store, "s".to_string(), body("\"int\"")).unwrap().id, "42");
    assert_eq!(register_schema(&mut store, "s".to_string(), body("\"string\"")).unwrap().id, "41");
}

#[test]
fn the_registry_keeps_its_store_sound() {
    let mut store = Store::new();
    assert!(store.is_sound());
    Config::get_global_compatibility(&mut store).unwrap();
    assert!(store.is_sound());
    Config::set_global_compatibility(&mut store, "NONE").unwrap();
    register(&mut store, "s", "\"string\"").unwrap();
    register(&mut store, "t", "\"string\"").unwrap();
    register(&mut store, "s", "\"int\"").unwrap();
    register(&mut store, "s", "\"string\"").unwrap();
    assert!(store.is_sound());
    Config::set_with_subject_name(&mut store, "s".to_string(), "FULL".to_string()).unwrap();
    Config::set_with_subject_name(&mut store, "t".to_string(), "FULL".to_string()).unwrap();
    Config::set_with_subject_name(&mut store, "s".to_string(), "NONE".to_string()).unwrap();
    assert!(store.is_sound());
    register(&mut store, "s", "\"long\"").unwrap();
    SchemaVersion::delete_version_with_subject(
        &mut store,
        DeleteSchemaVersion { subject: "s".to_string(), version: 2 },
    )
    .unwrap();
    assert!(store.is_sound());
    register(&mut store, "s", "\"int\"").unwrap();
    assert!(store.is_sound());
    let versions: Vec<Option<i32>> = store
        .schema_versions
        .iter()
        .filter(|r| r.subject_id == 1)
        .map(|r| r.version)
        .collect();
    assert_eq!(versions, vec![Some(1), Some(3), Some(4)]);
    delete_subject(&mut store, "s".to_string()).unwrap();
    assert!(store.is_sound());
    delete_subject(&mut store, "t".to_string()).unwrap();
    assert!(store.is_sound());
    assert!(store.subjects.is_empty());
    assert!(store.schemas.is_empty());
    assert!(store.schema_versions.is_empty());
    assert_eq!(store.configs.len(), 1);
}

#[test]
fn an_unsound_store_is_told_from_a_sound_one() {
    let sound = || {
        let mut store = Store::new();
        Config::set_global_compatibility(&mut store, "NONE").unwrap();
        register(&mut store, "s", "\"string\"").unwrap();
        register(&mut store, "s", "\"int\"").unwrap();
        register(&mut store, "t", "\"int\"").unwrap();
        Config::set_with_subject_name(&mut store, "s".to_string(), "FULL".to_string()).unwrap();
        Config::set_with_subject_name(&mut store, "t".to_string(), "FULL".to_string()).unwrap();
        store
    };
    assert!(sound().is_sound());

    // Two subjects of one name, or of one identifier.
    let mut store = sound();
    store.subjects[1].name = "s".to_string();
    assert!(!store.is_sound());
    let mut store = sound();
    store.subjects[1].id = 1;
    assert!(!store.is_sound());
    // An identifier ahead of its counter.
    let mut store = sound();
    store.next_subject_id = 2;
    assert!(!store.is_sound());
    let mut store = sound();
    store.next_schema_id = 2;
    assert!(!store.is_sound());
    let mut store = sound();
    store.next_schema_version_id = 3;
    assert!(!store.is_sound());
    let mut store = sound();
    store.next_config_id = 2;
    assert!(!store.is_sound());
    // Two schemas, or two bindings, of one identifier.
    let mut store = sound();
    store.schemas[1].id = 1;
    assert!(!store.is_sound());
    let mut store = sound();
    store.schema_versions[2].id = 1;
    assert!(!store.is_sound());
    // A binding without its subject, or without its schema.
    let mut store = sound();
    store.schema_versions[2].subject_id = 9;
    assert!(!store.is_sound());
    let mut store = sound();
    store.schema_versions[2].schema_id = 9;
    assert!(!store.is_sound());
    // A binding without a number, or with a number below 1.
    let mut store = sound();
    store.schema_versions[0].version = None;
    assert!(!store.is_sound());
    let mut store = sound();
    store.schema_versions[0].version = Some(0);
    assert!(!store.is_sound());
    // Versions of one subject that do not grow, or one schema bound twice.
    let mut store = sound();
    store.schema_versions[1].version = Some(1);
    assert!(!store.is_sound());
    let mut store = sound();
    store.schema_versions[1].schema_id = 1;
    assert!(!store.is_sound());
    // The same version under two subjects is in order.
    let mut store = sound();
    assert_eq!(store.schema_versions[0].version, store.schema_versions[2].version);
    store.schema_versions[2].version = Some(5);
    assert!(store.is_sound());
    // Two overrides of one subject, an override of no stored subject, a second global row.
    let mut store = sound();
    store.configs[2].subject_id = Some(1);
    assert!(!store.is_sound());
    let mut store = sound();
    store.configs[2].subject_id = Some(9);
    assert!(!store.is_sound());
    let mut store = sound();
    store.configs[2].subject_id = None;
    assert!(!store.is_sound());
    let mut store = sound();
    store.configs[0].id = 3;
    assert!(!store.is_sound());
}

#[test]
fn rows_without_a_number_do_not_count_as_versions() {
    let mut store = lenient_store();
    register(&mut store, "s", "\"string\"").unwrap();
    register(&mut store, "s", "\"int\"").unwrap();
    store.schema_versions[0].version = None;
    assert_eq!(
        SchemaVersion::latest_version_with_subject_name(&store, "s".to_string()).unwrap(),
        Some(2)
    );
    // The next version follows the greatest number.
    register(&mut store, "s", "\"long\"").unwrap();
    assert_eq!(store.schema_versions[2].version, Some(3));
    // A subject whose rows all lack a number has no latest version.
    let mut store = lenient_store();
    register(&mut store, "s", "\"string\"").unwrap();
    store.schema_versions[0].version = None;
    assert_eq!(
        SchemaVersion::latest_version_with_subject_name(&store, "s".to_string()).unwrap(),
        None
    );
    expect_error(
        SchemaVersion::get_schema_id_from_latest(&store, "s".to_string()),
        404,
        40402,
        "Version not found",
    );
}

#[test]
fn a_schema_that_is_bound_already_is_not_bound_again() {
    let mut store = lenient_store();
    let first = register(&mut store, "s", "\"string\"").unwrap();
    // Two bindings of the pair, as no registration leaves them.
    bind(&mut store, Some(2), 1, first.id);
    assert_eq!(SchemaVersion::with_schema_and_subject(&store, "s".to_string(), first.id).unwrap(), 2);
    let again = register(&mut store, "s", "\"string\"").unwrap();
    assert_eq!(again.id, first.id);
    assert_eq!(store.schema_versions.len(), 2);
    assert_eq!(store.schemas.len(), 1);
}
