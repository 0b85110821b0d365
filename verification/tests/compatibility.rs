use avro_schema_registry::api::errors::ApiError;
use avro_schema_registry::api::{
    check_compatibility, get_subject_versions, register_schema, SchemaBody, SchemaCompatibility,
};
use avro_schema_registry::db::models::{
    CompareAgainst, CompatibilityLevel, ComparisonPlan, Config, RegisterSchema, Schema, Subject,
};
use avro_schema_registry::db::Store;

const SCHEMA: &str = "{\n    \"type\": \"record\",\n    \"name\": \"test\",\n    \"fields\":\n    [\n        {\n            \"type\": \"string\",\n            \"name\": \"field1\",\n            \"default\": \"\"\n        },\n        {\n            \"type\": \"string\",\n            \"name\": \"field2\"\n        }\n    ]\n}\n";

// Drops `field2`: it reads what SCHEMA wrote, but SCHEMA cannot read what it writes.
const SCHEMA_BACKWARD_COMPATIBLE: &str = "{\"type\": \"record\", \"name\": \"test\", \"fields\": [{\"type\": \"string\", \"name\": \"field1\", \"default\": \"\"}]}";

// Adds `field3` without a default: SCHEMA reads what it writes, but it cannot read what SCHEMA wrote.
const SCHEMA_FORWARD_COMPATIBLE: &str = "{\"type\": \"record\", \"name\": \"test\", \"fields\": [{\"type\": \"string\", \"name\": \"field1\", \"default\": \"\"}, {\"type\": \"string\", \"name\": \"field2\"}, {\"type\": \"string\", \"name\": \"field3\"}]}";

// Adds `field3` with a default: readable both ways.
const SCHEMA_FULL_COMPATIBLE: &str = "{\"type\": \"record\", \"name\": \"test\", \"fields\": [{\"type\": \"string\", \"name\": \"field1\", \"default\": \"\"}, {\"type\": \"string\", \"name\": \"field2\"}, {\"type\": \"string\", \"name\": \"field3\", \"default\": \"\"}]}";

// Has all of `field1` to `field3` and adds `field4` with a default.
const SCHEMA_FOUR_FIELDS: &str = "{\"type\": \"record\", \"name\": \"test\", \"fields\": [{\"type\": \"string\", \"name\": \"field1\", \"default\": \"\"}, {\"type\": \"string\", \"name\": \"field2\"}, {\"type\": \"string\", \"name\": \"field3\"}, {\"type\": \"string\", \"name\": \"field4\", \"default\": \"\"}]}";

fn expect_error<T: std::fmt::Debug>(got: Result<T, ApiError>, status: u16, code: u16, message: &str) {
    let error = got.unwrap_err();
    assert_eq!(error.status_code, status);
    assert_eq!(error.response.error_code.code(), code);
    assert_eq!(error.response.message, message);
}

fn subject() -> String {
    "test.subject".to_string()
}

fn create_test_subject_with_config(store: &mut Store, compat: &str) {
    Subject::insert(store, subject()).unwrap();
    Config::set_with_subject_name(store, subject(), compat.to_string()).unwrap();
}

fn register(store: &mut Store, schema: &str) -> Result<Schema, ApiError> {
    Schema::register_new_version(
        store,
        RegisterSchema { subject: subject(), schema: schema.to_string() },
    )
}

fn check(store: &Store, version: u32, schema: &str) -> Result<SchemaCompatibility, ApiError> {
    check_compatibility(store, subject(), version, schema.to_string())
}

#[test]
fn test_schema_for_compatibility_with_non_existent_subject() {
    let store = Store::new();
    expect_error(check(&store, 1, SCHEMA), 404, 40401, "Subject not found");
}

#[test]
fn test_schema_for_compatibility_with_subject_and_with_non_existent_version() {
    let mut store = Store::new();
    create_test_subject_with_config(&mut store, "FORWARD");
    // it returns 404 with 'Version not found'
    expect_error(check(&store, 2, SCHEMA), 404, 40402, "Version not found");
}

#[test]
fn test_schema_for_forward_compatibility_with_subject_and_with_version() {
    let mut store = Store::new();
    create_test_subject_with_config(&mut store, "FORWARD");
    register(&mut store, SCHEMA).unwrap();
    assert_eq!(check(&store, 1, SCHEMA_FORWARD_COMPATIBLE).unwrap().is_compatible, true);
    // Should not be backwards compatible
    assert_eq!(check(&store, 1, SCHEMA_BACKWARD_COMPATIBLE).unwrap().is_compatible, false);
}

#[test]
fn test_schema_for_backward_compatibility_with_subject_and_with_version() {
    let mut store = Store::new();
    create_test_subject_with_config(&mut store, "BACKWARD");
    register(&mut store, SCHEMA).unwrap();
    assert_eq!(check(&store, 1, SCHEMA_BACKWARD_COMPATIBLE).unwrap().is_compatible, true);
    assert_eq!(check(&store, 1, SCHEMA_FORWARD_COMPATIBLE).unwrap().is_compatible, false);
}

#[test]
fn test_schema_for_full_compatibility_with_subject_and_with_version() {
    let mut store = Store::new();
    create_test_subject_with_config(&mut store, "FULL");
    register(&mut store, SCHEMA).unwrap();
    assert_eq!(check(&store, 1, SCHEMA_BACKWARD_COMPATIBLE).unwrap().is_compatible, false);
    assert_eq!(check(&store, 1, SCHEMA_FORWARD_COMPATIBLE).unwrap().is_compatible, false);
    assert_eq!(check(&store, 1, SCHEMA_FULL_COMPATIBLE).unwrap().is_compatible, true);
}

#[test]
fn one_pair_of_schemas_is_judged_by_the_level() {
    let old = SCHEMA;
    let verdict = |new: &str, level: CompatibilityLevel| {
        SchemaCompatibility::is_compatible(old, new, level).unwrap()
    };
    assert!(verdict(SCHEMA_BACKWARD_COMPATIBLE, CompatibilityLevel::Backward));
    assert!(!verdict(SCHEMA_BACKWARD_COMPATIBLE, CompatibilityLevel::Forward));
    assert!(!verdict(SCHEMA_BACKWARD_COMPATIBLE, CompatibilityLevel::Full));
    assert!(verdict(SCHEMA_BACKWARD_COMPATIBLE, CompatibilityLevel::CompatNone));
    assert!(!verdict(SCHEMA_FORWARD_COMPATIBLE, CompatibilityLevel::Backward));
    assert!(verdict(SCHEMA_FORWARD_COMPATIBLE, CompatibilityLevel::Forward));
    assert!(!verdict(SCHEMA_FORWARD_COMPATIBLE, CompatibilityLevel::Full));
    assert!(verdict(SCHEMA_FULL_COMPATIBLE, CompatibilityLevel::Backward));
    assert!(verdict(SCHEMA_FULL_COMPATIBLE, CompatibilityLevel::Forward));
    assert!(verdict(SCHEMA_FULL_COMPATIBLE, CompatibilityLevel::Full));
    // On one pair a transitive level looks the way its plain level looks.
    assert!(verdict(SCHEMA_BACKWARD_COMPATIBLE, CompatibilityLevel::BackwardTransitive));
    assert!(!verdict(SCHEMA_BACKWARD_COMPATIBLE, CompatibilityLevel::ForwardTransitive));
    assert!(!verdict(SCHEMA_FORWARD_COMPATIBLE, CompatibilityLevel::FullTransitive));
    assert!(verdict(SCHEMA_FULL_COMPATIBLE, CompatibilityLevel::FullTransitive));
}

#[test]
fn a_text_that_is_no_schema_is_an_error_not_a_no() {
    expect_error(
        SchemaCompatibility::is_compatible(SCHEMA, "{}", CompatibilityLevel::Backward),
        422,
        42201,
        "Invalid Avro schema",
    );
    expect_error(
        SchemaCompatibility::is_compatible("{}", SCHEMA, CompatibilityLevel::Forward),
        422,
        42201,
        "Invalid Avro schema",
    );
    // Without a direction nothing is read.
    assert_eq!(
        SchemaCompatibility::is_compatible("{}", "{}", CompatibilityLevel::CompatNone).unwrap(),
        true
    );
    expect_error(
        SchemaCompatibility::is_compatible(SCHEMA, SCHEMA, CompatibilityLevel::Unknown),
        422,
        42203,
        "Invalid compatibility level",
    );
    let mut store = Store::new();
    create_test_subject_with_config(&mut store, "FULL");
    register(&mut store, SCHEMA).unwrap();
    expect_error(check(&store, 1, "{}"), 422, 42201, "Invalid Avro schema");
    expect_error(check(&store, 0, SCHEMA), 422, 42202, "Invalid version");
    expect_error(check(&store, 2147483648, SCHEMA), 422, 42202, "Invalid version");
}

#[test]
fn a_check_goes_by_the_level_in_force() {
    let mut store = Store::new();
    // No override and no global row: the default level, BACKWARD, is in force.
    register(&mut store, SCHEMA).unwrap();
    assert_eq!(check(&store, 1, SCHEMA_BACKWARD_COMPATIBLE).unwrap().is_compatible, true);
    assert_eq!(check(&store, 1, SCHEMA_FORWARD_COMPATIBLE).unwrap().is_compatible, false);
    // The global level is in force where the subject has no override.
    Config::set_global_compatibility(&mut store, "FORWARD").unwrap();
    assert_eq!(check(&store, 1, SCHEMA_BACKWARD_COMPATIBLE).unwrap().is_compatible, false);
    assert_eq!(check(&store, 1, SCHEMA_FORWARD_COMPATIBLE).unwrap().is_compatible, true);
    // The override wins.
    Config::set_with_subject_name(&mut store, subject(), "NONE".to_string()).unwrap();
    assert_eq!(check(&store, 1, SCHEMA_BACKWARD_COMPATIBLE).unwrap().is_compatible, true);
    assert_eq!(check(&store, 1, SCHEMA_FORWARD_COMPATIBLE).unwrap().is_compatible, true);
    // A stored level that stands for none makes the check fail.
    store.configs[1].compatibility = Some("SOMETHING".to_string());
    expect_error(check(&store, 1, SCHEMA_FULL_COMPATIBLE), 422, 42201, "Invalid Avro schema");
    store.configs[1].compatibility = None;
    expect_error(
        check(&store, 1, SCHEMA_FULL_COMPATIBLE),
        500,
        50001,
        "Error in the backend datastore",
    );
}

#[test]
fn registration_under_full_takes_full_compatible_schemas_only() {
    let mut store = Store::new();
    create_test_subject_with_config(&mut store, "FULL");
    register(&mut store, SCHEMA).unwrap();
    expect_error(register(&mut store, SCHEMA_BACKWARD_COMPATIBLE), 422, 42201, "Invalid Avro schema");
    expect_error(register(&mut store, SCHEMA_FORWARD_COMPATIBLE), 422, 42201, "Invalid Avro schema");
    // Nothing of the refused schemas was kept.
    assert_eq!(store.schemas.len(), 1);
    assert_eq!(store.schema_versions.len(), 1);
    assert_eq!(store.next_schema_id, 2);
    let accepted = register(&mut store, SCHEMA_FULL_COMPATIBLE).unwrap();
    assert_eq!(accepted.id, 2);
    assert_eq!(
        get_subject_versions(&store, subject()).unwrap().versions,
        vec![Some(1), Some(2)]
    );
}

#[test]
fn registration_under_backward_and_forward_differ() {
    let mut store = Store::new();
    create_test_subject_with_config(&mut store, "BACKWARD");
    register(&mut store, SCHEMA).unwrap();
    expect_error(register(&mut store, SCHEMA_FORWARD_COMPATIBLE), 422, 42201, "Invalid Avro schema");
    assert_eq!(register(&mut store, SCHEMA_BACKWARD_COMPATIBLE).unwrap().id, 2);

    let mut store = Store::new();
    create_test_subject_with_config(&mut store, "FORWARD");
    register(&mut store, SCHEMA).unwrap();
    expect_error(register(&mut store, SCHEMA_BACKWARD_COMPATIBLE), 422, 42201, "Invalid Avro schema");
    assert_eq!(register(&mut store, SCHEMA_FORWARD_COMPATIBLE).unwrap().id, 2);

    let mut store = Store::new();
    create_test_subject_with_config(&mut store, "NONE");
    register(&mut store, SCHEMA).unwrap();
    assert_eq!(register(&mut store, "\"int\"").unwrap().id, 2);
    assert_eq!(register(&mut store, SCHEMA_BACKWARD_COMPATIBLE).unwrap().id, 3);
}

#[test]
fn the_first_version_of_a_subject_is_not_compared() {
    let mut store = Store::new();
    create_test_subject_with_config(&mut store, "FULL_TRANSITIVE");
    assert_eq!(register(&mut store, SCHEMA_FORWARD_COMPATIBLE).unwrap().id, 1);
    // Another subject starts anew, whatever the first one holds.
    let other = register_schema(
        &mut store,
        "other.subject".to_string(),
        SchemaBody { schema: "\"int\"".to_string() },
    )
    .unwrap();
    assert_eq!(other.id, "2");
}

#[test]
fn transitive_levels_compare_with_every_version() {
    let mut store = Store::new();
    create_test_subject_with_config(&mut store, "NONE");
    register(&mut store, SCHEMA).unwrap();
    register(&mut store, SCHEMA_FORWARD_COMPATIBLE).unwrap();
    // The candidate reads what version 2 wrote, but not what version 1 wrote.
    assert_eq!(
        SchemaCompatibility::is_compatible(
            SCHEMA_FORWARD_COMPATIBLE,
            SCHEMA_FOUR_FIELDS,
            CompatibilityLevel::Backward
        )
        .unwrap(),
        true
    );
    assert_eq!(
        SchemaCompatibility::is_compatible(SCHEMA, SCHEMA_FOUR_FIELDS, CompatibilityLevel::Backward)
            .unwrap(),
        false
    );
    Config::set_with_subject_name(&mut store, subject(), "BACKWARD_TRANSITIVE".to_string())
        .unwrap();
    expect_error(register(&mut store, SCHEMA_FOUR_FIELDS), 422, 42201, "Invalid Avro schema");
    assert_eq!(store.schema_versions.len(), 2);
    Config::set_with_subject_name(&mut store, subject(), "BACKWARD".to_string()).unwrap();
    assert_eq!(register(&mut store, SCHEMA_FOUR_FIELDS).unwrap().id, 3);
    assert_eq!(
        get_subject_versions(&store, subject()).unwrap().versions,
        vec![Some(1), Some(2), Some(3)]
    );
    // The check of one stored version stays a check of that version alone.
    Config::set_with_subject_name(&mut store, subject(), "BACKWARD_TRANSITIVE".to_string())
        .unwrap();
    assert_eq!(check(&store, 2, SCHEMA_FOUR_FIELDS).unwrap().is_compatible, true);
    assert_eq!(check(&store, 1, SCHEMA_FOUR_FIELDS).unwrap().is_compatible, false);
}

#[test]
fn a_plan_settles_what_the_readings_gave() {
    let plan = |backward: bool, forward: bool| ComparisonPlan {
        against: CompareAgainst::Latest,
        backward,
        forward,
    };
    assert!(plan(true, false).settle(true, false));
    assert!(!plan(true, false).settle(false, true));
    assert!(plan(false, true).settle(false, true));
    assert!(!plan(false, true).settle(true, false));
    assert!(plan(true, true).settle(true, true));
    assert!(!plan(true, true).settle(true, false));
    assert!(!plan(true, true).settle(false, true));
    assert!(plan(false, false).settle(false, false));
}

#[test]
fn a_candidate_that_parses_gets_an_answer() {
    let mut store = Store::new();
    create_test_subject_with_config(&mut store, "BACKWARD");
    register(&mut store, "[\"null\", \"int\"]").unwrap();
    let map = "{\"type\": \"map\", \"values\": \"int\"}";
    assert_eq!(check(&store, 1, map).unwrap().is_compatible, false);
    assert_eq!(
        SchemaCompatibility::is_compatible(
            "[\"null\", \"int\"]",
            "{\"type\": \"array\", \"items\": \"int\"}",
            CompatibilityLevel::Full,
        )
        .unwrap(),
        false
    );
    Config::set_with_subject_name(&mut store, subject(), "FORWARD".to_string()).unwrap();
    assert_eq!(check(&store, 1, map).unwrap().is_compatible, false);
    Config::set_with_subject_name(&mut store, subject(), "FULL".to_string()).unwrap();
    assert_eq!(check(&store, 1, map).unwrap().is_compatible, false);
    Config::set_with_subject_name(&mut store, subject(), "NONE".to_string()).unwrap();
    assert_eq!(check(&store, 1, map).unwrap().is_compatible, true);
}

#[test]
fn a_first_field_that_fails_gives_a_no_under_every_level() {
    let stored = "{\"type\":\"record\",\"name\":\"t\",\"fields\":[{\"name\":\"a\",\"type\":\"int\"},{\"name\":\"b\",\"type\":[\"null\",\"int\"]}]}";
    let candidate = "{\"type\":\"record\",\"name\":\"t\",\"fields\":[{\"name\":\"a\",\"type\":{\"type\":\"map\",\"values\":\"int\"}},{\"name\":\"b\",\"type\":{\"type\":\"map\",\"values\":\"int\"}}]}";
    // No override and no global row: the default level is in force.
    let mut store = Store::new();
    register(&mut store, stored).unwrap();
    assert_eq!(check(&store, 1, candidate).unwrap().is_compatible, false);
    for level in [
        CompatibilityLevel::Backward,
        CompatibilityLevel::Forward,
        CompatibilityLevel::Full,
        CompatibilityLevel::BackwardTransitive,
        CompatibilityLevel::ForwardTransitive,
        CompatibilityLevel::FullTransitive,
    ] {
        assert_eq!(SchemaCompatibility::is_compatible(stored, candidate, level).unwrap(), false);
        assert_eq!(SchemaCompatibility::is_compatible(candidate, stored, level).unwrap(), false);
    }
    expect_error(register(&mut store, candidate), 422, 42201, "Invalid Avro schema");
    assert_eq!(store.schema_versions.len(), 1);
}

#[test]
fn the_text_that_is_submitted_is_the_text_that_is_compared() {
    // Two texts of one schema: the canonical form leaves defaults out.
    let with_default = SCHEMA;
    let without_default = "{\"type\": \"record\", \"name\": \"test\", \"fields\": [{\"type\": \"string\", \"name\": \"field1\"}, {\"type\": \"string\", \"name\": \"field2\"}]}";
    let earlier = "{\"type\": \"record\", \"name\": \"test\", \"fields\": [{\"type\": \"string\", \"name\": \"field2\"}]}";
    let register_under = |store: &mut Store, subject: &str, schema: &str| {
        Schema::register_new_version(
            store,
            RegisterSchema { subject: subject.to_string(), schema: schema.to_string() },
        )
    };
    let mut store = Store::new();
    let stored = register_under(&mut store, "other", without_default).unwrap();
    register_under(&mut store, "s", earlier).unwrap();
    register_under(&mut store, "u", earlier).unwrap();
    // Under BACKWARD the text with the default reads what `earlier` wrote; the stored body
    // of the same schema would not.
    let bound = register_under(&mut store, "s", with_default).unwrap();
    assert_eq!(bound.id, stored.id);
    assert_eq!(bound.json, without_default);
    assert_eq!(store.schemas.len(), 2);
    expect_error(
        register_under(&mut store, "u", without_default),
        422,
        42201,
        "Invalid Avro schema",
    );
    assert_eq!(store.schema_versions.len(), 4);
    assert!(store.is_sound());
}
