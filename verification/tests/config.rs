use avro_schema_registry::api::errors::ApiError;
use avro_schema_registry::api::{get_config, get_subject_config, put_config, put_subject_config};
use avro_schema_registry::db::models::{
    CompareAgainst, CompatibilityLevel, Config, ConfigCompatibility, Subject,
};
use avro_schema_registry::db::Store;

fn expect_error<T: std::fmt::Debug>(got: Result<T, ApiError>, status: u16, code: u16, message: &str) {
    let error = got.unwrap_err();
    assert_eq!(error.status_code, status);
    assert_eq!(error.response.error_code.code(), code);
    assert_eq!(error.response.message, message);
}

fn create_test_subject_with_config(store: &mut Store, compat: &str) {
    Subject::insert(store, "test.subject".to_string()).unwrap();
    Config::set_with_subject_name(store, "test.subject".to_string(), compat.to_string()).unwrap();
}

fn level(compatibility: CompatibilityLevel) -> ConfigCompatibility {
    ConfigCompatibility { compatibility }
}

#[test]
fn test_get_global_config() {
    let mut store = Store::new();
    // returns compatibility
    assert_eq!(get_config(&mut store).unwrap(), level(CompatibilityLevel::Backward));
}

#[test]
fn test_set_global_config_with_valid_compatibility_full() {
    let mut store = Store::new();
    // returns compatibility
    assert_eq!(
        put_config(&mut store, level(CompatibilityLevel::Full)).unwrap(),
        level(CompatibilityLevel::Full)
    );
    assert_eq!(get_config(&mut store).unwrap(), level(CompatibilityLevel::Full));
}

#[test]
fn test_set_global_config_with_invalid_compatibility() {
    let mut store = Store::new();
    // returns 422 with Invalid compatibility level
    expect_error(
        put_config(&mut store, level(CompatibilityLevel::Unknown)),
        422,
        42203,
        "Invalid compatibility level",
    );
    expect_error(
        Config::set_global_compatibility(&mut store, "NOT_VALID"),
        422,
        42203,
        "Invalid compatibility level",
    );
    assert!(store.configs.is_empty());
}

#[test]
fn test_get_compatibility_level_with_existent_subject() {
    let mut store = Store::new();
    create_test_subject_with_config(&mut store, "FULL");
    // returns valid compatibility
    assert_eq!(
        get_subject_config(&store, "test.subject".to_string()).unwrap(),
        level(CompatibilityLevel::Full)
    );
}

#[test]
fn test_get_compatibility_level_with_non_existent_subject() {
    let mut store = Store::new();
    create_test_subject_with_config(&mut store, "FULL");
    store.subjects.clear();
    // returns 404 with Subject not found
    expect_error(
        get_subject_config(&store, "test.subject".to_string()),
        404,
        40401,
        "Subject not found",
    );
}

#[test]
fn test_update_compatibility_level_with_existent_subject() {
    let mut store = Store::new();
    create_test_subject_with_config(&mut store, "FULL");
    // with valid compatibility FORWARD_TRANSITIVE it returns FORWARD_TRANSITIVE
    assert_eq!(
        put_subject_config(
            &mut store,
            "test.subject".to_string(),
            level(CompatibilityLevel::ForwardTransitive)
        )
        .unwrap(),
        level(CompatibilityLevel::ForwardTransitive)
    );
    assert_eq!(store.configs.len(), 1);
    assert_eq!(store.configs[0].compatibility.as_deref(), Some("FORWARD_TRANSITIVE"));
    // with invalid compatibility it returns 422
    expect_error(
        put_subject_config(
            &mut store,
            "test.subject".to_string(),
            level(CompatibilityLevel::Unknown),
        ),
        422,
        42203,
        "Invalid compatibility level",
    );
    expect_error(
        Config::set_with_subject_name(
            &mut store,
            "test.subject".to_string(),
            "NOT_VALID".to_string(),
        ),
        422,
        42203,
        "Invalid compatibility level",
    );
    assert_eq!(store.configs[0].compatibility.as_deref(), Some("FORWARD_TRANSITIVE"));
}

#[test]
fn test_update_compatibility_level_with_non_existent_subject() {
    let mut store = Store::new();
    // with valid compatibility FULL it returns 404
    expect_error(
        put_subject_config(&mut store, "test.subject".to_string(), level(CompatibilityLevel::Full)),
        404,
        40401,
        "Subject not found",
    );
    assert!(store.configs.is_empty());
}

#[test]
fn global_level_is_stored_on_first_read() {
    let mut store = Store::new();
    store.clock = 77;
    assert_eq!(Config::get_global_compatibility(&mut store).unwrap(), "BACKWARD");
    assert_eq!(store.configs.len(), 1);
    assert_eq!(store.configs[0].id, 0);
    assert_eq!(store.configs[0].subject_id, None);
    assert_eq!(store.configs[0].compatibility.as_deref(), Some("BACKWARD"));
    assert_eq!(store.configs[0].created_at, 77);
    assert_eq!(store.configs[0].updated_at, 77);
    // A second read finds the row and stores nothing.
    assert_eq!(Config::get_global_compatibility(&mut store).unwrap(), "BACKWARD");
    assert_eq!(store.configs.len(), 1);
    assert_eq!(store.next_config_id, 1);
}

#[test]
fn global_level_is_written_in_place() {
    let mut store = Store::new();
    assert_eq!(Config::set_global_compatibility(&mut store, "NONE").unwrap(), "NONE");
    assert_eq!(store.configs.len(), 1);
    assert_eq!(Config::set_global_compatibility(&mut store, "FULL_TRANSITIVE").unwrap(), "FULL_TRANSITIVE");
    assert_eq!(store.configs.len(), 1);
    assert_eq!(store.configs[0].id, 0);
    assert_eq!(Config::get_global_compatibility(&mut store).unwrap(), "FULL_TRANSITIVE");
    // The row of the global default can be inserted once only.
    expect_error(Config::insert("FULL", &mut store), 500, 50001, "Error in the backend datastore");
}

#[test]
fn global_row_without_level_is_a_datastore_error() {
    let mut store = Store::new();
    Config::get_global_compatibility(&mut store).unwrap();
    store.configs[0].compatibility = None;
    expect_error(
        Config::get_global_compatibility(&mut store),
        500,
        50001,
        "Error in the backend datastore",
    );
}

#[test]
fn subject_without_override_has_no_level_of_its_own() {
    let mut store = Store::new();
    Subject::insert(&mut store, "test.subject".to_string()).unwrap();
    // No fallback to the global level at this layer.
    expect_error(
        Config::get_with_subject_name(&store, "test.subject".to_string()),
        500,
        50001,
        "Error in the backend datastore",
    );
    // The level in force falls back to the global one, and to the default where none is stored.
    assert_eq!(Config::get_effective(&store, "test.subject".to_string()).unwrap(), "BACKWARD");
    assert!(store.configs.is_empty());
    Config::set_global_compatibility(&mut store, "FORWARD").unwrap();
    assert_eq!(Config::get_effective(&store, "test.subject".to_string()).unwrap(), "FORWARD");
    Config::set_with_subject_name(&mut store, "test.subject".to_string(), "FULL".to_string())
        .unwrap();
    assert_eq!(Config::get_effective(&store, "test.subject".to_string()).unwrap(), "FULL");
    assert_eq!(Config::get_with_subject_name(&store, "test.subject".to_string()).unwrap(), "FULL");
    expect_error(Config::get_effective(&store, "other".to_string()), 404, 40401, "Subject not found");
}

#[test]
fn override_rows_take_identifiers_from_the_counter() {
    let mut store = Store::new();
    Subject::insert(&mut store, "a".to_string()).unwrap();
    Subject::insert(&mut store, "b".to_string()).unwrap();
    Config::set_with_subject_name(&mut store, "a".to_string(), "FULL".to_string()).unwrap();
    Config::set_with_subject_name(&mut store, "b".to_string(), "NONE".to_string()).unwrap();
    Config::set_with_subject_name(&mut store, "a".to_string(), "FORWARD".to_string()).unwrap();
    assert_eq!(store.configs.len(), 2);
    assert_eq!((store.configs[0].id, store.configs[0].subject_id), (1, Some(1)));
    assert_eq!((store.configs[1].id, store.configs[1].subject_id), (2, Some(2)));
    assert_eq!(store.configs[0].compatibility.as_deref(), Some("FORWARD"));
    assert_eq!(store.next_config_id, 3);
    store.next_config_id = i64::MAX;
    Subject::insert(&mut store, "c".to_string()).unwrap();
    expect_error(
        Config::set_with_subject_name(&mut store, "c".to_string(), "FULL".to_string()),
        500,
        50001,
        "Error in the backend datastore",
    );
    assert_eq!(store.configs.len(), 2);
}

#[test]
fn levels_round_trip_through_their_names() {
    let all = [
        (CompatibilityLevel::Backward, "BACKWARD"),
        (CompatibilityLevel::BackwardTransitive, "BACKWARD_TRANSITIVE"),
        (CompatibilityLevel::Forward, "FORWARD"),
        (CompatibilityLevel::ForwardTransitive, "FORWARD_TRANSITIVE"),
        (CompatibilityLevel::Full, "FULL"),
        (CompatibilityLevel::FullTransitive, "FULL_TRANSITIVE"),
        (CompatibilityLevel::CompatNone, "NONE"),
    ];
    for (level, name) in all {
        assert_eq!(level.to_string(), name);
        assert_eq!(level.as_str(), name);
        assert_eq!(CompatibilityLevel::from_str(name), Ok(level));
        assert_eq!(level.valid().unwrap(), level);
        assert_eq!(ConfigCompatibility::new(name.to_string()).unwrap().compatibility, level);
    }
    assert_eq!(CompatibilityLevel::Unknown.to_string(), "");
    assert_eq!(CompatibilityLevel::from_str(""), Err(()));
    assert_eq!(CompatibilityLevel::from_str("backward"), Err(()));
    assert_eq!(CompatibilityLevel::from_str("UNKNOWN"), Err(()));
    expect_error(CompatibilityLevel::Unknown.valid(), 422, 42203, "Invalid compatibility level");
    expect_error(
        ConfigCompatibility::new("NOT_VALID".to_string()),
        422,
        42203,
        "Invalid compatibility level",
    );
    assert_eq!(Config::DEFAULT_COMPATIBILITY, CompatibilityLevel::Backward);
}

#[test]
fn levels_have_their_plans() {
    let plan = CompatibilityLevel::Backward.plan().unwrap();
    assert_eq!((plan.against, plan.backward, plan.forward), (CompareAgainst::Latest, true, false));
    let plan = CompatibilityLevel::ForwardTransitive.plan().unwrap();
    assert_eq!(
        (plan.against, plan.backward, plan.forward),
        (CompareAgainst::AllPriorVersions, false, true)
    );
    let plan = CompatibilityLevel::Full.plan().unwrap();
    assert_eq!((plan.against, plan.backward, plan.forward), (CompareAgainst::Latest, true, true));
    let plan = CompatibilityLevel::FullTransitive.plan().unwrap();
    assert_eq!(
        (plan.against, plan.backward, plan.forward),
        (CompareAgainst::AllPriorVersions, true, true)
    );
    let plan = CompatibilityLevel::CompatNone.plan().unwrap();
    assert_eq!((plan.backward, plan.forward), (false, false));
    assert_eq!(CompatibilityLevel::Unknown.plan(), None);
}
