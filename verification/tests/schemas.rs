use avro_schema_registry::api::errors::ApiError;
use avro_schema_registry::api::get_schema;
use avro_schema_registry::db::models::{RegisterSchema, Schema};
use avro_schema_registry::db::Store;

const SCHEMA: &str = "{\n    \"type\": \"record\",\n    \"name\": \"test\",\n    \"fields\":\n    [\n        {\n            \"type\": \"string\",\n            \"name\": \"field1\",\n            \"default\": \"\"\n        },\n        {\n            \"type\": \"string\",\n            \"name\": \"field2\"\n        }\n    ]\n}\n";

fn expect_error<T: std::fmt::Debug>(got: Result<T, ApiError>, status: u16, code: u16, message: &str) {
    let error = got.unwrap_err();
    assert_eq!(error.status_code, status);
    assert_eq!(error.response.error_code.code(), code);
    assert_eq!(error.response.message, message);
}

#[test]
fn test_get_schema_without_schema() {
    let store = Store::new();
    // it returns 404 with 'Schema not found'
    expect_error(get_schema(&store, 1), 404, 40403, "Schema not found");
}

#[test]
fn test_get_schema_with_schema() {
    let mut store = Store::new();
    let schema = Schema::register_new_version(
        &mut store,
        RegisterSchema { subject: String::from("subject1"), schema: SCHEMA.to_string() },
    )
    .unwrap();
    // it returns schema
    assert_eq!(get_schema(&store, schema.id).unwrap().schema, SCHEMA);
}

#[test]
fn schemas_are_found_by_identifier_text_and_fingerprint() {
    let mut store = Store::new();
    store.clock = 5;
    let a = Schema::new(&mut store, "\"string\"".to_string(), "aa".to_string()).unwrap();
    let b = Schema::new(&mut store, "\"int\"".to_string(), "bb".to_string()).unwrap();
    assert_eq!((a.id, b.id), (1, 2));
    assert_eq!(a.fingerprint, "aa");
    assert_eq!(a.fingerprint2.as_deref(), Some("aa"));
    assert_eq!((a.created_at, a.updated_at), (5, 5));
    assert_eq!(Schema::get_by_id(&store, 2).unwrap().json, "\"int\"");
    assert_eq!(Schema::get_by_json(&store, "\"string\"".to_string()).unwrap().id, 1);
    expect_error(Schema::get_by_json(&store, "\"long\"".to_string()), 404, 40403, "Schema not found");
    expect_error(Schema::get_by_id(&store, 3), 404, 40403, "Schema not found");
    assert_eq!(Schema::find_by_fingerprint(&store, "bb".to_string()).unwrap().unwrap().id, 2);
    assert!(Schema::find_by_fingerprint(&store, "cc".to_string()).unwrap().is_none());
    assert!(Schema::is_stored(&store, 1));
    assert!(!Schema::is_stored(&store, 0));
    // Of several rows with one fingerprint the one inserted last is found.
    let c = Schema::new(&mut store, "\"long\"".to_string(), "aa".to_string()).unwrap();
    assert_eq!(c.id, 3);
    assert_eq!(Schema::find_by_fingerprint(&store, "aa".to_string()).unwrap().unwrap().id, 3);
    // A row without a lookup fingerprint is found under none.
    store.schemas[1].fingerprint2 = None;
    assert!(Schema::find_by_fingerprint(&store, "bb".to_string()).unwrap().is_none());
}

#[test]
fn schema_identifiers_run_out() {
    let mut store = Store::new();
    store.next_schema_id = i64::MAX;
    expect_error(
        Schema::new(&mut store, "\"string\"".to_string(), "aa".to_string()),
        500,
        50001,
        "Error in the backend datastore",
    );
    assert!(store.schemas.is_empty());
    store.next_schema_id = i64::MAX - 1;
    assert_eq!(
        Schema::new(&mut store, "\"string\"".to_string(), "aa".to_string()).unwrap().id,
        i64::MAX - 1
    );
    assert_eq!(store.next_schema_id, i64::MAX);
}

#[test]
fn fingerprint_is_the_digest_of_the_canonical_form() {
    // The canonical form of the schema "string" is the text "string" in double quotes.
    assert_eq!(
        Schema::generate_fingerprint("\"string\"".to_string()).unwrap(),
        "e9e5c1c9e4f6277339d1bcde0733a59bd42f8731f449da6dc13010a916930d48"
    );
    assert_eq!(
        Schema::generate_fingerprint("\"int\"".to_string()).unwrap(),
        "3f2b87a9fe7cc9b13835598c3981cd45e3e355309e5090aa0933d7becb6fba45"
    );
    // Another text of the same schema has the same fingerprint.
    assert_eq!(
        Schema::generate_fingerprint("  {\"type\":  \"string\"}".to_string()).unwrap(),
        "e9e5c1c9e4f6277339d1bcde0733a59bd42f8731f449da6dc13010a916930d48"
    );
    let record = Schema::generate_fingerprint(SCHEMA.to_string()).unwrap();
    assert_eq!(record.len(), 64);
    assert!(record.bytes().all(|b| b.is_ascii_digit() || (b'a'..=b'f').contains(&b)));
    assert_eq!(record, Schema::generate_fingerprint(SCHEMA.replace(' ', "")).unwrap());
    expect_error(
        Schema::generate_fingerprint("{}".to_string()),
        422,
        42201,
        "Invalid Avro schema",
    );
    expect_error(
        Schema::generate_fingerprint("not json".to_string()),
        422,
        42201,
        "Invalid Avro schema",
    );
}

#[test]
fn reading_has_a_direction() {
    // What was written as an int can be read as a long, not the other way round.
    assert_eq!(Schema::is_compatible("\"long\"", "\"int\"").unwrap(), true);
    assert_eq!(Schema::is_compatible("\"int\"", "\"long\"").unwrap(), false);
    assert_eq!(Schema::is_compatible("\"int\"", "\"int\"").unwrap(), true);
    expect_error(Schema::is_compatible("\"int\"", "{}"), 422, 42201, "Invalid Avro schema");
    expect_error(Schema::is_compatible("nope", "\"int\""), 422, 42201, "Invalid Avro schema");
}

#[test]
fn every_kind_of_schema_has_a_fingerprint() {
    let schemas = [
        "\"null\"",
        "\"boolean\"",
        "\"long\"",
        "\"float\"",
        "\"double\"",
        "\"bytes\"",
        "{\"type\": \"array\", \"items\": \"string\"}",
        "{\"type\": \"map\", \"values\": \"long\"}",
        "[\"null\", \"string\"]",
        "{\"type\": \"enum\", \"name\": \"Suit\", \"symbols\": [\"SPADES\", \"HEARTS\"]}",
        "{\"type\": \"fixed\", \"name\": \"md5\", \"size\": 16}",
        "{\"type\": \"fixed\", \"name\": \"none\", \"size\": 0}",
        "{\"type\": \"int\", \"logicalType\": \"date\"}",
        "{\"type\": \"long\", \"logicalType\": \"timestamp-millis\"}",
        "{\"type\": \"string\", \"logicalType\": \"uuid\"}",
        "{\"type\": \"bytes\", \"logicalType\": \"decimal\", \"precision\": 4, \"scale\": 2}",
        "{\"type\": {\"type\": \"fixed\", \"name\": \"d\", \"size\": 12}, \"logicalType\": \"duration\"}",
        "{\"type\": \"record\", \"namespace\": \"org.example\", \"name\": \"User\", \"doc\": \"A user.\", \"aliases\": [\"Person\"], \"fields\": [{\"name\": \"id\", \"type\": \"long\"}, {\"name\": \"email\", \"type\": [\"null\", \"string\"], \"default\": null}, {\"name\": \"tags\", \"type\": {\"type\": \"array\", \"items\": \"string\"}, \"default\": []}, {\"name\": \"kind\", \"type\": {\"type\": \"enum\", \"name\": \"Kind\", \"symbols\": [\"A\", \"B\"]}}, {\"name\": \"hash\", \"type\": {\"type\": \"fixed\", \"name\": \"Hash\", \"size\": 32}}, {\"name\": \"balance\", \"type\": \"double\", \"default\": -1.5, \"order\": \"descending\"}]}",
    ];
    let mut seen: Vec<String> = Vec::new();
    for schema in schemas {
        let digest = Schema::generate_fingerprint(schema.to_string()).unwrap();
        assert_eq!(digest.len(), 64, "{}", schema);
        assert!(!seen.contains(&digest), "{}", schema);
        seen.push(digest);
    }
}

#[test]
fn a_fixed_type_of_negative_size_is_no_schema() {
    expect_error(
        Schema::generate_fingerprint("{\"type\": \"fixed\", \"name\": \"f\", \"size\": -1}".to_string()),
        422,
        42201,
        "Invalid Avro schema",
    );
    expect_error(
        Schema::generate_fingerprint(
            "{\"type\": \"record\", \"name\": \"r\", \"fields\": [{\"name\": \"f\", \"type\": {\"type\": \"fixed\", \"name\": \"f\", \"size\": -16}}]}"
                .to_string(),
        ),
        422,
        42201,
        "Invalid Avro schema",
    );
    let mut store = Store::new();
    expect_error(
        Schema::register_new_version(
            &mut store,
            RegisterSchema {
                subject: "s".to_string(),
                schema: "{\"type\": \"fixed\", \"name\": \"f\", \"size\": -1}".to_string(),
            },
        ),
        422,
        42201,
        "Invalid Avro schema",
    );
    assert!(store.schemas.is_empty());
}

#[test]
fn a_union_written_is_not_read_as_a_map_or_array() {
    let union = "[\"null\", \"int\"]";
    let map = "{\"type\": \"map\", \"values\": \"int\"}";
    let array = "{\"type\": \"array\", \"items\": \"int\"}";
    assert_eq!(Schema::is_compatible(map, union).unwrap(), false);
    assert_eq!(Schema::is_compatible(array, union).unwrap(), false);
    assert_eq!(Schema::is_compatible(union, map).unwrap(), false);
    assert_eq!(Schema::is_compatible(union, array).unwrap(), false);
    // The same pair below fields of one name.
    let written = "{\"type\": \"record\", \"name\": \"r\", \"fields\": [{\"name\": \"a\", \"type\": \"string\"}, {\"name\": \"tags\", \"type\": [\"null\", {\"type\": \"array\", \"items\": \"string\"}]}]}";
    let read = "{\"type\": \"record\", \"name\": \"r\", \"fields\": [{\"name\": \"a\", \"type\": \"string\"}, {\"name\": \"tags\", \"type\": {\"type\": \"array\", \"items\": \"string\"}}]}";
    assert_eq!(Schema::is_compatible(read, written).unwrap(), false);
    assert_eq!(Schema::is_compatible(written, read).unwrap(), true);
    // Below fields of different names the two never meet.
    let read = "{\"type\": \"record\", \"name\": \"r\", \"fields\": [{\"name\": \"a\", \"type\": \"string\"}, {\"name\": \"labels\", \"type\": {\"type\": \"array\", \"items\": \"string\"}, \"default\": []}]}";
    assert_eq!(Schema::is_compatible(read, written).unwrap(), true);
    // Below a map, and below a variant of a union that is read.
    let written = "{\"type\": \"map\", \"values\": [\"null\", \"int\"]}";
    let read = "{\"type\": \"map\", \"values\": {\"type\": \"map\", \"values\": \"int\"}}";
    assert_eq!(Schema::is_compatible(read, written).unwrap(), false);
    let read = "[\"null\", {\"type\": \"map\", \"values\": {\"type\": \"array\", \"items\": \"int\"}}]";
    assert_eq!(Schema::is_compatible(read, written).unwrap(), false);
    // Schemas with unions, maps and arrays that do not meet so are compared as ever.
    let nullable = "{\"type\": \"record\", \"name\": \"r\", \"fields\": [{\"name\": \"a\", \"type\": [\"null\", \"string\"], \"default\": null}, {\"name\": \"tags\", \"type\": {\"type\": \"array\", \"items\": \"string\"}}, {\"name\": \"props\", \"type\": {\"type\": \"map\", \"values\": [\"null\", \"long\"]}}]}";
    assert_eq!(Schema::is_compatible(nullable, nullable).unwrap(), true);
    assert_eq!(Schema::is_compatible(union, "\"int\"").unwrap(), true);
    assert_eq!(Schema::is_compatible("\"int\"", union).unwrap(), false);
    // A text that does not parse stays an error.
    expect_error(Schema::is_compatible(map, "{}"), 422, 42201, "Invalid Avro schema");
    expect_error(Schema::is_compatible("[", union), 422, 42201, "Invalid Avro schema");
}

#[test]
fn a_field_that_fails_first_gives_a_no() {
    let stored = "{\"type\":\"record\",\"name\":\"t\",\"fields\":[{\"name\":\"a\",\"type\":\"int\"},{\"name\":\"b\",\"type\":[\"null\",\"int\"]}]}";
    let candidate = "{\"type\":\"record\",\"name\":\"t\",\"fields\":[{\"name\":\"a\",\"type\":{\"type\":\"map\",\"values\":\"int\"}},{\"name\":\"b\",\"type\":{\"type\":\"map\",\"values\":\"int\"}}]}";
    assert_eq!(Schema::is_compatible(candidate, stored).unwrap(), false);
    assert_eq!(Schema::is_compatible(stored, candidate).unwrap(), false);
}

#[test]
fn a_field_is_read_from_the_last_field_of_its_name() {
    // The writer has `x` twice; the reader's `x` is held against the last one.
    let written = "{\"type\":\"record\",\"name\":\"t\",\"fields\":[{\"name\":\"x\",\"type\":[\"null\",\"int\"]},{\"name\":\"x\",\"type\":{\"type\":\"map\",\"values\":\"int\"}}]}";
    let read = "{\"type\":\"record\",\"name\":\"t\",\"fields\":[{\"name\":\"x\",\"type\":{\"type\":\"map\",\"values\":\"int\"}}]}";
    assert_eq!(Schema::is_compatible(read, written).unwrap(), true);
    let written = "{\"type\":\"record\",\"name\":\"t\",\"fields\":[{\"name\":\"x\",\"type\":{\"type\":\"map\",\"values\":\"int\"}},{\"name\":\"x\",\"type\":[\"null\",\"int\"]}]}";
    assert_eq!(Schema::is_compatible(read, written).unwrap(), false);
}

#[test]
fn a_stored_union_refuses_a_map_or_array() {
    // The default level, BACKWARD, has the candidate read what the stored schema wrote.
    let mut store = Store::new();
    let register = |store: &mut Store, schema: &str| {
        Schema::register_new_version(
            store,
            RegisterSchema { subject: "s".to_string(), schema: schema.to_string() },
        )
    };
    register(&mut store, "[\"null\", \"int\"]").unwrap();
    expect_error(
        register(&mut store, "{\"type\": \"array\", \"items\": \"int\"}"),
        422,
        42201,
        "Invalid Avro schema",
    );
    expect_error(
        register(&mut store, "{\"type\": \"map\", \"values\": \"int\"}"),
        422,
        42201,
        "Invalid Avro schema",
    );
    assert_eq!(store.schemas.len(), 1);
    assert_eq!(store.schema_versions.len(), 1);
    assert!(store.is_sound());
}
