use vstd::prelude::*;
use crate::api::compatibility::{pair_verdict, reads, SchemaCompatibility};
use crate::api::errors::{agrees, ApiAvroErrorCode, ApiError};
use crate::avro::{can_read, digest_of, fingerprint_of, may_trap, parsed_shape, writes_back};
use crate::db::laws::{lemma_registered_sound, lemma_schema_inserted_sound};
use crate::db::models::configs::{
    effective_level, CompareAgainst, CompatibilityLevel, ComparisonPlan, Config,
};
use crate::db::models::schema_versions::{
    binding_count, latest_match, latest_version, of_subject_named, version_binding,
    version_inserted, NewSchemaVersion, SchemaVersion,
};
use crate::db::models::subjects::{
    subject_named, subject_upserted, GetSubjectVersionResponse, GetSubjectVersionResponseView,
    Subject,
};
use crate::db::query::{
    first_match, first_match_from, inner_view, last_match, last_match_below, some_match,
};
use crate::db::store::{Store, StoreView};

verus! {

/// A stored schema body, addressed by the fingerprint of its canonical form.
#[derive(Debug)]
pub struct Schema {
    pub id: i64,
    pub fingerprint: String,
    pub json: String,
    pub created_at: i64,
    pub updated_at: i64,
    pub fingerprint2: Option<String>,
}

#[derive(Debug)]
pub struct NewSchema {
    pub fingerprint: String,
    pub json: String,
    pub created_at: i64,
    pub updated_at: i64,
    pub fingerprint2: Option<String>,
}

pub struct SchemaView {
    pub id: i64,
    pub fingerprint: Seq<char>,
    pub json: Seq<char>,
    pub created_at: i64,
    pub updated_at: i64,
    pub fingerprint2: Option<Seq<char>>,
}

pub struct NewSchemaView {
    pub fingerprint: Seq<char>,
    pub json: Seq<char>,
    pub created_at: i64,
    pub updated_at: i64,
    pub fingerprint2: Option<Seq<char>>,
}

impl View for Schema {
    type V = SchemaView;

    open spec fn view(&self) -> SchemaView {
        SchemaView {
            id: self.id,
            fingerprint: self.fingerprint@,
            json: self.json@,
            created_at: self.created_at,
            updated_at: self.updated_at,
            fingerprint2: inner_view(self.fingerprint2),
        }
    }
}

impl View for NewSchema {
    type V = NewSchemaView;

    open spec fn view(&self) -> NewSchemaView {
        NewSchemaView {
            fingerprint: self.fingerprint@,
            json: self.json@,
            created_at: self.created_at,
            updated_at: self.updated_at,
            fingerprint2: inner_view(self.fingerprint2),
        }
    }
}

/// A copy of an optional string.
pub fn clone_text(s: &Option<String>) -> (copy: Option<String>)
    ensures
        copy == *s,
{
    match s {
        Some(t) => Some(t.clone()),
        None => None,
    }
}

impl Clone for Schema {
    fn clone(&self) -> (copy: Self)
        ensures
            copy == *self,
    {
        Schema {
            id: self.id,
            fingerprint: self.fingerprint.clone(),
            json: self.json.clone(),
            created_at: self.created_at,
            updated_at: self.updated_at,
            fingerprint2: clone_text(&self.fingerprint2),
        }
    }
}

#[derive(Debug)]
pub struct SchemaResponse {
    pub schema: String,
}

impl View for SchemaResponse {
    type V = Seq<char>;

    open spec fn view(&self) -> Seq<char> {
        self.schema@
    }
}

pub struct GetSchema {
    pub id: i64,
}

#[derive(Debug)]
pub struct RegisterSchemaResponse {
    pub id: String,
}

impl View for RegisterSchemaResponse {
    type V = Seq<char>;

    open spec fn view(&self) -> Seq<char> {
        self.id@
    }
}

pub struct RegisterSchema {
    pub subject: String,
    pub schema: String,
}

pub struct VerifySchemaRegistration {
    pub subject: String,
    pub schema: String,
}

pub type VerifyRegistrationResponse = GetSubjectVersionResponse;

/// The fingerprint of a schema text; a text that is no schema has none.
pub open spec fn fingerprinted_text(text: Seq<char>) -> Result<Seq<char>, ApiAvroErrorCode> {
    match digest_of(text) {
        Some(digest) => Ok(digest),
        None => Err(ApiAvroErrorCode::InvalidAvroSchema),
    }
}

/// Whether the plan accepts the text after the schema of the given row. A
/// row whose schema is not stored accepts nothing.
pub open spec fn row_accepts(s: StoreView, plan: ComparisonPlan, row: SchemaVersion, text: Seq<char>) -> bool {
    match schema_with_id(s, row.schema_id) {
        Ok(schema) => pair_verdict(plan, schema.json, text) == Ok::<bool, ApiAvroErrorCode>(true),
        Err(_) => false,
    }
}

/// Whether the plan accepts the text as the next schema of the named
/// subject. A plan without a direction accepts it unread. Otherwise the text
/// is held against the subject's latest version, or against every version
/// that the subject has.
pub open spec fn plan_accepts(s: StoreView, name: Seq<char>, plan: ComparisonPlan, text: Seq<char>) -> bool {
    if !plan.backward && !plan.forward {
        true
    } else {
        match plan.against {
            CompareAgainst::Latest => match latest_match(
                s.schema_versions,
                of_subject_named(s.subjects, name),
            ) {
                Some(i) => row_accepts(s, plan, s.schema_versions[i], text),
                None => true,
            },
            CompareAgainst::AllPriorVersions => forall|i: int|
                0 <= i < s.schema_versions.len() && of_subject_named(s.subjects, name)(
                    #[trigger] s.schema_versions[i],
                ) ==> row_accepts(s, plan, s.schema_versions[i], text),
        }
    }
}

/// What a new schema of a subject with versions has to meet: the level in
/// force for the subject is resolved, and its plan must accept the text. A level that cannot be read and a refusal both count as an invalid
/// schema.
pub open spec fn evolution_allowed(s: StoreView, name: Seq<char>, text: Seq<char>) -> Result<(), ApiAvroErrorCode> {
    match effective_level(s, name) {
        Err(code) => Err(code),
        Ok(level_name) => match CompatibilityLevel::named(level_name) {
            None => Err(ApiAvroErrorCode::InvalidAvroSchema),
            Some(level) => match level.plan_of() {
                None => Err(ApiAvroErrorCode::InvalidAvroSchema),
                Some(plan) => if plan_accepts(s, name, plan, text) {
                    Ok(())
                } else {
                    Err(ApiAvroErrorCode::InvalidAvroSchema)
                },
            },
        },
    }
}

/// The number of the version that follows the latest one.
pub open spec fn next_version(latest: Option<i32>) -> int {
    match latest {
        Some(v) => v + 1,
        None => 1,
    }
}

/// Binding a schema to the named subject as its next version. The schema is
/// known, given by its row, or new, given by its body. The text that is
/// held against the subject's versions is the one that was given, and the
/// body of the row where none was. Where the subject has a latest version,
/// that text must first be allowed to follow the earlier ones. Then the
/// subject is inserted unless it exists, the schema is inserted unless it is
/// known, and the binding is inserted with the next version number. Where
/// anything fails, nothing is changed.
pub open spec fn version_created(s: StoreView, json: Option<Seq<char>>, fingerprint: Seq<char>, name: Seq<char>, known: Option<SchemaView>) -> (StoreView, Result<SchemaView, ApiAvroErrorCode>) {
    let latest = latest_version(s, name);
    let text = match json {
        Some(j) => Some(j),
        None => match known {
            Some(k) => Some(k.json),
            None => None,
        },
    };
    if text.is_none() {
        (s, Err(ApiAvroErrorCode::BackendDatastoreError))
    } else if latest.is_some() && evolution_allowed(s, name, text.unwrap()).is_err() {
        (s, Err(evolution_allowed(s, name, text.unwrap()).unwrap_err()))
    } else if next_version(latest) > i32::MAX {
        (s, Err(ApiAvroErrorCode::BackendDatastoreError))
    } else {
        match subject_upserted(s, name) {
            (_, Err(code)) => (s, Err(code)),
            (s1, Ok(subject)) => {
                let with_schema = match known {
                    Some(k) => (s1, Ok(k)),
                    None => schema_inserted(s1, new_schema_of(s1, json.unwrap(), fingerprint)),
                };
                match with_schema {
                    (_, Err(code)) => (s, Err(code)),
                    (s2, Ok(schema)) => match version_inserted(
                        s2,
                        NewSchemaVersion {
                            version: Some(next_version(latest) as i32),
                            subject_id: subject.id,
                            schema_id: schema.id,
                        },
                    ) {
                        (_, Err(code)) => (s, Err(code)),
                        (s3, Ok(_)) => (s3, Ok(schema)),
                    },
                }
            },
        }
    }
}

/// Registering a schema text under a subject. A text that is no schema is
/// refused. A schema whose fingerprint is stored and which the subject is
/// bound to already is returned as it is, and nothing changes.
/// Otherwise the schema, stored or new, becomes the subject's next version.
pub open spec fn registered(s: StoreView, name: Seq<char>, json: Seq<char>) -> (StoreView, Result<SchemaView, ApiAvroErrorCode>) {
    match digest_of(json) {
        None => (s, Err(ApiAvroErrorCode::InvalidAvroSchema)),
        Some(fingerprint) => match schema_fingerprinted(s, fingerprint) {
            Some(known) => if binding_count(s, name, known.id) >= 1 {
                (s, Ok(known))
            } else {
                version_created(s, Some(json), fingerprint, name, Some(known))
            },
            None => version_created(s, Some(json), fingerprint, name, None),
        },
    }
}

/// Looking a registration up: the subject by name, the schema by its body
/// letter for letter, and the binding of the two.
pub open spec fn registration_verified(s: StoreView, name: Seq<char>, json: Seq<char>) -> Result<GetSubjectVersionResponseView, ApiAvroErrorCode> {
    match subject_named(s, name) {
        Err(code) => Err(code),
        Ok(subject) => match schema_with_json(s, json) {
            Err(code) => Err(code),
            Ok(schema) => match version_binding(s, subject.id, schema.id) {
                Err(code) => Err(code),
                Ok(row) => match row.version {
                    None => Err(ApiAvroErrorCode::VersionNotFound),
                    Some(version) => Ok(
                        GetSubjectVersionResponseView {
                            subject: subject.name,
                            id: schema.id,
                            version,
                            schema: schema.json,
                        },
                    ),
                },
            },
        },
    }
}

/// The rows whose lookup fingerprint is the given one.
pub open spec fn fingerprinted(fingerprint: Seq<char>) -> spec_fn(SchemaView) -> bool {
    |row: SchemaView| row.fingerprint2 == Some(fingerprint)
}

/// The rows whose body is the given text, letter for letter.
pub open spec fn has_json(json: Seq<char>) -> spec_fn(SchemaView) -> bool {
    |row: SchemaView| row.json == json
}

/// The rows with the given identifier.
pub open spec fn schema_has_id(id: i64) -> spec_fn(SchemaView) -> bool {
    |row: SchemaView| row.id == id
}

/// The schema of the given fingerprint: where several rows carry it, the one
/// inserted last.
pub open spec fn schema_fingerprinted(s: StoreView, fingerprint: Seq<char>) -> Option<SchemaView> {
    match last_match(s.schemas, fingerprinted(fingerprint)) {
        Some(i) => Some(s.schemas[i]),
        None => None,
    }
}

/// The row that an inserted schema gets.
pub open spec fn fresh_schema(s: StoreView, schema: NewSchemaView) -> SchemaView {
    SchemaView {
        id: s.next_schema_id,
        fingerprint: schema.fingerprint,
        json: schema.json,
        created_at: schema.created_at,
        updated_at: schema.updated_at,
        fingerprint2: schema.fingerprint2,
    }
}

/// Appends the schema under the next identifier, unless the identifiers are
/// used up. Nothing is looked up first.
pub open spec fn schema_inserted(s: StoreView, schema: NewSchemaView) -> (StoreView, Result<SchemaView, ApiAvroErrorCode>) {
    if s.next_schema_id == i64::MAX {
        (s, Err(ApiAvroErrorCode::BackendDatastoreError))
    } else {
        (
            StoreView {
                schemas: s.schemas.push(fresh_schema(s, schema)),
                next_schema_id: (s.next_schema_id + 1) as i64,
                ..s
            },
            Ok(fresh_schema(s, schema)),
        )
    }
}

/// What is inserted for a body and its fingerprint: the fingerprint in both
/// columns, both stamps the store's time.
pub open spec fn new_schema_of(s: StoreView, json: Seq<char>, fingerprint: Seq<char>) -> NewSchemaView {
    NewSchemaView {
        fingerprint,
        json,
        created_at: s.clock,
        updated_at: s.clock,
        fingerprint2: Some(fingerprint),
    }
}

/// The schema whose body is the given text: the first such row.
pub open spec fn schema_with_json(s: StoreView, json: Seq<char>) -> Result<SchemaView, ApiAvroErrorCode> {
    match first_match(s.schemas, has_json(json)) {
        Some(i) => Ok(s.schemas[i]),
        None => Err(ApiAvroErrorCode::SchemaNotFound),
    }
}

/// The schema of the given identifier: the first such row.
pub open spec fn schema_with_id(s: StoreView, id: i64) -> Result<SchemaView, ApiAvroErrorCode> {
    match first_match(s.schemas, schema_has_id(id)) {
        Some(i) => Ok(s.schemas[i]),
        None => Err(ApiAvroErrorCode::SchemaNotFound),
    }
}

impl Schema {
    /// The fingerprint of a schema text: the digest of its canonical form.
    pub fn generate_fingerprint(data: String) -> (digest: Result<String, ApiError>)
        ensures
            agrees(digest, fingerprinted_text(data@)),
    {
        if !writes_back(data.as_str()) {
            return Err(ApiError::new(ApiAvroErrorCode::InvalidAvroSchema));
        }
        match fingerprint_of(data.as_str()) {
            Some(d) => Ok(d),
            None => Err(ApiError::new(ApiAvroErrorCode::InvalidAvroSchema)),
        }
    }

    /// Whether the reader's schema can read what the writer's schema wrote.
    pub fn is_compatible(readers_schema: &str, writers_schema: &str) -> (verdict: Result<bool, ApiError>)
        ensures
            agrees(verdict, reads(readers_schema@, writers_schema@)),
    {
        match (parsed_shape(writers_schema), parsed_shape(readers_schema)) {
            (Some(written), Some(read)) => {
                if may_trap(&written, &read) {
                    return Ok(false);
                }
            },
            _ => {
                return Err(ApiError::new(ApiAvroErrorCode::InvalidAvroSchema));
            },
        }
        match can_read(writers_schema, readers_schema) {
            Some(yes) => Ok(yes),
            None => Err(ApiError::new(ApiAvroErrorCode::InvalidAvroSchema)),
        }
    }

    /// Whether the level accepts the text after the schema of the row.
    fn row_accepts(store: &Store, level: CompatibilityLevel, row: SchemaVersion, text: &str) -> (yes: bool)
        requires
            level.plan_of().is_some(),
        ensures
            yes == row_accepts(store@, level.plan_of().unwrap(), row, text@),
    {
        match Self::get_by_id(store, row.schema_id) {
            Ok(schema) => match SchemaCompatibility::is_compatible(
                schema.json.as_str(),
                text,
                level,
            ) {
                Ok(yes) => yes,
                Err(_) => false,
            },
            Err(_) => false,
        }
    }

    /// Whether the level accepts the text as the next schema of the subject.
    fn plan_accepts(store: &Store, subject_name: &String, level: CompatibilityLevel, text: &str) -> (yes: bool)
        requires
            level.plan_of().is_some(),
        ensures
            yes == plan_accepts(store@, subject_name@, level.plan_of().unwrap(), text@),
    {
        let plan = match level.plan() {
            Some(p) => p,
            None => {
                return false;
            },
        };
        if !plan.backward && !plan.forward {
            return true;
        }
        let ghost wanted = of_subject_named(store@.subjects, subject_name@);
        match plan.against {
            CompareAgainst::Latest => match SchemaVersion::latest_index_named(store, subject_name) {
                Some(latest) => Self::row_accepts(
                    store,
                    level,
                    store.schema_versions[latest],
                    text,
                ),
                None => true,
            },
            CompareAgainst::AllPriorVersions => {
                let mut i: usize = 0;
                while i < store.schema_versions.len()
                    invariant
                        i <= store.schema_versions.len(),
                        level.plan_of() == Some(plan),
                        plan.backward || plan.forward,
                        plan.against == CompareAgainst::AllPriorVersions,
                        wanted == of_subject_named(store@.subjects, subject_name@),
                        forall|j: int|
                            0 <= j < i && wanted(#[trigger] store@.schema_versions[j])
                                ==> row_accepts(store@, plan, store@.schema_versions[j], text@),
                    decreases store.schema_versions.len() - i,
                {
                    let row = store.schema_versions[i];
                    if Subject::is_named(store, row.subject_id, subject_name) {
                        if !Self::row_accepts(store, level, row, text) {
                            assert(wanted(store@.schema_versions[i as int]));
                            return false;
                        }
                    }
                    i += 1;
                }
                true
            },
        }
    }

    /// Whether the text may follow the versions that the subject has.
    fn allow_evolution(store: &Store, subject_name: &String, text: &str) -> (passed: Result<(), ApiError>)
        ensures
            agrees(passed, evolution_allowed(store@, subject_name@, text@)),
    {
        let level_name = match Config::get_effective(store, subject_name.clone()) {
            Ok(name) => name,
            Err(e) => {
                return Err(e);
            },
        };
        let level = match CompatibilityLevel::from_str(level_name.as_str()) {
            Ok(l) => l,
            Err(_) => {
                return Err(ApiError::new(ApiAvroErrorCode::InvalidAvroSchema));
            },
        };
        if level.plan().is_none() {
            return Err(ApiError::new(ApiAvroErrorCode::InvalidAvroSchema));
        }
        if Self::plan_accepts(store, subject_name, level, text) {
            Ok(())
        } else {
            Err(ApiError::new(ApiAvroErrorCode::InvalidAvroSchema))
        }
    }

    /// Registers a schema text under a subject and returns the schema's row.
    pub fn register_new_version(store: &mut Store, registration: RegisterSchema) -> (schema: Result<Schema, ApiError>)
        ensures
            final(store)@ == registered(old(store)@, registration.subject@, registration.schema@).0,
            agrees(schema, registered(old(store)@, registration.subject@, registration.schema@).1),
            old(store)@.sound() ==> final(store)@.sound(),
    {
        proof {
            if old(store)@.sound() {
                lemma_registered_sound(old(store)@, registration.subject@, registration.schema@);
            }
        }
        let subject = registration.subject;
        let json = registration.schema;
        let fingerprint = match Self::generate_fingerprint(json.clone()) {
            Ok(f) => f,
            Err(e) => {
                return Err(e);
            },
        };
        let db_schema = match Self::find_by_fingerprint(store, fingerprint.clone()) {
            Ok(found) => found,
            Err(e) => {
                return Err(e);
            },
        };
        match db_schema {
            Some(s) => {
                let bound = match SchemaVersion::with_schema_and_subject(
                    store,
                    subject.clone(),
                    s.id,
                ) {
                    Ok(n) => n,
                    Err(e) => {
                        return Err(e);
                    },
                };
                if bound >= 1 {
                    Ok(s)
                } else {
                    Self::create_new_version(store, Some(json), fingerprint, subject, Some(s))
                }
            },
            None => Self::create_new_version(store, Some(json), fingerprint, subject, None),
        }
    }

    /// Binds a schema, new or known, to the subject as its next version.
    pub fn create_new_version(store: &mut Store, json: Option<String>, fingerprint: String, subject_name: String, db_schema: Option<Schema>) -> (schema: Result<Schema, ApiError>)
        ensures
            final(store)@ == version_created(
                old(store)@,
                inner_view(json),
                fingerprint@,
                subject_name@,
                inner_view(db_schema),
            ).0,
            agrees(
                schema,
                version_created(
                    old(store)@,
                    inner_view(json),
                    fingerprint@,
                    subject_name@,
                    inner_view(db_schema),
                ).1,
            ),
    {
        let latest = match SchemaVersion::latest_version_with_subject_name(
            store,
            subject_name.clone(),
        ) {
            Ok(l) => l,
            Err(e) => {
                return Err(e);
            },
        };
        let new_version: i32 = match latest {
            Some(latest_version) => {
                let passed = match &json {
                    Some(j) => Self::allow_evolution(store, &subject_name, j.as_str()),
                    None => match &db_schema {
                        Some(k) => Self::allow_evolution(store, &subject_name, k.json.as_str()),
                        None => Err(ApiError::new(ApiAvroErrorCode::BackendDatastoreError)),
                    },
                };
                match passed {
                    Ok(_) => {},
                    Err(e) => {
                        return Err(e);
                    },
                }
                if latest_version == i32::MAX {
                    return Err(ApiError::new(ApiAvroErrorCode::BackendDatastoreError));
                }
                latest_version + 1
            },
            None => 1,
        };
        // Nothing is written unless all of it can be written.
        if json.is_none() && db_schema.is_none() {
            return Err(ApiError::new(ApiAvroErrorCode::BackendDatastoreError));
        }
        if db_schema.is_none() && store.next_schema_id == i64::MAX {
            return Err(ApiError::new(ApiAvroErrorCode::BackendDatastoreError));
        }
        if store.next_schema_version_id == i64::MAX {
            return Err(ApiError::new(ApiAvroErrorCode::BackendDatastoreError));
        }
        // If it already exists, we just get the subject.
        let subject = match Subject::insert(store, subject_name) {
            Ok(s) => s,
            Err(e) => {
                return Err(e);
            },
        };
        let schema = match db_schema {
            Some(k) => k,
            None => match json {
                Some(j) => match Self::new(store, j, fingerprint) {
                    Ok(s) => s,
                    Err(e) => {
                        return Err(e);
                    },
                },
                None => {
                    return Err(ApiError::new(ApiAvroErrorCode::BackendDatastoreError));
                },
            },
        };
        match SchemaVersion::insert(
            store,
            NewSchemaVersion {
                version: Some(new_version),
                subject_id: subject.id,
                schema_id: schema.id,
            },
        ) {
            Ok(_) => Ok(schema),
            Err(e) => Err(e),
        }
    }

    /// Looks up under which version the subject holds the schema text.
    pub fn verify_registration(store: &Store, subject_name: String, schema_json: String) -> (found: Result<VerifyRegistrationResponse, ApiError>)
        ensures
            agrees(found, registration_verified(store@, subject_name@, schema_json@)),
    {
        let subject = match Subject::get_by_name(store, subject_name) {
            Ok(s) => s,
            Err(e) => {
                return Err(e);
            },
        };
        let schema = match Self::get_by_json(store, schema_json) {
            Ok(s) => s,
            Err(e) => {
                return Err(e);
            },
        };
        let schema_version = match SchemaVersion::find(store, subject.id, schema.id) {
            Ok(v) => v,
            Err(e) => {
                return Err(e);
            },
        };
        match schema_version.version {
            Some(version) => Ok(
                VerifyRegistrationResponse {
                    subject: subject.name,
                    id: schema.id,
                    version,
                    schema: schema.json,
                },
            ),
            None => Err(ApiError::new(ApiAvroErrorCode::VersionNotFound)),
        }
    }

    pub fn find_by_fingerprint(store: &Store, fingerprint: String) -> (found: Result<Option<Schema>, ApiError>)
        ensures
            found matches Ok(row) && inner_view(row) == schema_fingerprinted(store@, fingerprint@),
    {
        let mut i: usize = store.schemas.len();
        while i > 0
            invariant
                i <= store.schemas.len(),
                last_match(store@.schemas, fingerprinted(fingerprint@)) == last_match_below(
                    store@.schemas,
                    fingerprinted(fingerprint@),
                    i as int,
                ),
            decreases i,
        {
            i -= 1;
            let hit = match &store.schemas[i].fingerprint2 {
                Some(f) => *f == fingerprint,
                None => false,
            };
            if hit {
                return Ok(Some(store.schemas[i].clone()));
            }
        }
        Ok(None)
    }

    /// Whether a schema with this identifier is stored.
    pub fn is_stored(store: &Store, schema_id: i64) -> (yes: bool)
        ensures
            yes == some_match(store@.schemas, schema_has_id(schema_id)),
    {
        let mut i: usize = 0;
        while i < store.schemas.len()
            invariant
                i <= store.schemas.len(),
                forall|j: int| 0 <= j < i ==> !schema_has_id(schema_id)(#[trigger] store@.schemas[j]),
            decreases store.schemas.len() - i,
        {
            if store.schemas[i].id == schema_id {
                assert(schema_has_id(schema_id)(store@.schemas[i as int]));
                return true;
            }
            i += 1;
        }
        false
    }

    pub fn new(store: &mut Store, json: String, fingerprint: String) -> (inserted: Result<Schema, ApiError>)
        ensures
            final(store)@ == schema_inserted(
                old(store)@,
                new_schema_of(old(store)@, json@, fingerprint@),
            ).0,
            agrees(
                inserted,
                schema_inserted(old(store)@, new_schema_of(old(store)@, json@, fingerprint@)).1,
            ),
            old(store)@.sound() ==> final(store)@.sound(),
    {
        let new_schema = NewSchema {
            json,
            fingerprint: fingerprint.clone(),
            fingerprint2: Some(fingerprint),
            created_at: store.clock,
            updated_at: store.clock,
        };
        Self::insert(store, new_schema)
    }

    pub fn insert(store: &mut Store, schema: NewSchema) -> (inserted: Result<Schema, ApiError>)
        ensures
            final(store)@ == schema_inserted(old(store)@, schema@).0,
            agrees(inserted, schema_inserted(old(store)@, schema@).1),
            old(store)@.sound() ==> final(store)@.sound(),
    {
        proof {
            if old(store)@.sound() {
                lemma_schema_inserted_sound(old(store)@, schema@);
            }
        }
        if store.next_schema_id == i64::MAX {
            return Err(ApiError::new(ApiAvroErrorCode::BackendDatastoreError));
        }
        let row = Schema {
            id: store.next_schema_id,
            fingerprint: schema.fingerprint,
            json: schema.json,
            created_at: schema.created_at,
            updated_at: schema.updated_at,
            fingerprint2: schema.fingerprint2,
        };
        let copy = row.clone();
        store.schemas.push(row);
        store.next_schema_id = store.next_schema_id + 1;
        assert(store@.schemas =~= old(store)@.schemas.push(fresh_schema(old(store)@, schema@)));
        Ok(copy)
    }

    pub fn get_by_json(store: &Store, data: String) -> (found: Result<Schema, ApiError>)
        ensures
            agrees(found, schema_with_json(store@, data@)),
    {
        let mut i: usize = 0;
        while i < store.schemas.len()
            invariant
                i <= store.schemas.len(),
                first_match(store@.schemas, has_json(data@)) == first_match_from(
                    store@.schemas,
                    has_json(data@),
                    i as int,
                ),
            decreases store.schemas.len() - i,
        {
            if store.schemas[i].json == data {
                return Ok(store.schemas[i].clone());
            }
            i += 1;
        }
        Err(ApiError::new(ApiAvroErrorCode::SchemaNotFound))
    }

    pub fn get_by_id(store: &Store, schema_id: i64) -> (found: Result<Schema, ApiError>)
        ensures
            agrees(found, schema_with_id(store@, schema_id)),
    {
        let mut i: usize = 0;
        while i < store.schemas.len()
            invariant
                i <= store.schemas.len(),
                first_match(store@.schemas, schema_has_id(schema_id)) == first_match_from(
                    store@.schemas,
                    schema_has_id(schema_id),
                    i as int,
                ),
            decreases store.schemas.len() - i,
        {
            if store.schemas[i].id == schema_id {
                return Ok(store.schemas[i].clone());
            }
            i += 1;
        }
        Err(ApiError::new(ApiAvroErrorCode::SchemaNotFound))
    }
}

} // verus!
