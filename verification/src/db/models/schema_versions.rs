use vstd::prelude::*;
use vstd::relations::{sorted_by, total_ordering};
use vstd::seq_lib::lemma_sorted_unique;
use crate::api::errors::{agrees, ApiAvroErrorCode, ApiError};
use crate::api::version::{version_in_range, VersionLimit};
use crate::db::laws::{lemma_subject_removed, lemma_version_deleted};
use crate::db::models::configs::{Config, ConfigView};
use crate::db::models::schemas::{schema_has_id, schema_with_id, Schema, SchemaView};
use crate::db::models::subjects::{subject_is, subject_named, Subject, SubjectView};
use crate::db::query::{first_match, first_match_from, some_match, views};
use crate::db::store::{Store, StoreView};

verus! {

/// One entry of the ledger: this subject had this schema at this version.
#[derive(Debug, Clone, Copy, PartialEq, Eq, Structural)]
pub struct SchemaVersion {
    pub id: i64,
    pub version: Option<i32>,
    pub subject_id: i64,
    pub schema_id: i64,
}

#[derive(Debug, Clone, Copy, PartialEq, Eq, Structural)]
pub struct NewSchemaVersion {
    pub version: Option<i32>,
    pub subject_id: i64,
    pub schema_id: i64,
}

pub type SchemaVersionFields = NewSchemaVersion;

pub struct DeleteSchemaVersion {
    pub subject: String,
    pub version: u32,
}

impl View for SchemaVersion {
    type V = SchemaVersion;

    open spec fn view(&self) -> SchemaVersion {
        *self
    }
}

/// The rows that bind the given subject to the given schema.
pub open spec fn binds(subject_id: i64, schema_id: i64) -> spec_fn(SchemaVersion) -> bool {
    |row: SchemaVersion| row.subject_id == subject_id && row.schema_id == schema_id
}

/// The row that an inserted binding gets.
pub open spec fn fresh_version(s: StoreView, sv: NewSchemaVersion) -> SchemaVersion {
    SchemaVersion {
        id: s.next_schema_version_id,
        version: sv.version,
        subject_id: sv.subject_id,
        schema_id: sv.schema_id,
    }
}

/// Appends the binding under the next identifier, unless the identifiers are
/// used up.
pub open spec fn version_inserted(s: StoreView, sv: NewSchemaVersion) -> (StoreView, Result<SchemaVersion, ApiAvroErrorCode>) {
    if s.next_schema_version_id == i64::MAX {
        (s, Err(ApiAvroErrorCode::BackendDatastoreError))
    } else {
        (
            StoreView {
                schema_versions: s.schema_versions.push(fresh_version(s, sv)),
                next_schema_version_id: (s.next_schema_version_id + 1) as i64,
                ..s
            },
            Ok(fresh_version(s, sv)),
        )
    }
}

/// The binding of the given subject to the given schema: the first such row.
pub open spec fn version_binding(s: StoreView, subject_id: i64, schema_id: i64) -> Result<SchemaVersion, ApiAvroErrorCode> {
    match first_match(s.schema_versions, binds(subject_id, schema_id)) {
        Some(i) => Ok(s.schema_versions[i]),
        None => Err(ApiAvroErrorCode::VersionNotFound),
    }
}

/// Where a version stands in the order of versions: by its number, and a
/// missing number after every number.
pub open spec fn version_rank(version: Option<i32>) -> int {
    match version {
        Some(v) => v as int,
        None => i32::MAX + 1,
    }
}

/// The order of versions: ascending by rank.
pub open spec fn version_leq() -> spec_fn(Option<i32>, Option<i32>) -> bool {
    |a: Option<i32>, b: Option<i32>| version_rank(a) <= version_rank(b)
}

/// The rows whose subject carries the given name.
pub open spec fn of_subject_named(subjects: Seq<SubjectView>, name: Seq<char>) -> spec_fn(SchemaVersion) -> bool {
    |row: SchemaVersion| some_match(subjects, subject_is(row.subject_id, name))
}

/// The rows that join a subject of the given name and a stored schema.
pub open spec fn joined(s: StoreView, name: Seq<char>) -> spec_fn(SchemaVersion) -> bool {
    |row: SchemaVersion|
        some_match(s.subjects, subject_is(row.subject_id, name)) && some_match(
            s.schemas,
            schema_has_id(row.schema_id),
        )
}

/// The joined rows of the named subject that bind the given schema.
pub open spec fn joined_to(s: StoreView, name: Seq<char>, schema_id: i64) -> spec_fn(SchemaVersion) -> bool {
    |row: SchemaVersion| row.schema_id == schema_id && joined(s, name)(row)
}

/// How many rows bind the named subject to the given stored schema.
pub open spec fn binding_count(s: StoreView, name: Seq<char>, schema_id: i64) -> nat {
    s.schema_versions.filter(joined_to(s, name, schema_id)).len()
}

/// The version of a row.
pub open spec fn version_of() -> spec_fn(SchemaVersion) -> Option<i32> {
    |row: SchemaVersion| row.version
}

/// The versions of the named subject, in table order.
pub open spec fn versions_of(s: StoreView, name: Seq<char>) -> Seq<Option<i32>> {
    s.schema_versions.filter(of_subject_named(s.subjects, name)).map_values(version_of())
}

/// The versions of the named subject in ascending order; a subject without
/// versions counts as not found.
pub open spec fn versions_listed(s: StoreView, name: Seq<char>) -> Result<Seq<Option<i32>>, ApiAvroErrorCode> {
    if versions_of(s, name).len() == 0 {
        Err(ApiAvroErrorCode::SubjectNotFound)
    } else {
        Ok(versions_of(s, name).sort_by(version_leq()))
    }
}

/// Index of the wanted row below `upto` with the greatest version number; of
/// several such rows, the first. A row without a number is passed over.
pub open spec fn latest_match_below(rows: Seq<SchemaVersion>, wanted: spec_fn(SchemaVersion) -> bool, upto: int) -> Option<int>
    decreases upto,
{
    if upto <= 0 || upto > rows.len() {
        None
    } else {
        let before = latest_match_below(rows, wanted, upto - 1);
        if !wanted(rows[upto - 1]) || rows[upto - 1].version.is_none() {
            before
        } else {
            match before {
                Some(i) => if version_rank(rows[upto - 1].version) > version_rank(rows[i].version) {
                    Some(upto - 1)
                } else {
                    Some(i)
                },
                None => Some(upto - 1),
            }
        }
    }
}

/// Index of the wanted row with the greatest version number.
pub open spec fn latest_match(rows: Seq<SchemaVersion>, wanted: spec_fn(SchemaVersion) -> bool) -> Option<int> {
    latest_match_below(rows, wanted, rows.len() as int)
}

/// The latest version of the named subject: the greatest number that one of
/// its rows carries, and none where none carries one.
pub open spec fn latest_version(s: StoreView, name: Seq<char>) -> Option<i32> {
    match latest_match(s.schema_versions, of_subject_named(s.subjects, name)) {
        Some(i) => s.schema_versions[i].version,
        None => None,
    }
}

/// What `latest_match_below` returns is a wanted row with a number that no
/// wanted row below `upto` outnumbers, and the first of those.
pub proof fn lemma_latest_match_below(rows: Seq<SchemaVersion>, wanted: spec_fn(SchemaVersion) -> bool, upto: int)
    requires
        0 <= upto <= rows.len(),
    ensures
        match latest_match_below(rows, wanted, upto) {
            Some(i) => {
                &&& 0 <= i < upto
                &&& wanted(rows[i])
                &&& rows[i].version.is_some()
                &&& forall|j: int|
                    0 <= j < upto && wanted(#[trigger] rows[j]) && rows[j].version.is_some()
                        ==> version_rank(rows[j].version) <= version_rank(rows[i].version)
                &&& forall|j: int|
                    0 <= j < i && wanted(#[trigger] rows[j]) && rows[j].version.is_some()
                        ==> version_rank(rows[j].version) < version_rank(rows[i].version)
            },
            None => forall|j: int|
                0 <= j < upto ==> !(wanted(#[trigger] rows[j]) && rows[j].version.is_some()),
        },
    decreases upto,
{
    if upto > 0 {
        lemma_latest_match_below(rows, wanted, upto - 1);
    }
}

/// The order of versions is a total order.
pub proof fn lemma_version_order_total()
    ensures
        total_ordering(version_leq()),
{
    assert(vstd::relations::reflexive(version_leq()));
    assert(vstd::relations::antisymmetric(version_leq())) by {
        assert forall|a: Option<i32>, b: Option<i32>|
            #[trigger] version_leq()(a, b) && #[trigger] version_leq()(b, a) implies a == b by {
            assert(version_rank(a) == version_rank(b));
        }
    }
    assert(vstd::relations::transitive(version_leq()));
    assert(vstd::relations::strongly_connected(version_leq()));
}

/// The rows of the given subject.
pub open spec fn of_subject(subject_id: i64) -> spec_fn(SchemaVersion) -> bool {
    |row: SchemaVersion| row.subject_id == subject_id
}

/// The rows that bind the given schema.
pub open spec fn of_schema(schema_id: i64) -> spec_fn(SchemaVersion) -> bool {
    |row: SchemaVersion| row.schema_id == schema_id
}

/// The rows of the given subject at the given version.
pub open spec fn at_version(subject_id: i64, version: i32) -> spec_fn(SchemaVersion) -> bool {
    |row: SchemaVersion| row.subject_id == subject_id && row.version == Some(version)
}

/// All rows but those of the given subject at the given version.
pub open spec fn off_version(subject_id: i64, version: i32) -> spec_fn(SchemaVersion) -> bool {
    |row: SchemaVersion| !(row.subject_id == subject_id && row.version == Some(version))
}

/// What resolving a row gives: the schema's identifier, the version and the
/// schema's body. A row whose schema is not stored is a fault of the
/// datastore; a row without a number is no version.
pub open spec fn resolved(s: StoreView, row: SchemaVersion) -> Result<(i64, i32, Seq<char>), ApiAvroErrorCode> {
    match schema_with_id(s, row.schema_id) {
        Err(_) => Err(ApiAvroErrorCode::BackendDatastoreError),
        Ok(schema) => match row.version {
            Some(version) => Ok((row.schema_id, version, schema.json)),
            None => Err(ApiAvroErrorCode::VersionNotFound),
        },
    }
}

/// The latest version of the named subject, resolved.
pub open spec fn latest_resolved(s: StoreView, name: Seq<char>) -> Result<(i64, i32, Seq<char>), ApiAvroErrorCode> {
    match subject_named(s, name) {
        Err(code) => Err(code),
        Ok(subject) => match latest_match(s.schema_versions, of_subject(subject.id)) {
            Some(i) => resolved(s, s.schema_versions[i]),
            None => Err(ApiAvroErrorCode::VersionNotFound),
        },
    }
}

/// The given version of the named subject, resolved. A version outside the
/// legal range is refused before the store is looked at.
pub open spec fn version_resolved(s: StoreView, name: Seq<char>, version: u32) -> Result<(i64, i32, Seq<char>), ApiAvroErrorCode> {
    if !version_in_range(version as int) {
        Err(ApiAvroErrorCode::InvalidVersion)
    } else {
        match subject_named(s, name) {
            Err(code) => Err(code),
            Ok(subject) => match first_match(
                s.schema_versions,
                at_version(subject.id, version as i32),
            ) {
                Some(i) => resolved(s, s.schema_versions[i]),
                None => Err(ApiAvroErrorCode::VersionNotFound),
            },
        }
    }
}

/// Removing one version of the named subject: a version outside the legal
/// range is refused before the store is looked at; then the subject must
/// exist and have the version; its rows at that version leave the table.
pub open spec fn version_deleted(s: StoreView, name: Seq<char>, version: u32) -> (StoreView, Result<u32, ApiAvroErrorCode>) {
    if !version_in_range(version as int) {
        (s, Err(ApiAvroErrorCode::InvalidVersion))
    } else {
        match subject_named(s, name) {
            Err(code) => (s, Err(code)),
            Ok(subject) => if some_match(s.schema_versions, at_version(subject.id, version as i32)) {
                (
                    StoreView {
                        schema_versions: s.schema_versions.filter(
                            off_version(subject.id, version as i32),
                        ),
                        ..s
                    },
                    Ok(version),
                )
            } else {
                (s, Err(ApiAvroErrorCode::VersionNotFound))
            },
        }
    }
}

/// The rows that do not join a subject of the given name and a stored schema.
pub open spec fn spared(s: StoreView, name: Seq<char>) -> spec_fn(SchemaVersion) -> bool {
    |row: SchemaVersion| !joined(s, name)(row)
}

/// The subjects that none of the given rows belongs to.
pub open spec fn subject_stays(gone: Seq<SchemaVersion>) -> spec_fn(SubjectView) -> bool {
    |subject: SubjectView| !some_match(gone, of_subject(subject.id))
}

/// The settings that override no subject of the given rows.
pub open spec fn config_stays(gone: Seq<SchemaVersion>) -> spec_fn(ConfigView) -> bool {
    |config: ConfigView|
        match config.subject_id {
            Some(id) => !some_match(gone, of_subject(id)),
            None => true,
        }
}

/// The schemas that none of the rows that go binds, or that a row that
/// stays still binds.
pub open spec fn schema_stays(gone: Seq<SchemaVersion>, kept: Seq<SchemaVersion>) -> spec_fn(SchemaView) -> bool {
    |schema: SchemaView| !some_match(gone, of_schema(schema.id)) || some_match(kept, of_schema(schema.id))
}

/// Deleting the named subject with all that hangs on it. The rows that go
/// are those that join a subject of that name and a stored schema. With them
/// go their subjects, the overrides of those subjects, and each of their
/// schemas that no remaining row binds. The versions of the rows that went
/// are returned in table order. Where no row goes, nothing changes.
pub open spec fn subject_deleted(s: StoreView, name: Seq<char>) -> (StoreView, Seq<Option<i32>>) {
    let gone = s.schema_versions.filter(joined(s, name));
    let kept = s.schema_versions.filter(spared(s, name));
    if gone.len() == 0 {
        (s, Seq::empty())
    } else {
        (
            StoreView {
                subjects: s.subjects.filter(subject_stays(gone)),
                schemas: s.schemas.filter(schema_stays(gone, kept)),
                schema_versions: kept,
                configs: s.configs.filter(config_stays(gone)),
                ..s
            },
            gone.map_values(version_of()),
        )
    }
}

/// Whether one of the rows belongs to the given subject.
fn holds_subject(rows: &Vec<SchemaVersion>, subject_id: i64) -> (yes: bool)
    ensures
        yes == some_match(rows@, of_subject(subject_id)),
{
    let mut i: usize = 0;
    while i < rows.len()
        invariant
            i <= rows.len(),
            forall|j: int| 0 <= j < i ==> !of_subject(subject_id)(#[trigger] rows@[j]),
        decreases rows.len() - i,
    {
        if rows[i].subject_id == subject_id {
            assert(of_subject(subject_id)(rows@[i as int]));
            return true;
        }
        i += 1;
    }
    false
}

/// Whether one of the rows binds the given schema.
fn holds_schema(rows: &Vec<SchemaVersion>, schema_id: i64) -> (yes: bool)
    ensures
        yes == some_match(rows@, of_schema(schema_id)),
{
    let mut i: usize = 0;
    while i < rows.len()
        invariant
            i <= rows.len(),
            forall|j: int| 0 <= j < i ==> !of_schema(schema_id)(#[trigger] rows@[j]),
        decreases rows.len() - i,
    {
        if rows[i].schema_id == schema_id {
            assert(of_schema(schema_id)(rows@[i as int]));
            return true;
        }
        i += 1;
    }
    false
}

/// Whether `a` comes no later than `b` in the order of versions.
fn version_no_later(a: Option<i32>, b: Option<i32>) -> (yes: bool)
    ensures
        yes == version_leq()(a, b),
{
    match (a, b) {
        (Some(x), Some(y)) => x <= y,
        (Some(_), None) => true,
        (None, Some(_)) => false,
        (None, None) => true,
    }
}

/// Puts a version into an ascending list at its place.
fn insert_ascending(list: &mut Vec<Option<i32>>, version: Option<i32>)
    requires
        sorted_by(old(list)@, version_leq()),
    ensures
        sorted_by(final(list)@, version_leq()),
        final(list)@.to_multiset() == old(list)@.to_multiset().insert(version),
{
    let mut at: usize = 0;
    while at < list.len() && version_no_later(list[at], version)
        invariant
            at <= list.len(),
            *list == *old(list),
            forall|j: int| 0 <= j < at ==> version_leq()(#[trigger] list@[j], version),
        decreases list.len() - at,
    {
        at += 1;
    }
    list.insert(at, version);
    proof {
        vstd::seq_lib::to_multiset_insert(old(list)@, at as int, version);
        let before = old(list)@;
        let after = list@;
        assert forall|i: int, j: int| 0 <= i < j < after.len() implies #[trigger] version_leq()(
            after[i],
            after[j],
        ) by {
            if j < at {
                assert(version_leq()(before[i], before[j]));
            } else if j == at {
                assert(version_leq()(before[i], version));
            } else if i < at {
                assert(version_leq()(before[i], before[j - 1]));
            } else if i == at {
                assert(version_leq()(before[at as int], before[j - 1]) || j - 1 == at);
                assert(!version_leq()(before[at as int], version));
            } else {
                assert(version_leq()(before[i - 1], before[j - 1]));
            }
        }
    }
}

impl SchemaVersion {
    pub fn insert(store: &mut Store, sv: NewSchemaVersion) -> (inserted: Result<SchemaVersion, ApiError>)
        ensures
            final(store)@ == version_inserted(old(store)@, sv).0,
            agrees(inserted, version_inserted(old(store)@, sv).1),
    {
        if store.next_schema_version_id == i64::MAX {
            return Err(ApiError::new(ApiAvroErrorCode::BackendDatastoreError));
        }
        let row = SchemaVersion {
            id: store.next_schema_version_id,
            version: sv.version,
            subject_id: sv.subject_id,
            schema_id: sv.schema_id,
        };
        store.schema_versions.push(row);
        store.next_schema_version_id = store.next_schema_version_id + 1;
        Ok(row)
    }

    pub fn find(store: &Store, find_subject_id: i64, find_schema_id: i64) -> (found: Result<SchemaVersion, ApiError>)
        ensures
            agrees(found, version_binding(store@, find_subject_id, find_schema_id)),
    {
        let mut i: usize = 0;
        while i < store.schema_versions.len()
            invariant
                i <= store.schema_versions.len(),
                first_match(store@.schema_versions, binds(find_subject_id, find_schema_id))
                    == first_match_from(
                    store@.schema_versions,
                    binds(find_subject_id, find_schema_id),
                    i as int,
                ),
            decreases store.schema_versions.len() - i,
        {
            let row = store.schema_versions[i];
            if row.subject_id == find_subject_id && row.schema_id == find_schema_id {
                return Ok(row);
            }
            i += 1;
        }
        Err(ApiError::new(ApiAvroErrorCode::VersionNotFound))
    }

    /// How many rows bind the named subject to the given stored schema.
    pub fn with_schema_and_subject(store: &Store, search_subject_name: String, search_schema_id: i64) -> (count: Result<usize, ApiError>)
        ensures
            count matches Ok(n) && n == binding_count(store@, search_subject_name@, search_schema_id),
    {
        let ghost wanted = joined_to(store@, search_subject_name@, search_schema_id);
        let mut n: usize = 0;
        let mut i: usize = 0;
        proof {
            reveal(Seq::filter);
            assert(store@.schema_versions.take(0).filter(wanted).len() == 0);
        }
        while i < store.schema_versions.len()
            invariant
                i <= store.schema_versions.len(),
                n <= i,
                wanted == joined_to(store@, search_subject_name@, search_schema_id),
                n == store@.schema_versions.take(i as int).filter(wanted).len(),
            decreases store.schema_versions.len() - i,
        {
            let row = store.schema_versions[i];
            let hit = row.schema_id == search_schema_id && Subject::is_named(
                store,
                row.subject_id,
                &search_subject_name,
            ) && Schema::is_stored(store, row.schema_id);
            proof {
                let rows = store@.schema_versions;
                rows.lemma_take_succ_push(i as int);
                rows.take(i as int).lemma_filter_push(rows[i as int], wanted);
            }
            if hit {
                n += 1;
            }
            i += 1;
        }
        proof {
            store@.schema_versions.lemma_take_len();
        }
        Ok(n)
    }

    /// The versions of the named subject, ascending.
    pub fn versions_with_subject_name(store: &Store, subject_name: String) -> (versions: Result<Vec<Option<i32>>, ApiError>)
        ensures
            agrees(versions, versions_listed(store@, subject_name@)),
    {
        let ghost wanted = of_subject_named(store@.subjects, subject_name@);
        let mut list: Vec<Option<i32>> = Vec::new();
        let mut i: usize = 0;
        proof {
            reveal(Seq::filter);
            assert(store@.schema_versions.take(0).filter(wanted).map_values(version_of()) =~= Seq::empty());
        }
        while i < store.schema_versions.len()
            invariant
                i <= store.schema_versions.len(),
                wanted == of_subject_named(store@.subjects, subject_name@),
                sorted_by(list@, version_leq()),
                list@.to_multiset() == store@.schema_versions.take(i as int).filter(
                    wanted,
                ).map_values(version_of()).to_multiset(),
            decreases store.schema_versions.len() - i,
        {
            let row = store.schema_versions[i];
            proof {
                let rows = store@.schema_versions;
                rows.lemma_take_succ_push(i as int);
                rows.take(i as int).lemma_filter_push(rows[i as int], wanted);
                let kept = rows.take(i as int).filter(wanted);
                kept.lemma_push_map_commute(version_of(), rows[i as int]);
                vstd::seq_lib::to_multiset_build(kept.map_values(version_of()), rows[i as int].version);
            }
            if Subject::is_named(store, row.subject_id, &subject_name) {
                insert_ascending(&mut list, row.version);
            }
            i += 1;
        }
        proof {
            store@.schema_versions.lemma_take_len();
            lemma_version_order_total();
            let all = versions_of(store@, subject_name@);
            all.lemma_sort_by_ensures(version_leq());
            lemma_sorted_unique(list@, all.sort_by(version_leq()), version_leq());
            vstd::seq_lib::to_multiset_len(list@);
            vstd::seq_lib::to_multiset_len(all);
        }
        if list.len() == 0 {
            Err(ApiError::new(ApiAvroErrorCode::SubjectNotFound))
        } else {
            Ok(list)
        }
    }

    /// Index of the latest row of the subjects of the given name.
    pub(crate) fn latest_index_named(store: &Store, subject_name: &String) -> (at: Option<usize>)
        ensures
            match at {
                Some(i) => i < store.schema_versions.len() && latest_match(
                    store@.schema_versions,
                    of_subject_named(store@.subjects, subject_name@),
                ) == Some(i as int),
                None => latest_match(
                    store@.schema_versions,
                    of_subject_named(store@.subjects, subject_name@),
                ).is_none(),
            },
    {
        let ghost wanted = of_subject_named(store@.subjects, subject_name@);
        let mut best: Option<usize> = None;
        let mut i: usize = 0;
        while i < store.schema_versions.len()
            invariant
                i <= store.schema_versions.len(),
                wanted == of_subject_named(store@.subjects, subject_name@),
                match best {
                    Some(b) => b < i && latest_match_below(store@.schema_versions, wanted, i as int)
                        == Some(b as int),
                    None => latest_match_below(store@.schema_versions, wanted, i as int).is_none(),
                },
            decreases store.schema_versions.len() - i,
        {
            let row = store.schema_versions[i];
            if row.version.is_some() && Subject::is_named(store, row.subject_id, subject_name) {
                best = match best {
                    Some(b) => if version_no_later(row.version, store.schema_versions[b].version) {
                        Some(b)
                    } else {
                        Some(i)
                    },
                    None => Some(i),
                };
            }
            i += 1;
        }
        best
    }

    /// The latest version of the named subject, if it has versions.
    pub fn latest_version_with_subject_name(store: &Store, subject_name: String) -> (latest: Result<Option<i32>, ApiError>)
        ensures
            latest matches Ok(version) && version == latest_version(store@, subject_name@),
    {
        match Self::latest_index_named(store, &subject_name) {
            Some(i) => Ok(store.schema_versions[i].version),
            None => Ok(None),
        }
    }

    /// Index of the latest row of the given subject.
    fn latest_index_of(store: &Store, subject_id: i64) -> (at: Option<usize>)
        ensures
            match at {
                Some(i) => i < store.schema_versions.len() && latest_match(
                    store@.schema_versions,
                    of_subject(subject_id),
                ) == Some(i as int),
                None => latest_match(store@.schema_versions, of_subject(subject_id)).is_none(),
            },
    {
        let mut best: Option<usize> = None;
        let mut i: usize = 0;
        while i < store.schema_versions.len()
            invariant
                i <= store.schema_versions.len(),
                match best {
                    Some(b) => b < i && latest_match_below(
                        store@.schema_versions,
                        of_subject(subject_id),
                        i as int,
                    ) == Some(b as int),
                    None => latest_match_below(
                        store@.schema_versions,
                        of_subject(subject_id),
                        i as int,
                    ).is_none(),
                },
            decreases store.schema_versions.len() - i,
        {
            let row = store.schema_versions[i];
            if row.version.is_some() && row.subject_id == subject_id {
                best = match best {
                    Some(b) => if version_no_later(row.version, store.schema_versions[b].version) {
                        Some(b)
                    } else {
                        Some(i)
                    },
                    None => Some(i),
                };
            }
            i += 1;
        }
        best
    }

    /// Resolves a row to its schema's identifier, its version and its
    /// schema's body.
    fn resolve(store: &Store, row: SchemaVersion) -> (found: Result<(i64, i32, String), ApiError>)
        ensures
            agrees(found, resolved(store@, row)),
    {
        let schema = match Schema::get_by_id(store, row.schema_id) {
            Ok(s) => s,
            Err(_) => {
                return Err(ApiError::new(ApiAvroErrorCode::BackendDatastoreError));
            },
        };
        match row.version {
            Some(version) => Ok((row.schema_id, version, schema.json)),
            None => Err(ApiError::new(ApiAvroErrorCode::VersionNotFound)),
        }
    }

    /// The latest version of the named subject: the schema's identifier, the
    /// version and the schema's body.
    pub fn get_schema_id_from_latest(store: &Store, subject_name: String) -> (found: Result<(i64, i32, String), ApiError>)
        ensures
            agrees(found, latest_resolved(store@, subject_name@)),
    {
        let subject = match Subject::get_by_name(store, subject_name) {
            Ok(s) => s,
            Err(e) => {
                return Err(e);
            },
        };
        match Self::latest_index_of(store, subject.id) {
            Some(i) => Self::resolve(store, store.schema_versions[i]),
            None => Err(ApiError::new(ApiAvroErrorCode::VersionNotFound)),
        }
    }

    /// The given version of the named subject: the schema's identifier, the
    /// version and the schema's body.
    pub fn get_schema_id(store: &Store, subject_name: String, schema_version: u32) -> (found: Result<(i64, i32, String), ApiError>)
        ensures
            agrees(found, version_resolved(store@, subject_name@, schema_version)),
    {
        if !schema_version.within_limits() {
            return Err(ApiError::new(ApiAvroErrorCode::InvalidVersion));
        }
        let wanted: i32 = schema_version as i32;
        let subject = match Subject::get_by_name(store, subject_name) {
            Ok(s) => s,
            Err(e) => {
                return Err(e);
            },
        };
        let mut i: usize = 0;
        while i < store.schema_versions.len()
            invariant
                i <= store.schema_versions.len(),
                version_in_range(schema_version as int),
                wanted == schema_version as i32,
                subject_named(store@, subject_name@) == Ok::<SubjectView, ApiAvroErrorCode>(
                    subject@,
                ),
                first_match(store@.schema_versions, at_version(subject.id, wanted))
                    == first_match_from(
                    store@.schema_versions,
                    at_version(subject.id, wanted),
                    i as int,
                ),
            decreases store.schema_versions.len() - i,
        {
            let row = store.schema_versions[i];
            let hit = row.subject_id == subject.id && match row.version {
                Some(v) => v == wanted,
                None => false,
            };
            assert(hit == at_version(subject.id, wanted)(store@.schema_versions[i as int]));
            if hit {
                return Self::resolve(store, row);
            }
            i += 1;
        }
        Err(ApiError::new(ApiAvroErrorCode::VersionNotFound))
    }

    /// Deletes the named subject with its versions, its overrides and the
    /// schemas that only it was bound to, and returns the versions removed.
    pub fn delete_subject_with_name(store: &mut Store, subject: String) -> (removed: Result<Vec<Option<i32>>, ApiError>)
        ensures
            final(store)@ == subject_deleted(old(store)@, subject@).0,
            removed matches Ok(versions) && versions@ == subject_deleted(old(store)@, subject@).1,
            old(store)@.sound() ==> final(store)@.sound(),
    {
        proof {
            if old(store)@.sound() {
                lemma_subject_removed(old(store)@, subject@);
            }
        }
        let ghost s = store@;
        let ghost goes = joined(s, subject@);
        let ghost stays = spared(s, subject@);
        let mut gone: Vec<SchemaVersion> = Vec::new();
        let mut kept: Vec<SchemaVersion> = Vec::new();
        let mut versions: Vec<Option<i32>> = Vec::new();
        let mut i: usize = 0;
        proof {
            reveal(Seq::filter);
            assert(s.schema_versions.take(0).filter(goes) =~= Seq::empty());
            assert(s.schema_versions.take(0).filter(stays) =~= Seq::empty());
            assert(Seq::<SchemaVersion>::empty().map_values(version_of()) =~= Seq::empty());
        }
        while i < store.schema_versions.len()
            invariant
                i <= store.schema_versions.len(),
                *store == *old(store),
                s == store@,
                goes == joined(s, subject@),
                stays == spared(s, subject@),
                gone@ == s.schema_versions.take(i as int).filter(goes),
                kept@ == s.schema_versions.take(i as int).filter(stays),
                versions@ == gone@.map_values(version_of()),
            decreases store.schema_versions.len() - i,
        {
            let row = store.schema_versions[i];
            proof {
                s.schema_versions.lemma_take_succ_push(i as int);
                s.schema_versions.take(i as int).lemma_filter_push(row, goes);
                s.schema_versions.take(i as int).lemma_filter_push(row, stays);
                gone@.lemma_push_map_commute(version_of(), row);
            }
            if Subject::is_named(store, row.subject_id, &subject) && Schema::is_stored(
                store,
                row.schema_id,
            ) {
                gone.push(row);
                versions.push(row.version);
            } else {
                kept.push(row);
            }
            i += 1;
        }
        proof {
            s.schema_versions.lemma_take_len();
        }
        if gone.len() == 0 {
            assert(versions@ =~= Seq::empty());
            return Ok(versions);
        }
        let subjects = Self::subjects_without(store, &gone);
        let configs = Self::configs_without(store, &gone);
        let schemas = Self::schemas_without(store, &gone, &kept);
        store.subjects = subjects;
        store.configs = configs;
        store.schemas = schemas;
        store.schema_versions = kept;
        Ok(versions)
    }

    /// The subjects that none of the rows belongs to.
    fn subjects_without(store: &Store, gone: &Vec<SchemaVersion>) -> (rest: Vec<Subject>)
        ensures
            views(rest@) == store@.subjects.filter(subject_stays(gone@)),
    {
        let ghost stays = subject_stays(gone@);
        let mut rest: Vec<Subject> = Vec::new();
        let mut i: usize = 0;
        proof {
            reveal(Seq::filter);
            assert(views(rest@) =~= store@.subjects.take(0).filter(stays));
        }
        while i < store.subjects.len()
            invariant
                i <= store.subjects.len(),
                stays == subject_stays(gone@),
                views(rest@) == store@.subjects.take(i as int).filter(stays),
            decreases store.subjects.len() - i,
        {
            proof {
                store@.subjects.lemma_take_succ_push(i as int);
                store@.subjects.take(i as int).lemma_filter_push(store@.subjects[i as int], stays);
            }
            if !holds_subject(gone, store.subjects[i].id) {
                let ghost before = rest@;
                rest.push(store.subjects[i].clone());
                assert(views(rest@) =~= views(before).push(store@.subjects[i as int]));
            }
            i += 1;
        }
        proof {
            store@.subjects.lemma_take_len();
        }
        rest
    }

    /// The settings that override no subject of the rows.
    fn configs_without(store: &Store, gone: &Vec<SchemaVersion>) -> (rest: Vec<Config>)
        ensures
            views(rest@) == store@.configs.filter(config_stays(gone@)),
    {
        let ghost stays = config_stays(gone@);
        let mut rest: Vec<Config> = Vec::new();
        let mut i: usize = 0;
        proof {
            reveal(Seq::filter);
            assert(views(rest@) =~= store@.configs.take(0).filter(stays));
        }
        while i < store.configs.len()
            invariant
                i <= store.configs.len(),
                stays == config_stays(gone@),
                views(rest@) == store@.configs.take(i as int).filter(stays),
            decreases store.configs.len() - i,
        {
            proof {
                store@.configs.lemma_take_succ_push(i as int);
                store@.configs.take(i as int).lemma_filter_push(store@.configs[i as int], stays);
            }
            let goes = match store.configs[i].subject_id {
                Some(id) => holds_subject(gone, id),
                None => false,
            };
            if !goes {
                let ghost before = rest@;
                rest.push(store.configs[i].clone());
                assert(views(rest@) =~= views(before).push(store@.configs[i as int]));
            }
            i += 1;
        }
        proof {
            store@.configs.lemma_take_len();
        }
        rest
    }

    /// The schemas that none of the rows that go binds, or that a row that
    /// stays still binds.
    fn schemas_without(store: &Store, gone: &Vec<SchemaVersion>, kept: &Vec<SchemaVersion>) -> (rest: Vec<Schema>)
        ensures
            views(rest@) == store@.schemas.filter(schema_stays(gone@, kept@)),
    {
        let ghost stays = schema_stays(gone@, kept@);
        let mut rest: Vec<Schema> = Vec::new();
        let mut i: usize = 0;
        proof {
            reveal(Seq::filter);
            assert(views(rest@) =~= store@.schemas.take(0).filter(stays));
        }
        while i < store.schemas.len()
            invariant
                i <= store.schemas.len(),
                stays == schema_stays(gone@, kept@),
                views(rest@) == store@.schemas.take(i as int).filter(stays),
            decreases store.schemas.len() - i,
        {
            proof {
                store@.schemas.lemma_take_succ_push(i as int);
                store@.schemas.take(i as int).lemma_filter_push(store@.schemas[i as int], stays);
            }
            if !holds_schema(gone, store.schemas[i].id) || holds_schema(kept, store.schemas[i].id) {
                let ghost before = rest@;
                rest.push(store.schemas[i].clone());
                assert(views(rest@) =~= views(before).push(store@.schemas[i as int]));
            }
            i += 1;
        }
        proof {
            store@.schemas.lemma_take_len();
        }
        rest
    }

    /// Removes one version of the named subject and returns its number.
    pub fn delete_version_with_subject(store: &mut Store, request: DeleteSchemaVersion) -> (removed: Result<u32, ApiError>)
        ensures
            final(store)@ == version_deleted(old(store)@, request.subject@, request.version).0,
            agrees(removed, version_deleted(old(store)@, request.subject@, request.version).1),
            old(store)@.sound() ==> final(store)@.sound(),
    {
        proof {
            if old(store)@.sound() {
                lemma_version_deleted(old(store)@, request.subject@, request.version);
            }
        }
        let v: u32 = request.version;
        if !v.within_limits() {
            return Err(ApiError::new(ApiAvroErrorCode::InvalidVersion));
        }
        let wanted: i32 = v as i32;
        let subject = match Subject::get_by_name(store, request.subject) {
            Ok(s) => s,
            Err(e) => {
                return Err(e);
            },
        };
        let ghost rows = store@.schema_versions;
        let ghost stays = off_version(subject.id, wanted);
        let mut kept: Vec<SchemaVersion> = Vec::new();
        let mut found: bool = false;
        let mut i: usize = 0;
        proof {
            reveal(Seq::filter);
            assert(rows.take(0).filter(stays) =~= Seq::empty());
        }
        while i < store.schema_versions.len()
            invariant
                i <= store.schema_versions.len(),
                *store == *old(store),
                rows == store@.schema_versions,
                stays == off_version(subject.id, wanted),
                kept@ == rows.take(i as int).filter(stays),
                found ==> some_match(rows, at_version(subject.id, wanted)),
                !found ==> forall|j: int|
                    0 <= j < i ==> !at_version(subject.id, wanted)(#[trigger] rows[j]),
            decreases store.schema_versions.len() - i,
        {
            let row = store.schema_versions[i];
            proof {
                rows.lemma_take_succ_push(i as int);
                rows.take(i as int).lemma_filter_push(row, stays);
            }
            let hit = row.subject_id == subject.id && match row.version {
                Some(x) => x == wanted,
                None => false,
            };
            if hit {
                assert(at_version(subject.id, wanted)(rows[i as int]));
                found = true;
            } else {
                kept.push(row);
            }
            i += 1;
        }
        proof {
            rows.lemma_take_len();
        }
        if !found {
            return Err(ApiError::new(ApiAvroErrorCode::VersionNotFound));
        }
        store.schema_versions = kept;
        Ok(v)
    }
}

} // verus!
