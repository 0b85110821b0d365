use vstd::prelude::*;
use crate::api::errors::{agrees, ApiAvroErrorCode, ApiError};
use crate::db::query::{first_match, first_match_from, some_match};
use crate::db::laws::lemma_subject_upserted_sound;
use crate::db::models::schema_versions::{subject_deleted, SchemaVersion};
use crate::db::store::{Store, StoreView};

verus! {

#[derive(Debug)]
pub struct Subject {
    pub id: i64,
    pub name: String,
    pub created_at: i64,
    pub updated_at: i64,
}

pub struct SubjectView {
    pub id: i64,
    pub name: Seq<char>,
    pub created_at: i64,
    pub updated_at: i64,
}

impl View for Subject {
    type V = SubjectView;

    open spec fn view(&self) -> SubjectView {
        SubjectView {
            id: self.id,
            name: self.name@,
            created_at: self.created_at,
            updated_at: self.updated_at,
        }
    }
}

impl Clone for Subject {
    fn clone(&self) -> (copy: Self)
        ensures
            copy == *self,
    {
        Subject {
            id: self.id,
            name: self.name.clone(),
            created_at: self.created_at,
            updated_at: self.updated_at,
        }
    }
}

#[derive(Debug)]
pub struct SubjectList {
    pub content: Vec<String>,
}

impl View for SubjectList {
    type V = Seq<Seq<char>>;

    open spec fn view(&self) -> Seq<Seq<char>> {
        self.content.deep_view()
    }
}

pub struct GetSubjects;

#[derive(Debug)]
pub struct SubjectVersionsResponse {
    pub versions: Vec<Option<i32>>,
}

impl View for SubjectVersionsResponse {
    type V = Seq<Option<i32>>;

    open spec fn view(&self) -> Seq<Option<i32>> {
        self.versions@
    }
}

pub struct GetSubjectVersions {
    pub subject: String,
}

#[derive(Debug)]
pub struct DeleteSubjectResponse {
    pub versions: Vec<Option<i32>>,
}

impl View for DeleteSubjectResponse {
    type V = Seq<Option<i32>>;

    open spec fn view(&self) -> Seq<Option<i32>> {
        self.versions@
    }
}

pub struct DeleteSubject {
    pub subject: String,
}

#[derive(Debug)]
pub struct GetSubjectVersion {
    pub subject: String,
    pub version: Option<u32>,
}

/// One version of a subject: the subject's name, the schema's identifier,
/// the version number and the schema's body.
#[derive(Debug)]
pub struct GetSubjectVersionResponse {
    pub subject: String,
    pub id: i64,
    pub version: i32,
    pub schema: String,
}

pub struct GetSubjectVersionResponseView {
    pub subject: Seq<char>,
    pub id: i64,
    pub version: i32,
    pub schema: Seq<char>,
}

impl View for GetSubjectVersionResponse {
    type V = GetSubjectVersionResponseView;

    open spec fn view(&self) -> GetSubjectVersionResponseView {
        GetSubjectVersionResponseView {
            subject: self.subject@,
            id: self.id,
            version: self.version,
            schema: self.schema@,
        }
    }
}

/// The rows that carry the given name.
pub open spec fn named(name: Seq<char>) -> spec_fn(SubjectView) -> bool {
    |row: SubjectView| row.name == name
}

/// The rows that carry the given identifier.
pub open spec fn subject_has_id(id: i64) -> spec_fn(SubjectView) -> bool {
    |row: SubjectView| row.id == id
}

/// The rows that carry the given identifier and the given name.
pub open spec fn subject_is(id: i64, name: Seq<char>) -> spec_fn(SubjectView) -> bool {
    |row: SubjectView| row.id == id && row.name == name
}

/// The subject of the given name: the first row that carries it.
pub open spec fn subject_named(s: StoreView, name: Seq<char>) -> Result<SubjectView, ApiAvroErrorCode> {
    match first_match(s.subjects, named(name)) {
        Some(i) => Ok(s.subjects[i]),
        None => Err(ApiAvroErrorCode::SubjectNotFound),
    }
}

/// The row that a new subject of the given name gets.
pub open spec fn fresh_subject(s: StoreView, name: Seq<char>) -> SubjectView {
    SubjectView { id: s.next_subject_id, name, created_at: s.clock, updated_at: s.clock }
}

/// Insert-or-keep by name: an existing subject of that name is returned as
/// it is; otherwise a row with the next identifier is appended, unless the
/// identifiers are used up.
pub open spec fn subject_upserted(s: StoreView, name: Seq<char>) -> (StoreView, Result<SubjectView, ApiAvroErrorCode>) {
    match first_match(s.subjects, named(name)) {
        Some(i) => (s, Ok(s.subjects[i])),
        None => if s.next_subject_id == i64::MAX {
            (s, Err(ApiAvroErrorCode::BackendDatastoreError))
        } else {
            (
                StoreView {
                    subjects: s.subjects.push(fresh_subject(s, name)),
                    next_subject_id: (s.next_subject_id + 1) as i64,
                    ..s
                },
                Ok(fresh_subject(s, name)),
            )
        },
    }
}

/// Deleting a subject by name: the cascade of `subject_deleted`; where it
/// removes no version, the subject counts as not found and nothing changes.
pub open spec fn subject_removed(s: StoreView, name: Seq<char>) -> (StoreView, Result<Seq<Option<i32>>, ApiAvroErrorCode>) {
    if subject_deleted(s, name).1.len() == 0 {
        (s, Err(ApiAvroErrorCode::SubjectNotFound))
    } else {
        (subject_deleted(s, name).0, Ok(subject_deleted(s, name).1))
    }
}

/// The names of all subjects, in table order.
pub open spec fn subject_names(s: StoreView) -> Seq<Seq<char>> {
    s.subjects.map_values(|row: SubjectView| row.name)
}

impl Subject {
    /// Inserts a subject, or returns the one that already has the name.
    pub fn insert(store: &mut Store, subject: String) -> (inserted: Result<Subject, ApiError>)
        ensures
            final(store)@ == subject_upserted(old(store)@, subject@).0,
            agrees(inserted, subject_upserted(old(store)@, subject@).1),
            old(store)@.sound() ==> final(store)@.sound(),
    {
        proof {
            if old(store)@.sound() {
                lemma_subject_upserted_sound(old(store)@, subject@);
            }
        }
        let mut i: usize = 0;
        while i < store.subjects.len()
            invariant
                i <= store.subjects.len(),
                *store == *old(store),
                first_match(store@.subjects, named(subject@)) == first_match_from(
                    store@.subjects,
                    named(subject@),
                    i as int,
                ),
            decreases store.subjects.len() - i,
        {
            if store.subjects[i].name == subject {
                return Ok(store.subjects[i].clone());
            }
            i += 1;
        }
        if store.next_subject_id == i64::MAX {
            return Err(ApiError::new(ApiAvroErrorCode::BackendDatastoreError));
        }
        let row = Subject {
            id: store.next_subject_id,
            name: subject,
            created_at: store.clock,
            updated_at: store.clock,
        };
        let copy = row.clone();
        store.subjects.push(row);
        store.next_subject_id = store.next_subject_id + 1;
        assert(store@.subjects =~= old(store)@.subjects.push(fresh_subject(old(store)@, subject@)));
        Ok(copy)
    }

    /// Whether a subject with this identifier is stored.
    pub fn is_stored(store: &Store, id: i64) -> (yes: bool)
        ensures
            yes == some_match(store@.subjects, subject_has_id(id)),
    {
        let mut i: usize = 0;
        while i < store.subjects.len()
            invariant
                i <= store.subjects.len(),
                forall|j: int| 0 <= j < i ==> !subject_has_id(id)(#[trigger] store@.subjects[j]),
            decreases store.subjects.len() - i,
        {
            if store.subjects[i].id == id {
                assert(subject_has_id(id)(store@.subjects[i as int]));
                return true;
            }
            i += 1;
        }
        false
    }

    /// Whether a subject with this identifier carries this name.
    pub fn is_named(store: &Store, id: i64, name: &String) -> (yes: bool)
        ensures
            yes == some_match(store@.subjects, subject_is(id, name@)),
    {
        let mut i: usize = 0;
        while i < store.subjects.len()
            invariant
                i <= store.subjects.len(),
                forall|j: int| 0 <= j < i ==> !subject_is(id, name@)(#[trigger] store@.subjects[j]),
            decreases store.subjects.len() - i,
        {
            if store.subjects[i].id == id && store.subjects[i].name == *name {
                assert(subject_is(id, name@)(store@.subjects[i as int]));
                return true;
            }
            i += 1;
        }
        false
    }

    pub fn distinct_names(store: &Store) -> (names: Result<Vec<String>, ApiError>)
        ensures
            names matches Ok(list) && list.deep_view() == subject_names(store@),
    {
        let mut list: Vec<String> = Vec::new();
        let mut i: usize = 0;
        while i < store.subjects.len()
            invariant
                i <= store.subjects.len(),
                list.len() == i,
                forall|j: int| 0 <= j < i ==> (#[trigger] list@[j])@ == store.subjects@[j].name@,
            decreases store.subjects.len() - i,
        {
            list.push(store.subjects[i].name.clone());
            i += 1;
        }
        assert(list.deep_view() =~= subject_names(store@));
        Ok(list)
    }

    pub fn get_by_name(store: &Store, subject: String) -> (found: Result<Subject, ApiError>)
        ensures
            agrees(found, subject_named(store@, subject@)),
    {
        let mut i: usize = 0;
        while i < store.subjects.len()
            invariant
                i <= store.subjects.len(),
                first_match(store@.subjects, named(subject@)) == first_match_from(
                    store@.subjects,
                    named(subject@),
                    i as int,
                ),
            decreases store.subjects.len() - i,
        {
            if store.subjects[i].name == subject {
                return Ok(store.subjects[i].clone());
            }
            i += 1;
        }
        Err(ApiError::new(ApiAvroErrorCode::SubjectNotFound))
    }

    /// Deletes the named subject and returns the versions that it had.
    pub fn delete_by_name(store: &mut Store, subject_name: String) -> (removed: Result<Vec<Option<i32>>, ApiError>)
        ensures
            final(store)@ == subject_removed(old(store)@, subject_name@).0,
            agrees(removed, subject_removed(old(store)@, subject_name@).1),
            old(store)@.sound() ==> final(store)@.sound(),
    {
        match SchemaVersion::delete_subject_with_name(store, subject_name) {
            Err(_) => Err(ApiError::new(ApiAvroErrorCode::BackendDatastoreError)),
            Ok(res) => {
                if res.len() != 0 {
                    Ok(res)
                } else {
                    Err(ApiError::new(ApiAvroErrorCode::SubjectNotFound))
                }
            },
        }
    }
}

} // verus!
