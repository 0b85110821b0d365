use vstd::prelude::*;
use crate::db::models::configs::ConfigView;
use crate::db::models::schemas::Schema;
use crate::db::models::subjects::Subject;
use crate::db::store::Store;
use crate::db::models::schema_versions::{
    binding_count, joined, joined_to, of_subject_named, version_rank, SchemaVersion,
};
use crate::db::models::schemas::{schema_has_id, SchemaView};
use crate::db::models::subjects::{named, subject_has_id, subject_is, SubjectView};
use crate::db::query::{
    each, first_match, lemma_filter_at_most_one, lemma_filter_members, lemma_first_match, pairwise,
    some_match,
};
use crate::db::store::StoreView;

verus! {

/// Two subjects differ in identifier and in name.
pub open spec fn subjects_apart() -> spec_fn(SubjectView, SubjectView) -> bool {
    |a: SubjectView, b: SubjectView| a.id != b.id && a.name != b.name
}

/// Two schemas differ in identifier.
pub open spec fn schemas_apart() -> spec_fn(SchemaView, SchemaView) -> bool {
    |a: SchemaView, b: SchemaView| a.id != b.id
}

/// Of two bindings of one subject the later one binds another schema, at a
/// greater version.
pub open spec fn versions_apart() -> spec_fn(SchemaVersion, SchemaVersion) -> bool {
    |a: SchemaVersion, b: SchemaVersion|
        a.subject_id == b.subject_id ==> a.schema_id != b.schema_id && version_rank(a.version)
            < version_rank(b.version)
}

/// The subject's identifier was assigned before `next`.
pub open spec fn subject_below(next: i64) -> spec_fn(SubjectView) -> bool {
    |row: SubjectView| row.id < next
}

/// The schema's identifier was assigned before `next`.
pub open spec fn schema_below(next: i64) -> spec_fn(SchemaView) -> bool {
    |row: SchemaView| row.id < next
}

/// The binding has a version number, and it is at least 1.
pub open spec fn numbered() -> spec_fn(SchemaVersion) -> bool {
    |row: SchemaVersion| row.version matches Some(v) && v >= 1
}

/// The binding's subject and schema are stored.
pub open spec fn anchored(subjects: Seq<SubjectView>, schemas: Seq<SchemaView>) -> spec_fn(SchemaVersion) -> bool {
    |row: SchemaVersion|
        some_match(subjects, subject_has_id(row.subject_id)) && some_match(
            schemas,
            schema_has_id(row.schema_id),
        )
}

/// Two bindings differ in identifier.
pub open spec fn bindings_apart() -> spec_fn(SchemaVersion, SchemaVersion) -> bool {
    |a: SchemaVersion, b: SchemaVersion| a.id != b.id
}

/// The binding's identifier was assigned before `next`.
pub open spec fn binding_below(next: i64) -> spec_fn(SchemaVersion) -> bool {
    |row: SchemaVersion| row.id < next
}

/// Two settings differ in identifier, and do not override the same subject.
pub open spec fn configs_apart() -> spec_fn(ConfigView, ConfigView) -> bool {
    |a: ConfigView, b: ConfigView|
        a.id != b.id && (a.subject_id.is_some() ==> a.subject_id != b.subject_id)
}

/// The setting is the global default, with identifier 0, or the override of
/// a stored subject, with an identifier from 1 up that was assigned before
/// `next`.
pub open spec fn config_in_place(subjects: Seq<SubjectView>, next: i64) -> spec_fn(ConfigView) -> bool {
    |row: ConfigView|
        match row.subject_id {
            None => row.id == 0,
            Some(id) => 1 <= row.id < next && some_match(subjects, subject_has_id(id)),
        }
}

impl StoreView {
    /// What the registry keeps true of its store. Subjects are told apart by
    /// identifier and by name, schemas, bindings and settings by identifier,
    /// and no identifier is ahead of its table's counter. Every binding has
    /// its subject and its schema in the store and a version number from 1
    /// up; a subject is bound to a schema at most once, with versions that
    /// grow in the order in which they were bound. There is at most one
    /// global setting, and at most one override for a subject, which is in
    /// the store.
    pub open spec fn sound(self) -> bool {
        &&& pairwise(self.subjects, subjects_apart())
        &&& each(self.subjects, subject_below(self.next_subject_id))
        &&& pairwise(self.schemas, schemas_apart())
        &&& each(self.schemas, schema_below(self.next_schema_id))
        &&& pairwise(self.schema_versions, bindings_apart())
        &&& each(self.schema_versions, binding_below(self.next_schema_version_id))
        &&& each(self.schema_versions, anchored(self.subjects, self.schemas))
        &&& each(self.schema_versions, numbered())
        &&& pairwise(self.schema_versions, versions_apart())
        &&& self.next_config_id >= 1
        &&& pairwise(self.configs, configs_apart())
        &&& each(self.configs, config_in_place(self.subjects, self.next_config_id))
    }
}

/// The empty store is sound.
pub proof fn lemma_empty_sound()
    ensures
        StoreView::empty().sound(),
{
}

/// In a sound store the rows of the subject of a given name are those that
/// carry its identifier; a name that no subject has owns no rows.
pub proof fn lemma_rows_of_name(s: StoreView, name: Seq<char>)
    requires
        s.sound(),
    ensures
        match first_match(s.subjects, named(name)) {
            Some(k) => forall|i: int|
                0 <= i < s.schema_versions.len() ==> {
                    &&& of_subject_named(s.subjects, name)(#[trigger] s.schema_versions[i]) == (
                    s.schema_versions[i].subject_id == s.subjects[k].id)
                    &&& joined(s, name)(s.schema_versions[i]) == (s.schema_versions[i].subject_id
                        == s.subjects[k].id)
                },
            None => forall|i: int|
                0 <= i < s.schema_versions.len() ==> {
                    &&& !of_subject_named(s.subjects, name)(#[trigger] s.schema_versions[i])
                    &&& !joined(s, name)(s.schema_versions[i])
                },
        },
{
    lemma_first_match(s.subjects, named(name));
    assert forall|i: int| 0 <= i < s.schema_versions.len() implies match first_match(
        s.subjects,
        named(name),
    ) {
        Some(k) => {
            &&& of_subject_named(s.subjects, name)(#[trigger] s.schema_versions[i]) == (
            s.schema_versions[i].subject_id == s.subjects[k].id)
            &&& joined(s, name)(s.schema_versions[i]) == (s.schema_versions[i].subject_id
                == s.subjects[k].id)
        },
        None => {
            &&& !of_subject_named(s.subjects, name)(s.schema_versions[i])
            &&& !joined(s, name)(s.schema_versions[i])
        },
    } by {
        let row = s.schema_versions[i];
        assert(anchored(s.subjects, s.schemas)(row));
        if of_subject_named(s.subjects, name)(row) {
            let j = choose|j: int|
                0 <= j < s.subjects.len() && subject_is(row.subject_id, name)(
                    #[trigger] s.subjects[j],
                );
            assert(named(name)(s.subjects[j]));
            match first_match(s.subjects, named(name)) {
                Some(k) => {
                    if j < k {
                        assert(subjects_apart()(s.subjects[j], s.subjects[k]));
                    } else if k < j {
                        assert(subjects_apart()(s.subjects[k], s.subjects[j]));
                    }
                },
                None => {},
            }
        }
        match first_match(s.subjects, named(name)) {
            Some(k) => {
                if row.subject_id == s.subjects[k].id {
                    assert(subject_is(row.subject_id, name)(s.subjects[k]));
                }
            },
            None => {},
        }
    }
}

/// In a sound store a subject is bound to a schema at most once, and not at
/// all where no row binds the two.
pub proof fn lemma_binding_count(s: StoreView, name: Seq<char>, schema_id: i64)
    requires
        s.sound(),
    ensures
        binding_count(s, name, schema_id) <= 1,
        binding_count(s, name, schema_id) == 0 <==> !some_match(
            s.schema_versions,
            joined_to(s, name, schema_id),
        ),
{
    let rows = s.schema_versions;
    let wanted = joined_to(s, name, schema_id);
    lemma_rows_of_name(s, name);
    assert forall|i: int, j: int| 0 <= i < j < rows.len() implies !(wanted(#[trigger] rows[i])
        && wanted(#[trigger] rows[j])) by {
        if wanted(rows[i]) && wanted(rows[j]) {
            assert(joined(s, name)(rows[i]) && joined(s, name)(rows[j]));
            assert(versions_apart()(rows[i], rows[j]));
        }
    }
    lemma_filter_at_most_one(rows, wanted);
    lemma_filter_members(rows, wanted);
}

impl Store {
    /// Whether the subjects are told apart and behind their counter.
    fn subjects_sound(&self) -> (ok: bool)
        ensures
            ok == (pairwise(self@.subjects, subjects_apart()) && each(
                self@.subjects,
                subject_below(self.next_subject_id),
            )),
    {
        let ghost rows = self@.subjects;
        let mut j: usize = 0;
        while j < self.subjects.len()
            invariant
                j <= self.subjects.len(),
                rows == self@.subjects,
                forall|a: int, b: int|
                    0 <= a < b < j ==> subjects_apart()(#[trigger] rows[a], #[trigger] rows[b]),
                forall|a: int| 0 <= a < j ==> subject_below(self.next_subject_id)(#[trigger] rows[a]),
            decreases self.subjects.len() - j,
        {
            if self.subjects[j].id >= self.next_subject_id {
                assert(!subject_below(self.next_subject_id)(rows[j as int]));
                return false;
            }
            let mut i: usize = 0;
            while i < j
                invariant
                    i <= j < self.subjects.len(),
                    rows == self@.subjects,
                    forall|a: int|
                        0 <= a < i ==> subjects_apart()(#[trigger] rows[a], rows[j as int]),
                decreases j - i,
            {
                if self.subjects[i].id == self.subjects[j].id || self.subjects[i].name
                    == self.subjects[j].name {
                    assert(!subjects_apart()(rows[i as int], rows[j as int]));
                    return false;
                }
                i += 1;
            }
            j += 1;
        }
        true
    }

    /// Whether the schemas are told apart and behind their counter.
    fn schemas_sound(&self) -> (ok: bool)
        ensures
            ok == (pairwise(self@.schemas, schemas_apart()) && each(
                self@.schemas,
                schema_below(self.next_schema_id),
            )),
    {
        let ghost rows = self@.schemas;
        let mut j: usize = 0;
        while j < self.schemas.len()
            invariant
                j <= self.schemas.len(),
                rows == self@.schemas,
                forall|a: int, b: int|
                    0 <= a < b < j ==> schemas_apart()(#[trigger] rows[a], #[trigger] rows[b]),
                forall|a: int| 0 <= a < j ==> schema_below(self.next_schema_id)(#[trigger] rows[a]),
            decreases self.schemas.len() - j,
        {
            if self.schemas[j].id >= self.next_schema_id {
                assert(!schema_below(self.next_schema_id)(rows[j as int]));
                return false;
            }
            let mut i: usize = 0;
            while i < j
                invariant
                    i <= j < self.schemas.len(),
                    rows == self@.schemas,
                    forall|a: int| 0 <= a < i ==> schemas_apart()(#[trigger] rows[a], rows[j as int]),
                decreases j - i,
            {
                if self.schemas[i].id == self.schemas[j].id {
                    assert(!schemas_apart()(rows[i as int], rows[j as int]));
                    return false;
                }
                i += 1;
            }
            j += 1;
        }
        true
    }

    /// Whether the bindings are told apart, behind their counter, anchored
    /// and numbered, and each subject's versions grow.
    fn bindings_sound(&self) -> (ok: bool)
        ensures
            ok == {
                &&& pairwise(self@.schema_versions, bindings_apart())
                &&& each(self@.schema_versions, binding_below(self.next_schema_version_id))
                &&& each(self@.schema_versions, anchored(self@.subjects, self@.schemas))
                &&& each(self@.schema_versions, numbered())
                &&& pairwise(self@.schema_versions, versions_apart())
            },
    {
        let ghost rows = self@.schema_versions;
        let mut j: usize = 0;
        while j < self.schema_versions.len()
            invariant
                j <= self.schema_versions.len(),
                rows == self@.schema_versions,
                forall|a: int, b: int|
                    0 <= a < b < j ==> bindings_apart()(#[trigger] rows[a], #[trigger] rows[b]),
                forall|a: int, b: int|
                    0 <= a < b < j ==> versions_apart()(#[trigger] rows[a], #[trigger] rows[b]),
                forall|a: int|
                    0 <= a < j ==> binding_below(self.next_schema_version_id)(#[trigger] rows[a]),
                forall|a: int|
                    0 <= a < j ==> anchored(self@.subjects, self@.schemas)(#[trigger] rows[a]),
                forall|a: int| 0 <= a < j ==> numbered()(#[trigger] rows[a]),
            decreases self.schema_versions.len() - j,
        {
            let row = self.schema_versions[j];
            if row.id >= self.next_schema_version_id {
                assert(!binding_below(self.next_schema_version_id)(rows[j as int]));
                return false;
            }
            if !Subject::is_stored(self, row.subject_id) || !Schema::is_stored(self, row.schema_id) {
                assert(!anchored(self@.subjects, self@.schemas)(rows[j as int]));
                return false;
            }
            let number: i32 = match row.version {
                Some(v) => v,
                None => 0,
            };
            if number < 1 {
                assert(!numbered()(rows[j as int]));
                return false;
            }
            let mut i: usize = 0;
            while i < j
                invariant
                    i <= j < self.schema_versions.len(),
                    rows == self@.schema_versions,
                    row == rows[j as int],
                    row.version == Some(number),
                    forall|a: int| 0 <= a < i ==> bindings_apart()(#[trigger] rows[a], rows[j as int]),
                    forall|a: int| 0 <= a < i ==> versions_apart()(#[trigger] rows[a], rows[j as int]),
                    forall|a: int| 0 <= a < j ==> numbered()(#[trigger] rows[a]),
                decreases j - i,
            {
                let earlier = self.schema_versions[i];
                if earlier.id == row.id {
                    assert(!bindings_apart()(rows[i as int], rows[j as int]));
                    return false;
                }
                if earlier.subject_id == row.subject_id {
                    assert(numbered()(rows[i as int]));
                    let before: i32 = match earlier.version {
                        Some(v) => v,
                        None => 0,
                    };
                    if earlier.schema_id == row.schema_id || before >= number {
                        assert(!versions_apart()(rows[i as int], rows[j as int]));
                        return false;
                    }
                }
                i += 1;
            }
            j += 1;
        }
        true
    }

    /// Whether the settings are told apart and in place.
    fn configs_sound(&self) -> (ok: bool)
        ensures
            ok == {
                &&& self.next_config_id >= 1
                &&& pairwise(self@.configs, configs_apart())
                &&& each(self@.configs, config_in_place(self@.subjects, self.next_config_id))
            },
    {
        if self.next_config_id < 1 {
            return false;
        }
        let ghost rows = self@.configs;
        let mut j: usize = 0;
        while j < self.configs.len()
            invariant
                j <= self.configs.len(),
                rows == self@.configs,
                self.next_config_id >= 1,
                forall|a: int, b: int|
                    0 <= a < b < j ==> configs_apart()(#[trigger] rows[a], #[trigger] rows[b]),
                forall|a: int|
                    0 <= a < j ==> config_in_place(self@.subjects, self.next_config_id)(
                        #[trigger] rows[a],
                    ),
            decreases self.configs.len() - j,
        {
            let in_place = match self.configs[j].subject_id {
                None => self.configs[j].id == 0,
                Some(id) => 1 <= self.configs[j].id && self.configs[j].id < self.next_config_id
                    && Subject::is_stored(self, id),
            };
            if !in_place {
                assert(!config_in_place(self@.subjects, self.next_config_id)(rows[j as int]));
                return false;
            }
            let mut i: usize = 0;
            while i < j
                invariant
                    i <= j < self.configs.len(),
                    rows == self@.configs,
                    forall|a: int| 0 <= a < i ==> configs_apart()(#[trigger] rows[a], rows[j as int]),
                decreases j - i,
            {
                let same_subject = match (self.configs[i].subject_id, self.configs[j].subject_id) {
                    (Some(a), Some(b)) => a == b,
                    _ => false,
                };
                if self.configs[i].id == self.configs[j].id || same_subject {
                    assert(!configs_apart()(rows[i as int], rows[j as int]));
                    return false;
                }
                i += 1;
            }
            j += 1;
        }
        true
    }

    /// Whether the store is sound.
    pub fn is_sound(&self) -> (ok: bool)
        ensures
            ok == self@.sound(),
    {
        self.subjects_sound() && self.schemas_sound() && self.bindings_sound()
            && self.configs_sound()
    }
}

} // verus!
