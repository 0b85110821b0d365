use vstd::prelude::*;
use crate::api::compatibility::{compatibility_checked, level_verdict, SchemaCompatibility};
use crate::avro::{avro_can_read, avro_shape, comparable, digest_of, reading};
use crate::api::errors::ApiAvroErrorCode;
use crate::api::subjects::subject_version;
use crate::api::version::version_in_range;
use crate::db::models::configs::{
    compatibility_named, config_has_id, effective_level, global_inserted, global_read,
    global_written, override_written, overrides, CompatibilityLevel, ConfigCompatibility,
    ConfigView,
};
use crate::db::models::schema_versions::{
    at_version, binding_count, config_stays, fresh_version, joined, joined_to, latest_match,
    latest_version, lemma_latest_match_below, of_schema, of_subject,
    of_subject_named, off_version, resolved, schema_stays, spared, subject_deleted,
    subject_stays, version_deleted, version_inserted, version_of, version_rank,
    version_resolved, versions_listed, versions_of, NewSchemaVersion,
};
use crate::db::models::schemas::{
    evolution_allowed, fingerprinted, fresh_schema, new_schema_of, next_version, registered,
    schema_fingerprinted, schema_has_id, schema_inserted, schema_with_id, version_created,
    NewSchemaView, SchemaView,
};
use crate::db::models::subjects::{
    fresh_subject, named, subject_has_id, subject_is, subject_named, subject_removed,
    subject_upserted, SubjectView,
};
use crate::db::query::{
    both, each, first_match, lemma_filter_each, lemma_filter_members,
    lemma_filter_pairwise, lemma_filter_same, lemma_filter_twice, lemma_first_match,
    lemma_first_match_kept, lemma_first_match_push, lemma_last_match_below,
    lemma_last_match_push, lemma_some_match_push, pairwise, some_match,
};
use crate::db::soundness::{
    anchored, binding_below, bindings_apart, config_in_place, configs_apart,
    lemma_binding_count, lemma_rows_of_name, numbered, schema_below, schemas_apart,
    subject_below, subjects_apart, versions_apart,
};
use crate::db::store::StoreView;

verus! {

/// Inserting a subject, or finding it there, keeps a sound store sound.
pub proof fn lemma_subject_upserted_sound(s: StoreView, name: Seq<char>)
    requires
        s.sound(),
    ensures
        subject_upserted(s, name).0.sound(),
{
    let after = subject_upserted(s, name).0;
    if after != s {
        let subject = fresh_subject(s, name);
        lemma_first_match(s.subjects, named(name));
        assert forall|i: int, j: int| 0 <= i < j < after.subjects.len() implies subjects_apart()(
            #[trigger] after.subjects[i],
            #[trigger] after.subjects[j],
        ) by {
            if j < s.subjects.len() {
                assert(subjects_apart()(s.subjects[i], s.subjects[j]));
            } else {
                assert(subject_below(s.next_subject_id)(s.subjects[i]));
                assert(!named(name)(s.subjects[i]));
            }
        }
        assert forall|i: int| 0 <= i < after.subjects.len() implies subject_below(
            after.next_subject_id,
        )(#[trigger] after.subjects[i]) by {
            if i < s.subjects.len() {
                assert(subject_below(s.next_subject_id)(s.subjects[i]));
            }
        }
        assert forall|i: int| 0 <= i < s.schema_versions.len() implies anchored(
            after.subjects,
            after.schemas,
        )(#[trigger] s.schema_versions[i]) by {
            assert(anchored(s.subjects, s.schemas)(s.schema_versions[i]));
            lemma_some_match_push(
                s.subjects,
                subject_has_id(s.schema_versions[i].subject_id),
                subject,
            );
        }
        assert forall|i: int| 0 <= i < s.configs.len() implies config_in_place(
            after.subjects,
            after.next_config_id,
        )(#[trigger] s.configs[i]) by {
            assert(config_in_place(s.subjects, s.next_config_id)(s.configs[i]));
            if s.configs[i].subject_id.is_some() {
                lemma_some_match_push(
                    s.subjects,
                    subject_has_id(s.configs[i].subject_id.unwrap()),
                    subject,
                );
            }
        }
    }
}

/// Inserting a schema keeps a sound store sound.
pub proof fn lemma_schema_inserted_sound(s: StoreView, schema: NewSchemaView)
    requires
        s.sound(),
    ensures
        schema_inserted(s, schema).0.sound(),
{
    let after = schema_inserted(s, schema).0;
    if after != s {
        let row = fresh_schema(s, schema);
        assert forall|i: int, j: int| 0 <= i < j < after.schemas.len() implies schemas_apart()(
            #[trigger] after.schemas[i],
            #[trigger] after.schemas[j],
        ) by {
            if j < s.schemas.len() {
                assert(schemas_apart()(s.schemas[i], s.schemas[j]));
            } else {
                assert(schema_below(s.next_schema_id)(s.schemas[i]));
            }
        }
        assert forall|i: int| 0 <= i < after.schemas.len() implies schema_below(
            after.next_schema_id,
        )(#[trigger] after.schemas[i]) by {
            if i < s.schemas.len() {
                assert(schema_below(s.next_schema_id)(s.schemas[i]));
            }
        }
        assert forall|i: int| 0 <= i < s.schema_versions.len() implies anchored(
            after.subjects,
            after.schemas,
        )(#[trigger] s.schema_versions[i]) by {
            assert(anchored(s.subjects, s.schemas)(s.schema_versions[i]));
            lemma_some_match_push(s.schemas, schema_has_id(s.schema_versions[i].schema_id), row);
        }
    }
}

/// What binding a schema to a subject as its next version does to a sound
/// store, where it succeeds: the store stays sound; one binding is appended,
/// with the number after the subject's latest; a new schema is appended,
/// a known one is not; and afterwards the subject is bound to the schema
/// exactly once.
pub proof fn lemma_version_created(s: StoreView, json: Option<Seq<char>>, fingerprint: Seq<char>, name: Seq<char>, known: Option<SchemaView>)
    requires
        s.sound(),
        version_created(s, json, fingerprint, name, known).1.is_ok(),
        known matches Some(k) ==> s.schemas.contains(k) && binding_count(s, name, k.id) == 0,
    ensures
        ({
            let after = version_created(s, json, fingerprint, name, known).0;
            let schema = version_created(s, json, fingerprint, name, known).1.unwrap();
            let row = after.schema_versions.last();
            &&& after.sound()
            &&& after.schema_versions == s.schema_versions.push(row)
            &&& 1 <= next_version(latest_version(s, name)) <= i32::MAX
            &&& row.version == Some(next_version(latest_version(s, name)) as i32)
            &&& row.schema_id == schema.id
            &&& of_subject_named(after.subjects, name)(row)
            &&& forall|i: int|
                0 <= i < s.schema_versions.len() ==> of_subject_named(after.subjects, name)(
                    #[trigger] s.schema_versions[i],
                ) == of_subject_named(s.subjects, name)(s.schema_versions[i])
            &&& match known {
                None => after.schemas == s.schemas.push(schema) && schema.fingerprint2 == Some(
                    fingerprint,
                ) && Some(schema.json) == json,
                Some(k) => after.schemas == s.schemas && schema == k,
            }
            &&& after.configs == s.configs
            &&& binding_count(after, name, schema.id) == 1
        }),
{
    let latest = latest_version(s, name);
    let wanted = of_subject_named(s.subjects, name);
    let rows = s.schema_versions;
    let upserted = subject_upserted(s, name);
    let s1 = upserted.0;
    let subject = upserted.1.unwrap();
    let with_schema = match known {
        Some(k) => (s1, Ok(k)),
        None => schema_inserted(s1, new_schema_of(s1, json.unwrap(), fingerprint)),
    };
    let s2 = with_schema.0;
    let schema = with_schema.1.unwrap();
    let binding = NewSchemaVersion {
        version: Some(next_version(latest) as i32),
        subject_id: subject.id,
        schema_id: schema.id,
    };
    let after = version_inserted(s2, binding).0;
    let row = fresh_version(s2, binding);
    assert(after == version_created(s, json, fingerprint, name, known).0);
    assert(after.schema_versions == rows.push(row));
    assert(after.schema_versions.last() == row);

    lemma_first_match(s.subjects, named(name));
    lemma_rows_of_name(s, name);
    lemma_latest_match_below(rows, wanted, rows.len() as int);

    // The number of the new version.
    assert(1 <= next_version(latest) <= i32::MAX) by {
        match latest_match(rows, wanted) {
            Some(i) => {
                assert(numbered()(rows[i]));
            },
            None => {},
        }
    }

    // The subjects.
    let fresh = first_match(s.subjects, named(name)).is_none();
    assert(after.subjects == if fresh {
        s.subjects.push(subject)
    } else {
        s.subjects
    });
    assert(pairwise(after.subjects, subjects_apart())) by {
        if fresh {
            assert forall|i: int, j: int| 0 <= i < j < after.subjects.len() implies subjects_apart()(
                #[trigger] after.subjects[i],
                #[trigger] after.subjects[j],
            ) by {
                if j < s.subjects.len() {
                    assert(subjects_apart()(s.subjects[i], s.subjects[j]));
                } else {
                    assert(subject_below(s.next_subject_id)(s.subjects[i]));
                    assert(!named(name)(s.subjects[i]));
                }
            }
        }
    }
    assert(each(after.subjects, subject_below(after.next_subject_id))) by {
        assert forall|i: int| 0 <= i < after.subjects.len() implies subject_below(
            after.next_subject_id,
        )(#[trigger] after.subjects[i]) by {
            if i < s.subjects.len() {
                assert(subject_below(s.next_subject_id)(s.subjects[i]));
            }
        }
    }
    assert(some_match(after.subjects, subject_is(subject.id, name))) by {
        if fresh {
            assert(subject_is(subject.id, name)(after.subjects[s.subjects.len() as int]));
        } else {
            let k = first_match(s.subjects, named(name)).unwrap();
            assert(subject_is(subject.id, name)(after.subjects[k]));
        }
    }
    assert(some_match(after.subjects, subject_has_id(subject.id))) by {
        let k = choose|k: int|
            0 <= k < after.subjects.len() && subject_is(subject.id, name)(
                #[trigger] after.subjects[k],
            );
        assert(subject_has_id(subject.id)(after.subjects[k]));
    }

    // The schemas.
    assert(after.schemas == if known.is_none() {
        s.schemas.push(schema)
    } else {
        s.schemas
    });
    assert(pairwise(after.schemas, schemas_apart())) by {
        if known.is_none() {
            assert forall|i: int, j: int| 0 <= i < j < after.schemas.len() implies schemas_apart()(
                #[trigger] after.schemas[i],
                #[trigger] after.schemas[j],
            ) by {
                if j < s.schemas.len() {
                    assert(schemas_apart()(s.schemas[i], s.schemas[j]));
                } else {
                    assert(schema_below(s.next_schema_id)(s.schemas[i]));
                }
            }
        }
    }
    assert(each(after.schemas, schema_below(after.next_schema_id))) by {
        assert forall|i: int| 0 <= i < after.schemas.len() implies schema_below(
            after.next_schema_id,
        )(#[trigger] after.schemas[i]) by {
            if i < s.schemas.len() {
                assert(schema_below(s.next_schema_id)(s.schemas[i]));
            }
        }
    }
    assert(some_match(after.schemas, schema_has_id(schema.id))) by {
        if known.is_none() {
            assert(schema_has_id(schema.id)(after.schemas[s.schemas.len() as int]));
        } else {
            let k = choose|k: int| 0 <= k < s.schemas.len() && s.schemas[k] == schema;
            assert(schema_has_id(schema.id)(after.schemas[k]));
        }
    }

    // What the rows that were there refer to.
    assert forall|i: int| 0 <= i < rows.len() implies {
        &&& anchored(after.subjects, after.schemas)(#[trigger] rows[i])
        &&& of_subject_named(after.subjects, name)(rows[i]) == wanted(rows[i])
        &&& versions_apart()(rows[i], row)
    } by {
        let r = rows[i];
        assert(anchored(s.subjects, s.schemas)(r));
        let ks = choose|k: int|
            0 <= k < s.subjects.len() && subject_has_id(r.subject_id)(#[trigger] s.subjects[k]);
        let kc = choose|k: int|
            0 <= k < s.schemas.len() && schema_has_id(r.schema_id)(#[trigger] s.schemas[k]);
        assert(subject_has_id(r.subject_id)(after.subjects[ks]));
        assert(schema_has_id(r.schema_id)(after.schemas[kc]));
        assert(subject_below(s.next_subject_id)(s.subjects[ks]));
        assert(schema_below(s.next_schema_id)(s.schemas[kc]));
        if fresh {
            lemma_some_match_push(s.subjects, subject_is(r.subject_id, name), subject);
        }
        if r.subject_id == subject.id {
            assert(!fresh);
            assert(wanted(r));
            assert(numbered()(r));
            if known.is_some() {
                lemma_binding_count(s, name, schema.id);
                if r.schema_id == schema.id {
                    assert(joined_to(s, name, schema.id)(rows[i]));
                }
            }
        }
    }
    assert(each(after.schema_versions, anchored(after.subjects, after.schemas)));
    assert(pairwise(after.schema_versions, bindings_apart())) by {
        assert forall|i: int, j: int|
            0 <= i < j < after.schema_versions.len() implies bindings_apart()(
            #[trigger] after.schema_versions[i],
            #[trigger] after.schema_versions[j],
        ) by {
            if j < rows.len() {
                assert(bindings_apart()(rows[i], rows[j]));
            } else {
                assert(binding_below(s.next_schema_version_id)(rows[i]));
            }
        }
    }
    assert(each(after.schema_versions, binding_below(after.next_schema_version_id))) by {
        assert forall|i: int| 0 <= i < after.schema_versions.len() implies binding_below(
            after.next_schema_version_id,
        )(#[trigger] after.schema_versions[i]) by {
            if i < rows.len() {
                assert(binding_below(s.next_schema_version_id)(rows[i]));
            }
        }
    }
    assert(each(after.configs, config_in_place(after.subjects, after.next_config_id))) by {
        assert forall|i: int| 0 <= i < s.configs.len() implies config_in_place(
            after.subjects,
            after.next_config_id,
        )(#[trigger] s.configs[i]) by {
            assert(config_in_place(s.subjects, s.next_config_id)(s.configs[i]));
            if fresh && s.configs[i].subject_id.is_some() {
                lemma_some_match_push(
                    s.subjects,
                    subject_has_id(s.configs[i].subject_id.unwrap()),
                    subject,
                );
            }
        }
    }
    assert(each(after.schema_versions, numbered())) by {
        assert forall|i: int| 0 <= i < after.schema_versions.len() implies numbered()(
            #[trigger] after.schema_versions[i],
        ) by {
            if i < rows.len() {
                assert(numbered()(rows[i]));
            }
        }
    }
    assert(pairwise(after.schema_versions, versions_apart())) by {
        assert forall|i: int, j: int|
            0 <= i < j < after.schema_versions.len() implies versions_apart()(
            #[trigger] after.schema_versions[i],
            #[trigger] after.schema_versions[j],
        ) by {
            if j < rows.len() {
                assert(versions_apart()(rows[i], rows[j]));
            } else {
                assert(versions_apart()(rows[i], row));
            }
        }
    }
    assert(after.sound());

    // Afterwards the subject is bound to the schema exactly once.
    assert(binding_count(after, name, schema.id) == 1) by {
        let bound = joined_to(after, name, schema.id);
        lemma_binding_count(after, name, schema.id);
        assert(bound(after.schema_versions[rows.len() as int]));
    }
}

/// Registration keeps a sound store sound, whatever its outcome.
pub proof fn lemma_registered_sound(s: StoreView, name: Seq<char>, json: Seq<char>)
    requires
        s.sound(),
    ensures
        registered(s, name, json).0.sound(),
{
    if registered(s, name, json).0 != s {
        lemma_registered_binds(s, name, json);
    }
}

/// A registration that changes the store is a successful one that bound a
/// schema, stored or new, to the subject as its next version.
pub proof fn lemma_registered_binds(s: StoreView, name: Seq<char>, json: Seq<char>)
    requires
        s.sound(),
        registered(s, name, json).0 != s,
    ensures
        digest_of(json).is_some(),
        registered(s, name, json).1.is_ok(),
        registered(s, name, json) == version_created(
            s,
            Some(json),
            digest_of(json).unwrap(),
            name,
            schema_fingerprinted(s, digest_of(json).unwrap()),
        ),
        registered(s, name, json).0.sound(),
        schema_fingerprinted(s, digest_of(json).unwrap()) matches Some(k) ==> s.schemas.contains(k)
            && binding_count(s, name, k.id) == 0,
{
    let fingerprint = digest_of(json).unwrap();
    lemma_last_match_below(s.schemas, fingerprinted(fingerprint), s.schemas.len() as int);
    match schema_fingerprinted(s, fingerprint) {
        Some(known) => {
            lemma_version_created(s, Some(json), fingerprint, name, Some(known));
        },
        None => {
            lemma_version_created(s, Some(json), fingerprint, name, None);
        },
    }
}

/// After a successful registration the schema that it returned is the one
/// stored under the text's fingerprint, and the subject is bound to it
/// exactly once.
pub proof fn lemma_registered_stored(s: StoreView, name: Seq<char>, json: Seq<char>)
    requires
        s.sound(),
        registered(s, name, json).1.is_ok(),
    ensures
        schema_fingerprinted(registered(s, name, json).0, digest_of(json).unwrap()) == Some(
            registered(s, name, json).1.unwrap(),
        ),
        binding_count(
            registered(s, name, json).0,
            name,
            registered(s, name, json).1.unwrap().id,
        ) == 1,
{
    let fingerprint = digest_of(json).unwrap();
    let after = registered(s, name, json).0;
    let schema = registered(s, name, json).1.unwrap();
    if after != s {
        lemma_registered_binds(s, name, json);
        match schema_fingerprinted(s, fingerprint) {
            Some(known) => {
                lemma_version_created(s, Some(json), fingerprint, name, Some(known));
            },
            None => {
                lemma_version_created(s, Some(json), fingerprint, name, None);
                lemma_last_match_push(s.schemas, fingerprinted(fingerprint), schema);
            },
        }
    } else {
        match schema_fingerprinted(s, fingerprint) {
            Some(known) => {
                lemma_binding_count(s, name, known.id);
                if binding_count(s, name, known.id) == 0 {
                    lemma_last_match_below(
                        s.schemas,
                        fingerprinted(fingerprint),
                        s.schemas.len() as int,
                    );
                    lemma_version_created(s, Some(json), fingerprint, name, Some(known));
                }
            },
            None => {
                lemma_version_created(s, Some(json), fingerprint, name, None);
            },
        }
    }
}

/// Registering the same text under the same subject a second time returns
/// the same schema and changes nothing: no second binding is made.
pub proof fn lemma_registration_idempotent(s: StoreView, name: Seq<char>, json: Seq<char>)
    requires
        s.sound(),
        registered(s, name, json).1.is_ok(),
    ensures
        registered(registered(s, name, json).0, name, json) == (
            registered(s, name, json).0,
            registered(s, name, json).1,
        ),
{
    lemma_registered_stored(s, name, json);
}

/// Registering a text that the store does not hold yet under two different
/// subjects stores one schema, which both registrations return, and makes
/// two bindings.
pub proof fn lemma_registration_dedup(s: StoreView, first: Seq<char>, second: Seq<char>, json: Seq<char>)
    requires
        s.sound(),
        first != second,
        digest_of(json) matches Some(fingerprint) && schema_fingerprinted(
            s,
            fingerprint,
        ).is_none(),
        registered(s, first, json).1.is_ok(),
        registered(registered(s, first, json).0, second, json).1.is_ok(),
    ensures
        ({
            let once = registered(s, first, json);
            let twice = registered(once.0, second, json);
            &&& twice.1 == once.1
            &&& twice.0.schemas == s.schemas.push(once.1.unwrap())
            &&& twice.0.schema_versions.len() == s.schema_versions.len() + 2
        }),
{
    let fingerprint = digest_of(json).unwrap();
    let once = registered(s, first, json);
    let s1 = once.0;
    let schema = once.1.unwrap();
    lemma_version_created(s, Some(json), fingerprint, first, None);
    lemma_registered_stored(s, first, json);
    let row = s1.schema_versions.last();
    // The second subject is not bound to the schema yet.
    assert(!some_match(s1.schema_versions, joined_to(s1, second, schema.id))) by {
        if some_match(s1.schema_versions, joined_to(s1, second, schema.id)) {
            let i = choose|i: int|
                0 <= i < s1.schema_versions.len() && joined_to(s1, second, schema.id)(
                    #[trigger] s1.schema_versions[i],
                );
            let r = s1.schema_versions[i];
            if i < s.schema_versions.len() {
                assert(r == s.schema_versions[i]);
                assert(anchored(s.subjects, s.schemas)(s.schema_versions[i]));
                let k = choose|k: int|
                    0 <= k < s.schemas.len() && schema_has_id(r.schema_id)(#[trigger] s.schemas[k]);
                assert(schema_below(s.next_schema_id)(s.schemas[k]));
            } else {
                assert(r == row);
                let a = choose|a: int|
                    0 <= a < s1.subjects.len() && subject_is(r.subject_id, first)(
                        #[trigger] s1.subjects[a],
                    );
                let b = choose|b: int|
                    0 <= b < s1.subjects.len() && subject_is(r.subject_id, second)(
                        #[trigger] s1.subjects[b],
                    );
                if a < b {
                    assert(subjects_apart()(s1.subjects[a], s1.subjects[b]));
                } else if b < a {
                    assert(subjects_apart()(s1.subjects[b], s1.subjects[a]));
                }
            }
        }
    }
    lemma_binding_count(s1, second, schema.id);
    lemma_last_match_below(s1.schemas, fingerprinted(fingerprint), s1.schemas.len() as int);
    lemma_version_created(s1, Some(json), fingerprint, second, Some(schema));
}

/// The versions are those from 1 up, in order and without a gap.
pub open spec fn counted_from_one(versions: Seq<Option<i32>>) -> bool {
    forall|i: int|
        0 <= i < versions.len() ==> ((#[trigger] versions[i]) matches Some(v) && v == i + 1)
}

/// A registration that binds a schema gives the subject one more version:
/// the number after its latest, or 1 where it had none. So a subject whose
/// versions were 1, 2, 3 and on, in order and without a gap, has such
/// versions afterwards.
pub proof fn lemma_versions_follow(s: StoreView, name: Seq<char>, json: Seq<char>)
    requires
        s.sound(),
        registered(s, name, json).0 != s,
    ensures
        1 <= next_version(latest_version(s, name)) <= i32::MAX,
        versions_of(registered(s, name, json).0, name) == versions_of(s, name).push(
            Some(next_version(latest_version(s, name)) as i32),
        ),
        counted_from_one(versions_of(s, name)) ==> counted_from_one(
            versions_of(registered(s, name, json).0, name),
        ),
{
    let fingerprint = digest_of(json).unwrap();
    let after = registered(s, name, json).0;
    let rows = s.schema_versions;
    let wanted = of_subject_named(s.subjects, name);
    let wanted_after = of_subject_named(after.subjects, name);
    let row = after.schema_versions.last();
    lemma_registered_binds(s, name, json);
    match schema_fingerprinted(s, fingerprint) {
        Some(known) => {
            lemma_version_created(s, Some(json), fingerprint, name, Some(known));
        },
        None => {
            lemma_version_created(s, Some(json), fingerprint, name, None);
        },
    }
    assert(after.schema_versions == rows.push(row));
    rows.lemma_filter_push(row, wanted_after);
    lemma_filter_same(rows, wanted_after, wanted);
    rows.filter(wanted).lemma_push_map_commute(version_of(), row);
    let before = versions_of(s, name);
    assert(versions_of(after, name) == before.push(row.version));

    if counted_from_one(before) {
        let kept = rows.filter(wanted);
        lemma_filter_members(rows, wanted);
        lemma_latest_match_below(rows, wanted, rows.len() as int);
        if before.len() == 0 {
            assert(latest_match(rows, wanted).is_none()) by {
                if latest_match(rows, wanted).is_some() {
                    let i = latest_match(rows, wanted).unwrap();
                    assert(wanted(rows[i]));
                    assert(some_match(rows, wanted));
                }
            }
        } else {
            let n = before.len() as int;
            assert(kept.len() == n);
            let top = kept[n - 1];
            assert(before[n - 1] matches Some(v) && v == n);
            assert(top.version == before[n - 1]);
            assert(wanted(top) && rows.contains(top));
            let j = choose|j: int| 0 <= j < rows.len() && rows[j] == top;
            assert(wanted(rows[j]));
            let i = latest_match(rows, wanted).unwrap();
            assert(version_rank(rows[j].version) <= version_rank(rows[i].version));
            assert(kept.contains(rows[i]));
            let k = choose|k: int| 0 <= k < kept.len() && kept[k] == rows[i];
            assert(before[k] matches Some(v) && v == k + 1);
            assert(before[k] == kept[k].version);
            assert(version_rank(latest_version(s, name)) == n);
            assert(numbered()(rows[i]));
        }
        let extended = versions_of(after, name);
        assert forall|i: int| 0 <= i < extended.len() implies ((
        #[trigger] extended[i]) matches Some(v) && v == i + 1) by {
            if i < before.len() {
                assert(extended[i] == before[i]);
            }
        }
    }
}

/// Deleting a subject keeps a sound store sound. Where the subject has
/// versions, as many version numbers are returned as it had bindings, no
/// binding of it is left, and no subject has the name any more. Where it has
/// none, the subject counts as not found and nothing changes.
pub proof fn lemma_subject_removed(s: StoreView, name: Seq<char>)
    requires
        s.sound(),
    ensures
        subject_removed(s, name).0.sound(),
        match subject_removed(s, name).1 {
            Ok(versions) => {
                &&& versions.len() > 0
                &&& versions.len() == s.schema_versions.filter(
                    of_subject_named(s.subjects, name),
                ).len()
                &&& forall|i: int|
                    0 <= i < subject_removed(s, name).0.schema_versions.len()
                        ==> !of_subject_named(s.subjects, name)(
                        #[trigger] subject_removed(s, name).0.schema_versions[i],
                    )
                &&& subject_named(subject_removed(s, name).0, name) == Err::<
                    SubjectView,
                    ApiAvroErrorCode,
                >(ApiAvroErrorCode::SubjectNotFound)
            },
            Err(code) => {
                &&& code == ApiAvroErrorCode::SubjectNotFound
                &&& subject_removed(s, name).0 == s
                &&& s.schema_versions.filter(of_subject_named(s.subjects, name)).len() == 0
            },
        },
{
    let rows = s.schema_versions;
    let gone = rows.filter(joined(s, name));
    let kept = rows.filter(spared(s, name));
    let after = subject_removed(s, name).0;
    lemma_rows_of_name(s, name);
    lemma_first_match(s.subjects, named(name));
    lemma_filter_same(rows, joined(s, name), of_subject_named(s.subjects, name));
    lemma_filter_members(rows, joined(s, name));
    lemma_filter_members(rows, spared(s, name));
    if gone.len() > 0 {
        assert(after == subject_deleted(s, name).0);
        assert(first_match(s.subjects, named(name)).is_some()) by {
            assert(joined(s, name)(gone[0]) && rows.contains(gone[0]));
            let i = choose|i: int| 0 <= i < rows.len() && rows[i] == gone[0];
            assert(joined(s, name)(rows[i]));
        }
        let k = first_match(s.subjects, named(name)).unwrap();
        let id = s.subjects[k].id;
        // No binding of the subject is left.
        assert forall|i: int| 0 <= i < kept.len() implies {
            &&& rows.contains(#[trigger] kept[i])
            &&& kept[i].subject_id != id
            &&& !of_subject_named(s.subjects, name)(kept[i])
        } by {
            assert(spared(s, name)(kept[i]) && rows.contains(kept[i]));
            let j = choose|j: int| 0 <= j < rows.len() && rows[j] == kept[i];
            assert(!joined(s, name)(rows[j]));
        }
        // The rows that went are the subject's.
        assert forall|i: int| 0 <= i < gone.len() implies (#[trigger] gone[i]).subject_id == id by {
            assert(joined(s, name)(gone[i]) && rows.contains(gone[i]));
            let j = choose|j: int| 0 <= j < rows.len() && rows[j] == gone[i];
            assert(joined(s, name)(rows[j]));
        }
        assert(some_match(gone, of_subject(id))) by {
            assert(of_subject(id)(gone[0]));
        }
        // The tables that were filtered keep what held of them.
        lemma_filter_pairwise(s.subjects, subject_stays(gone), subjects_apart());
        lemma_filter_each(s.subjects, subject_stays(gone), subject_below(s.next_subject_id));
        lemma_filter_pairwise(s.schemas, schema_stays(gone, kept), schemas_apart());
        lemma_filter_each(s.schemas, schema_stays(gone, kept), schema_below(s.next_schema_id));
        lemma_filter_pairwise(rows, spared(s, name), versions_apart());
        lemma_filter_pairwise(rows, spared(s, name), bindings_apart());
        lemma_filter_each(rows, spared(s, name), binding_below(s.next_schema_version_id));
        lemma_filter_each(rows, spared(s, name), numbered());
        lemma_filter_pairwise(s.configs, config_stays(gone), configs_apart());
        lemma_filter_members(s.configs, config_stays(gone));
        // The overrides that stay have their subject.
        assert forall|i: int| 0 <= i < after.configs.len() implies config_in_place(
            after.subjects,
            after.next_config_id,
        )(#[trigger] after.configs[i]) by {
            let c = after.configs[i];
            assert(config_stays(gone)(c) && s.configs.contains(c));
            let j = choose|j: int| 0 <= j < s.configs.len() && s.configs[j] == c;
            assert(config_in_place(s.subjects, s.next_config_id)(s.configs[j]));
            if c.subject_id.is_some() {
                let a = choose|a: int|
                    0 <= a < s.subjects.len() && subject_has_id(c.subject_id.unwrap())(
                        #[trigger] s.subjects[a],
                    );
                assert(subject_stays(gone)(s.subjects[a]));
                lemma_filter_members(s.subjects, subject_stays(gone));
                assert(after.subjects.contains(s.subjects[a]));
                let a2 = choose|a2: int|
                    0 <= a2 < after.subjects.len() && after.subjects[a2] == s.subjects[a];
                assert(subject_has_id(c.subject_id.unwrap())(after.subjects[a2]));
            }
        }
        lemma_filter_members(s.subjects, subject_stays(gone));
        lemma_filter_members(s.schemas, schema_stays(gone, kept));
        // The rows that stay have their subject and their schema.
        assert forall|i: int| 0 <= i < kept.len() implies anchored(after.subjects, after.schemas)(
            #[trigger] kept[i],
        ) by {
            let r = kept[i];
            assert(rows.contains(kept[i]));
            let j = choose|j: int| 0 <= j < rows.len() && rows[j] == r;
            assert(anchored(s.subjects, s.schemas)(rows[j]));
            let a = choose|a: int|
                0 <= a < s.subjects.len() && subject_has_id(r.subject_id)(#[trigger] s.subjects[a]);
            let c = choose|c: int|
                0 <= c < s.schemas.len() && schema_has_id(r.schema_id)(#[trigger] s.schemas[c]);
            assert(subject_stays(gone)(s.subjects[a])) by {
                if some_match(gone, of_subject(s.subjects[a].id)) {
                    let g = choose|g: int|
                        0 <= g < gone.len() && of_subject(s.subjects[a].id)(#[trigger] gone[g]);
                    assert(gone[g].subject_id == id);
                }
            }
            assert(schema_stays(gone, kept)(s.schemas[c])) by {
                assert(of_schema(s.schemas[c].id)(kept[i]));
            }
            assert(after.subjects.contains(s.subjects[a]));
            assert(after.schemas.contains(s.schemas[c]));
            let a2 = choose|a2: int|
                0 <= a2 < after.subjects.len() && after.subjects[a2] == s.subjects[a];
            let c2 = choose|c2: int|
                0 <= c2 < after.schemas.len() && after.schemas[c2] == s.schemas[c];
            assert(subject_has_id(r.subject_id)(after.subjects[a2]));
            assert(schema_has_id(r.schema_id)(after.schemas[c2]));
        }
        assert(after.sound());
        // No subject has the name any more.
        lemma_first_match(after.subjects, named(name));
        if first_match(after.subjects, named(name)).is_some() {
            let b = first_match(after.subjects, named(name)).unwrap();
            assert(subject_stays(gone)(after.subjects[b]) && s.subjects.contains(after.subjects[b]));
            let a = choose|a: int| 0 <= a < s.subjects.len() && s.subjects[a] == after.subjects[b];
            assert(named(name)(s.subjects[a]));
            if a < k {
                assert(subjects_apart()(s.subjects[a], s.subjects[k]));
            } else if k < a {
                assert(subjects_apart()(s.subjects[k], s.subjects[a]));
            }
        }
    }
}

/// Deleting a version keeps a sound store sound. Where it succeeds, the
/// subject no longer has the version, and no other table is touched.
pub proof fn lemma_version_deleted(s: StoreView, name: Seq<char>, version: u32)
    requires
        s.sound(),
    ensures
        version_deleted(s, name, version).0.sound(),
        version_deleted(s, name, version).1.is_ok() ==> {
            &&& version_resolved(version_deleted(s, name, version).0, name, version) == Err::<
                (i64, i32, Seq<char>),
                ApiAvroErrorCode,
            >(ApiAvroErrorCode::VersionNotFound)
            &&& version_deleted(s, name, version).0 == (StoreView {
                schema_versions: version_deleted(s, name, version).0.schema_versions,
                ..s
            })
        },
{
    let after = version_deleted(s, name, version).0;
    if version_deleted(s, name, version).1.is_ok() {
        let subject = subject_named(s, name).unwrap();
        let stays = off_version(subject.id, version as i32);
        let rows = s.schema_versions;
        lemma_filter_pairwise(rows, stays, versions_apart());
        lemma_filter_pairwise(rows, stays, bindings_apart());
        lemma_filter_each(rows, stays, binding_below(s.next_schema_version_id));
        lemma_filter_each(rows, stays, numbered());
        lemma_filter_each(rows, stays, anchored(s.subjects, s.schemas));
        lemma_filter_members(rows, stays);
        lemma_first_match(after.schema_versions, at_version(subject.id, version as i32));
    }
}

/// Two subjects of a sound store that differ in name differ in identifier.
proof fn lemma_names_apart(s: StoreView, one: Seq<char>, other: Seq<char>)
    requires
        s.sound(),
        one != other,
        subject_named(s, one).is_ok(),
        subject_named(s, other).is_ok(),
    ensures
        subject_named(s, one).unwrap().id != subject_named(s, other).unwrap().id,
{
    lemma_first_match(s.subjects, named(one));
    lemma_first_match(s.subjects, named(other));
    let a = first_match(s.subjects, named(one)).unwrap();
    let b = first_match(s.subjects, named(other)).unwrap();
    if a < b {
        assert(subjects_apart()(s.subjects[a], s.subjects[b]));
    } else if b < a {
        assert(subjects_apart()(s.subjects[b], s.subjects[a]));
    }
}

/// Deleting a version of a subject leaves every other version, of this
/// subject and of the others, resolving as it did before.
pub proof fn lemma_version_deleted_confined(s: StoreView, name: Seq<char>, version: u32, other_name: Seq<char>, other_version: u32)
    requires
        s.sound(),
        version_deleted(s, name, version).1.is_ok(),
        other_name != name || other_version != version,
    ensures
        version_resolved(version_deleted(s, name, version).0, other_name, other_version)
            == version_resolved(s, other_name, other_version),
{
    let after = version_deleted(s, name, version).0;
    if version_in_range(other_version as int) && subject_named(s, other_name).is_ok() {
        let subject = subject_named(s, name).unwrap();
        let other = subject_named(s, other_name).unwrap();
        let stays = off_version(subject.id, version as i32);
        let wanted = at_version(other.id, other_version as i32);
        if other_name != name {
            lemma_names_apart(s, name, other_name);
        }
        lemma_first_match_kept(s.schema_versions, stays, wanted);
        lemma_first_match(s.schema_versions, wanted);
    }
}

/// Deleting a subject leaves the versions of every other subject as they
/// were: each resolves as before, and they are listed as before.
pub proof fn lemma_subject_removed_confined(s: StoreView, name: Seq<char>, other: Seq<char>, version: u32)
    requires
        s.sound(),
        other != name,
    ensures
        version_resolved(subject_removed(s, name).0, other, version) == version_resolved(
            s,
            other,
            version,
        ),
        versions_listed(subject_removed(s, name).0, other) == versions_listed(s, other),
{
    let after = subject_removed(s, name).0;
    if after != s {
        let rows = s.schema_versions;
        let gone = rows.filter(joined(s, name));
        let kept = rows.filter(spared(s, name));
        lemma_subject_removed(s, name);
        lemma_rows_of_name(s, name);
        lemma_first_match(s.subjects, named(name));
        lemma_filter_members(rows, joined(s, name));
        lemma_filter_members(rows, spared(s, name));
        lemma_filter_members(s.subjects, subject_stays(gone));
        assert(first_match(s.subjects, named(name)).is_some()) by {
            assert(joined(s, name)(gone[0]) && rows.contains(gone[0]));
            let i = choose|i: int| 0 <= i < rows.len() && rows[i] == gone[0];
            assert(joined(s, name)(rows[i]));
        }
        let id = subject_named(s, name).unwrap().id;
        // The rows that went are the subject's, so a subject of another name stays.
        assert forall|g: int| 0 <= g < gone.len() implies (#[trigger] gone[g]).subject_id == id by {
            assert(joined(s, name)(gone[g]) && rows.contains(gone[g]));
            let j = choose|j: int| 0 <= j < rows.len() && rows[j] == gone[g];
            assert(joined(s, name)(rows[j]));
        }
        assert forall|i: int|
            0 <= i < s.subjects.len() && named(other)(#[trigger] s.subjects[i]) implies subject_stays(
            gone,
        )(s.subjects[i]) by {
            let k = first_match(s.subjects, named(name)).unwrap();
            if i < k {
                assert(subjects_apart()(s.subjects[i], s.subjects[k]));
            } else if k < i {
                assert(subjects_apart()(s.subjects[k], s.subjects[i]));
            }
            if some_match(gone, of_subject(s.subjects[i].id)) {
                let g = choose|g: int|
                    0 <= g < gone.len() && of_subject(s.subjects[i].id)(#[trigger] gone[g]);
                assert(gone[g].subject_id == id);
            }
        }
        lemma_first_match_kept(s.subjects, subject_stays(gone), named(other));
        assert(subject_named(after, other) == subject_named(s, other));

        // The other subject's rows are listed as before.
        let listed = of_subject_named(s.subjects, other);
        let listed_after = of_subject_named(after.subjects, other);
        assert forall|i: int| 0 <= i < rows.len() implies both(spared(s, name), listed_after)(
            #[trigger] rows[i],
        ) == listed(rows[i]) by {
            let r = rows[i];
            if listed(r) {
                let a = choose|a: int|
                    0 <= a < s.subjects.len() && subject_is(r.subject_id, other)(
                        #[trigger] s.subjects[a],
                    );
                assert(named(other)(s.subjects[a]));
                assert(subject_stays(gone)(s.subjects[a]));
                assert(after.subjects.contains(s.subjects[a]));
                let b = choose|b: int|
                    0 <= b < after.subjects.len() && after.subjects[b] == s.subjects[a];
                assert(subject_is(r.subject_id, other)(after.subjects[b]));
                let k = first_match(s.subjects, named(name)).unwrap();
                if a < k {
                    assert(subjects_apart()(s.subjects[a], s.subjects[k]));
                } else if k < a {
                    assert(subjects_apart()(s.subjects[k], s.subjects[a]));
                }
            }
            if listed_after(r) {
                let b = choose|b: int|
                    0 <= b < after.subjects.len() && subject_is(r.subject_id, other)(
                        #[trigger] after.subjects[b],
                    );
                assert(s.subjects.contains(after.subjects[b]));
                let a = choose|a: int| 0 <= a < s.subjects.len() && s.subjects[a] == after.subjects[b];
                assert(subject_is(r.subject_id, other)(s.subjects[a]));
            }
        }
        lemma_filter_twice(rows, spared(s, name), listed_after);
        lemma_filter_same(rows, both(spared(s, name), listed_after), listed);
        assert(versions_of(after, other) == versions_of(s, other));

        // Each of its versions resolves as before.
        if version_in_range(version as int) && subject_named(s, other).is_ok() {
            let subject = subject_named(s, other).unwrap();
            let wanted = at_version(subject.id, version as i32);
            lemma_names_apart(s, name, other);
            lemma_first_match_kept(rows, spared(s, name), wanted);
            lemma_first_match(rows, wanted);
            if first_match(rows, wanted).is_some() {
                let r = rows[first_match(rows, wanted).unwrap()];
                assert(spared(s, name)(r));
                assert(kept.contains(r));
                let k = choose|k: int| 0 <= k < kept.len() && kept[k] == r;
                assert(of_schema(r.schema_id)(kept[k]));
                assert forall|c: int|
                    0 <= c < s.schemas.len() && schema_has_id(r.schema_id)(
                        #[trigger] s.schemas[c],
                    ) implies schema_stays(gone, kept)(s.schemas[c]) by {
                    assert(some_match(kept, of_schema(s.schemas[c].id)));
                }
                lemma_first_match_kept(
                    s.schemas,
                    schema_stays(gone, kept),
                    schema_has_id(r.schema_id),
                );
                assert(resolved(after, r) == resolved(s, r));
            }
        }
    }
}

/// Reading and writing compatibility settings touches no subject, schema or
/// binding, and keeps a sound store sound.
pub proof fn lemma_settings_sound(s: StoreView, name: Seq<char>, level: Seq<char>)
    requires
        s.sound(),
    ensures
        global_read(s).0.sound(),
        global_inserted(s, level).0.sound(),
        global_written(s, level).0.sound(),
        override_written(s, name, level).0.sound(),
        global_read(s).0 == (StoreView { configs: global_read(s).0.configs, ..s }),
        global_written(s, level).0 == (StoreView {
            configs: global_written(s, level).0.configs,
            ..s
        }),
        override_written(s, name, level).0 == (StoreView {
            configs: override_written(s, name, level).0.configs,
            next_config_id: override_written(s, name, level).0.next_config_id,
            ..s
        }),
{
    lemma_first_match(s.configs, config_has_id(0));
    lemma_first_match(s.subjects, named(name));
    lemma_configs_sound(s, global_read(s).0.configs, s.next_config_id);
    lemma_configs_sound(s, global_inserted(s, level).0.configs, s.next_config_id);
    lemma_configs_sound(s, global_written(s, level).0.configs, s.next_config_id);
    if override_written(s, name, level).0 != s {
        let subject = subject_named(s, name).unwrap();
        lemma_first_match(s.configs, overrides(subject.id));
        assert(subject_has_id(subject.id)(s.subjects[first_match(s.subjects, named(name)).unwrap()]));
        lemma_configs_sound(
            s,
            override_written(s, name, level).0.configs,
            override_written(s, name, level).0.next_config_id,
        );
    }
}

/// The settings of a sound store stay in order where one of them gets
/// another level, or where one is appended that the others leave room for.
proof fn lemma_configs_sound(s: StoreView, configs: Seq<ConfigView>, next: i64)
    requires
        s.sound(),
        next >= s.next_config_id,
        configs.len() == s.configs.len() || configs.len() == s.configs.len() + 1,
        forall|i: int|
            0 <= i < s.configs.len() ==> (#[trigger] configs[i]).id == s.configs[i].id
                && configs[i].subject_id == s.configs[i].subject_id,
        configs.len() == s.configs.len() + 1 ==> {
            &&& config_in_place(s.subjects, next)(configs.last())
            &&& forall|i: int| 0 <= i < s.configs.len() ==> configs_apart()(
                #[trigger] s.configs[i],
                configs.last(),
            )
        },
    ensures
        (StoreView { configs, next_config_id: next, ..s }).sound(),
{
    assert forall|i: int, j: int| 0 <= i < j < configs.len() implies configs_apart()(
        #[trigger] configs[i],
        #[trigger] configs[j],
    ) by {
        if j < s.configs.len() {
            assert(configs_apart()(s.configs[i], s.configs[j]));
        } else {
            assert(configs_apart()(s.configs[i], configs.last()));
        }
    }
    assert forall|i: int| 0 <= i < configs.len() implies config_in_place(s.subjects, next)(
        #[trigger] configs[i],
    ) by {
        if i < s.configs.len() {
            assert(config_in_place(s.subjects, s.next_config_id)(s.configs[i]));
        }
    }
}

/// Reading the global level a second time returns what the first read
/// returned and changes nothing; and a store without a global row reads as
/// the default level, `BACKWARD`.
pub proof fn lemma_global_read_settles(s: StoreView)
    ensures
        global_read(global_read(s).0) == (global_read(s).0, global_read(s).1),
        first_match(s.configs, config_has_id(0)).is_none() ==> global_read(s).1 == Ok::<
            Seq<char>,
            ApiAvroErrorCode,
        >(CompatibilityLevel::Backward.text()),
        compatibility_named(CompatibilityLevel::Backward.text()) == Ok::<
            ConfigCompatibility,
            ApiAvroErrorCode,
        >(ConfigCompatibility { compatibility: CompatibilityLevel::Backward }),
{
    CompatibilityLevel::Backward.lemma_round_trip();
    if first_match(s.configs, config_has_id(0)).is_none() {
        let row = global_read(s).0.configs.last();
        lemma_first_match_push(s.configs, config_has_id(0), row);
    }
}

/// A version outside `1 ..= 2^31 - 1` is refused as invalid, and the store is
/// not touched; a version inside is never refused as invalid.
pub proof fn lemma_version_bounds(s: StoreView, name: Seq<char>, version: u32)
    ensures
        version_in_range(version as int) <==> 1 <= version <= 2147483647,
        !version_in_range(version as int) ==> {
            &&& subject_version(s, name, Some(version)) is Err
            &&& subject_version(s, name, Some(version))->Err_0 == ApiAvroErrorCode::InvalidVersion
            &&& version_deleted(s, name, version) == (
                s,
                Err::<u32, ApiAvroErrorCode>(ApiAvroErrorCode::InvalidVersion),
            )
        },
        version_in_range(version as int) ==> {
            &&& subject_version(s, name, Some(version)) != Err::<
                crate::db::models::subjects::GetSubjectVersionResponseView,
                ApiAvroErrorCode,
            >(ApiAvroErrorCode::InvalidVersion)
            &&& version_deleted(s, name, version).1 != Err::<u32, ApiAvroErrorCode>(
                ApiAvroErrorCode::InvalidVersion,
            )
        },
{
}

/// A registration that gives a subject with versions one more version was
/// allowed by the level in force for the subject. So one that the level
/// refuses changes nothing.
pub proof fn lemma_registration_checked(s: StoreView, name: Seq<char>, json: Seq<char>)
    requires
        registered(s, name, json).0 != s,
        latest_version(s, name).is_some(),
    ensures
        evolution_allowed(s, name, json).is_ok(),
{
}

/// How the levels judge one pair of schemas. `Full` judges a pair the same
/// whichever of the two is the old one, and accepts exactly where `Backward`
/// and `Forward` both accept. `Backward` on a pair is `Forward` on the pair
/// turned round. `NONE` accepts every pair. On one pair a transitive level
/// judges as its plain level does.
pub proof fn lemma_directions(old: Seq<char>, new: Seq<char>)
    ensures
        level_verdict(CompatibilityLevel::Full, old, new) == level_verdict(
            CompatibilityLevel::Full,
            new,
            old,
        ),
        level_verdict(CompatibilityLevel::Backward, old, new) == level_verdict(
            CompatibilityLevel::Forward,
            new,
            old,
        ),
        level_verdict(CompatibilityLevel::Full, old, new) == Ok::<bool, ApiAvroErrorCode>(true)
            <==> level_verdict(CompatibilityLevel::Backward, old, new) == Ok::<
            bool,
            ApiAvroErrorCode,
        >(true) && level_verdict(CompatibilityLevel::Forward, old, new) == Ok::<
            bool,
            ApiAvroErrorCode,
        >(true),
        level_verdict(CompatibilityLevel::CompatNone, old, new) == Ok::<bool, ApiAvroErrorCode>(
            true,
        ),
        level_verdict(CompatibilityLevel::BackwardTransitive, old, new) == level_verdict(
            CompatibilityLevel::Backward,
            old,
            new,
        ),
        level_verdict(CompatibilityLevel::ForwardTransitive, old, new) == level_verdict(
            CompatibilityLevel::Forward,
            old,
            new,
        ),
        level_verdict(CompatibilityLevel::FullTransitive, old, new) == level_verdict(
            CompatibilityLevel::Full,
            old,
            new,
        ),
{
}

/// The store has room for one more registration under the subject: none of
/// the counters that it may draw on is used up, and the subject's latest
/// version is not the last number there is.
pub open spec fn has_room(s: StoreView, name: Seq<char>) -> bool {
    &&& s.next_subject_id < i64::MAX
    &&& s.next_schema_id < i64::MAX
    &&& s.next_schema_version_id < i64::MAX
    &&& latest_version(s, name) != Some(i32::MAX)
}

/// The subject is not bound yet to the schema that the text stands for.
pub open spec fn unbound(s: StoreView, name: Seq<char>, json: Seq<char>) -> bool {
    match schema_fingerprinted(s, digest_of(json).unwrap()) {
        Some(known) => binding_count(s, name, known.id) == 0,
        None => true,
    }
}

/// A registration succeeds where the text is a schema, the store has room,
/// and the level in force allows the schema to follow the versions that the
/// subject has.
pub proof fn lemma_registration_succeeds(s: StoreView, name: Seq<char>, json: Seq<char>)
    requires
        digest_of(json).is_some(),
        has_room(s, name),
        latest_version(s, name).is_some() ==> evolution_allowed(s, name, json).is_ok(),
    ensures
        registered(s, name, json).1.is_ok(),
{
}

/// A registration of a schema that the subject is not bound to yet, which
/// the level in force does not allow to follow the subject's versions, is
/// refused with what the level gave, and the store stays as it was.
pub proof fn lemma_registration_refused(s: StoreView, name: Seq<char>, json: Seq<char>)
    requires
        digest_of(json).is_some(),
        unbound(s, name, json),
        latest_version(s, name).is_some(),
        evolution_allowed(s, name, json).is_err(),
    ensures
        registered(s, name, json) == (
            s,
            Err::<SchemaView, ApiAvroErrorCode>(
                evolution_allowed(s, name, json).unwrap_err(),
            ),
        ),
{
}

/// Under `FULL` a schema may follow a subject's versions exactly where it
/// reads what the latest one wrote and the latest one reads what it writes;
/// otherwise it is an invalid schema.
pub proof fn lemma_full_level(s: StoreView, name: Seq<char>, text: Seq<char>)
    requires
        effective_level(s, name) == Ok::<Seq<char>, ApiAvroErrorCode>(
            CompatibilityLevel::Full.text(),
        ),
        latest_match(s.schema_versions, of_subject_named(s.subjects, name)).is_some(),
        schema_with_id(
            s,
            s.schema_versions[latest_match(
                s.schema_versions,
                of_subject_named(s.subjects, name),
            ).unwrap()].schema_id,
        ).is_ok(),
    ensures
        ({
            let latest = schema_with_id(
                s,
                s.schema_versions[latest_match(
                    s.schema_versions,
                    of_subject_named(s.subjects, name),
                ).unwrap()].schema_id,
            ).unwrap().json;
            evolution_allowed(s, name, text) == if reading(latest, text) == Some(true) && reading(
                text,
                latest,
            ) == Some(true) {
                Ok::<(), ApiAvroErrorCode>(())
            } else {
                Err(ApiAvroErrorCode::InvalidAvroSchema)
            }
        }),
{
    CompatibilityLevel::Full.lemma_round_trip();
}

/// Registering under a second subject, which has no versions, a text that
/// was registered under a first one returns the same schema and stores no
/// schema, where the store has room.
pub proof fn lemma_second_subject_shares(s: StoreView, first: Seq<char>, second: Seq<char>, json: Seq<char>)
    requires
        s.sound(),
        first != second,
        registered(s, first, json).1.is_ok(),
        latest_version(registered(s, first, json).0, second).is_none(),
        has_room(registered(s, first, json).0, second),
    ensures
        ({
            let once = registered(s, first, json);
            let twice = registered(once.0, second, json);
            &&& twice.1 == once.1
            &&& twice.0.schemas == once.0.schemas
            &&& twice.0.sound()
        }),
{
    let s1 = registered(s, first, json).0;
    lemma_registered_stored(s, first, json);
    lemma_registered_sound(s, first, json);
    lemma_registered_sound(s1, second, json);
}

/// Registering a schema that a subject is not bound to yet, where the
/// subject's versions are those from 1 up, the store has room and the level
/// in force allows it: the registration succeeds; one binding is appended,
/// of the schema returned, with the number after the last; and the
/// subject's versions are again those from 1 up.
pub proof fn lemma_next_version_registered(s: StoreView, name: Seq<char>, json: Seq<char>)
    requires
        s.sound(),
        counted_from_one(versions_of(s, name)),
        digest_of(json).is_some(),
        unbound(s, name, json),
        has_room(s, name),
        latest_version(s, name).is_some() ==> evolution_allowed(s, name, json).is_ok(),
    ensures
        ({
            let after = registered(s, name, json).0;
            let row = after.schema_versions.last();
            &&& registered(s, name, json).1.is_ok()
            &&& after.schema_versions == s.schema_versions.push(row)
            &&& row.schema_id == registered(s, name, json).1.unwrap().id
            &&& row.version matches Some(v) && v == versions_of(s, name).len() + 1
            &&& versions_of(after, name) == versions_of(s, name).push(row.version)
            &&& counted_from_one(versions_of(after, name))
            &&& after.sound()
        }),
{
    let fingerprint = digest_of(json).unwrap();
    lemma_registration_succeeds(s, name, json);
    lemma_last_match_below(s.schemas, fingerprinted(fingerprint), s.schemas.len() as int);
    match schema_fingerprinted(s, fingerprint) {
        Some(known) => {
            lemma_version_created(s, Some(json), fingerprint, name, Some(known));
        },
        None => {
            lemma_version_created(s, Some(json), fingerprint, name, None);
        },
    }
    let after = registered(s, name, json).0;
    assert(after.schema_versions.len() == s.schema_versions.len() + 1);
    lemma_versions_follow(s, name, json);
    let extended = versions_of(after, name);
    let n = versions_of(s, name).len() as int;
    assert(extended[n] matches Some(v) && v == n + 1);
}

/// For two texts that parse every reading has an answer, and every level
/// judges the pair. `BACKWARD` says whether the new schema reads what the
/// old one wrote, `FORWARD` whether the old one reads what the new one
/// writes, `FULL` whether both hold. The reading is the answer of `avro_rs`
/// where the pair is comparable, and "no" where it is not.
pub proof fn lemma_verdict_for_schemas(old: Seq<char>, new: Seq<char>)
    requires
        avro_shape(old).is_some(),
        avro_shape(new).is_some(),
    ensures
        reading(old, new).is_some(),
        reading(new, old).is_some(),
        comparable(old, new) ==> reading(old, new) == Some(avro_can_read(old, new)),
        !comparable(old, new) ==> reading(old, new) == Some(false),
        level_verdict(CompatibilityLevel::Backward, old, new) == Ok::<bool, ApiAvroErrorCode>(
            reading(old, new).unwrap(),
        ),
        level_verdict(CompatibilityLevel::Forward, old, new) == Ok::<bool, ApiAvroErrorCode>(
            reading(new, old).unwrap(),
        ),
        level_verdict(CompatibilityLevel::Full, old, new) == Ok::<bool, ApiAvroErrorCode>(
            reading(old, new).unwrap() && reading(new, old).unwrap(),
        ),
{
}

/// A check of a candidate that parses against a stored version whose schema
/// parses gives an answer, not an error, where the level in force is a level:
/// the verdict of that level on the stored schema and the candidate. The
/// level in force for a subject without an override, in a store without a
/// global setting, is `BACKWARD`.
pub proof fn lemma_check_answers(s: StoreView, subject: Seq<char>, version: u32, candidate: Seq<char>)
    requires
        version_resolved(s, subject, version).is_ok(),
        avro_shape(version_resolved(s, subject, version).unwrap().2).is_some(),
        avro_shape(candidate).is_some(),
    ensures
        ({
            let stored = version_resolved(s, subject, version).unwrap().2;
            &&& (effective_level(s, subject).is_ok() && CompatibilityLevel::named(
                effective_level(s, subject).unwrap(),
            ).is_some()) ==> {
                let level = CompatibilityLevel::named(effective_level(s, subject).unwrap()).unwrap();
                &&& level_verdict(level, stored, candidate).is_ok()
                &&& compatibility_checked(s, subject, version, candidate) == Ok::<
                    SchemaCompatibility,
                    ApiAvroErrorCode,
                >(
                    SchemaCompatibility {
                        is_compatible: level_verdict(level, stored, candidate).unwrap(),
                    },
                )
            }
            &&& (first_match(s.configs, overrides(subject_named(s, subject).unwrap().id)).is_none()
                && first_match(s.configs, config_has_id(0)).is_none()) ==> compatibility_checked(
                s,
                subject,
                version,
                candidate,
            ) == Ok::<SchemaCompatibility, ApiAvroErrorCode>(
                SchemaCompatibility { is_compatible: reading(stored, candidate).unwrap() },
            )
        }),
{
    CompatibilityLevel::Backward.lemma_round_trip();
    lemma_verdict_for_schemas(version_resolved(s, subject, version).unwrap().2, candidate);
}

/// Registration under `FULL`. A text that the subject is not bound to yet is
/// held against the subject's latest schema. Where it reads what that schema
/// wrote and that schema reads what it writes, and the store has room, the
/// registration succeeds: the schema returned is the one stored under the
/// text's fingerprint, and it is bound to the subject under the number after
/// the latest. Where one of the readings fails, the registration is refused
/// as an invalid schema and the store stays as it was.
pub proof fn lemma_full_registration(s: StoreView, name: Seq<char>, json: Seq<char>)
    requires
        s.sound(),
        digest_of(json).is_some(),
        unbound(s, name, json),
        has_room(s, name),
        effective_level(s, name) == Ok::<Seq<char>, ApiAvroErrorCode>(
            CompatibilityLevel::Full.text(),
        ),
        latest_match(s.schema_versions, of_subject_named(s.subjects, name)).is_some(),
        schema_with_id(
            s,
            s.schema_versions[latest_match(
                s.schema_versions,
                of_subject_named(s.subjects, name),
            ).unwrap()].schema_id,
        ).is_ok(),
    ensures
        ({
            let latest = schema_with_id(
                s,
                s.schema_versions[latest_match(
                    s.schema_versions,
                    of_subject_named(s.subjects, name),
                ).unwrap()].schema_id,
            ).unwrap().json;
            let fits = reading(latest, json) == Some(true) && reading(json, latest) == Some(true);
            let after = registered(s, name, json).0;
            let row = after.schema_versions.last();
            &&& !fits ==> registered(s, name, json) == (
                s,
                Err::<SchemaView, ApiAvroErrorCode>(ApiAvroErrorCode::InvalidAvroSchema),
            )
            &&& fits ==> {
                &&& registered(s, name, json).1.is_ok()
                &&& schema_fingerprinted(after, digest_of(json).unwrap()) == Some(
                    registered(s, name, json).1.unwrap(),
                )
                &&& after.schema_versions == s.schema_versions.push(row)
                &&& row.schema_id == registered(s, name, json).1.unwrap().id
                &&& of_subject_named(after.subjects, name)(row)
                &&& row.version == Some(next_version(latest_version(s, name)) as i32)
                &&& after.sound()
            }
        }),
{
    let fingerprint = digest_of(json).unwrap();
    let rows = s.schema_versions;
    lemma_full_level(s, name, json);
    lemma_latest_match_below(rows, of_subject_named(s.subjects, name), rows.len() as int);
    if evolution_allowed(s, name, json).is_ok() {
        lemma_registration_succeeds(s, name, json);
        lemma_registered_stored(s, name, json);
        lemma_last_match_below(s.schemas, fingerprinted(fingerprint), s.schemas.len() as int);
        match schema_fingerprinted(s, fingerprint) {
            Some(known) => {
                lemma_version_created(s, Some(json), fingerprint, name, Some(known));
            },
            None => {
                lemma_version_created(s, Some(json), fingerprint, name, None);
            },
        }
    } else {
        lemma_registration_refused(s, name, json);
    }
}

} // verus!
