use vstd::prelude::*;
use crate::api::errors::{agrees, ApiAvroErrorCode, ApiError};
use crate::api::schemas::SchemaBody;
use crate::api::version::VersionLimit;
use crate::db::models::schema_versions::{
    latest_resolved, version_resolved, versions_listed, SchemaVersion,
};
use crate::db::models::schemas::{registration_verified, Schema, SchemaResponse};
use crate::db::models::subjects::{
    subject_names, subject_removed, DeleteSubjectResponse, GetSubjectVersionResponse,
    GetSubjectVersionResponseView, Subject, SubjectList, SubjectVersionsResponse,
};
use crate::db::store::{Store, StoreView};

verus! {

/// The reply for a resolved version of the named subject.
pub open spec fn version_reply(subject: Seq<char>, resolved: Result<(i64, i32, Seq<char>), ApiAvroErrorCode>) -> Result<GetSubjectVersionResponseView, ApiAvroErrorCode> {
    match resolved {
        Ok(found) => Ok(
            GetSubjectVersionResponseView {
                subject,
                id: found.0,
                version: found.1,
                schema: found.2,
            },
        ),
        Err(code) => Err(code),
    }
}

/// One version of the named subject: the given one, or the latest where
/// none is given.
pub open spec fn subject_version(s: StoreView, subject: Seq<char>, version: Option<u32>) -> Result<GetSubjectVersionResponseView, ApiAvroErrorCode> {
    match version {
        Some(v) => version_reply(subject, version_resolved(s, subject, v)),
        None => version_reply(subject, latest_resolved(s, subject)),
    }
}

/// Fetches one version of a subject, given the subject's name and an
/// optional version. If the version is not given, the latest one is fetched.
pub fn get_subject_version_from_db(store: &Store, subject: String, version: Option<u32>) -> (found: Result<GetSubjectVersionResponse, ApiError>)
    ensures
        agrees(found, subject_version(store@, subject@, version)),
{
    let resolved = match version {
        Some(v) => {
            if !v.within_limits() {
                return Err(ApiError::new(ApiAvroErrorCode::InvalidVersion));
            }
            SchemaVersion::get_schema_id(store, subject.clone(), v)
        },
        None => SchemaVersion::get_schema_id_from_latest(store, subject.clone()),
    };
    match resolved {
        Ok(o) => Ok(GetSubjectVersionResponse { subject, id: o.0, version: o.1, schema: o.2 }),
        Err(e) => Err(e),
    }
}

/// The schema's body of a version.
pub open spec fn body_of(found: Result<GetSubjectVersionResponseView, ApiAvroErrorCode>) -> Result<Seq<char>, ApiAvroErrorCode> {
    match found {
        Ok(response) => Ok(response.schema),
        Err(code) => Err(code),
    }
}

pub fn get_subjects(store: &Store) -> (subjects: Result<SubjectList, ApiError>)
    ensures
        subjects matches Ok(list) && list@ == subject_names(store@),
{
    match Subject::distinct_names(store) {
        Ok(content) => Ok(SubjectList { content }),
        Err(e) => Err(e),
    }
}

pub fn get_subject_versions(store: &Store, subject: String) -> (versions: Result<SubjectVersionsResponse, ApiError>)
    ensures
        agrees(versions, versions_listed(store@, subject@)),
{
    match SchemaVersion::versions_with_subject_name(store, subject) {
        Ok(versions) => Ok(SubjectVersionsResponse { versions }),
        Err(e) => Err(e),
    }
}

pub fn delete_subject(store: &mut Store, subject: String) -> (removed: Result<DeleteSubjectResponse, ApiError>)
    ensures
        final(store)@ == subject_removed(old(store)@, subject@).0,
        agrees(removed, subject_removed(old(store)@, subject@).1),
        old(store)@.sound() ==> final(store)@.sound(),
{
    match Subject::delete_by_name(store, subject) {
        Ok(versions) => Ok(DeleteSubjectResponse { versions }),
        Err(e) => Err(e),
    }
}

pub fn get_subject_version(store: &Store, subject: String, version: u32) -> (found: Result<GetSubjectVersionResponse, ApiError>)
    ensures
        agrees(found, subject_version(store@, subject@, Some(version))),
{
    get_subject_version_from_db(store, subject, Some(version))
}

pub fn get_subject_version_latest(store: &Store, subject: String) -> (found: Result<GetSubjectVersionResponse, ApiError>)
    ensures
        agrees(found, subject_version(store@, subject@, None)),
{
    get_subject_version_from_db(store, subject, None)
}

pub fn get_subject_version_schema(store: &Store, subject: String, version: u32) -> (found: Result<SchemaResponse, ApiError>)
    ensures
        agrees(found, body_of(subject_version(store@, subject@, Some(version)))),
{
    match get_subject_version_from_db(store, subject, Some(version)) {
        Ok(r) => Ok(SchemaResponse { schema: r.schema }),
        Err(e) => Err(e),
    }
}

pub fn get_subject_version_latest_schema(store: &Store, subject: String) -> (found: Result<SchemaResponse, ApiError>)
    ensures
        agrees(found, body_of(subject_version(store@, subject@, None))),
{
    match get_subject_version_from_db(store, subject, None) {
        Ok(r) => Ok(SchemaResponse { schema: r.schema }),
        Err(e) => Err(e),
    }
}

/// Looks up under which version the subject holds the schema in the body.
pub fn post_subject(store: &Store, subject: String, body: SchemaBody) -> (found: Result<GetSubjectVersionResponse, ApiError>)
    ensures
        agrees(found, registration_verified(store@, subject@, body.schema@)),
{
    Schema::verify_registration(store, subject, body.schema)
}

} // verus!
