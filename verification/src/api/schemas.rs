use vstd::prelude::*;
use crate::api::errors::{agrees, ApiAvroErrorCode, ApiError};
use crate::api::subjects::get_subject_version_from_db;
use crate::api::version::VersionLimit;
use crate::db::models::schema_versions::{
    latest_resolved, version_deleted, DeleteSchemaVersion, SchemaVersion,
};
use crate::db::models::schemas::{
    registered, schema_with_id, RegisterSchema, RegisterSchemaResponse, Schema, SchemaResponse,
};
use crate::db::store::{Store, StoreView};
use crate::text::{decimal, decimal_text};

verus! {

#[derive(Debug)]
pub struct SchemaBody {
    pub schema: String,
}

/// The body of the schema with the given identifier.
pub open spec fn schema_body(s: StoreView, id: i64) -> Result<Seq<char>, ApiAvroErrorCode> {
    match schema_with_id(s, id) {
        Ok(schema) => Ok(schema.json),
        Err(code) => Err(code),
    }
}

/// Removing the latest version of the named subject: the latest version is
/// resolved, and then removed like any other.
pub open spec fn latest_version_deleted(s: StoreView, subject: Seq<char>) -> (StoreView, Result<u32, ApiAvroErrorCode>) {
    match latest_resolved(s, subject) {
        Err(code) => (s, Err(code)),
        Ok(found) => if found.1 < 1 {
            (s, Err(ApiAvroErrorCode::InvalidVersion))
        } else {
            version_deleted(s, subject, found.1 as u32)
        },
    }
}

/// Registering a schema through the interface: the reply carries the
/// schema's identifier in decimal.
pub open spec fn schema_registered(s: StoreView, subject: Seq<char>, schema: Seq<char>) -> (StoreView, Result<Seq<char>, ApiAvroErrorCode>) {
    (
        registered(s, subject, schema).0,
        match registered(s, subject, schema).1 {
            Ok(row) => Ok(decimal_text(row.id as int)),
            Err(code) => Err(code),
        },
    )
}

pub fn get_schema(store: &Store, id: i64) -> (response: Result<SchemaResponse, ApiError>)
    ensures
        agrees(response, schema_body(store@, id)),
{
    match Schema::get_by_id(store, id) {
        Ok(schema) => Ok(SchemaResponse { schema: schema.json }),
        Err(e) => Err(e),
    }
}

pub fn delete_schema_version(store: &mut Store, subject: String, version: u32) -> (removed: Result<u32, ApiError>)
    ensures
        final(store)@ == version_deleted(old(store)@, subject@, version).0,
        agrees(removed, version_deleted(old(store)@, subject@, version).1),
        old(store)@.sound() ==> final(store)@.sound(),
{
    let delete_schema_version = DeleteSchemaVersion { subject, version };
    if !delete_schema_version.version.within_limits() {
        return Err(ApiError::new(ApiAvroErrorCode::InvalidVersion));
    }
    SchemaVersion::delete_version_with_subject(store, delete_schema_version)
}

pub fn delete_schema_version_latest(store: &mut Store, subject: String) -> (removed: Result<u32, ApiError>)
    ensures
        final(store)@ == latest_version_deleted(old(store)@, subject@).0,
        agrees(removed, latest_version_deleted(old(store)@, subject@).1),
        old(store)@.sound() ==> final(store)@.sound(),
{
    let sv_response = match get_subject_version_from_db(store, subject.clone(), None) {
        Ok(response) => response,
        Err(e) => {
            return Err(e);
        },
    };
    if sv_response.version < 1 {
        return Err(ApiError::new(ApiAvroErrorCode::InvalidVersion));
    }
    let delete_schema_version = DeleteSchemaVersion {
        subject,
        version: sv_response.version as u32,
    };
    if !delete_schema_version.version.within_limits() {
        return Err(ApiError::new(ApiAvroErrorCode::InvalidVersion));
    }
    SchemaVersion::delete_version_with_subject(store, delete_schema_version)
}

pub fn register_schema(store: &mut Store, subject: String, body: SchemaBody) -> (response: Result<RegisterSchemaResponse, ApiError>)
    ensures
        final(store)@ == schema_registered(old(store)@, subject@, body.schema@).0,
        agrees(response, schema_registered(old(store)@, subject@, body.schema@).1),
        old(store)@.sound() ==> final(store)@.sound(),
{
    let new_schema = RegisterSchema { subject, schema: body.schema };
    match Schema::register_new_version(store, new_schema) {
        Ok(schema) => Ok(RegisterSchemaResponse { id: decimal(schema.id) }),
        Err(e) => Err(e),
    }
}

} // verus!
