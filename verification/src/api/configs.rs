use vstd::prelude::*;
use crate::api::errors::{agrees, ApiAvroErrorCode, ApiError};
use crate::db::models::configs::{
    compatibility_named, global_read, global_written, override_read, override_written,
    CompatibilityLevel, Config, ConfigCompatibility, SetConfig,
};
use crate::db::store::{Store, StoreView};

verus! {

/// The reply for a level that was read or written: the level that its name
/// stands for.
pub open spec fn level_reply(level: Result<Seq<char>, ApiAvroErrorCode>) -> Result<ConfigCompatibility, ApiAvroErrorCode> {
    match level {
        Ok(name) => compatibility_named(name),
        Err(code) => Err(code),
    }
}

/// Setting the global level: `Unknown` is refused before the store is
/// looked at.
pub open spec fn config_put(s: StoreView, level: CompatibilityLevel) -> (StoreView, Result<ConfigCompatibility, ApiAvroErrorCode>) {
    if level == CompatibilityLevel::Unknown {
        (s, Err(ApiAvroErrorCode::InvalidCompatibilityLevel))
    } else {
        (global_written(s, level.text()).0, level_reply(global_written(s, level.text()).1))
    }
}

/// Setting the level of a subject: `Unknown` is refused before the store is
/// looked at.
pub open spec fn subject_config_put(s: StoreView, subject: Seq<char>, level: CompatibilityLevel) -> (StoreView, Result<ConfigCompatibility, ApiAvroErrorCode>) {
    if level == CompatibilityLevel::Unknown {
        (s, Err(ApiAvroErrorCode::InvalidCompatibilityLevel))
    } else {
        (
            override_written(s, subject, level.text()).0,
            level_reply(override_written(s, subject, level.text()).1),
        )
    }
}

/// Turns a level that was read or written into the reply.
fn reply(level: Result<String, ApiError>) -> (made: Result<ConfigCompatibility, ApiError>)
    ensures
        forall|predicted: Result<Seq<char>, ApiAvroErrorCode>|
            agrees(level, predicted) ==> agrees(made, level_reply(predicted)),
{
    match level {
        Ok(name) => ConfigCompatibility::new(name),
        Err(e) => Err(e),
    }
}

/// Get the global compatibility level.
pub fn get_config(store: &mut Store) -> (config: Result<ConfigCompatibility, ApiError>)
    ensures
        final(store)@ == global_read(old(store)@).0,
        agrees(config, level_reply(global_read(old(store)@).1)),
        old(store)@.sound() ==> final(store)@.sound(),
{
    reply(Config::get_global_compatibility(store))
}

/// Set the global compatibility level.
pub fn put_config(store: &mut Store, body: SetConfig) -> (config: Result<ConfigCompatibility, ApiError>)
    ensures
        final(store)@ == config_put(old(store)@, body.compatibility).0,
        agrees(config, config_put(old(store)@, body.compatibility).1),
        old(store)@.sound() ==> final(store)@.sound(),
{
    let level = match body.compatibility.valid() {
        Ok(l) => l,
        Err(e) => {
            return Err(e);
        },
    };
    reply(Config::set_global_compatibility(store, level.as_str()))
}

/// Get compatibility level for a subject.
pub fn get_subject_config(store: &Store, subject: String) -> (config: Result<ConfigCompatibility, ApiError>)
    ensures
        agrees(config, level_reply(override_read(store@, subject@))),
{
    reply(Config::get_with_subject_name(store, subject))
}

/// Update compatibility level for the specified subject. A subject that does
/// not exist is reported as not found.
pub fn put_subject_config(store: &mut Store, subject: String, body: SetConfig) -> (config: Result<ConfigCompatibility, ApiError>)
    ensures
        final(store)@ == subject_config_put(old(store)@, subject@, body.compatibility).0,
        agrees(config, subject_config_put(old(store)@, subject@, body.compatibility).1),
        old(store)@.sound() ==> final(store)@.sound(),
{
    let level = match body.compatibility.valid() {
        Ok(l) => l,
        Err(e) => {
            return Err(e);
        },
    };
    reply(Config::set_with_subject_name(store, subject, level.to_string()))
}

} // verus!
