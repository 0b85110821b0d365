use vstd::prelude::*;
use crate::api::errors::{agrees, ApiAvroErrorCode, ApiError};
use crate::avro::reading;
use crate::db::models::configs::{effective_level, CompatibilityLevel, ComparisonPlan, Config};
use crate::db::models::schema_versions::version_resolved;
use crate::db::models::schemas::Schema;
use crate::db::store::{Store, StoreView};

verus! {

/// The answer of a compatibility check.
#[derive(Debug, Clone, Copy, PartialEq, Eq, Structural)]
pub struct SchemaCompatibility {
    pub is_compatible: bool,
}

impl View for SchemaCompatibility {
    type V = SchemaCompatibility;

    open spec fn view(&self) -> SchemaCompatibility {
        *self
    }
}

/// Whether the reader's schema can read what the writer's schema wrote. A
/// text that does not parse is an error, not a "no".
pub open spec fn reads(reader: Seq<char>, writer: Seq<char>) -> Result<bool, ApiAvroErrorCode> {
    match reading(writer, reader) {
        Some(yes) => Ok(yes),
        None => Err(ApiAvroErrorCode::InvalidAvroSchema),
    }
}

/// The verdict of a plan on one pair of schemas. A plan without a direction
/// accepts every pair unread. Otherwise the new schema must read the old
/// one's data where the plan looks backward, the old schema the new one's
/// data where it looks forward; a reading that has no answer, because a text
/// does not parse, is an error.
pub open spec fn pair_verdict(plan: ComparisonPlan, old: Seq<char>, new: Seq<char>) -> Result<bool, ApiAvroErrorCode> {
    if !plan.backward && !plan.forward {
        Ok(true)
    } else {
        let reads_old = if plan.backward {
            reading(old, new)
        } else {
            Some(true)
        };
        let read_by_old = if plan.forward {
            reading(new, old)
        } else {
            Some(true)
        };
        match (reads_old, read_by_old) {
            (Some(backward), Some(forward)) => Ok(plan.content_with(backward, forward)),
            _ => Err(ApiAvroErrorCode::InvalidAvroSchema),
        }
    }
}

/// The verdict of a level on one pair of schemas. `Unknown` is no level.
pub open spec fn level_verdict(level: CompatibilityLevel, old: Seq<char>, new: Seq<char>) -> Result<bool, ApiAvroErrorCode> {
    match level.plan_of() {
        Some(plan) => pair_verdict(plan, old, new),
        None => Err(ApiAvroErrorCode::InvalidCompatibilityLevel),
    }
}

/// Checking a candidate against one stored version of a subject: the
/// version is resolved, then the level in force for the subject, and the
/// level gives its verdict on the stored schema as the old one and the
/// candidate as the new one. A level that cannot be read, like a text that
/// does not parse, makes the check fail with `InvalidAvroSchema`.
pub open spec fn compatibility_checked(s: StoreView, subject: Seq<char>, version: u32, candidate: Seq<char>) -> Result<SchemaCompatibility, ApiAvroErrorCode> {
    match version_resolved(s, subject, version) {
        Err(code) => Err(code),
        Ok(stored) => match effective_level(s, subject) {
            Err(code) => Err(code),
            Ok(name) => match CompatibilityLevel::named(name) {
                None => Err(ApiAvroErrorCode::InvalidAvroSchema),
                Some(level) => match level_verdict(level, stored.2, candidate) {
                    Ok(yes) => Ok(SchemaCompatibility { is_compatible: yes }),
                    Err(_) => Err(ApiAvroErrorCode::InvalidAvroSchema),
                },
            },
        },
    }
}

impl SchemaCompatibility {
    /// Whether `new` may follow `old` under the given level.
    pub fn is_compatible(old: &str, new: &str, compatibility: CompatibilityLevel) -> (verdict: Result<bool, ApiError>)
        ensures
            agrees(verdict, level_verdict(compatibility, old@, new@)),
    {
        let plan = match compatibility.plan() {
            Some(p) => p,
            None => {
                return Err(ApiError::new(ApiAvroErrorCode::InvalidCompatibilityLevel));
            },
        };
        if !plan.backward && !plan.forward {
            return Ok(true);
        }
        let read_by_old = if plan.forward {
            match Schema::is_compatible(old, new) {
                Ok(yes) => yes,
                Err(e) => {
                    return Err(e);
                },
            }
        } else {
            true
        };
        let reads_old = if plan.backward {
            match Schema::is_compatible(new, old) {
                Ok(yes) => yes,
                Err(e) => {
                    return Err(e);
                },
            }
        } else {
            true
        };
        Ok(plan.settle(reads_old, read_by_old))
    }
}

/// Checks a candidate schema against one stored version of a subject.
pub fn check_compatibility(store: &Store, subject: String, version: u32, schema: String) -> (checked: Result<SchemaCompatibility, ApiError>)
    ensures
        agrees(checked, compatibility_checked(store@, subject@, version, schema@)),
{
    let stored = match crate::api::subjects::get_subject_version_from_db(
        store,
        subject.clone(),
        Some(version),
    ) {
        Ok(response) => response,
        Err(e) => {
            return Err(e);
        },
    };
    let compatibility = match Config::get_effective(store, subject) {
        Ok(name) => name,
        Err(e) => {
            return Err(e);
        },
    };
    match CompatibilityLevel::from_str(compatibility.as_str()) {
        Ok(level) => match SchemaCompatibility::is_compatible(
            stored.schema.as_str(),
            schema.as_str(),
            level,
        ) {
            Ok(is_compatible) => Ok(SchemaCompatibility { is_compatible }),
            Err(_) => Err(ApiError::new(ApiAvroErrorCode::InvalidAvroSchema)),
        },
        Err(_) => Err(ApiError::new(ApiAvroErrorCode::InvalidAvroSchema)),
    }
}

} // verus!
