pub mod compatibility;
pub mod configs;
pub mod errors;
pub mod schemas;
pub mod subjects;
pub mod version;

pub use self::compatibility::{check_compatibility, SchemaCompatibility};
pub use self::configs::{get_config, get_subject_config, put_config, put_subject_config};
pub use self::schemas::{
    delete_schema_version, delete_schema_version_latest, get_schema, register_schema, SchemaBody,
};
pub use self::subjects::{
    delete_subject, get_subject_version, get_subject_version_from_db, get_subject_version_latest,
    get_subject_version_latest_schema, get_subject_version_schema, get_subject_versions,
    get_subjects, post_subject,
};
