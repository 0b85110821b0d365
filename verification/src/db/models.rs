pub mod configs;
pub mod schema_versions;
pub mod schemas;
pub mod subjects;

pub use self::configs::{
    CompareAgainst, CompatibilityLevel, ComparisonPlan, Config, ConfigCompatibility, ConfigView,
    GetSubjectConfig, SetConfig, SetSubjectConfig,
};
pub use self::schema_versions::{
    DeleteSchemaVersion, NewSchemaVersion, SchemaVersion, SchemaVersionFields,
};
pub use self::schemas::{
    GetSchema, NewSchema, RegisterSchema, RegisterSchemaResponse, Schema, SchemaResponse,
    SchemaView, VerifyRegistrationResponse, VerifySchemaRegistration,
};
pub use self::subjects::{
    DeleteSubject, DeleteSubjectResponse, GetSubjectVersion, GetSubjectVersionResponse,
    GetSubjectVersions, GetSubjects, Subject, SubjectList, SubjectVersionsResponse, SubjectView,
};
