use vstd::prelude::*;

verus! {

/// The closed set of failures the registry reports, each with a fixed numeric
/// code and a fixed message.
#[derive(Clone, Copy, Debug, PartialEq, Eq, Structural)]
pub enum ApiAvroErrorCode {
    SubjectNotFound,
    VersionNotFound,
    SchemaNotFound,
    InvalidAvroSchema,
    InvalidVersion,
    InvalidCompatibilityLevel,
    BackendDatastoreError,
    OperationTimedOut,
    MasterForwardingError,
}

/// Status of the "not found" class.
pub const STATUS_NOT_FOUND: u16 = 404;

/// Status of the "bad input" class.
pub const STATUS_UNPROCESSABLE_ENTITY: u16 = 422;

/// Status of the "internal" class.
pub const STATUS_INTERNAL_SERVER_ERROR: u16 = 500;

impl ApiAvroErrorCode {
    /// The number under which the code travels on the wire.
    pub open spec fn number(self) -> int {
        match self {
            ApiAvroErrorCode::SubjectNotFound => 40401,
            ApiAvroErrorCode::VersionNotFound => 40402,
            ApiAvroErrorCode::SchemaNotFound => 40403,
            ApiAvroErrorCode::InvalidAvroSchema => 42201,
            ApiAvroErrorCode::InvalidVersion => 42202,
            ApiAvroErrorCode::InvalidCompatibilityLevel => 42203,
            ApiAvroErrorCode::BackendDatastoreError => 50001,
            ApiAvroErrorCode::OperationTimedOut => 50002,
            ApiAvroErrorCode::MasterForwardingError => 50003,
        }
    }

    /// The status class of the code: the first three digits of its number.
    pub open spec fn status(self) -> int {
        self.number() / 100
    }

    /// The fixed message of the code.
    pub open spec fn message_text(self) -> Seq<char> {
        match self {
            ApiAvroErrorCode::SubjectNotFound => "Subject not found"@,
            ApiAvroErrorCode::VersionNotFound => "Version not found"@,
            ApiAvroErrorCode::SchemaNotFound => "Schema not found"@,
            ApiAvroErrorCode::InvalidAvroSchema => "Invalid Avro schema"@,
            ApiAvroErrorCode::InvalidVersion => "Invalid version"@,
            ApiAvroErrorCode::InvalidCompatibilityLevel => "Invalid compatibility level"@,
            ApiAvroErrorCode::BackendDatastoreError => "Error in the backend datastore"@,
            ApiAvroErrorCode::OperationTimedOut => "Operation timed out"@,
            ApiAvroErrorCode::MasterForwardingError => "Error while forwarding the request to the master"@,
        }
    }

    pub fn code(&self) -> (n: u16)
        ensures
            n == self.number(),
    {
        match self {
            ApiAvroErrorCode::SubjectNotFound => 40401,
            ApiAvroErrorCode::VersionNotFound => 40402,
            ApiAvroErrorCode::SchemaNotFound => 40403,
            ApiAvroErrorCode::InvalidAvroSchema => 42201,
            ApiAvroErrorCode::InvalidVersion => 42202,
            ApiAvroErrorCode::InvalidCompatibilityLevel => 42203,
            ApiAvroErrorCode::BackendDatastoreError => 50001,
            ApiAvroErrorCode::OperationTimedOut => 50002,
            ApiAvroErrorCode::MasterForwardingError => 50003,
        }
    }

    pub fn message(&self) -> (text: &'static str)
        ensures
            text@ == self.message_text(),
    {
        match self {
            ApiAvroErrorCode::SubjectNotFound => "Subject not found",
            ApiAvroErrorCode::VersionNotFound => "Version not found",
            ApiAvroErrorCode::SchemaNotFound => "Schema not found",
            ApiAvroErrorCode::InvalidAvroSchema => "Invalid Avro schema",
            ApiAvroErrorCode::InvalidVersion => "Invalid version",
            ApiAvroErrorCode::InvalidCompatibilityLevel => "Invalid compatibility level",
            ApiAvroErrorCode::BackendDatastoreError => "Error in the backend datastore",
            ApiAvroErrorCode::OperationTimedOut => "Operation timed out",
            ApiAvroErrorCode::MasterForwardingError => {
                "Error while forwarding the request to the master"
            },
        }
    }
}

/// The body of an error reply: the code and its message.
#[derive(Debug)]
pub struct ApiErrorResponse {
    pub error_code: ApiAvroErrorCode,
    pub message: String,
}

/// An error as the interface reports it: the status of the reply and its
/// body.
#[derive(Debug)]
pub struct ApiError {
    pub status_code: u16,
    pub response: ApiErrorResponse,
}

impl Clone for ApiErrorResponse {
    fn clone(&self) -> (copy: Self)
        ensures
            copy == *self,
    {
        ApiErrorResponse { error_code: self.error_code, message: self.message.clone() }
    }
}

impl Clone for ApiError {
    fn clone(&self) -> (copy: Self)
        ensures
            copy == *self,
    {
        ApiError { status_code: self.status_code, response: self.response.clone() }
    }
}

impl ApiError {
    /// The error is the canonical one of `code`: it carries the code, the
    /// code's message and the status of the code's class.
    pub open spec fn stands_for(&self, code: ApiAvroErrorCode) -> bool {
        &&& self.status_code == code.status()
        &&& self.response.error_code == code
        &&& self.response.message@ == code.message_text()
    }

    pub fn new(error_code: ApiAvroErrorCode) -> (error: Self)
        ensures
            error.stands_for(error_code),
    {
        let status_code: u16 = match error_code {
            ApiAvroErrorCode::SubjectNotFound => STATUS_NOT_FOUND,
            ApiAvroErrorCode::VersionNotFound => STATUS_NOT_FOUND,
            ApiAvroErrorCode::SchemaNotFound => STATUS_NOT_FOUND,
            ApiAvroErrorCode::InvalidAvroSchema => STATUS_UNPROCESSABLE_ENTITY,
            ApiAvroErrorCode::InvalidVersion => STATUS_UNPROCESSABLE_ENTITY,
            ApiAvroErrorCode::InvalidCompatibilityLevel => STATUS_UNPROCESSABLE_ENTITY,
            ApiAvroErrorCode::BackendDatastoreError => STATUS_INTERNAL_SERVER_ERROR,
            ApiAvroErrorCode::OperationTimedOut => STATUS_INTERNAL_SERVER_ERROR,
            ApiAvroErrorCode::MasterForwardingError => STATUS_INTERNAL_SERVER_ERROR,
        };
        ApiError {
            status_code,
            response: ApiErrorResponse {
                error_code,
                message: error_code.message().to_owned(),
            },
        }
    }
}

/// A result agrees with what a model predicts: the same value by its view on
/// success, the canonical error of the predicted code on failure.
pub open spec fn agrees<T: View>(got: Result<T, ApiError>, predicted: Result<T::V, ApiAvroErrorCode>) -> bool {
    match (got, predicted) {
        (Ok(value), Ok(model)) => value@ == model,
        (Err(error), Err(code)) => error.stands_for(code),
        _ => false,
    }
}

} // verus!
