pub mod verify_auth;
pub mod verify_headers;

pub use self::verify_auth::{Rejection, VerifyAuthorization};
pub use self::verify_headers::VerifyAcceptHeader;
