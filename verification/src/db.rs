pub mod laws;
pub mod soundness;
pub mod models;
pub mod query;
pub mod rows;
pub mod store;

pub use self::store::{Store, StoreView};
