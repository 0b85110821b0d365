pub mod api;
pub mod avro;
pub mod db;
pub mod middleware;
pub mod text;
