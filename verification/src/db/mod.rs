pub mod models;
pub mod schema;
