pub mod manager;
pub mod peer;
