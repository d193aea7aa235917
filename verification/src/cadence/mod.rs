pub mod channels;
pub mod database;
pub mod error;
pub mod executor;
pub mod registry;
