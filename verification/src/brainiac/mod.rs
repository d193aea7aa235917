pub mod models;
pub mod operations;
