pub mod curve;
pub mod engine;
pub mod history;
pub mod models;
pub mod patterns;
pub mod protocol;
