pub mod auth;
mod clock;
pub mod database;
pub mod errors;
pub mod models;
pub mod ops;
mod text;
