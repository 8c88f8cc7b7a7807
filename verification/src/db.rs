//! Records kept in the application database.
pub mod context;
