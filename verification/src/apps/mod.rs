//! The application service: applications of users to events, filed by user
//! and by event.

pub mod data_manager;
pub mod laws;
pub mod types;
