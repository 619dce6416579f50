//! The event service: events filed by organizer and by category.

pub mod compare;
pub mod data_manager;
pub mod laws;
pub mod order;
pub mod pstypes;
pub mod types;
