//! Rules of the memory stores that do not touch the database.
pub mod conversation;
pub mod important;
pub mod memory_item;
pub mod mood_store;
