//! Policies that decide which memories a conversation may see.
pub mod access_policy;
pub mod background;
