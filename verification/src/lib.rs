//! Conversational memory: extraction buffering and parsing, access policy,
//! retrieval bookkeeping and text normalisation, with verified contracts.
pub mod chat_summary_service;
pub mod core_types;
pub mod extraction;
pub mod flow_service;
pub mod memory_dispute_resolver;
pub mod ordering;
pub mod internal;
pub mod manager;
pub mod outside;
pub mod person_fact_service;
pub mod recall_service;
pub mod retrieval;
pub mod session_restore_service;
pub mod stores;
pub mod str_map;
pub mod text;
