//! Retrieval of memories for a prompt: request context, suppression and budgets.
pub mod coordinator;
pub mod reranker;
pub mod two_stage_retriever;
pub mod recent_sessions;
pub mod recall_renderer;
pub mod prompt_context;
