//! Verified core logic of the NexQ meeting assistant.

pub mod text;
pub mod query_router;
pub mod token_counter;
pub mod provider;
pub mod web_cache;
pub mod question_detector;
pub mod context;
pub mod context_laws;
pub mod db;
pub mod codex;
pub mod prepare;
pub mod qwen_asr;
pub mod context_commands;
