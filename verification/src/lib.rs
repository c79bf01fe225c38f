//! Session layer of a multi-tenant chat assistant: per-tenant message
//! ledgers with compaction, change detection for the injected system
//! context, a keyed session registry with idle- and capacity-eviction,
//! and the pure decision logic of a conversation turn.

pub mod config;
pub mod context;
pub mod heartbeat_store;
pub mod history;
pub mod mcp;
pub mod memory_doc;
pub mod message;
pub mod model_pool;
pub mod reclaim;
pub mod registry;
pub mod remote;
pub mod runtime_index;
pub mod schedule;
pub mod session;
pub mod skills;
pub mod text;
pub mod tools;
pub mod validate;
