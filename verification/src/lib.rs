//! Clarion: entity identifiers, the plugin host, the storage writer's run
//! protocol and the CLI's pure helpers, with their contracts.

pub mod cli;
pub mod entity_id;
pub mod ioerr;
pub mod llm_provider;
pub mod plugin;
pub mod storage;
pub mod text;
