//! Storage: the writer's command records, the run/transaction protocol the
//! writer actor follows, and which schema migrations are pending. The SQL
//! itself runs outside the library.

pub mod commands;
pub mod schema;
pub mod writer;
