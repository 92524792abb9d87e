//! The plugin host: discovery's naming rule, resource limits and breakers,
//! the Content-Length transport, the JSON-RPC message types, the path-jail
//! outcomes, and the supervisor that enforces the entity pipeline.

pub mod breaker;
pub mod clock;
pub mod discovery;
pub mod header;
pub mod host;
pub mod jail;
pub mod limits;
pub mod protocol;
pub mod transport;
pub mod window;
