//! The hook point for LLM providers.
//!
//! Summary generation and prompt dispatch implement this trait later; for
//! now the library defines the import path and a stub provider. The stub
//! must never be asked for its name: doing so is a bug, and it panics.

use vstd::prelude::*;

verus! {

/// A provider of LLM completions.
pub trait LlmProvider {
    /// Whether this provider may be asked for its name.
    spec fn is_live(&self) -> bool;

    /// Human-readable provider identifier.
    fn name(&self) -> (s: &str)
        requires
            self.is_live(),
    ;
}

/// Stub provider for code paths that take a provider argument before a real
/// one exists. It is never live: asking for its name panics.
pub struct NoopProvider;

impl LlmProvider for NoopProvider {
    open spec fn is_live(&self) -> bool {
        false
    }

    /// Never callable: the stub is not live, and panics if reached.
    fn name(&self) -> (s: &str) {
        None::<&'static str>.expect("NoopProvider::name called — WP6 should have replaced this by now")
    }
}

} // verus!
