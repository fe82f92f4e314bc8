use vstd::prelude::*;
use std::sync::atomic::{AtomicU64, Ordering};
use std::sync::Arc;

verus! {

/// A shared source of identifiers. Clones share the same counter.
#[derive(Clone)]
pub struct IdGenerator {
    id: Arc<AtomicU64>,
}

impl IdGenerator {
    /// A generator whose first identifier is zero.
    pub fn new() -> Self {
        IdGenerator { id: Arc::new(AtomicU64::new(0)) }
    }

    /// The next identifier of the shared counter. The value depends on every
    /// earlier call on any clone of this generator.
    pub fn next(&self) -> u64 {
        self.id.fetch_add(1, Ordering::Relaxed)
    }
}

impl Default for IdGenerator {
    fn default() -> Self {
        Self::new()
    }
}

} // verus!
