//! Opaque keys by which modules, dependencies, connections and chunks are
//! addressed. Every relationship in the graphs is a lookup by one of these
//! keys; no record refers to another record directly.

use vstd::prelude::*;

verus! {

/// Globally unique key of a resolved module, stable for a whole compilation.
#[derive(Clone, Copy, Debug, PartialEq, Eq, Hash, Structural)]
pub struct ModuleIdentifier(pub u64);

impl ModuleIdentifier {
    /// Wraps a raw key.
    pub fn new(raw: u64) -> (id: Self)
        ensures
            id == ModuleIdentifier(raw),
    {
        ModuleIdentifier(raw)
    }

    /// The raw key.
    pub fn raw(&self) -> (raw: u64)
        ensures
            raw == self.0,
    {
        self.0
    }
}

/// Key of a dependency registered in a module graph.
#[derive(Clone, Copy, Debug, PartialEq, Eq, Hash, Structural)]
pub struct DependencyId(pub usize);

/// Key of a connection registered in a module graph.
#[derive(Clone, Copy, Debug, PartialEq, Eq, Hash, Structural)]
pub struct ConnectionId(pub usize);

/// Stable key of a chunk. A key is handed out once, when the chunk is
/// created, and names the same chunk for the rest of the compilation.
#[derive(Clone, Copy, Debug, PartialEq, Eq, Hash, Structural)]
pub struct ChunkUkey(pub usize);

/// Stable key of a chunk group.
#[derive(Clone, Copy, Debug, PartialEq, Eq, Hash, Structural)]
pub struct ChunkGroupUkey(pub usize);

} // verus!
