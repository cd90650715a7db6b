//! A module group: modules that are to be moved out of the chunks they are
//! in, together, into one chunk.

use crate::identifier::{ChunkUkey, ModuleIdentifier};
use vstd::prelude::*;

verus! {

/// A decision, made before the splitting pass runs, to put a set of modules
/// into one chunk.
#[derive(Debug)]
pub struct ModuleGroup {
    /// The modules to move. No module occurs twice.
    pub modules: Vec<ModuleIdentifier>,
    /// The chunks that the modules are in now. No chunk occurs twice.
    pub chunks: Vec<ChunkUkey>,
    /// Whether a chunk that holds exactly these modules may be used as it is.
    pub cache_group_reuse_existing_chunk: bool,
    /// The name that the target chunk must bear, if one is asked for.
    pub chunk_name: Option<String>,
}

impl ModuleGroup {
    /// The modules and the chunks are sets: nothing occurs twice.
    pub open spec fn wf(&self) -> bool {
        self.modules@.no_duplicates() && self.chunks@.no_duplicates()
    }

    /// A group without modules.
    pub fn new(chunk_name: Option<String>, cache_group_reuse_existing_chunk: bool) -> (group: Self)
        ensures
            group.wf(),
            group.modules@ == Seq::<ModuleIdentifier>::empty(),
            group.chunks@ == Seq::<ChunkUkey>::empty(),
            group.cache_group_reuse_existing_chunk == cache_group_reuse_existing_chunk,
            group.chunk_name == chunk_name,
    {
        ModuleGroup {
            modules: Vec::new(),
            chunks: Vec::new(),
            cache_group_reuse_existing_chunk,
            chunk_name,
        }
    }

    /// Adds a module to the group. Returns `false`, and changes nothing, if
    /// the group holds the module already.
    pub fn add_module(&mut self, module_identifier: ModuleIdentifier) -> (added: bool)
        requires
            old(self).wf(),
        ensures
            final(self).wf(),
            added == !old(self).modules@.contains(module_identifier),
            final(self).modules@ == if added {
                old(self).modules@.push(module_identifier)
            } else {
                old(self).modules@
            },
            final(self).chunks@ == old(self).chunks@,
            final(self).cache_group_reuse_existing_chunk == old(self).cache_group_reuse_existing_chunk,
            final(self).chunk_name == old(self).chunk_name,
    {
        let mut i: usize = 0;
        while i < self.modules.len()
            invariant
                i <= self.modules@.len(),
                *self == *old(self),
                self.wf(),
                forall|j: int| 0 <= j < i ==> self.modules@[j] != module_identifier,
            decreases self.modules@.len() - i,
        {
            if self.modules[i] == module_identifier {
                return false;
            }
            i += 1;
        }
        self.modules.push(module_identifier);
        true
    }

    /// Adds a chunk to the chunks that the modules are in. Returns `false`,
    /// and changes nothing, if the group holds the chunk already.
    pub fn add_chunk(&mut self, chunk: ChunkUkey) -> (added: bool)
        requires
            old(self).wf(),
        ensures
            final(self).wf(),
            added == !old(self).chunks@.contains(chunk),
            final(self).chunks@ == if added {
                old(self).chunks@.push(chunk)
            } else {
                old(self).chunks@
            },
            final(self).modules@ == old(self).modules@,
            final(self).cache_group_reuse_existing_chunk == old(self).cache_group_reuse_existing_chunk,
            final(self).chunk_name == old(self).chunk_name,
    {
        let mut i: usize = 0;
        while i < self.chunks.len()
            invariant
                i <= self.chunks@.len(),
                *self == *old(self),
                self.wf(),
                forall|j: int| 0 <= j < i ==> self.chunks@[j] != chunk,
            decreases self.chunks@.len() - i,
        {
            if self.chunks[i] == chunk {
                return false;
            }
            i += 1;
        }
        self.chunks.push(chunk);
        true
    }
}

} // verus!
