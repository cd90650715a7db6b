//! The state of one compilation, handed to every optimisation pass.

use crate::chunk::{name_view, ChunkByUkey, ChunkGroupByUkey, ChunkView, NamedChunks};
use crate::chunk_graph::ChunkGraph;
use crate::identifier::ChunkUkey;
use crate::module_graph::ModuleGraph;
use vstd::prelude::*;

verus! {

/// The index of names and the registry of chunks agree: a name leads to a
/// registered chunk that bears it, and every named chunk is found under its
/// name. So no two chunks bear the same name.
pub open spec fn names_agree(named: Map<Seq<char>, ChunkUkey>, chunks: Map<ChunkUkey, ChunkView>) -> bool {
    &&& forall|n: Seq<char>| #[trigger]
        named.contains_key(n) ==> chunks.contains_key(named[n]) && chunks[named[n]].name == Some(n)
    &&& forall|k: ChunkUkey, n: Seq<char>|
        chunks.contains_key(k) && (#[trigger] chunks[k]).name == Some(n) ==> #[trigger] named.contains_key(n)
            && named[n] == k
}

/// Everything the optimisation passes read and change. The graphs belong to
/// the compilation alone; a pass receives them through this value.
pub struct Compilation {
    pub module_graph: ModuleGraph,
    pub chunk_graph: ChunkGraph,
    pub chunk_by_ukey: ChunkByUkey,
    pub named_chunks: NamedChunks,
    pub chunk_group_by_ukey: ChunkGroupByUkey,
}

impl Compilation {
    /// Every part satisfies its own invariant, and the index of names agrees
    /// with the registry of chunks.
    pub open spec fn wf(&self) -> bool {
        &&& self.module_graph.wf()
        &&& self.chunk_graph.wf()
        &&& self.chunk_by_ukey.wf()
        &&& self.named_chunks.wf()
        &&& self.chunk_group_by_ukey.wf()
        &&& names_agree(self.named_chunks@, self.chunk_by_ukey@)
    }

    /// A compilation without modules or chunks.
    pub fn new() -> (compilation: Self)
        ensures
            compilation.wf(),
            compilation.module_graph@.modules.len() == 0,
            compilation.module_graph@.connections.len() == 0,
            compilation.module_graph@.dependencies.len() == 0,
            compilation.module_graph@.build_meta == Map::<
                crate::identifier::ModuleIdentifier,
                Option<crate::module_graph::BuildMeta>,
            >::empty(),
            compilation.chunk_graph@ == Map::<ChunkUkey, crate::chunk_graph::ChunkGraphChunkView>::empty(),
            compilation.chunk_by_ukey@ == Map::<ChunkUkey, ChunkView>::empty(),
            compilation.named_chunks@ == Map::<Seq<char>, ChunkUkey>::empty(),
            compilation.chunk_group_by_ukey@ == Set::<(ChunkUkey, ChunkUkey)>::empty(),
            compilation.chunk_group_by_ukey.groups() == Map::<
                crate::identifier::ChunkGroupUkey,
                crate::chunk::ChunkGroupView,
            >::empty(),
    {
        Compilation {
            module_graph: ModuleGraph::new(),
            chunk_graph: ChunkGraph::new(),
            chunk_by_ukey: ChunkByUkey::new(),
            named_chunks: NamedChunks::new(),
            chunk_group_by_ukey: ChunkGroupByUkey::new(),
        }
    }

    /// Creates an unnamed chunk under a fresh key.
    pub fn add_chunk(chunk_by_ukey: &mut ChunkByUkey) -> (ukey: ChunkUkey)
        requires
            old(chunk_by_ukey).wf(),
        ensures
            final(chunk_by_ukey).wf(),
            !old(chunk_by_ukey)@.contains_key(ukey),
            final(chunk_by_ukey)@ == old(chunk_by_ukey)@.insert(
                ukey,
                ChunkView { name: None, chunk_reasons: Seq::empty() },
            ),
    {
        chunk_by_ukey.add(None)
    }

    /// Creates a chunk with a name under a fresh key and enters it in the
    /// index of names. The name must not be taken: a second chunk under one
    /// name is never created.
    pub fn add_named_chunk(name: String, chunk_by_ukey: &mut ChunkByUkey, named_chunks: &mut NamedChunks) -> (ukey:
        ChunkUkey)
        requires
            old(chunk_by_ukey).wf(),
            old(named_chunks).wf(),
            names_agree(old(named_chunks)@, old(chunk_by_ukey)@),
            !old(named_chunks)@.contains_key(name@),
        ensures
            final(chunk_by_ukey).wf(),
            final(named_chunks).wf(),
            names_agree(final(named_chunks)@, final(chunk_by_ukey)@),
            !old(chunk_by_ukey)@.contains_key(ukey),
            final(chunk_by_ukey)@ == old(chunk_by_ukey)@.insert(
                ukey,
                ChunkView { name: Some(name@), chunk_reasons: Seq::empty() },
            ),
            final(named_chunks)@ == old(named_chunks)@.insert(name@, ukey),
    {
        let ukey = chunk_by_ukey.add(Some(name.clone()));
        named_chunks.insert(name, ukey);
        proof {
            let named = named_chunks@;
            let chunks = chunk_by_ukey@;
            assert forall|n: Seq<char>| #[trigger] named.contains_key(n) implies chunks.contains_key(
                named[n],
            ) && chunks[named[n]].name == Some(n) by {
                if n != name@ {
                    assert(old(named_chunks)@.contains_key(n));
                }
            }
            assert forall|k: ChunkUkey, n: Seq<char>|
                chunks.contains_key(k) && (#[trigger] chunks[k]).name == Some(n) implies #[trigger] named.contains_key(
                n,
            ) && named[n] == k by {
                if k != ukey {
                    assert(old(chunk_by_ukey)@[k].name == Some(n));
                }
            }
        }
        ukey
    }
}

} // verus!
