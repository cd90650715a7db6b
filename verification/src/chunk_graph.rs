//! The chunk graph: which modules belong to which chunks. It is the single
//! record of membership; no other structure repeats it.

use crate::identifier::{ChunkUkey, ModuleIdentifier};
use std::collections::{HashMap, HashSet};
use vstd::prelude::*;

verus! {

broadcast use vstd::std_specs::hash::group_hash_axioms;

/// What the chunk graph knows of one chunk.
pub struct ChunkGraphChunk {
    modules: HashSet<u64>,
    entry_modules: HashSet<u64>,
}

/// The mathematical content of a `ChunkGraphChunk`.
pub struct ChunkGraphChunkView {
    /// The modules that belong to the chunk.
    pub modules: Set<ModuleIdentifier>,
    /// The modules with which an entry point starts in the chunk.
    pub entry_modules: Set<ModuleIdentifier>,
}

/// The view of a chunk that holds nothing.
pub open spec fn empty_chunk() -> ChunkGraphChunkView {
    ChunkGraphChunkView { modules: Set::empty(), entry_modules: Set::empty() }
}

/// The content of a chunk; a chunk that is not registered holds nothing.
pub open spec fn chunk_content(v: Map<ChunkUkey, ChunkGraphChunkView>, chunk: ChunkUkey) -> ChunkGraphChunkView {
    if v.contains_key(chunk) {
        v[chunk]
    } else {
        empty_chunk()
    }
}

/// The modules of a chunk; a chunk that is not registered has none.
pub open spec fn modules_of(v: Map<ChunkUkey, ChunkGraphChunkView>, chunk: ChunkUkey) -> Set<
    ModuleIdentifier,
> {
    chunk_content(v, chunk).modules
}

/// The entry modules of a chunk; a chunk that is not registered has none.
pub open spec fn entry_modules_of(v: Map<ChunkUkey, ChunkGraphChunkView>, chunk: ChunkUkey) -> Set<
    ModuleIdentifier,
> {
    chunk_content(v, chunk).entry_modules
}

/// The chunk graph in which `module` is a member of `chunk`.
pub open spec fn connected(
    v: Map<ChunkUkey, ChunkGraphChunkView>,
    chunk: ChunkUkey,
    module: ModuleIdentifier,
) -> Map<ChunkUkey, ChunkGraphChunkView> {
    v.insert(
        chunk,
        ChunkGraphChunkView {
            modules: modules_of(v, chunk).insert(module),
            entry_modules: entry_modules_of(v, chunk),
        },
    )
}

/// The chunk graph in which `module` is no member of `chunk`. A chunk that
/// is not registered stays so.
pub open spec fn disconnected(
    v: Map<ChunkUkey, ChunkGraphChunkView>,
    chunk: ChunkUkey,
    module: ModuleIdentifier,
) -> Map<ChunkUkey, ChunkGraphChunkView> {
    if v.contains_key(chunk) {
        v.insert(
            chunk,
            ChunkGraphChunkView {
                modules: modules_of(v, chunk).remove(module),
                entry_modules: entry_modules_of(v, chunk),
            },
        )
    } else {
        v
    }
}

/// Connecting a pair a second time changes nothing, and neither does
/// disconnecting it a second time.
pub proof fn lemma_repeated_calls_change_nothing(
    v: Map<ChunkUkey, ChunkGraphChunkView>,
    chunk: ChunkUkey,
    module: ModuleIdentifier,
)
    ensures
        connected(connected(v, chunk, module), chunk, module) == connected(v, chunk, module),
        disconnected(disconnected(v, chunk, module), chunk, module) == disconnected(v, chunk, module),
        !modules_of(v, chunk).contains(module) ==> modules_of(disconnected(v, chunk, module), chunk)
            == modules_of(v, chunk),
{
    let once = connected(v, chunk, module);
    assert(modules_of(once, chunk).insert(module) =~= modules_of(once, chunk));
    assert(connected(once, chunk, module) =~= once);
    let gone = disconnected(v, chunk, module);
    assert(modules_of(gone, chunk).remove(module) =~= modules_of(gone, chunk));
    assert(disconnected(gone, chunk, module) =~= gone);
    if !modules_of(v, chunk).contains(module) {
        assert(modules_of(gone, chunk) =~= modules_of(v, chunk));
    }
}

spec fn identifiers(raw: Set<u64>) -> Set<ModuleIdentifier> {
    Set::new(|m: ModuleIdentifier| raw.contains(m.0))
}

proof fn lemma_identifiers_len(raw: Set<u64>)
    requires
        raw.finite(),
    ensures
        identifiers(raw).finite(),
        identifiers(raw).len() == raw.len(),
{
    let wrap = |k: u64| ModuleIdentifier(k);
    assert forall|m: ModuleIdentifier| raw.map(wrap).contains(m) <==> identifiers(raw).contains(
        m,
    ) by {
        if identifiers(raw).contains(m) {
            assert(wrap(m.0) == m);
        }
    }
    assert(raw.map(wrap) =~= identifiers(raw));
    assert(vstd::relations::injective_on(wrap, raw));
    vstd::set_lib::lemma_map_size(raw, identifiers(raw), wrap);
}

impl ChunkGraphChunk {
    spec fn content(&self) -> ChunkGraphChunkView {
        ChunkGraphChunkView {
            modules: identifiers(self.modules@),
            entry_modules: identifiers(self.entry_modules@),
        }
    }

    spec fn finite(&self) -> bool {
        self.modules@.finite() && self.entry_modules@.finite()
    }

    fn new() -> (chunk: Self)
        ensures
            chunk.finite(),
            chunk.content() == empty_chunk(),
    {
        let chunk = ChunkGraphChunk { modules: HashSet::new(), entry_modules: HashSet::new() };
        assert(chunk.content().modules =~= Set::empty());
        assert(chunk.content().entry_modules =~= Set::empty());
        chunk
    }
}

/// Many-to-many membership between modules and chunks.
pub struct ChunkGraph {
    chunks: HashMap<usize, ChunkGraphChunk>,
}

impl View for ChunkGraph {
    type V = Map<ChunkUkey, ChunkGraphChunkView>;

    closed spec fn view(&self) -> Map<ChunkUkey, ChunkGraphChunkView> {
        Map::new(
            |c: ChunkUkey| self.chunks@.contains_key(c.0),
            |c: ChunkUkey| self.chunks@[c.0].content(),
        )
    }
}

impl ChunkGraph {
    /// The representation invariant: every chunk holds finitely many modules.
    pub closed spec fn wf(&self) -> bool {
        forall|k: usize| #[trigger] self.chunks@.contains_key(k) ==> self.chunks@[k].finite()
    }

    /// In a well-formed chunk graph every chunk holds finitely many modules.
    pub proof fn lemma_finite(&self, chunk: ChunkUkey)
        requires
            self.wf(),
        ensures
            modules_of(self@, chunk).finite(),
            entry_modules_of(self@, chunk).finite(),
    {
        if self.chunks@.contains_key(chunk.0) {
            lemma_identifiers_len(self.chunks@[chunk.0].modules@);
            lemma_identifiers_len(self.chunks@[chunk.0].entry_modules@);
        }
    }

    /// A chunk graph without chunks.
    pub fn new() -> (graph: Self)
        ensures
            graph.wf(),
            graph@ == Map::<ChunkUkey, ChunkGraphChunkView>::empty(),
    {
        let graph = ChunkGraph { chunks: HashMap::new() };
        assert(graph@ =~= Map::<ChunkUkey, ChunkGraphChunkView>::empty());
        graph
    }

    fn take(&mut self, chunk: ChunkUkey) -> (entry: ChunkGraphChunk)
        requires
            old(self).wf(),
        ensures
            final(self).wf(),
            entry.finite(),
            entry.content() == chunk_content(old(self)@, chunk),
            final(self).chunks@ == old(self).chunks@.remove(chunk.0),
    {
        match self.chunks.remove(&chunk.0) {
            Some(entry) => entry,
            None => ChunkGraphChunk::new(),
        }
    }

    fn put(&mut self, chunk: ChunkUkey, entry: ChunkGraphChunk, Ghost(before): Ghost<Map<ChunkUkey, ChunkGraphChunkView>>)
        requires
            old(self).wf(),
            entry.finite(),
            forall|c: ChunkUkey|
                c != chunk ==> (before.contains_key(c) <==> #[trigger] old(self)@.contains_key(c)),
            forall|c: ChunkUkey|
                c != chunk && before.contains_key(c) ==> before[c] == #[trigger] old(self)@[c],
        ensures
            final(self).wf(),
            final(self)@ == before.insert(chunk, entry.content()),
    {
        let ghost content = entry.content();
        self.chunks.insert(chunk.0, entry);
        proof {
            assert forall|c: ChunkUkey| self@.contains_key(c) <==> before.insert(
                chunk,
                content,
            ).contains_key(c) by {
                if c != chunk {
                    assert(c.0 != chunk.0);
                    assert(old(self)@.contains_key(c) <==> old(self).chunks@.contains_key(c.0));
                }
            }
            assert forall|c: ChunkUkey| self@.contains_key(c) implies self@[c] == before.insert(
                chunk,
                content,
            )[c] by {
                if c != chunk {
                    assert(c.0 != chunk.0);
                    assert(old(self)@.contains_key(c));
                    assert(before.contains_key(c));
                    assert(before[c] == old(self)@[c]);
                    assert(self.chunks@[c.0] == old(self).chunks@[c.0]);
                } else {
                    assert(self.chunks@[chunk.0].content() == content);
                }
            }
            assert(self@ =~= before.insert(chunk, content));
        }
    }

    /// Registers a chunk that holds nothing yet. A chunk that is registered
    /// already keeps what it holds.
    pub fn add_chunk(&mut self, chunk: ChunkUkey)
        requires
            old(self).wf(),
        ensures
            final(self).wf(),
            final(self)@ == old(self)@.insert(chunk, chunk_content(old(self)@, chunk)),
    {
        let ghost before = self@;
        let entry = self.take(chunk);
        proof {
            lemma_others_kept(*old(self), *self, chunk);
        }
        self.put(chunk, entry, Ghost(before));
    }

    /// Makes a module a member of a chunk, registering the chunk if need be.
    /// Connecting a pair that is connected already changes nothing.
    pub fn connect_chunk_and_module(&mut self, chunk: ChunkUkey, module_identifier: ModuleIdentifier)
        requires
            old(self).wf(),
        ensures
            final(self).wf(),
            final(self)@ == connected(old(self)@, chunk, module_identifier),
    {
        let ghost before = self@;
        let mut entry = self.take(chunk);
        let ghost taken = entry.content();
        entry.modules.insert(module_identifier.0);
        proof {
            lemma_others_kept(*old(self), *self, chunk);
            assert(entry.content().modules =~= taken.modules.insert(module_identifier));
        }
        self.put(chunk, entry, Ghost(before));
    }

    /// Makes a module an entry module of a chunk, registering the chunk if
    /// need be.
    pub fn connect_chunk_and_entry_module(&mut self, chunk: ChunkUkey, module_identifier: ModuleIdentifier)
        requires
            old(self).wf(),
        ensures
            final(self).wf(),
            final(self)@ == old(self)@.insert(
                chunk,
                ChunkGraphChunkView {
                    modules: modules_of(old(self)@, chunk),
                    entry_modules: entry_modules_of(old(self)@, chunk).insert(module_identifier),
                },
            ),
    {
        let ghost before = self@;
        let mut entry = self.take(chunk);
        let ghost taken = entry.content();
        entry.entry_modules.insert(module_identifier.0);
        proof {
            lemma_others_kept(*old(self), *self, chunk);
            assert(entry.content().entry_modules =~= taken.entry_modules.insert(module_identifier));
        }
        self.put(chunk, entry, Ghost(before));
    }

    /// Ends the membership of a module in a chunk. For a pair that is not
    /// connected, and for a chunk that is not registered, nothing changes.
    pub fn disconnect_chunk_and_module(&mut self, chunk: &ChunkUkey, module_identifier: ModuleIdentifier)
        requires
            old(self).wf(),
        ensures
            final(self).wf(),
            final(self)@ == disconnected(old(self)@, *chunk, module_identifier),
    {
        if !self.chunks.contains_key(&chunk.0) {
            return ;
        }
        let ghost before = self@;
        let mut entry = self.take(*chunk);
        let ghost taken = entry.content();
        entry.modules.remove(&module_identifier.0);
        proof {
            lemma_others_kept(*old(self), *self, *chunk);
            assert(entry.content().modules =~= taken.modules.remove(module_identifier));
        }
        self.put(*chunk, entry, Ghost(before));
    }

    /// Whether a chunk is registered.
    pub fn contains_chunk(&self, chunk: &ChunkUkey) -> (known: bool)
        ensures
            known == self@.contains_key(*chunk),
    {
        self.chunks.contains_key(&chunk.0)
    }

    /// How many modules belong to a chunk.
    pub fn get_number_of_chunk_modules(&self, chunk: &ChunkUkey) -> (count: usize)
        requires
            self.wf(),
        ensures
            count == modules_of(self@, *chunk).len(),
    {
        match self.chunks.get(&chunk.0) {
            Some(entry) => {
                proof {
                    lemma_identifiers_len(entry.modules@);
                }
                entry.modules.len()
            },
            None => 0,
        }
    }

    /// How many entry modules a chunk has.
    pub fn get_number_of_entry_modules(&self, chunk: &ChunkUkey) -> (count: usize)
        requires
            self.wf(),
        ensures
            count == entry_modules_of(self@, *chunk).len(),
    {
        match self.chunks.get(&chunk.0) {
            Some(entry) => {
                proof {
                    lemma_identifiers_len(entry.entry_modules@);
                }
                entry.entry_modules.len()
            },
            None => 0,
        }
    }

    /// Whether a module belongs to a chunk.
    pub fn is_module_in_chunk(&self, module_identifier: &ModuleIdentifier, chunk: ChunkUkey) -> (member:
        bool)
        ensures
            member == modules_of(self@, chunk).contains(*module_identifier),
    {
        match self.chunks.get(&chunk.0) {
            Some(entry) => entry.modules.contains(&module_identifier.0),
            None => false,
        }
    }
}

/// Taking one chunk out of the table leaves the others as they were.
proof fn lemma_others_kept(before: ChunkGraph, after: ChunkGraph, chunk: ChunkUkey)
    requires
        after.chunks@ == before.chunks@.remove(chunk.0),
    ensures
        forall|c: ChunkUkey|
            c != chunk ==> (before@.contains_key(c) <==> #[trigger] after@.contains_key(c)),
        forall|c: ChunkUkey| c != chunk && before@.contains_key(c) ==> before@[c] == #[trigger] after@[c],
{
    assert forall|c: ChunkUkey| c != chunk implies (before@.contains_key(c) <==> #[trigger] after@.contains_key(
        c,
    )) by {
        assert(c.0 != chunk.0);
    }
    assert forall|c: ChunkUkey| c != chunk && before@.contains_key(c) implies before@[c]
        == #[trigger] after@[c] by {
        assert(c.0 != chunk.0);
    }
}

} // verus!
