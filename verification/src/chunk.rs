//! Chunks, the registry that owns them, the index of named chunks and the
//! record of which chunk was split into which.

use crate::identifier::{ChunkGroupUkey, ChunkUkey};
use vstd::prelude::*;

verus! {

/// An output unit. Its key never changes; its name is fixed at creation and
/// its list of reasons only grows.
#[derive(Debug)]
pub struct Chunk {
    pub ukey: ChunkUkey,
    pub name: Option<String>,
    pub chunk_reasons: Vec<String>,
}

/// The mathematical content of a chunk.
pub struct ChunkView {
    pub name: Option<Seq<char>>,
    pub chunk_reasons: Seq<Seq<char>>,
}

/// The view of an optional name.
pub open spec fn name_view(name: Option<String>) -> Option<Seq<char>> {
    match name {
        Some(n) => Some(n@),
        None => None,
    }
}

impl View for Chunk {
    type V = ChunkView;

    open spec fn view(&self) -> ChunkView {
        ChunkView {
            name: name_view(self.name),
            chunk_reasons: Seq::new(self.chunk_reasons@.len(), |i: int| self.chunk_reasons@[i]@),
        }
    }
}

impl Chunk {
    /// Records in the registry of chunk groups that part of this chunk was
    /// moved into `new_chunk`. A chunk is never split into itself.
    pub fn split(&self, new_chunk: &Chunk, chunk_group_by_ukey: &mut ChunkGroupByUkey)
        requires
            self.ukey != new_chunk.ukey,
            old(chunk_group_by_ukey).wf(),
        ensures
            final(chunk_group_by_ukey).wf(),
            final(chunk_group_by_ukey)@ == old(chunk_group_by_ukey)@.insert(
                (self.ukey, new_chunk.ukey),
            ),
            final(chunk_group_by_ukey).groups() == old(chunk_group_by_ukey).groups(),
    {
        chunk_group_by_ukey.record_split(self.ukey, new_chunk.ukey);
    }
}

/// The registry that owns every chunk of a compilation. Chunks are created
/// here and never removed.
pub struct ChunkByUkey {
    chunks: Vec<Chunk>,
}

impl View for ChunkByUkey {
    type V = Map<ChunkUkey, ChunkView>;

    closed spec fn view(&self) -> Map<ChunkUkey, ChunkView> {
        Map::new(|k: ChunkUkey| k.0 < self.chunks@.len(), |k: ChunkUkey| self.chunks@[k.0 as int]@)
    }
}

impl ChunkByUkey {
    /// The representation invariant: each chunk is stored under its own key.
    pub closed spec fn wf(&self) -> bool {
        forall|i: int| 0 <= i < self.chunks@.len() ==> (#[trigger] self.chunks@[i]).ukey.0 == i
    }

    /// A registry without chunks.
    pub fn new() -> (registry: Self)
        ensures
            registry.wf(),
            registry@ == Map::<ChunkUkey, ChunkView>::empty(),
    {
        let registry = ChunkByUkey { chunks: Vec::new() };
        assert(registry@ =~= Map::<ChunkUkey, ChunkView>::empty());
        registry
    }

    /// Creates a chunk under a key that no chunk had before.
    pub(crate) fn add(&mut self, name: Option<String>) -> (ukey: ChunkUkey)
        requires
            old(self).wf(),
        ensures
            final(self).wf(),
            !old(self)@.contains_key(ukey),
            final(self)@ == old(self)@.insert(
                ukey,
                ChunkView { name: name_view(name), chunk_reasons: Seq::empty() },
            ),
    {
        let ukey = ChunkUkey(self.chunks.len());
        self.chunks.push(Chunk { ukey, name, chunk_reasons: Vec::new() });
        proof {
            assert(self.chunks@[ukey.0 as int]@.chunk_reasons =~= Seq::<Seq<char>>::empty());
            assert(self@ =~= old(self)@.insert(
                ukey,
                ChunkView { name: name_view(name), chunk_reasons: Seq::empty() },
            ));
        }
        ukey
    }

    /// Whether a key names a chunk of this registry.
    pub fn contains(&self, ukey: &ChunkUkey) -> (known: bool)
        ensures
            known == self@.contains_key(*ukey),
    {
        ukey.0 < self.chunks.len()
    }

    /// The chunk that a key names, if any.
    pub fn get(&self, ukey: &ChunkUkey) -> (chunk: Option<&Chunk>)
        requires
            self.wf(),
        ensures
            chunk is Some <==> self@.contains_key(*ukey),
            chunk matches Some(c) ==> c@ == self@[*ukey] && c.ukey == *ukey,
    {
        if ukey.0 < self.chunks.len() {
            Some(&self.chunks[ukey.0])
        } else {
            None
        }
    }

    /// Appends a reason to a chunk's list of reasons. For a key that names no
    /// chunk nothing changes.
    pub fn push_chunk_reason(&mut self, ukey: &ChunkUkey, reason: String)
        requires
            old(self).wf(),
        ensures
            final(self).wf(),
            final(self)@ == if old(self)@.contains_key(*ukey) {
                old(self)@.insert(
                    *ukey,
                    ChunkView {
                        name: old(self)@[*ukey].name,
                        chunk_reasons: old(self)@[*ukey].chunk_reasons.push(reason@),
                    },
                )
            } else {
                old(self)@
            },
    {
        if ukey.0 < self.chunks.len() {
            self.chunks[ukey.0].chunk_reasons.push(reason);
            proof {
                let i = ukey.0 as int;
                assert(self.chunks@[i]@.chunk_reasons =~= old(self).chunks@[i]@.chunk_reasons.push(
                    reason@,
                ));
                assert forall|k: ChunkUkey| k != *ukey && self@.contains_key(k) implies self@[k] == old(
                    self,
                )@[k] by {
                    assert(self.chunks@[k.0 as int] == old(self).chunks@[k.0 as int]);
                }
                assert(self@ =~= old(self)@.insert(
                    *ukey,
                    ChunkView {
                        name: old(self)@[*ukey].name,
                        chunk_reasons: old(self)@[*ukey].chunk_reasons.push(reason@),
                    },
                ));
            }
        }
    }
}

/// One entry of the index of named chunks.
struct NamedChunk {
    name: String,
    ukey: ChunkUkey,
}

/// The index of chunks by name. A name occurs at most once.
pub struct NamedChunks {
    entries: Vec<NamedChunk>,
}

impl NamedChunks {
    spec fn position(&self, name: Seq<char>, i: int) -> bool {
        0 <= i < self.entries@.len() && self.entries@[i].name@ == name
    }
}

impl View for NamedChunks {
    type V = Map<Seq<char>, ChunkUkey>;

    closed spec fn view(&self) -> Map<Seq<char>, ChunkUkey> {
        Map::new(
            |name: Seq<char>| exists|i: int| #[trigger] self.position(name, i),
            |name: Seq<char>| self.entries@[choose|i: int| #[trigger] self.position(name, i)].ukey,
        )
    }
}

impl NamedChunks {
    /// The representation invariant: no name occurs twice.
    pub closed spec fn wf(&self) -> bool {
        forall|i: int, j: int|
            0 <= i < self.entries@.len() && 0 <= j < self.entries@.len() && i != j
                ==> (#[trigger] self.entries@[i]).name@ != (#[trigger] self.entries@[j]).name@
    }

    proof fn lemma_entry(&self, i: int)
        requires
            self.wf(),
            0 <= i < self.entries@.len(),
        ensures
            self@.contains_key(self.entries@[i].name@),
            self@[self.entries@[i].name@] == self.entries@[i].ukey,
    {
        let name = self.entries@[i].name@;
        assert(self.position(name, i));
        let j = choose|j: int| #[trigger] self.position(name, j);
        assert(i == j);
    }

    /// An index without names.
    pub fn new() -> (index: Self)
        ensures
            index.wf(),
            index@ == Map::<Seq<char>, ChunkUkey>::empty(),
    {
        let index = NamedChunks { entries: Vec::new() };
        assert forall|name: Seq<char>| !index@.contains_key(name) by {
            if index@.contains_key(name) {
                let i = choose|i: int| #[trigger] index.position(name, i);
                assert(index.position(name, i));
            }
        }
        assert(index@ =~= Map::<Seq<char>, ChunkUkey>::empty());
        index
    }

    fn find(&self, name: &String) -> (slot: Option<usize>)
        requires
            self.wf(),
        ensures
            slot is Some <==> self@.contains_key(name@),
            slot matches Some(i) ==> i < self.entries@.len() && self.entries@[i as int].name@ == name@
                && self.entries@[i as int].ukey == self@[name@],
    {
        let mut i: usize = 0;
        while i < self.entries.len()
            invariant
                i <= self.entries@.len(),
                self.wf(),
                forall|j: int| 0 <= j < i ==> (#[trigger] self.entries@[j]).name@ != name@,
            decreases self.entries@.len() - i,
        {
            if self.entries[i].name == *name {
                proof {
                    self.lemma_entry(i as int);
                }
                return Some(i);
            }
            i += 1;
        }
        proof {
            if self@.contains_key(name@) {
                let j = choose|j: int| #[trigger] self.position(name@, j);
                assert(self.position(name@, j));
            }
        }
        None
    }

    /// The key of the chunk registered under a name, if any.
    pub fn get(&self, name: &String) -> (ukey: Option<&ChunkUkey>)
        requires
            self.wf(),
        ensures
            ukey is Some <==> self@.contains_key(name@),
            ukey matches Some(k) ==> *k == self@[name@],
    {
        match self.find(name) {
            Some(i) => Some(&self.entries[i].ukey),
            None => None,
        }
    }

    /// Registers a chunk under a name. A chunk that had the name before is
    /// replaced in the index and returned.
    pub fn insert(&mut self, name: String, ukey: ChunkUkey) -> (previous: Option<ChunkUkey>)
        requires
            old(self).wf(),
        ensures
            final(self).wf(),
            final(self)@ == old(self)@.insert(name@, ukey),
            previous == if old(self)@.contains_key(name@) {
                Some(old(self)@[name@])
            } else {
                None
            },
    {
        match self.find(&name) {
            Some(i) => {
                let previous = self.entries[i].ukey;
                self.entries[i].ukey = ukey;
                proof {
                    assert forall|j: int| 0 <= j < self.entries@.len() implies (
                    #[trigger] self.entries@[j]).name@ == old(self).entries@[j].name@ by {}
                    assert forall|n: Seq<char>| self@.contains_key(n) <==> old(self)@.insert(
                        name@,
                        ukey,
                    ).contains_key(n) by {
                        if self@.contains_key(n) {
                            let j = choose|j: int| #[trigger] self.position(n, j);
                            assert(old(self).position(n, j));
                        }
                        if old(self)@.contains_key(n) {
                            let j = choose|j: int| #[trigger] old(self).position(n, j);
                            assert(self.position(n, j));
                        }
                        if n == name@ {
                            assert(self.position(n, i as int));
                        }
                    }
                    assert forall|n: Seq<char>| self@.contains_key(n) implies self@[n] == old(
                        self,
                    )@.insert(name@, ukey)[n] by {
                        let j = choose|j: int| #[trigger] self.position(n, j);
                        self.lemma_entry(j);
                        if n != name@ {
                            old(self).lemma_entry(j);
                        } else {
                            assert(j == i);
                        }
                    }
                    assert(self@ =~= old(self)@.insert(name@, ukey));
                }
                Some(previous)
            },
            None => {
                self.entries.push(NamedChunk { name, ukey });
                proof {
                    let last = old(self).entries@.len() as int;
                    assert forall|j: int, k: int|
                        0 <= j < self.entries@.len() && 0 <= k < self.entries@.len() && j != k implies (
                    #[trigger] self.entries@[j]).name@ != (#[trigger] self.entries@[k]).name@ by {
                        if j < last {
                            assert(old(self).position(self.entries@[j].name@, j));
                        }
                        if k < last {
                            assert(old(self).position(self.entries@[k].name@, k));
                        }
                    }
                    assert forall|n: Seq<char>| self@.contains_key(n) <==> old(self)@.insert(
                        name@,
                        ukey,
                    ).contains_key(n) by {
                        if self@.contains_key(n) {
                            let j = choose|j: int| #[trigger] self.position(n, j);
                            if j < last {
                                assert(old(self).position(n, j));
                            }
                        }
                        if old(self)@.contains_key(n) {
                            let j = choose|j: int| #[trigger] old(self).position(n, j);
                            assert(self.position(n, j));
                        }
                        if n == name@ {
                            assert(self.position(n, last));
                        }
                    }
                    assert forall|n: Seq<char>| self@.contains_key(n) implies self@[n] == old(
                        self,
                    )@.insert(name@, ukey)[n] by {
                        let j = choose|j: int| #[trigger] self.position(n, j);
                        self.lemma_entry(j);
                        if j < last {
                            assert(old(self).position(n, j));
                            old(self).lemma_entry(j);
                        }
                    }
                    assert(self@ =~= old(self)@.insert(name@, ukey));
                }
                None
            },
        }
    }
}

/// One split: part of `origin` was moved into `derived`.
#[derive(Clone, Copy)]
struct SplitRelation {
    origin: ChunkUkey,
    derived: ChunkUkey,
}

/// What a chunk group stands for.
#[derive(Clone, Copy, Debug, PartialEq, Eq, Hash, Structural)]
pub enum ChunkGroupKind {
    /// The chunks with which an entry point starts.
    Entrypoint,
    /// The chunks that are loaded together on demand.
    Normal,
}

/// A group of chunks that are loaded together.
#[derive(Debug)]
pub struct ChunkGroup {
    pub ukey: ChunkGroupUkey,
    pub kind: ChunkGroupKind,
    /// The chunks of the group in loading order. No chunk occurs twice.
    pub chunks: Vec<ChunkUkey>,
}

/// The mathematical content of a chunk group.
pub struct ChunkGroupView {
    pub kind: ChunkGroupKind,
    pub chunks: Seq<ChunkUkey>,
}

impl View for ChunkGroup {
    type V = ChunkGroupView;

    open spec fn view(&self) -> ChunkGroupView {
        ChunkGroupView { kind: self.kind, chunks: self.chunks@ }
    }
}

/// The registry of chunk groups. Beside the groups it records for every split
/// from which chunk into which chunk modules were moved, so that the chunk
/// that now holds a module can be found from the chunk that held it first.
/// The view of the registry is the set of recorded splits.
pub struct ChunkGroupByUkey {
    groups: Vec<ChunkGroup>,
    splits: Vec<SplitRelation>,
}

impl View for ChunkGroupByUkey {
    type V = Set<(ChunkUkey, ChunkUkey)>;

    closed spec fn view(&self) -> Set<(ChunkUkey, ChunkUkey)> {
        Set::new(
            |pair: (ChunkUkey, ChunkUkey)|
                exists|i: int|
                    0 <= i < self.splits@.len() && (#[trigger] self.splits@[i]).origin == pair.0
                        && self.splits@[i].derived == pair.1,
        )
    }
}

impl ChunkGroupByUkey {
    /// The chunk groups, by their keys.
    pub closed spec fn groups(&self) -> Map<ChunkGroupUkey, ChunkGroupView> {
        Map::new(
            |k: ChunkGroupUkey| k.0 < self.groups@.len(),
            |k: ChunkGroupUkey| self.groups@[k.0 as int]@,
        )
    }

    /// The representation invariant: each group is stored under its own key
    /// and holds no chunk twice, and no chunk is recorded as split into
    /// itself.
    pub closed spec fn wf(&self) -> bool {
        &&& forall|i: int|
            0 <= i < self.splits@.len() ==> (#[trigger] self.splits@[i]).origin
                != self.splits@[i].derived
        &&& forall|i: int|
            0 <= i < self.groups@.len() ==> (#[trigger] self.groups@[i]).ukey.0 == i
                && self.groups@[i].chunks@.no_duplicates()
    }

    /// No chunk is linked to itself.
    pub proof fn lemma_no_self_split(&self, chunk: ChunkUkey)
        requires
            self.wf(),
        ensures
            !self@.contains((chunk, chunk)),
    {
    }

    /// No group holds a chunk twice.
    pub proof fn lemma_group_chunks_distinct(&self, group: ChunkGroupUkey)
        requires
            self.wf(),
            self.groups().contains_key(group),
        ensures
            self.groups()[group].chunks.no_duplicates(),
    {
    }

    /// A registry without groups and without splits.
    pub fn new() -> (registry: Self)
        ensures
            registry.wf(),
            registry@ == Set::<(ChunkUkey, ChunkUkey)>::empty(),
            registry.groups() == Map::<ChunkGroupUkey, ChunkGroupView>::empty(),
    {
        let registry = ChunkGroupByUkey { groups: Vec::new(), splits: Vec::new() };
        assert(registry@ =~= Set::<(ChunkUkey, ChunkUkey)>::empty());
        assert(registry.groups() =~= Map::<ChunkGroupUkey, ChunkGroupView>::empty());
        registry
    }

    /// Creates a chunk group without chunks under a key that no group had
    /// before.
    pub fn add(&mut self, kind: ChunkGroupKind) -> (ukey: ChunkGroupUkey)
        requires
            old(self).wf(),
        ensures
            final(self).wf(),
            !old(self).groups().contains_key(ukey),
            final(self).groups() == old(self).groups().insert(
                ukey,
                ChunkGroupView { kind, chunks: Seq::empty() },
            ),
            final(self)@ == old(self)@,
    {
        let ukey = ChunkGroupUkey(self.groups.len());
        self.groups.push(ChunkGroup { ukey, kind, chunks: Vec::new() });
        proof {
            assert(self.groups() =~= old(self).groups().insert(
                ukey,
                ChunkGroupView { kind, chunks: Seq::empty() },
            ));
            assert(self@ =~= old(self)@);
        }
        ukey
    }

    /// The chunk group that a key names, if any.
    pub fn get(&self, ukey: &ChunkGroupUkey) -> (group: Option<&ChunkGroup>)
        requires
            self.wf(),
        ensures
            group is Some <==> self.groups().contains_key(*ukey),
            group matches Some(g) ==> g@ == self.groups()[*ukey] && g.ukey == *ukey,
    {
        if ukey.0 < self.groups.len() {
            Some(&self.groups[ukey.0])
        } else {
            None
        }
    }

    /// Puts a chunk last into a group. Returns `false`, and changes nothing,
    /// if the key names no group or the group holds the chunk already.
    pub fn connect_chunk(&mut self, group: &ChunkGroupUkey, chunk: ChunkUkey) -> (added: bool)
        requires
            old(self).wf(),
        ensures
            final(self).wf(),
            final(self)@ == old(self)@,
            added == (old(self).groups().contains_key(*group) && !old(self).groups()[*group].chunks.contains(
                chunk,
            )),
            final(self).groups() == if added {
                old(self).groups().insert(
                    *group,
                    ChunkGroupView {
                        kind: old(self).groups()[*group].kind,
                        chunks: old(self).groups()[*group].chunks.push(chunk),
                    },
                )
            } else {
                old(self).groups()
            },
    {
        if group.0 >= self.groups.len() {
            return false;
        }
        let mut i: usize = 0;
        while i < self.groups[group.0].chunks.len()
            invariant
                *self == *old(self),
                self.wf(),
                group.0 < self.groups@.len(),
                i <= self.groups@[group.0 as int].chunks@.len(),
                forall|j: int| 0 <= j < i ==> self.groups@[group.0 as int].chunks@[j] != chunk,
            decreases self.groups@[group.0 as int].chunks@.len() - i,
        {
            if self.groups[group.0].chunks[i] == chunk {
                return false;
            }
            i += 1;
        }
        self.groups[group.0].chunks.push(chunk);
        proof {
            assert forall|k: ChunkGroupUkey| k != *group && self.groups().contains_key(k) implies self.groups()[k]
                == old(self).groups()[k] by {
                assert(self.groups@[k.0 as int] == old(self).groups@[k.0 as int]);
            }
            assert(self.groups() =~= old(self).groups().insert(
                *group,
                ChunkGroupView {
                    kind: old(self).groups()[*group].kind,
                    chunks: old(self).groups()[*group].chunks.push(chunk),
                },
            ));
            assert(self@ =~= old(self)@);
        }
        true
    }

    /// Records that part of `origin` was moved into `derived`.
    pub fn record_split(&mut self, origin: ChunkUkey, derived: ChunkUkey)
        requires
            old(self).wf(),
            origin != derived,
        ensures
            final(self).wf(),
            final(self)@ == old(self)@.insert((origin, derived)),
            final(self).groups() == old(self).groups(),
    {
        self.splits.push(SplitRelation { origin, derived });
        proof {
            let last = old(self).splits@.len() as int;
            assert forall|pair: (ChunkUkey, ChunkUkey)|
                self@.contains(pair) <==> old(self)@.insert((origin, derived)).contains(pair) by {
                if old(self)@.contains(pair) {
                    let i = choose|i: int|
                        0 <= i < old(self).splits@.len() && (#[trigger] old(self).splits@[i]).origin
                            == pair.0 && old(self).splits@[i].derived == pair.1;
                    assert(self.splits@[i].origin == pair.0);
                }
                if pair == (origin, derived) {
                    assert(self.splits@[last].origin == origin);
                }
                if self@.contains(pair) {
                    let i = choose|i: int|
                        0 <= i < self.splits@.len() && (#[trigger] self.splits@[i]).origin == pair.0
                            && self.splits@[i].derived == pair.1;
                    if i < last {
                        assert(old(self).splits@[i].origin == pair.0);
                    }
                }
            }
            assert(self@ =~= old(self)@.insert((origin, derived)));
        }
    }

    /// Whether part of `origin` was moved into `derived`.
    pub fn is_split_into(&self, origin: &ChunkUkey, derived: &ChunkUkey) -> (found: bool)
        ensures
            found == self@.contains((*origin, *derived)),
    {
        let mut i: usize = 0;
        while i < self.splits.len()
            invariant
                i <= self.splits@.len(),
                forall|j: int|
                    0 <= j < i ==> !((#[trigger] self.splits@[j]).origin == *origin
                        && self.splits@[j].derived == *derived),
            decreases self.splits@.len() - i,
        {
            let split = self.splits[i];
            if split.origin == *origin && split.derived == *derived {
                return true;
            }
            i += 1;
        }
        false
    }
}

} // verus!
