//! Chunk splitting: a module group is turned into a target chunk, the
//! group's modules are moved into it, and the split is recorded.

use crate::chunk::{name_view, Chunk, ChunkView};
use crate::chunk_graph::{chunk_content, entry_modules_of, modules_of, ChunkGraphChunkView};
use crate::compilation::Compilation;
use crate::identifier::{ChunkUkey, ModuleIdentifier};
use crate::module_group::ModuleGroup;
use vstd::prelude::*;
use vstd::utf8::encode_utf8;

verus! {

/// `a` and `b` agree before position `i`, and there `a` ends or holds the
/// smaller byte.
pub open spec fn first_difference(a: Seq<u8>, b: Seq<u8>, i: int) -> bool {
    &&& 0 <= i <= a.len()
    &&& i < b.len()
    &&& forall|j: int| 0 <= j < i ==> a[j] == b[j]
    &&& (i == a.len() || a[i] < b[i])
}

/// `a` comes before `b` in lexicographic order.
pub open spec fn lex_less(a: Seq<u8>, b: Seq<u8>) -> bool {
    exists|i: int| #[trigger] first_difference(a, b, i)
}

/// Whether a chunk named `second` is preferred over one named `first`. A
/// name is preferred over none, a shorter name over a longer one, and of two
/// names of one length the lexicographically smaller. Lengths and order are
/// those of the names' UTF-8 bytes.
pub open spec fn second_is_better(first: Option<Seq<char>>, second: Option<Seq<char>>) -> bool {
    match (first, second) {
        (None, None) => false,
        (None, Some(_)) => true,
        (Some(_), None) => false,
        (Some(f), Some(s)) => {
            let fb = encode_utf8(f);
            let sb = encode_utf8(s);
            sb.len() < fb.len() || (sb.len() == fb.len() && lex_less(sb, fb))
        },
    }
}

/// Whether `chunk` can stand for a group as it is: it holds as many modules
/// as the group, it is not an entry chunk while the group spans several
/// chunks, and it holds every module of the group.
pub open spec fn is_reusable(
    graph: Map<ChunkUkey, ChunkGraphChunkView>,
    modules: Seq<ModuleIdentifier>,
    origin_count: nat,
    chunk: ChunkUkey,
) -> bool {
    &&& modules_of(graph, chunk).len() == modules.len()
    &&& !(origin_count > 1 && entry_modules_of(graph, chunk).len() > 0)
    &&& forall|i: int| 0 <= i < modules.len() ==> modules_of(graph, chunk).contains(#[trigger] modules[i])
}

/// The preferred of two chunks; the first stays unless the second is better.
pub open spec fn better_of(chunks: Map<ChunkUkey, ChunkView>, first: ChunkUkey, second: ChunkUkey) -> ChunkUkey {
    if second_is_better(chunks[first].name, chunks[second].name) {
        second
    } else {
        first
    }
}

/// The reusable chunk that wins the pairwise comparison of all reusable
/// candidates, taken in order; `None` when no candidate is reusable.
pub open spec fn best_reusable(
    chunks: Map<ChunkUkey, ChunkView>,
    graph: Map<ChunkUkey, ChunkGraphChunkView>,
    modules: Seq<ModuleIdentifier>,
    origin_count: nat,
    candidates: Seq<ChunkUkey>,
) -> Option<ChunkUkey>
    decreases candidates.len(),
{
    if candidates.len() == 0 {
        None
    } else {
        let earlier = best_reusable(chunks, graph, modules, origin_count, candidates.drop_last());
        let last = candidates.last();
        if !is_reusable(graph, modules, origin_count, last) {
            earlier
        } else {
            match earlier {
                None => Some(last),
                Some(best) => Some(better_of(chunks, best, last)),
            }
        }
    }
}

/// Every origin chunk of a group is a chunk of the compilation.
pub open spec fn origins_registered(chunks: Map<ChunkUkey, ChunkView>, origins: Seq<ChunkUkey>) -> bool {
    forall|i: int| 0 <= i < origins.len() ==> chunks.contains_key(#[trigger] origins[i])
}

/// The chunk that exists already and becomes the target of a group: the
/// chunk that bears the name the group asks for, or, for a group without a
/// name whose policy allows reuse, the best reusable chunk. `None` when a new
/// chunk has to be created.
pub open spec fn existing_target(compilation: Compilation, group: ModuleGroup) -> Option<ChunkUkey> {
    match group.chunk_name {
        Some(name) => if compilation.named_chunks@.contains_key(name@) {
            Some(compilation.named_chunks@[name@])
        } else {
            None
        },
        None => if group.cache_group_reuse_existing_chunk {
            best_reusable(
                compilation.chunk_by_ukey@,
                compilation.chunk_graph@,
                group.modules@,
                group.chunks@.len(),
                group.chunks@,
            )
        } else {
            None
        },
    }
}

/// The reason that a chunk created by the splitting pass bears.
pub open spec fn split_reason() -> Seq<char> {
    "Create by split chunks"@
}

/// The registry of chunks and the index of names once the target of a group
/// is there: unchanged when an existing chunk is the target; else `target` is
/// a new chunk with the name the group asks for and the split reason, entered
/// in the index of names if it has a name.
pub open spec fn target_chosen(
    before: Compilation,
    after: Compilation,
    group: ModuleGroup,
    target: ChunkUkey,
) -> bool {
    match existing_target(before, group) {
        Some(existing) => {
            &&& target == existing
            &&& after.chunk_by_ukey@ == before.chunk_by_ukey@
            &&& after.named_chunks@ == before.named_chunks@
        },
        None => {
            &&& !before.chunk_by_ukey@.contains_key(target)
            &&& after.chunk_by_ukey@ == before.chunk_by_ukey@.insert(
                target,
                ChunkView { name: name_view(group.chunk_name), chunk_reasons: seq![split_reason()] },
            )
            &&& after.named_chunks@ == match group.chunk_name {
                Some(name) => before.named_chunks@.insert(name@, target),
                None => before.named_chunks@,
            }
        },
    }
}

/// The chunk graph once the target of a group is there: a target that was
/// created is registered.
pub open spec fn graph_with_target(before: Compilation, group: ModuleGroup, target: ChunkUkey) -> Map<
    ChunkUkey,
    ChunkGraphChunkView,
> {
    if existing_target(before, group) is Some {
        before.chunk_graph@
    } else {
        before.chunk_graph@.insert(target, chunk_content(before.chunk_graph@, target))
    }
}

/// The compilation once the target of a group is there and nothing was moved
/// yet.
pub open spec fn target_in_place(
    before: Compilation,
    after: Compilation,
    group: ModuleGroup,
    target: ChunkUkey,
) -> bool {
    &&& after.module_graph == before.module_graph
    &&& after.chunk_group_by_ukey == before.chunk_group_by_ukey
    &&& target_chosen(before, after, group, target)
    &&& after.chunk_graph@ == graph_with_target(before, group, target)
}

/// The chunk graph after the modules of a group were moved: the target holds
/// them beside what it held, every other origin chunk has lost them, and no
/// other chunk has changed. Entry modules stay where they are.
pub open spec fn modules_moved(
    before: Map<ChunkUkey, ChunkGraphChunkView>,
    after: Map<ChunkUkey, ChunkGraphChunkView>,
    modules: Seq<ModuleIdentifier>,
    origins: Seq<ChunkUkey>,
    target: ChunkUkey,
) -> bool {
    &&& forall|c: ChunkUkey| #[trigger]
        modules_of(after, c) == if c == target {
            modules_of(before, c).union(modules.to_set())
        } else if origins.contains(c) {
            modules_of(before, c).difference(modules.to_set())
        } else {
            modules_of(before, c)
        }
    &&& forall|c: ChunkUkey| #[trigger] entry_modules_of(after, c) == entry_modules_of(before, c)
    &&& forall|c: ChunkUkey| #[trigger]
        after.contains_key(c) <==> before.contains_key(c) || (c == target && modules.len() > 0)
}

/// The splits from each of `origins` into `target`.
pub open spec fn splits_into(origins: Seq<ChunkUkey>, target: ChunkUkey) -> Set<(ChunkUkey, ChunkUkey)> {
    Set::new(|pair: (ChunkUkey, ChunkUkey)| origins.contains(pair.0) && pair.1 == target)
}

/// The origin chunks of a group without the target.
pub open spec fn other_origins(origins: Seq<ChunkUkey>, target: ChunkUkey) -> Seq<ChunkUkey> {
    origins.filter(differs_from(target))
}

/// Selects the chunks other than `target`.
pub open spec fn differs_from(target: ChunkUkey) -> spec_fn(ChunkUkey) -> bool {
    |c: ChunkUkey| c != target
}

spec fn moved_pointwise(
    before: Map<ChunkUkey, ChunkGraphChunkView>,
    after: Map<ChunkUkey, ChunkGraphChunkView>,
    modules: Seq<ModuleIdentifier>,
    origins: Seq<ChunkUkey>,
    target: ChunkUkey,
) -> bool {
    &&& forall|c: ChunkUkey, m: ModuleIdentifier| #[trigger]
        modules_of(after, c).contains(m) <==> if c == target {
            modules_of(before, c).contains(m) || modules.contains(m)
        } else if origins.contains(c) {
            modules_of(before, c).contains(m) && !modules.contains(m)
        } else {
            modules_of(before, c).contains(m)
        }
    &&& forall|c: ChunkUkey| #[trigger] entry_modules_of(after, c) == entry_modules_of(before, c)
    &&& forall|c: ChunkUkey| #[trigger]
        after.contains_key(c) <==> before.contains_key(c) || (c == target && modules.len() > 0)
}

spec fn removed_pointwise(
    before: Map<ChunkUkey, ChunkGraphChunkView>,
    after: Map<ChunkUkey, ChunkGraphChunkView>,
    module: ModuleIdentifier,
    origins: Seq<ChunkUkey>,
) -> bool {
    &&& forall|c: ChunkUkey, m: ModuleIdentifier| #[trigger]
        modules_of(after, c).contains(m) <==> if origins.contains(c) {
            modules_of(before, c).contains(m) && m != module
        } else {
            modules_of(before, c).contains(m)
        }
    &&& forall|c: ChunkUkey| #[trigger] entry_modules_of(after, c) == entry_modules_of(before, c)
    &&& forall|c: ChunkUkey| #[trigger] after.contains_key(c) <==> before.contains_key(c)
}

proof fn lemma_moved(
    before: Map<ChunkUkey, ChunkGraphChunkView>,
    after: Map<ChunkUkey, ChunkGraphChunkView>,
    modules: Seq<ModuleIdentifier>,
    origins: Seq<ChunkUkey>,
    target: ChunkUkey,
)
    requires
        moved_pointwise(before, after, modules, origins, target),
    ensures
        modules_moved(before, after, modules, origins, target),
{
    assert forall|c: ChunkUkey| #[trigger]
        modules_of(after, c) == if c == target {
            modules_of(before, c).union(modules.to_set())
        } else if origins.contains(c) {
            modules_of(before, c).difference(modules.to_set())
        } else {
            modules_of(before, c)
        } by {
        let expected = if c == target {
            modules_of(before, c).union(modules.to_set())
        } else if origins.contains(c) {
            modules_of(before, c).difference(modules.to_set())
        } else {
            modules_of(before, c)
        };
        assert forall|m: ModuleIdentifier| modules_of(after, c).contains(m) <==> expected.contains(
            m,
        ) by {}
        assert(modules_of(after, c) =~= expected);
    }
}

/// What a prefix of a sequence holds once it is made one longer.
proof fn lemma_take_contains<A>(s: Seq<A>, i: int)
    requires
        0 <= i < s.len(),
    ensures
        forall|a: A| s.take(i + 1).contains(a) <==> s.take(i).contains(a) || a == s[i],
{
    assert forall|a: A| s.take(i + 1).contains(a) <==> s.take(i).contains(a) || a == s[i] by {
        let longer = s.take(i + 1);
        let shorter = s.take(i);
        if longer.contains(a) {
            let k = choose|k: int| 0 <= k < longer.len() && longer[k] == a;
            if k < i {
                assert(shorter[k] == a);
            }
        }
        if shorter.contains(a) {
            let k = choose|k: int| 0 <= k < shorter.len() && shorter[k] == a;
            assert(longer[k] == a);
        }
        if a == s[i] {
            assert(longer[i] == a);
        }
    }
}

fn bytes_less(a: &[u8], b: &[u8]) -> (less: bool)
    ensures
        less == lex_less(a@, b@),
{
    let mut i: usize = 0;
    while i < a.len() && i < b.len()
        invariant
            i <= a@.len(),
            i <= b@.len(),
            forall|j: int| 0 <= j < i ==> a@[j] == b@[j],
        decreases a@.len() - i,
    {
        if a[i] != b[i] {
            let less = a[i] < b[i];
            proof {
                if less {
                    assert(first_difference(a@, b@, i as int));
                } else {
                    assert forall|k: int| !#[trigger] first_difference(a@, b@, k) by {
                        if first_difference(a@, b@, k) {
                            if k > i {
                                assert(a@[i as int] == b@[i as int]);
                            }
                        }
                    }
                }
            }
            return less;
        }
        i += 1;
    }
    let less = a.len() < b.len();
    proof {
        if less {
            assert(first_difference(a@, b@, i as int));
        } else {
            assert forall|k: int| !#[trigger] first_difference(a@, b@, k) by {}
        }
    }
    less
}

/// Of two chunks the one that is preferred as the target of a reuse.
pub fn best_reuseable_chunk<'a>(first: &'a Chunk, second: &'a Chunk) -> (best: &'a Chunk)
    ensures
        best == if second_is_better(first@.name, second@.name) {
            second
        } else {
            first
        },
{
    match &first.name {
        None => match &second.name {
            None => first,
            Some(_) => second,
        },
        Some(first_name) => match &second.name {
            None => first,
            Some(second_name) => {
                let first_bytes = first_name.as_str().as_bytes();
                let second_bytes = second_name.as_str().as_bytes();
                if first_bytes.len() > second_bytes.len() {
                    second
                } else if first_bytes.len() < second_bytes.len() {
                    first
                } else if bytes_less(second_bytes, first_bytes) {
                    second
                } else {
                    first
                }
            },
        },
    }
}

/// The pass that realises module groups as chunks.
#[derive(Debug)]
pub struct SplitChunksPlugin;

impl SplitChunksPlugin {
    /// Whether a chunk can stand for a module group as it is.
    pub fn is_reusable_chunk(&self, compilation: &Compilation, module_group: &ModuleGroup, chunk: &ChunkUkey) -> (reusable:
        bool)
        requires
            compilation.chunk_graph.wf(),
        ensures
            reusable == is_reusable(
                compilation.chunk_graph@,
                module_group.modules@,
                module_group.chunks@.len(),
                *chunk,
            ),
    {
        if compilation.chunk_graph.get_number_of_chunk_modules(chunk) != module_group.modules.len() {
            return false;
        }
        if module_group.chunks.len() > 1 && compilation.chunk_graph.get_number_of_entry_modules(chunk)
            > 0 {
            return false;
        }
        let mut i: usize = 0;
        while i < module_group.modules.len()
            invariant
                i <= module_group.modules@.len(),
                forall|j: int|
                    0 <= j < i ==> modules_of(compilation.chunk_graph@, *chunk).contains(
                        #[trigger] module_group.modules@[j],
                    ),
            decreases module_group.modules@.len() - i,
        {
            if !compilation.chunk_graph.is_module_in_chunk(&module_group.modules[i], *chunk) {
                return false;
            }
            i += 1;
        }
        true
    }

    /// Looks among the chunks that the group's modules are in for one that
    /// holds exactly the group's modules, and returns the preferred of those.
    pub fn find_the_best_reusable_chunk(&self, compilation: &Compilation, module_group: &ModuleGroup) -> (best:
        Option<ChunkUkey>)
        requires
            compilation.chunk_graph.wf(),
            compilation.chunk_by_ukey.wf(),
            origins_registered(compilation.chunk_by_ukey@, module_group.chunks@),
        ensures
            best == best_reusable(
                compilation.chunk_by_ukey@,
                compilation.chunk_graph@,
                module_group.modules@,
                module_group.chunks@.len(),
                module_group.chunks@,
            ),
    {
        let ghost chunks = compilation.chunk_by_ukey@;
        let ghost graph = compilation.chunk_graph@;
        let ghost modules = module_group.modules@;
        let ghost origin_count = module_group.chunks@.len();
        let mut best: Option<ChunkUkey> = None;
        let mut i: usize = 0;
        while i < module_group.chunks.len()
            invariant
                i <= module_group.chunks@.len(),
                compilation.chunk_graph.wf(),
                compilation.chunk_by_ukey.wf(),
                origins_registered(compilation.chunk_by_ukey@, module_group.chunks@),
                chunks == compilation.chunk_by_ukey@,
                graph == compilation.chunk_graph@,
                modules == module_group.modules@,
                origin_count == module_group.chunks@.len(),
                best == best_reusable(
                    chunks,
                    graph,
                    modules,
                    origin_count,
                    module_group.chunks@.take(i as int),
                ),
                best matches Some(b) ==> chunks.contains_key(b),
            decreases module_group.chunks@.len() - i,
        {
            let candidate = module_group.chunks[i];
            proof {
                assert(module_group.chunks@.take(i + 1).drop_last() =~= module_group.chunks@.take(
                    i as int,
                ));
                assert(module_group.chunks@.take(i + 1).last() == candidate);
            }
            if self.is_reusable_chunk(compilation, module_group, &candidate) {
                best = match best {
                    None => Some(candidate),
                    Some(current) => {
                        let first = compilation.chunk_by_ukey.get(&current).unwrap();
                        let second = compilation.chunk_by_ukey.get(&candidate).unwrap();
                        Some(best_reuseable_chunk(first, second).ukey)
                    },
                };
            }
            i += 1;
        }
        proof {
            assert(module_group.chunks@.take(i as int) =~= module_group.chunks@);
        }
        best
    }

    /// Decides which chunk a module group goes into and, unless an existing
    /// chunk is the target, creates it. Where a reusable chunk is looked for,
    /// the chunks of the group must be chunks of the compilation.
    /// `is_reuse_existing_chunk` is set when
    /// an existing chunk is the target, `is_reuse_existing_chunk_with_all_modules`
    /// when that chunk was chosen because it holds exactly the group's modules.
    pub fn get_corresponding_chunk(
        &self,
        compilation: &mut Compilation,
        module_group: &ModuleGroup,
        is_reuse_existing_chunk: &mut bool,
        is_reuse_existing_chunk_with_all_modules: &mut bool,
    ) -> (target: ChunkUkey)
        requires
            old(compilation).wf(),
            module_group.chunk_name is None && module_group.cache_group_reuse_existing_chunk
                ==> origins_registered(old(compilation).chunk_by_ukey@, module_group.chunks@),
        ensures
            final(compilation).wf(),
            target_in_place(*old(compilation), *final(compilation), *module_group, target),
            final(compilation).chunk_by_ukey@.contains_key(target),
            *final(is_reuse_existing_chunk) == (*old(is_reuse_existing_chunk) || existing_target(
                *old(compilation),
                *module_group,
            ) is Some),
            *final(is_reuse_existing_chunk_with_all_modules) == (*old(
                is_reuse_existing_chunk_with_all_modules,
            ) || (module_group.chunk_name is None && existing_target(
                *old(compilation),
                *module_group,
            ) is Some)),
    {
        match &module_group.chunk_name {
            Some(chunk_name) => {
                let existing: Option<ChunkUkey> = match compilation.named_chunks.get(chunk_name) {
                    Some(chunk) => Some(*chunk),
                    None => None,
                };
                match existing {
                    Some(chunk) => {
                        *is_reuse_existing_chunk = true;
                        chunk
                    },
                    None => {
                        let new_chunk = Compilation::add_named_chunk(
                            chunk_name.clone(),
                            &mut compilation.chunk_by_ukey,
                            &mut compilation.named_chunks,
                        );
                        self.mark_as_split(compilation, new_chunk);
                        proof {
                            assert(Seq::<Seq<char>>::empty().push(split_reason()) =~= seq![
                                split_reason(),
                            ]);
                            assert(compilation.chunk_by_ukey@ =~= old(compilation).chunk_by_ukey@.insert(
                                new_chunk,
                                ChunkView {
                                    name: name_view(module_group.chunk_name),
                                    chunk_reasons: seq![split_reason()],
                                },
                            ));
                        }
                        new_chunk
                    },
                }
            },
            None => {
                let reusable = if module_group.cache_group_reuse_existing_chunk {
                    self.find_the_best_reusable_chunk(compilation, module_group)
                } else {
                    None
                };
                match reusable {
                    Some(reusable_chunk) => {
                        proof {
                            lemma_best_is_candidate(
                                compilation.chunk_by_ukey@,
                                compilation.chunk_graph@,
                                module_group.modules@,
                                module_group.chunks@.len(),
                                module_group.chunks@,
                            );
                        }
                        *is_reuse_existing_chunk = true;
                        *is_reuse_existing_chunk_with_all_modules = true;
                        reusable_chunk
                    },
                    None => {
                        let new_chunk = Compilation::add_chunk(&mut compilation.chunk_by_ukey);
                        proof {
                            let named = compilation.named_chunks@;
                            let chunks = compilation.chunk_by_ukey@;
                            assert forall|k: ChunkUkey, n: Seq<char>|
                                chunks.contains_key(k) && (#[trigger] chunks[k]).name == Some(n) implies #[trigger] named.contains_key(
                                n,
                            ) && named[n] == k by {
                                assert(old(compilation).chunk_by_ukey@[k].name == Some(n));
                            }
                        }
                        self.mark_as_split(compilation, new_chunk);
                        proof {
                            assert(Seq::<Seq<char>>::empty().push(split_reason()) =~= seq![
                                split_reason(),
                            ]);
                            assert(compilation.chunk_by_ukey@ =~= old(compilation).chunk_by_ukey@.insert(
                                new_chunk,
                                ChunkView {
                                    name: name_view(module_group.chunk_name),
                                    chunk_reasons: seq![split_reason()],
                                },
                            ));
                        }
                        new_chunk
                    },
                }
            },
        }
    }

    /// Moves the modules of a group into `new_chunk`: each module is taken
    /// out of every chunk of `original_chunks` and then put into `new_chunk`,
    /// so that afterwards no chunk of `original_chunks` but `new_chunk` itself
    /// holds a module of the group.
    pub fn move_modules_to_new_chunk_and_remove_from_old_chunks(
        &self,
        item: &ModuleGroup,
        new_chunk: ChunkUkey,
        original_chunks: &Vec<ChunkUkey>,
        compilation: &mut Compilation,
    )
        requires
            old(compilation).wf(),
        ensures
            final(compilation).wf(),
            final(compilation).module_graph == old(compilation).module_graph,
            final(compilation).chunk_by_ukey == old(compilation).chunk_by_ukey,
            final(compilation).named_chunks == old(compilation).named_chunks,
            final(compilation).chunk_group_by_ukey == old(compilation).chunk_group_by_ukey,
            modules_moved(
                old(compilation).chunk_graph@,
                final(compilation).chunk_graph@,
                item.modules@,
                original_chunks@,
                new_chunk,
            ),
    {
        let ghost start = compilation.chunk_graph@;
        let mut i: usize = 0;
        proof {
            assert(item.modules@.take(0).len() == 0);
            assert forall|m: ModuleIdentifier| !item.modules@.take(0).contains(m) by {}
        }
        while i < item.modules.len()
            invariant
                i <= item.modules@.len(),
                compilation.wf(),
                compilation.module_graph == old(compilation).module_graph,
                compilation.chunk_by_ukey == old(compilation).chunk_by_ukey,
                compilation.named_chunks == old(compilation).named_chunks,
                compilation.chunk_group_by_ukey == old(compilation).chunk_group_by_ukey,
                start == old(compilation).chunk_graph@,
                moved_pointwise(
                    start,
                    compilation.chunk_graph@,
                    item.modules@.take(i as int),
                    original_chunks@,
                    new_chunk,
                ),
            decreases item.modules@.len() - i,
        {
            let module_identifier = item.modules[i];
            let ghost round = compilation.chunk_graph@;
            let mut j: usize = 0;
            proof {
                assert forall|c: ChunkUkey| !original_chunks@.take(0).contains(c) by {}
            }
            while j < original_chunks.len()
                invariant
                    j <= original_chunks@.len(),
                    compilation.wf(),
                    compilation.module_graph == old(compilation).module_graph,
                    compilation.chunk_by_ukey == old(compilation).chunk_by_ukey,
                    compilation.named_chunks == old(compilation).named_chunks,
                    compilation.chunk_group_by_ukey == old(compilation).chunk_group_by_ukey,
                    removed_pointwise(
                        round,
                        compilation.chunk_graph@,
                        module_identifier,
                        original_chunks@.take(j as int),
                    ),
                decreases original_chunks@.len() - j,
            {
                let ghost step = compilation.chunk_graph@;
                compilation.chunk_graph.disconnect_chunk_and_module(
                    &original_chunks[j],
                    module_identifier,
                );
                proof {
                    lemma_take_contains(original_chunks@, j as int);
                    let used = original_chunks@[j as int];
                    let now = compilation.chunk_graph@;
                    assert forall|c: ChunkUkey, m: ModuleIdentifier| #[trigger]
                        modules_of(now, c).contains(m) <==> if original_chunks@.take(j + 1).contains(
                            c,
                        ) {
                            modules_of(round, c).contains(m) && m != module_identifier
                        } else {
                            modules_of(round, c).contains(m)
                        } by {
                        assert(modules_of(step, c).contains(m) <==> if original_chunks@.take(
                            j as int,
                        ).contains(c) {
                            modules_of(round, c).contains(m) && m != module_identifier
                        } else {
                            modules_of(round, c).contains(m)
                        });
                    }
                    assert forall|c: ChunkUkey| #[trigger]
                        entry_modules_of(now, c) == entry_modules_of(round, c) by {
                        assert(entry_modules_of(step, c) == entry_modules_of(round, c));
                    }
                    assert forall|c: ChunkUkey| #[trigger]
                        now.contains_key(c) <==> round.contains_key(c) by {
                        assert(step.contains_key(c) <==> round.contains_key(c));
                    }
                }
                j += 1;
            }
            let ghost cleared = compilation.chunk_graph@;
            compilation.chunk_graph.connect_chunk_and_module(new_chunk, module_identifier);
            proof {
                assert(original_chunks@.take(j as int) =~= original_chunks@);
                lemma_take_contains(item.modules@, i as int);
                let now = compilation.chunk_graph@;
                let done = item.modules@.take(i as int);
                let next = item.modules@.take(i + 1);
                assert forall|c: ChunkUkey, m: ModuleIdentifier| #[trigger]
                    modules_of(now, c).contains(m) <==> if c == new_chunk {
                        modules_of(start, c).contains(m) || next.contains(m)
                    } else if original_chunks@.contains(c) {
                        modules_of(start, c).contains(m) && !next.contains(m)
                    } else {
                        modules_of(start, c).contains(m)
                    } by {
                    assert(modules_of(cleared, c).contains(m) <==> if original_chunks@.contains(c) {
                        modules_of(round, c).contains(m) && m != module_identifier
                    } else {
                        modules_of(round, c).contains(m)
                    });
                    assert(modules_of(round, c).contains(m) <==> if c == new_chunk {
                        modules_of(start, c).contains(m) || done.contains(m)
                    } else if original_chunks@.contains(c) {
                        modules_of(start, c).contains(m) && !done.contains(m)
                    } else {
                        modules_of(start, c).contains(m)
                    });
                }
                assert forall|c: ChunkUkey| #[trigger]
                    entry_modules_of(now, c) == entry_modules_of(start, c) by {
                    assert(entry_modules_of(cleared, c) == entry_modules_of(round, c));
                    assert(entry_modules_of(round, c) == entry_modules_of(start, c));
                }
                assert forall|c: ChunkUkey| #[trigger]
                    now.contains_key(c) <==> start.contains_key(c) || (c == new_chunk && next.len()
                        > 0) by {
                    assert(cleared.contains_key(c) <==> round.contains_key(c));
                    assert(round.contains_key(c) <==> start.contains_key(c) || (c == new_chunk
                        && done.len() > 0));
                }
            }
            i += 1;
        }
        proof {
            assert(item.modules@.take(i as int) =~= item.modules@);
            lemma_moved(start, compilation.chunk_graph@, item.modules@, original_chunks@, new_chunk);
        }
    }

    /// Records that each chunk of `original_chunks` was split into
    /// `new_chunk`, so that the chunk which now holds the moved modules can
    /// be found from each chunk that held them. `new_chunk` must not be one
    /// of `original_chunks`: a chunk is never split into itself.
    pub fn split_from_original_chunks(
        &self,
        _item: &ModuleGroup,
        original_chunks: &Vec<ChunkUkey>,
        new_chunk: ChunkUkey,
        compilation: &mut Compilation,
    )
        requires
            old(compilation).wf(),
            origins_registered(old(compilation).chunk_by_ukey@, original_chunks@),
            old(compilation).chunk_by_ukey@.contains_key(new_chunk),
            !original_chunks@.contains(new_chunk),
        ensures
            final(compilation).wf(),
            final(compilation).module_graph == old(compilation).module_graph,
            final(compilation).chunk_graph == old(compilation).chunk_graph,
            final(compilation).chunk_by_ukey == old(compilation).chunk_by_ukey,
            final(compilation).named_chunks == old(compilation).named_chunks,
            final(compilation).chunk_group_by_ukey@ == old(compilation).chunk_group_by_ukey@.union(
                splits_into(original_chunks@, new_chunk),
            ),
            final(compilation).chunk_group_by_ukey.groups() == old(
                compilation,
            ).chunk_group_by_ukey.groups(),
    {
        let mut i: usize = 0;
        proof {
            assert(splits_into(original_chunks@.take(0), new_chunk) =~= Set::empty());
            assert(compilation.chunk_group_by_ukey@.union(Set::empty())
                =~= compilation.chunk_group_by_ukey@);
        }
        while i < original_chunks.len()
            invariant
                i <= original_chunks@.len(),
                compilation.wf(),
                origins_registered(compilation.chunk_by_ukey@, original_chunks@),
                compilation.chunk_by_ukey@.contains_key(new_chunk),
                !original_chunks@.contains(new_chunk),
                compilation.module_graph == old(compilation).module_graph,
                compilation.chunk_graph == old(compilation).chunk_graph,
                compilation.chunk_by_ukey == old(compilation).chunk_by_ukey,
                compilation.named_chunks == old(compilation).named_chunks,
                compilation.chunk_group_by_ukey@ == old(compilation).chunk_group_by_ukey@.union(
                    splits_into(original_chunks@.take(i as int), new_chunk),
                ),
                compilation.chunk_group_by_ukey.groups() == old(compilation).chunk_group_by_ukey.groups(),
            decreases original_chunks@.len() - i,
        {
            let target = compilation.chunk_by_ukey.get(&new_chunk).unwrap();
            let original_chunk = compilation.chunk_by_ukey.get(&original_chunks[i]).unwrap();
            original_chunk.split(target, &mut compilation.chunk_group_by_ukey);
            proof {
                lemma_take_contains(original_chunks@, i as int);
                assert forall|pair: (ChunkUkey, ChunkUkey)|
                    splits_into(original_chunks@.take(i + 1), new_chunk).contains(pair)
                        <==> splits_into(original_chunks@.take(i as int), new_chunk).insert(
                        (original_chunks@[i as int], new_chunk),
                    ).contains(pair) by {
                    assert(original_chunks@.take(i + 1).contains(pair.0) <==> original_chunks@.take(
                        i as int,
                    ).contains(pair.0) || pair.0 == original_chunks@[i as int]);
                }
                assert(splits_into(original_chunks@.take(i + 1), new_chunk) =~= splits_into(
                    original_chunks@.take(i as int),
                    new_chunk,
                ).insert((original_chunks@[i as int], new_chunk)));
            }
            i += 1;
        }
        proof {
            assert(original_chunks@.take(i as int) =~= original_chunks@);
        }
    }

    /// Realises one module group: chooses or creates the target chunk, moves
    /// the group's modules into it out of every other chunk they were in, and
    /// records the split from each of those chunks into the target.
    pub fn split_module_group(&self, compilation: &mut Compilation, module_group: &ModuleGroup) -> (target:
        ChunkUkey)
        requires
            old(compilation).wf(),
            origins_registered(old(compilation).chunk_by_ukey@, module_group.chunks@),
        ensures
            final(compilation).wf(),
            final(compilation).module_graph == old(compilation).module_graph,
            target_chosen(*old(compilation), *final(compilation), *module_group, target),
            modules_moved(
                graph_with_target(*old(compilation), *module_group, target),
                final(compilation).chunk_graph@,
                module_group.modules@,
                other_origins(module_group.chunks@, target),
                target,
            ),
            final(compilation).chunk_group_by_ukey@ == old(compilation).chunk_group_by_ukey@.union(
                splits_into(other_origins(module_group.chunks@, target), target),
            ),
            final(compilation).chunk_group_by_ukey.groups() == old(
                compilation,
            ).chunk_group_by_ukey.groups(),
            forall|i: int|
                0 <= i < module_group.modules@.len() ==> modules_of(
                    final(compilation).chunk_graph@,
                    target,
                ).contains(#[trigger] module_group.modules@[i]),
            forall|i: int, j: int|
                0 <= i < module_group.modules@.len() && 0 <= j < module_group.chunks@.len()
                    && module_group.chunks@[j] != target ==> !modules_of(
                    final(compilation).chunk_graph@,
                    #[trigger] module_group.chunks@[j],
                ).contains(#[trigger] module_group.modules@[i]),
            forall|j: int|
                0 <= j < module_group.chunks@.len() && module_group.chunks@[j] != target
                    ==> final(compilation).chunk_group_by_ukey@.contains(
                    (#[trigger] module_group.chunks@[j], target),
                ),
            forall|c: ChunkUkey| !final(compilation).chunk_group_by_ukey@.contains((c, c)),
    {
        let mut is_reuse_existing_chunk = false;
        let mut is_reuse_existing_chunk_with_all_modules = false;
        let target = self.get_corresponding_chunk(
            compilation,
            module_group,
            &mut is_reuse_existing_chunk,
            &mut is_reuse_existing_chunk_with_all_modules,
        );
        let ghost differs = differs_from(target);
        let mut original_chunks: Vec<ChunkUkey> = Vec::new();
        let mut i: usize = 0;
        proof {
            assert(module_group.chunks@.take(0) =~= Seq::<ChunkUkey>::empty());
            lemma_filter_empty(differs);
        }
        while i < module_group.chunks.len()
            invariant
                i <= module_group.chunks@.len(),
                differs == differs_from(target),
                original_chunks@ == module_group.chunks@.take(i as int).filter(differs),
            decreases module_group.chunks@.len() - i,
        {
            let chunk = module_group.chunks[i];
            proof {
                assert(module_group.chunks@.take(i + 1) =~= module_group.chunks@.take(i as int).push(
                    chunk,
                ));
                module_group.chunks@.take(i as int).lemma_filter_push(chunk, differs);
            }
            if chunk != target {
                original_chunks.push(chunk);
            }
            i += 1;
        }
        proof {
            assert(module_group.chunks@.take(i as int) =~= module_group.chunks@);
            lemma_other_origins(module_group.chunks@, target);
            assert(original_chunks@ == other_origins(module_group.chunks@, target));
            assert forall|k: int| 0 <= k < original_chunks@.len() implies compilation.chunk_by_ukey@.contains_key(
                #[trigger] original_chunks@[k],
            ) by {
                assert(original_chunks@.contains(original_chunks@[k]));
                assert(module_group.chunks@.contains(original_chunks@[k]));
                let j = choose|j: int|
                    0 <= j < module_group.chunks@.len() && module_group.chunks@[j]
                        == original_chunks@[k];
                assert(old(compilation).chunk_by_ukey@.contains_key(module_group.chunks@[j]));
            }
        }
        self.move_modules_to_new_chunk_and_remove_from_old_chunks(
            module_group,
            target,
            &original_chunks,
            compilation,
        );
        self.split_from_original_chunks(module_group, &original_chunks, target, compilation);
        proof {
            let graph = compilation.chunk_graph@;
            assert forall|i: int| 0 <= i < module_group.modules@.len() implies modules_of(
                graph,
                target,
            ).contains(#[trigger] module_group.modules@[i]) by {
                assert(module_group.modules@.to_set().contains(module_group.modules@[i]));
                assert(modules_of(graph, target) == modules_of(
                    graph_with_target(*old(compilation), *module_group, target),
                    target,
                ).union(module_group.modules@.to_set()));
            }
            assert forall|i: int, j: int|
                0 <= i < module_group.modules@.len() && 0 <= j < module_group.chunks@.len()
                    && module_group.chunks@[j] != target implies !modules_of(
                graph,
                #[trigger] module_group.chunks@[j],
            ).contains(#[trigger] module_group.modules@[i]) by {
                let c = module_group.chunks@[j];
                assert(module_group.chunks@.contains(c));
                assert(module_group.modules@.to_set().contains(module_group.modules@[i]));
                assert(modules_of(graph, c) == modules_of(
                    graph_with_target(*old(compilation), *module_group, target),
                    c,
                ).difference(module_group.modules@.to_set()));
            }
            assert forall|j: int|
                0 <= j < module_group.chunks@.len() && module_group.chunks@[j]
                    != target implies compilation.chunk_group_by_ukey@.contains(
                (#[trigger] module_group.chunks@[j], target),
            ) by {
                let c = module_group.chunks@[j];
                assert(module_group.chunks@.contains(c));
                assert(splits_into(original_chunks@, target).contains((c, target)));
            }
            assert forall|c: ChunkUkey| !compilation.chunk_group_by_ukey@.contains((c, c)) by {
                compilation.chunk_group_by_ukey.lemma_no_self_split(c);
            }
        }
        target
    }

    /// Gives a chunk that was just created its reason and registers it in the
    /// chunk graph.
    fn mark_as_split(&self, compilation: &mut Compilation, new_chunk: ChunkUkey)
        requires
            old(compilation).wf(),
            old(compilation).chunk_by_ukey@.contains_key(new_chunk),
        ensures
            final(compilation).wf(),
            final(compilation).module_graph == old(compilation).module_graph,
            final(compilation).chunk_group_by_ukey == old(compilation).chunk_group_by_ukey,
            final(compilation).named_chunks == old(compilation).named_chunks,
            final(compilation).chunk_by_ukey@ == old(compilation).chunk_by_ukey@.insert(
                new_chunk,
                ChunkView {
                    name: old(compilation).chunk_by_ukey@[new_chunk].name,
                    chunk_reasons: old(compilation).chunk_by_ukey@[new_chunk].chunk_reasons.push(
                        split_reason(),
                    ),
                },
            ),
            final(compilation).chunk_graph@ == old(compilation).chunk_graph@.insert(
                new_chunk,
                chunk_content(old(compilation).chunk_graph@, new_chunk),
            ),
    {
        compilation.chunk_by_ukey.push_chunk_reason(&new_chunk, "Create by split chunks".to_owned());
        compilation.chunk_graph.add_chunk(new_chunk);
        proof {
            let named = compilation.named_chunks@;
            let chunks = compilation.chunk_by_ukey@;
            assert forall|k: ChunkUkey, n: Seq<char>|
                chunks.contains_key(k) && (#[trigger] chunks[k]).name == Some(n) implies #[trigger] named.contains_key(
                n,
            ) && named[n] == k by {
                assert(old(compilation).chunk_by_ukey@[k].name == Some(n));
            }
        }
    }
}

/// The best reusable chunk is one of the candidates and is reusable.
pub proof fn lemma_best_is_candidate(
    chunks: Map<ChunkUkey, ChunkView>,
    graph: Map<ChunkUkey, ChunkGraphChunkView>,
    modules: Seq<ModuleIdentifier>,
    origin_count: nat,
    candidates: Seq<ChunkUkey>,
)
    ensures
        best_reusable(chunks, graph, modules, origin_count, candidates) matches Some(best)
            ==> candidates.contains(best) && is_reusable(graph, modules, origin_count, best),
        best_reusable(chunks, graph, modules, origin_count, candidates) is None <==> forall|i: int|
            0 <= i < candidates.len() ==> !is_reusable(
                graph,
                modules,
                origin_count,
                #[trigger] candidates[i],
            ),
    decreases candidates.len(),
{
    if candidates.len() > 0 {
        let front = candidates.drop_last();
        lemma_best_is_candidate(chunks, graph, modules, origin_count, front);
        let earlier = best_reusable(chunks, graph, modules, origin_count, front);
        let last = candidates.last();
        assert(candidates[candidates.len() - 1] == last);
        if earlier is Some {
            let best = earlier->0;
            let i = choose|i: int| 0 <= i < front.len() && front[i] == best;
            assert(candidates[i] == best);
        }
        assert forall|i: int| 0 <= i < front.len() implies front[i] == candidates[i] by {}
        if best_reusable(chunks, graph, modules, origin_count, candidates) is None {
            assert forall|i: int| 0 <= i < candidates.len() implies !is_reusable(
                graph,
                modules,
                origin_count,
                #[trigger] candidates[i],
            ) by {
                if i < front.len() {
                    assert(front[i] == candidates[i]);
                }
            }
        }
    }
}

/// Nothing passes a filter of the empty sequence.
proof fn lemma_filter_empty<A>(pred: spec_fn(A) -> bool)
    ensures
        Seq::<A>::empty().filter(pred) == Seq::<A>::empty(),
{
    reveal(Seq::filter);
}

/// The origin chunks without the target are the origin chunks that differ
/// from the target.
pub proof fn lemma_other_origins(origins: Seq<ChunkUkey>, target: ChunkUkey)
    ensures
        !other_origins(origins, target).contains(target),
        forall|c: ChunkUkey|
            other_origins(origins, target).contains(c) <==> origins.contains(c) && c != target,
{
    let differs = differs_from(target);
    let others = origins.filter(differs);
    assert forall|c: ChunkUkey| others.contains(c) <==> origins.contains(c) && c != target by {
        if others.contains(c) {
            origins.lemma_filter_contains_rev(differs, c);
            let k = choose|k: int| 0 <= k < others.len() && others[k] == c;
            origins.lemma_filter_pred(differs, k);
        }
        if origins.contains(c) && c != target {
            let k = choose|k: int| 0 <= k < origins.len() && origins[k] == c;
            origins.lemma_filter_contains(differs, k);
        }
    }
}

/// Lexicographic order is a strict order: nothing comes before itself, and
/// what comes before something that comes before a third comes before the
/// third.
pub proof fn lemma_lex_less_is_strict_order(a: Seq<u8>, b: Seq<u8>, c: Seq<u8>)
    ensures
        !lex_less(a, a),
        lex_less(a, b) && lex_less(b, c) ==> lex_less(a, c),
        !(lex_less(a, b) && lex_less(b, a)),
{
    assert forall|i: int| !#[trigger] first_difference(a, a, i) by {}
    if lex_less(a, b) && lex_less(b, c) {
        let i = choose|i: int| #[trigger] first_difference(a, b, i);
        let j = choose|j: int| #[trigger] first_difference(b, c, j);
        if i <= j {
            assert(first_difference(a, c, i));
        } else {
            assert(first_difference(a, c, j));
        }
    }
    if lex_less(a, b) && lex_less(b, a) {
        let i = choose|i: int| #[trigger] first_difference(a, b, i);
        let j = choose|j: int| #[trigger] first_difference(b, a, j);
        if i <= j {
            assert(first_difference(a, a, i));
        } else {
            assert(first_difference(b, b, j));
        }
    }
}

/// Of two different byte strings of one length, one comes before the other.
pub proof fn lemma_lex_less_is_total(a: Seq<u8>, b: Seq<u8>)
    requires
        a.len() == b.len(),
        a != b,
    ensures
        lex_less(a, b) || lex_less(b, a),
{
    lemma_first_difference_exists(a, b, 0);
}

proof fn lemma_first_difference_exists(a: Seq<u8>, b: Seq<u8>, k: int)
    requires
        a.len() == b.len(),
        a != b,
        0 <= k <= a.len(),
        forall|j: int| 0 <= j < k ==> a[j] == b[j],
    ensures
        lex_less(a, b) || lex_less(b, a),
    decreases a.len() - k,
{
    if k == a.len() {
        assert(a =~= b);
    } else if a[k] < b[k] {
        assert(first_difference(a, b, k));
    } else if b[k] < a[k] {
        assert(first_difference(b, a, k));
    } else {
        lemma_first_difference_exists(a, b, k + 1);
    }
}

/// The preference among chunk names is a strict order: no name is better
/// than itself, and the preference is transitive. So the outcome of a
/// pairwise reduction does not depend on how the pairs are formed.
pub proof fn lemma_preference_is_strict_order(
    a: Option<Seq<char>>,
    b: Option<Seq<char>>,
    c: Option<Seq<char>>,
)
    ensures
        !second_is_better(a, a),
        second_is_better(a, b) && second_is_better(b, c) ==> second_is_better(a, c),
        !(second_is_better(a, b) && second_is_better(b, a)),
{
    if a is Some && b is Some && c is Some {
        lemma_lex_less_is_strict_order(
            encode_utf8(c->0),
            encode_utf8(b->0),
            encode_utf8(a->0),
        );
    }
    if a is Some {
        lemma_lex_less_is_strict_order(
            encode_utf8(a->0),
            encode_utf8(a->0),
            encode_utf8(a->0),
        );
    }
    if a is Some && b is Some {
        lemma_lex_less_is_strict_order(
            encode_utf8(a->0),
            encode_utf8(b->0),
            encode_utf8(a->0),
        );
    }
}

/// Between a chunk with a name and any chunk that does not bear the same
/// name the preference decides: one of the two is better than the other.
pub proof fn lemma_preference_decides(a: Option<Seq<char>>, b: Option<Seq<char>>)
    requires
        a is Some || b is Some,
        a != b,
    ensures
        second_is_better(a, b) || second_is_better(b, a),
{
    if a is Some && b is Some {
        vstd::utf8::encode_utf8_decode_utf8(a->0);
        vstd::utf8::encode_utf8_decode_utf8(b->0);
        let x = encode_utf8(a->0);
        let y = encode_utf8(b->0);
        if x.len() == y.len() {
            lemma_lex_less_is_total(x, y);
        }
    }
}

/// No reusable candidate is better than the best reusable chunk.
pub proof fn lemma_best_is_not_beaten(
    chunks: Map<ChunkUkey, ChunkView>,
    graph: Map<ChunkUkey, ChunkGraphChunkView>,
    modules: Seq<ModuleIdentifier>,
    origin_count: nat,
    candidates: Seq<ChunkUkey>,
    i: int,
)
    requires
        0 <= i < candidates.len(),
        is_reusable(graph, modules, origin_count, candidates[i]),
    ensures
        best_reusable(chunks, graph, modules, origin_count, candidates) matches Some(best)
            && !second_is_better(chunks[best].name, chunks[candidates[i]].name),
    decreases candidates.len(),
{
    let front = candidates.drop_last();
    let last = candidates.last();
    let earlier = best_reusable(chunks, graph, modules, origin_count, front);
    let rival = chunks[candidates[i]].name;
    if i < candidates.len() - 1 {
        assert(front[i] == candidates[i]);
        lemma_best_is_not_beaten(chunks, graph, modules, origin_count, front, i);
        lemma_preference_is_strict_order(chunks[earlier->0].name, chunks[last].name, rival);
    } else {
        lemma_preference_is_strict_order(rival, rival, rival);
    }
}

/// Where the reusable candidates bear names, no two the same, the best
/// reusable chunk depends on which chunks are candidates and not on the
/// order in which they are compared.
pub proof fn lemma_best_does_not_depend_on_order(
    chunks: Map<ChunkUkey, ChunkView>,
    graph: Map<ChunkUkey, ChunkGraphChunkView>,
    modules: Seq<ModuleIdentifier>,
    origin_count: nat,
    first: Seq<ChunkUkey>,
    second: Seq<ChunkUkey>,
)
    requires
        forall|c: ChunkUkey| first.contains(c) <==> second.contains(c),
        forall|c: ChunkUkey|
            first.contains(c) && is_reusable(graph, modules, origin_count, c)
                ==> (#[trigger] chunks[c]).name is Some,
        forall|c: ChunkUkey, d: ChunkUkey|
            first.contains(c) && first.contains(d) && c != d && is_reusable(
                graph,
                modules,
                origin_count,
                c,
            ) && is_reusable(graph, modules, origin_count, d) ==> (#[trigger] chunks[c]).name != (
            #[trigger] chunks[d]).name,
    ensures
        best_reusable(chunks, graph, modules, origin_count, first) == best_reusable(
            chunks,
            graph,
            modules,
            origin_count,
            second,
        ),
{
    let one = best_reusable(chunks, graph, modules, origin_count, first);
    let other = best_reusable(chunks, graph, modules, origin_count, second);
    lemma_best_is_candidate(chunks, graph, modules, origin_count, first);
    lemma_best_is_candidate(chunks, graph, modules, origin_count, second);
    if one is Some {
        let w = one->0;
        assert(second.contains(w));
        let i = choose|i: int| 0 <= i < second.len() && second[i] == w;
        lemma_best_is_not_beaten(chunks, graph, modules, origin_count, second, i);
    }
    if other is Some {
        let w = other->0;
        assert(first.contains(w));
        let i = choose|i: int| 0 <= i < first.len() && first[i] == w;
        lemma_best_is_not_beaten(chunks, graph, modules, origin_count, first, i);
    }
    if one is Some && other is Some && one->0 != other->0 {
        lemma_preference_decides(chunks[one->0].name, chunks[other->0].name);
    }
}

/// A chunk is reusable for a group only if it holds exactly the modules of
/// the group.
pub proof fn lemma_reusable_chunk_is_exact(
    graph: Map<ChunkUkey, ChunkGraphChunkView>,
    modules: Seq<ModuleIdentifier>,
    origin_count: nat,
    chunk: ChunkUkey,
)
    requires
        modules.no_duplicates(),
        modules_of(graph, chunk).finite(),
        is_reusable(graph, modules, origin_count, chunk),
    ensures
        modules_of(graph, chunk) == modules.to_set(),
{
    let held = modules_of(graph, chunk);
    let wanted = modules.to_set();
    modules.unique_seq_to_set();
    assert forall|m: ModuleIdentifier| wanted.contains(m) implies held.contains(m) by {
        let i = choose|i: int| 0 <= i < modules.len() && modules[i] == m;
        assert(held.contains(modules[i]));
    }
    assert(wanted.subset_of(held));
    vstd::set_lib::lemma_len_subset(wanted, held);
    vstd::set_lib::lemma_subset_equality(wanted, held);
}

/// A chunk that holds a module which the group does not hold is never
/// reusable for the group, whatever else it holds.
pub proof fn lemma_chunk_with_extra_module_is_not_reusable(
    graph: Map<ChunkUkey, ChunkGraphChunkView>,
    modules: Seq<ModuleIdentifier>,
    origin_count: nat,
    chunk: ChunkUkey,
    extra: ModuleIdentifier,
)
    requires
        modules.no_duplicates(),
        modules_of(graph, chunk).finite(),
        modules_of(graph, chunk).contains(extra),
        !modules.contains(extra),
    ensures
        !is_reusable(graph, modules, origin_count, chunk),
{
    if is_reusable(graph, modules, origin_count, chunk) {
        lemma_reusable_chunk_is_exact(graph, modules, origin_count, chunk);
        assert(modules.to_set().contains(extra));
    }
}

/// For a group that spans several chunks, a chunk with an entry module is
/// never the chunk that is reused.
pub proof fn lemma_entry_chunk_is_never_reused(
    chunks: Map<ChunkUkey, ChunkView>,
    graph: Map<ChunkUkey, ChunkGraphChunkView>,
    modules: Seq<ModuleIdentifier>,
    candidates: Seq<ChunkUkey>,
    chunk: ChunkUkey,
)
    requires
        candidates.len() > 1,
        entry_modules_of(graph, chunk).len() > 0,
    ensures
        best_reusable(chunks, graph, modules, candidates.len(), candidates) != Some(chunk),
{
    lemma_best_is_candidate(chunks, graph, modules, candidates.len(), candidates);
}

/// Asking twice for a chunk of one name gives the same chunk: the second
/// request finds the chunk that the first found or created, and creates
/// none.
pub proof fn lemma_named_target_is_stable(
    first: Compilation,
    second: Compilation,
    third: Compilation,
    group_a: ModuleGroup,
    group_b: ModuleGroup,
    target_a: ChunkUkey,
    target_b: ChunkUkey,
)
    requires
        group_a.chunk_name is Some,
        group_b.chunk_name is Some,
        group_a.chunk_name->0@ == group_b.chunk_name->0@,
        target_chosen(first, second, group_a, target_a),
        target_chosen(second, third, group_b, target_b),
    ensures
        target_b == target_a,
        third.chunk_by_ukey@ == second.chunk_by_ukey@,
        third.named_chunks@ == second.named_chunks@,
{
}

} // verus!
