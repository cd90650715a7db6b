//! Inference of asynchronous modules: a module that imports an asynchronous
//! module through ESM import syntax is asynchronous itself.

use crate::compilation::Compilation;
use crate::dependency::DependencyType;
use crate::identifier::{DependencyId, ModuleIdentifier};
use crate::module_graph::{async_meta, targets, BuildMeta, ModuleGraphConnection, ModuleGraphView};
use crate::worklist::{worklist_insert, worklist_items, worklist_new, worklist_pop_front};
use std::collections::HashSet;
use vstd::prelude::*;

verus! {

broadcast use vstd::std_specs::hash::group_hash_axioms;

/// A dependency carries asynchrony to its importer when the graph resolves
/// it and it is an ESM import. An id that cannot be resolved carries nothing.
pub open spec fn propagates(g: ModuleGraphView, dependency_id: DependencyId) -> bool {
    dependency_id.0 < g.dependencies.len() && g.dependencies[dependency_id.0 as int].dependency_type
        == DependencyType::EsmImport
}

/// Connection `c` is an ESM import of `target` by `importer`.
pub open spec fn esm_import_edge(
    g: ModuleGraphView,
    c: int,
    importer: ModuleIdentifier,
    target: ModuleIdentifier,
) -> bool {
    &&& 0 <= c < g.connections.len()
    &&& g.connections[c].original_module_identifier == Some(importer)
    &&& g.connections[c].module_identifier == target
    &&& propagates(g, g.connections[c].dependency_id)
}

/// `importer` imports `target` through ESM import syntax.
pub open spec fn imports_via_esm(
    g: ModuleGraphView,
    importer: ModuleIdentifier,
    target: ModuleIdentifier,
) -> bool {
    exists|c: int| #[trigger] esm_import_edge(g, c, importer, target)
}

/// A chain of modules in which each imports the next through ESM import
/// syntax and the last is a seed.
pub open spec fn is_import_chain(
    g: ModuleGraphView,
    seeds: Set<ModuleIdentifier>,
    chain: Seq<ModuleIdentifier>,
) -> bool {
    &&& chain.len() > 0
    &&& seeds.contains(chain.last())
    &&& forall|i: int|
        0 <= i < chain.len() - 1 ==> imports_via_esm(g, #[trigger] chain[i], chain[i + 1])
}

/// `chain` is an import chain that starts at `module`.
pub open spec fn chain_from(
    g: ModuleGraphView,
    seeds: Set<ModuleIdentifier>,
    module: ModuleIdentifier,
    chain: Seq<ModuleIdentifier>,
) -> bool {
    is_import_chain(g, seeds, chain) && chain[0] == module
}

/// The seeds together with every module from which a chain of ESM imports
/// leads to a seed: the backward closure of the seeds.
pub open spec fn async_closure(g: ModuleGraphView, seeds: Set<ModuleIdentifier>) -> Set<
    ModuleIdentifier,
> {
    Set::new(
        |m: ModuleIdentifier|
            exists|chain: Seq<ModuleIdentifier>| #[trigger] chain_from(g, seeds, m, chain),
    )
}

/// Every seed is in the closure.
pub proof fn lemma_seed_in_closure(
    g: ModuleGraphView,
    seeds: Set<ModuleIdentifier>,
    module: ModuleIdentifier,
)
    requires
        seeds.contains(module),
    ensures
        async_closure(g, seeds).contains(module),
{
    assert(chain_from(g, seeds, module, seq![module]));
}

/// Whoever imports a member of the closure through ESM import syntax is a
/// member too.
pub proof fn lemma_importer_in_closure(
    g: ModuleGraphView,
    seeds: Set<ModuleIdentifier>,
    importer: ModuleIdentifier,
    target: ModuleIdentifier,
)
    requires
        imports_via_esm(g, importer, target),
        async_closure(g, seeds).contains(target),
    ensures
        async_closure(g, seeds).contains(importer),
{
    let chain = choose|chain: Seq<ModuleIdentifier>| #[trigger] chain_from(g, seeds, target, chain);
    let longer = seq![importer] + chain;
    assert forall|i: int| 0 <= i < longer.len() - 1 implies imports_via_esm(
        g,
        #[trigger] longer[i],
        longer[i + 1],
    ) by {
        if i > 0 {
            assert(longer[i] == chain[i - 1]);
            assert(longer[i + 1] == chain[i - 1 + 1]);
        }
    }
    assert(longer.last() == chain.last());
    assert(chain_from(g, seeds, importer, longer));
}

/// A set that holds the seeds and, with each member, its ESM importers holds
/// the whole closure: the closure is the least such set.
pub proof fn lemma_closure_is_least(
    g: ModuleGraphView,
    seeds: Set<ModuleIdentifier>,
    closed: Set<ModuleIdentifier>,
)
    requires
        forall|m: ModuleIdentifier| seeds.contains(m) ==> closed.contains(m),
        forall|p: ModuleIdentifier, m: ModuleIdentifier|
            closed.contains(m) && imports_via_esm(g, p, m) ==> closed.contains(p),
    ensures
        forall|m: ModuleIdentifier| async_closure(g, seeds).contains(m) ==> closed.contains(m),
{
    assert forall|m: ModuleIdentifier| async_closure(g, seeds).contains(m) implies closed.contains(
        m,
    ) by {
        let chain = choose|chain: Seq<ModuleIdentifier>| #[trigger] chain_from(g, seeds, m, chain);
        lemma_chain_start_in_closed(g, seeds, closed, chain);
    }
}

proof fn lemma_chain_start_in_closed(
    g: ModuleGraphView,
    seeds: Set<ModuleIdentifier>,
    closed: Set<ModuleIdentifier>,
    chain: Seq<ModuleIdentifier>,
)
    requires
        forall|m: ModuleIdentifier| seeds.contains(m) ==> closed.contains(m),
        forall|p: ModuleIdentifier, m: ModuleIdentifier|
            closed.contains(m) && imports_via_esm(g, p, m) ==> closed.contains(p),
        is_import_chain(g, seeds, chain),
    ensures
        closed.contains(chain[0]),
    decreases chain.len(),
{
    if chain.len() > 1 {
        let rest = chain.drop_first();
        assert forall|i: int| 0 <= i < rest.len() - 1 implies imports_via_esm(
            g,
            #[trigger] rest[i],
            rest[i + 1],
        ) by {
            assert(rest[i] == chain[i + 1]);
            assert(rest[i + 1] == chain[i + 1 + 1]);
        }
        assert(rest.last() == chain.last());
        lemma_chain_start_in_closed(g, seeds, closed, rest);
        assert(rest[0] == chain[0int + 1]);
        assert(imports_via_esm(g, chain[0], chain[0int + 1]));
    }
}

/// The closure holds every seed: a flag that is set stays set.
pub proof fn lemma_closure_keeps_seeds(g: ModuleGraphView, seeds: Set<ModuleIdentifier>)
    ensures
        seeds.subset_of(async_closure(g, seeds)),
{
    assert forall|m: ModuleIdentifier| seeds.contains(m) implies async_closure(g, seeds).contains(
        m,
    ) by {
        lemma_seed_in_closure(g, seeds, m);
    }
}

/// The closure of a closure is the closure itself: a second run of the pass
/// flags nothing new.
pub proof fn lemma_closure_is_idempotent(g: ModuleGraphView, seeds: Set<ModuleIdentifier>)
    ensures
        async_closure(g, async_closure(g, seeds)) == async_closure(g, seeds),
{
    let once = async_closure(g, seeds);
    let twice = async_closure(g, once);
    assert forall|p: ModuleIdentifier, m: ModuleIdentifier|
        once.contains(m) && imports_via_esm(g, p, m) implies once.contains(p) by {
        lemma_importer_in_closure(g, seeds, p, m);
    }
    lemma_closure_is_least(g, once, once);
    lemma_closure_keeps_seeds(g, once);
    assert(twice =~= once);
}

/// Takes one module out of the list of modules that were never enqueued.
proof fn take_unseen(remaining: Seq<ModuleIdentifier>, module: ModuleIdentifier) -> (rest: Seq<
    ModuleIdentifier,
>)
    requires
        remaining.contains(module),
    ensures
        rest.len() == remaining.len() - 1,
        forall|m: ModuleIdentifier| remaining.contains(m) && m != module ==> rest.contains(m),
{
    let idx = choose|i: int| 0 <= i < remaining.len() && remaining[i] == module;
    let rest = remaining.remove(idx);
    assert forall|m: ModuleIdentifier| remaining.contains(m) && m != module implies rest.contains(
        m,
    ) by {
        let j = choose|j: int| 0 <= j < remaining.len() && remaining[j] == m;
        if j < idx {
            assert(rest[j] == m);
        } else {
            assert(rest[j - 1] == m);
        }
    }
    rest
}

/// Appending a key that a duplicate-free queue does not hold: the filter that
/// `insert` applies keeps everything, and the result is duplicate-free.
proof fn lemma_enqueue_fresh(queue: Seq<u64>, key: u64)
    requires
        queue.no_duplicates(),
        !queue.contains(key),
    ensures
        queue.filter(|k: u64| k != key) == queue,
        queue.push(key).no_duplicates(),
        forall|k: u64| queue.push(key).contains(k) <==> queue.contains(k) || k == key,
    decreases queue.len(),
{
    let keep = |k: u64| k != key;
    reveal(Seq::filter);
    if queue.len() > 0 {
        let front = queue.drop_last();
        assert forall|k: u64| front.contains(k) implies queue.contains(k) by {
            let i = choose|i: int| 0 <= i < front.len() && front[i] == k;
            assert(queue[i] == k);
        }
        lemma_enqueue_fresh(front, key);
        assert(queue.contains(queue.last()));
        assert(queue.filter(keep) =~= queue);
    } else {
        assert(queue.filter(keep) =~= queue);
    }
    assert forall|k: u64| queue.push(key).contains(k) <==> queue.contains(k) || k == key by {
        if queue.contains(k) {
            let i = choose|i: int| 0 <= i < queue.len() && queue[i] == k;
            assert(queue.push(key)[i] == k);
        }
        if k == key {
            assert(queue.push(key)[queue.len() as int] == k);
        }
    }
}

/// Dropping the front of a duplicate-free queue removes exactly the front.
proof fn lemma_dequeue(queue: Seq<u64>)
    requires
        queue.no_duplicates(),
        queue.len() > 0,
    ensures
        queue.drop_first().no_duplicates(),
        !queue.drop_first().contains(queue[0]),
        forall|k: u64| k != queue[0] ==> (queue.drop_first().contains(k) <==> queue.contains(k)),
        queue.contains(queue[0]),
{
    let rest = queue.drop_first();
    assert forall|k: u64| k != queue[0] implies (rest.contains(k) <==> queue.contains(k)) by {
        if rest.contains(k) {
            let i = choose|i: int| 0 <= i < rest.len() && rest[i] == k;
            assert(queue[i + 1] == k);
        }
        if queue.contains(k) {
            let i = choose|i: int| 0 <= i < queue.len() && queue[i] == k;
            assert(rest[i - 1] == k);
        }
    }
    if rest.contains(queue[0]) {
        let i = choose|i: int| 0 <= i < rest.len() && rest[i] == queue[0];
        assert(queue[i + 1] == queue[0]);
    }
}

/// Everything but the module graph is the same in both compilations.
pub open spec fn rest_unchanged(before: Compilation, after: Compilation) -> bool {
    &&& after.chunk_graph == before.chunk_graph
    &&& after.chunk_by_ukey == before.chunk_by_ukey
    &&& after.named_chunks == before.named_chunks
    &&& after.chunk_group_by_ukey == before.chunk_group_by_ukey
}

/// The build metadata in which exactly the modules of `asynchronous` were
/// flagged beside those that were flagged before.
pub open spec fn with_async(
    build_meta: Map<ModuleIdentifier, Option<BuildMeta>>,
    asynchronous: Set<ModuleIdentifier>,
) -> Map<ModuleIdentifier, Option<BuildMeta>> {
    Map::new(
        |m: ModuleIdentifier| build_meta.contains_key(m),
        |m: ModuleIdentifier|
            if asynchronous.contains(m) {
                async_meta()
            } else {
                build_meta[m]
            },
    )
}

/// The modules that were taken from the queue, and no others, were flagged.
spec fn flags_follow_queue(
    now: Map<ModuleIdentifier, Option<BuildMeta>>,
    before: Map<ModuleIdentifier, Option<BuildMeta>>,
    seen: Set<u64>,
    queue: Seq<u64>,
) -> bool {
    &&& forall|m: ModuleIdentifier| #[trigger] now.contains_key(m) <==> before.contains_key(m)
    &&& forall|m: ModuleIdentifier| #[trigger]
        now.contains_key(m) ==> now[m] == if seen.contains(m.0) && !queue.contains(m.0) {
            async_meta()
        } else {
            before[m]
        }
}

/// Marks as asynchronous every module that imports an asynchronous module
/// through ESM import syntax, directly or over a chain of such imports.
#[derive(Debug)]
pub struct InferAsyncModulesPlugin;

impl InferAsyncModulesPlugin {
    /// The name under which the pass is registered.
    pub fn name(&self) -> (name: &'static str)
        ensures
            name@ == "InferAsyncModulesPlugin"@,
    {
        "InferAsyncModulesPlugin"
    }

    /// Runs the pass. The modules flagged before the call are the seeds; after
    /// the call exactly the backward closure of the seeds over ESM imports is
    /// flagged. Nothing else in the compilation changes.
    pub fn finish_modules(&mut self, compilation: &mut Compilation)
        requires
            old(compilation).wf(),
        ensures
            final(compilation).wf(),
            final(compilation).module_graph@.modules == old(compilation).module_graph@.modules,
            final(compilation).module_graph@.dependencies == old(compilation).module_graph@.dependencies,
            final(compilation).module_graph@.connections == old(compilation).module_graph@.connections,
            final(compilation).module_graph@.async_modules() == async_closure(
                old(compilation).module_graph@,
                old(compilation).module_graph@.async_modules(),
            ),
            final(compilation).module_graph@.build_meta == with_async(
                old(compilation).module_graph@.build_meta,
                async_closure(
                    old(compilation).module_graph@,
                    old(compilation).module_graph@.async_modules(),
                ),
            ),
            rest_unchanged(*old(compilation), *final(compilation)),
    {
        let ghost g0 = compilation.module_graph@;
        let ghost seeds = g0.async_modules();
        let ghost closure = async_closure(g0, seeds);
        let ghost mut remaining: Seq<ModuleIdentifier> = g0.modules;
        proof {
            compilation.module_graph.lemma_wf_view();
        }
        let mut queue = worklist_new();
        let mut uniques: HashSet<u64> = HashSet::new();

        let modules = compilation.module_graph.module_graph_modules();
        let mut i: usize = 0;
        while i < modules.len()
            invariant
                i <= modules@.len(),
                modules@.len() == g0.modules.len(),
                forall|j: int|
                    0 <= j < modules@.len() ==> (#[trigger] modules@[j]).module_identifier
                        == g0.modules[j],
                forall|j: int|
                    0 <= j < modules@.len() ==> (#[trigger] modules@[j]).build_meta
                        == g0.build_meta[g0.modules[j]],
                forall|m: ModuleIdentifier| g0.build_meta.contains_key(m) <==> g0.modules.contains(m),
                seeds == g0.async_modules(),
                worklist_items(queue).no_duplicates(),
                forall|k: u64| worklist_items(queue).contains(k) <==> uniques@.contains(k),
                forall|k: u64|
                    uniques@.contains(k) ==> seeds.contains(ModuleIdentifier(k))
                        && g0.modules.contains(ModuleIdentifier(k)),
                forall|j: int|
                    0 <= j < i && seeds.contains(#[trigger] g0.modules[j]) ==> uniques@.contains(
                        g0.modules[j].0,
                    ),
                forall|m: ModuleIdentifier|
                    g0.modules.contains(m) && !uniques@.contains(m.0) ==> remaining.contains(m),
            decreases modules@.len() - i,
        {
            let module = &modules[i];
            let is_async = match module.build_meta {
                Some(meta) => meta.is_async,
                None => false,
            };
            if is_async {
                let id = module.module_identifier;
                let ghost before = worklist_items(queue);
                proof {
                    assert(g0.modules[i as int] == id);
                    assert(g0.modules.contains(id));
                    assert(g0.build_meta.contains_key(id));
                    assert(seeds.contains(id));
                }
                if uniques.insert(id.0) {
                    worklist_insert(&mut queue, id.0);
                    proof {
                        lemma_enqueue_fresh(before, id.0);
                        assert(g0.modules[i as int] == id);
                        remaining = take_unseen(remaining, id);
                    }
                }
            }
            i += 1;
        }

        proof {
            assert forall|m: ModuleIdentifier| seeds.contains(m) implies uniques@.contains(m.0) by {
                assert(g0.build_meta.contains_key(m));
                assert(g0.modules.contains(m));
                let j = choose|j: int| 0 <= j < g0.modules.len() && g0.modules[j] == m;
                assert(seeds.contains(g0.modules[j]));
            }
            assert forall|k: u64| uniques@.contains(k) implies closure.contains(
                ModuleIdentifier(k),
            ) by {
                lemma_seed_in_closure(g0, seeds, ModuleIdentifier(k));
            }
        }

        loop
            invariant
                compilation.module_graph.wf(),
                rest_unchanged(*old(compilation), *compilation),
                compilation.module_graph@.modules == g0.modules,
                compilation.module_graph@.dependencies == g0.dependencies,
                compilation.module_graph@.connections == g0.connections,
                closure == async_closure(g0, seeds),
                seeds == g0.async_modules(),
                forall|m: ModuleIdentifier| g0.build_meta.contains_key(m) <==> g0.modules.contains(m),
                worklist_items(queue).no_duplicates(),
                forall|k: u64| worklist_items(queue).contains(k) ==> uniques@.contains(k),
                forall|k: u64|
                    uniques@.contains(k) ==> closure.contains(ModuleIdentifier(k))
                        && g0.modules.contains(ModuleIdentifier(k)),
                forall|m: ModuleIdentifier| seeds.contains(m) ==> uniques@.contains(m.0),
                flags_follow_queue(
                    compilation.module_graph@.build_meta,
                    g0.build_meta,
                    uniques@,
                    worklist_items(queue),
                ),
                forall|k: u64, p: ModuleIdentifier|
                    uniques@.contains(k) && !worklist_items(queue).contains(k) && imports_via_esm(
                        g0,
                        p,
                        ModuleIdentifier(k),
                    ) ==> uniques@.contains(p.0),
                forall|m: ModuleIdentifier|
                    g0.modules.contains(m) && !uniques@.contains(m.0) ==> remaining.contains(m),
            ensures
                seeds == g0.async_modules(),
                forall|m: ModuleIdentifier| g0.build_meta.contains_key(m) <==> g0.modules.contains(m),
                forall|k: u64| uniques@.contains(k) ==> g0.modules.contains(ModuleIdentifier(k)),
                compilation.module_graph.wf(),
                rest_unchanged(*old(compilation), *compilation),
                compilation.module_graph@.modules == g0.modules,
                compilation.module_graph@.dependencies == g0.dependencies,
                compilation.module_graph@.connections == g0.connections,
                worklist_items(queue).len() == 0,
                forall|k: u64| uniques@.contains(k) ==> closure.contains(ModuleIdentifier(k)),
                forall|m: ModuleIdentifier| seeds.contains(m) ==> uniques@.contains(m.0),
                flags_follow_queue(
                    compilation.module_graph@.build_meta,
                    g0.build_meta,
                    uniques@,
                    worklist_items(queue),
                ),
                forall|k: u64, p: ModuleIdentifier|
                    uniques@.contains(k) && !worklist_items(queue).contains(k) && imports_via_esm(
                        g0,
                        p,
                        ModuleIdentifier(k),
                    ) ==> uniques@.contains(p.0),
            decreases 2 * remaining.len() + worklist_items(queue).len(),
        {
            let ghost entry_queue = worklist_items(queue);
            let ghost bound = 2 * remaining.len() + entry_queue.len();
            let module = match worklist_pop_front(&mut queue) {
                Some(key) => ModuleIdentifier(key),
                None => {
                    break ;
                },
            };
            proof {
                lemma_dequeue(entry_queue);
            }
            compilation.module_graph.set_async(&module);
            let incoming = compilation.module_graph.incoming_connections(&module);
            let mut j: usize = 0;
            while j < incoming.len()
                invariant
                    j <= incoming@.len(),
                    incoming@ == g0.connections.filter(targets(module)),
                    compilation.module_graph.wf(),
                    rest_unchanged(*old(compilation), *compilation),
                    compilation.module_graph@.modules == g0.modules,
                    compilation.module_graph@.dependencies == g0.dependencies,
                    compilation.module_graph@.connections == g0.connections,
                    closure == async_closure(g0, seeds),
                    seeds == g0.async_modules(),
                    forall|m: ModuleIdentifier|
                        g0.build_meta.contains_key(m) <==> g0.modules.contains(m),
                    uniques@.contains(module.0),
                    !worklist_items(queue).contains(module.0),
                    worklist_items(queue).no_duplicates(),
                    forall|k: u64| worklist_items(queue).contains(k) ==> uniques@.contains(k),
                    forall|k: u64|
                        uniques@.contains(k) ==> closure.contains(ModuleIdentifier(k))
                            && g0.modules.contains(ModuleIdentifier(k)),
                    forall|m: ModuleIdentifier| seeds.contains(m) ==> uniques@.contains(m.0),
                    flags_follow_queue(
                        compilation.module_graph@.build_meta,
                        g0.build_meta,
                        uniques@,
                        worklist_items(queue),
                    ),
                    forall|k: u64, p: ModuleIdentifier|
                        uniques@.contains(k) && !worklist_items(queue).contains(k) && k != module.0
                            && imports_via_esm(g0, p, ModuleIdentifier(k)) ==> uniques@.contains(
                            p.0,
                        ),
                    forall|i: int, p: ModuleIdentifier|
                        0 <= i < j && (#[trigger] incoming@[i]).original_module_identifier == Some(p)
                            && propagates(g0, incoming@[i].dependency_id) ==> #[trigger] uniques@.contains(
                            p.0,
                        ),
                    forall|m: ModuleIdentifier|
                        g0.modules.contains(m) && !uniques@.contains(m.0) ==> remaining.contains(m),
                    2 * remaining.len() + worklist_items(queue).len() < bound,
                decreases incoming@.len() - j,
            {
                let connection = incoming[j];
                let carries = match compilation.module_graph.dependency_by_id(
                    &connection.dependency_id,
                ) {
                    Some(dependency) => match dependency.dependency_type {
                        DependencyType::EsmImport => true,
                        _ => false,
                    },
                    None => false,
                };
                if carries {
                    match connection.original_module_identifier {
                        Some(id) => {
                            let ghost before = worklist_items(queue);
                            let ghost seen_before = uniques@;
                            if uniques.insert(id.0) {
                                worklist_insert(&mut queue, id.0);
                                proof {
                                    lemma_enqueue_fresh(before, id.0);
                                    lemma_incoming_is_import(g0, module, incoming@, j as int, id);
                                    lemma_importer_in_closure(g0, seeds, id, module);
                                    compilation.module_graph.lemma_wf_view();
                                    lemma_origin_registered(g0, id, module);
                                    remaining = take_unseen(remaining, id);
                                    let now = compilation.module_graph@.build_meta;
                                    assert forall|m: ModuleIdentifier| #[trigger]
                                        now.contains_key(m) implies now[m] == if uniques@.contains(
                                        m.0,
                                    ) && !worklist_items(queue).contains(m.0) {
                                        async_meta()
                                    } else {
                                        g0.build_meta[m]
                                    } by {
                                        if m.0 == id.0 {
                                            assert(m == id);
                                            assert(!seen_before.contains(id.0));
                                            assert(worklist_items(queue).contains(id.0));
                                        } else {
                                            assert(uniques@.contains(m.0) == seen_before.contains(m.0));
                                            assert(worklist_items(queue).contains(m.0) == before.contains(m.0));
                                        }
                                    }
                                }
                            } else {
                                proof {
                                    assert(uniques@ =~= seen_before);
                                }
                            }
                        },
                        None => {},
                    }
                }
                j += 1;
            }
            proof {
                assert forall|p: ModuleIdentifier| imports_via_esm(g0, p, module) implies uniques@.contains(
                    p.0,
                ) by {
                    let c = choose|c: int| #[trigger] esm_import_edge(g0, c, p, module);
                    g0.connections.lemma_filter_contains(targets(module), c);
                    let i = choose|i: int| 0 <= i < incoming@.len() && incoming@[i] == g0.connections[c];
                    assert(incoming@[i].original_module_identifier == Some(p));
                }
            }
        }

        proof {
            let now = compilation.module_graph@.build_meta;
            let flagged = compilation.module_graph@.async_modules();
            let closed = Set::new(|m: ModuleIdentifier| uniques@.contains(m.0));
            assert forall|p: ModuleIdentifier, m: ModuleIdentifier|
                closed.contains(m) && imports_via_esm(g0, p, m) implies closed.contains(p) by {
                assert(m == ModuleIdentifier(m.0));
            }
            lemma_closure_is_least(g0, seeds, closed);
            assert forall|m: ModuleIdentifier| closed.contains(m) <==> closure.contains(m) by {
                assert(m == ModuleIdentifier(m.0));
            }
            assert forall|m: ModuleIdentifier| #[trigger] now.contains_key(m) implies now[m]
                == with_async(g0.build_meta, closure)[m] by {
                assert(closed.contains(m) <==> closure.contains(m));
            }
            assert(now =~= with_async(g0.build_meta, closure));
            assert forall|m: ModuleIdentifier| flagged.contains(m) <==> closure.contains(m) by {
                assert(closed.contains(m) <==> closure.contains(m));
                assert(m == ModuleIdentifier(m.0));
                if closure.contains(m) {
                    assert(g0.modules.contains(m));
                    assert(now.contains_key(m));
                }
                if flagged.contains(m) && !closure.contains(m) {
                    assert(seeds.contains(m));
                }
            }
            assert(flagged =~= closure);
        }
    }
}

/// An element of a module's incoming list that carries asynchrony and has an
/// origin is an ESM import of the module by that origin.
proof fn lemma_incoming_is_import(
    g: ModuleGraphView,
    module: ModuleIdentifier,
    incoming: Seq<ModuleGraphConnection>,
    j: int,
    origin: ModuleIdentifier,
)
    requires
        incoming == g.connections.filter(targets(module)),
        0 <= j < incoming.len(),
        incoming[j].original_module_identifier == Some(origin),
        propagates(g, incoming[j].dependency_id),
    ensures
        imports_via_esm(g, origin, module),
{
    g.connections.lemma_filter_pred(targets(module), j);
    assert(incoming.contains(incoming[j]));
    g.connections.lemma_filter_contains_rev(targets(module), incoming[j]);
    let c = choose|c: int| 0 <= c < g.connections.len() && g.connections[c] == incoming[j];
    assert(esm_import_edge(g, c, origin, module));
}

/// In a graph whose connections join registered modules, an importer is
/// registered.
proof fn lemma_origin_registered(g: ModuleGraphView, origin: ModuleIdentifier, module: ModuleIdentifier)
    requires
        imports_via_esm(g, origin, module),
        forall|c: int, o: ModuleIdentifier|
            0 <= c < g.connections.len() && (#[trigger] g.connections[c]).original_module_identifier
                == Some(o) ==> #[trigger] g.modules.contains(o),
    ensures
        g.modules.contains(origin),
{
    let c = choose|c: int| #[trigger] esm_import_edge(g, c, origin, module);
    assert(g.connections[c].original_module_identifier == Some(origin));
}

} // verus!
