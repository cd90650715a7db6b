//! The module graph: modules, dependencies and the connections between
//! modules, with the queries that the optimisation passes need.

use crate::dependency::{DependencyCategory, DependencyType, ModuleDependency};
use crate::identifier::{ConnectionId, DependencyId, ModuleIdentifier};
use std::collections::HashMap;
use vstd::prelude::*;

verus! {

broadcast use vstd::std_specs::hash::group_hash_axioms;

/// Facts gathered while a module was built.
#[derive(Clone, Copy, Debug)]
pub struct BuildMeta {
    pub is_async: bool,
}

/// A realised edge: `original_module_identifier` refers to
/// `module_identifier` through the dependency `dependency_id`.
#[derive(Clone, Copy, Debug)]
pub struct ModuleGraphConnection {
    pub original_module_identifier: Option<ModuleIdentifier>,
    pub dependency_id: DependencyId,
    pub module_identifier: ModuleIdentifier,
}

/// What the graph keeps of a registered dependency.
#[derive(Debug)]
pub struct DependencyRecord {
    pub category: DependencyCategory,
    pub dependency_type: DependencyType,
    pub request: String,
}

/// The mathematical content of a `DependencyRecord`.
pub struct DependencyView {
    pub category: DependencyCategory,
    pub dependency_type: DependencyType,
    pub request: Seq<char>,
}

impl View for DependencyRecord {
    type V = DependencyView;

    open spec fn view(&self) -> DependencyView {
        DependencyView {
            category: self.category,
            dependency_type: self.dependency_type,
            request: self.request@,
        }
    }
}

impl DependencyRecord {
    /// What the graph keeps of a module dependency.
    pub fn of<D: ModuleDependency>(dependency: &D) -> (record: Self)
        ensures
            record.category == dependency.category_view(),
            record.dependency_type == dependency.dependency_type_view(),
            record.request@ == dependency.request_view(),
    {
        DependencyRecord {
            category: *dependency.category(),
            dependency_type: *dependency.dependency_type(),
            request: dependency.request().to_owned(),
        }
    }
}

/// A module as the graph stores it.
#[derive(Debug)]
pub struct ModuleGraphModule {
    pub module_identifier: ModuleIdentifier,
    pub build_meta: Option<BuildMeta>,
    /// The ids of the connections that end at the module, ascending.
    pub incoming_connections: Vec<ConnectionId>,
    /// The ids of the connections that start at the module, ascending.
    pub outgoing_connections: Vec<ConnectionId>,
}

/// The mathematical content of a module graph.
pub struct ModuleGraphView {
    /// Module identifiers in enumeration order.
    pub modules: Seq<ModuleIdentifier>,
    /// The build metadata of each module.
    pub build_meta: Map<ModuleIdentifier, Option<BuildMeta>>,
    /// The registered dependencies, by dependency id.
    pub dependencies: Seq<DependencyView>,
    /// The connections, by connection id.
    pub connections: Seq<ModuleGraphConnection>,
}

impl ModuleGraphView {
    /// The modules currently flagged as asynchronous.
    pub open spec fn async_modules(self) -> Set<ModuleIdentifier> {
        Set::new(
            |m: ModuleIdentifier| self.build_meta.contains_key(m) && meta_is_async(self.build_meta[m]),
        )
    }
}

/// Selects the connections whose target is `module`.
pub open spec fn targets(module: ModuleIdentifier) -> spec_fn(ModuleGraphConnection) -> bool {
    |c: ModuleGraphConnection| c.module_identifier == module
}

/// Selects the connections that originate in `module`.
pub open spec fn originates_in(module: ModuleIdentifier) -> spec_fn(ModuleGraphConnection) -> bool {
    |c: ModuleGraphConnection| c.original_module_identifier == Some(module)
}

/// The ids of the connections that `pred` selects, ascending.
pub open spec fn connection_ids_where(
    connections: Seq<ModuleGraphConnection>,
    pred: spec_fn(ModuleGraphConnection) -> bool,
) -> Seq<ConnectionId>
    decreases connections.len(),
{
    if connections.len() == 0 {
        Seq::empty()
    } else {
        let earlier = connection_ids_where(connections.drop_last(), pred);
        if pred(connections.last()) {
            earlier.push(ConnectionId((connections.len() - 1) as usize))
        } else {
            earlier
        }
    }
}

/// Whether a stored module is what the graph `g` holds of the module with
/// its identifier.
pub open spec fn is_module_of(g: ModuleGraphView, module: ModuleGraphModule) -> bool {
    &&& module.build_meta == g.build_meta[module.module_identifier]
    &&& module.incoming_connections@ == connection_ids_where(
        g.connections,
        targets(module.module_identifier),
    )
    &&& module.outgoing_connections@ == connection_ids_where(
        g.connections,
        originates_in(module.module_identifier),
    )
}

/// Whether the build metadata marks a module as asynchronous.
pub open spec fn meta_is_async(meta: Option<BuildMeta>) -> bool {
    meta matches Some(m) && m.is_async
}

/// The build metadata of a module that is flagged as asynchronous.
pub open spec fn async_meta() -> Option<BuildMeta> {
    Some(BuildMeta { is_async: true })
}

/// Modules, dependencies and connections of one compilation.
pub struct ModuleGraph {
    modules: Vec<ModuleGraphModule>,
    index: HashMap<u64, usize>,
    dependencies: Vec<DependencyRecord>,
    connections: Vec<ModuleGraphConnection>,
}

impl View for ModuleGraph {
    type V = ModuleGraphView;

    closed spec fn view(&self) -> ModuleGraphView {
        ModuleGraphView {
            modules: Seq::new(self.modules@.len(), |i: int| self.modules@[i].module_identifier),
            build_meta: Map::new(
                |m: ModuleIdentifier| self.index@.contains_key(m.0),
                |m: ModuleIdentifier| self.modules@[self.index@[m.0] as int].build_meta,
            ),
            dependencies: Seq::new(self.dependencies@.len(), |i: int| self.dependencies@[i]@),
            connections: self.connections@,
        }
    }
}

impl ModuleGraph {
    /// The connections behind a list of connection ids.
    spec fn resolve(&self, ids: Seq<ConnectionId>) -> Seq<ModuleGraphConnection> {
        Seq::new(ids.len(), |j: int| self.connections@[ids[j].0 as int])
    }

    spec fn ids_in_range(&self, ids: Seq<ConnectionId>) -> bool {
        forall|j: int| 0 <= j < ids.len() ==> (#[trigger] ids[j]).0 < self.connections@.len()
    }

    spec fn slot_wf(&self, i: int) -> bool {
        let m = self.modules@[i];
        &&& self.index@.contains_key(m.module_identifier.0)
        &&& self.index@[m.module_identifier.0] == i
        &&& self.ids_in_range(m.incoming_connections@)
        &&& self.ids_in_range(m.outgoing_connections@)
        &&& self.resolve(m.incoming_connections@) == self.connections@.filter(
            targets(m.module_identifier),
        )
        &&& self.resolve(m.outgoing_connections@) == self.connections@.filter(
            originates_in(m.module_identifier),
        )
        &&& m.incoming_connections@ == connection_ids_where(
            self.connections@,
            targets(m.module_identifier),
        )
        &&& m.outgoing_connections@ == connection_ids_where(
            self.connections@,
            originates_in(m.module_identifier),
        )
    }

    /// The representation invariant: the identifier index and the arena agree,
    /// every connection joins registered modules, and each module's incoming
    /// and outgoing lists are exactly the connections that end or start at it.
    pub closed spec fn wf(&self) -> bool {
        &&& forall|i: int| 0 <= i < self.modules@.len() ==> #[trigger] self.slot_wf(i)
        &&& forall|k: u64| #[trigger]
            self.index@.contains_key(k) ==> self.index@[k] < self.modules@.len()
                && self.modules@[self.index@[k] as int].module_identifier.0 == k
        &&& forall|c: int|
            0 <= c < self.connections@.len() ==> self.index@.contains_key(
                (#[trigger] self.connections@[c]).module_identifier.0,
            )
        &&& forall|c: int, o: ModuleIdentifier|
            0 <= c < self.connections@.len() && (#[trigger] self.connections@[c]).original_module_identifier
                == Some(o) ==> #[trigger] self.index@.contains_key(o.0)
    }

    /// What the invariant means for the view: identifiers are unique, the
    /// registered modules are those that have build metadata, and only
    /// registered modules are connected.
    pub proof fn lemma_wf_view(&self)
        requires
            self.wf(),
        ensures
            self@.modules.no_duplicates(),
            forall|m: ModuleIdentifier| self@.build_meta.contains_key(m) <==> self@.modules.contains(m),
            forall|c: int|
                0 <= c < self@.connections.len() ==> self@.modules.contains(
                    (#[trigger] self@.connections[c]).module_identifier,
                ),
            forall|c: int, o: ModuleIdentifier|
                0 <= c < self@.connections.len() && (#[trigger] self@.connections[c]).original_module_identifier
                    == Some(o) ==> #[trigger] self@.modules.contains(o),
    {
        assert forall|i: int, j: int|
            0 <= i < self@.modules.len() && 0 <= j < self@.modules.len() && i != j implies self@.modules[i]
            != self@.modules[j] by {
            assert(self.slot_wf(i));
            assert(self.slot_wf(j));
        }
        assert forall|m: ModuleIdentifier| self@.build_meta.contains_key(m) <==> self@.modules.contains(
            m,
        ) by {
            self.lemma_index_iff_contains(m);
        }
        assert forall|c: int| 0 <= c < self@.connections.len() implies self@.modules.contains(
            (#[trigger] self@.connections[c]).module_identifier,
        ) by {
            self.lemma_index_iff_contains(self.connections@[c].module_identifier);
        }
        assert forall|c: int, o: ModuleIdentifier|
            0 <= c < self@.connections.len() && (#[trigger] self@.connections[c]).original_module_identifier
                == Some(o) implies #[trigger] self@.modules.contains(o) by {
            self.lemma_index_iff_contains(o);
        }
    }

    proof fn lemma_index_iff_contains(&self, m: ModuleIdentifier)
        requires
            self.wf(),
        ensures
            self.index@.contains_key(m.0) <==> self@.modules.contains(m),
    {
        if self.index@.contains_key(m.0) {
            assert(self@.modules[self.index@[m.0] as int] == m);
        }
        if self@.modules.contains(m) {
            let i = choose|i: int| 0 <= i < self@.modules.len() && self@.modules[i] == m;
            assert(self.slot_wf(i));
        }
    }

    /// A change that leaves the identifiers and the lists of connection ids
    /// of every module alone, and keeps the connections, keeps the invariant.
    proof fn lemma_wf_kept(&self, before: ModuleGraph)
        requires
            before.wf(),
            self.index == before.index,
            self.connections == before.connections,
            self.modules@.len() == before.modules@.len(),
            forall|i: int|
                0 <= i < self.modules@.len() ==> (#[trigger] self.modules@[i]).module_identifier
                    == before.modules@[i].module_identifier && self.modules@[i].incoming_connections
                    == before.modules@[i].incoming_connections && self.modules@[i].outgoing_connections
                    == before.modules@[i].outgoing_connections,
        ensures
            self.wf(),
            self@.modules == before@.modules,
            self@.connections == before@.connections,
    {
        assert forall|i: int| 0 <= i < self.modules@.len() implies #[trigger] self.slot_wf(i) by {
            assert(before.slot_wf(i));
            assert(self.resolve(self.modules@[i].incoming_connections@) =~= before.resolve(
                before.modules@[i].incoming_connections@,
            ));
            assert(self.resolve(self.modules@[i].outgoing_connections@) =~= before.resolve(
                before.modules@[i].outgoing_connections@,
            ));
        }
        assert(self@.modules =~= before@.modules);
    }

    /// An empty graph.
    pub fn new() -> (g: Self)
        ensures
            g.wf(),
            g@.modules == Seq::<ModuleIdentifier>::empty(),
            g@.build_meta == Map::<ModuleIdentifier, Option<BuildMeta>>::empty(),
            g@.dependencies == Seq::<DependencyView>::empty(),
            g@.connections == Seq::<ModuleGraphConnection>::empty(),
    {
        let g = ModuleGraph {
            modules: Vec::new(),
            index: HashMap::new(),
            dependencies: Vec::new(),
            connections: Vec::new(),
        };
        assert(g@.modules =~= Seq::<ModuleIdentifier>::empty());
        assert(g@.build_meta =~= Map::<ModuleIdentifier, Option<BuildMeta>>::empty());
        assert(g@.dependencies =~= Seq::<DependencyView>::empty());
        g
    }

    fn slot_of(&self, module_identifier: &ModuleIdentifier) -> (slot: Option<usize>)
        requires
            self.wf(),
        ensures
            slot is Some <==> self@.modules.contains(*module_identifier),
            slot matches Some(i) ==> i < self.modules@.len() && self.modules@[i as int].module_identifier
                == *module_identifier && self.index@.contains_key(module_identifier.0)
                && self.index@[module_identifier.0] == i,
    {
        proof {
            self.lemma_index_iff_contains(*module_identifier);
        }
        match self.index.get(&module_identifier.0) {
            Some(slot) => Some(*slot),
            None => None,
        }
    }

    /// Registers a module. Returns `false`, and changes nothing, when a module
    /// with this identifier is already registered.
    pub fn add_module(&mut self, module_identifier: ModuleIdentifier, build_meta: Option<BuildMeta>) -> (added:
        bool)
        requires
            old(self).wf(),
        ensures
            final(self).wf(),
            added == !old(self)@.modules.contains(module_identifier),
            final(self)@.dependencies == old(self)@.dependencies,
            final(self)@.connections == old(self)@.connections,
            added ==> final(self)@.modules == old(self)@.modules.push(module_identifier),
            added ==> final(self)@.build_meta == old(self)@.build_meta.insert(
                module_identifier,
                build_meta,
            ),
            !added ==> final(self)@ == old(self)@,
    {
        if self.slot_of(&module_identifier).is_some() {
            return false;
        }
        let slot = self.modules.len();
        self.modules.push(
            ModuleGraphModule {
                module_identifier,
                build_meta,
                incoming_connections: Vec::new(),
                outgoing_connections: Vec::new(),
            },
        );
        self.index.insert(module_identifier.0, slot);
        proof {
            old(self).lemma_index_iff_contains(module_identifier);
            lemma_filter_none(self.connections@, targets(module_identifier));
            lemma_filter_none(self.connections@, originates_in(module_identifier));
            lemma_ids_where_none(self.connections@, targets(module_identifier));
            lemma_ids_where_none(self.connections@, originates_in(module_identifier));
            assert(self.resolve(self.modules@[slot as int].incoming_connections@)
                =~= self.connections@.filter(targets(module_identifier)));
            assert(self.resolve(self.modules@[slot as int].outgoing_connections@)
                =~= self.connections@.filter(originates_in(module_identifier)));
            assert forall|i: int| 0 <= i < self.modules@.len() implies #[trigger] self.slot_wf(i) by {
                if i < slot {
                    assert(old(self).slot_wf(i));
                    assert(self.modules@[i] == old(self).modules@[i]);
                    assert(self.resolve(self.modules@[i].incoming_connections@)
                        =~= old(self).resolve(old(self).modules@[i].incoming_connections@));
                    assert(self.resolve(self.modules@[i].outgoing_connections@)
                        =~= old(self).resolve(old(self).modules@[i].outgoing_connections@));
                }
            }
            assert(self@.modules =~= old(self)@.modules.push(module_identifier));
            assert(self@.dependencies =~= old(self)@.dependencies);
            let expected = old(self)@.build_meta.insert(module_identifier, build_meta);
            assert forall|m: ModuleIdentifier| self@.build_meta.contains_key(m) implies self@.build_meta[m]
                == expected[m] by {
                if m != module_identifier {
                    assert(m.0 != module_identifier.0);
                    assert(self.modules@[old(self).index@[m.0] as int] == old(self).modules@[old(
                        self,
                    ).index@[m.0] as int]);
                }
            }
            assert forall|m: ModuleIdentifier| self@.build_meta.contains_key(m)
                <==> expected.contains_key(m) by {
                if m != module_identifier {
                    assert(m.0 != module_identifier.0);
                }
            }
            assert(self@.build_meta =~= expected);
        }
        true
    }

    /// Registers a dependency and returns the id under which the graph
    /// resolves it from now on.
    pub fn add_dependency(&mut self, dependency: DependencyRecord) -> (id: DependencyId)
        requires
            old(self).wf(),
        ensures
            final(self).wf(),
            id.0 == old(self)@.dependencies.len(),
            final(self)@.dependencies == old(self)@.dependencies.push(dependency@),
            final(self)@.modules == old(self)@.modules,
            final(self)@.build_meta == old(self)@.build_meta,
            final(self)@.connections == old(self)@.connections,
    {
        let id = DependencyId(self.dependencies.len());
        self.dependencies.push(dependency);
        proof {
            self.lemma_wf_kept(*old(self));
            assert(self@.build_meta =~= old(self)@.build_meta);
            assert(self@.dependencies =~= old(self)@.dependencies.push(dependency@));
        }
        id
    }

    /// Records that `original_module_identifier` refers to `module_identifier`
    /// through `dependency_id`. Both modules must be registered; otherwise the
    /// graph is left as it is and `None` is returned.
    pub fn add_connection(
        &mut self,
        original_module_identifier: Option<ModuleIdentifier>,
        dependency_id: DependencyId,
        module_identifier: ModuleIdentifier,
    ) -> (id: Option<ConnectionId>)
        requires
            old(self).wf(),
        ensures
            final(self).wf(),
            id is Some <==> old(self)@.modules.contains(module_identifier) && (
            original_module_identifier matches Some(o) ==> old(self)@.modules.contains(o)),
            id matches Some(c) ==> c.0 == old(self)@.connections.len() && final(self)@.connections
                == old(self)@.connections.push(
                ModuleGraphConnection { original_module_identifier, dependency_id, module_identifier },
            ),
            id is None ==> final(self)@.connections == old(self)@.connections,
            final(self)@.modules == old(self)@.modules,
            final(self)@.build_meta == old(self)@.build_meta,
            final(self)@.dependencies == old(self)@.dependencies,
    {
        let target_slot = match self.slot_of(&module_identifier) {
            Some(slot) => slot,
            None => {
                return None;
            },
        };
        let origin_slot: Option<usize> = match original_module_identifier {
            Some(origin) => match self.slot_of(&origin) {
                Some(slot) => Some(slot),
                None => {
                    return None;
                },
            },
            None => None,
        };
        let id = ConnectionId(self.connections.len());
        let connection = ModuleGraphConnection {
            original_module_identifier,
            dependency_id,
            module_identifier,
        };
        self.connections.push(connection);
        self.modules[target_slot].incoming_connections.push(id);
        match origin_slot {
            Some(slot) => {
                self.modules[slot].outgoing_connections.push(id);
            },
            None => {},
        }
        proof {
            let old_conns = old(self).connections@;
            assert(self.connections@ == old_conns.push(connection));
            assert forall|i: int| 0 <= i < self.modules@.len() implies #[trigger] self.slot_wf(i) by {
                assert(old(self).slot_wf(i));
                let before = old(self).modules@[i];
                let after = self.modules@[i];
                let m = before.module_identifier;
                assert(after.module_identifier == m);
                old_conns.lemma_filter_push(connection, targets(m));
                old_conns.lemma_filter_push(connection, originates_in(m));
                lemma_ids_where_push(old_conns, connection, targets(m));
                lemma_ids_where_push(old_conns, connection, originates_in(m));
                if i == target_slot {
                    assert(after.incoming_connections@ == before.incoming_connections@.push(id));
                    assert(self.resolve(after.incoming_connections@) =~= old(self).resolve(
                        before.incoming_connections@,
                    ).push(connection));
                } else {
                    assert(after.incoming_connections@ == before.incoming_connections@);
                    assert(self.resolve(after.incoming_connections@) =~= old(self).resolve(
                        before.incoming_connections@,
                    ));
                    assert(m != module_identifier) by {
                        assert(old(self).slot_wf(target_slot as int));
                    }
                }
                if origin_slot == Some(i as usize) {
                    assert(after.outgoing_connections@ == before.outgoing_connections@.push(id));
                    assert(self.resolve(after.outgoing_connections@) =~= old(self).resolve(
                        before.outgoing_connections@,
                    ).push(connection));
                } else {
                    assert(after.outgoing_connections@ == before.outgoing_connections@);
                    assert(self.resolve(after.outgoing_connections@) =~= old(self).resolve(
                        before.outgoing_connections@,
                    ));
                    if original_module_identifier is Some {
                        assert(old(self).slot_wf(origin_slot->0 as int));
                    }
                }
            }
            assert(self@.modules =~= old(self)@.modules);
            assert(self@.dependencies =~= old(self)@.dependencies);
            assert forall|m: ModuleIdentifier| self@.build_meta.contains_key(m) implies self@.build_meta[m]
                == old(self)@.build_meta[m] by {
                assert(self.modules@[self.index@[m.0] as int].build_meta == old(
                    self,
                ).modules@[self.index@[m.0] as int].build_meta);
            }
            assert(self@.build_meta =~= old(self)@.build_meta);
        }
        Some(id)
    }

    /// All modules, in enumeration order.
    pub fn module_graph_modules(&self) -> (modules: &Vec<ModuleGraphModule>)
        requires
            self.wf(),
        ensures
            modules@.len() == self@.modules.len(),
            forall|i: int|
                0 <= i < modules@.len() ==> (#[trigger] modules@[i]).module_identifier
                    == self@.modules[i] && is_module_of(self@, modules@[i]),
    {
        proof {
            assert forall|i: int| 0 <= i < self.modules@.len() implies is_module_of(
                self@,
                #[trigger] self.modules@[i],
            ) by {
                assert(self.slot_wf(i));
            }
        }
        &self.modules
    }

    /// The module registered under an identifier, if any.
    pub fn module_graph_module_by_identifier(&self, module_identifier: &ModuleIdentifier) -> (module:
        Option<&ModuleGraphModule>)
        requires
            self.wf(),
        ensures
            module is Some <==> self@.modules.contains(*module_identifier),
            module matches Some(m) ==> m.module_identifier == *module_identifier && is_module_of(
                self@,
                *m,
            ),
    {
        match self.slot_of(module_identifier) {
            Some(slot) => {
                proof {
                    assert(self.slot_wf(slot as int));
                }
                Some(&self.modules[slot])
            },
            None => None,
        }
    }

    /// The dependency registered under an id, or `None` for an id that the
    /// graph cannot resolve.
    pub fn dependency_by_id(&self, dependency_id: &DependencyId) -> (dependency: Option<
        &DependencyRecord,
    >)
        ensures
            dependency is Some <==> dependency_id.0 < self@.dependencies.len(),
            dependency matches Some(d) ==> d@ == self@.dependencies[dependency_id.0 as int],
    {
        if dependency_id.0 < self.dependencies.len() {
            Some(&self.dependencies[dependency_id.0])
        } else {
            None
        }
    }

    /// The connection registered under an id, if any.
    pub fn connection_by_connection_id(&self, connection_id: &ConnectionId) -> (connection: Option<
        ModuleGraphConnection,
    >)
        ensures
            connection == if connection_id.0 < self@.connections.len() {
                Some(self@.connections[connection_id.0 as int])
            } else {
                None
            },
    {
        if connection_id.0 < self.connections.len() {
            Some(self.connections[connection_id.0])
        } else {
            None
        }
    }

    fn collect(&self, ids: &Vec<ConnectionId>) -> (connections: Vec<ModuleGraphConnection>)
        requires
            self.ids_in_range(ids@),
        ensures
            connections@ == self.resolve(ids@),
    {
        let mut connections: Vec<ModuleGraphConnection> = Vec::new();
        let mut j: usize = 0;
        while j < ids.len()
            invariant
                j <= ids@.len(),
                self.ids_in_range(ids@),
                connections@ == self.resolve(ids@).take(j as int),
            decreases ids@.len() - j,
        {
            let id = ids[j];
            connections.push(self.connections[id.0]);
            proof {
                assert(connections@ =~= self.resolve(ids@).take(j + 1));
            }
            j += 1;
        }
        proof {
            assert(connections@ =~= self.resolve(ids@));
        }
        connections
    }

    /// The connections that end at a module, oldest first. A module that is
    /// not registered has none.
    pub fn incoming_connections(&self, module_identifier: &ModuleIdentifier) -> (connections: Vec<
        ModuleGraphConnection,
    >)
        requires
            self.wf(),
        ensures
            connections@ == self@.connections.filter(targets(*module_identifier)),
    {
        match self.slot_of(module_identifier) {
            Some(slot) => {
                proof {
                    assert(self.slot_wf(slot as int));
                }
                self.collect(&self.modules[slot].incoming_connections)
            },
            None => {
                proof {
                    self.lemma_index_iff_contains(*module_identifier);
                    lemma_filter_none(self.connections@, targets(*module_identifier));
                }
                Vec::new()
            },
        }
    }

    /// The connections that start at a module, oldest first. A module that is
    /// not registered has none.
    pub fn outgoing_connections(&self, module_identifier: &ModuleIdentifier) -> (connections: Vec<
        ModuleGraphConnection,
    >)
        requires
            self.wf(),
        ensures
            connections@ == self@.connections.filter(originates_in(*module_identifier)),
    {
        match self.slot_of(module_identifier) {
            Some(slot) => {
                proof {
                    assert(self.slot_wf(slot as int));
                }
                self.collect(&self.modules[slot].outgoing_connections)
            },
            None => {
                proof {
                    self.lemma_index_iff_contains(*module_identifier);
                    lemma_filter_none(self.connections@, originates_in(*module_identifier));
                }
                Vec::new()
            },
        }
    }

    /// Whether a module is flagged as asynchronous. A module that is not
    /// registered is not.
    pub fn is_async(&self, module_identifier: &ModuleIdentifier) -> (flag: bool)
        requires
            self.wf(),
        ensures
            flag == self@.async_modules().contains(*module_identifier),
    {
        proof {
            self.lemma_index_iff_contains(*module_identifier);
        }
        match self.slot_of(module_identifier) {
            Some(slot) => match self.modules[slot].build_meta {
                Some(meta) => meta.is_async,
                None => false,
            },
            None => false,
        }
    }

    /// Flags a registered module as asynchronous; the flag is never cleared.
    /// For an identifier that is not registered nothing changes.
    pub fn set_async(&mut self, module_identifier: &ModuleIdentifier)
        requires
            old(self).wf(),
        ensures
            final(self).wf(),
            final(self)@.modules == old(self)@.modules,
            final(self)@.dependencies == old(self)@.dependencies,
            final(self)@.connections == old(self)@.connections,
            final(self)@.build_meta == if old(self)@.modules.contains(*module_identifier) {
                old(self)@.build_meta.insert(*module_identifier, async_meta())
            } else {
                old(self)@.build_meta
            },
    {
        match self.slot_of(module_identifier) {
            Some(slot) => {
                self.modules[slot].build_meta = Some(BuildMeta { is_async: true });
                proof {
                    self.lemma_wf_kept(*old(self));
                    assert(self@.dependencies =~= old(self)@.dependencies);
                    let expected = old(self)@.build_meta.insert(*module_identifier, async_meta());
                    assert forall|m: ModuleIdentifier| self@.build_meta.contains_key(m) implies self@.build_meta[m]
                        == expected[m] by {
                        if m != *module_identifier {
                            let k = self.index@[m.0] as int;
                            assert(old(self).slot_wf(k));
                            assert(old(self).slot_wf(slot as int));
                            assert(k != slot);
                            assert(self.modules@[k].build_meta == old(self).modules@[k].build_meta);
                        }
                    }
                    assert(self@.build_meta =~= expected);
                }
            },
            None => {},
        }
    }
}

/// No connection is selected where none passes.
proof fn lemma_ids_where_none(
    connections: Seq<ModuleGraphConnection>,
    pred: spec_fn(ModuleGraphConnection) -> bool,
)
    requires
        forall|i: int| 0 <= i < connections.len() ==> !pred(#[trigger] connections[i]),
    ensures
        connection_ids_where(connections, pred) == Seq::<ConnectionId>::empty(),
    decreases connections.len(),
{
    if connections.len() > 0 {
        let earlier = connections.drop_last();
        assert forall|i: int| 0 <= i < earlier.len() implies !pred(#[trigger] earlier[i]) by {
            assert(earlier[i] == connections[i]);
        }
        lemma_ids_where_none(earlier, pred);
        assert(!pred(connections[connections.len() - 1]));
    }
}

/// A new connection gets the next id, and is selected if it passes.
proof fn lemma_ids_where_push(
    connections: Seq<ModuleGraphConnection>,
    connection: ModuleGraphConnection,
    pred: spec_fn(ModuleGraphConnection) -> bool,
)
    ensures
        connection_ids_where(connections.push(connection), pred) == if pred(connection) {
            connection_ids_where(connections, pred).push(ConnectionId(connections.len() as usize))
        } else {
            connection_ids_where(connections, pred)
        },
{
    assert(connections.push(connection).drop_last() =~= connections);
}

/// A filter keeps nothing of a sequence in which nothing passes.
proof fn lemma_filter_none<A>(s: Seq<A>, pred: spec_fn(A) -> bool)
    requires
        forall|i: int| 0 <= i < s.len() ==> !pred(#[trigger] s[i]),
    ensures
        s.filter(pred) == Seq::<A>::empty(),
{
    let f = s.filter(pred);
    if f.len() > 0 {
        s.lemma_filter_pred(pred, 0);
        assert(f.contains(f[0]));
        s.lemma_filter_contains_rev(pred, f[0]);
    }
    assert(f =~= Seq::<A>::empty());
}

} // verus!
