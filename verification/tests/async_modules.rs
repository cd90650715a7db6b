use bundle_graph::async_modules::InferAsyncModulesPlugin;
use bundle_graph::compilation::Compilation;
use bundle_graph::dependency::{DependencyCategory, DependencyType};
use bundle_graph::identifier::{DependencyId, ModuleIdentifier};
use bundle_graph::module_graph::{BuildMeta, DependencyRecord};

fn dependency(dependency_type: DependencyType) -> DependencyRecord {
    DependencyRecord {
        category: DependencyCategory::Esm,
        dependency_type,
        request: String::from("./dep"),
    }
}

fn three_modules(seed_c: bool) -> (Compilation, ModuleIdentifier, ModuleIdentifier, ModuleIdentifier) {
    let a = ModuleIdentifier::new(1);
    let b = ModuleIdentifier::new(2);
    let c = ModuleIdentifier::new(3);
    let mut compilation = Compilation::new();
    assert!(compilation.module_graph.add_module(a, None));
    assert!(compilation.module_graph.add_module(b, Some(BuildMeta { is_async: false })));
    assert!(compilation.module_graph.add_module(c, Some(BuildMeta { is_async: seed_c })));
    (compilation, a, b, c)
}

#[test]
fn plugin_has_its_name() {
    assert_eq!(InferAsyncModulesPlugin.name(), "InferAsyncModulesPlugin");
}

#[test]
fn esm_chain_makes_every_importer_async() {
    let (mut compilation, a, b, c) = three_modules(true);
    let ab = compilation.module_graph.add_dependency(dependency(DependencyType::EsmImport));
    let bc = compilation.module_graph.add_dependency(dependency(DependencyType::EsmImport));
    assert!(compilation.module_graph.add_connection(Some(a), ab, b).is_some());
    assert!(compilation.module_graph.add_connection(Some(b), bc, c).is_some());

    InferAsyncModulesPlugin.finish_modules(&mut compilation);

    assert!(compilation.module_graph.is_async(&a));
    assert!(compilation.module_graph.is_async(&b));
    assert!(compilation.module_graph.is_async(&c));
}

#[test]
fn other_dependency_types_do_not_propagate() {
    let (mut compilation, a, b, c) = three_modules(true);
    let ab = compilation.module_graph.add_dependency(dependency(DependencyType::CjsRequire));
    let bc = compilation.module_graph.add_dependency(dependency(DependencyType::EsmImport));
    assert!(compilation.module_graph.add_connection(Some(a), ab, b).is_some());
    assert!(compilation.module_graph.add_connection(Some(b), bc, c).is_some());

    InferAsyncModulesPlugin.finish_modules(&mut compilation);

    assert!(!compilation.module_graph.is_async(&a));
    assert!(compilation.module_graph.is_async(&b));
    assert!(compilation.module_graph.is_async(&c));
}

#[test]
fn without_seeds_nothing_becomes_async() {
    let (mut compilation, a, b, c) = three_modules(false);
    let ab = compilation.module_graph.add_dependency(dependency(DependencyType::EsmImport));
    assert!(compilation.module_graph.add_connection(Some(a), ab, b).is_some());

    InferAsyncModulesPlugin.finish_modules(&mut compilation);

    assert!(!compilation.module_graph.is_async(&a));
    assert!(!compilation.module_graph.is_async(&b));
    assert!(!compilation.module_graph.is_async(&c));
}

#[test]
fn unresolvable_dependency_does_not_propagate() {
    let (mut compilation, a, _b, c) = three_modules(true);
    assert!(compilation.module_graph.add_connection(Some(a), DependencyId(41), c).is_some());

    InferAsyncModulesPlugin.finish_modules(&mut compilation);

    assert!(!compilation.module_graph.is_async(&a));
    assert!(compilation.module_graph.is_async(&c));
}

#[test]
fn connection_without_origin_is_skipped() {
    let (mut compilation, a, b, c) = three_modules(true);
    let entry = compilation.module_graph.add_dependency(dependency(DependencyType::EsmImport));
    assert!(compilation.module_graph.add_connection(None, entry, c).is_some());

    InferAsyncModulesPlugin.finish_modules(&mut compilation);

    assert!(!compilation.module_graph.is_async(&a));
    assert!(!compilation.module_graph.is_async(&b));
    assert!(compilation.module_graph.is_async(&c));
}

#[test]
fn import_cycle_terminates_and_is_async_throughout() {
    let (mut compilation, a, b, c) = three_modules(true);
    let d1 = compilation.module_graph.add_dependency(dependency(DependencyType::EsmImport));
    let d2 = compilation.module_graph.add_dependency(dependency(DependencyType::EsmImport));
    let d3 = compilation.module_graph.add_dependency(dependency(DependencyType::EsmImport));
    assert!(compilation.module_graph.add_connection(Some(a), d1, b).is_some());
    assert!(compilation.module_graph.add_connection(Some(b), d2, c).is_some());
    assert!(compilation.module_graph.add_connection(Some(c), d3, a).is_some());

    InferAsyncModulesPlugin.finish_modules(&mut compilation);

    assert!(compilation.module_graph.is_async(&a));
    assert!(compilation.module_graph.is_async(&b));
    assert!(compilation.module_graph.is_async(&c));
}

#[test]
fn shared_importer_of_two_seeds_is_async() {
    let a = ModuleIdentifier::new(10);
    let s1 = ModuleIdentifier::new(11);
    let s2 = ModuleIdentifier::new(12);
    let lone = ModuleIdentifier::new(13);
    let mut compilation = Compilation::new();
    compilation.module_graph.add_module(s1, Some(BuildMeta { is_async: true }));
    compilation.module_graph.add_module(a, None);
    compilation.module_graph.add_module(s2, Some(BuildMeta { is_async: true }));
    compilation.module_graph.add_module(lone, None);
    let d1 = compilation.module_graph.add_dependency(dependency(DependencyType::EsmImport));
    let d2 = compilation.module_graph.add_dependency(dependency(DependencyType::EsmImport));
    let d3 = compilation.module_graph.add_dependency(dependency(DependencyType::EsmImport));
    compilation.module_graph.add_connection(Some(a), d1, s1);
    compilation.module_graph.add_connection(Some(a), d2, s2);
    compilation.module_graph.add_connection(Some(s1), d3, s2);

    InferAsyncModulesPlugin.finish_modules(&mut compilation);

    assert!(compilation.module_graph.is_async(&a));
    assert!(compilation.module_graph.is_async(&s1));
    assert!(compilation.module_graph.is_async(&s2));
    assert!(!compilation.module_graph.is_async(&lone));
}

#[test]
fn second_run_changes_nothing() {
    let (mut compilation, a, b, c) = three_modules(true);
    let bc = compilation.module_graph.add_dependency(dependency(DependencyType::EsmImport));
    compilation.module_graph.add_connection(Some(b), bc, c);

    InferAsyncModulesPlugin.finish_modules(&mut compilation);
    let first = (
        compilation.module_graph.is_async(&a),
        compilation.module_graph.is_async(&b),
        compilation.module_graph.is_async(&c),
    );
    InferAsyncModulesPlugin.finish_modules(&mut compilation);
    let second = (
        compilation.module_graph.is_async(&a),
        compilation.module_graph.is_async(&b),
        compilation.module_graph.is_async(&c),
    );

    assert_eq!(first, (false, true, true));
    assert_eq!(second, first);
}

#[test]
fn pass_leaves_chunks_alone() {
    let (mut compilation, _a, b, c) = three_modules(true);
    let chunk = Compilation::add_chunk(&mut compilation.chunk_by_ukey);
    compilation.chunk_graph.connect_chunk_and_module(chunk, c);
    let bc = compilation.module_graph.add_dependency(dependency(DependencyType::EsmImport));
    compilation.module_graph.add_connection(Some(b), bc, c);

    InferAsyncModulesPlugin.finish_modules(&mut compilation);

    assert!(compilation.chunk_by_ukey.contains(&chunk));
    assert_eq!(compilation.chunk_graph.get_number_of_chunk_modules(&chunk), 1);
    assert!(compilation.chunk_graph.is_module_in_chunk(&c, chunk));
    assert!(!compilation.chunk_graph.is_module_in_chunk(&b, chunk));
}

#[test]
fn importer_through_another_dependency_type_stays_as_it_is() {
    let (mut compilation, a, b, c) = three_modules(true);
    let ab = compilation.module_graph.add_dependency(dependency(DependencyType::EsmImport));
    let bc = compilation.module_graph.add_dependency(dependency(DependencyType::DynamicImport));
    assert!(compilation.module_graph.add_connection(Some(a), ab, b).is_some());
    assert!(compilation.module_graph.add_connection(Some(b), bc, c).is_some());

    InferAsyncModulesPlugin.finish_modules(&mut compilation);

    assert!(!compilation.module_graph.is_async(&a));
    assert!(!compilation.module_graph.is_async(&b));
    assert!(compilation.module_graph.is_async(&c));
}

#[test]
fn flagged_modules_get_build_metadata() {
    let (mut compilation, a, b, c) = three_modules(true);
    let ab = compilation.module_graph.add_dependency(dependency(DependencyType::EsmImport));
    let bc = compilation.module_graph.add_dependency(dependency(DependencyType::EsmImport));
    compilation.module_graph.add_connection(Some(a), ab, b);
    compilation.module_graph.add_connection(Some(b), bc, c);
    let lone = ModuleIdentifier::new(9);
    compilation.module_graph.add_module(lone, None);

    InferAsyncModulesPlugin.finish_modules(&mut compilation);

    let modules = compilation.module_graph.module_graph_modules();
    let flags: Vec<Option<bool>> = modules.iter().map(|m| m.build_meta.map(|meta| meta.is_async)).collect();
    assert_eq!(flags, vec![Some(true), Some(true), Some(true), None]);
}
