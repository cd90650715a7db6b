use bundle_graph::chunk::{Chunk, ChunkByUkey, ChunkGroupByUkey, ChunkGroupKind, NamedChunks};
use bundle_graph::compilation::Compilation;
use bundle_graph::identifier::{ChunkGroupUkey, ChunkUkey};

#[test]
fn new_compilation_has_no_chunks() {
    let compilation = Compilation::new();
    assert!(!compilation.chunk_by_ukey.contains(&ChunkUkey(0)));
    assert!(compilation.chunk_by_ukey.get(&ChunkUkey(0)).is_none());
    assert!(compilation.named_chunks.get(&String::from("main")).is_none());
    assert!(!compilation.chunk_graph.contains_chunk(&ChunkUkey(0)));
    assert_eq!(compilation.module_graph.module_graph_modules().len(), 0);
}

#[test]
fn add_chunk_hands_out_fresh_keys() {
    let mut registry = ChunkByUkey::new();
    let first = Compilation::add_chunk(&mut registry);
    let second = Compilation::add_chunk(&mut registry);
    assert_ne!(first, second);
    assert!(registry.contains(&first));
    assert!(registry.contains(&second));
    let chunk = registry.get(&second).unwrap();
    assert_eq!(chunk.ukey, second);
    assert_eq!(chunk.name, None);
    assert!(chunk.chunk_reasons.is_empty());
}

#[test]
fn add_named_chunk_enters_the_name() {
    let mut registry = ChunkByUkey::new();
    let mut names = NamedChunks::new();
    let plain = Compilation::add_chunk(&mut registry);
    let vendor = Compilation::add_named_chunk(String::from("vendor"), &mut registry, &mut names);
    assert_ne!(plain, vendor);
    assert_eq!(names.get(&String::from("vendor")), Some(&vendor));
    assert_eq!(names.get(&String::from("vendors")), None);
    assert_eq!(registry.get(&vendor).unwrap().name, Some(String::from("vendor")));
    assert_eq!(registry.get(&vendor).unwrap().ukey, vendor);
}

#[test]
fn named_index_replaces_on_insert() {
    let mut names = NamedChunks::new();
    assert_eq!(names.insert(String::from("a"), ChunkUkey(1)), None);
    assert_eq!(names.insert(String::from("b"), ChunkUkey(2)), None);
    assert_eq!(names.insert(String::from("a"), ChunkUkey(3)), Some(ChunkUkey(1)));
    assert_eq!(names.get(&String::from("a")), Some(&ChunkUkey(3)));
    assert_eq!(names.get(&String::from("b")), Some(&ChunkUkey(2)));
    assert_eq!(names.get(&String::from("")), None);
}

#[test]
fn reasons_are_appended_in_order() {
    let mut registry = ChunkByUkey::new();
    let chunk = Compilation::add_chunk(&mut registry);
    registry.push_chunk_reason(&chunk, String::from("first"));
    registry.push_chunk_reason(&chunk, String::from("second"));
    registry.push_chunk_reason(&ChunkUkey(17), String::from("lost"));
    assert_eq!(registry.get(&chunk).unwrap().chunk_reasons, vec![String::from("first"), String::from("second")]);
    assert!(!registry.contains(&ChunkUkey(17)));
}

#[test]
fn split_is_recorded_one_way() {
    let mut groups = ChunkGroupByUkey::new();
    let origin = Chunk { ukey: ChunkUkey(0), name: None, chunk_reasons: Vec::new() };
    let derived = Chunk { ukey: ChunkUkey(1), name: None, chunk_reasons: Vec::new() };
    assert!(!groups.is_split_into(&origin.ukey, &derived.ukey));
    origin.split(&derived, &mut groups);
    assert!(groups.is_split_into(&origin.ukey, &derived.ukey));
    assert!(!groups.is_split_into(&derived.ukey, &origin.ukey));
    assert!(!groups.is_split_into(&origin.ukey, &origin.ukey));
    groups.record_split(ChunkUkey(1), ChunkUkey(2));
    assert!(groups.is_split_into(&ChunkUkey(1), &ChunkUkey(2)));
    assert!(groups.is_split_into(&ChunkUkey(0), &ChunkUkey(1)));
    assert!(!groups.is_split_into(&ChunkUkey(0), &ChunkUkey(2)));
}

#[test]
fn chunk_groups_hold_their_chunks_in_order() {
    let mut groups = ChunkGroupByUkey::new();
    assert!(groups.get(&ChunkGroupUkey(0)).is_none());
    let entry = groups.add(ChunkGroupKind::Entrypoint);
    let lazy = groups.add(ChunkGroupKind::Normal);
    assert_ne!(entry, lazy);
    assert!(groups.connect_chunk(&entry, ChunkUkey(2)));
    assert!(groups.connect_chunk(&entry, ChunkUkey(0)));
    assert!(!groups.connect_chunk(&entry, ChunkUkey(2)));
    assert!(groups.connect_chunk(&lazy, ChunkUkey(2)));
    assert!(!groups.connect_chunk(&ChunkGroupUkey(9), ChunkUkey(2)));

    let stored = groups.get(&entry).unwrap();
    assert_eq!(stored.ukey, entry);
    assert_eq!(stored.kind, ChunkGroupKind::Entrypoint);
    assert_eq!(stored.chunks, vec![ChunkUkey(2), ChunkUkey(0)]);
    assert_eq!(groups.get(&lazy).unwrap().kind, ChunkGroupKind::Normal);
    assert_eq!(groups.get(&lazy).unwrap().chunks, vec![ChunkUkey(2)]);
}

#[test]
fn splits_and_groups_do_not_touch_each_other() {
    let mut groups = ChunkGroupByUkey::new();
    let group = groups.add(ChunkGroupKind::Normal);
    groups.connect_chunk(&group, ChunkUkey(0));
    groups.record_split(ChunkUkey(0), ChunkUkey(1));
    assert_eq!(groups.get(&group).unwrap().chunks, vec![ChunkUkey(0)]);
    groups.connect_chunk(&group, ChunkUkey(1));
    assert!(groups.is_split_into(&ChunkUkey(0), &ChunkUkey(1)));
    assert!(!groups.is_split_into(&ChunkUkey(1), &ChunkUkey(0)));
}
