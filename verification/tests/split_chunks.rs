use bundle_graph::chunk::Chunk;
use bundle_graph::compilation::Compilation;
use bundle_graph::identifier::{ChunkUkey, ModuleIdentifier};
use bundle_graph::module_group::ModuleGroup;
use bundle_graph::split_chunks::{best_reuseable_chunk, SplitChunksPlugin};

fn chunk(ukey: usize, name: Option<&str>) -> Chunk {
    Chunk { ukey: ChunkUkey(ukey), name: name.map(String::from), chunk_reasons: Vec::new() }
}

fn module(raw: u64) -> ModuleIdentifier {
    ModuleIdentifier::new(raw)
}

fn plain_chunk(compilation: &mut Compilation, modules: &[u64]) -> ChunkUkey {
    let ukey = Compilation::add_chunk(&mut compilation.chunk_by_ukey);
    compilation.chunk_graph.add_chunk(ukey);
    for raw in modules {
        compilation.chunk_graph.connect_chunk_and_module(ukey, module(*raw));
    }
    ukey
}

fn named_chunk(compilation: &mut Compilation, name: &str, modules: &[u64]) -> ChunkUkey {
    let ukey = Compilation::add_named_chunk(
        String::from(name),
        &mut compilation.chunk_by_ukey,
        &mut compilation.named_chunks,
    );
    compilation.chunk_graph.add_chunk(ukey);
    for raw in modules {
        compilation.chunk_graph.connect_chunk_and_module(ukey, module(*raw));
    }
    ukey
}

fn group(name: Option<&str>, reuse: bool, modules: &[u64], chunks: &[ChunkUkey]) -> ModuleGroup {
    let mut group = ModuleGroup::new(name.map(String::from), reuse);
    for raw in modules {
        assert!(group.add_module(module(*raw)));
    }
    for ukey in chunks {
        assert!(group.add_chunk(*ukey));
    }
    group
}

#[test]
fn module_group_holds_each_member_once() {
    let mut group = ModuleGroup::new(Some(String::from("shared")), true);
    assert!(group.add_module(module(1)));
    assert!(!group.add_module(module(1)));
    assert!(group.add_module(module(2)));
    assert!(group.add_chunk(ChunkUkey(4)));
    assert!(!group.add_chunk(ChunkUkey(4)));
    assert_eq!(group.modules, vec![module(1), module(2)]);
    assert_eq!(group.chunks, vec![ChunkUkey(4)]);
    assert_eq!(group.chunk_name, Some(String::from("shared")));
    assert!(group.cache_group_reuse_existing_chunk);
}

#[test]
fn lexicographically_smaller_name_wins_among_equal_lengths() {
    let b = chunk(0, Some("b"));
    let a = chunk(1, Some("a"));
    assert_eq!(best_reuseable_chunk(&b, &a).ukey, a.ukey);
    assert_eq!(best_reuseable_chunk(&a, &b).ukey, a.ukey);
}

#[test]
fn shorter_name_wins_whatever_the_letters() {
    let ab = chunk(0, Some("ab"));
    let c = chunk(1, Some("c"));
    assert_eq!(best_reuseable_chunk(&ab, &c).ukey, c.ukey);
    assert_eq!(best_reuseable_chunk(&c, &ab).ukey, c.ukey);
}

#[test]
fn named_chunk_wins_over_unnamed() {
    let named = chunk(0, Some("zzzz"));
    let unnamed = chunk(1, None);
    assert_eq!(best_reuseable_chunk(&named, &unnamed).ukey, named.ukey);
    assert_eq!(best_reuseable_chunk(&unnamed, &named).ukey, named.ukey);
}

#[test]
fn first_stays_when_neither_is_better() {
    let first = chunk(0, None);
    let second = chunk(1, None);
    assert_eq!(best_reuseable_chunk(&first, &second).ukey, first.ukey);
    let x = chunk(2, Some("same"));
    let y = chunk(3, Some("same"));
    assert_eq!(best_reuseable_chunk(&x, &y).ukey, x.ukey);
}

#[test]
fn names_are_compared_by_their_bytes() {
    let accented = chunk(0, Some("\u{e9}"));
    let ascii = chunk(1, Some("zz"));
    let single = chunk(2, Some("z"));
    assert_eq!(best_reuseable_chunk(&accented, &ascii).ukey, ascii.ukey);
    assert_eq!(best_reuseable_chunk(&ascii, &accented).ukey, ascii.ukey);
    assert_eq!(best_reuseable_chunk(&accented, &single).ukey, single.ukey);
}

#[test]
fn chunk_with_exactly_the_modules_is_reusable() {
    let mut compilation = Compilation::new();
    let exact = plain_chunk(&mut compilation, &[1, 2]);
    let group = group(None, true, &[1, 2], &[exact]);
    let plugin = SplitChunksPlugin;
    assert!(plugin.is_reusable_chunk(&compilation, &group, &exact));
    assert_eq!(plugin.find_the_best_reusable_chunk(&compilation, &group), Some(exact));
}

#[test]
fn chunk_with_an_extra_module_is_never_reused() {
    let mut compilation = Compilation::new();
    let bigger = plain_chunk(&mut compilation, &[1, 2, 3]);
    let group = group(None, true, &[1, 2], &[bigger]);
    let plugin = SplitChunksPlugin;
    assert!(!plugin.is_reusable_chunk(&compilation, &group, &bigger));
    assert_eq!(plugin.find_the_best_reusable_chunk(&compilation, &group), None);

    let target = plugin.split_module_group(&mut compilation, &group);
    assert_ne!(target, bigger);
    assert_eq!(compilation.chunk_graph.get_number_of_chunk_modules(&bigger), 1);
    assert!(compilation.chunk_graph.is_module_in_chunk(&module(3), bigger));
    assert_eq!(compilation.chunk_graph.get_number_of_chunk_modules(&target), 2);
}

#[test]
fn chunk_of_equal_size_with_other_modules_is_not_reusable() {
    let mut compilation = Compilation::new();
    let other = plain_chunk(&mut compilation, &[1, 3]);
    let group = group(None, true, &[1, 2], &[other]);
    assert!(!SplitChunksPlugin.is_reusable_chunk(&compilation, &group, &other));
}

#[test]
fn entry_chunk_is_protected_when_the_group_spans_two_chunks() {
    let mut compilation = Compilation::new();
    let entry = plain_chunk(&mut compilation, &[1, 2]);
    compilation.chunk_graph.connect_chunk_and_entry_module(entry, module(1));
    let other = plain_chunk(&mut compilation, &[1, 2, 9]);
    let group = group(None, true, &[1, 2], &[entry, other]);
    let plugin = SplitChunksPlugin;
    assert!(!plugin.is_reusable_chunk(&compilation, &group, &entry));
    assert_eq!(plugin.find_the_best_reusable_chunk(&compilation, &group), None);

    let target = plugin.split_module_group(&mut compilation, &group);
    assert_ne!(target, entry);
    assert_ne!(target, other);
    assert_eq!(compilation.chunk_graph.get_number_of_entry_modules(&entry), 1);
}

#[test]
fn entry_chunk_may_be_reused_by_a_group_of_one_chunk() {
    let mut compilation = Compilation::new();
    let entry = plain_chunk(&mut compilation, &[1, 2]);
    compilation.chunk_graph.connect_chunk_and_entry_module(entry, module(1));
    let group = group(None, true, &[1, 2], &[entry]);
    assert_eq!(SplitChunksPlugin.find_the_best_reusable_chunk(&compilation, &group), Some(entry));
}

#[test]
fn best_of_several_reusable_chunks_follows_the_tie_break() {
    let mut compilation = Compilation::new();
    let unnamed = plain_chunk(&mut compilation, &[1]);
    let b = named_chunk(&mut compilation, "b", &[1]);
    let long = named_chunk(&mut compilation, "aa", &[1]);
    let a = named_chunk(&mut compilation, "a", &[1]);
    let unfit = named_chunk(&mut compilation, "0", &[1, 2]);
    let plugin = SplitChunksPlugin;
    let forward = group(None, true, &[1], &[unnamed, b, long, a, unfit]);
    let backward = group(None, true, &[1], &[unfit, a, long, b, unnamed]);
    assert_eq!(plugin.find_the_best_reusable_chunk(&compilation, &forward), Some(a));
    assert_eq!(plugin.find_the_best_reusable_chunk(&compilation, &backward), Some(a));
}

#[test]
fn first_unnamed_candidate_wins_a_tie() {
    let mut compilation = Compilation::new();
    let first = plain_chunk(&mut compilation, &[1]);
    let second = plain_chunk(&mut compilation, &[1]);
    let plugin = SplitChunksPlugin;
    assert_eq!(
        plugin.find_the_best_reusable_chunk(&compilation, &group(None, true, &[1], &[first, second])),
        Some(first)
    );
    assert_eq!(
        plugin.find_the_best_reusable_chunk(&compilation, &group(None, true, &[1], &[second, first])),
        Some(second)
    );
}

#[test]
fn named_target_is_created_once_and_found_again() {
    let mut compilation = Compilation::new();
    let origin = plain_chunk(&mut compilation, &[1, 2]);
    let plugin = SplitChunksPlugin;
    let wanted = group(Some("vendor"), false, &[1], &[origin]);
    let mut reused = false;
    let mut reused_with_all = false;

    let first = plugin.get_corresponding_chunk(&mut compilation, &wanted, &mut reused, &mut reused_with_all);
    assert!(!reused);
    assert!(!reused_with_all);
    assert_ne!(first, origin);
    assert_eq!(compilation.named_chunks.get(&String::from("vendor")), Some(&first));
    let created = compilation.chunk_by_ukey.get(&first).unwrap();
    assert_eq!(created.name, Some(String::from("vendor")));
    assert_eq!(created.chunk_reasons, vec![String::from("Create by split chunks")]);
    assert!(compilation.chunk_graph.contains_chunk(&first));

    let second = plugin.get_corresponding_chunk(&mut compilation, &wanted, &mut reused, &mut reused_with_all);
    assert_eq!(second, first);
    assert!(reused);
    assert!(!reused_with_all);
    let third = plugin.get_corresponding_chunk(&mut compilation, &wanted, &mut reused, &mut reused_with_all);
    assert_eq!(third, first);
    assert!(!compilation.chunk_by_ukey.contains(&ChunkUkey(first.0 + 1)));
    assert_eq!(
        compilation.chunk_by_ukey.get(&first).unwrap().chunk_reasons,
        vec![String::from("Create by split chunks")]
    );
}

#[test]
fn reusable_chunk_is_taken_when_the_policy_allows() {
    let mut compilation = Compilation::new();
    let exact = plain_chunk(&mut compilation, &[1, 2]);
    let plugin = SplitChunksPlugin;
    let mut reused = false;
    let mut reused_with_all = false;
    let target = plugin.get_corresponding_chunk(
        &mut compilation,
        &group(None, true, &[1, 2], &[exact]),
        &mut reused,
        &mut reused_with_all,
    );
    assert_eq!(target, exact);
    assert!(reused);
    assert!(reused_with_all);
    assert!(compilation.chunk_by_ukey.get(&exact).unwrap().chunk_reasons.is_empty());
    assert!(!compilation.chunk_by_ukey.contains(&ChunkUkey(exact.0 + 1)));
}

#[test]
fn reusable_chunk_is_passed_over_when_the_policy_forbids() {
    let mut compilation = Compilation::new();
    let exact = plain_chunk(&mut compilation, &[1, 2]);
    let plugin = SplitChunksPlugin;
    let mut reused = false;
    let mut reused_with_all = false;
    let target = plugin.get_corresponding_chunk(
        &mut compilation,
        &group(None, false, &[1, 2], &[exact]),
        &mut reused,
        &mut reused_with_all,
    );
    assert_ne!(target, exact);
    assert!(!reused);
    assert!(!reused_with_all);
    let created = compilation.chunk_by_ukey.get(&target).unwrap();
    assert_eq!(created.name, None);
    assert_eq!(created.chunk_reasons, vec![String::from("Create by split chunks")]);
    assert!(compilation.chunk_graph.contains_chunk(&target));
    assert_eq!(compilation.chunk_graph.get_number_of_chunk_modules(&target), 0);
}

#[test]
fn moving_leaves_each_module_in_the_target_alone() {
    let mut compilation = Compilation::new();
    let left = plain_chunk(&mut compilation, &[1, 2, 5]);
    let right = plain_chunk(&mut compilation, &[1, 2, 6]);
    let bystander = plain_chunk(&mut compilation, &[1, 7]);
    let target = plain_chunk(&mut compilation, &[8]);
    let plugin = SplitChunksPlugin;
    let moved = group(None, false, &[1, 2], &[left, right]);

    plugin.move_modules_to_new_chunk_and_remove_from_old_chunks(&moved, target, &moved.chunks, &mut compilation);

    for raw in [1, 2] {
        assert!(compilation.chunk_graph.is_module_in_chunk(&module(raw), target));
        assert!(!compilation.chunk_graph.is_module_in_chunk(&module(raw), left));
        assert!(!compilation.chunk_graph.is_module_in_chunk(&module(raw), right));
    }
    assert!(compilation.chunk_graph.is_module_in_chunk(&module(8), target));
    assert_eq!(compilation.chunk_graph.get_number_of_chunk_modules(&target), 3);
    assert_eq!(compilation.chunk_graph.get_number_of_chunk_modules(&left), 1);
    assert_eq!(compilation.chunk_graph.get_number_of_chunk_modules(&right), 1);
    assert!(compilation.chunk_graph.is_module_in_chunk(&module(1), bystander));
    assert_eq!(compilation.chunk_graph.get_number_of_chunk_modules(&bystander), 2);
}

#[test]
fn moving_into_an_origin_chunk_keeps_the_modules_there() {
    let mut compilation = Compilation::new();
    let kept = plain_chunk(&mut compilation, &[1, 2]);
    let other = plain_chunk(&mut compilation, &[1, 2, 3]);
    let plugin = SplitChunksPlugin;
    let moved = group(None, true, &[1, 2], &[kept, other]);

    plugin.move_modules_to_new_chunk_and_remove_from_old_chunks(&moved, kept, &moved.chunks, &mut compilation);

    assert_eq!(compilation.chunk_graph.get_number_of_chunk_modules(&kept), 2);
    assert!(compilation.chunk_graph.is_module_in_chunk(&module(1), kept));
    assert!(compilation.chunk_graph.is_module_in_chunk(&module(2), kept));
    assert_eq!(compilation.chunk_graph.get_number_of_chunk_modules(&other), 1);
    assert!(compilation.chunk_graph.is_module_in_chunk(&module(3), other));
}

#[test]
fn both_origin_chunks_are_linked_to_the_target() {
    let mut compilation = Compilation::new();
    let left = plain_chunk(&mut compilation, &[1]);
    let right = plain_chunk(&mut compilation, &[1]);
    let target = plain_chunk(&mut compilation, &[]);
    let plugin = SplitChunksPlugin;
    let moved = group(None, false, &[1], &[left, right]);

    plugin.split_from_original_chunks(&moved, &moved.chunks, target, &mut compilation);

    assert!(compilation.chunk_group_by_ukey.is_split_into(&left, &target));
    assert!(compilation.chunk_group_by_ukey.is_split_into(&right, &target));
    assert!(!compilation.chunk_group_by_ukey.is_split_into(&left, &left));
    assert!(!compilation.chunk_group_by_ukey.is_split_into(&right, &right));
    assert!(!compilation.chunk_group_by_ukey.is_split_into(&target, &target));
    assert!(!compilation.chunk_group_by_ukey.is_split_into(&target, &left));
    assert!(!compilation.chunk_group_by_ukey.is_split_into(&left, &right));
}

#[test]
fn whole_split_into_a_new_chunk() {
    let mut compilation = Compilation::new();
    let left = plain_chunk(&mut compilation, &[1, 2, 5]);
    let right = plain_chunk(&mut compilation, &[1, 2]);
    let plugin = SplitChunksPlugin;
    let moved = group(None, false, &[1, 2], &[left, right]);

    let target = plugin.split_module_group(&mut compilation, &moved);

    assert_ne!(target, left);
    assert_ne!(target, right);
    assert_eq!(compilation.chunk_graph.get_number_of_chunk_modules(&target), 2);
    assert_eq!(compilation.chunk_graph.get_number_of_chunk_modules(&left), 1);
    assert_eq!(compilation.chunk_graph.get_number_of_chunk_modules(&right), 0);
    assert!(compilation.chunk_group_by_ukey.is_split_into(&left, &target));
    assert!(compilation.chunk_group_by_ukey.is_split_into(&right, &target));
    assert!(!compilation.chunk_group_by_ukey.is_split_into(&target, &target));
    assert_eq!(
        compilation.chunk_by_ukey.get(&target).unwrap().chunk_reasons,
        vec![String::from("Create by split chunks")]
    );
}

#[test]
fn whole_split_with_reuse_links_only_the_other_chunks() {
    let mut compilation = Compilation::new();
    let exact = plain_chunk(&mut compilation, &[1, 2]);
    let bigger = plain_chunk(&mut compilation, &[1, 2, 3]);
    let plugin = SplitChunksPlugin;
    let moved = group(None, true, &[1, 2], &[bigger, exact]);

    let target = plugin.split_module_group(&mut compilation, &moved);

    assert_eq!(target, exact);
    assert_eq!(compilation.chunk_graph.get_number_of_chunk_modules(&exact), 2);
    assert_eq!(compilation.chunk_graph.get_number_of_chunk_modules(&bigger), 1);
    assert!(compilation.chunk_group_by_ukey.is_split_into(&bigger, &exact));
    assert!(!compilation.chunk_group_by_ukey.is_split_into(&exact, &exact));
    assert!(compilation.chunk_by_ukey.get(&exact).unwrap().chunk_reasons.is_empty());
}

#[test]
fn whole_split_into_a_named_chunk_twice() {
    let mut compilation = Compilation::new();
    let first_origin = plain_chunk(&mut compilation, &[1, 2]);
    let second_origin = plain_chunk(&mut compilation, &[3]);
    let plugin = SplitChunksPlugin;

    let first = plugin.split_module_group(&mut compilation, &group(Some("shared"), false, &[1], &[first_origin]));
    let second = plugin.split_module_group(&mut compilation, &group(Some("shared"), false, &[3], &[second_origin]));

    assert_eq!(first, second);
    assert_eq!(compilation.chunk_graph.get_number_of_chunk_modules(&first), 2);
    assert!(compilation.chunk_graph.is_module_in_chunk(&module(1), first));
    assert!(compilation.chunk_graph.is_module_in_chunk(&module(3), first));
    assert_eq!(compilation.chunk_graph.get_number_of_chunk_modules(&first_origin), 1);
    assert_eq!(compilation.chunk_graph.get_number_of_chunk_modules(&second_origin), 0);
    assert!(compilation.chunk_group_by_ukey.is_split_into(&first_origin, &first));
    assert!(compilation.chunk_group_by_ukey.is_split_into(&second_origin, &first));
    assert_eq!(
        compilation.chunk_by_ukey.get(&first).unwrap().chunk_reasons,
        vec![String::from("Create by split chunks")]
    );
}

#[test]
fn group_without_modules_only_creates_the_target() {
    let mut compilation = Compilation::new();
    let origin = plain_chunk(&mut compilation, &[1]);
    let target = SplitChunksPlugin.split_module_group(&mut compilation, &group(None, true, &[], &[origin]));
    assert_ne!(target, origin);
    assert_eq!(compilation.chunk_graph.get_number_of_chunk_modules(&origin), 1);
    assert_eq!(compilation.chunk_graph.get_number_of_chunk_modules(&target), 0);
    assert!(compilation.chunk_group_by_ukey.is_split_into(&origin, &target));
}
