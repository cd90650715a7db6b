//! The insertion-ordered set that serves as the propagation worklist.

use linked_hash_set::LinkedHashSet;
use std::collections::hash_map::RandomState;
use vstd::prelude::*;

verus! {

/// Makes `LinkedHashSet` known to the verifier as a type of which nothing is
/// visible but what the functions below state.
#[verifier::external_type_specification]
#[verifier::external_body]
#[verifier::reject_recursive_types(T)]
#[verifier::reject_recursive_types(S)]
pub struct ExLinkedHashSet<T, S>(LinkedHashSet<T, S>);

/// The keys held by a worklist, oldest insertion first.
pub uninterp spec fn worklist_items(q: LinkedHashSet<u64, RandomState>) -> Seq<u64>;

/// `LinkedHashSet::new`: a set that holds nothing.
#[verifier::external_body]
pub(crate) fn worklist_new() -> (q: LinkedHashSet<u64, RandomState>)
    ensures
        worklist_items(q) == Seq::<u64>::empty(),
{
    LinkedHashSet::new()
}

/// `LinkedHashSet::insert`: the key ends up last in the order whether or not
/// it was held before, and the call reports whether it was absent.
#[verifier::external_body]
pub(crate) fn worklist_insert(q: &mut LinkedHashSet<u64, RandomState>, key: u64) -> (fresh: bool)
    ensures
        fresh == !worklist_items(*old(q)).contains(key),
        worklist_items(*final(q)) == worklist_items(*old(q)).filter(|k: u64| k != key).push(key),
{
    q.insert(key)
}

/// `LinkedHashSet::pop_front`: removes and returns the oldest key, or
/// returns `None` and changes nothing when the set is empty.
#[verifier::external_body]
pub(crate) fn worklist_pop_front(q: &mut LinkedHashSet<u64, RandomState>) -> (front: Option<u64>)
    ensures
        worklist_items(*old(q)).len() == 0 ==> front is None && worklist_items(*final(q))
            == worklist_items(*old(q)),
        worklist_items(*old(q)).len() > 0 ==> front == Some(worklist_items(*old(q))[0])
            && worklist_items(*final(q)) == worklist_items(*old(q)).drop_first(),
{
    q.pop_front()
}

} // verus!
