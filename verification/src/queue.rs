//! The queue of subscribers waiting to be woken: each at most once, in the
//! order in which they were first queued.

use indexmap::IndexSet;
use vstd::prelude::*;

verus! {

/// `indexmap::IndexSet`: a hash set that remembers the order in which its
/// items went in. Nothing is known of a value of it but what `items` names.
#[verifier::external_type_specification]
#[verifier::external_body]
#[verifier::reject_recursive_types(T)]
#[verifier::reject_recursive_types(S)]
pub struct ExIndexSet<T, S>(IndexSet<T, S>);

/// What an `IndexSet` holds, in its insertion order.
pub uninterp spec fn items(queue: IndexSet<u64>) -> Seq<u64>;

/// `IndexSet::new`: a set that holds nothing.
#[verifier::external_body]
pub(crate) fn queue_new() -> (queue: IndexSet<u64>)
    ensures
        items(queue) == Seq::<u64>::empty(),
{
    IndexSet::new()
}

/// `IndexSet::insert`: a value that the set lacks goes in behind all others
/// and `true` comes back; one that it holds changes nothing, neither item nor
/// order, and `false` comes back.
#[verifier::external_body]
pub(crate) fn queue_insert(queue: &mut IndexSet<u64>, value: u64) -> (fresh: bool)
    ensures
        fresh == !items(*old(queue)).contains(value),
        fresh ==> items(*final(queue)) == items(*old(queue)).push(value),
        !fresh ==> items(*final(queue)) == items(*old(queue)),
{
    queue.insert(value)
}

/// `IndexSet::drain` over the full range: every item comes out, in insertion
/// order, and the set is left empty.
#[verifier::external_body]
pub(crate) fn queue_drain(queue: &mut IndexSet<u64>) -> (all: Vec<u64>)
    ensures
        all@ == items(*old(queue)),
        items(*final(queue)) == Seq::<u64>::empty(),
{
    queue.drain(..).collect()
}

} // verus!
