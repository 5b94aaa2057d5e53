//! Stable sorting by question, as the standard library does it.

use crate::item::Item;
use crate::text::text_le;
use vstd::prelude::*;

verus! {

/// `output` holds the elements of `input` in ascending order of their keys,
/// and `from` tells where each came from: `output[i]` stood at `from[i]`.
/// Elements with equal keys keep the order they had.
pub open spec fn stable_sort_via<T>(
    input: Seq<T>,
    output: Seq<T>,
    key: spec_fn(T) -> Seq<char>,
    from: Seq<int>,
) -> bool {
    &&& output.len() == input.len()
    &&& from.len() == input.len()
    &&& forall|i: int| 0 <= i < from.len() ==> 0 <= #[trigger] from[i] < input.len()
    &&& forall|i: int, j: int| 0 <= i < j < from.len() ==> from[i] != from[j]
    &&& forall|i: int| 0 <= i < output.len() ==> #[trigger] output[i] == input[from[i]]
    &&& forall|i: int, j: int|
        0 <= i < j < output.len() ==> text_le(
            key(#[trigger] output[i]),
            key(#[trigger] output[j]),
        )
    &&& forall|i: int, j: int|
        0 <= i < j < output.len() && key(#[trigger] output[i]) == key(#[trigger] output[j])
            ==> from[i] < from[j]
}

/// `output` is `input` sorted by key, stably: the same elements, each as
/// often as before, in ascending order, ties in their first order.
pub open spec fn is_stable_sort<T>(
    input: Seq<T>,
    output: Seq<T>,
    key: spec_fn(T) -> Seq<char>,
) -> bool {
    &&& output.to_multiset() == input.to_multiset()
    &&& exists|from: Seq<int>| stable_sort_via(input, output, key, from)
}

/// The key of a position in a store: the question of the item there.
pub open spec fn question_at(items: Seq<Item>) -> spec_fn(usize) -> Seq<char> {
    |i: usize| items[i as int].question@
}

/// The key of an item: its question.
pub open spec fn question_of() -> spec_fn(Item) -> Seq<char> {
    |item: Item| item.question@
}

/// `<[T]>::sort_by_key` on positions in `items`, keyed by the question found
/// there. The standard library documents the sort as stable, and `String`
/// orders as `text_le` does. The key function indexes `items`, so every
/// position must lie inside it.
#[verifier::external_body]
pub(crate) fn sort_positions_by_question(order: &mut Vec<usize>, items: &Vec<Item>)
    requires
        forall|k: int| 0 <= k < old(order).len() ==> old(order)[k] < items.len(),
    ensures
        is_stable_sort(old(order)@, final(order)@, question_at(items@)),
{
    order.sort_by_key(|i| &items[*i].question);
}

/// `<[T]>::sort_by_cached_key` on items, keyed by question. The standard
/// library documents the sort as stable, and `String` orders as `text_le`
/// does.
#[verifier::external_body]
pub(crate) fn sort_items_by_question(items: &mut Vec<Item>)
    ensures
        is_stable_sort(old(items)@, final(items)@, question_of()),
{
    items.sort_by_cached_key(|item| item.question.clone());
}

} // verus!
