//! Reconciliation: edits made to copies of items are carried back into the
//! stores the items came from, matched by question.

use crate::item::Item;
use vstd::prelude::*;

verus! {

/// The item at place `i` of store `s` is the one item, over all the stores,
/// that asks `question`.
pub open spec fn sole_match(into: Seq<Vec<Item>>, question: Seq<char>, s: int, i: int) -> bool {
    &&& 0 <= s < into.len()
    &&& 0 <= i < into[s].len()
    &&& into[s][i].question@ == question
    &&& forall|t: int, j: int|
        0 <= t < into.len() && 0 <= j < into[t].len() && (#[trigger] into[t][j]).question@
            == question ==> t == s && j == i
}

/// Exactly one item over all the stores asks `question`.
pub open spec fn placeable(into: Seq<Vec<Item>>, question: Seq<char>) -> bool {
    exists|s: int, i: int| sole_match(into, question, s, i)
}

/// What stands in the place of `resident` once `from` has been carried over:
/// the last item of `from` that asks the same question, if `resident` is the
/// sole item of the stores to ask it; else `resident` itself.
pub open spec fn overwritten(resident: Item, sole: bool, from: Seq<Item>) -> Item
    decreases from.len(),
{
    if from.len() == 0 {
        resident
    } else if sole && from.last().question@ == resident.question@ {
        from.last()
    } else {
        overwritten(resident, sole, from.drop_last())
    }
}

/// What stands at place `i` of store `s` once `from` has been carried into
/// the stores.
pub open spec fn placed(into: Seq<Vec<Item>>, from: Seq<Item>, s: int, i: int) -> Item {
    overwritten(into[s][i], sole_match(into, into[s][i].question@, s, i), from)
}

/// Whether an item cannot be carried over: none of the stores, or more than
/// one place in them, asks its question.
pub open spec fn unplaced(into: Seq<Vec<Item>>) -> spec_fn(Item) -> bool {
    |item: Item| !placeable(into, item.question@)
}

/// `done_into` and `done_from` are what reconciling `from` into the stores
/// `into` leaves: each store keeps its length and order, each place holds
/// what `placed` says, and the items that could not be placed remain, in
/// their order.
pub open spec fn reconciled(
    into: Seq<Vec<Item>>,
    from: Seq<Item>,
    done_into: Seq<Vec<Item>>,
    done_from: Seq<Item>,
) -> bool {
    &&& done_into.len() == into.len()
    &&& forall|s: int| 0 <= s < into.len() ==> (#[trigger] done_into[s]).len() == into[s].len()
    &&& forall|s: int, i: int|
        0 <= s < into.len() && 0 <= i < into[s].len() ==> #[trigger] done_into[s][i] == placed(
            into,
            from,
            s,
            i,
        )
    &&& done_from == from.filter(unplaced(into))
}

/// `a` and `b` are stores of the same shape that ask the same question at
/// every place.
pub open spec fn same_questions(a: Seq<Vec<Item>>, b: Seq<Vec<Item>>) -> bool {
    &&& a.len() == b.len()
    &&& forall|s: int| 0 <= s < a.len() ==> (#[trigger] a[s]).len() == b[s].len()
    &&& forall|s: int, i: int|
        0 <= s < a.len() && 0 <= i < a[s].len() ==> (#[trigger] a[s][i]).question@
            == b[s][i].question@
}

/// The sole match of a question in some stores is its sole match in any
/// stores that ask the same questions at the same places.
proof fn lemma_sole_match_carries(a: Seq<Vec<Item>>, b: Seq<Vec<Item>>, question: Seq<char>)
    requires
        same_questions(a, b),
    ensures
        forall|s: int, i: int| sole_match(a, question, s, i) ==> sole_match(b, question, s, i),
        placeable(a, question) ==> placeable(b, question),
{
    assert forall|s: int, i: int| sole_match(a, question, s, i) implies sole_match(
        b,
        question,
        s,
        i,
    ) by {
        assert forall|t: int, j: int|
            0 <= t < b.len() && 0 <= j < b[t].len() && (#[trigger] b[t][j]).question@
                == question implies t == s && j == i by {
            assert(a[t][j].question@ == question);
        }
    }
}

/// Where `item` is to be placed: the one place in the stores that asks its
/// question. There is none if no place asks it, or more than one does.
pub fn find_position(items_into: &Vec<Vec<Item>>, item: &Item) -> (place: Option<(usize, usize)>)
    ensures
        match place {
            Some((s, i)) => sole_match(items_into@, item.question@, s as int, i as int),
            None => !placeable(items_into@, item.question@),
        },
{
    let ghost question = item.question@;
    let mut res: Option<(usize, usize)> = None;
    let mut s: usize = 0;
    while s < items_into.len()
        invariant
            s <= items_into.len(),
            question == item.question@,
            res matches Some((a, b)) ==> a < s && b < items_into[a as int].len()
                && items_into[a as int][b as int].question@ == question,
            forall|t: int, j: int|
                0 <= t < s && 0 <= j < items_into[t].len() && (
                #[trigger] items_into[t][j]).question@ == question ==> res == Some(
                    (t as usize, j as usize),
                ),
        decreases items_into.len() - s,
    {
        let store = &items_into[s];
        let mut i: usize = 0;
        while i < store.len()
            invariant
                s < items_into.len(),
                *store == items_into[s as int],
                i <= store.len(),
                question == item.question@,
                res matches Some((a, b)) ==> (a < s || (a == s && b < i)) && b
                    < items_into[a as int].len() && items_into[a as int][b as int].question@
                    == question,
                forall|t: int, j: int|
                    0 <= t < s && 0 <= j < items_into[t].len() && (
                    #[trigger] items_into[t][j]).question@ == question ==> res == Some(
                        (t as usize, j as usize),
                    ),
                forall|j: int|
                    0 <= j < i && (#[trigger] items_into[s as int][j]).question@ == question ==> res
                        == Some((s, j as usize)),
            decreases store.len() - i,
        {
            if store[i].question == item.question {
                match res {
                    None => {
                        res = Some((s, i));
                    },
                    Some(_) => {
                        return None;
                    },
                }
            }
            i += 1;
        }
        s += 1;
    }
    res
}

/// The last item to ask a question is the one that stays in its place.
proof fn lemma_overwritten_by_last(resident: Item, from: Seq<Item>, k: int)
    requires
        0 <= k < from.len(),
        from[k].question@ == resident.question@,
        forall|j: int| k < j < from.len() ==> (#[trigger] from[j]).question@ != resident.question@,
    ensures
        overwritten(resident, true, from) == from[k],
    decreases from.len(),
{
    if k < from.len() - 1 {
        lemma_overwritten_by_last(resident, from.drop_last(), k);
    }
}

/// A place that is not the sole match of its question keeps its item.
proof fn lemma_overwritten_needs_sole(resident: Item, from: Seq<Item>)
    ensures
        overwritten(resident, false, from) == resident,
    decreases from.len(),
{
    if from.len() > 0 {
        lemma_overwritten_needs_sole(resident, from.drop_last());
    }
}

/// An edited item whose question exactly one place asks is carried over: if
/// no later item of `from` asks the same question, that place afterwards
/// holds the item exactly, and no item with its question remains in `from`.
pub proof fn lemma_unique_question_is_placed(
    into: Seq<Vec<Item>>,
    from: Seq<Item>,
    done_into: Seq<Vec<Item>>,
    done_from: Seq<Item>,
    k: int,
    s: int,
    i: int,
)
    requires
        reconciled(into, from, done_into, done_from),
        0 <= k < from.len(),
        sole_match(into, from[k].question@, s, i),
        forall|j: int| k < j < from.len() ==> (#[trigger] from[j]).question@ != from[k].question@,
    ensures
        done_into[s][i] == from[k],
        forall|r: int|
            0 <= r < done_from.len() ==> (#[trigger] done_from[r]).question@ != from[k].question@,
{
    lemma_overwritten_by_last(into[s][i], from, k);
}

/// A place whose question other places ask too is never guessed at: it holds
/// afterwards what it held before.
pub proof fn lemma_ambiguous_place_is_kept(
    into: Seq<Vec<Item>>,
    from: Seq<Item>,
    done_into: Seq<Vec<Item>>,
    done_from: Seq<Item>,
    s: int,
    i: int,
)
    requires
        reconciled(into, from, done_into, done_from),
        0 <= s < into.len(),
        0 <= i < into[s].len(),
        !sole_match(into, into[s][i].question@, s, i),
    ensures
        done_into[s][i] == into[s][i],
{
    lemma_overwritten_needs_sole(into[s][i], from);
}

/// A reconciliation: the stores to carry edits into, and the edited items.
#[derive(Debug)]
pub struct Update {
    /// The stores, in the order in which they are written back.
    pub into: Vec<Vec<Item>>,
    /// The edited items; afterwards, those that found no place.
    pub from: Vec<Item>,
}

impl Update {
    /// Carries every item of `from` into the one place that asks its
    /// question, overwriting what stood there. An item whose question no
    /// place asks, or more than one, stays in `from`.
    pub fn gogogo(self) -> (done: Update)
        ensures
            reconciled(self.into@, self.from@, done.into@, done.from@),
    {
        let ghost into0 = self.into@;
        let ghost from0 = self.from@;
        let mut into = self.into;
        let from = self.from;
        let mut remains: Vec<Item> = Vec::new();
        for item in it: from
            invariant
                it.seq() == from0,
                same_questions(into@, into0),
                forall|s: int, i: int|
                    0 <= s < into0.len() && 0 <= i < into0[s].len() ==> #[trigger] into@[s][i]
                        == placed(into0, from0.take(it.index() as int), s, i),
                remains@ == from0.take(it.index() as int).filter(unplaced(into0)),
        {
            let ghost seen = from0.take(it.index() as int);
            let ghost current = into@;
            proof {
                lemma_sole_match_carries(current, into0, item.question@);
                lemma_sole_match_carries(into0, current, item.question@);
                assert(from0.take(it.index() + 1) == seen.push(item));
                assert(seen.push(item).drop_last() == seen);
                seen.lemma_filter_push(item, unplaced(into0));
            }
            match find_position(&into, &item) {
                Some((s, i)) => {
                    into[s][i] = item;
                },
                None => {
                    remains.push(item);
                },
            }
        }
        proof {
            assert(from0.take(from0.len() as int) == from0);
        }
        Update { into, from: remains }
    }
}

} // verus!
