//! The working subset of a session and the marks the learner gave.

use crate::exam::Exam;
use crate::item::{interval_allowed, schedulable, timeout, Item, INIT_INTERVAL_SECS};
use crate::random::shuffle;
use crate::sorting::{
    is_stable_sort, question_of, sort_items_by_question, sort_positions_by_question,
};
use crate::text::{lemma_text_le_antisymmetric, lemma_text_le_total, text_le};
use crate::time::Timestamp;
use vstd::prelude::*;

verus! {

/// One chosen item: its position in the store, and whether the learner
/// still knows it.
#[derive(Clone, Copy, Debug, PartialEq, Eq, Structural)]
pub struct SelectionEntry {
    pub index: usize,
    pub correct: bool,
}

/// Whether some entry chooses the item at position `i`.
pub open spec fn selects(entries: Seq<SelectionEntry>, i: int) -> bool {
    exists|k: int| 0 <= k < entries.len() && (#[trigger] entries[k]).index == i
}

/// Every entry points into a store of `count` items, and no two entries
/// point at the same item.
pub open spec fn valid_selection(count: nat, entries: Seq<SelectionEntry>) -> bool {
    &&& forall|k: int| 0 <= k < entries.len() ==> (#[trigger] entries[k]).index < count
    &&& forall|j: int, k: int|
        0 <= j < k < entries.len() ==> (#[trigger] entries[j]).index != (
        #[trigger] entries[k]).index
}

/// How many items of the store are up for review at `now`.
pub open spec fn eligible_count(items: Seq<Item>, now: Timestamp) -> nat {
    items.filter(|item: Item| item.eligible(now)).len()
}

/// The item at `a` is presented before the one at `b` when the store is
/// gone through by question: by the order of the questions, and by position
/// where the questions are the same.
pub open spec fn question_precedes(items: Seq<Item>, a: int, b: int) -> bool {
    &&& text_le(items[a].question@, items[b].question@)
    &&& items[a].question@ == items[b].question@ ==> a < b
}

/// What a session chooses from `items` at `now`.
///
/// Only items that are up for review are chosen, each once and marked as
/// known. Without `take` all of them are; with it, as many as `take` allows.
/// In a sorted session the entries run in the order of the questions, and
/// what `take` leaves out comes after every entry in that order.
pub open spec fn built(
    items: Seq<Item>,
    now: Timestamp,
    take: Option<usize>,
    sort: bool,
    entries: Seq<SelectionEntry>,
) -> bool {
    &&& valid_selection(items.len(), entries)
    &&& forall|k: int|
        0 <= k < entries.len() ==> (#[trigger] entries[k]).correct
            && items[entries[k].index as int].eligible(now)
    &&& entries.len() == presented(eligible_count(items, now), take)
    &&& forall|i: int|
        0 <= i < items.len() && (#[trigger] items[i]).eligible(now) && !selects(entries, i) ==> take
            == Some(entries.len() as usize)
    &&& sort ==> {
        &&& forall|j: int, k: int|
            0 <= j < k < entries.len() ==> question_precedes(
                items,
                (#[trigger] entries[j]).index as int,
                (#[trigger] entries[k]).index as int,
            )
        &&& forall|k: int, i: int|
            0 <= k < entries.len() && 0 <= i < items.len() && (#[trigger] items[i]).eligible(now)
                && !selects(entries, i) ==> question_precedes(
                items,
                (#[trigger] entries[k]).index as int,
                i,
            )
    }
}

/// `after` is the store `before` once the marks of `entries` are recorded at
/// `now`: each chosen item is marked correct or wrong as its entry says, and
/// every other item is as it was.
pub open spec fn reviewed(
    before: Seq<Item>,
    entries: Seq<SelectionEntry>,
    now: Timestamp,
    after: Seq<Item>,
) -> bool {
    &&& after.len() == before.len()
    &&& forall|k: int|
        0 <= k < entries.len() ==> if (#[trigger] entries[k]).correct {
            before[entries[k].index as int].marked_correct(now, after[entries[k].index as int])
        } else {
            before[entries[k].index as int].marked_wrong(now, after[entries[k].index as int])
        }
    &&& forall|i: int|
        0 <= i < before.len() && !selects(entries, i) ==> #[trigger] after[i] == before[i]
}

/// The delay for which the interval of an entry is drawn: the age of the
/// streak of its item if it is marked as known, the initial delay if not.
pub open spec fn entry_delay(store: Seq<Item>, entry: SelectionEntry, now: Timestamp) -> int {
    if entry.correct {
        store[entry.index as int].streak_delay(now)
    } else {
        INIT_INTERVAL_SECS as int
    }
}

/// `intervals` holds one interval for each entry, each allowed for the
/// delay of its entry.
pub open spec fn drawn_for(
    store: Seq<Item>,
    entries: Seq<SelectionEntry>,
    now: Timestamp,
    intervals: Seq<i64>,
) -> bool {
    &&& intervals.len() == entries.len()
    &&& forall|k: int|
        0 <= k < entries.len() ==> interval_allowed(
            entry_delay(store, entries[k], now),
            #[trigger] intervals[k] as int,
        )
}

/// The item once its mark is recorded at `now` and it is scheduled
/// `interval` seconds on.
pub open spec fn marked(item: Item, correct: bool, now: Timestamp, interval: int) -> Item {
    if correct {
        item.after_correct(now, interval)
    } else {
        item.after_wrong(now, interval)
    }
}

/// The store once the marks of `entries` are recorded at `now`, the item of
/// the `k`-th entry scheduled `intervals[k]` seconds on.
pub open spec fn recorded(
    before: Seq<Item>,
    entries: Seq<SelectionEntry>,
    now: Timestamp,
    intervals: Seq<i64>,
) -> Seq<Item>
    decreases entries.len(),
{
    if entries.len() == 0 {
        before
    } else {
        let earlier = recorded(before, entries.drop_last(), now, intervals.drop_last());
        let entry = entries.last();
        let i = entry.index as int;
        earlier.update(i, marked(earlier[i], entry.correct, now, intervals.last() as int))
    }
}

/// `output` is what a session over `before` with `entries` hands back at
/// `now`: the reviewed store, sorted by question.
pub open spec fn fed_back(
    before: Seq<Item>,
    entries: Seq<SelectionEntry>,
    now: Timestamp,
    output: Seq<Item>,
) -> bool {
    exists|after: Seq<Item>| #[trigger]
        reviewed(before, entries, now, after) && is_stable_sort(after, output, question_of())
}

/// The durable form of a session: the entries alone, without the items.
#[derive(Debug)]
pub struct Checkpoint {
    pub selected_items: Vec<SelectionEntry>,
}

/// Why a checkpoint does not fit a store.
#[derive(Clone, Copy, Debug, PartialEq, Eq, Structural)]
pub enum RestoreError {
    /// The entry at `position` points past the end of the store.
    OutOfRange { position: usize },
    /// The entry at `position` points at an item that an earlier entry chose.
    Repeated { position: usize },
}

/// The entry at `k` cannot belong to a session over `count` items: it points
/// outside the store, or at an item that an earlier entry has chosen.
pub open spec fn faulty_at(count: nat, entries: Seq<SelectionEntry>, k: int) -> bool {
    ||| entries[k].index >= count
    ||| exists|j: int| 0 <= j < k && (#[trigger] entries[j]).index == entries[k].index
}

/// What restoring `entries` over `items` gives: a session, if the entries
/// fit the store; else the first entry that does not, and why.
pub open spec fn restored(
    items: Seq<Item>,
    entries: Seq<SelectionEntry>,
    result: Result<Selected, RestoreError>,
) -> bool {
    match result {
        Ok(session) => {
            &&& valid_selection(items.len(), entries)
            &&& session.store() == items
            &&& session.entries() == entries
        },
        Err(RestoreError::OutOfRange { position }) => {
            &&& position < entries.len()
            &&& entries[position as int].index >= items.len()
            &&& forall|j: int| 0 <= j < position ==> !faulty_at(items.len(), entries, j)
        },
        Err(RestoreError::Repeated { position }) => {
            &&& position < entries.len()
            &&& entries[position as int].index < items.len()
            &&& faulty_at(items.len(), entries, position as int)
            &&& forall|j: int| 0 <= j < position ==> !faulty_at(items.len(), entries, j)
        },
    }
}

/// How many of `count` chosen items a session presents under the limit
/// `take`.
pub open spec fn presented(count: nat, take: Option<usize>) -> nat {
    match take {
        Some(n) => if n <= count {
            n as nat
        } else {
            count
        },
        None => count,
    }
}

/// The entries that present the items at `order`, each marked as known.
pub open spec fn marked_known(order: Seq<usize>) -> Seq<SelectionEntry> {
    Seq::new(order.len(), |k: int| SelectionEntry { index: order[k], correct: true })
}

/// The positions of the items that are up for review, in store order.
pub fn eligible_positions(items: &Vec<Item>, now: &Timestamp) -> (order: Vec<usize>)
    ensures
        order.len() == eligible_count(items@, *now),
        forall|k: int|
            0 <= k < order.len() ==> #[trigger] order[k] < items.len()
                && items[order[k] as int].eligible(*now),
        forall|j: int, k: int| 0 <= j < k < order.len() ==> order[j] < order[k],
        forall|i: int|
            0 <= i < items.len() && (#[trigger] items[i]).eligible(*now) ==> order@.contains(
                i as usize,
            ),
{
    let mut order: Vec<usize> = Vec::new();
    let ghost due = |item: Item| item.eligible(*now);
    let mut i: usize = 0;
    while i < items.len()
        invariant
            i <= items.len(),
            due == |item: Item| item.eligible(*now),
            order.len() == items@.take(i as int).filter(due).len(),
            forall|k: int|
                0 <= k < order.len() ==> #[trigger] order[k] < i
                    && items[order[k] as int].eligible(*now),
            forall|j: int, k: int| 0 <= j < k < order.len() ==> order[j] < order[k],
            forall|h: int|
                0 <= h < i && (#[trigger] items[h]).eligible(*now) ==> order@.contains(h as usize),
        decreases items.len() - i,
    {
        proof {
            assert(items@.take(i as int + 1) == items@.take(i as int).push(items@[i as int]));
            items@.take(i as int).lemma_filter_push(items@[i as int], due);
        }
        if items[i].is_eligible(now) {
            let ghost before = order@;
            order.push(i);
            proof {
                assert(order@[before.len() as int] == i);
                assert forall|h: int|
                    0 <= h < i + 1 && (#[trigger] items[h]).eligible(*now) implies order@.contains(
                    h as usize,
                ) by {
                    if h < i {
                        let k = before.index_of(h as usize);
                        assert(order@[k] == h as usize);
                    }
                }
            }
        }
        i += 1;
    }
    proof {
        assert(items@.take(items.len() as int) == items@);
    }
    order
}

/// A permutation of distinct positions is again a list of distinct
/// positions, holding exactly what the first list holds.
proof fn lemma_permuted_positions(before: Seq<usize>, after: Seq<usize>)
    requires
        after.to_multiset() == before.to_multiset(),
        forall|j: int, k: int| 0 <= j < k < before.len() ==> before[j] < before[k],
    ensures
        after.len() == before.len(),
        after.no_duplicates(),
        forall|k: int| 0 <= k < after.len() ==> before.contains(#[trigger] after[k]),
        forall|x: usize| before.contains(x) ==> after.contains(x),
{
    before.to_multiset_ensures();
    after.to_multiset_ensures();
    before.lemma_multiset_has_no_duplicates();
    after.lemma_multiset_has_no_duplicates_conv();
    assert forall|k: int| 0 <= k < after.len() implies before.contains(#[trigger] after[k]) by {
        assert(after.to_multiset().count(after[k]) > 0);
    }
    assert forall|x: usize| before.contains(x) implies after.contains(x) by {
        assert(before.to_multiset().count(x) > 0);
    }
}

/// Of two different items of a store, exactly one is presented before the
/// other.
proof fn lemma_question_precedes_orders(items: Seq<Item>, a: int, b: int)
    requires
        a != b,
    ensures
        question_precedes(items, a, b) != question_precedes(items, b, a),
{
    let qa = items[a].question@;
    let qb = items[b].question@;
    lemma_text_le_total(qa, qb);
    if text_le(qa, qb) && text_le(qb, qa) {
        lemma_text_le_antisymmetric(qa, qb);
    }
}

/// Two sorted sessions over the same store agree on their first `k` entries.
proof fn lemma_sorted_sessions_agree(
    items: Seq<Item>,
    now: Timestamp,
    take: Option<usize>,
    first: Seq<SelectionEntry>,
    second: Seq<SelectionEntry>,
    k: int,
)
    requires
        built(items, now, take, true, first),
        built(items, now, take, true, second),
        0 <= k <= first.len(),
    ensures
        first.len() == second.len(),
        forall|j: int| 0 <= j < k ==> first[j] == second[j],
    decreases k,
{
    if k > 0 {
        lemma_sorted_sessions_agree(items, now, take, first, second, k - 1);
        let h = k - 1;
        if first[h].index != second[h].index {
            // one of the two would have to come before the other, and neither can
            lemma_is_no_later_entry(items, now, take, first, second, h);
            lemma_is_no_later_entry(items, now, take, second, first, h);
        }
    }
}

/// In two sorted sessions that agree below `h`, what the first presents at
/// `h` does not precede what the second presents there.
proof fn lemma_is_no_later_entry(
    items: Seq<Item>,
    now: Timestamp,
    take: Option<usize>,
    first: Seq<SelectionEntry>,
    second: Seq<SelectionEntry>,
    h: int,
)
    requires
        built(items, now, take, true, first),
        built(items, now, take, true, second),
        first.len() == second.len(),
        0 <= h < first.len(),
        forall|j: int| 0 <= j < h ==> first[j] == second[j],
        first[h].index != second[h].index,
    ensures
        !question_precedes(items, first[h].index as int, second[h].index as int),
{
    lemma_question_precedes_orders(items, first[h].index as int, second[h].index as int);
}

/// A sorted session is determined by the store, the time and the limit: any
/// two sets of entries that `built` admits are the same, entry for entry.
pub proof fn lemma_sorted_session_is_determined(
    items: Seq<Item>,
    now: Timestamp,
    take: Option<usize>,
    first: Seq<SelectionEntry>,
    second: Seq<SelectionEntry>,
)
    requires
        built(items, now, take, true, first),
        built(items, now, take, true, second),
    ensures
        first == second,
{
    lemma_sorted_sessions_agree(items, now, take, first, second, first.len() as int);
}

/// Recording the marks with intervals that were drawn for them is a review
/// of the store: each chosen item is marked as its entry says, within the
/// window of its delay, and every other item is as it was.
pub proof fn lemma_recorded_is_reviewed(
    before: Seq<Item>,
    entries: Seq<SelectionEntry>,
    now: Timestamp,
    intervals: Seq<i64>,
)
    requires
        valid_selection(before.len(), entries),
        drawn_for(before, entries, now, intervals),
        schedulable(now),
    ensures
        recorded(before, entries, now, intervals).len() == before.len(),
        reviewed(before, entries, now, recorded(before, entries, now, intervals)),
    decreases entries.len(),
{
    if entries.len() > 0 {
        let n = entries.len() - 1;
        let prev = entries.drop_last();
        let entry = entries.last();
        let after = recorded(before, entries, now, intervals);
        lemma_recorded_is_reviewed(before, prev, now, intervals.drop_last());
        assert forall|k: int| 0 <= k < entries.len() implies if (#[trigger] entries[k]).correct {
            before[entries[k].index as int].marked_correct(now, after[entries[k].index as int])
        } else {
            before[entries[k].index as int].marked_wrong(now, after[entries[k].index as int])
        } by {
            if k < n {
                assert(prev[k] == entries[k]);
            }
        }
    }
}

/// Feedback leaves alone what the session did not choose: an item that no
/// entry points at is found in the output exactly as it stood in the store,
/// wherever the sort has put it.
pub proof fn lemma_feedback_keeps_unselected(
    before: Seq<Item>,
    entries: Seq<SelectionEntry>,
    now: Timestamp,
    output: Seq<Item>,
    i: int,
)
    requires
        fed_back(before, entries, now, output),
        0 <= i < before.len(),
        !selects(entries, i),
    ensures
        output.len() == before.len(),
        output.contains(before[i]),
{
    let after = choose|after: Seq<Item>| #[trigger]
        reviewed(before, entries, now, after) && is_stable_sort(after, output, question_of());
    after.to_multiset_ensures();
    output.to_multiset_ensures();
    assert(after[i] == before[i]);
    assert(after.to_multiset().count(before[i]) > 0);
}

/// A checkpoint fits the store it was saved over: restoring what a session
/// saved, over a store of the same length, gives a session with the same
/// entries in the same order.
pub proof fn lemma_checkpoint_round_trip(
    session: Selected,
    items: Seq<Item>,
    result: Result<Selected, RestoreError>,
)
    requires
        session.wf(),
        items.len() == session.store().len(),
        restored(items, session.entries(), result),
    ensures
        result is Ok,
        result->Ok_0.entries() == session.entries(),
        result->Ok_0.store() == items,
{
}

/// A session: the whole store, and the entries chosen from it in the order
/// in which they are presented.
pub struct Selected {
    items: Vec<Item>,
    entries: Vec<SelectionEntry>,
}

impl Selected {
    /// The store the session works on.
    pub closed spec fn store(&self) -> Seq<Item> {
        self.items@
    }

    /// The chosen items with their marks, in presentation order.
    pub closed spec fn entries(&self) -> Seq<SelectionEntry> {
        self.entries@
    }

    /// Every entry points at an item of the store, and at one of its own.
    pub open spec fn wf(&self) -> bool {
        valid_selection(self.store().len(), self.entries())
    }

    /// Opens a session on `items` at `now`: chooses the items that are up for
    /// review, orders them as `cfg` asks, and keeps at most `cfg.take`.
    pub fn new(items: Vec<Item>, now: &Timestamp, cfg: &Exam) -> (session: Selected)
        ensures
            session.wf(),
            session.store() == items@,
            built(items@, *now, cfg.take, cfg.sort, session.entries()),
    {
        let mut order = eligible_positions(&items, now);
        let ghost found = order@;
        if cfg.sort {
            sort_positions_by_question(&mut order, &items);
        } else {
            let mut source = rand::rng();
            shuffle(&mut source, &mut order);
        }
        let ghost arranged = order@;
        proof {
            lemma_permuted_positions(found, arranged);
        }
        let session = Selected::presenting(items, order, cfg.take);
        proof {
            let chosen = session.entries();
            assert forall|i: int|
                0 <= i < items.len() && (#[trigger] items@[i]).eligible(*now) && !selects(
                    chosen,
                    i,
                ) implies cfg.take == Some(chosen.len() as usize) && exists|h: int|
                chosen.len() <= h < arranged.len() && arranged[h] == i by {
                let h = arranged.index_of(i as usize);
                if h < chosen.len() {
                    assert(chosen[h].index == i);
                }
            }
        }
        session
    }

    /// Opens a session that presents the items at the positions `order`, in
    /// that order and as far as `take` allows, each marked as known.
    pub fn presenting(
        items: Vec<Item>,
        order: Vec<usize>,
        take: Option<usize>,
    ) -> (session: Selected)
        requires
            forall|k: int| 0 <= k < order.len() ==> #[trigger] order[k] < items.len(),
            order@.no_duplicates(),
        ensures
            session.wf(),
            session.store() == items@,
            session.entries() == marked_known(order@.take(presented(order@.len(), take) as int)),
    {
        let mut order = order;
        if let Some(n) = take {
            order.truncate(n);
        }
        let mut entries: Vec<SelectionEntry> = Vec::new();
        let mut k: usize = 0;
        while k < order.len()
            invariant
                k <= order.len(),
                entries@ == marked_known(order@.take(k as int)),
            decreases order.len() - k,
        {
            entries.push(SelectionEntry { index: order[k], correct: true });
            k += 1;
        }
        Selected { items, entries }
    }

    /// The chosen items with their marks, in presentation order.
    pub fn items(&self) -> (rows: Vec<(Item, bool)>)
        requires
            self.wf(),
        ensures
            rows.len() == self.entries().len(),
            forall|k: int|
                0 <= k < rows.len() ==> #[trigger] rows[k] == (
                    self.store()[self.entries()[k].index as int],
                    self.entries()[k].correct,
                ),
    {
        let mut rows: Vec<(Item, bool)> = Vec::new();
        let mut k: usize = 0;
        while k < self.entries.len()
            invariant
                self.wf(),
                k <= self.entries.len(),
                rows.len() == k,
                forall|j: int|
                    0 <= j < k ==> #[trigger] rows[j] == (
                        self.items[self.entries[j].index as int],
                        self.entries[j].correct,
                    ),
            decreases self.entries.len() - k,
        {
            let entry = self.entries[k];
            rows.push((self.items[entry.index].clone(), entry.correct));
            k += 1;
        }
        rows
    }

    /// How many items the session presents.
    pub fn len(&self) -> (n: usize)
        ensures
            n == self.entries().len(),
    {
        self.entries.len()
    }

    /// Marks the `idx`-th presented item as known.
    pub fn set(&mut self, idx: usize)
        requires
            idx < old(self).entries().len(),
        ensures
            final(self).store() == old(self).store(),
            final(self).entries() == old(self).entries().update(
                idx as int,
                SelectionEntry { index: old(self).entries()[idx as int].index, correct: true },
            ),
            old(self).wf() ==> final(self).wf(),
    {
        let index = self.entries[idx].index;
        self.entries[idx] = SelectionEntry { index, correct: true };
    }

    /// Marks the `idx`-th presented item as forgotten.
    pub fn unset(&mut self, idx: usize)
        requires
            idx < old(self).entries().len(),
        ensures
            final(self).store() == old(self).store(),
            final(self).entries() == old(self).entries().update(
                idx as int,
                SelectionEntry { index: old(self).entries()[idx as int].index, correct: false },
            ),
            old(self).wf() ==> final(self).wf(),
    {
        let index = self.entries[idx].index;
        self.entries[idx] = SelectionEntry { index, correct: false };
    }

    /// Takes over the marks as one frame of the display left them: the
    /// `k`-th presented item is known if and only if `marks[k]` says so.
    pub fn update(&mut self, marks: &Vec<bool>)
        requires
            marks.len() == old(self).entries().len(),
        ensures
            final(self).store() == old(self).store(),
            final(self).entries().len() == old(self).entries().len(),
            forall|k: int|
                0 <= k < marks.len() ==> #[trigger] final(self).entries()[k] == (SelectionEntry {
                    index: old(self).entries()[k].index,
                    correct: marks[k],
                }),
            old(self).wf() ==> final(self).wf(),
    {
        let mut k: usize = 0;
        while k < marks.len()
            invariant
                k <= marks.len(),
                marks.len() == self.entries.len(),
                self.items == old(self).items,
                self.entries.len() == old(self).entries.len(),
                forall|j: int|
                    0 <= j < self.entries.len() ==> (#[trigger] self.entries[j]).index == old(
                        self,
                    ).entries[j].index,
                forall|j: int| 0 <= j < k ==> (#[trigger] self.entries[j]).correct == marks[j],
            decreases marks.len() - k,
        {
            let index = self.entries[k].index;
            self.entries[k] = SelectionEntry { index, correct: marks[k] };
            k += 1;
        }
    }

    /// Draws, for each entry in turn, the interval after which its item comes
    /// up again: for the age of its streak if it is marked as known, for the
    /// initial delay if it is not.
    pub fn draw_intervals(&self, now: &Timestamp) -> (intervals: Vec<i64>)
        requires
            self.wf(),
        ensures
            drawn_for(self.store(), self.entries(), *now, intervals@),
    {
        let mut intervals: Vec<i64> = Vec::new();
        let mut k: usize = 0;
        while k < self.entries.len()
            invariant
                self.wf(),
                k <= self.entries.len(),
                drawn_for(self.items@, self.entries@.take(k as int), *now, intervals@),
            decreases self.entries.len() - k,
        {
            let entry = self.entries[k];
            let delay = if entry.correct {
                self.items[entry.index].delay_at(now)
            } else {
                INIT_INTERVAL_SECS
            };
            intervals.push(timeout(delay));
            k += 1;
        }
        intervals
    }

    /// Ends the session at `now` with the given intervals, one for each
    /// entry: records every mark in the store, which schedules the item of
    /// the `k`-th entry `intervals[k]` seconds on, and hands the whole store
    /// back, sorted by question. The session is left empty.
    pub fn feedback_after(&mut self, now: &Timestamp, intervals: &Vec<i64>) -> (output: Vec<Item>)
        requires
            old(self).wf(),
            intervals.len() == old(self).entries().len(),
            forall|k: int|
                0 <= k < intervals.len() ==> i64::MIN <= now.secs + #[trigger] intervals[k]
                    <= i64::MAX,
        ensures
            is_stable_sort(
                recorded(old(self).store(), old(self).entries(), *now, intervals@),
                output@,
                question_of(),
            ),
            final(self).store().len() == 0,
            final(self).entries().len() == 0,
            final(self).wf(),
    {
        let mut res: Vec<Item> = Vec::new();
        let mut marks: Vec<SelectionEntry> = Vec::new();
        std::mem::swap(&mut res, &mut self.items);
        std::mem::swap(&mut marks, &mut self.entries);
        let ghost before = res@;
        let mut k: usize = 0;
        while k < marks.len()
            invariant
                k <= marks.len(),
                marks.len() == intervals.len(),
                valid_selection(before.len(), marks@),
                forall|j: int|
                    0 <= j < intervals.len() ==> i64::MIN <= now.secs + #[trigger] intervals[j]
                        <= i64::MAX,
                res.len() == before.len(),
                res@ == recorded(before, marks@.take(k as int), *now, intervals@.take(k as int)),
            decreases marks.len() - k,
        {
            let entry = marks[k];
            proof {
                assert(marks@.take(k as int + 1).drop_last() == marks@.take(k as int));
                assert(intervals@.take(k as int + 1).drop_last() == intervals@.take(k as int));
            }
            if entry.correct {
                res[entry.index].correct_after(now, intervals[k]);
            } else {
                res[entry.index].wrong_after(now, intervals[k]);
            }
            k += 1;
        }
        proof {
            assert(marks@.take(marks.len() as int) == marks@);
            assert(intervals@.take(intervals.len() as int) == intervals@);
        }
        sort_items_by_question(&mut res);
        res
    }

    /// Ends the session at `now`: records every mark in the store, each with
    /// an interval drawn for it, and hands the whole store back, sorted by
    /// question. The session is left empty.
    pub fn feedback(&mut self, now: &Timestamp) -> (output: Vec<Item>)
        requires
            old(self).wf(),
            schedulable(*now),
        ensures
            fed_back(old(self).store(), old(self).entries(), *now, output@),
            final(self).store().len() == 0,
            final(self).entries().len() == 0,
            final(self).wf(),
    {
        let intervals = self.draw_intervals(now);
        proof {
            lemma_recorded_is_reviewed(self.store(), self.entries(), *now, intervals@);
        }
        let output = self.feedback_after(now, &intervals);
        output
    }

    /// The entries of the session, to be kept while it is interrupted.
    pub fn save(&self) -> (checkpoint: Checkpoint)
        ensures
            checkpoint.selected_items@ == self.entries(),
    {
        let mut selected_items: Vec<SelectionEntry> = Vec::new();
        let mut k: usize = 0;
        while k < self.entries.len()
            invariant
                k <= self.entries.len(),
                selected_items@ == self.entries@.take(k as int),
            decreases self.entries.len() - k,
        {
            selected_items.push(self.entries[k]);
            k += 1;
        }
        Checkpoint { selected_items }
    }

    /// Takes a session up again from `checkpoint`, over a store loaded
    /// afresh. The checkpoint is held against the store first: an entry that
    /// points outside it, or at an item already chosen, ends the attempt.
    pub fn restore(items: Vec<Item>, checkpoint: &Checkpoint) -> (result: Result<
        Selected,
        RestoreError,
    >)
        ensures
            restored(items@, checkpoint.selected_items@, result),
            result is Ok ==> result->Ok_0.wf(),
    {
        let mut seen: Vec<bool> = Vec::new();
        let mut i: usize = 0;
        while i < items.len()
            invariant
                i <= items.len(),
                seen.len() == i,
                forall|h: int| 0 <= h < i ==> !(#[trigger] seen[h]),
            decreases items.len() - i,
        {
            seen.push(false);
            i += 1;
        }
        let mut entries: Vec<SelectionEntry> = Vec::new();
        let mut k: usize = 0;
        while k < checkpoint.selected_items.len()
            invariant
                k <= checkpoint.selected_items.len(),
                seen.len() == items.len(),
                entries@ == checkpoint.selected_items@.take(k as int),
                forall|j: int|
                    0 <= j < k ==> !faulty_at(items@.len(), checkpoint.selected_items@, j),
                forall|h: int|
                    0 <= h < seen.len() ==> (#[trigger] seen[h] <==> selects(
                        checkpoint.selected_items@.take(k as int),
                        h,
                    )),
            decreases checkpoint.selected_items.len() - k,
        {
            let entry = checkpoint.selected_items[k];
            let ghost all = checkpoint.selected_items@;
            if entry.index >= items.len() {
                return Err(RestoreError::OutOfRange { position: k });
            }
            if seen[entry.index] {
                return Err(RestoreError::Repeated { position: k });
            }
            proof {
                assert(!faulty_at(items@.len(), all, k as int)) by {
                    if exists|j: int|
                        0 <= j < k && (#[trigger] all[j]).index == all[k as int].index {
                        let j = choose|j: int|
                            0 <= j < k && (#[trigger] all[j]).index == all[k as int].index;
                        assert(all.take(k as int)[j].index == entry.index);
                    }
                }
            }
            seen[entry.index] = true;
            entries.push(entry);
            proof {
                let done = all.take(k as int + 1);
                assert forall|h: int| 0 <= h < seen.len() implies (#[trigger] seen[h] <==> selects(
                    done,
                    h,
                )) by {
                    if h == entry.index {
                        assert(done[k as int].index == h);
                    }
                }
            }
            k += 1;
        }
        proof {
            let all = checkpoint.selected_items@;
            assert(all.take(all.len() as int) == all);
            assert forall|j: int, k: int| 0 <= j < k < all.len() implies (#[trigger] all[j]).index
                != (#[trigger] all[k]).index by {
                assert(!faulty_at(items@.len(), all, k));
            }
            assert forall|k: int| 0 <= k < all.len() implies (#[trigger] all[k]).index
                < items@.len() by {
                assert(!faulty_at(items@.len(), all, k));
            }
        }
        Ok(Selected { items, entries })
    }
}

} // verus!
