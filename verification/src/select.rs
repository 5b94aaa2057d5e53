//! Selection for export: the items of a store that are due, that carry one
//! of the wanted labels, or both; all of them, or a random few.

use crate::item::Item;
use crate::random::shuffle;
use crate::text::{chars_of, is_space, is_whitespace, spells};
use crate::time::Timestamp;
use vstd::prelude::*;

verus! {

/// The characters `text[start..end]` are a label of `text`: a run of
/// characters that are not white space, with white space or the end of the
/// text on either side.
pub open spec fn is_label(text: Seq<char>, start: int, end: int) -> bool {
    &&& 0 <= start < end <= text.len()
    &&& forall|k: int| start <= k < end ==> !is_space(#[trigger] text[k])
    &&& start == 0 || is_space(text[start - 1])
    &&& end == text.len() || is_space(text[end])
}

/// Whether one of the labels of `text` is among `wanted`.
pub open spec fn carries(text: Seq<char>, wanted: Seq<Seq<char>>) -> bool {
    exists|start: int, end: int| #[trigger]
        is_label(text, start, end) && wanted.contains(text.subrange(start, end))
}

/// The texts of a list of words kept as characters.
pub open spec fn words(wanted: Seq<Vec<char>>) -> Seq<Seq<char>> {
    Seq::new(wanted.len(), |i: int| wanted[i]@)
}

/// The texts of a list of tags.
pub open spec fn tag_texts(tags: Seq<String>) -> Seq<Seq<char>> {
    Seq::new(tags.len(), |i: int| tags[i]@)
}

/// Whether `text[start..end]` is one of the `wanted` words.
fn among(text: &Vec<char>, start: usize, end: usize, wanted: &Vec<Vec<char>>) -> (r: bool)
    requires
        start <= end <= text.len(),
    ensures
        r == words(wanted@).contains(text@.subrange(start as int, end as int)),
{
    let ghost piece = text@.subrange(start as int, end as int);
    let mut k: usize = 0;
    while k < wanted.len()
        invariant
            start <= end <= text.len(),
            piece == text@.subrange(start as int, end as int),
            k <= wanted.len(),
            forall|j: int| 0 <= j < k ==> wanted[j]@ != piece,
        decreases wanted.len() - k,
    {
        if spells(text, start, end, &wanted[k]) {
            assert(words(wanted@)[k as int] == piece);
            return true;
        }
        k += 1;
    }
    assert forall|j: int| 0 <= j < words(wanted@).len() implies words(wanted@)[j] != piece by {}
    false
}

/// Whether one of the labels of `tag` is among the `wanted` words.
pub fn carries_label(tag: &str, wanted: &Vec<Vec<char>>) -> (r: bool)
    ensures
        r == carries(tag@, words(wanted@)),
{
    let text = chars_of(tag);
    let mut start: usize = 0;
    let mut i: usize = 0;
    while i < text.len()
        invariant
            text@ == tag@,
            start <= i <= text.len(),
            start == 0 || is_space(text[start - 1]),
            forall|k: int| start <= k < i ==> !is_space(#[trigger] text[k]),
            forall|a: int, b: int|
                #[trigger] is_label(text@, a, b) && b <= i ==> (b == i && a == start) || !words(
                    wanted@,
                ).contains(text@.subrange(a, b)),
        decreases text.len() - i,
    {
        if is_whitespace(text[i]) {
            if start < i {
                assert(is_label(text@, start as int, i as int));
                if among(&text, start, i, wanted) {
                    return true;
                }
            }
            assert forall|a: int, b: int| #[trigger]
                is_label(text@, a, b) && b <= i + 1 implies !words(wanted@).contains(
                text@.subrange(a, b),
            ) by {}
            start = i + 1;
        } else {
            assert forall|a: int, b: int| #[trigger] is_label(text@, a, b) && b <= i + 1 implies (b
                == i + 1 && a == start) || !words(wanted@).contains(text@.subrange(a, b)) by {}
        }
        i += 1;
    }
    if start < i {
        assert(is_label(text@, start as int, i as int));
        among(&text, start, i, wanted)
    } else {
        assert forall|a: int, b: int| #[trigger] is_label(text@, a, b) implies !words(
            wanted@,
        ).contains(text@.subrange(a, b)) by {}
        false
    }
}

/// What a selection keeps: with `timeout`, only items that are due at `now`;
/// with `tags`, only items that carry one of them.
pub open spec fn kept(timeout: bool, tags: Option<Vec<String>>, now: Timestamp) -> spec_fn(
    Item,
) -> bool {
    |item: Item|
        {
            &&& timeout ==> item.eligible(now)
            &&& tags matches Some(tags) ==> (item.tag matches Some(tag) && carries(
                tag@,
                tag_texts(tags@),
            ))
        }
}

/// `output` is what selecting from `input` gives. Without `take` it is every
/// kept item, in store order. With it, as many of the kept items as `take`
/// allows, none more often than it was kept, in any order.
pub open spec fn selected(
    input: Seq<Item>,
    take: Option<usize>,
    timeout: bool,
    tags: Option<Vec<String>>,
    now: Timestamp,
    output: Seq<Item>,
) -> bool {
    let pool = input.filter(kept(timeout, tags, now));
    match take {
        None => output == pool,
        Some(n) => {
            &&& output.len() == if n <= pool.len() {
                n as nat
            } else {
                pool.len()
            }
            &&& output.to_multiset().subset_of(pool.to_multiset())
        },
    }
}

/// A selection from a store.
#[derive(Debug)]
pub struct Select {
    /// The store to select from.
    pub input: Vec<Item>,
    /// Select at most this many items, at random.
    pub take: Option<usize>,
    /// Select only items that are due.
    pub timeout: bool,
    /// Select only items that carry one of these labels.
    pub tags: Option<Vec<String>>,
}

/// The first part of a list holds nothing that the list does not.
proof fn lemma_take_is_part<T>(all: Seq<T>, n: int)
    requires
        0 <= n <= all.len(),
    ensures
        all.take(n).to_multiset().subset_of(all.to_multiset()),
{
    assert(all == all.take(n) + all.skip(n));
    vstd::seq_lib::lemma_multiset_commutative(all.take(n), all.skip(n));
}

/// Whether a selection with these settings keeps `item` at `now`; `wanted`
/// holds the characters of the tags.
fn keeps(
    timeout: bool,
    tags: &Option<Vec<String>>,
    item: &Item,
    now: &Timestamp,
    wanted: &Vec<Vec<char>>,
) -> (r: bool)
    requires
        tags matches Some(tags) ==> words(wanted@) == tag_texts(tags@),
    ensures
        r == kept(timeout, *tags, *now)(*item),
{
    if timeout && !item.is_eligible(now) {
        return false;
    }
    if tags.is_some() {
        match &item.tag {
            Some(tag) => carries_label(tag.as_str(), wanted),
            None => false,
        }
    } else {
        true
    }
}

impl Select {
    /// Selects from the store at `now` and hands out what was selected.
    pub fn gogogo(self, now: &Timestamp) -> (output: Vec<Item>)
        ensures
            selected(self.input@, self.take, self.timeout, self.tags, *now, output@),
    {
        let ghost input = self.input@;
        let ghost keep = kept(self.timeout, self.tags, *now);
        let Select { input: store, take, timeout, tags } = self;
        let mut wanted: Vec<Vec<char>> = Vec::new();
        if let Some(tags) = &tags {
            let mut k: usize = 0;
            while k < tags.len()
                invariant
                    k <= tags.len(),
                    wanted.len() == k,
                    forall|j: int| 0 <= j < k ==> wanted[j]@ == tags[j]@,
                decreases tags.len() - k,
            {
                wanted.push(chars_of(tags[k].as_str()));
                k += 1;
            }
        }
        let mut pool: Vec<Item> = Vec::new();
        for item in it: store
            invariant
                it.seq() == input,
                keep == kept(timeout, tags, *now),
                tags matches Some(tags) ==> words(wanted@) == tag_texts(tags@),
                pool@ == input.take(it.index() as int).filter(keep),
        {
            proof {
                let i = it.index() as int;
                assert(input.take(i + 1) == input.take(i).push(item));
                input.take(i).lemma_filter_push(item, keep);
            }
            if keeps(timeout, &tags, &item, now, &wanted) {
                pool.push(item);
            }
        }
        proof {
            assert(input.take(input.len() as int) == input);
        }
        if let Some(n) = take {
            let ghost all = pool@;
            let mut source = rand::rng();
            shuffle(&mut source, &mut pool);
            let ghost mixed = pool@;
            pool.truncate(n);
            proof {
                all.to_multiset_ensures();
                mixed.to_multiset_ensures();
                lemma_take_is_part(mixed, pool@.len() as int);
            }
        }
        pool
    }
}

} // verus!
