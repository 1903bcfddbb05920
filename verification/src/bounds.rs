use crate::declarations::contains_text;
use crate::generics::texts;
use vstd::prelude::*;

verus! {

/// `items` with every later repetition of an earlier item removed.
pub open spec fn first_occurrences(items: Seq<Seq<char>>) -> Seq<Seq<char>>
    decreases items.len(),
{
    if items.len() == 0 {
        Seq::empty()
    } else if first_occurrences(items.drop_last()).contains(items.last()) {
        first_occurrences(items.drop_last())
    } else {
        first_occurrences(items.drop_last()).push(items.last())
    }
}

/// The where-clause bounds of generated code with repeated bounds removed;
/// a bound is identified by its token text, and its first occurrence stays.
pub fn deduplicate_bounds(bounds: Vec<String>) -> (deduplicated: Vec<String>)
    ensures
        texts(deduplicated@) == first_occurrences(texts(bounds@)),
{
    let mut deduplicated: Vec<String> = Vec::new();
    let ghost all = texts(bounds@);
    let mut i: usize = 0;
    while i < bounds.len()
        invariant
            i <= bounds@.len(),
            all == texts(bounds@),
            texts(deduplicated@) == first_occurrences(all.take(i as int)),
        decreases bounds.len() - i,
    {
        proof {
            assert(all.take(i + 1).drop_last() =~= all.take(i as int));
            assert(all.take(i + 1).last() == bounds@[i as int]@);
        }
        if !contains_text(&deduplicated, &bounds[i]) {
            let ghost before = deduplicated@;
            deduplicated.push(bounds[i].clone());
            assert(texts(deduplicated@) =~= texts(before).push(bounds@[i as int]@));
        }
        i = i + 1;
    }
    assert(all.take(bounds.len() as int) =~= all);
    deduplicated
}

/// Deduplication keeps each item exactly once: every item of the input
/// appears in the output, the output holds only input items, and no item
/// appears twice.
pub proof fn law_first_occurrences_keep_each_item_once(items: Seq<Seq<char>>)
    ensures
        forall|i: int| 0 <= i < items.len() ==> first_occurrences(items).contains(#[trigger] items[i]),
        forall|j: int|
            0 <= j < first_occurrences(items).len() ==> items.contains(
                #[trigger] first_occurrences(items)[j],
            ),
        forall|j: int, k: int|
            0 <= j < k < first_occurrences(items).len() ==> #[trigger] first_occurrences(items)[j]
                != #[trigger] first_occurrences(items)[k],
    decreases items.len(),
{
    if items.len() > 0 {
        let earlier = items.drop_last();
        law_first_occurrences_keep_each_item_once(earlier);
        let before = first_occurrences(earlier);
        let after = first_occurrences(items);
        assert forall|i: int| 0 <= i < items.len() implies after.contains(#[trigger] items[i]) by {
            if i < items.len() - 1 {
                assert(earlier[i] == items[i]);
                let j = choose|j: int| 0 <= j < before.len() && before[j] == earlier[i];
                assert(after[j] == before[j]);
            } else if !before.contains(items.last()) {
                assert(after[after.len() - 1] == items.last());
            }
        }
        assert forall|j: int| 0 <= j < after.len() implies items.contains(#[trigger] after[j]) by {
            if j < before.len() {
                assert(after[j] == before[j]);
                let i = choose|i: int| 0 <= i < earlier.len() && earlier[i] == before[j];
                assert(items[i] == earlier[i]);
            } else {
                assert(items[items.len() - 1] == after[j]);
            }
        }
        assert forall|j: int, k: int| 0 <= j < k < after.len() implies #[trigger] after[j]
            != #[trigger] after[k] by {
            if k < before.len() {
                assert(after[j] == before[j] && after[k] == before[k]);
            } else {
                assert(after[j] == before[j]);
            }
        }
    }
}

/// Deduplication never reorders: removing repetitions twice changes nothing
/// more.
pub proof fn law_first_occurrences_idempotent(items: Seq<Seq<char>>)
    ensures
        first_occurrences(first_occurrences(items)) == first_occurrences(items),
{
    law_first_occurrences_keep_each_item_once(items);
    lemma_first_occurrences_of_distinct(first_occurrences(items));
}

proof fn lemma_first_occurrences_of_distinct(items: Seq<Seq<char>>)
    requires
        forall|j: int, k: int| 0 <= j < k < items.len() ==> #[trigger] items[j] != #[trigger] items[k],
    ensures
        first_occurrences(items) == items,
    decreases items.len(),
{
    if items.len() > 0 {
        let earlier = items.drop_last();
        assert forall|j: int, k: int| 0 <= j < k < earlier.len() implies #[trigger] earlier[j]
            != #[trigger] earlier[k] by {
            assert(earlier[j] == items[j] && earlier[k] == items[k]);
        }
        lemma_first_occurrences_of_distinct(earlier);
        if earlier.contains(items.last()) {
            let j = choose|j: int| 0 <= j < earlier.len() && earlier[j] == items.last();
            assert(items[j] == items[items.len() - 1]);
        }
        assert(earlier.push(items.last()) =~= items);
    }
}

} // verus!
