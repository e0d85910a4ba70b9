//! Lists in which nothing occurs twice.
use vstd::prelude::*;

use crate::text;

verus! {

/// The first `limit` different texts of a list, in the order in which they first occur.
pub open spec fn first_distinct(items: Seq<Seq<char>>, limit: nat) -> Seq<Seq<char>>
    decreases items.len(),
{
    if items.len() == 0 {
        Seq::empty()
    } else {
        let before = first_distinct(items.drop_last(), limit);
        if before.len() >= limit || before.contains(items.last()) {
            before
        } else {
            before.push(items.last())
        }
    }
}

/// Adds a text to a list of different texts, unless it is there already or the list is full.
pub fn push_distinct(list: &mut Vec<String>, item: &str, limit: usize)
    ensures
        text::texts(final(list)@) == if old(list)@.len() >= limit || text::texts(
            old(list)@,
        ).contains(item@) {
            text::texts(old(list)@)
        } else {
            text::texts(old(list)@).push(item@)
        },
{
    if list.len() < limit && !text::list_contains(&*list, item) {
        list.push(item.to_string());
        assert(text::texts(list@) =~= text::texts(old(list)@).push(item@));
    }
}

/// The first different texts of a list are at most as many as asked for, are all different, and
/// all come from the list. Where they are fewer than asked for, nothing of the list is missing.
pub proof fn law_first_distinct(items: Seq<Seq<char>>, limit: nat)
    ensures
        first_distinct(items, limit).len() <= limit,
        first_distinct(items, limit).len() <= items.len(),
        first_distinct(items, limit).no_duplicates(),
        forall|item: Seq<char>| #[trigger]
            first_distinct(items, limit).contains(item) ==> items.contains(item),
        first_distinct(items, limit).len() < limit ==> forall|item: Seq<char>| #[trigger]
            items.contains(item) ==> first_distinct(items, limit).contains(item),
    decreases items.len(),
{
    if items.len() > 0 {
        let rest = items.drop_last();
        let before = first_distinct(rest, limit);
        let after = first_distinct(items, limit);
        law_first_distinct(rest, limit);
        assert(items =~= rest.push(items.last()));
        assert forall|item: Seq<char>| #[trigger] after.contains(item) implies items.contains(
            item,
        ) by {
            lemma_pushed(before, items.last(), item);
            lemma_pushed(rest, items.last(), item);
        }
        if after.len() < limit {
            assert forall|item: Seq<char>| #[trigger] items.contains(item) implies after.contains(
                item,
            ) by {
                lemma_pushed(rest, items.last(), item);
                lemma_pushed(before, items.last(), item);
            }
        }
    }
}

/// What comes later in a list changes nothing of the first different texts of its beginning.
pub proof fn law_first_distinct_keeps_beginning(
    items: Seq<Seq<char>>,
    more: Seq<Seq<char>>,
    limit: nat,
)
    ensures
        first_distinct(items, limit).is_prefix_of(first_distinct(items + more, limit)),
    decreases more.len(),
{
    if more.len() == 0 {
        assert(items + more =~= items);
    } else {
        law_first_distinct_keeps_beginning(items, more.drop_last(), limit);
        assert((items + more).drop_last() =~= items + more.drop_last());
    }
}

/// A text of a list before which there are fewer than `limit` different ones is among its first
/// different texts.
pub proof fn law_early_items_are_kept(items: Seq<Seq<char>>, limit: nat, index: int)
    requires
        0 <= index < items.len(),
        first_distinct(items.take(index), limit).len() < limit,
    ensures
        first_distinct(items, limit).contains(items[index]),
{
    let early = items.take(index + 1);
    assert(early.drop_last() =~= items.take(index));
    let before = first_distinct(early.drop_last(), limit);
    let after = first_distinct(early, limit);
    lemma_pushed(before, early.last(), early.last());
    assert(after.contains(items[index]));
    law_first_distinct_keeps_beginning(early, items.skip(index + 1), limit);
    assert(early + items.skip(index + 1) =~= items);
    let place = choose|place: int| 0 <= place < after.len() && after[place] == items[index];
    assert(first_distinct(items, limit)[place] == items[index]);
}

/// The members of a list with one more text at its end.
pub proof fn lemma_pushed(list: Seq<Seq<char>>, last: Seq<char>, item: Seq<char>)
    ensures
        list.push(last).contains(item) <==> list.contains(item) || item == last,
{
    let longer = list.push(last);
    if list.contains(item) {
        let i = choose|i: int| 0 <= i < list.len() && list[i] == item;
        assert(longer[i] == item);
    }
    assert(longer[list.len() as int] == last);
    if longer.contains(item) && item != last {
        let i = choose|i: int| 0 <= i < longer.len() && longer[i] == item;
        assert(list[i] == item);
    }
}

} // verus!
