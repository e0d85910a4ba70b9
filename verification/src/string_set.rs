//! An ordered set of strings.
use vstd::prelude::*;

use crate::order;
use crate::order::Order;
use crate::text;

verus! {

/// A list of texts in strictly increasing order, so that none occurs twice.
pub open spec fn is_increasing(listing: Seq<Seq<char>>) -> bool {
    forall|i: int, j: int|
        #![trigger listing[i], listing[j]]
        0 <= i < j < listing.len() ==> order::text_order(listing[i], listing[j]) == Order::Less
}

/// The texts of a finite set, in order.
pub open spec fn listing_of(set: Set<Seq<char>>) -> Seq<Seq<char>> {
    choose|listing: Seq<Seq<char>>| #[trigger] is_increasing(listing) && listing.to_set() == set
}

/// There is one increasing list of the texts of a set.
pub proof fn lemma_one_listing(a: Seq<Seq<char>>, b: Seq<Seq<char>>)
    requires
        is_increasing(a),
        is_increasing(b),
        a.to_set() == b.to_set(),
    ensures
        a == b,
    decreases a.len(),
{
    order::lemma_text_order();
    if a.len() == 0 || b.len() == 0 {
        if a.len() > 0 {
            assert(a.to_set().contains(a[0]));
        }
        if b.len() > 0 {
            assert(b.to_set().contains(b[0]));
        }
        assert(a =~= b);
    } else {
        assert(a.to_set().contains(a[0]) && b.to_set().contains(b[0]));
        let i = choose|i: int| 0 <= i < a.len() && a[i] == b[0];
        let j = choose|j: int| 0 <= j < b.len() && b[j] == a[0];
        assert(rank_of(a[0], b[0]) == rank_of(b[0], a[0]).flipped());
        assert(rank_of(a[0], a[0]) == Order::Same);
        assert(a[0] == b[0]);
        assert forall|member: Seq<char>|
            a.drop_first().to_set().contains(member) == b.drop_first().to_set().contains(
                member,
            ) by {
            lemma_rest_members(a, member);
            lemma_rest_members(b, member);
            assert(a.to_set().contains(member) == a.contains(member));
            assert(b.to_set().contains(member) == b.contains(member));
        }
        lemma_rest_members(a, a[0]);
        lemma_rest_members(b, b[0]);
        assert(a.drop_first().to_set() =~= b.drop_first().to_set());
        lemma_one_listing(a.drop_first(), b.drop_first());
        assert(a =~= seq![a[0]] + a.drop_first());
        assert(b =~= seq![b[0]] + b.drop_first());
    }
}

/// The members of an increasing list but for the first.
proof fn lemma_rest_members(listing: Seq<Seq<char>>, member: Seq<char>)
    requires
        is_increasing(listing),
        listing.len() > 0,
    ensures
        is_increasing(listing.drop_first()),
        listing.drop_first().contains(member) <==> listing.contains(member) && member
            != listing[0],
{
    order::lemma_text_order();
    let rest = listing.drop_first();
    assert forall|i: int, j: int|
        #![trigger rest[i], rest[j]]
        0 <= i < j < rest.len() implies order::text_order(rest[i], rest[j]) == Order::Less by {
        assert(rest[i] == listing[i + 1] && rest[j] == listing[j + 1]);
    }
    if listing.contains(member) && member != listing[0] {
        let i = choose|i: int| 0 <= i < listing.len() && listing[i] == member;
        assert(rest[i - 1] == member);
    }
    if rest.contains(member) {
        let i = choose|i: int| 0 <= i < rest.len() && rest[i] == member;
        assert(listing[i + 1] == member);
        assert(rank_of(listing[0], listing[0]) == Order::Same);
        assert(order::text_order(listing[0], listing[i + 1]) == Order::Less);
    }
}

/// A set of strings that lists them in the order of their bytes.
#[derive(Debug)]
pub struct StringSet {
    items: Vec<String>,
}

impl StringSet {
    /// The texts of the set, in order.
    pub closed spec fn listing(self) -> Seq<Seq<char>> {
        text::texts(self.items@)
    }

    #[verifier::type_invariant]
    spec fn is_ordered(self) -> bool {
        is_increasing(self.listing())
    }

    /// The texts of the set.
    pub open spec fn view(self) -> Set<Seq<char>> {
        self.listing().to_set()
    }

    /// A set with nothing in it.
    pub fn new() -> (set: Self)
        ensures
            set@ == Set::<Seq<char>>::empty(),
            set.listing() == Seq::<Seq<char>>::empty(),
    {
        let items: Vec<String> = Vec::new();
        assert(text::texts(items@) =~= Seq::empty());
        let set = StringSet { items };
        assert(set@ =~= Set::empty());
        set
    }

    /// How many texts are in the set. They are listed in strictly increasing order.
    pub fn len(&self) -> (length: usize)
        ensures
            length == self.listing().len(),
            is_increasing(self.listing()),
            self.listing() == listing_of(self@),
    {
        proof {
            use_type_invariant(self);
            lemma_one_listing(self.listing(), listing_of(self@));
        }
        self.items.len()
    }

    /// The text at a place of the listing.
    pub fn get(&self, index: usize) -> (item: &String)
        requires
            index < self.listing().len(),
        ensures
            item@ == self.listing()[index as int],
    {
        &self.items[index]
    }

    /// The place of a text in the listing, or the place where it would have to be put.
    pub fn find(&self, wanted: &str) -> (result: Result<usize, usize>)
        ensures
            result matches Ok(index) ==> {
                &&& index < self.listing().len()
                &&& self.listing()[index as int] == wanted@
            },
            result matches Err(index) ==> {
                &&& index <= self.listing().len()
                &&& !self@.contains(wanted@)
                &&& forall|i: int|
                    #![trigger self.listing()[i]]
                    0 <= i < index ==> order::text_order(self.listing()[i], wanted@) == Order::Less
                &&& forall|i: int|
                    #![trigger self.listing()[i]]
                    index <= i < self.listing().len() ==> order::text_order(
                        wanted@,
                        self.listing()[i],
                    ) == Order::Less
            },
    {
        proof {
            use_type_invariant(self);
        }
        let ghost listing = self.listing();
        let ghost rank = order::by_text();
        let mut low: usize = 0;
        let mut high: usize = self.items.len();
        while low < high
            invariant
                low <= high <= self.items@.len(),
                listing == self.listing(),
                listing.len() == self.items@.len(),
                is_increasing(listing),
                forall|i: int|
                    #![trigger listing[i]]
                    0 <= i < low ==> order::text_order(listing[i], wanted@) == Order::Less,
                forall|i: int|
                    #![trigger listing[i]]
                    high <= i < listing.len() ==> order::text_order(wanted@, listing[i])
                        == Order::Less,
            decreases high - low,
        {
            let middle: usize = low + (high - low) / 2;
            proof {
                order::lemma_text_order();
                assert(rank_of(listing[middle as int], wanted@) == rank_of(
                    wanted@,
                    listing[middle as int],
                ).flipped());
            }
            match order::order_texts(self.items[middle].as_str(), wanted) {
                Order::Same => {
                    proof {
                        assert(rank_of(listing[middle as int], wanted@) == Order::Same);
                    }
                    return Ok(middle);
                },
                Order::Less => {
                    assert forall|i: int| #![trigger listing[i]] 0 <= i <= middle implies order::text_order(
                        listing[i],
                        wanted@,
                    ) == Order::Less by {
                        if i < middle {
                            assert(rank_of(listing[i], listing[middle as int]) == Order::Less);
                            assert(rank_of(listing[middle as int], wanted@) == Order::Less);
                        }
                    }
                    low = middle + 1;
                },
                Order::Greater => {
                    assert forall|i: int|
                        #![trigger listing[i]]
                        middle <= i < listing.len() implies order::text_order(wanted@, listing[i])
                        == Order::Less by {
                        if i > middle {
                            assert(rank_of(wanted@, listing[middle as int]) == Order::Less);
                            assert(rank_of(listing[middle as int], listing[i]) == Order::Less);
                        }
                    }
                    high = middle;
                },
            }
        }
        proof {
            order::lemma_text_order();
            if listing.contains(wanted@) {
                let i = choose|i: int| 0 <= i < listing.len() && listing[i] == wanted@;
                assert(rank_of(wanted@, wanted@) == Order::Same);
                assert(order::text_order(listing[i], wanted@) == Order::Same);
            }
        }
        Err(low)
    }

    /// Whether a text is in the set.
    pub fn contains(&self, wanted: &str) -> (found: bool)
        ensures
            found == self@.contains(wanted@),
    {
        match self.find(wanted) {
            Ok(index) => {
                assert(self.listing().contains(self.listing()[index as int]));
                true
            },
            Err(_) => false,
        }
    }

    /// Puts a text into the set at the place where it belongs.
    pub fn insert_at(&mut self, index: usize, item: String)
        requires
            index <= old(self).listing().len(),
            forall|i: int|
                #![trigger old(self).listing()[i]]
                0 <= i < index ==> order::text_order(old(self).listing()[i], item@) == Order::Less,
            forall|i: int|
                #![trigger old(self).listing()[i]]
                index <= i < old(self).listing().len() ==> order::text_order(
                    item@,
                    old(self).listing()[i],
                ) == Order::Less,
        ensures
            final(self).listing() == old(self).listing().insert(index as int, item@),
            final(self)@ == old(self)@.insert(item@),
    {
        proof {
            use_type_invariant(&*self);
        }
        let ghost before = self.listing();
        let mut items: Vec<String> = Vec::new();
        assert(is_increasing(text::texts(items@)));
        std::mem::swap(&mut items, &mut self.items);
        items.insert(index, item);
        proof {
            assert(text::texts(items@) =~= before.insert(index as int, item@));
            lemma_inserted(before, index as int, item@);
        }
        self.items = items;
        assert(self@ =~= old(self)@.insert(item@)) by {
            assert forall|member: Seq<char>|
                self@.contains(member) == old(self)@.insert(item@).contains(member) by {
                lemma_inserted_members(before, index as int, item@, member);
            }
        }
    }

    /// Puts a text into the set.
    pub fn insert(&mut self, item: String)
        ensures
            final(self)@ == old(self)@.insert(item@),
    {
        match self.find(item.as_str()) {
            Ok(index) => {
                assert(self.listing().contains(self.listing()[index as int]));
                assert(self@ =~= old(self)@.insert(item@));
            },
            Err(index) => {
                self.insert_at(index, item);
            },
        }
    }

    /// Whether two sets hold the same texts.
    pub fn same_as(&self, other: &StringSet) -> (same: bool)
        ensures
            same == (self@ == other@),
    {
        if self.is_within(other) {
            if other.is_within(self) {
                assert(self@ =~= other@);
                true
            } else {
                false
            }
        } else {
            false
        }
    }

    /// Whether every text of the set is in another one.
    pub fn is_within(&self, other: &StringSet) -> (within: bool)
        ensures
            within == self@.subset_of(other@),
    {
        let mut i: usize = 0;
        while i < self.items.len()
            invariant
                i <= self.items@.len(),
                self.items@.len() == self.listing().len(),
                forall|j: int|
                    #![trigger self.listing()[j]]
                    0 <= j < i ==> other@.contains(self.listing()[j]),
            decreases self.items@.len() - i,
        {
            if !other.contains(self.items[i].as_str()) {
                assert(self.listing().contains(self.listing()[i as int]));
                assert(self@.contains(self.listing()[i as int]));
                return false;
            }
            i += 1;
        }
        assert forall|member: Seq<char>| self@.contains(member) implies other@.contains(member) by {
            let j = choose|j: int|
                0 <= j < self.listing().len() && self.listing()[j] == member;
            assert(other@.contains(self.listing()[j]));
        }
        true
    }

    /// The texts of the set that are not in another one.
    pub fn difference(&self, other: &StringSet) -> (result: StringSet)
        ensures
            result@ == self@.difference(other@),
    {
        let mut result = StringSet::new();
        let mut i: usize = 0;
        assert(result@ =~= self.listing().take(0).to_set().difference(other@));
        while i < self.items.len()
            invariant
                i <= self.items@.len(),
                self.items@.len() == self.listing().len(),
                result@ == self.listing().take(i as int).to_set().difference(other@),
            decreases self.items@.len() - i,
        {
            proof {
                lemma_taken_members(self.listing(), i as int);
            }
            if !other.contains(self.items[i].as_str()) {
                result.insert(self.items[i].clone());
            }
            i += 1;
            assert(result@ =~= self.listing().take(i as int).to_set().difference(other@));
        }
        assert(self.listing().take(i as int) =~= self.listing());
        result
    }

    /// The set of the texts of a list.
    pub fn from_list(items: &Vec<String>) -> (result: StringSet)
        ensures
            result@ == text::texts(items@).to_set(),
    {
        let mut result = StringSet::new();
        let ghost all = text::texts(items@);
        let mut i: usize = 0;
        assert(result@ =~= all.take(0).to_set());
        while i < items.len()
            invariant
                i <= items@.len(),
                all == text::texts(items@),
                result@ == all.take(i as int).to_set(),
            decreases items@.len() - i,
        {
            proof {
                lemma_taken_members(all, i as int);
            }
            result.insert(items[i].clone());
            i += 1;
        }
        assert(all.take(i as int) =~= all);
        result
    }

    /// The texts of the set as a list, in order.
    pub fn to_list(&self) -> (items: Vec<String>)
        ensures
            text::texts(items@) == listing_of(self@),
            is_increasing(text::texts(items@)),
            text::texts(items@).to_set() == self@,
    {
        proof {
            use_type_invariant(self);
            lemma_one_listing(self.listing(), listing_of(self@));
        }
        text::copy_list(&self.items)
    }
}

impl Clone for StringSet {
    fn clone(&self) -> (copy: Self)
        ensures
            copy.listing() == self.listing(),
    {
        proof {
            use_type_invariant(self);
        }
        let items = text::copy_list(&self.items);
        StringSet { items }
    }
}

/// Where a text belongs in an increasing list that does not hold it.
proof fn lemma_place(listing: Seq<Seq<char>>, item: Seq<char>) -> (place: int)
    requires
        is_increasing(listing),
        !listing.contains(item),
    ensures
        0 <= place <= listing.len(),
        forall|i: int|
            #![trigger listing[i]]
            0 <= i < place ==> order::text_order(listing[i], item) == Order::Less,
        forall|i: int|
            #![trigger listing[i]]
            place <= i < listing.len() ==> order::text_order(item, listing[i]) == Order::Less,
    decreases listing.len(),
{
    order::lemma_text_order();
    if listing.len() == 0 {
        0
    } else {
        let last = listing[listing.len() - 1];
        let rest = listing.drop_last();
        assert(rank_of(last, item) == rank_of(item, last).flipped());
        assert(last != item);
        if order::text_order(last, item) == Order::Less {
            assert forall|i: int| #![trigger listing[i]] 0 <= i < listing.len() implies order::text_order(
                listing[i],
                item,
            ) == Order::Less by {
                if i < listing.len() - 1 {
                    assert(rank_of(listing[i], last) == Order::Less);
                    assert(rank_of(last, item) == Order::Less);
                }
            }
            listing.len() as int
        } else {
            assert forall|i: int, j: int|
                #![trigger rest[i], rest[j]]
                0 <= i < j < rest.len() implies order::text_order(rest[i], rest[j])
                == Order::Less by {
                assert(rest[i] == listing[i] && rest[j] == listing[j]);
            }
            if rest.contains(item) {
                let i = choose|i: int| 0 <= i < rest.len() && rest[i] == item;
                assert(listing[i] == item);
            }
            let place = lemma_place(rest, item);
            assert forall|i: int| #![trigger listing[i]] 0 <= i < place implies order::text_order(
                listing[i],
                item,
            ) == Order::Less by {
                assert(rest[i] == listing[i]);
            }
            assert forall|i: int|
                #![trigger listing[i]]
                place <= i < listing.len() implies order::text_order(item, listing[i])
                == Order::Less by {
                if i < rest.len() {
                    assert(rest[i] == listing[i]);
                } else {
                    assert(rank_of(item, last) == Order::Less);
                }
            }
            place
        }
    }
}

/// The texts of a list can be listed in increasing order.
proof fn lemma_can_be_listed(items: Seq<Seq<char>>) -> (listing: Seq<Seq<char>>)
    ensures
        is_increasing(listing),
        listing.to_set() == items.to_set(),
    decreases items.len(),
{
    if items.len() == 0 {
        assert(items.to_set() =~= items.to_set());
        items
    } else {
        let last = items.last();
        let before = lemma_can_be_listed(items.drop_last());
        assert(items.take(items.len() as int) =~= items);
        assert(items.take(items.len() - 1) =~= items.drop_last());
        lemma_taken_members(items, items.len() - 1);
        if before.contains(last) {
            assert(before.to_set().contains(last));
            assert(before.to_set().insert(last) =~= before.to_set());
            before
        } else {
            let place = lemma_place(before, last);
            lemma_inserted(before, place, last);
            let listing = before.insert(place, last);
            assert forall|member: Seq<char>|
                listing.to_set().contains(member) == before.to_set().insert(last).contains(
                    member,
                ) by {
                lemma_inserted_members(before, place, last, member);
            }
            assert(listing.to_set() =~= before.to_set().insert(last));
            listing
        }
    }
}

/// The listing of the texts of a list is increasing and lists just these.
pub proof fn lemma_listing_of(items: Seq<Seq<char>>)
    ensures
        is_increasing(listing_of(items.to_set())),
        listing_of(items.to_set()).to_set() == items.to_set(),
{
    let listing = lemma_can_be_listed(items);
    assert(is_increasing(listing) && listing.to_set() == items.to_set());
}

/// The order of two texts.
spec fn rank_of(a: Seq<char>, b: Seq<char>) -> Order {
    order::by_text()(a, b)
}

/// In an increasing list each text has one place only.
pub proof fn lemma_one_place(listing: Seq<Seq<char>>, index: int)
    requires
        is_increasing(listing),
        0 <= index < listing.len(),
    ensures
        listing.index_of(listing[index]) == index,
{
    order::lemma_text_order();
    let other = listing.index_of(listing[index]);
    assert(0 <= other < listing.len() && listing[other] == listing[index]);
    assert(rank_of(listing[index], listing[index]) == Order::Same);
    if other < index {
        assert(order::text_order(listing[other], listing[index]) == Order::Less);
    } else if index < other {
        assert(order::text_order(listing[index], listing[other]) == Order::Less);
    }
}

/// One more text in its place keeps a list increasing.
proof fn lemma_inserted(listing: Seq<Seq<char>>, index: int, item: Seq<char>)
    requires
        is_increasing(listing),
        0 <= index <= listing.len(),
        forall|i: int|
            #![trigger listing[i]]
            0 <= i < index ==> order::text_order(listing[i], item) == Order::Less,
        forall|i: int|
            #![trigger listing[i]]
            index <= i < listing.len() ==> order::text_order(item, listing[i]) == Order::Less,
    ensures
        is_increasing(listing.insert(index, item)),
{
    let after = listing.insert(index, item);
    assert forall|i: int, j: int|
        #![trigger after[i], after[j]]
        0 <= i < j < after.len() implies order::text_order(after[i], after[j]) == Order::Less by {
        let (x, y) = (if i < index { i } else { i - 1 }, if j < index { j } else { j - 1 });
        if i != index && j != index {
            assert(after[i] == listing[x] && after[j] == listing[y]);
        } else if i == index {
            assert(after[j] == listing[y]);
        } else {
            assert(after[i] == listing[x]);
        }
    }
}

/// The members of a list with one more text are those of the list and that text.
pub proof fn lemma_inserted_members(
    listing: Seq<Seq<char>>,
    index: int,
    item: Seq<char>,
    member: Seq<char>,
)
    requires
        0 <= index <= listing.len(),
    ensures
        listing.insert(index, item).contains(member) <==> listing.contains(member) || member
            == item,
{
    let after = listing.insert(index, item);
    if listing.contains(member) {
        let i = choose|i: int| 0 <= i < listing.len() && listing[i] == member;
        assert(after[if i < index { i } else { i + 1 }] == member);
    }
    if after.contains(member) && member != item {
        let i = choose|i: int| 0 <= i < after.len() && after[i] == member;
        assert(listing[if i < index { i } else { i - 1 }] == member);
    }
    assert(after[index] == item);
}

/// The members of a longer beginning of a list.
pub proof fn lemma_taken_members(listing: Seq<Seq<char>>, i: int)
    requires
        0 <= i < listing.len(),
    ensures
        listing.take(i + 1).to_set() == listing.take(i).to_set().insert(listing[i]),
{
    assert(listing.take(i + 1) =~= listing.take(i).push(listing[i]));
    assert forall|member: Seq<char>|
        listing.take(i + 1).to_set().contains(member) == listing.take(i).to_set().insert(
            listing[i],
        ).contains(member) by {
        let shorter = listing.take(i);
        let longer = listing.take(i + 1);
        if shorter.contains(member) {
            let j = choose|j: int| 0 <= j < shorter.len() && shorter[j] == member;
            assert(longer[j] == member);
        }
        if longer.contains(member) && member != listing[i] {
            let j = choose|j: int| 0 <= j < longer.len() && longer[j] == member;
            assert(shorter[j] == member);
        }
        assert(longer[i] == listing[i]);
    }
    assert(listing.take(i + 1).to_set() =~= listing.take(i).to_set().insert(listing[i]));
}

} // verus!
