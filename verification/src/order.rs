//! Orders on bytes and texts, and sorting by an order.
use vstd::prelude::*;
use vstd::relations;
use vstd::seq_lib;
use vstd::utf8;

verus! {

/// How two values stand to each other.
#[derive(Debug, Clone, Copy, PartialEq, Eq, Structural)]
pub enum Order {
    Less,
    Same,
    Greater,
}

impl Order {
    /// How the two values stand to each other the other way round.
    pub open spec fn flipped(self) -> Order {
        match self {
            Order::Less => Order::Greater,
            Order::Same => Order::Same,
            Order::Greater => Order::Less,
        }
    }
}

/// `rank` orders its values totally, up to those that it holds for the same.
pub open spec fn is_order<T>(rank: spec_fn(T, T) -> Order) -> bool {
    &&& forall|x: T| #[trigger] rank(x, x) == Order::Same
    &&& forall|x: T, y: T| #[trigger] rank(x, y) == rank(y, x).flipped()
    &&& forall|x: T, y: T, z: T|
        #![trigger rank(x, y), rank(y, z)]
        rank(x, y) != Order::Greater && rank(y, z) != Order::Greater ==> rank(x, z) != Order::Greater
    &&& forall|x: T, y: T, z: T|
        #![trigger rank(x, y), rank(y, z)]
        rank(x, y) == Order::Same && rank(y, z) == Order::Same ==> rank(x, z) == Order::Same
    &&& forall|x: T, y: T, z: T|
        #![trigger rank(x, y), rank(y, z)]
        rank(x, y) == Order::Less && rank(y, z) != Order::Greater ==> rank(x, z) == Order::Less
    &&& forall|x: T, y: T, z: T|
        #![trigger rank(x, y), rank(y, z)]
        rank(x, y) != Order::Greater && rank(y, z) == Order::Less ==> rank(x, z) == Order::Less
}

/// `rank` holds no two different values for the same.
pub open spec fn tells_apart<T>(rank: spec_fn(T, T) -> Order) -> bool {
    forall|x: T, y: T| #[trigger] rank(x, y) == Order::Same ==> x == y
}

/// Lexicographic order: the first place where two sequences differ decides, and a sequence comes
/// after its own beginning.
pub open spec fn lexicographic<T>(a: Seq<T>, b: Seq<T>, rank: spec_fn(T, T) -> Order) -> Order
    decreases a.len(),
{
    if a.len() == 0 {
        if b.len() == 0 {
            Order::Same
        } else {
            Order::Less
        }
    } else if b.len() == 0 {
        Order::Greater
    } else if rank(a[0], b[0]) != Order::Same {
        rank(a[0], b[0])
    } else {
        lexicographic(a.drop_first(), b.drop_first(), rank)
    }
}

/// The order of numbers.
pub open spec fn byte_order(a: u8, b: u8) -> Order {
    if a < b {
        Order::Less
    } else if a == b {
        Order::Same
    } else {
        Order::Greater
    }
}

/// The order of texts: lexicographic by the bytes of their UTF-8 encoding.
pub open spec fn text_order(a: Seq<char>, b: Seq<char>) -> Order {
    lexicographic(
        utf8::encode_utf8(a),
        utf8::encode_utf8(b),
        |x: u8, y: u8| byte_order(x, y),
    )
}

proof fn lemma_lexicographic_same<T>(a: Seq<T>, rank: spec_fn(T, T) -> Order)
    requires
        is_order(rank),
    ensures
        lexicographic(a, a, rank) == Order::Same,
    decreases a.len(),
{
    if a.len() > 0 {
        lemma_lexicographic_same(a.drop_first(), rank);
    }
}

proof fn lemma_lexicographic_flips<T>(a: Seq<T>, b: Seq<T>, rank: spec_fn(T, T) -> Order)
    requires
        is_order(rank),
    ensures
        lexicographic(a, b, rank) == lexicographic(b, a, rank).flipped(),
    decreases a.len(),
{
    if a.len() > 0 && b.len() > 0 {
        assert(rank(a[0], b[0]) == rank(b[0], a[0]).flipped());
        lemma_lexicographic_flips(a.drop_first(), b.drop_first(), rank);
    }
}

proof fn lemma_lexicographic_chains<T>(
    a: Seq<T>,
    b: Seq<T>,
    c: Seq<T>,
    rank: spec_fn(T, T) -> Order,
)
    requires
        is_order(rank),
        lexicographic(a, b, rank) != Order::Greater,
        lexicographic(b, c, rank) != Order::Greater,
    ensures
        lexicographic(a, c, rank) != Order::Greater,
        lexicographic(a, c, rank) == Order::Same <==> lexicographic(a, b, rank) == Order::Same
            && lexicographic(b, c, rank) == Order::Same,
    decreases a.len(),
{
    if a.len() > 0 && b.len() > 0 && c.len() > 0 {
        let (ab, bc, ac) = (rank(a[0], b[0]), rank(b[0], c[0]), rank(a[0], c[0]));
        if ab == Order::Same && bc == Order::Same {
            lemma_lexicographic_chains(a.drop_first(), b.drop_first(), c.drop_first(), rank);
        }
    }
}

proof fn lemma_lexicographic_tells_apart<T>(a: Seq<T>, b: Seq<T>, rank: spec_fn(T, T) -> Order)
    requires
        is_order(rank),
        tells_apart(rank),
        lexicographic(a, b, rank) == Order::Same,
    ensures
        a == b,
    decreases a.len(),
{
    if a.len() > 0 && b.len() > 0 {
        lemma_lexicographic_tells_apart(a.drop_first(), b.drop_first(), rank);
        assert(a[0] == b[0]);
        assert(a =~= seq![a[0]] + a.drop_first());
        assert(b =~= seq![b[0]] + b.drop_first());
    } else {
        assert(a =~= b);
    }
}

/// Lexicographic order is an order, and tells apart what the order of the elements does.
pub proof fn lemma_lexicographic_is_order<T>(rank: spec_fn(T, T) -> Order)
    requires
        is_order(rank),
    ensures
        is_order(|a: Seq<T>, b: Seq<T>| lexicographic(a, b, rank)),
        tells_apart(rank) ==> tells_apart(|a: Seq<T>, b: Seq<T>| lexicographic(a, b, rank)),
{
    let lex = |a: Seq<T>, b: Seq<T>| lexicographic(a, b, rank);
    assert forall|x: Seq<T>| #[trigger] lex(x, x) == Order::Same by {
        lemma_lexicographic_same(x, rank);
    }
    assert forall|x: Seq<T>, y: Seq<T>| #[trigger] lex(x, y) == lex(y, x).flipped() by {
        lemma_lexicographic_flips(x, y, rank);
    }
    assert forall|x: Seq<T>, y: Seq<T>, z: Seq<T>|
        #![trigger lex(x, y), lex(y, z)]
        lex(x, y) != Order::Greater && lex(y, z) != Order::Greater implies lex(x, z)
        != Order::Greater && (lex(x, z) == Order::Same <==> lex(x, y) == Order::Same && lex(y, z)
        == Order::Same) by {
        lemma_lexicographic_chains(x, y, z, rank);
    }
    if tells_apart(rank) {
        assert forall|x: Seq<T>, y: Seq<T>| #[trigger] lex(x, y) == Order::Same implies x == y by {
            lemma_lexicographic_tells_apart(x, y, rank);
        }
    }
}

/// The order of texts, as a function.
pub open spec fn by_text() -> spec_fn(Seq<char>, Seq<char>) -> Order {
    |a: Seq<char>, b: Seq<char>| text_order(a, b)
}

/// The order of texts is an order, and holds only equal texts for the same.
pub proof fn lemma_text_order()
    ensures
        is_order(by_text()),
        tells_apart(by_text()),
{
    let rank = |x: u8, y: u8| byte_order(x, y);
    lemma_lexicographic_is_order(rank);
    let lex = |a: Seq<u8>, b: Seq<u8>| lexicographic(a, b, rank);
    let texts = by_text();
    assert forall|a: Seq<char>, b: Seq<char>| #[trigger] texts(a, b) == lex(
        utf8::encode_utf8(a),
        utf8::encode_utf8(b),
    ) by {}
    assert forall|a: Seq<char>, b: Seq<char>| #[trigger] texts(a, b) == Order::Same implies a
        == b by {
        crate::text::lemma_encoding_is_injective(a, b);
    }
}

/// How two texts stand to each other.
pub fn order_texts(a: &str, b: &str) -> (result: Order)
    ensures
        result == text_order(a@, b@),
{
    let left = a.as_bytes();
    let right = b.as_bytes();
    let ghost rank = |x: u8, y: u8| byte_order(x, y);
    let mut i: usize = 0;
    assert(left@.skip(0) =~= left@);
    assert(right@.skip(0) =~= right@);
    while i < left.len() && i < right.len()
        invariant
            i <= left@.len(),
            i <= right@.len(),
            left@ == utf8::encode_utf8(a@),
            right@ == utf8::encode_utf8(b@),
            rank == (|x: u8, y: u8| byte_order(x, y)),
            text_order(a@, b@) == lexicographic(
                left@.skip(i as int),
                right@.skip(i as int),
                rank,
            ),
        decreases left@.len() - i,
    {
        let (x, y): (u8, u8) = (left[i], right[i]);
        assert(left@.skip(i as int)[0] == x);
        assert(right@.skip(i as int)[0] == y);
        if x < y {
            return Order::Less;
        }
        if x > y {
            return Order::Greater;
        }
        assert(left@.skip(i as int).drop_first() =~= left@.skip(i + 1));
        assert(right@.skip(i as int).drop_first() =~= right@.skip(i + 1));
        i += 1;
    }
    if i < right.len() {
        Order::Less
    } else if i < left.len() {
        Order::Greater
    } else {
        Order::Same
    }
}

/// A value with a key to sort by.
pub trait Ranked: Sized {
    /// What is sorted by.
    type Key;

    /// The key of a value.
    spec fn key(self) -> Self::Key;

    /// The order of the keys.
    spec fn ranking() -> spec_fn(Self::Key, Self::Key) -> Order;

    /// The order of the keys is one.
    proof fn lemma_ranking()
        ensures
            is_order(Self::ranking()),
    ;

    /// How the keys of two values stand to each other.
    fn order_with(&self, other: &Self) -> (result: Order)
        ensures
            result == Self::ranking()(self.key(), other.key()),
    ;
}

/// The keys of a list of values.
pub open spec fn keys_of<K: Ranked>(values: Seq<K>) -> Seq<K::Key> {
    values.map_values(|value: K| value.key())
}

/// A position comes before another one if its key does, or if it is the earlier one of two with
/// the same key.
pub open spec fn position_order<T>(
    keys: Seq<T>,
    rank: spec_fn(T, T) -> Order,
) -> spec_fn(int, int) -> bool {
    |i: int, j: int|
        rank(keys[i], keys[j]) == Order::Less || rank(keys[i], keys[j]) == Order::Same && i <= j
}

/// The positions from 0 up to a length.
pub open spec fn positions(length: nat) -> Seq<int> {
    Seq::new(length, |i: int| i)
}

/// The positions of a list of keys, in the order of the keys; of two with the same key the earlier
/// one comes first.
pub open spec fn sorted_positions<T>(keys: Seq<T>, rank: spec_fn(T, T) -> Order) -> Seq<int> {
    positions(keys.len()).sort_by(position_order(keys, rank))
}

/// Positions are totally ordered.
pub proof fn lemma_position_order<T>(keys: Seq<T>, rank: spec_fn(T, T) -> Order)
    requires
        is_order(rank),
    ensures
        relations::total_ordering(position_order(keys, rank)),
{
    let leq = position_order(keys, rank);
    assert forall|i: int, j: int| #[trigger] leq(i, j) || leq(j, i) by {
        assert(rank(keys[i], keys[j]) == rank(keys[j], keys[i]).flipped());
    }
    assert forall|i: int, j: int| #[trigger] leq(i, j) && #[trigger] leq(j, i) implies i == j by {
        assert(rank(keys[i], keys[j]) == rank(keys[j], keys[i]).flipped());
    }
    assert forall|i: int, j: int, k: int| #[trigger] leq(i, j) && #[trigger] leq(j, k) implies leq(
        i,
        k,
    ) by {
        let (x, y, z) = (rank(keys[i], keys[j]), rank(keys[j], keys[k]), rank(keys[i], keys[k]));
    }
}

/// The sorted positions are the positions, each once, in order.
pub proof fn lemma_sorted_positions<T>(keys: Seq<T>, rank: spec_fn(T, T) -> Order)
    requires
        is_order(rank),
    ensures
        ({
            let sorted = sorted_positions(keys, rank);
            &&& sorted.len() == keys.len()
            &&& sorted.no_duplicates()
            &&& forall|a: int| #![trigger sorted[a]] 0 <= a < sorted.len() ==> 0 <= sorted[a] < keys.len()
            &&& forall|i: int| 0 <= i < keys.len() ==> #[trigger] sorted.contains(i)
            &&& forall|a: int, b: int|
                0 <= a < b < sorted.len() ==> #[trigger] position_order(keys, rank)(
                    sorted[a],
                    sorted[b],
                )
        }),
{
    broadcast use seq_lib::group_to_multiset_ensures;

    let all = positions(keys.len());
    let sorted = sorted_positions(keys, rank);
    let leq = position_order(keys, rank);
    lemma_position_order(keys, rank);
    all.lemma_sort_by_ensures(leq);
    assert(all.len() == all.to_multiset().len());
    assert(sorted.len() == sorted.to_multiset().len());
    assert(all.no_duplicates());
    all.lemma_multiset_has_no_duplicates();
    sorted.lemma_multiset_has_no_duplicates_conv();
    assert forall|a: int| #![trigger sorted[a]] 0 <= a < sorted.len() implies 0 <= sorted[a]
        < keys.len() by {
        assert(sorted.contains(sorted[a]));
        assert(all.contains(sorted[a]));
    }
    assert forall|i: int| 0 <= i < keys.len() implies #[trigger] sorted.contains(i) by {
        assert(all[i] == i);
        assert(all.contains(i));
        assert(all.to_multiset().count(i) > 0);
        assert(sorted.to_multiset().count(i) > 0);
    }
}

/// A list whose places are taken in another order holds the same items.
pub proof fn lemma_arranging_keeps_items<T>(items: Seq<T>, places: Seq<int>)
    requires
        places.len() == items.len(),
        places.no_duplicates(),
        forall|a: int| #![trigger places[a]] 0 <= a < places.len() ==> 0 <= places[a] < items.len(),
        forall|i: int| 0 <= i < items.len() ==> #[trigger] places.contains(i),
    ensures
        places.map_values(|place: int| items[place]).to_multiset() == items.to_multiset(),
    decreases items.len(),
{
    broadcast use seq_lib::group_to_multiset_ensures;

    let moved = places.map_values(|place: int| items[place]);
    if items.len() > 0 {
        let last = items.len() - 1;
        assert(places.contains(last));
        let at = choose|at: int| 0 <= at < places.len() && places[at] == last;
        let rest = places.remove(at);
        let fewer = items.drop_last();
        assert forall|a: int| #![trigger rest[a]] 0 <= a < rest.len() implies 0 <= rest[a]
            < fewer.len() by {
            let source = if a < at { a } else { a + 1 };
            assert(rest[a] == places[source]);
        }
        assert forall|i: int| 0 <= i < fewer.len() implies #[trigger] rest.contains(i) by {
            assert(places.contains(i));
            let source = choose|a: int| 0 <= a < places.len() && places[a] == i;
            assert(rest[if source < at { source } else { source - 1 }] == i);
        }
        lemma_arranging_keeps_items(fewer, rest);
        let moved_rest = rest.map_values(|place: int| fewer[place]);
        assert(moved.remove(at) =~= moved_rest);
        assert(moved =~= moved_rest.insert(at, items[last]));
        seq_lib::to_multiset_insert(moved_rest, at, items[last]);
        assert(items =~= fewer.push(items[last]));
        seq_lib::to_multiset_build(fewer, items[last]);
    } else {
        assert(moved =~= items);
    }
}

/// The positions of a list of values, sorted by their keys.
pub fn sort_positions<K: Ranked>(values: &Vec<K>) -> (sorted: Vec<usize>)
    ensures
        sorted@.map_values(|position: usize| position as int) == sorted_positions(
            keys_of(values@),
            K::ranking(),
        ),
        sorted@.len() == values@.len(),
        forall|a: int| #![trigger sorted@[a]] 0 <= a < sorted@.len() ==> sorted@[a] < values@.len(),
{
    let mut sorted: Vec<usize> = Vec::new();
    let ghost keys = keys_of(values@);
    let ghost leq = position_order(keys, K::ranking());
    proof {
        K::lemma_ranking();
        lemma_position_order(keys, K::ranking());
    }
    let ghost view = |position: usize| position as int;
    let mut i: usize = 0;
    assert(sorted@.map_values(view) =~= positions(0));
    while i < values.len()
        invariant
            i <= values@.len(),
            sorted@.len() == i,
            keys == keys_of(values@),
            leq == position_order(keys, K::ranking()),
            relations::total_ordering(leq),
            view == (|position: usize| position as int),
            forall|a: int| #![trigger sorted@[a]] 0 <= a < i ==> sorted@[a] < i,
            forall|a: int, b: int|
                #![trigger sorted@[a], sorted@[b]]
                0 <= a < b < i ==> leq(sorted@[a] as int, sorted@[b] as int),
            sorted@.map_values(view).to_multiset() == positions(i as nat).to_multiset(),
        decreases values@.len() - i,
    {
        let mut low: usize = 0;
        let mut high: usize = sorted.len();
        while low < high
            invariant
                low <= high <= sorted@.len(),
                sorted@.len() == i,
                i < values@.len(),
                keys == keys_of(values@),
                leq == position_order(keys, K::ranking()),
                relations::total_ordering(leq),
                forall|a: int| #![trigger sorted@[a]] 0 <= a < i ==> sorted@[a] < i,
                forall|a: int, b: int|
                    #![trigger sorted@[a], sorted@[b]]
                    0 <= a < b < i ==> leq(sorted@[a] as int, sorted@[b] as int),
                forall|a: int| #![trigger sorted@[a]] 0 <= a < low ==> leq(sorted@[a] as int, i as int),
                forall|a: int| #![trigger sorted@[a]] high <= a < i ==> leq(i as int, sorted@[a] as int),
            decreases high - low,
        {
            let middle: usize = low + (high - low) / 2;
            let other: usize = sorted[middle];
            let found = values[other].order_with(&values[i]);
            assert(keys[other as int] == values@[other as int].key());
            assert(keys[i as int] == values@[i as int].key());
            match found {
                Order::Greater => {
                    assert(!leq(other as int, i as int));
                    assert(leq(i as int, other as int));
                    assert forall|a: int| #![trigger sorted@[a]] middle <= a < i implies leq(
                        i as int,
                        sorted@[a] as int,
                    ) by {
                        if a > middle {
                            assert(leq(sorted@[middle as int] as int, sorted@[a] as int));
                        }
                    }
                    high = middle;
                },
                _ => {
                    assert(leq(other as int, i as int));
                    assert forall|a: int| #![trigger sorted@[a]] 0 <= a <= middle implies leq(
                        sorted@[a] as int,
                        i as int,
                    ) by {
                        if a < middle {
                            assert(leq(sorted@[a] as int, sorted@[middle as int] as int));
                        }
                    }
                    low = middle + 1;
                },
            }
        }
        let ghost before = sorted@;
        sorted.insert(low, i);
        proof {
            assert(sorted@.map_values(view) =~= before.map_values(view).insert(
                low as int,
                i as int,
            ));
            assert(positions((i + 1) as nat) =~= positions(i as nat).push(i as int));
            seq_lib::to_multiset_insert(before.map_values(view), low as int, i as int);
            seq_lib::to_multiset_build(positions(i as nat), i as int);
            assert forall|a: int, b: int|
                #![trigger sorted@[a], sorted@[b]]
                0 <= a < b < i + 1 implies leq(sorted@[a] as int, sorted@[b] as int) by {
                let (x, y) = (if a < low { a } else { a - 1 }, if b < low { b } else { b - 1 });
                if a != low && b != low {
                    assert(sorted@[a] == before[x]);
                    assert(sorted@[b] == before[y]);
                } else if a == low {
                    assert(sorted@[b] == before[y]);
                } else {
                    assert(sorted@[a] == before[x]);
                }
            }
        }
        i += 1;
    }
    proof {
        let result = sorted@.map_values(view);
        let all = positions(keys.len());
        all.lemma_sort_by_ensures(leq);
        assert(relations::sorted_by(result, leq));
        seq_lib::lemma_sorted_unique(result, all.sort_by(leq), leq);
    }
    sorted
}

} // verus!
