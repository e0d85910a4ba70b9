//! Which logs are watched, and which are read again.
use vstd::prelude::*;

use crate::distinct;
use crate::models::{FileStateView, PersistedState};
use crate::order;
use crate::order::{Order, Ranked};
use crate::paths;
use crate::session_tree;
use crate::session_tree::{SessionFile, SessionFileView, SessionTree};
use crate::string_set::StringSet;
use crate::text;

verus! {

/// A log as it is ranked for watching.
struct Candidate {
    mtime_ns: u64,
    path: String,
}

/// The order of numbers.
pub open spec fn number_order(a: u64, b: u64) -> Order {
    if a < b {
        Order::Less
    } else if a == b {
        Order::Same
    } else {
        Order::Greater
    }
}

/// The log that changed last comes first; of two that changed at the same time, the one whose path
/// is the lesser text.
pub open spec fn by_recency() -> spec_fn((u64, Seq<char>), (u64, Seq<char>)) -> Order {
    |a: (u64, Seq<char>), b: (u64, Seq<char>)|
        if a.0 != b.0 {
            number_order(b.0, a.0)
        } else {
            order::text_order(a.1, b.1)
        }
}

/// The order by recency is an order.
pub proof fn lemma_recency_order()
    ensures
        order::is_order(by_recency()),
{
    order::lemma_text_order();
    let texts = order::by_text();
    let rank = by_recency();
    assert forall|a: (u64, Seq<char>), b: (u64, Seq<char>)| #[trigger] rank(a, b) == if a.0
        != b.0 {
        number_order(b.0, a.0)
    } else {
        texts(a.1, b.1)
    } by {}
    assert forall|x: (u64, Seq<char>), y: (u64, Seq<char>), z: (u64, Seq<char>)|
        #![trigger rank(x, y), rank(y, z)]
        rank(x, y) != Order::Greater && rank(y, z) != Order::Greater implies rank(x, z)
        != Order::Greater && (rank(x, z) == Order::Same <==> rank(x, y) == Order::Same && rank(y, z)
        == Order::Same) by {
        if x.0 == y.0 && y.0 == z.0 {
            assert(texts(x.1, y.1) != Order::Greater && texts(y.1, z.1) != Order::Greater);
        }
    }
}

impl Ranked for Candidate {
    type Key = (u64, Seq<char>);

    closed spec fn key(self) -> (u64, Seq<char>) {
        (self.mtime_ns, self.path@)
    }

    open spec fn ranking() -> spec_fn((u64, Seq<char>), (u64, Seq<char>)) -> Order {
        by_recency()
    }

    proof fn lemma_ranking() {
        lemma_recency_order();
    }

    fn order_with(&self, other: &Self) -> Order {
        if self.mtime_ns > other.mtime_ns {
            Order::Less
        } else if self.mtime_ns < other.mtime_ns {
            Order::Greater
        } else {
            order::order_texts(self.path.as_str(), other.path.as_str())
        }
    }
}

/// The place of the first log of a session, if it has one.
pub open spec fn log_of_session(files: Seq<SessionFileView>, session_id: Seq<char>) -> Option<int>
    decreases files.len(),
{
    if files.len() == 0 {
        None
    } else {
        match log_of_session(files.drop_last(), session_id) {
            Some(place) => Some(place),
            None => if files.last().session_id == Some(session_id) {
                Some(files.len() - 1)
            } else {
                None
            },
        }
    }
}

/// The paths of the logs of recent sessions, in the order of the sessions. A session without a log
/// counts for nothing.
pub open spec fn recent_paths(
    files: Seq<SessionFileView>,
    session_ids: Seq<Seq<char>>,
) -> Seq<Seq<char>>
    decreases session_ids.len(),
{
    if session_ids.len() == 0 {
        Seq::empty()
    } else {
        let before = recent_paths(files, session_ids.drop_last());
        match log_of_session(files, session_ids.last()) {
            Some(place) => before.push(files[place].path),
            None => before,
        }
    }
}

/// The times and paths of a list of logs.
pub open spec fn recency_keys(files: Seq<SessionFileView>) -> Seq<(u64, Seq<char>)> {
    files.map_values(|file: SessionFileView| (file.mtime_ns, file.path))
}

/// The paths of all logs, the log that changed last first.
pub open spec fn paths_by_recency(files: Seq<SessionFileView>) -> Seq<Seq<char>> {
    session_tree::arranged(
        session_tree::file_paths(files),
        order::sorted_positions(recency_keys(files), by_recency()),
    )
}

/// The paths to watch, in the order in which they are chosen: the logs of recent sessions, then
/// the logs that changed last.
pub open spec fn chosen_paths(
    files: Seq<SessionFileView>,
    session_ids: Seq<Seq<char>>,
) -> Seq<Seq<char>> {
    distinct::first_distinct(
        recent_paths(files, session_ids) + paths_by_recency(files),
        session_tree::MAX_WATCHED_SESSION_FILES as nat,
    )
}

/// The first log of a session.
fn find_session<'a>(tree: &'a SessionTree, session_id: &str) -> (found: Option<&'a SessionFile>)
    ensures
        match found {
            Some(file) => log_of_session(tree@, session_id@) matches Some(place) && 0 <= place
                < tree@.len() && file@ == tree@[place],
            None => log_of_session(tree@, session_id@) is None,
        },
{
    let ghost all = tree@;
    let mut i: usize = 0;
    assert(all.take(0) =~= Seq::empty());
    while i < tree.files.len()
        invariant
            i <= tree.files@.len(),
            all == tree@,
            log_of_session(all.take(i as int), session_id@) is None,
        decreases tree.files@.len() - i,
    {
        assert(all.take(i + 1).drop_last() =~= all.take(i as int));
        assert(all[i as int] == tree.files@[i as int]@);
        if text::holds_text(&tree.files[i].session_id, session_id) {
            proof {
                lemma_found_session_stays(all, session_id@, i + 1);
            }
            return Some(&tree.files[i]);
        }
        i += 1;
    }
    assert(all.take(i as int) =~= all);
    None
}

/// A log found for a session among the first logs is the one found among all.
proof fn lemma_found_session_stays(
    files: Seq<SessionFileView>,
    session_id: Seq<char>,
    length: int,
)
    requires
        0 <= length <= files.len(),
        log_of_session(files.take(length), session_id) is Some,
    ensures
        log_of_session(files, session_id) == log_of_session(files.take(length), session_id),
    decreases files.len(),
{
    if length < files.len() {
        assert(files.drop_last().take(length) =~= files.take(length));
        lemma_found_session_stays(files.drop_last(), session_id, length);
    } else {
        assert(files.take(length) =~= files);
    }
}

/// The paths of all logs, the log that changed last first.
fn fallback_paths(tree: &SessionTree) -> (result: Vec<String>)
    ensures
        text::texts(result@) == paths_by_recency(tree@),
{
    let mut candidates: Vec<Candidate> = Vec::new();
    let mut i: usize = 0;
    while i < tree.files.len()
        invariant
            i <= tree.files@.len(),
            candidates@.len() == i,
            forall|a: int|
                0 <= a < i ==> (#[trigger] candidates@[a]).key() == (
                    tree.files@[a]@.mtime_ns,
                    tree.files@[a]@.path,
                ),
        decreases tree.files@.len() - i,
    {
        let file = &tree.files[i];
        candidates.push(Candidate { mtime_ns: file.mtime_ns, path: file.path.clone() });
        i += 1;
    }
    let places = order::sort_positions(&candidates);
    let mut result: Vec<String> = Vec::new();
    let mut j: usize = 0;
    while j < places.len()
        invariant
            j <= places@.len(),
            result@.len() == j,
            candidates@.len() == tree.files@.len(),
            forall|a: int|
                #![trigger places@[a]]
                0 <= a < places@.len() ==> places@[a] < candidates@.len(),
            forall|a: int|
                0 <= a < candidates@.len() ==> (#[trigger] candidates@[a]).key() == (
                    tree.files@[a]@.mtime_ns,
                    tree.files@[a]@.path,
                ),
            forall|a: int| 0 <= a < j ==> (#[trigger] result@[a])@ == tree.files@[places@[a] as int]@.path,
        decreases places@.len() - j,
    {
        assert(candidates@[places@[j as int] as int].key().1 == tree.files@[places@[j as int] as int]@.path);
        result.push(candidates[places[j]].path.clone());
        j += 1;
    }
    proof {
        assert(order::keys_of(candidates@) =~= recency_keys(tree@));
        let positions = order::sorted_positions(recency_keys(tree@), by_recency());
        assert(positions.len() == places@.len());
        assert forall|a: int| 0 <= a < places@.len() implies #[trigger] positions[a]
            == places@[a] by {
            assert(places@.map_values(|position: usize| position as int)[a] == places@[a]);
        }
        assert(text::texts(result@) =~= paths_by_recency(tree@));
    }
    result
}

/// The logs to watch: those of recent sessions first, then those that changed last, and no more
/// than the limit.
pub fn select_watched_files(tree: &SessionTree, recent_session_ids: &Vec<String>) -> (selected:
    StringSet)
    ensures
        selected@ == chosen_paths(tree@, text::texts(recent_session_ids@)).to_set(),
{
    let limit: usize = session_tree::MAX_WATCHED_SESSION_FILES;
    let ghost ids = text::texts(recent_session_ids@);
    let ghost files = tree@;
    let mut chosen: Vec<String> = Vec::new();
    let mut i: usize = 0;
    assert(text::texts(chosen@) =~= Seq::empty());
    assert(ids.take(0) =~= Seq::empty());
    while i < recent_session_ids.len()
        invariant
            i <= recent_session_ids@.len(),
            ids == text::texts(recent_session_ids@),
            files == tree@,
            text::texts(chosen@) == distinct::first_distinct(
                recent_paths(files, ids.take(i as int)),
                limit as nat,
            ),
        decreases recent_session_ids@.len() - i,
    {
        proof {
            assert(ids.take(i + 1).drop_last() =~= ids.take(i as int));
            let before = recent_paths(files, ids.take(i as int));
            match log_of_session(files, ids[i as int]) {
                Some(place) => {
                    assert(before.push(files[place].path).drop_last() =~= before);
                },
                None => {},
            }
        }
        match find_session(tree, recent_session_ids[i].as_str()) {
            Some(file) => {
                distinct::push_distinct(&mut chosen, file.path.as_str(), limit);
            },
            None => {},
        }
        i += 1;
    }
    let ghost recent = recent_paths(files, ids);
    let fallback = fallback_paths(tree);
    let ghost others = text::texts(fallback@);
    let mut j: usize = 0;
    proof {
        assert(ids.take(i as int) =~= ids);
        assert(recent + others.take(0) =~= recent);
    }
    while j < fallback.len()
        invariant
            j <= fallback@.len(),
            others == text::texts(fallback@),
            text::texts(chosen@) == distinct::first_distinct(
                recent + others.take(j as int),
                limit as nat,
            ),
        decreases fallback@.len() - j,
    {
        assert((recent + others.take(j + 1)).drop_last() =~= recent + others.take(j as int));
        distinct::push_distinct(&mut chosen, fallback[j].as_str(), limit);
        j += 1;
    }
    assert(others.take(j as int) =~= others);
    StringSet::from_list(&chosen)
}

/// A log has to be read again if it was just added to the watched ones, if nothing is remembered
/// of it, or if its time or size is not the one that is remembered.
pub open spec fn needs_scan(
    file: SessionFileView,
    known: Map<Seq<char>, FileStateView>,
    added: Set<Seq<char>>,
) -> bool {
    ||| added.contains(file.path)
    ||| !known.contains_key(file.path)
    ||| known[file.path].mtime_ns != file.mtime_ns
    ||| known[file.path].size != file.size
}

/// The paths of the logs that have to be read again.
pub open spec fn scan_candidates(
    files: Seq<SessionFileView>,
    known: Map<Seq<char>, FileStateView>,
    added: Set<Seq<char>>,
) -> Seq<Seq<char>>
    decreases files.len(),
{
    if files.len() == 0 {
        Seq::empty()
    } else {
        let before = scan_candidates(files.drop_last(), known, added);
        if needs_scan(files.last(), known, added) {
            before.push(files.last().path)
        } else {
            before
        }
    }
}

/// No two paths of a list have the same components, and they are in the order of paths.
pub open spec fn is_path_listing(listing: Seq<Seq<char>>) -> bool {
    forall|i: int, j: int|
        #![trigger listing[i], listing[j]]
        0 <= i < j < listing.len() ==> paths::path_order(listing[i], listing[j]) == Order::Less
}

/// The path at a place of a list is not, up to its spelling, one that comes earlier.
pub open spec fn is_first_at(items: Seq<Seq<char>>, place: int, path: Seq<char>) -> bool {
    &&& 0 <= place < items.len()
    &&& items[place] == path
    &&& forall|j: int|
        0 <= j < place ==> paths::path_order(#[trigger] items[j], path) != Order::Same
}

/// A path of a list that is not, up to its spelling, one that comes earlier in the list.
pub open spec fn is_first_of_its_kind(items: Seq<Seq<char>>, path: Seq<char>) -> bool {
    exists|place: int| is_first_at(items, place, path)
}

/// The first spellings of the paths of a list, in the order of paths.
pub open spec fn path_listing_of(items: Seq<Seq<char>>) -> Seq<Seq<char>> {
    choose|listing: Seq<Seq<char>>| #[trigger]
        is_path_listing(listing) && forall|path: Seq<char>| #[trigger]
            listing.contains(path) <==> is_first_of_its_kind(items, path)
}

/// The paths of the logs to read again.
pub open spec fn reconciled_paths(
    files: Seq<SessionFileView>,
    known: Map<Seq<char>, FileStateView>,
    added: Set<Seq<char>>,
) -> Seq<Seq<char>> {
    path_listing_of(scan_candidates(files, known, added))
}

/// The members of an ordered list of paths but for the first.
proof fn lemma_rest_of_path_listing(listing: Seq<Seq<char>>, member: Seq<char>)
    requires
        is_path_listing(listing),
        listing.len() > 0,
    ensures
        is_path_listing(listing.drop_first()),
        listing.drop_first().contains(member) <==> listing.contains(member) && member
            != listing[0],
{
    paths::lemma_path_order();
    let rest = listing.drop_first();
    assert forall|i: int, j: int|
        #![trigger rest[i], rest[j]]
        0 <= i < j < rest.len() implies paths::path_order(rest[i], rest[j]) == Order::Less by {
        assert(rest[i] == listing[i + 1] && rest[j] == listing[j + 1]);
    }
    if listing.contains(member) && member != listing[0] {
        let i = choose|i: int| 0 <= i < listing.len() && listing[i] == member;
        assert(rest[i - 1] == member);
    }
    if rest.contains(member) {
        let i = choose|i: int| 0 <= i < rest.len() && rest[i] == member;
        assert(listing[i + 1] == member);
        assert(paths::path_order(listing[0], listing[i + 1]) == Order::Less);
        assert(paths::path_order(member, member) == Order::Same);
    }
}

/// There is one ordered list of the same paths.
proof fn lemma_one_path_listing(a: Seq<Seq<char>>, b: Seq<Seq<char>>)
    requires
        is_path_listing(a),
        is_path_listing(b),
        forall|path: Seq<char>| #[trigger] a.contains(path) <==> b.contains(path),
    ensures
        a == b,
    decreases a.len(),
{
    paths::lemma_path_order();
    let rank = paths::by_path();
    if a.len() == 0 || b.len() == 0 {
        if a.len() > 0 {
            assert(a.contains(a[0]));
        }
        if b.len() > 0 {
            assert(b.contains(b[0]));
            assert(a.contains(b[0]));
        }
        assert(a =~= b);
    } else {
        assert(a.contains(a[0]) && b.contains(b[0]));
        assert(a.contains(b[0]));
        let i = choose|i: int| 0 <= i < a.len() && a[i] == b[0];
        let j = choose|j: int| 0 <= j < b.len() && b[j] == a[0];
        assert(rank(a[0], b[0]) == rank(b[0], a[0]).flipped());
        assert(rank(a[0], a[0]) == Order::Same);
        if i > 0 {
            assert(paths::path_order(a[0], a[i]) == Order::Less);
            assert(rank(a[0], b[0]) == Order::Less);
            if j > 0 {
                assert(paths::path_order(b[0], b[j]) == Order::Less);
                assert(rank(b[0], a[0]) == Order::Less);
            }
        }
        assert(a[0] == b[0]);
        assert forall|path: Seq<char>| #[trigger]
            a.drop_first().contains(path) <==> b.drop_first().contains(path) by {
            lemma_rest_of_path_listing(a, path);
            lemma_rest_of_path_listing(b, path);
            assert(a.contains(path) <==> b.contains(path));
        }
        lemma_rest_of_path_listing(a, a[0]);
        lemma_rest_of_path_listing(b, b[0]);
        lemma_one_path_listing(a.drop_first(), b.drop_first());
        assert(a =~= seq![a[0]] + a.drop_first());
        assert(b =~= seq![b[0]] + b.drop_first());
    }
}

/// A path that is, up to its spelling, one of a list.
spec fn is_listed(listing: Seq<Seq<char>>, path: Seq<char>) -> bool {
    exists|i: int|
        0 <= i < listing.len() && paths::path_order(#[trigger] listing[i], path) == Order::Same
}

/// Puts a path into its place of an ordered list, unless it is there up to its spelling.
fn insert_path(listing: &mut Vec<String>, path: &str)
    requires
        is_path_listing(text::texts(old(listing)@)),
    ensures
        is_path_listing(text::texts(final(listing)@)),
        is_listed(text::texts(old(listing)@), path@) ==> text::texts(final(listing)@)
            == text::texts(old(listing)@),
        !is_listed(text::texts(old(listing)@), path@) ==> exists|place: int|
            0 <= place <= old(listing)@.len() && text::texts(final(listing)@) == (
            #[trigger] text::texts(old(listing)@).insert(place, path@)),
{
    let ghost before = text::texts(listing@);
    let ghost rank = paths::by_path();
    proof {
        paths::lemma_path_order();
    }
    let mut place: usize = listing.len();
    while place > 0
        invariant_except_break
            place <= listing@.len(),
            text::texts(listing@) == before,
            before.len() == listing@.len(),
            is_path_listing(before),
            listing == old(listing),
            rank == paths::by_path(),
            order::is_order(rank),
            forall|a: int|
                #![trigger before[a]]
                place <= a < before.len() ==> rank(path@, before[a]) == Order::Less,
        ensures
            place <= listing@.len(),
            text::texts(listing@) == before,
            before.len() == listing@.len(),
            listing == old(listing),
            forall|a: int|
                #![trigger before[a]]
                place <= a < before.len() ==> rank(path@, before[a]) == Order::Less,
            forall|a: int|
                #![trigger before[a]]
                0 <= a < place ==> rank(before[a], path@) == Order::Less,
        decreases place,
    {
        assert(before[place - 1] == listing@[place - 1]@);
        let found = paths::order_paths(listing[place - 1].as_str(), path);
        assert(found == rank(before[place - 1], path@));
        match found {
            Order::Greater => {
                assert(rank(path@, before[place - 1]) == rank(before[place - 1], path@).flipped());
                place -= 1;
            },
            Order::Same => {
                assert(is_listed(before, path@));
                return;
            },
            Order::Less => {
                assert forall|a: int| #![trigger before[a]] 0 <= a < place implies rank(
                    before[a],
                    path@,
                ) == Order::Less by {
                    if a < place - 1 {
                        assert(paths::path_order(before[a], before[place - 1]) == Order::Less);
                        assert(rank(before[a], before[place - 1]) == Order::Less);
                    }
                }
                break;
            },
        }
    }
    listing.insert(place, path.to_string());
    proof {
        let after = before.insert(place as int, path@);
        assert(text::texts(listing@) =~= after);
        assert forall|a: int| #![trigger before[a]] 0 <= a < place implies paths::path_order(
            before[a],
            path@,
        ) == Order::Less by {
            assert(rank(before[a], path@) == Order::Less);
        }
        assert forall|a: int|
            #![trigger before[a]]
            place <= a < before.len() implies paths::path_order(path@, before[a]) == Order::Less by {
            assert(rank(path@, before[a]) == Order::Less);
        }
        lemma_path_inserted(before, place as int, path@);
        assert forall|a: int| 0 <= a < before.len() implies paths::path_order(
            #[trigger] before[a],
            path@,
        ) != Order::Same by {
            assert(rank(before[a], path@) == rank(path@, before[a]).flipped());
        }
    }
}

/// One more path is the first of its kind if it was not listed before.
proof fn lemma_first_of_more(items: Seq<Seq<char>>, last: Seq<char>, path: Seq<char>)
    ensures
        is_first_of_its_kind(items.push(last), path) <==> is_first_of_its_kind(items, path) || path
            == last && !is_listed(items, last),
{
    let more = items.push(last);
    if is_first_of_its_kind(more, path) {
        let place = choose|place: int| is_first_at(more, place, path);
        assert forall|j: int| 0 <= j < place implies paths::path_order(#[trigger] items[j], path)
            != Order::Same by {
            assert(more[j] == items[j]);
        }
        if place < items.len() {
            assert(is_first_at(items, place, path));
        }
    }
    if is_first_of_its_kind(items, path) {
        let place = choose|place: int| is_first_at(items, place, path);
        assert forall|j: int| 0 <= j < place implies paths::path_order(#[trigger] more[j], path)
            != Order::Same by {
            assert(more[j] == items[j]);
        }
        assert(is_first_at(more, place, path));
    }
    if path == last && !is_listed(items, last) {
        assert forall|j: int| 0 <= j < items.len() implies paths::path_order(
            #[trigger] more[j],
            path,
        ) != Order::Same by {
            assert(more[j] == items[j]);
        }
        assert(is_first_at(more, items.len() as int, path));
    }
}

/// Where a path belongs in an ordered list that does not hold it in any spelling.
proof fn lemma_path_place(listing: Seq<Seq<char>>, path: Seq<char>) -> (place: int)
    requires
        is_path_listing(listing),
        !is_listed(listing, path),
    ensures
        0 <= place <= listing.len(),
        forall|i: int|
            #![trigger listing[i]]
            0 <= i < place ==> paths::path_order(listing[i], path) == Order::Less,
        forall|i: int|
            #![trigger listing[i]]
            place <= i < listing.len() ==> paths::path_order(path, listing[i]) == Order::Less,
    decreases listing.len(),
{
    paths::lemma_path_order();
    let rank = paths::by_path();
    if listing.len() == 0 {
        0
    } else {
        let last = listing[listing.len() - 1];
        let rest = listing.drop_last();
        assert(rank(last, path) == rank(path, last).flipped());
        assert(paths::path_order(last, path) != Order::Same);
        if paths::path_order(last, path) == Order::Less {
            assert forall|i: int| #![trigger listing[i]] 0 <= i < listing.len() implies paths::path_order(
                listing[i],
                path,
            ) == Order::Less by {
                if i < listing.len() - 1 {
                    assert(rank(listing[i], last) == Order::Less);
                    assert(rank(last, path) == Order::Less);
                }
            }
            listing.len() as int
        } else {
            assert forall|i: int, j: int|
                #![trigger rest[i], rest[j]]
                0 <= i < j < rest.len() implies paths::path_order(rest[i], rest[j])
                == Order::Less by {
                assert(rest[i] == listing[i] && rest[j] == listing[j]);
            }
            if is_listed(rest, path) {
                let i = choose|i: int|
                    0 <= i < rest.len() && paths::path_order(#[trigger] rest[i], path)
                        == Order::Same;
                assert(paths::path_order(listing[i], path) == Order::Same);
            }
            let place = lemma_path_place(rest, path);
            assert forall|i: int| #![trigger listing[i]] 0 <= i < place implies paths::path_order(
                listing[i],
                path,
            ) == Order::Less by {
                assert(rest[i] == listing[i]);
            }
            assert forall|i: int|
                #![trigger listing[i]]
                place <= i < listing.len() implies paths::path_order(path, listing[i])
                == Order::Less by {
                if i < rest.len() {
                    assert(rest[i] == listing[i]);
                } else {
                    assert(rank(path, last) == Order::Less);
                }
            }
            place
        }
    }
}

/// One more path in its place keeps a list ordered.
proof fn lemma_path_inserted(listing: Seq<Seq<char>>, place: int, path: Seq<char>)
    requires
        is_path_listing(listing),
        0 <= place <= listing.len(),
        forall|i: int|
            #![trigger listing[i]]
            0 <= i < place ==> paths::path_order(listing[i], path) == Order::Less,
        forall|i: int|
            #![trigger listing[i]]
            place <= i < listing.len() ==> paths::path_order(path, listing[i]) == Order::Less,
    ensures
        is_path_listing(listing.insert(place, path)),
{
    let after = listing.insert(place, path);
    assert forall|i: int, j: int|
        #![trigger after[i], after[j]]
        0 <= i < j < after.len() implies paths::path_order(after[i], after[j]) == Order::Less by {
        let (x, y) = (if i < place { i } else { i - 1 }, if j < place { j } else { j - 1 });
        if i != place && j != place {
            assert(after[i] == listing[x] && after[j] == listing[y]);
        } else if i == place {
            assert(after[j] == listing[y]);
        } else {
            assert(after[i] == listing[x]);
        }
    }
}

/// The paths of a list can be listed in order.
proof fn lemma_can_be_path_listed(items: Seq<Seq<char>>) -> (listing: Seq<Seq<char>>)
    ensures
        is_path_listing(listing),
        forall|path: Seq<char>| #[trigger]
            listing.contains(path) <==> is_first_of_its_kind(items, path),
        forall|a: int| 0 <= a < items.len() ==> is_listed(listing, #[trigger] items[a]),
    decreases items.len(),
{
    if items.len() == 0 {
        items
    } else {
        let rest = items.drop_last();
        let last = items.last();
        let before = lemma_can_be_path_listed(rest);
        assert(rest.push(last) =~= items);
        let after = if is_listed(before, last) {
            before
        } else {
            let place = lemma_path_place(before, last);
            lemma_path_inserted(before, place, last);
            before.insert(place, last)
        };
        lemma_path_added(rest, before, after, last);
        after
    }
}

/// The paths to read again are listed in order, and are the first spellings of those that have to
/// be read.
pub proof fn lemma_reconciled_paths(
    files: Seq<SessionFileView>,
    known: Map<Seq<char>, FileStateView>,
    added: Set<Seq<char>>,
)
    ensures
        is_path_listing(reconciled_paths(files, known, added)),
        forall|path: Seq<char>| #[trigger]
            reconciled_paths(files, known, added).contains(path) <==> is_first_of_its_kind(
                scan_candidates(files, known, added),
                path,
            ),
{
    let listing = lemma_can_be_path_listed(scan_candidates(files, known, added));
    assert(is_path_listing(listing));
}

/// The paths of the logs to read again, in the order of paths, each once. Of several spellings of
/// one path the first stands for all.
pub fn reconcile_scan_paths(
    tree: &SessionTree,
    state: &PersistedState,
    added_watch_paths: &StringSet,
) -> (result: Vec<String>)
    ensures
        text::texts(result@) == reconciled_paths(tree@, state@.files, added_watch_paths@),
        is_path_listing(text::texts(result@)),
        forall|path: Seq<char>| #[trigger]
            text::texts(result@).contains(path) <==> is_first_of_its_kind(
                scan_candidates(tree@, state@.files, added_watch_paths@),
                path,
            ),
{
    let ghost files = tree@;
    let ghost known = state@.files;
    let ghost added = added_watch_paths@;
    let mut result: Vec<String> = Vec::new();
    let mut i: usize = 0;
    assert(files.take(0) =~= Seq::empty());
    while i < tree.files.len()
        invariant
            i <= tree.files@.len(),
            files == tree@,
            known == state@.files,
            added == added_watch_paths@,
            is_path_listing(text::texts(result@)),
            forall|path: Seq<char>| #[trigger]
                text::texts(result@).contains(path) <==> is_first_of_its_kind(
                    scan_candidates(files.take(i as int), known, added),
                    path,
                ),
            forall|a: int|
                0 <= a < scan_candidates(files.take(i as int), known, added).len() ==> is_listed(
                    text::texts(result@),
                    #[trigger] scan_candidates(files.take(i as int), known, added)[a],
                ),
        decreases tree.files@.len() - i,
    {
        let file = &tree.files[i];
        let ghost before = scan_candidates(files.take(i as int), known, added);
        let ghost listed = text::texts(result@);
        proof {
            assert(files.take(i + 1).drop_last() =~= files.take(i as int));
            assert(files.take(i + 1).last() == file@);
        }
        let mut wanted = true;
        if !added_watch_paths.contains(file.path.as_str()) {
            match state.files.get(file.path.as_str()) {
                Some(file_state) => {
                    wanted = !(file_state.mtime_ns == file.mtime_ns && file_state.size
                        == file.size);
                },
                None => {},
            }
        }
        assert(wanted == needs_scan(file@, known, added));
        if wanted {
            insert_path(&mut result, file.path.as_str());
            proof {
                lemma_path_added(before, listed, text::texts(result@), file@.path);
            }
        }
        i += 1;
    }
    proof {
        assert(files.take(i as int) =~= files);
        let listing = reconciled_paths(files, known, added);
        lemma_reconciled_paths(files, known, added);
        assert forall|path: Seq<char>| #[trigger]
            text::texts(result@).contains(path) <==> listing.contains(path) by {
            assert(listing.contains(path) <==> is_first_of_its_kind(
                scan_candidates(files, known, added),
                path,
            ));
        }
        lemma_one_path_listing(text::texts(result@), listing);
    }
    result
}

/// What putting one more path into an ordered list keeps up.
proof fn lemma_path_added(
    items: Seq<Seq<char>>,
    before: Seq<Seq<char>>,
    after: Seq<Seq<char>>,
    path: Seq<char>,
)
    requires
        forall|other: Seq<char>| #[trigger]
            before.contains(other) <==> is_first_of_its_kind(items, other),
        forall|a: int| 0 <= a < items.len() ==> is_listed(before, #[trigger] items[a]),
        is_listed(before, path) ==> after == before,
        !is_listed(before, path) ==> exists|place: int|
            0 <= place <= before.len() && after == (#[trigger] before.insert(place, path)),
    ensures
        forall|other: Seq<char>| #[trigger]
            after.contains(other) <==> is_first_of_its_kind(items.push(path), other),
        forall|a: int|
            0 <= a < items.push(path).len() ==> is_listed(after, #[trigger] items.push(path)[a]),
{
    paths::lemma_path_order();
    let rank = paths::by_path();
    assert(is_listed(before, path) == is_listed(items, path)) by {
        if is_listed(before, path) {
            let i = choose|i: int|
                0 <= i < before.len() && paths::path_order(#[trigger] before[i], path)
                    == Order::Same;
            assert(before.contains(before[i]));
            let j = choose|j: int| is_first_at(items, j, before[i]);
            assert(paths::path_order(items[j], path) == Order::Same);
        }
        if is_listed(items, path) {
            let i = choose|i: int|
                0 <= i < items.len() && paths::path_order(#[trigger] items[i], path)
                    == Order::Same;
            assert(is_listed(before, items[i]));
            let j = choose|j: int|
                0 <= j < before.len() && paths::path_order(#[trigger] before[j], items[i])
                    == Order::Same;
            assert(rank(before[j], items[i]) == Order::Same && rank(items[i], path)
                == Order::Same);
            assert(paths::path_order(before[j], path) == Order::Same);
        }
    }
    assert forall|other: Seq<char>| #[trigger]
        after.contains(other) <==> is_first_of_its_kind(items.push(path), other) by {
        lemma_first_of_more(items, path, other);
        if !is_listed(before, path) {
            let place = choose|place: int|
                0 <= place <= before.len() && after == (#[trigger] before.insert(place, path));
            crate::string_set::lemma_inserted_members(before, place, path, other);
        }
        assert(before.contains(other) <==> is_first_of_its_kind(items, other));
    }
    assert forall|a: int| 0 <= a < items.push(path).len() implies is_listed(
        after,
        #[trigger] items.push(path)[a],
    ) by {
        let item = items.push(path)[a];
        if is_listed(before, path) {
            if a < items.len() {
                assert(is_listed(before, items[a]));
            }
        } else {
            let place = choose|place: int|
                0 <= place <= before.len() && after == (#[trigger] before.insert(place, path));
            if a < items.len() {
                assert(is_listed(before, items[a]));
                let j = choose|j: int|
                    0 <= j < before.len() && paths::path_order(#[trigger] before[j], items[a])
                        == Order::Same;
                assert(after[if j < place { j } else { j + 1 }] == before[j]);
            } else {
                assert(after[place] == path);
                assert(rank(path, path) == Order::Same);
            }
        }
    }
}

/// Takes over which files are watched from now on, and gives those that were not watched before.
///
/// A file that could not be registered is not among the watched ones, so that it is wanted again
/// the next time.
pub fn apply_watch_registration(
    watched_files: &mut StringSet,
    desired_files: &StringSet,
    registered_files: &StringSet,
) -> (added: StringSet)
    ensures
        added@ == registered_files@.difference(old(watched_files)@),
        final(watched_files)@ == registered_files@,
{
    let added = registered_files.difference(watched_files);
    if registered_files.same_as(desired_files) {
        *watched_files = desired_files.clone();
    } else {
        *watched_files = registered_files.clone();
    }
    added
}

/// The files to register anew, or nothing where the right ones are watched already.
pub fn watch_change(
    tree: &SessionTree,
    recent_session_ids: &Vec<String>,
    watched_files: &StringSet,
) -> (desired: Option<StringSet>)
    ensures
        ({
            let wanted = chosen_paths(tree@, text::texts(recent_session_ids@)).to_set();
            match desired {
                Some(files) => files@ == wanted && wanted != watched_files@,
                None => wanted == watched_files@,
            }
        }),
{
    let desired = select_watched_files(tree, recent_session_ids);
    if desired.same_as(watched_files) {
        None
    } else {
        Some(desired)
    }
}

} // verus!
