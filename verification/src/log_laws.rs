//! Which session a log belongs to, what is remembered of it and how logs are gone through, stated on
//! names, index entries and states alone.
use vstd::prelude::*;
use vstd::utf8;

use crate::distinct;
use crate::file_map;
use crate::models::{EventView, FileStateView, StateView};
use crate::order;
use crate::order::Order;
use crate::path_laws;
use crate::paths;
use crate::selection_laws;
use crate::session_parser;
use crate::session_tree;
use crate::session_tree::SessionFileView;
use crate::state;
use crate::string_set;
use crate::sync;
use crate::sync::SnapshotView;

verus! {

/// A session id is made of thirty-six characters: dashes behind the first eight and behind each of
/// the next three groups of four, and hexadecimal digits everywhere else.
pub proof fn law_session_ids(value: Seq<char>)
    ensures
        session_tree::is_session_id(value) <==> {
            &&& value.len() == 36
            &&& value[8] == '-' && value[13] == '-' && value[18] == '-' && value[23] == '-'
            &&& forall|i: int|
                #![trigger value[i]]
                0 <= i < 36 && i != 8 && i != 13 && i != 18 && i != 23 ==> '0' <= value[i] <= '9'
                    || 'a' <= value[i] <= 'f' || 'A' <= value[i] <= 'F'
        },
{
    if session_tree::is_session_id(value) {
        assert(session_tree::is_dash_place(8) && session_tree::is_dash_place(13)
            && session_tree::is_dash_place(18) && session_tree::is_dash_place(23));
        assert(value[8] == '-' && value[13] == '-' && value[18] == '-' && value[23] == '-');
    }
}

/// A log in whose name something, a session id and an extension follow each other belongs to that
/// session, whatever directory it is in and whatever stands before the id.
pub proof fn law_session_of_log(
    parent: Seq<char>,
    prefix: Seq<char>,
    session_id: Seq<char>,
    extension: Seq<char>,
)
    requires
        session_tree::is_session_id(session_id),
        !prefix.contains('/'),
        !extension.contains('/'),
        !extension.contains('.'),
    ensures
        session_tree::rollout_session_id(
            path_laws::child(parent, prefix + session_id + seq!['.'] + extension),
        ) == Some(session_id),
{
    let stem = prefix + session_id;
    let name = stem + seq!['.'] + extension;
    law_session_ids(session_id);
    assert(!name.contains('/')) by {
        assert forall|i: int| 0 <= i < name.len() implies name[i] != '/' by {
            if i < prefix.len() {
                assert(prefix[i] == name[i]);
            } else if i < stem.len() {
                assert(session_id[i - prefix.len()] == name[i]);
                assert(session_tree::is_dash_place(i - prefix.len())
                    || session_tree::is_hex_digit(session_id[i - prefix.len()]));
            } else if i > stem.len() {
                assert(extension[i - stem.len() - 1] == name[i]);
            }
        }
    }
    assert(path_laws::is_name(name));
    path_laws::law_stem_and_extension(parent, stem, extension);
    session_tree::law_rollout_name_tells_its_session(
        path_laws::child(parent, name),
        prefix,
        session_id,
    );
}

/// The stem of a name can be cut exactly if it has fewer than thirty-six bytes, or if it is made of
/// two texts of which the second has thirty-six.
pub proof fn law_stems_that_can_be_cut(stem: Seq<char>, first: Seq<char>, second: Seq<char>)
    ensures
        utf8::encode_utf8(stem).len() < 36 ==> session_tree::can_be_cut(stem),
        stem == first + second && utf8::encode_utf8(second).len() == 36
            ==> session_tree::can_be_cut(stem),
        session_tree::can_be_cut(stem) && utf8::encode_utf8(stem).len() >= 36 ==> exists|cut: int|
            0 <= cut <= stem.len() && utf8::encode_utf8(#[trigger] stem.skip(cut)).len() == 36,
{
    let bytes = utf8::encode_utf8(stem);
    if stem == first + second && utf8::encode_utf8(second).len() == 36 {
        session_tree::lemma_boundary_between(first, second);
        session_tree::lemma_encoding_of_two(first, second);
    }
    if session_tree::can_be_cut(stem) && bytes.len() >= 36 {
        let middle = bytes.len() - 36;
        let tail = bytes.subrange(middle, bytes.len() as int);
        utf8::encode_utf8_valid_utf8(stem);
        utf8::encode_utf8_decode_utf8(stem);
        utf8::decode_utf8_split(bytes, middle);
        utf8::valid_utf8_split(bytes, middle);
        utf8::decode_utf8_encode_utf8(tail);
        let head = utf8::decode_utf8(bytes.subrange(0, middle));
        assert(stem.skip(head.len() as int) =~= utf8::decode_utf8(tail));
    }
}

/// A log that belongs to a session has the id of that session at the end of the stem of its name.
pub proof fn law_session_is_in_the_name(path: Seq<char>) -> (prefix: Seq<char>)
    requires
        session_tree::stem_can_be_cut(path),
        session_tree::rollout_session_id(path) is Some,
    ensures
        session_tree::is_session_id(session_tree::rollout_session_id(path)->0),
        paths::file_stem_of(path) == Some(prefix + session_tree::rollout_session_id(path)->0),
{
    let stem = paths::file_stem_of(path)->0;
    let bytes = utf8::encode_utf8(stem);
    let cut = bytes.len() - 36;
    utf8::encode_utf8_valid_utf8(stem);
    utf8::encode_utf8_decode_utf8(stem);
    utf8::decode_utf8_split(bytes, cut);
    assert(bytes.subrange(cut, bytes.len() as int) =~= bytes.skip(cut));
    utf8::decode_utf8(bytes.subrange(0, cut))
}

/// A log whose name has a session id nowhere at the end of its stem belongs to no session.
pub proof fn law_other_logs_have_no_session(path: Seq<char>)
    requires
        session_tree::stem_can_be_cut(path),
        forall|prefix: Seq<char>, session_id: Seq<char>|
            session_tree::is_session_id(session_id) ==> paths::file_stem_of(path) != Some(
                #[trigger] (prefix + session_id),
            ),
    ensures
        session_tree::rollout_session_id(path) is None,
{
    if session_tree::rollout_session_id(path) is Some {
        let prefix = law_session_is_in_the_name(path);
        let session_id = session_tree::rollout_session_id(path)->0;
        assert(paths::file_stem_of(path) == Some(prefix + session_id));
    }
}

/// The session index is beside the sessions directory.
pub proof fn law_index_is_beside_the_sessions(
    parent: Seq<char>,
    directory: Seq<char>,
    name: Seq<char>,
)
    requires
        path_laws::is_name(directory),
        path_laws::is_name(name),
    ensures
        ({
            let above = path_laws::child(parent, directory);
            let root = path_laws::child(above, name);
            &&& paths::parent_of(root) == Some(above)
            &&& paths::joined(above, session_tree::index_name()) == path_laws::child(
                above,
                "session_index.jsonl"@,
            )
        }),
{
    let above = path_laws::child(parent, directory);
    path_laws::law_parent_of_child(parent, directory, name);
    assert(above.last() == directory[directory.len() - 1]);
    reveal_strlit("session_index.jsonl");
    reveal_strlit("/");
    assert("/"@ =~= seq!['/']);
}

/// The logs of a tree are those that were found, each as often as it was, in the order of their
/// paths; logs whose paths are the same up to spelling stay in the order in which they were found.
pub proof fn law_tree_is_sorted(files: Seq<SessionFileView>) -> (places: Seq<int>)
    ensures
        ({
            let sorted = session_tree::in_path_order(files);
            &&& places.len() == files.len()
            &&& sorted.len() == files.len()
            &&& places.no_duplicates()
            &&& forall|a: int|
                #![trigger places[a]]
                #![trigger sorted[a]]
                0 <= a < files.len() ==> 0 <= places[a] < files.len() && sorted[a]
                    == files[places[a]]
            &&& forall|a: int, b: int|
                #![trigger sorted[a], sorted[b]]
                0 <= a < b < files.len() ==> paths::path_order(sorted[a].path, sorted[b].path)
                    == Order::Less || paths::path_order(sorted[a].path, sorted[b].path)
                    == Order::Same && places[a] < places[b]
        }),
{
    let keys = session_tree::file_paths(files);
    let rank = paths::by_path();
    let places = order::sorted_positions(keys, rank);
    let sorted = session_tree::in_path_order(files);
    paths::lemma_path_order();
    order::lemma_sorted_positions(keys, rank);
    assert forall|a: int, b: int|
        #![trigger sorted[a], sorted[b]]
        0 <= a < b < files.len() implies paths::path_order(sorted[a].path, sorted[b].path)
        == Order::Less || paths::path_order(sorted[a].path, sorted[b].path) == Order::Same
        && places[a] < places[b] by {
        assert(order::position_order(keys, rank)(places[a], places[b]));
        assert(rank(keys[places[a]], keys[places[b]]) == paths::path_order(
            sorted[a].path,
            sorted[b].path,
        ));
    }
    places
}

/// The first items of a list, no more than a limit.
pub open spec fn at_most<T>(items: Seq<T>, limit: int) -> Seq<T> {
    if items.len() > limit {
        items.take(limit)
    } else {
        items
    }
}

/// A list without one of its texts.
pub open spec fn without(items: Seq<Seq<char>>, item: Seq<char>) -> Seq<Seq<char>> {
    items.filter(|other: Seq<char>| other != item)
}

/// One more entry of the index: without an id it changes nothing of the recent sessions. With an id
/// it makes that session the first one, before all the others in their order, of which the last
/// falls out where they would be more than sixty-four.
pub proof fn law_recent_sessions_after_one_more(entries: Seq<Option<Seq<char>>>, id: Seq<char>)
    ensures
        session_tree::recent_ids(Seq::empty()) == Seq::<Seq<char>>::empty(),
        session_tree::recent_ids(entries.push(None)) == session_tree::recent_ids(entries),
        session_tree::recent_ids(entries.push(Some(id))) == at_most(
            seq![id] + without(session_tree::recent_ids(entries), id),
            64,
        ),
{
    let none = Seq::<Option<Seq<char>>>::empty();
    assert(none.reverse() =~= none);
    assert(session_tree::known_ids(none) =~= Seq::<Seq<char>>::empty());
    let rest = entries.reverse();
    assert(entries.push(Some(id)).reverse() =~= seq![Some(id)] + rest);
    selection_laws::lemma_known_ids_start(id, rest);
    lemma_first_of_all(id, session_tree::known_ids(rest), 64);
    assert(entries.push(None).reverse() =~= seq![None::<Seq<char>>] + rest);
    lemma_known_ids_without(rest);
}

/// An entry without an id in front of others counts for nothing.
proof fn lemma_known_ids_without(rest: Seq<Option<Seq<char>>>)
    ensures
        session_tree::known_ids(seq![None::<Seq<char>>] + rest) == session_tree::known_ids(rest),
    decreases rest.len(),
{
    let all = seq![None::<Seq<char>>] + rest;
    if rest.len() == 0 {
        assert(all.drop_last() =~= Seq::<Option<Seq<char>>>::empty());
        assert(session_tree::known_ids(all.drop_last()) =~= Seq::<Seq<char>>::empty());
        assert(session_tree::known_ids(rest) =~= Seq::<Seq<char>>::empty());
        assert(all.last() is None);
    } else {
        assert(all.drop_last() =~= seq![None::<Seq<char>>] + rest.drop_last());
        lemma_known_ids_without(rest.drop_last());
    }
}

/// The members of a list without one of its texts.
proof fn lemma_without(items: Seq<Seq<char>>, item: Seq<char>, other: Seq<char>)
    ensures
        without(items, item).contains(other) <==> items.contains(other) && other != item,
        without(items, item).len() <= items.len(),
        !items.contains(item) ==> without(items, item) == items,
        items.no_duplicates() && items.contains(item) ==> without(items, item).len() + 1
            == items.len(),
    decreases items.len(),
{
    reveal(Seq::filter);
    if items.len() > 0 {
        let rest = items.drop_last();
        let last = items.last();
        lemma_without(rest, item, other);
        assert(items =~= rest.push(last));
        distinct::lemma_pushed(rest, last, other);
        distinct::lemma_pushed(rest, last, item);
        distinct::lemma_pushed(without(rest, item), last, other);
        if items.no_duplicates() {
            assert(rest.no_duplicates());
            if rest.contains(last) {
                let i = choose|i: int| 0 <= i < rest.len() && rest[i] == last;
                assert(items[i] == items[items.len() - 1]);
            }
        }
    }
}

/// The first different texts of a list with one more text in front.
proof fn lemma_first_of_all(id: Seq<char>, items: Seq<Seq<char>>, limit: nat)
    requires
        limit > 0,
    ensures
        distinct::first_distinct(seq![id] + items, limit) == at_most(
            seq![id] + without(distinct::first_distinct(items, limit), id),
            limit as int,
        ),
    decreases items.len(),
{
    reveal(Seq::filter);
    let all = seq![id] + items;
    if items.len() == 0 {
        assert(all =~= seq![id]);
        assert(all.drop_last() =~= Seq::<Seq<char>>::empty());
        assert(distinct::first_distinct(all.drop_last(), limit) =~= Seq::<Seq<char>>::empty());
        assert(distinct::first_distinct(all, limit) =~= seq![id]);
        assert(seq![id] + without(distinct::first_distinct(items, limit), id) =~= seq![id]);
    } else {
        let rest = items.drop_last();
        let last = items.last();
        lemma_first_of_all(id, rest, limit);
        assert(all.drop_last() =~= seq![id] + rest);
        let found = distinct::first_distinct(rest, limit);
        let long = seq![id] + without(found, id);
        let kept = at_most(long, limit as int);
        distinct::law_first_distinct(rest, limit);
        lemma_without(found, id, last);
        lemma_without(found, id, id);
        assert(long[0] == id);
        lemma_in_front(id, without(found, id), last);
        if found.len() < limit {
            assert(kept == long);
            if !found.contains(last) {
                assert(found.push(last).drop_last() =~= found);
                if last != id {
                    let longer = seq![id] + without(found.push(last), id);
                    assert(longer =~= long.push(last));
                    if long.len() == limit {
                        assert(longer.take(limit as int) =~= long);
                    }
                }
            }
        }
    }
}

/// The members of a list with one more text in front.
proof fn lemma_in_front(first: Seq<char>, rest: Seq<Seq<char>>, item: Seq<char>)
    ensures
        (seq![first] + rest).contains(item) <==> item == first || rest.contains(item),
{
    let all = seq![first] + rest;
    assert(all[0] == first);
    if rest.contains(item) {
        let i = choose|i: int| 0 <= i < rest.len() && rest[i] == item;
        assert(all[i + 1] == item);
    }
    if all.contains(item) && item != first {
        let i = choose|i: int| 0 <= i < all.len() && all[i] == item;
        assert(rest[i - 1] == item);
    }
}

/// A log that is taken as read has its end, its time and its size remembered, and nothing else.
pub proof fn law_taken_as_read(mtime_ns: u64, size: u64)
    ensures
        ({
            let taken = state::taken_as_read(mtime_ns, size);
            &&& taken.offset == size
            &&& taken.mtime_ns == mtime_ns
            &&& taken.size == size
            &&& taken.cwd is None
            &&& taken.session_id is None
            &&& taken.seen_calls.len() == 0
        }),
{
}

/// A watcher that never ran remembers no log.
pub proof fn law_blank_state(path: Seq<char>)
    ensures
        !StateView::blank().initialized,
        !StateView::blank().files.contains_key(path),
{
}

/// What is remembered of a log is what is stored under its path; of a log under whose path nothing
/// is stored, nothing is known.
pub proof fn law_entries_of_logs(files: Map<Seq<char>, FileStateView>, path: Seq<char>)
    ensures
        files.contains_key(path) ==> file_map::entry(files, path) == files[path],
        !files.contains_key(path) ==> {
            let fresh = file_map::entry(files, path);
            &&& fresh.offset == 0 && fresh.mtime_ns == 0 && fresh.size == 0
            &&& fresh.cwd is None && fresh.session_id is None
            &&& fresh.seen_calls.len() == 0
        },
{
}

/// A list of texts without repetitions, in increasing order.
pub proof fn law_listing(items: Set<Seq<char>>, list: Seq<Seq<char>>)
    requires
        items == list.to_set(),
    ensures
        ({
            let listing = string_set::listing_of(items);
            &&& forall|item: Seq<char>| #[trigger] listing.contains(item) <==> items.contains(item)
            &&& forall|i: int, j: int|
                #![trigger listing[i], listing[j]]
                0 <= i < j < listing.len() ==> order::text_order(listing[i], listing[j])
                    == Order::Less
        }),
{
    string_set::lemma_listing_of(list);
}

/// Metadata is searched in exactly those logs of a list that lack a working directory or a session
/// id, or have an empty one, in the order of the list.
pub proof fn law_logs_without_metadata(
    files: Map<Seq<char>, FileStateView>,
    list: Seq<Seq<char>>,
)
    ensures
        sync::missing_paths(files, list) == list.filter(
            |path: Seq<char>|
                {
                    let known = file_map::entry(files, path);
                    !(known.cwd is Some && known.cwd->0.len() > 0 && known.session_id is Some
                        && known.session_id->0.len() > 0)
                },
        ),
    decreases list.len(),
{
    reveal(Seq::filter);
    if list.len() > 0 {
        law_logs_without_metadata(files, list.drop_last());
    }
}

/// The search for metadata in one more log. A log that names its session is stored as it is and uses
/// up no content. Another one is searched in the next content, and what was found is stored, also
/// where that content is no text; then the search is over, and the log is named. Something has
/// changed where it did before, or where what was found in text is not what was known.
pub proof fn law_logs_are_searched_in_order(
    files: Map<Seq<char>, FileStateView>,
    list: Seq<Seq<char>>,
    path: Seq<char>,
    contents: Seq<Seq<u8>>,
)
    ensures
        ({
            let none = sync::hydrate_paths(files, Seq::empty(), contents);
            let before = sync::hydrate_paths(files, list, contents);
            let after = sync::hydrate_paths(files, list.push(path), contents);
            let known = file_map::entry(before.files, path);
            let found = session_parser::hydrated(known, contents[before.searched as int]);
            &&& none.files == files && none.searched == 0 && !none.dirty && none.unreadable is None
            &&& before.unreadable is Some ==> after == before
            &&& before.unreadable is None ==> if known.cwd is Some && known.cwd->0.len() > 0
                && known.session_id is Some && known.session_id->0.len() > 0 {
                &&& after.files == before.files.insert(path, known)
                &&& after.searched == before.searched
                &&& after.dirty == before.dirty
                &&& after.unreadable is None
            } else {
                &&& after.files == before.files.insert(path, found.state)
                &&& after.searched == before.searched + 1
                &&& found.readable ==> after.unreadable is None && (after.dirty <==> before.dirty
                    || found.state != known)
                &&& !found.readable ==> after.unreadable == Some(path) && after.dirty
                    == before.dirty
            }
        }),
{
    assert(list.push(path).drop_last() =~= list);
}

/// The visit to one more log. Its events come behind those of the logs before it, and its state is
/// stored, also where some of it is no text; then no further log is visited, and it is named.
/// Something has changed where it did before, or where the state is not the one that was known.
pub proof fn law_logs_are_visited_in_order(
    files: Map<Seq<char>, FileStateView>,
    logs: Seq<SnapshotView>,
    log: SnapshotView,
)
    ensures
        ({
            let none = sync::sync_logs(files, Seq::empty());
            let before = sync::sync_logs(files, logs);
            let after = sync::sync_logs(files, logs.push(log));
            let known = file_map::entry(before.files, log.path);
            let visit = session_parser::processed(known, log.content, log.mtime_ns, log.size);
            &&& none.files == files && !none.dirty && none.unreadable is None
            &&& none.events == Seq::<EventView>::empty()
            &&& before.unreadable is Some ==> after == before
            &&& before.unreadable is None ==> {
                &&& after.files == before.files.insert(log.path, visit.state)
                &&& visit.events is Some ==> after.unreadable is None && after.events
                    == before.events + visit.events->0 && (after.dirty <==> before.dirty
                    || visit.state != known)
                &&& visit.events is None ==> after.unreadable == Some(log.path) && after.events
                    == before.events && after.dirty == before.dirty
            }
        }),
{
    assert(logs.push(log).drop_last() =~= logs);
}

} // verus!
