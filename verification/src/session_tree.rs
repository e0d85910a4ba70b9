//! The session logs that are there, and which of them are watched and read again.
use vstd::prelude::*;
use vstd::utf8;

use crate::distinct;
use crate::order;
use crate::order::{Order, Ranked};
use crate::paths;
use crate::session_parser;
use crate::text;

verus! {

/// How many logs are watched at once.
pub const MAX_WATCHED_SESSION_FILES: usize = 16;

/// How many recent sessions are kept from the session index.
pub const MAX_RECENT_SESSION_IDS: usize = 64;

/// How many characters a session id has.
pub const SESSION_ID_LENGTH: usize = 36;

/// A session log: its path, the session that its name tells, its time and its size.
#[derive(Debug)]
pub struct SessionFile {
    pub path: String,
    pub session_id: Option<String>,
    pub mtime_ns: u64,
    pub size: u64,
}

/// What a `SessionFile` holds, as text and numbers.
pub struct SessionFileView {
    pub path: Seq<char>,
    pub session_id: Option<Seq<char>>,
    pub mtime_ns: u64,
    pub size: u64,
}

impl View for SessionFile {
    type V = SessionFileView;

    open spec fn view(&self) -> SessionFileView {
        SessionFileView {
            path: self.path@,
            session_id: text::optional_text(self.session_id),
            mtime_ns: self.mtime_ns,
            size: self.size,
        }
    }
}

impl Clone for SessionFile {
    fn clone(&self) -> (copy: Self)
        ensures
            copy@ == self@,
    {
        SessionFile {
            path: self.path.clone(),
            session_id: self.session_id.clone(),
            mtime_ns: self.mtime_ns,
            size: self.size,
        }
    }
}

/// The session logs that are there.
#[derive(Debug)]
pub struct SessionTree {
    pub files: Vec<SessionFile>,
}

/// What each of a list of logs holds.
pub open spec fn file_views(files: Seq<SessionFile>) -> Seq<SessionFileView> {
    files.map_values(|file: SessionFile| file@)
}

impl View for SessionTree {
    type V = Seq<SessionFileView>;

    open spec fn view(&self) -> Seq<SessionFileView> {
        file_views(self.files@)
    }
}

/// The paths of a list of logs.
pub open spec fn file_paths(files: Seq<SessionFileView>) -> Seq<Seq<char>> {
    files.map_values(|file: SessionFileView| file.path)
}

impl Default for SessionTree {
    fn default() -> (tree: Self)
        ensures
            tree@ == Seq::<SessionFileView>::empty(),
    {
        let tree = SessionTree { files: Vec::new() };
        assert(tree@ =~= Seq::empty());
        tree
    }
}

/// Whether what was found below the sessions directory is a session log.
pub fn is_session_file(is_file: bool, path: &str) -> (result: bool)
    ensures
        result == (is_file && paths::extension_of(path@) == Some("jsonl"@)),
{
    is_file && text::holds_text(&paths::extension(path), "jsonl")
}

/// The places of a session id that hold a dash.
pub open spec fn is_dash_place(index: int) -> bool {
    index == 8 || index == 13 || index == 18 || index == 23
}

/// The hexadecimal digits of ASCII.
pub open spec fn is_hex_digit(ch: char) -> bool {
    '0' <= ch <= '9' || 'a' <= ch <= 'f' || 'A' <= ch <= 'F'
}

/// A session id: hexadecimal digits, with dashes in their places.
pub open spec fn is_session_id(value: Seq<char>) -> bool {
    &&& value.len() == SESSION_ID_LENGTH
    &&& forall|i: int|
        #![trigger value[i]]
        0 <= i < value.len() ==> if is_dash_place(i) {
            value[i] == '-'
        } else {
            is_hex_digit(value[i])
        }
}

/// Whether a text has the form of a session id.
pub fn looks_like_session_id(value: &str) -> (result: bool)
    ensures
        result == is_session_id(value@),
{
    let chars = text::characters(value);
    if chars.len() != SESSION_ID_LENGTH {
        return false;
    }
    let mut i: usize = 0;
    while i < chars.len()
        invariant
            i <= chars@.len(),
            chars@ == value@,
            forall|j: int|
                #![trigger chars@[j]]
                0 <= j < i ==> if is_dash_place(j) {
                    chars@[j] == '-'
                } else {
                    is_hex_digit(chars@[j])
                },
        decreases chars@.len() - i,
    {
        let ch: char = chars[i];
        let fits = if i == 8 || i == 13 || i == 18 || i == 23 {
            ch == '-'
        } else {
            ('0' <= ch && ch <= '9') || ('a' <= ch && ch <= 'f') || ('A' <= ch && ch <= 'F')
        };
        if !fits {
            assert(value@[i as int] == ch);
            return false;
        }
        i += 1;
    }
    true
}

/// The last bytes of a text, as many as a session id has, start at a character; a text that has
/// fewer bytes is not cut at all.
pub open spec fn can_be_cut(stem: Seq<char>) -> bool {
    let bytes = utf8::encode_utf8(stem);
    bytes.len() >= SESSION_ID_LENGTH ==> utf8::is_char_boundary(
        bytes,
        bytes.len() - SESSION_ID_LENGTH,
    )
}

/// The stem of a path's file name, if there is one, can be cut before its last bytes.
pub open spec fn stem_can_be_cut(path: Seq<char>) -> bool {
    paths::file_stem_of(path) matches Some(stem) ==> can_be_cut(stem)
}

/// The session id at the end of a log's name.
pub open spec fn rollout_session_id(path: Seq<char>) -> Option<Seq<char>> {
    match paths::file_stem_of(path) {
        Some(stem) => {
            let bytes = utf8::encode_utf8(stem);
            let candidate = utf8::decode_utf8(bytes.skip(bytes.len() - SESSION_ID_LENGTH));
            if bytes.len() >= SESSION_ID_LENGTH && is_session_id(candidate) {
                Some(candidate)
            } else {
                None
            }
        },
        None => None,
    }
}

/// Whether the stem of a path's file name can be cut before its last bytes.
pub fn stem_is_cuttable(path: &str) -> (result: bool)
    ensures
        result == stem_can_be_cut(path@),
{
    match paths::file_stem(path) {
        Some(stem) => {
            let length: usize = stem.as_str().as_bytes().len();
            length < SESSION_ID_LENGTH || stem.as_str().is_char_boundary(length - SESSION_ID_LENGTH)
        },
        None => true,
    }
}

/// The session that a log's name tells: the session id that the stem of the name ends in.
pub fn session_id_from_rollout_path(path: &str) -> (session_id: Option<String>)
    requires
        stem_can_be_cut(path@),
    ensures
        text::optional_text(session_id) == rollout_session_id(path@),
{
    let stem = match paths::file_stem(path) {
        Some(stem) => stem,
        None => {
            return None;
        },
    };
    let length: usize = stem.as_str().as_bytes().len();
    if length < SESSION_ID_LENGTH {
        return None;
    }
    let (_, candidate) = stem.as_str().split_at(length - SESSION_ID_LENGTH);
    proof {
        let bytes = utf8::encode_utf8(stem@);
        assert(utf8::encode_utf8(candidate@) =~= bytes.skip(length - SESSION_ID_LENGTH));
        utf8::encode_utf8_decode_utf8(candidate@);
    }
    if looks_like_session_id(candidate) {
        Some(candidate.to_string())
    } else {
        None
    }
}

/// A session log that was found: the session that its name tells, and the time and size by which a
/// change of it is noticed.
pub fn session_file(path: String, modified_ns: Option<u128>, size: u64) -> (file: SessionFile)
    requires
        stem_can_be_cut(path@),
    ensures
        file@ == (SessionFileView {
            path: path@,
            session_id: rollout_session_id(path@),
            mtime_ns: match modified_ns {
                Some(nanos) => (nanos % 0x1_0000_0000_0000_0000) as u64,
                None => 0,
            },
            size,
        }),
{
    let session_id = session_id_from_rollout_path(path.as_str());
    let (mtime_ns, size) = session_parser::current_file_signature(modified_ns, size);
    SessionFile { path, session_id, mtime_ns, size }
}

/// The bytes of a text that was put together from two.
pub proof fn lemma_encoding_of_two(a: Seq<char>, b: Seq<char>)
    ensures
        utf8::encode_utf8(a + b) == utf8::encode_utf8(a) + utf8::encode_utf8(b),
    decreases a.len(),
{
    if a.len() == 0 {
        assert(a + b =~= b);
        assert(utf8::encode_utf8(a) + utf8::encode_utf8(b) =~= utf8::encode_utf8(b));
    } else {
        lemma_encoding_of_two(a.drop_first(), b);
        assert((a + b).drop_first() =~= a.drop_first() + b);
        assert(utf8::encode_utf8(a + b) =~= utf8::encode_utf8(a) + utf8::encode_utf8(b));
    }
}

/// An ASCII character has one byte.
proof fn lemma_ascii_width(ch: char)
    requires
        ch < '\u{80}',
    ensures
        utf8::encode_scalar(ch as u32).len() == 1,
{
}

/// A text of ASCII characters has as many bytes as characters.
proof fn lemma_ascii_length(s: Seq<char>)
    requires
        forall|i: int| 0 <= i < s.len() ==> #[trigger] s[i] < '\u{80}',
    ensures
        utf8::encode_utf8(s).len() == s.len(),
    decreases s.len(),
{
    if s.len() > 0 {
        assert(s[0] < '\u{80}');
        assert forall|i: int| 0 <= i < s.drop_first().len() implies #[trigger] s.drop_first()[i]
            < '\u{80}' by {
            assert(s.drop_first()[i] == s[i + 1]);
        }
        lemma_ascii_length(s.drop_first());
        lemma_ascii_width(s[0]);
    }
}

/// A log whose name is some text, a session id and an extension belongs to that session.
pub proof fn law_rollout_name_tells_its_session(
    path: Seq<char>,
    prefix: Seq<char>,
    session_id: Seq<char>,
)
    requires
        is_session_id(session_id),
        paths::file_stem_of(path) == Some(prefix + session_id),
    ensures
        stem_can_be_cut(path),
        rollout_session_id(path) == Some(session_id),
{
    let bytes = utf8::encode_utf8(prefix + session_id);
    let head = utf8::encode_utf8(prefix);
    let tail = utf8::encode_utf8(session_id);
    lemma_encoding_of_two(prefix, session_id);
    assert forall|i: int| 0 <= i < session_id.len() implies #[trigger] session_id[i] < '\u{80}' by {
        assert(is_dash_place(i) || is_hex_digit(session_id[i]));
    }
    lemma_ascii_length(session_id);
    assert(bytes.skip(bytes.len() - SESSION_ID_LENGTH) =~= tail);
    utf8::encode_utf8_decode_utf8(session_id);
    lemma_boundary_between(prefix, session_id);
}

/// Two texts that are put together meet at the start of a character.
pub proof fn lemma_boundary_between(a: Seq<char>, b: Seq<char>)
    ensures
        utf8::is_char_boundary(utf8::encode_utf8(a + b), utf8::encode_utf8(a).len() as int),
    decreases a.len(),
{
    utf8::encode_utf8_valid_utf8(a + b);
    if a.len() > 0 {
        let all = a + b;
        let bytes = utf8::encode_utf8(all);
        lemma_boundary_between(a.drop_first(), b);
        assert(all.drop_first() =~= a.drop_first() + b);
        lemma_encoding_of_two(a, b);
        utf8::encode_utf8_first_scalar(all);
        assert(utf8::pop_first_scalar(bytes) =~= utf8::encode_utf8(all.drop_first()));
    }
}

impl Ranked for SessionFile {
    type Key = Seq<char>;

    open spec fn key(self) -> Seq<char> {
        self.path@
    }

    open spec fn ranking() -> spec_fn(Seq<char>, Seq<char>) -> Order {
        paths::by_path()
    }

    proof fn lemma_ranking() {
        paths::lemma_path_order();
    }

    fn order_with(&self, other: &Self) -> Order {
        paths::order_paths(self.path.as_str(), other.path.as_str())
    }
}

/// The items at the given places.
pub open spec fn arranged<T>(items: Seq<T>, places: Seq<int>) -> Seq<T> {
    places.map_values(|place: int| items[place])
}

/// Logs in the order of their paths; logs with the same path stay in the order in which they are.
pub open spec fn in_path_order(files: Seq<SessionFileView>) -> Seq<SessionFileView> {
    arranged(files, order::sorted_positions(file_paths(files), paths::by_path()))
}

/// The tree of the logs that were found, in the order of their paths.
pub fn session_tree(files: &Vec<SessionFile>) -> (tree: SessionTree)
    ensures
        tree@ == in_path_order(file_views(files@)),
{
    let places = order::sort_positions(files);
    let mut sorted: Vec<SessionFile> = Vec::new();
    let mut i: usize = 0;
    while i < places.len()
        invariant
            i <= places@.len(),
            sorted@.len() == i,
            forall|a: int| #![trigger places@[a]] 0 <= a < places@.len() ==> places@[a] < files@.len(),
            forall|a: int| 0 <= a < i ==> (#[trigger] sorted@[a])@ == files@[places@[a] as int]@,
        decreases places@.len() - i,
    {
        sorted.push(files[places[i]].clone());
        i += 1;
    }
    let tree = SessionTree { files: sorted };
    proof {
        assert(order::keys_of(files@) =~= file_paths(file_views(files@)));
        let positions = order::sorted_positions(
            file_paths(file_views(files@)),
            paths::by_path(),
        );
        assert forall|a: int| 0 <= a < places@.len() implies #[trigger] positions[a]
            == places@[a] by {
            assert(places@.map_values(|position: usize| position as int)[a] == places@[a]);
        }
        assert(positions.len() == places@.len());
        assert(tree@ =~= in_path_order(file_views(files@)));
    }
    tree
}

/// Putting logs in the order of their paths loses none, adds none and repeats none, and leaves no
/// two the wrong way round.
pub proof fn law_tree_is_in_path_order(files: Seq<SessionFileView>)
    ensures
        ({
            let sorted = in_path_order(files);
            &&& sorted.to_multiset() == files.to_multiset()
            &&& forall|i: int, j: int|
                #![trigger sorted[i], sorted[j]]
                0 <= i < j < sorted.len() ==> paths::path_order(sorted[i].path, sorted[j].path)
                    != Order::Greater
        }),
{
    let keys = file_paths(files);
    let rank = paths::by_path();
    let places = order::sorted_positions(keys, rank);
    let sorted = in_path_order(files);
    paths::lemma_path_order();
    order::lemma_sorted_positions(keys, rank);
    assert forall|i: int, j: int|
        #![trigger sorted[i], sorted[j]]
        0 <= i < j < sorted.len() implies paths::path_order(sorted[i].path, sorted[j].path)
        != Order::Greater by {
        assert(order::position_order(keys, rank)(places[i], places[j]));
        assert(rank(keys[places[i]], keys[places[j]]) != Order::Greater);
    }
    order::lemma_arranging_keeps_items(files, places);
}

/// The name of the session index.
pub open spec fn index_name() -> Seq<char> {
    "session_index.jsonl"@
}

/// Where the session index is: beside the sessions directory.
pub fn session_index_path(sessions_root: &str) -> (path: String)
    ensures
        path@ == (match paths::parent_of(sessions_root@) {
            Some(parent) => paths::joined(parent, index_name()),
            None => index_name(),
        }),
{
    match paths::parent(sessions_root) {
        Some(parent) => paths::join(parent.as_str(), "session_index.jsonl"),
        None => "session_index.jsonl".to_string(),
    }
}

/// The ids of a list of entries, in order; an entry without one counts for nothing.
pub open spec fn known_ids(entries: Seq<Option<Seq<char>>>) -> Seq<Seq<char>>
    decreases entries.len(),
{
    if entries.len() == 0 {
        Seq::empty()
    } else {
        let before = known_ids(entries.drop_last());
        match entries.last() {
            Some(id) => before.push(id),
            None => before,
        }
    }
}

/// The texts of a list of optional strings.
pub open spec fn optional_texts(entries: Seq<Option<String>>) -> Seq<Option<Seq<char>>> {
    entries.map_values(|entry: Option<String>| text::optional_text(entry))
}

/// The sessions that an index names, the latest first, each once.
pub open spec fn recent_ids(entries: Seq<Option<Seq<char>>>) -> Seq<Seq<char>> {
    distinct::first_distinct(known_ids(entries.reverse()), MAX_RECENT_SESSION_IDS as nat)
}

/// The lines of a session index.
pub fn session_index_lines(raw: &str) -> (lines: Vec<String>)
    ensures
        text::texts(lines@) == text::lines_of(raw@),
{
    text::lines(raw)
}

/// The sessions that an index names, the latest first, each once, and no more than the limit. Each
/// line of the index, in order, comes as the id that it holds, or as nothing where it holds none.
pub fn recent_session_ids(entries: &Vec<Option<String>>) -> (ids: Vec<String>)
    ensures
        text::texts(ids@) == recent_ids(optional_texts(entries@)),
{
    let mut ids: Vec<String> = Vec::new();
    let ghost all = optional_texts(entries@).reverse();
    let limit: usize = MAX_RECENT_SESSION_IDS;
    let mut i: usize = 0;
    assert(text::texts(ids@) =~= Seq::empty());
    assert(all.take(0) =~= Seq::empty());
    while i < entries.len()
        invariant
            i <= entries@.len(),
            limit == MAX_RECENT_SESSION_IDS,
            all == optional_texts(entries@).reverse(),
            text::texts(ids@) == distinct::first_distinct(
                known_ids(all.take(i as int)),
                limit as nat,
            ),
        decreases entries@.len() - i,
    {
        let place: usize = entries.len() - 1 - i;
        proof {
            assert(all[i as int] == text::optional_text(entries@[place as int]));
            assert(all.take(i + 1).drop_last() =~= all.take(i as int));
            let before = known_ids(all.take(i as int));
            match all[i as int] {
                Some(id) => {
                    assert(before.push(id).drop_last() =~= before);
                },
                None => {},
            }
        }
        match &entries[place] {
            Some(id) => {
                distinct::push_distinct(&mut ids, id.as_str(), limit);
            },
            None => {},
        }
        i += 1;
    }
    assert(all.take(i as int) =~= all);
    ids
}

} // verus!
