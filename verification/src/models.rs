//! The data that the watcher keeps and the events that it emits.
use vstd::prelude::*;

use crate::file_map::FileMap;
use crate::text;

verus! {

/// One approval prompt found in a session log.
#[derive(Debug)]
pub struct ApprovalEvent {
    pub event: &'static str,
    pub session_id: String,
    pub cwd: String,
    pub timestamp: String,
    pub message: String,
    pub command: String,
}

/// What an `ApprovalEvent` says, as text.
#[verifier::ext_equal]
pub struct EventView {
    pub event: Seq<char>,
    pub session_id: Seq<char>,
    pub cwd: Seq<char>,
    pub timestamp: Seq<char>,
    pub message: Seq<char>,
    pub command: Seq<char>,
}

impl View for ApprovalEvent {
    type V = EventView;

    open spec fn view(&self) -> EventView {
        EventView {
            event: self.event@,
            session_id: self.session_id@,
            cwd: self.cwd@,
            timestamp: self.timestamp@,
            message: self.message@,
            command: self.command@,
        }
    }
}

/// What is remembered of one session log.
#[derive(Debug, PartialEq, Eq)]
pub struct FileState {
    pub offset: u64,
    pub cwd: Option<String>,
    pub mtime_ns: u64,
    pub session_id: Option<String>,
    pub seen_calls: Vec<String>,
    pub size: u64,
}

/// What a `FileState` holds, as text and numbers.
#[verifier::ext_equal]
pub struct FileStateView {
    pub offset: u64,
    pub cwd: Option<Seq<char>>,
    pub mtime_ns: u64,
    pub session_id: Option<Seq<char>>,
    pub seen_calls: Seq<Seq<char>>,
    pub size: u64,
}

impl View for FileState {
    type V = FileStateView;

    open spec fn view(&self) -> FileStateView {
        FileStateView {
            offset: self.offset,
            cwd: text::optional_text(self.cwd),
            mtime_ns: self.mtime_ns,
            session_id: text::optional_text(self.session_id),
            seen_calls: text::texts(self.seen_calls@),
            size: self.size,
        }
    }
}

impl FileStateView {
    /// Nothing is known of the log yet.
    pub open spec fn fresh() -> FileStateView {
        FileStateView {
            offset: 0,
            cwd: None,
            mtime_ns: 0,
            session_id: None,
            seen_calls: Seq::empty(),
            size: 0,
        }
    }

    /// The working directory or the session id is not known; an empty one counts as not known.
    pub open spec fn metadata_missing(self) -> bool {
        !is_known(self.cwd) || !is_known(self.session_id)
    }
}

/// A piece of metadata is known when it is there and not empty.
pub open spec fn is_known(value: Option<Seq<char>>) -> bool {
    value matches Some(text) && text.len() > 0
}

impl Default for FileState {
    fn default() -> (state: Self)
        ensures
            state@ == FileStateView::fresh(),
    {
        let state = FileState {
            offset: 0,
            cwd: None,
            mtime_ns: 0,
            session_id: None,
            seen_calls: Vec::new(),
            size: 0,
        };
        assert(state@ =~= FileStateView::fresh());
        state
    }
}

impl Clone for FileState {
    fn clone(&self) -> (copy: Self)
        ensures
            copy@ == self@,
    {
        let copy = FileState {
            offset: self.offset,
            cwd: self.cwd.clone(),
            mtime_ns: self.mtime_ns,
            session_id: self.session_id.clone(),
            seen_calls: text::copy_list(&self.seen_calls),
            size: self.size,
        };
        assert(copy@ =~= self@);
        copy
    }
}

impl Clone for ApprovalEvent {
    fn clone(&self) -> (copy: Self)
        ensures
            copy@ == self@,
    {
        ApprovalEvent {
            event: self.event,
            session_id: self.session_id.clone(),
            cwd: self.cwd.clone(),
            timestamp: self.timestamp.clone(),
            message: self.message.clone(),
            command: self.command.clone(),
        }
    }
}

/// Whether a piece of metadata is known.
pub fn known(value: &Option<String>) -> (result: bool)
    ensures
        result == is_known(text::optional_text(*value)),
{
    match value {
        Some(text) => !text.as_str().is_empty(),
        None => false,
    }
}

impl FileState {
    /// Whether the working directory or the session id is still missing.
    pub fn metadata_missing(&self) -> (missing: bool)
        ensures
            missing == self@.metadata_missing(),
    {
        !known(&self.cwd) || !known(&self.session_id)
    }

    /// Whether two states hold the same.
    pub fn same_as(&self, other: &FileState) -> (same: bool)
        ensures
            same == (self@ == other@),
    {
        self.offset == other.offset && self.mtime_ns == other.mtime_ns && self.size == other.size
            && text::same_optional(&self.cwd, &other.cwd) && text::same_optional(
            &self.session_id,
            &other.session_id,
        ) && text::same_list(&self.seen_calls, &other.seen_calls)
    }
}

/// What the watcher remembers from one run to the next: whether it has ever looked at the logs, and
/// what it knows of each.
#[derive(Debug)]
pub struct PersistedState {
    pub initialized: bool,
    pub files: FileMap,
}

/// What a `PersistedState` holds.
#[verifier::ext_equal]
pub struct StateView {
    pub initialized: bool,
    pub files: Map<Seq<char>, FileStateView>,
}

impl View for PersistedState {
    type V = StateView;

    open spec fn view(&self) -> StateView {
        StateView { initialized: self.initialized, files: self.files@ }
    }
}

impl StateView {
    /// No log was ever looked at.
    pub open spec fn blank() -> StateView {
        StateView { initialized: false, files: Map::empty() }
    }
}

impl Clone for PersistedState {
    fn clone(&self) -> (copy: Self)
        ensures
            copy@ == self@,
    {
        PersistedState { initialized: self.initialized, files: self.files.clone() }
    }
}

impl Default for PersistedState {
    fn default() -> (state: Self)
        ensures
            state@ == StateView::blank(),
    {
        PersistedState { initialized: false, files: FileMap::new() }
    }
}

} // verus!
