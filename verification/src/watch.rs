//! File watches: which changes of a file are watched for, and what a wake-up of the kernel queue
//! means.
use std::collections::BTreeMap;
use vstd::prelude::*;

use crate::text;

verus! {

/// The file was deleted.
pub const NOTE_DELETE: u32 = 0x01;

/// The file was written to.
pub const NOTE_WRITE: u32 = 0x02;

/// The file has grown.
pub const NOTE_EXTEND: u32 = 0x04;

/// The attributes of the file changed.
pub const NOTE_ATTRIB: u32 = 0x08;

/// The file was renamed.
pub const NOTE_RENAME: u32 = 0x20;

/// Access to the file was revoked.
pub const NOTE_REVOKE: u32 = 0x40;

/// The flag of a queue entry that carries an error.
pub const EV_ERROR: u16 = 0x4000;

/// The error number of a call that a signal interrupted.
pub const EINTR: i32 = 4;

/// The changes of a file that are watched for.
pub fn vnode_watch_flags() -> (flags: u32)
    ensures
        flags == NOTE_WRITE | NOTE_EXTEND | NOTE_ATTRIB | NOTE_RENAME | NOTE_DELETE | NOTE_REVOKE,
        flags == 0x6f,
{
    assert(0x02u32 | 0x04u32 | 0x08u32 | 0x20u32 | 0x01u32 | 0x40u32 == 0x6fu32) by (bit_vector);
    NOTE_WRITE | NOTE_EXTEND | NOTE_ATTRIB | NOTE_RENAME | NOTE_DELETE | NOTE_REVOKE
}

/// The identity of an open file in the queue: its descriptor, where that is one.
pub fn watch_ident(descriptor: i32) -> (ident: Option<usize>)
    ensures
        ident is Some <==> descriptor >= 0,
        ident matches Some(value) ==> value == descriptor,
{
    if descriptor >= 0 {
        Some(descriptor as usize)
    } else {
        None
    }
}

/// A time to wait, as whole seconds and the nanoseconds beyond them.
pub fn poll_timeout(timeout_ms: u64) -> (timeout: (i64, i64))
    ensures
        timeout.0 * 1_000 + timeout.1 / 1_000_000 == timeout_ms,
        timeout.0 >= 0,
        0 <= timeout.1 < 1_000_000_000,
        timeout.1 % 1_000_000 == 0,
{
    let seconds: i64 = (timeout_ms / 1_000) as i64;
    let nanos: i64 = ((timeout_ms % 1_000) * 1_000_000) as i64;
    (seconds, nanos)
}

/// What the queue gave back: how many entries, the error number where that is none at all, and the
/// entry.
#[derive(Debug)]
pub struct QueueReturn {
    pub count: i32,
    pub errno: Option<i32>,
    pub flags: u16,
    pub data: i64,
    pub ident: u64,
}

/// Why the queue could not be read.
#[derive(Debug, Clone, Copy, PartialEq, Eq, Structural)]
pub enum PollError {
    /// The call failed.
    Failed,
    /// The entry carries an error.
    ErrorEvent { errno: i32 },
    /// The error of an entry is no error number.
    ErrorCodeOutOfRange,
    /// The identity of an entry is no descriptor.
    DescriptorOutOfRange,
}

impl PollError {
    /// What went wrong, in words.
    pub open spec fn words(self) -> Seq<char> {
        match self {
            PollError::Failed => "failed to poll kqueue watcher"@,
            PollError::ErrorEvent { .. } => "kqueue delivered an error event"@,
            PollError::ErrorCodeOutOfRange => "kqueue error code out of range"@,
            PollError::DescriptorOutOfRange => "watched file descriptor out of range"@,
        }
    }

    /// What went wrong, in words.
    pub fn message(&self) -> (message: String)
        ensures
            message@ == self.words(),
    {
        match self {
            PollError::Failed => "failed to poll kqueue watcher".to_string(),
            PollError::ErrorEvent { .. } => "kqueue delivered an error event".to_string(),
            PollError::ErrorCodeOutOfRange => "kqueue error code out of range".to_string(),
            PollError::DescriptorOutOfRange => "watched file descriptor out of range".to_string(),
        }
    }
}

/// What a wake-up of the queue means: the path of the file that changed, nothing, or an error.
pub open spec fn poll_meaning(
    returned: QueueReturn,
    paths: Map<i32, String>,
) -> Result<Option<Seq<char>>, PollError> {
    if returned.count == -1 {
        if returned.errno == Some(EINTR) {
            Ok(None)
        } else {
            Err(PollError::Failed)
        }
    } else if returned.count == 0 {
        Ok(None)
    } else if returned.flags & EV_ERROR != 0 && !(i32::MIN <= returned.data <= i32::MAX) {
        Err(PollError::ErrorCodeOutOfRange)
    } else if returned.flags & EV_ERROR != 0 && returned.data != 0 {
        Err(PollError::ErrorEvent { errno: returned.data as i32 })
    } else if returned.ident > i32::MAX {
        Err(PollError::DescriptorOutOfRange)
    } else if paths.contains_key(returned.ident as i32) {
        Ok(Some(paths[returned.ident as i32]@))
    } else {
        Ok(None)
    }
}

/// The watched files by their descriptors.
#[derive(Debug)]
pub struct WatchTable {
    pub paths_by_fd: BTreeMap<i32, String>,
}

impl WatchTable {
    /// A table of no files.
    pub fn new() -> (table: Self)
        ensures
            table.paths_by_fd@ == Map::<i32, String>::empty(),
    {
        WatchTable { paths_by_fd: BTreeMap::new() }
    }

    /// Adds a file under its descriptor.
    pub fn add_path(&mut self, descriptor: i32, path: String)
        ensures
            final(self).paths_by_fd@ == old(self).paths_by_fd@.insert(descriptor, path),
    {
        self.paths_by_fd.insert(descriptor, path);
    }

    /// Tells what a wake-up of the queue means. A call that a signal interrupted, and an entry of
    /// a file that is not in the table, mean nothing.
    pub fn poll_path(&self, returned: &QueueReturn) -> (result: Result<Option<String>, PollError>)
        ensures
            match result {
                Ok(path) => poll_meaning(*returned, self.paths_by_fd@) == Ok::<
                    Option<Seq<char>>,
                    PollError,
                >(text::optional_text(path)),
                Err(error) => poll_meaning(*returned, self.paths_by_fd@) == Err::<
                    Option<Seq<char>>,
                    PollError,
                >(error),
            },
    {
        if returned.count == -1 {
            return match returned.errno {
                Some(errno) => if errno == EINTR {
                    Ok(None)
                } else {
                    Err(PollError::Failed)
                },
                None => Err(PollError::Failed),
            };
        }
        if returned.count == 0 {
            return Ok(None);
        }
        if returned.flags & EV_ERROR != 0 {
            if returned.data < i32::MIN as i64 || returned.data > i32::MAX as i64 {
                return Err(PollError::ErrorCodeOutOfRange);
            }
            if returned.data != 0 {
                return Err(PollError::ErrorEvent { errno: returned.data as i32 });
            }
        }
        if returned.ident > i32::MAX as u64 {
            return Err(PollError::DescriptorOutOfRange);
        }
        Ok(self.path_of(returned.ident as i32))
    }

    /// The path of the file with a descriptor.
    fn path_of(&self, descriptor: i32) -> (path: Option<String>)
        ensures
            text::optional_text(path) == if self.paths_by_fd@.contains_key(descriptor) {
                Some(self.paths_by_fd@[descriptor]@)
            } else {
                None
            },
    {
        match self.paths_by_fd.get(&descriptor) {
            Some(path) => Some(path.clone()),
            None => None,
        }
    }
}

} // verus!
