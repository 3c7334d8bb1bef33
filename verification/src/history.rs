//! The calculation history's bookkeeping: the entry record, the manager's
//! configuration, and the capacity rule. Reading and writing the backing
//! file is the host's business; the rule of what the file may hold - at
//! most `max_entries` entries, the oldest dropped first - is decided here.

use vstd::prelude::*;

verus! {

/// One recorded calculation: the expression, its result as the host rendered
/// it, and a timestamp the host supplied.
#[derive(Debug, PartialEq)]
pub struct HistoryEntry {
    pub expression: String,
    pub result: String,
    pub timestamp: String,
}

/// The manager of a history file: where it lives and how many entries it
/// may hold.
pub struct HistoryManager {
    file_path: String,
    max_entries: usize,
}

/// A history with `entry` appended, trimmed to the capacity `max`: when the
/// append overflows, the oldest entry is dropped.
pub open spec fn spec_push_trimmed(h: Seq<HistoryEntry>, entry: HistoryEntry, max: int) -> Seq<
    HistoryEntry,
> {
    let h2 = h.push(entry);
    if h2.len() > max {
        h2.subrange(1, h2.len() as int)
    } else {
        h2
    }
}

impl HistoryManager {
    /// A manager of the history file at `file_path`, holding at most
    /// `max_entries` entries.
    pub fn new(file_path: &str, max_entries: usize) -> (m: HistoryManager)
        ensures
            m.spec_file_path() == file_path@,
            m.spec_max_entries() == max_entries,
    {
        HistoryManager { file_path: file_path.to_owned(), max_entries }
    }

    /// The path of the backing file.
    pub closed spec fn spec_file_path(&self) -> Seq<char> {
        self.file_path@
    }

    /// The capacity.
    pub closed spec fn spec_max_entries(&self) -> usize {
        self.max_entries
    }

    /// The path of the backing file, for the host to read and write.
    pub fn file_path(&self) -> (r: &str)
        ensures
            r@ == self.spec_file_path(),
    {
        self.file_path.as_str()
    }

    /// The capacity.
    pub fn max_entries(&self) -> (r: usize)
        ensures
            r == self.spec_max_entries(),
    {
        self.max_entries
    }

    /// An independent manager of the same file with the same capacity.
    pub fn clone_manager(&self) -> (m: HistoryManager)
        ensures
            m.spec_file_path() == self.spec_file_path(),
            m.spec_max_entries() == self.spec_max_entries(),
    {
        HistoryManager { file_path: self.file_path.clone(), max_entries: self.max_entries }
    }

    /// Appends `entry` to a loaded history and trims it to the capacity:
    /// exactly [`spec_push_trimmed`].
    pub fn push_entry(&self, history: Vec<HistoryEntry>, entry: HistoryEntry) -> (r: Vec<
        HistoryEntry,
    >)
        ensures
            r@ == spec_push_trimmed(history@, entry, self.spec_max_entries() as int),
    {
        let mut h = history;
        h.push(entry);
        if h.len() > self.max_entries {
            h.remove(0);
        }
        h
    }
}

} // verus!