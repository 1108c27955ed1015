//! The history of moves: newest first, at most `HISTORY_LIMIT` entries,
//! each with an id made of its time and file name; and the decisions of
//! undoing one.
use vstd::prelude::*;
use crate::text::{chars_of, decimal, push_all, push_decimal, same_chars, string_of};

verus! {

broadcast use vstd::string::group_string_axioms;

/// How many entries the history keeps.
pub const HISTORY_LIMIT: usize = 100;

/// One move of a file.
#[derive(Clone, Debug, PartialEq, Eq)]
pub struct HistoryEntry {
    pub id: String,
    pub file_name: String,
    pub original_path: String,
    pub target_path: String,
    pub timestamp: u64,
}

// ---------------------------------------------------------------------------
// Specifications
// ---------------------------------------------------------------------------

/// The id of an entry: the time in decimal, a hyphen, the file name.
pub open spec fn entry_id(timestamp: u64, file_name: Seq<char>) -> Seq<char> {
    decimal(timestamp as nat) + seq!['-'] + file_name
}

/// The history after `entry` is recorded: `entry` first, then the older
/// entries, cut to `HISTORY_LIMIT`.
pub open spec fn with_entry(history: Seq<HistoryEntry>, entry: HistoryEntry) -> Seq<HistoryEntry> {
    let all = seq![entry] + history;
    if all.len() > HISTORY_LIMIT {
        all.take(HISTORY_LIMIT as int)
    } else {
        all
    }
}

/// `entry` records moving `file_name` from `original_path` to
/// `target_path` at `timestamp`.
pub open spec fn records(
    entry: HistoryEntry,
    file_name: Seq<char>,
    original_path: Seq<char>,
    target_path: Seq<char>,
    timestamp: u64,
) -> bool {
    &&& entry.id@ == entry_id(timestamp, file_name)
    &&& entry.file_name@ == file_name
    &&& entry.original_path@ == original_path
    &&& entry.target_path@ == target_path
    &&& entry.timestamp == timestamp
}

/// `index` is the position of the first entry whose id is `id`.
pub open spec fn is_first_with_id(history: Seq<HistoryEntry>, id: Seq<char>, index: int) -> bool {
    &&& 0 <= index < history.len()
    &&& history[index].id@ == id
    &&& forall|j: int| 0 <= j < index ==> (#[trigger] history[j]).id@ != id
}

/// No entry has the id `id`.
pub open spec fn has_no_id(history: Seq<HistoryEntry>, id: Seq<char>) -> bool {
    forall|j: int| 0 <= j < history.len() ==> (#[trigger] history[j]).id@ != id
}

// ---------------------------------------------------------------------------
// Recording
// ---------------------------------------------------------------------------

/// The id of an entry for `file_name` recorded at `timestamp`.
pub fn make_entry_id(timestamp: u64, file_name: &str) -> (id: String)
    ensures
        id@ == entry_id(timestamp, file_name@),
{
    let mut out: Vec<char> = Vec::new();
    push_decimal(&mut out, timestamp);
    out.push('-');
    let name = chars_of(file_name);
    push_all(&mut out, &name);
    assert(out@ =~= entry_id(timestamp, file_name@));
    string_of(&out)
}

impl HistoryEntry {
    /// The entry for moving `file_name` from `original_path` to
    /// `target_path` at `timestamp`.
    pub fn new(file_name: String, original_path: String, target_path: String, timestamp: u64) -> (entry: HistoryEntry)
        ensures
            records(entry, file_name@, original_path@, target_path@, timestamp),
    {
        let id = make_entry_id(timestamp, file_name.as_str());
        HistoryEntry { id, file_name, original_path, target_path, timestamp }
    }

    /// An equal entry.
    pub fn duplicate(&self) -> (e: HistoryEntry)
        ensures
            e == *self,
    {
        HistoryEntry {
            id: self.id.clone(),
            file_name: self.file_name.clone(),
            original_path: self.original_path.clone(),
            target_path: self.target_path.clone(),
            timestamp: self.timestamp,
        }
    }
}

/// Records `entry` as the newest, dropping the oldest beyond the limit.
pub fn record_entry(history: &mut Vec<HistoryEntry>, entry: HistoryEntry)
    ensures
        final(history)@ == with_entry(old(history)@, entry),
{
    history.insert(0, entry);
    history.truncate(HISTORY_LIMIT);
    assert(final(history)@ =~= with_entry(old(history)@, entry));
}

/// Records the move of `file_name` from `original_path` to `target_path`
/// at `timestamp` as the newest entry.
pub fn add_history_entry(
    history: &mut Vec<HistoryEntry>,
    file_name: String,
    original_path: String,
    target_path: String,
    timestamp: u64,
)
    ensures
        final(history)@ == with_entry(old(history)@, final(history)@[0]),
        records(final(history)@[0], file_name@, original_path@, target_path@, timestamp),
{
    let entry = HistoryEntry::new(file_name, original_path, target_path, timestamp);
    record_entry(history, entry);
}

// ---------------------------------------------------------------------------
// Looking up and undoing
// ---------------------------------------------------------------------------

/// The position of the first entry whose id is `id`.
pub fn position_of(history: &[HistoryEntry], id: &str) -> (found: Option<usize>)
    ensures
        match found {
            Some(i) => is_first_with_id(history@, id@, i as int),
            None => has_no_id(history@, id@),
        },
{
    let wanted = chars_of(id);
    let mut i: usize = 0;
    while i < history.len()
        invariant
            i <= history@.len(),
            wanted@ == id@,
            forall|j: int| 0 <= j < i ==> (#[trigger] history@[j]).id@ != id@,
        decreases history.len() - i,
    {
        let have = chars_of(history[i].id.as_str());
        if same_chars(&have, &wanted) {
            return Some(i);
        }
        i = i + 1;
    }
    None
}

/// The first entry whose id is `id`.
pub fn get_entry(history: &[HistoryEntry], id: &str) -> (found: Option<HistoryEntry>)
    ensures
        match found {
            Some(e) => exists|i: int| is_first_with_id(history@, id@, i) && e == history@[i],
            None => has_no_id(history@, id@),
        },
{
    match position_of(history, id) {
        Some(i) => Some(history[i].duplicate()),
        None => None,
    }
}

/// The position of the entry to undo, or the error that `id` names no
/// entry.
pub fn find_undo_index(history: &[HistoryEntry], id: &str) -> (found: Result<usize, String>)
    ensures
        match found {
            Ok(i) => is_first_with_id(history@, id@, i as int),
            Err(msg) => has_no_id(history@, id@) && msg@ == "Entry not found"@,
        },
{
    match position_of(history, id) {
        Some(i) => Ok(i),
        None => Err("Entry not found".to_string()),
    }
}

/// The end of undoing the entry at `index`, once it is known whether the
/// file was still at its target and, if it was, how moving it back went:
/// the entry leaves the history only when the file was moved back.
pub fn undo_entry(
    history: &mut Vec<HistoryEntry>,
    index: usize,
    target_exists: bool,
    move_result: Result<(), String>,
) -> (result: Result<(), String>)
    requires
        index < old(history)@.len(),
    ensures
        !target_exists ==> final(history)@ == old(history)@ && (result matches Err(msg) && msg@
            == "File no longer exists at target location"@),
        target_exists ==> match move_result {
            Ok(()) => final(history)@ == old(history)@.remove(index as int) && result is Ok,
            Err(e) => final(history)@ == old(history)@ && (result matches Err(msg) && msg@
                == "Failed to move file back: "@ + e@),
        },
{
    if !target_exists {
        return Err("File no longer exists at target location".to_string());
    }
    match move_result {
        Ok(()) => {
            history.remove(index);
            Ok(())
        },
        Err(e) => {
            let mut msg = "Failed to move file back: ".to_string();
            msg.append(e.as_str());
            Err(msg)
        },
    }
}


// ---------------------------------------------------------------------------
// Laws
// ---------------------------------------------------------------------------

/// Recording keeps the newest entry first, the older ones after it in
/// their order, and never more than `HISTORY_LIMIT` entries.
pub proof fn lemma_record_shape(history: Seq<HistoryEntry>, entry: HistoryEntry)
    ensures
        with_entry(history, entry).len() <= HISTORY_LIMIT,
        with_entry(history, entry).len() == if history.len() + 1 <= HISTORY_LIMIT {
            history.len() + 1
        } else {
            HISTORY_LIMIT as nat
        },
        with_entry(history, entry)[0] == entry,
        forall|k: int|
            1 <= k < with_entry(history, entry).len() ==> #[trigger] with_entry(history, entry)[k]
                == history[k - 1],
{
}

/// Looking up the id of the entry just recorded finds that entry, first.
pub proof fn lemma_recorded_entry_is_found(history: Seq<HistoryEntry>, entry: HistoryEntry)
    ensures
        is_first_with_id(with_entry(history, entry), entry.id@, 0),
{
}

/// Undoing the newest entry of a history that was below the limit gives
/// back the history as it was before that entry was recorded.
pub proof fn lemma_undo_newest_restores(history: Seq<HistoryEntry>, entry: HistoryEntry)
    requires
        history.len() < HISTORY_LIMIT,
    ensures
        with_entry(history, entry).remove(0) == history,
{
    assert(with_entry(history, entry).remove(0) =~= history);
}

} // verus!
