//! The step between parsing and writing, where fields are brought to a
//! canonical form. For now every field passes through as it is.

use crate::config::LogEntry;
use vstd::prelude::*;

verus! {

/// Normalizes the entries of a batch: the same entries, in the same order.
pub fn normalize(entries: Vec<LogEntry>) -> (normalized: Vec<LogEntry>)
    ensures
        normalized@ == entries@,
{
    let mut normalized: Vec<LogEntry> = Vec::with_capacity(entries.len());
    for entry in it: entries
        invariant
            it.seq() == entries@,
            normalized@ == entries@.take(it.index()),
    {
        let mut entry = entry;
        let timestamp = match &entry.timestamp {
            Some(raw) => Some(raw.clone()),
            None => None,
        };
        entry.timestamp = timestamp;
        normalized.push(entry);
        assert(normalized@ =~= entries@.take(it.index() + 1));
    }
    assert(entries@.take(entries@.len() as int) =~= entries@);
    normalized
}

} // verus!
