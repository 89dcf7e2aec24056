//! The structured record that every parser produces.

use vstd::prelude::*;

verus! {

/// One parsed log line. Every field is optional: `None` means that the source
/// line did not give it.
#[derive(Debug, Clone, PartialEq, Eq)]
pub struct LogEntry {
    /// The timestamp as the source wrote it.
    pub timestamp: Option<String>,
    /// The host, client address or module the line came from.
    pub host: Option<String>,
    /// The tag of the parser that produced the entry.
    pub service: Option<String>,
    /// The severity: `info`, `warn` or `error`.
    pub level: Option<String>,
    /// The free text of the line.
    pub message: Option<String>,
}

/// A `LogEntry` as contracts see it: each field as a sequence of characters.
pub struct LogEntryView {
    pub timestamp: Option<Seq<char>>,
    pub host: Option<Seq<char>>,
    pub service: Option<Seq<char>>,
    pub level: Option<Seq<char>>,
    pub message: Option<Seq<char>>,
}

/// The characters of an optional string.
pub open spec fn field_view(field: Option<String>) -> Option<Seq<char>> {
    match field {
        Some(s) => Some(s@),
        None => None,
    }
}

/// The characters of a field, or no characters where the field is absent.
pub open spec fn field_or_empty(field: Option<Seq<char>>) -> Seq<char> {
    match field {
        Some(s) => s,
        None => Seq::empty(),
    }
}

impl View for LogEntry {
    type V = LogEntryView;

    open spec fn view(&self) -> LogEntryView {
        LogEntryView {
            timestamp: field_view(self.timestamp),
            host: field_view(self.host),
            service: field_view(self.service),
            level: field_view(self.level),
            message: field_view(self.message),
        }
    }
}

impl LogEntryView {
    /// The entry in which nothing is known.
    pub open spec fn blank() -> LogEntryView {
        LogEntryView { timestamp: None, host: None, service: None, level: None, message: None }
    }
}

impl Default for LogEntry {
    fn default() -> (entry: LogEntry)
        ensures
            entry@ == LogEntryView::blank(),
    {
        LogEntry { timestamp: None, host: None, service: None, level: None, message: None }
    }
}

/// The view of an entry that may be missing.
pub open spec fn entry_view(entry: Option<LogEntry>) -> Option<LogEntryView> {
    match entry {
        Some(e) => Some(e@),
        None => None,
    }
}

/// The views of a run of entries, in order.
pub open spec fn views(entries: Seq<LogEntry>) -> Seq<LogEntryView> {
    entries.map_values(|e: LogEntry| e@)
}

/// Adding an entry at the end adds its view at the end.
pub proof fn lemma_views_push(entries: Seq<LogEntry>, entry: LogEntry)
    ensures
        views(entries.push(entry)) == views(entries).push(entry@),
{
    assert(views(entries.push(entry)) =~= views(entries).push(entry@));
}

/// The views of two runs, one after the other.
pub proof fn lemma_views_add(a: Seq<LogEntry>, b: Seq<LogEntry>)
    ensures
        views(a + b) == views(a) + views(b),
{
    assert(views(a + b) =~= views(a) + views(b));
}

} // verus!
