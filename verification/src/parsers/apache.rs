//! The Apache combined access log, which has the shape of the nginx one:
//! `ADDRESS - - [TIMESTAMP] "METHOD PATH PROTOCOL" STATUS ...`.

use crate::config::{entry_view, views, LogEntry, LogEntryView};
use crate::lines::line_count;
use crate::parsers::nginx::{access_entry, parse_access_line};
use crate::parsers::scan::{chunk_entries, parse_format};
use crate::parsers::{Format, ParseError};
use vstd::prelude::*;
use vstd::string::*;

verus! {

/// Lines shorter than this are passed over unread.
pub const MIN_LINE_LEN: usize = 20;

/// The entry that one Apache line gives.
pub open spec fn apache_entry(line: Seq<u8>) -> Option<LogEntryView> {
    access_entry(line, "apache"@)
}

/// Reads one Apache access-log line.
pub fn parse_line(line: &[u8]) -> (entry: Option<LogEntry>)
    ensures
        entry_view(entry) == apache_entry(line@),
{
    parse_access_line(line, "apache")
}

/// Parses a Apache access log: the entries of its lines, in the order of the lines.
pub fn parse_apache(input: &str) -> (result: Result<Vec<LogEntry>, ParseError>)
    ensures
        result matches Ok(entries) && views(entries@) == chunk_entries(
            Format::Apache,
            input.spec_bytes(),
        ) && entries@.len() <= line_count(input.spec_bytes()),
{
    Ok(parse_format(Format::Apache, input.as_bytes()))
}

} // verus!
