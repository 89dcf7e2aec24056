//! The short output of journalctl: `Mon DD HH:MM:SS HOST UNIT[PID]: MESSAGE`.

use crate::config::{entry_view, views, LogEntry, LogEntryView};
use crate::level::{classify_message, level_of_message};
use crate::lines::line_count;
use crate::parsers::scan::{chunk_entries, parse_format};
use crate::parsers::{Format, ParseError};
use crate::text::{
    decode, find_byte, find_either, lemma_find_either, lemma_text_between, scan_byte,
    scan_either, text_in, COLON, OPEN_BRACKET, SPACE,
};
use vstd::prelude::*;
use vstd::string::*;
use vstd::utf8::valid_utf8;

verus! {

/// Lines shorter than this are passed over unread.
pub const MIN_LINE_LEN: usize = 20;

/// The entry that one journalctl line gives.
///
/// The timestamp is the first fifteen bytes. The host starts at byte sixteen
/// and ends at the next space; a line without that space gives nothing. The
/// unit name that follows ends at the first `:` or `[`, and the message is
/// all that stands after that byte. The level is that of the message.
pub open spec fn journal_entry(line: Seq<u8>) -> Option<LogEntryView> {
    let host_end = find_byte(line, 16, SPACE);
    let unit_end = find_either(line, host_end + 1, COLON, OPEN_BRACKET);
    let body = if unit_end + 1 < line.len() {
        line.subrange(unit_end + 1, line.len() as int)
    } else {
        Seq::empty()
    };
    if host_end < line.len() {
        match (
            text_in(line.subrange(0, 15)),
            text_in(line.subrange(16, host_end)),
            text_in(body),
        ) {
            (Some(timestamp), Some(hostname), Some(text)) => Some(
                LogEntryView {
                    timestamp: Some(timestamp),
                    host: Some(hostname),
                    service: Some("journalctl"@),
                    level: Some(level_of_message(body).name()),
                    message: Some(text),
                },
            ),
            _ => None,
        }
    } else {
        None
    }
}

/// Of a line of well-formed text whose timestamp is followed by an ASCII
/// byte, the encoding never costs the entry: the line gives one exactly when
/// a space ends its host.
pub proof fn lemma_journal_entry_of_text(line: Seq<u8>)
    requires
        valid_utf8(line),
        line.len() > 15 ==> line[15] < 128,
    ensures
        journal_entry(line) is Some <==> find_byte(line, 16, SPACE) < line.len(),
{
    let len = line.len() as int;
    let host_end = find_byte(line, 16, SPACE);
    let unit_end = find_either(line, host_end + 1, COLON, OPEN_BRACKET);
    if host_end < len {
        lemma_find_either(line, 16, SPACE, SPACE);
        lemma_find_either(line, host_end + 1, COLON, OPEN_BRACKET);
        lemma_text_between(line, 0, 15);
        lemma_text_between(line, 16, host_end);
        if unit_end + 1 < len {
            lemma_text_between(line, unit_end + 1, len);
        } else {
            assert(valid_utf8(Seq::<u8>::empty()));
        }
    }
}

/// Reads one journalctl line.
pub fn parse_line(line: &[u8]) -> (entry: Option<LogEntry>)
    ensures
        entry_view(entry) == journal_entry(line@),
{
    let len = line.len();
    if len < 16 {
        return None;
    }
    let host_end = scan_byte(line, 16, SPACE);
    if host_end >= len {
        return None;
    }
    let unit_end = scan_either(line, host_end + 1, COLON, OPEN_BRACKET);
    proof {
        lemma_find_either(line@, 16, SPACE, SPACE);
    }
    let body = if len - unit_end > 1 {
        &line[unit_end + 1..len]
    } else {
        &line[0..0]
    };
    let level = classify_message(body);
    let timestamp = match decode(&line[0..15]) {
        Some(s) => s,
        None => { return None; },
    };
    let hostname = match decode(&line[16..host_end]) {
        Some(s) => s,
        None => { return None; },
    };
    let text = match decode(body) {
        Some(s) => s,
        None => { return None; },
    };
    Some(
        LogEntry {
            timestamp: Some(timestamp.to_owned()),
            host: Some(hostname.to_owned()),
            service: Some("journalctl".to_owned()),
            level: Some(level.as_str().to_owned()),
            message: Some(text.to_owned()),
        },
    )
}

/// Parses a journalctl log: the entries of its lines, in the order of the lines.
pub fn parse_journal(input: &str) -> (result: Result<Vec<LogEntry>, ParseError>)
    ensures
        result matches Ok(entries) && views(entries@) == chunk_entries(
            Format::Journalctl,
            input.spec_bytes(),
        ) && entries@.len() <= line_count(input.spec_bytes()),
{
    Ok(parse_format(Format::Journalctl, input.as_bytes()))
}

} // verus!
