//! Classic syslog: `<PRI>Mon DD HH:MM:SS HOST APP: MESSAGE`, the priority
//! being optional.

use crate::config::{entry_view, views, LogEntry, LogEntryView};
use crate::level::{classify_message, level_of_message};
use crate::lines::line_count;
use crate::parsers::scan::{chunk_entries, parse_format};
use crate::parsers::{Format, ParseError};
use crate::text::{
    decode, find_byte, lemma_find_either, lemma_text_between, scan_byte, text_in, COLON,
    GREATER_THAN, LESS_THAN, SPACE,
};
use vstd::prelude::*;
use vstd::string::*;
use vstd::utf8::valid_utf8;

verus! {

/// Lines shorter than this are passed over unread.
pub const MIN_LINE_LEN: usize = 15;

/// Where the timestamp of a syslog line starts: after the `>` that closes a
/// leading `<priority>`, or at the start where the line has no priority.
pub open spec fn timestamp_start(line: Seq<u8>) -> int {
    if line.len() > 0 && line[0] == LESS_THAN {
        find_byte(line, 0, GREATER_THAN) + 1
    } else {
        0
    }
}

/// The entry that one syslog line gives.
///
/// The timestamp is fifteen bytes wide. The host starts sixteen bytes after
/// the timestamp does and ends at the next space; the application name ends
/// at the next `:`; the text starts two bytes after that. A line in which the
/// space or the colon is missing gives nothing. The message of the entry is
/// the application name, `: ` and the text; the level is that of the text.
pub open spec fn syslog_entry(line: Seq<u8>) -> Option<LogEntryView> {
    let ts = timestamp_start(line);
    let host = ts + 16;
    let host_end = find_byte(line, host, SPACE);
    let app = host_end + 1;
    let app_end = find_byte(line, app, COLON);
    let body = if app_end + 2 < line.len() {
        line.subrange(app_end + 2, line.len() as int)
    } else {
        Seq::empty()
    };
    if host_end < line.len() && app_end < line.len() {
        match (
            text_in(line.subrange(ts, ts + 15)),
            text_in(line.subrange(host, host_end)),
            text_in(line.subrange(app, app_end)),
            text_in(body),
        ) {
            (Some(timestamp), Some(hostname), Some(application), Some(text)) => Some(
                LogEntryView {
                    timestamp: Some(timestamp),
                    host: Some(hostname),
                    service: Some("syslog"@),
                    level: Some(level_of_message(body).name()),
                    message: Some(application + ": "@ + text),
                },
            ),
            _ => None,
        }
    } else {
        None
    }
}

/// Of a line of well-formed text in which an ASCII byte follows the timestamp
/// and another the colon, the encoding never costs the entry: the line gives
/// one exactly when a space ends its host and a colon its application name.
pub proof fn lemma_syslog_entry_of_text(line: Seq<u8>)
    requires
        valid_utf8(line),
        ({
            let after_stamp = timestamp_start(line) + 15;
            0 <= after_stamp < line.len() ==> line[after_stamp] < 128
        }),
        ({
            let host_end = find_byte(line, timestamp_start(line) + 16, SPACE);
            let after_colon = find_byte(line, host_end + 1, COLON) + 1;
            0 <= after_colon < line.len() ==> line[after_colon] < 128
        }),
    ensures
        syslog_entry(line) is Some <==> {
            let host_end = find_byte(line, timestamp_start(line) + 16, SPACE);
            host_end < line.len() && find_byte(line, host_end + 1, COLON) < line.len()
        },
{
    let len = line.len() as int;
    let ts = timestamp_start(line);
    let host = ts + 16;
    let host_end = find_byte(line, host, SPACE);
    let app = host_end + 1;
    let app_end = find_byte(line, app, COLON);
    lemma_find_either(line, 0, GREATER_THAN, GREATER_THAN);
    if host_end < len && app_end < len {
        lemma_find_either(line, host, SPACE, SPACE);
        lemma_find_either(line, app, COLON, COLON);
        lemma_text_between(line, ts, ts + 15);
        lemma_text_between(line, host, host_end);
        lemma_text_between(line, app, app_end);
        if app_end + 2 < len {
            lemma_text_between(line, app_end + 2, len);
        } else {
            assert(valid_utf8(Seq::<u8>::empty()));
        }
    }
}

/// Reads one syslog line.
pub fn parse_line(line: &[u8]) -> (entry: Option<LogEntry>)
    ensures
        entry_view(entry) == syslog_entry(line@),
{
    let len = line.len();
    let mut ts: usize = 0;
    if len > 0 && line[0] == LESS_THAN {
        let gt = scan_byte(line, 0, GREATER_THAN);
        if gt >= len {
            return None;
        }
        ts = gt + 1;
    }
    if len - ts <= 16 {
        return None;
    }
    let host = ts + 16;
    let host_end = scan_byte(line, host, SPACE);
    if host_end >= len {
        return None;
    }
    let app = host_end + 1;
    let app_end = scan_byte(line, app, COLON);
    if app_end >= len {
        return None;
    }
    proof {
        lemma_find_either(line@, host as int, SPACE, SPACE);
        lemma_find_either(line@, app as int, COLON, COLON);
    }
    let body = if len - app_end > 2 {
        &line[app_end + 2..len]
    } else {
        &line[0..0]
    };
    let level = classify_message(body);
    let timestamp = match decode(&line[ts..ts + 15]) {
        Some(s) => s,
        None => { return None; },
    };
    let hostname = match decode(&line[host..host_end]) {
        Some(s) => s,
        None => { return None; },
    };
    let application = match decode(&line[app..app_end]) {
        Some(s) => s,
        None => { return None; },
    };
    let text = match decode(body) {
        Some(s) => s,
        None => { return None; },
    };
    let mut message = application.to_owned();
    message.append(": ");
    message.append(text);
    Some(
        LogEntry {
            timestamp: Some(timestamp.to_owned()),
            host: Some(hostname.to_owned()),
            service: Some("syslog".to_owned()),
            level: Some(level.as_str().to_owned()),
            message: Some(message),
        },
    )
}

/// Parses a syslog log: the entries of its lines, in the order of the lines.
pub fn parse_syslog(input: &str) -> (result: Result<Vec<LogEntry>, ParseError>)
    ensures
        result matches Ok(entries) && views(entries@) == chunk_entries(
            Format::Syslog,
            input.spec_bytes(),
        ) && entries@.len() <= line_count(input.spec_bytes()),
{
    Ok(parse_format(Format::Syslog, input.as_bytes()))
}

} // verus!
