//! The log of a Python web application:
//! `LEVEL DATE TIME,MILLIS MODULE MESSAGE`.

use crate::config::{entry_view, views, LogEntry, LogEntryView};
use crate::level::{classify_name, level_of_name};
use crate::lines::line_count;
use crate::parsers::scan::{chunk_entries, parse_format};
use crate::parsers::{Format, ParseError};
use crate::text::{
    decode, find_byte, find_either, lemma_find_either, lemma_text_between, scan_byte,
    scan_either, text_in, COMMA, SPACE,
};
use vstd::prelude::*;
use vstd::string::*;
use vstd::utf8::valid_utf8;

verus! {

/// Lines shorter than this are passed over unread.
pub const MIN_LINE_LEN: usize = 20;

/// Where the timestamp of a line ends, given where its time of day starts:
/// at the first space or comma.
pub open spec fn time_end(line: Seq<u8>, time: int) -> int {
    find_either(line, time, SPACE, COMMA)
}

/// The space that closes the timestamp: the end of the time of day where that
/// is a space, and the first space after the fraction where the time of day
/// ends in a comma.
pub open spec fn stamp_close(line: Seq<u8>, time: int) -> int {
    let c = time_end(line, time);
    if c < line.len() && line[c] == COMMA {
        find_byte(line, c, SPACE)
    } else {
        c
    }
}

/// The entry that one line gives.
///
/// The level name ends at the first space, the date at the second. The
/// timestamp is the date, the space and the time of day, which ends at the
/// next space or comma; a fraction of a second that a comma introduces is
/// left out. The module name is the token after the timestamp and the message
/// is what follows it. A line that ends before its module name starts gives
/// nothing. The level is the one that the level name stands for.
pub open spec fn python_entry(line: Seq<u8>) -> Option<LogEntryView> {
    let a = find_byte(line, 0, SPACE);
    let b = find_byte(line, a + 1, SPACE);
    let c = time_end(line, b + 1);
    let d = stamp_close(line, b + 1);
    let e = find_byte(line, d + 1, SPACE);
    let body = if e + 1 < line.len() {
        line.subrange(e + 1, line.len() as int)
    } else {
        Seq::empty()
    };
    if b < line.len() && d < line.len() {
        match (text_in(line.subrange(a + 1, c)), text_in(line.subrange(d + 1, e)), text_in(body)) {
            (Some(timestamp), Some(module), Some(text)) => Some(
                LogEntryView {
                    timestamp: Some(timestamp),
                    host: Some(module),
                    service: Some("python_web"@),
                    level: Some(level_of_name(line.subrange(0, a)).name()),
                    message: Some(text),
                },
            ),
            _ => None,
        }
    } else {
        None
    }
}

/// Of a line of well-formed text, the encoding never costs the entry: the
/// line gives one exactly when it goes on after its date and after its
/// timestamp.
pub proof fn lemma_python_entry_of_text(line: Seq<u8>)
    requires
        valid_utf8(line),
    ensures
        python_entry(line) is Some <==> {
            let a = find_byte(line, 0, SPACE);
            let b = find_byte(line, a + 1, SPACE);
            b < line.len() && stamp_close(line, b + 1) < line.len()
        },
{
    let len = line.len() as int;
    let a = find_byte(line, 0, SPACE);
    let b = find_byte(line, a + 1, SPACE);
    let c = time_end(line, b + 1);
    let d = stamp_close(line, b + 1);
    let e = find_byte(line, d + 1, SPACE);
    if b < len && d < len {
        lemma_find_either(line, 0, SPACE, SPACE);
        lemma_find_either(line, a + 1, SPACE, SPACE);
        lemma_find_either(line, b + 1, SPACE, COMMA);
        lemma_find_either(line, c, SPACE, SPACE);
        lemma_find_either(line, d + 1, SPACE, SPACE);
        lemma_text_between(line, a + 1, c);
        lemma_text_between(line, d + 1, e);
        if e + 1 < len {
            lemma_text_between(line, e + 1, len);
        } else {
            assert(valid_utf8(Seq::<u8>::empty()));
        }
    }
}

/// Reads one line.
pub fn parse_line(line: &[u8]) -> (entry: Option<LogEntry>)
    ensures
        entry_view(entry) == python_entry(line@),
{
    let len = line.len();
    let a = scan_byte(line, 0, SPACE);
    if a >= len {
        return None;
    }
    let b = scan_byte(line, a + 1, SPACE);
    if b >= len {
        return None;
    }
    let c = scan_either(line, b + 1, SPACE, COMMA);
    let d = if c < len && line[c] == COMMA {
        scan_byte(line, c, SPACE)
    } else {
        c
    };
    if d >= len {
        return None;
    }
    let e = scan_byte(line, d + 1, SPACE);
    proof {
        lemma_find_either(line@, a + 1, SPACE, SPACE);
        lemma_find_either(line@, b + 1, SPACE, COMMA);
        lemma_find_either(line@, c as int, SPACE, SPACE);
        lemma_find_either(line@, d + 1, SPACE, SPACE);
    }
    let body = if len - e > 1 {
        &line[e + 1..len]
    } else {
        &line[0..0]
    };
    let level = classify_name(&line[0..a]);
    let timestamp = match decode(&line[a + 1..c]) {
        Some(s) => s,
        None => { return None; },
    };
    let module = match decode(&line[d + 1..e]) {
        Some(s) => s,
        None => { return None; },
    };
    let text = match decode(body) {
        Some(s) => s,
        None => { return None; },
    };
    Some(
        LogEntry {
            timestamp: Some(timestamp.to_owned()),
            host: Some(module.to_owned()),
            service: Some("python_web".to_owned()),
            level: Some(level.as_str().to_owned()),
            message: Some(text.to_owned()),
        },
    )
}

/// Parses a Python web application log: the entries of its lines, in the order of the lines.
pub fn parse_python_logs(input: &str) -> (result: Result<Vec<LogEntry>, ParseError>)
    ensures
        result matches Ok(entries) && views(entries@) == chunk_entries(
            Format::PythonWeb,
            input.spec_bytes(),
        ) && entries@.len() <= line_count(input.spec_bytes()),
{
    Ok(parse_format(Format::PythonWeb, input.as_bytes()))
}

} // verus!
