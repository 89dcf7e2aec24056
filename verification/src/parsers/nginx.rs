//! The nginx combined access log:
//! `ADDRESS - - [TIMESTAMP] "METHOD PATH PROTOCOL" STATUS ...`.

use crate::config::{entry_view, views, LogEntry, LogEntryView};
use crate::level::{classify_status, level_of_status};
use crate::lines::line_count;
use crate::parsers::scan::{chunk_entries, parse_format};
use crate::parsers::{Format, ParseError};
use crate::text::{
    ascii_text, decode, find_byte, find_not, lemma_ascii_text, lemma_find_either,
    lemma_text_between, scan_byte, scan_past, text_in, CLOSE_BRACKET, OPEN_BRACKET, QUOTE, SPACE,
};
use vstd::prelude::*;
use vstd::string::*;
use vstd::utf8::valid_utf8;

verus! {

/// Lines shorter than this are passed over unread.
pub const MIN_LINE_LEN: usize = 20;

/// `b` is an ASCII digit.
pub open spec fn is_digit(b: u8) -> bool {
    48 <= b <= 57
}

/// The number that exactly three ASCII digits write; nothing for any other
/// run of bytes.
pub open spec fn status_value(status: Seq<u8>) -> Option<int> {
    if status.len() == 3 && is_digit(status[0]) && is_digit(status[1]) && is_digit(status[2]) {
        Some((status[0] - 48) * 100 + (status[1] - 48) * 10 + (status[2] - 48))
    } else {
        None
    }
}

/// The method of a request line: what stands before its first space, or all
/// of it where it holds no space.
pub open spec fn request_method(request: Seq<u8>) -> Seq<u8> {
    request.subrange(0, find_byte(request, 0, SPACE))
}

/// The path of a request line: what stands between its first space and the
/// next one; empty where it holds no space.
pub open spec fn request_path(request: Seq<u8>) -> Seq<u8> {
    let sp = find_byte(request, 0, SPACE);
    if sp < request.len() {
        let rest = request.subrange(sp + 1, request.len() as int);
        rest.subrange(0, find_byte(rest, 0, SPACE))
    } else {
        Seq::empty()
    }
}

/// The entry that one access-log line gives, tagged with `service`.
///
/// The address ends at the first space. The timestamp stands between the
/// first `[` and the next `]`, the request between the next two `"`. After
/// the request and any spaces come the three digits of the status. A line
/// that lacks one of these, or whose address does not end before the request
/// does, gives nothing.
pub open spec fn access_entry(line: Seq<u8>, service: Seq<char>) -> Option<LogEntryView> {
    let sp = find_byte(line, 0, SPACE);
    let open = find_byte(line, 0, OPEN_BRACKET);
    let close = find_byte(line, open + 1, CLOSE_BRACKET);
    let q1 = find_byte(line, close + 1, QUOTE);
    let q2 = find_byte(line, q1 + 1, QUOTE);
    let st = find_not(line, q2 + 1, SPACE);
    if q2 < line.len() && sp < q2 && st + 3 <= line.len() {
        let request = line.subrange(q1 + 1, q2);
        let status = line.subrange(st, st + 3);
        match (
            text_in(line.subrange(0, sp)),
            text_in(line.subrange(open + 1, close)),
            text_in(request_method(request)),
            text_in(request_path(request)),
            status_value(status),
        ) {
            (Some(address), Some(timestamp), Some(method), Some(path), Some(code)) => Some(
                LogEntryView {
                    timestamp: Some(timestamp),
                    host: Some(address),
                    service: Some(service),
                    level: Some(level_of_status(code).name()),
                    message: Some(method + " "@ + path + " -> "@ + ascii_text(status)),
                },
            ),
            _ => None,
        }
    } else {
        None
    }
}

/// The entry that one nginx line gives.
pub open spec fn nginx_entry(line: Seq<u8>) -> Option<LogEntryView> {
    access_entry(line, "nginx"@)
}

/// The line has what an access-log line must have: the bracketed timestamp,
/// the quoted request with the address ending before it, and after the
/// request a status of three digits.
pub open spec fn is_access_line(line: Seq<u8>) -> bool {
    let sp = find_byte(line, 0, SPACE);
    let open = find_byte(line, 0, OPEN_BRACKET);
    let close = find_byte(line, open + 1, CLOSE_BRACKET);
    let q1 = find_byte(line, close + 1, QUOTE);
    let q2 = find_byte(line, q1 + 1, QUOTE);
    let st = find_not(line, q2 + 1, SPACE);
    &&& q2 < line.len()
    &&& sp < q2
    &&& st + 3 <= line.len()
    &&& status_value(line.subrange(st, st + 3)) is Some
}

/// Of a line of well-formed text, the encoding never costs the entry: the
/// line gives one exactly when it has what an access-log line must have.
pub proof fn lemma_access_entry_of_text(line: Seq<u8>, service: Seq<char>)
    requires
        valid_utf8(line),
    ensures
        access_entry(line, service) is Some <==> is_access_line(line),
{
    let sp = find_byte(line, 0, SPACE);
    let open = find_byte(line, 0, OPEN_BRACKET);
    let close = find_byte(line, open + 1, CLOSE_BRACKET);
    let q1 = find_byte(line, close + 1, QUOTE);
    let q2 = find_byte(line, q1 + 1, QUOTE);
    if is_access_line(line) {
        lemma_find_either(line, 0, SPACE, SPACE);
        lemma_find_either(line, 0, OPEN_BRACKET, OPEN_BRACKET);
        if open < line.len() {
            lemma_find_either(line, open + 1, CLOSE_BRACKET, CLOSE_BRACKET);
        }
        if close < line.len() {
            lemma_find_either(line, close + 1, QUOTE, QUOTE);
        }
        if q1 < line.len() {
            lemma_find_either(line, q1 + 1, QUOTE, QUOTE);
        }
        lemma_text_between(line, 0, sp);
        lemma_text_between(line, open + 1, close);
        lemma_text_between(line, q1 + 1, q2);
        let request = line.subrange(q1 + 1, q2);
        let cut = find_byte(request, 0, SPACE);
        lemma_find_either(request, 0, SPACE, SPACE);
        lemma_text_between(request, 0, cut);
        if cut < request.len() {
            let rest = request.subrange(cut + 1, request.len() as int);
            lemma_text_between(request, cut + 1, request.len() as int);
            lemma_find_either(rest, 0, SPACE, SPACE);
            lemma_text_between(rest, 0, find_byte(rest, 0, SPACE));
        } else {
            assert(valid_utf8(Seq::<u8>::empty()));
        }
    }
}

/// Reads a status of exactly three ASCII digits.
pub fn fast_parse_status(status: &[u8]) -> (code: Option<usize>)
    ensures
        match code {
            Some(n) => status_value(status@) == Some(n as int),
            None => status_value(status@) is None,
        },
{
    if status.len() != 3 {
        return None;
    }
    let a = status[0];
    let c = status[1];
    let d = status[2];
    if a < 48 || a > 57 || c < 48 || c > 57 || d < 48 || d > 57 {
        return None;
    }
    let hundreds: usize = (a - 48) as usize;
    let tens: usize = (c - 48) as usize;
    let ones: usize = (d - 48) as usize;
    Some(hundreds * 100 + tens * 10 + ones)
}

/// Reads one access-log line and tags the entry with `service`.
pub fn parse_access_line(line: &[u8], service: &str) -> (entry: Option<LogEntry>)
    ensures
        entry_view(entry) == access_entry(line@, service@),
{
    let len = line.len();
    let sp = scan_byte(line, 0, SPACE);
    let open = scan_byte(line, 0, OPEN_BRACKET);
    if open >= len {
        return None;
    }
    let close = scan_byte(line, open + 1, CLOSE_BRACKET);
    if close >= len {
        return None;
    }
    let q1 = scan_byte(line, close + 1, QUOTE);
    if q1 >= len {
        return None;
    }
    let q2 = scan_byte(line, q1 + 1, QUOTE);
    if q2 >= len || sp >= q2 {
        return None;
    }
    let st = scan_past(line, q2 + 1, SPACE);
    if len - st < 3 {
        return None;
    }
    proof {
        lemma_find_either(line@, open + 1, CLOSE_BRACKET, CLOSE_BRACKET);
        lemma_find_either(line@, q1 + 1, QUOTE, QUOTE);
    }
    let request = &line[q1 + 1..q2];
    let status = &line[st..st + 3];
    let code = match fast_parse_status(status) {
        Some(code) => code,
        None => { return None; },
    };
    let level = classify_status(code);
    let cut = scan_byte(request, 0, SPACE);
    let method_bytes = &request[0..cut];
    let path_bytes = if cut < request.len() {
        let rest = &request[cut + 1..request.len()];
        let end = scan_byte(rest, 0, SPACE);
        &rest[0..end]
    } else {
        &request[0..0]
    };
    assert(method_bytes@ == request_method(request@));
    assert(path_bytes@ == request_path(request@));
    let address = match decode(&line[0..sp]) {
        Some(s) => s,
        None => { return None; },
    };
    let timestamp = match decode(&line[open + 1..close]) {
        Some(s) => s,
        None => { return None; },
    };
    let method = match decode(method_bytes) {
        Some(s) => s,
        None => { return None; },
    };
    let path = match decode(path_bytes) {
        Some(s) => s,
        None => { return None; },
    };
    let digits = match decode(status) {
        Some(s) => s,
        None => {
            proof {
                lemma_ascii_text(status@);
            }
            return None;
        },
    };
    proof {
        lemma_ascii_text(status@);
    }
    let mut message = method.to_owned();
    message.append(" ");
    message.append(path);
    message.append(" -> ");
    message.append(digits);
    Some(
        LogEntry {
            timestamp: Some(timestamp.to_owned()),
            host: Some(address.to_owned()),
            service: Some(service.to_owned()),
            level: Some(level.as_str().to_owned()),
            message: Some(message),
        },
    )
}

/// Reads one nginx access-log line.
pub fn parse_line_to_logentry(line: &[u8]) -> (entry: Option<LogEntry>)
    ensures
        entry_view(entry) == nginx_entry(line@),
{
    parse_access_line(line, "nginx")
}

/// Parses a nginx access log: the entries of its lines, in the order of the lines.
pub fn parse_nginx(input: &str) -> (result: Result<Vec<LogEntry>, ParseError>)
    ensures
        result matches Ok(entries) && views(entries@) == chunk_entries(
            Format::Nginx,
            input.spec_bytes(),
        ) && entries@.len() <= line_count(input.spec_bytes()),
{
    Ok(parse_format(Format::Nginx, input.as_bytes()))
}

} // verus!
