use logparse::level::{classify_message, classify_name, classify_status, has_word, Level};
use logparse::parsers::nginx::parse_line_to_logentry;
use logparse::text::{decode, scan_back, scan_byte, scan_either, scan_past};

struct Dice(u64);

impl Dice {
    fn roll(&mut self, sides: usize) -> usize {
        self.0 = self.0.wrapping_mul(6364136223846793005).wrapping_add(1442695040888963407);
        ((self.0 >> 33) as usize) % sides
    }

    fn line(&mut self, alphabet: &[u8], longest: usize) -> Vec<u8> {
        let len = self.roll(longest + 1);
        (0..len).map(|_| alphabet[self.roll(alphabet.len())]).collect()
    }

    fn phrase(&mut self, words: &[&str], longest: usize) -> Vec<u8> {
        let len = self.roll(longest + 1);
        let mut out = Vec::new();
        for _ in 0..len {
            out.extend_from_slice(words[self.roll(words.len())].as_bytes());
        }
        out
    }
}

/// One pass from left to right that notes each delimiter as it comes.
fn one_pass(line: &[u8]) -> Option<(String, String, String, String)> {
    let len = line.len();
    let mut ip_end = None;
    let mut ts_start = None;
    let mut ts_end = None;
    let mut req_start = None;
    let mut req_end = None;
    let mut i = 0;
    while i < len {
        match line[i] {
            b' ' if ip_end.is_none() => ip_end = Some(i),
            b'[' if ts_start.is_none() => ts_start = Some(i + 1),
            b']' if ts_start.is_some() && ts_end.is_none() => ts_end = Some(i),
            b'"' if ts_end.is_some() && req_start.is_none() => req_start = Some(i + 1),
            b'"' if req_start.is_some() && req_end.is_none() => {
                req_end = Some(i);
                break;
            }
            _ => {}
        }
        i += 1;
    }
    let ip = std::str::from_utf8(&line[..ip_end?]).unwrap();
    let timestamp = std::str::from_utf8(&line[ts_start?..ts_end?]).unwrap();
    let request = std::str::from_utf8(&line[req_start?..req_end?]).unwrap();
    let mut status_start = req_end? + 1;
    while status_start < len && line[status_start] == b' ' {
        status_start += 1;
    }
    if status_start + 3 > len {
        return None;
    }
    let status = std::str::from_utf8(&line[status_start..status_start + 3]).unwrap();
    if !status.bytes().all(|b| b.is_ascii_digit()) {
        return None;
    }
    let code: usize = status.parse().unwrap();
    let level = if (400..500).contains(&code) {
        "warn"
    } else if code >= 500 {
        "error"
    } else {
        "info"
    };
    let (method, path) = match request.find(' ') {
        Some(at) => (&request[..at], request[at + 1..].split(' ').next().unwrap_or("")),
        None => (request, ""),
    };
    Some((
        ip.to_string(),
        timestamp.to_string(),
        level.to_string(),
        format!("{} {} -> {}", method, path, status),
    ))
}

#[test]
fn access_line_agrees_with_one_pass() {
    let mut dice = Dice(7);
    let words = [" ", " ", "[", "]", "\"", "\"", "a", "/p", "200", "404", "503", "5x", "  ", "["];
    let mut some = 0;
    for round in 0..400000 {
        let line = if round % 2 == 0 {
            dice.phrase(&words, 12)
        } else {
            dice.line(b"  [[]]\"\"\"a/4059", 26)
        };
        let got = parse_line_to_logentry(&line).map(|e| {
            assert_eq!(e.service.as_deref(), Some("nginx"));
            (e.host.unwrap(), e.timestamp.unwrap(), e.level.unwrap(), e.message.unwrap())
        });
        let want = one_pass(&line);
        if want.is_some() {
            some += 1;
        }
        assert_eq!(got, want, "line {:?}", String::from_utf8_lossy(&line));
    }
    assert!(some > 500);
}

#[test]
fn scans_find_the_first_delimiter() {
    let text = b"ab cd,ef  gh";
    assert_eq!(scan_byte(text, 0, b' '), 2);
    assert_eq!(scan_byte(text, 2, b' '), 2);
    assert_eq!(scan_byte(text, 3, b' '), 8);
    assert_eq!(scan_byte(text, 10, b' '), 12);
    assert_eq!(scan_byte(text, 12, b' '), 12);
    assert_eq!(scan_byte(text, 40, b' '), 12);
    assert_eq!(scan_byte(text, 0, b'z'), 12);
    assert_eq!(scan_either(text, 3, b' ', b','), 5);
    assert_eq!(scan_either(text, 3, b',', b' '), 5);
    assert_eq!(scan_either(text, 6, b' ', b','), 8);
    assert_eq!(scan_past(text, 8, b' '), 10);
    assert_eq!(scan_past(text, 0, b' '), 0);
    assert_eq!(scan_past(text, 12, b' '), 12);
    assert_eq!(scan_past(b"   ", 0, b' '), 3);
    assert_eq!(scan_byte(b"", 0, b' '), 0);
}

#[test]
fn scans_agree_with_position() {
    let mut dice = Dice(11);
    for _ in 0..20000 {
        let line = dice.line(b"ab ,", 12);
        let from = dice.roll(14);
        let first = |want: &dyn Fn(u8) -> bool| {
            (from..line.len()).find(|&i| want(line[i])).unwrap_or(line.len())
        };
        assert_eq!(scan_byte(&line, from, b' '), first(&|b| b == b' '));
        assert_eq!(scan_either(&line, from, b' ', b','), first(&|b| b == b' ' || b == b','));
        assert_eq!(scan_past(&line, from, b'a'), first(&|b| b != b'a'));
    }
}

#[test]
fn decode_takes_well_formed_text_only() {
    assert_eq!(decode(b"plain"), Some("plain"));
    assert_eq!(decode(b""), Some(""));
    assert_eq!(decode("caf\u{e9} \u{4e2d}\u{1f600}".as_bytes()), Some("caf\u{e9} \u{4e2d}\u{1f600}"));
    assert_eq!(decode(&[0x63, 0xc3]), None);
    assert_eq!(decode(&[0xa9, 0x63]), None);
    assert_eq!(decode(&[0xff]), None);
    assert_eq!(decode(&[0xc0, 0x80]), None);
    assert_eq!(decode(&[0xed, 0xa0, 0x80]), None);
}

#[test]
fn words_are_found_in_any_letter_case() {
    assert!(has_word(b"an Error here", b"error"));
    assert!(has_word(b"ERROR", b"error"));
    assert!(has_word(b"xxerrorxx", b"error"));
    assert!(!has_word(b"erro", b"error"));
    assert!(!has_word(b"e r r o r", b"error"));
    assert!(!has_word(b"", b"error"));
    assert!(has_word(b"", b""));
    assert!(has_word(b"FaIl", b"fail"));
    // only capital letters are folded
    assert!(!has_word(b"\x45\x52\x52\x4f\x32", b"error"));
    assert!(!has_word(b"[arn", b"{arn"));
}

#[test]
fn message_levels() {
    assert_eq!(classify_message(b""), Level::Info);
    assert_eq!(classify_message(b"started"), Level::Info);
    assert_eq!(classify_message(b"Warning"), Level::Warn);
    assert_eq!(classify_message(b"connection FAILED"), Level::Error);
    assert_eq!(classify_message(b"fail"), Level::Error);
    assert_eq!(classify_message(b"error"), Level::Error);
    assert_eq!(classify_message(b"warn, then fail"), Level::Error);
    assert_eq!(classify_message(b"fail, then warn"), Level::Error);
}

#[test]
fn status_levels() {
    assert_eq!(classify_status(0), Level::Info);
    assert_eq!(classify_status(399), Level::Info);
    assert_eq!(classify_status(400), Level::Warn);
    assert_eq!(classify_status(499), Level::Warn);
    assert_eq!(classify_status(500), Level::Error);
    assert_eq!(classify_status(999), Level::Error);
}

#[test]
fn name_levels() {
    assert_eq!(classify_name(b"ERROR"), Level::Error);
    assert_eq!(classify_name(b"warn"), Level::Warn);
    assert_eq!(classify_name(b"WARNING"), Level::Warn);
    assert_eq!(classify_name(b"INFO"), Level::Info);
    assert_eq!(classify_name(b""), Level::Info);
    assert_eq!(classify_name(b"ERRORS"), Level::Info);
    assert_eq!(classify_name(b"WARNIN"), Level::Info);
    assert_eq!(Level::Info.as_str(), "info");
    assert_eq!(Level::Warn.as_str(), "warn");
    assert_eq!(Level::Error.as_str(), "error");
}

#[test]
fn scan_back_finds_the_last_delimiter() {
    let text = b"ab cd ef";
    assert_eq!(scan_back(text, 0, 8, b' '), Some(5));
    assert_eq!(scan_back(text, 0, 6, b' '), Some(5));
    assert_eq!(scan_back(text, 0, 5, b' '), Some(2));
    assert_eq!(scan_back(text, 3, 5, b' '), None);
    assert_eq!(scan_back(text, 2, 3, b' '), Some(2));
    assert_eq!(scan_back(text, 0, 2, b' '), None);
    assert_eq!(scan_back(text, 4, 4, b' '), None);
    assert_eq!(scan_back(text, 0, 8, b'z'), None);
    assert_eq!(scan_back(b"", 0, 0, b' '), None);
    let mut dice = Dice(13);
    for _ in 0..20000 {
        let line = dice.line(b"ab ,", 12);
        let to = dice.roll(line.len() + 1);
        let from = dice.roll(to + 1);
        let want = (from..to).rev().find(|&i| line[i] == b' ');
        assert_eq!(scan_back(&line, from, to, b' '), want);
    }
}
