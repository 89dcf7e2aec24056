use logparse::lines::{batches, line_positions, total_lines, Batch};
use logparse::parsers::scan::parse_range;
use logparse::parsers::Format;
use logparse::pipeline::process_batch;

#[test]
fn line_positions_are_the_newline_offsets() {
    assert_eq!(line_positions(b"a\nb\nc\nd\ne"), vec![1, 3, 5, 7]);
    assert_eq!(line_positions(b"\n\n"), vec![0, 1]);
    assert_eq!(line_positions(b"no newline"), Vec::<usize>::new());
    assert_eq!(line_positions(b""), Vec::<usize>::new());
    assert_eq!(line_positions(b"abc\n"), vec![3]);
}

#[test]
fn total_lines_counts_a_last_open_line() {
    assert_eq!(total_lines(b""), 0);
    assert_eq!(total_lines(b"\n"), 1);
    assert_eq!(total_lines(b"a"), 1);
    assert_eq!(total_lines(b"a\n"), 1);
    assert_eq!(total_lines(b"a\nb"), 2);
    assert_eq!(total_lines(b"a\nb\n"), 2);
    assert_eq!(total_lines(b"\n\n\n"), 3);
    assert_eq!(total_lines(b"a\nb\nc\nd\ne"), 5);
}

#[test]
fn fewer_lines_than_a_batch_give_one_batch_of_everything() {
    assert_eq!(batches(&[1, 3, 5, 7], 10, 9), vec![Batch { start: 0, end: 9 }]);
    assert_eq!(batches(&[1, 3, 5, 7], 5, 9), vec![Batch { start: 0, end: 9 }]);
    assert_eq!(batches(&[], 1, 9), vec![Batch { start: 0, end: 9 }]);
    assert_eq!(batches(&[], 1, 0), vec![Batch { start: 0, end: 0 }]);
}

#[test]
fn groups_of_boundaries_give_batches() {
    assert_eq!(
        batches(&[1, 3, 5, 7], 2, 9),
        vec![Batch { start: 0, end: 4 }, Batch { start: 5, end: 8 }]
    );
    assert_eq!(
        batches(&[1, 3, 5, 7], 3, 9),
        vec![Batch { start: 0, end: 6 }, Batch { start: 7, end: 9 }]
    );
    assert_eq!(batches(&[1, 3, 5, 7], 4, 9), vec![Batch { start: 0, end: 8 }]);
    assert_eq!(
        batches(&[1, 3, 5, 7], 1, 9),
        vec![
            Batch { start: 0, end: 2 },
            Batch { start: 3, end: 4 },
            Batch { start: 5, end: 6 },
            Batch { start: 7, end: 8 }
        ]
    );
}

#[test]
fn batches_are_line_aligned() {
    let text = b"first line\nsecond line\nthird line\nfourth line\nfifth";
    let positions = line_positions(text);
    for size in 1..7 {
        for batch in batches(&positions, size, text.len()) {
            assert!(batch.start <= batch.end && batch.end <= text.len());
            assert!(batch.start == 0 || text[batch.start] == b'\n');
            assert!(batch.end == text.len() || text[batch.end - 1] == b'\n');
        }
    }
}

#[test]
fn a_batch_gives_no_more_entries_than_it_has_lines() {
    let mut text = String::new();
    for i in 0..9 {
        text.push_str(&format!("Jan 12 06:30:0{} web01 cron: job {} started\n", i, i));
    }
    let bytes = text.as_bytes();
    let positions = line_positions(bytes);
    assert_eq!(total_lines(bytes), 9);
    for size in 1..11 {
        for batch in batches(&positions, size, bytes.len()) {
            let entries = parse_range(Format::Syslog, bytes, batch.start, batch.end);
            assert!(entries.len() <= total_lines(&bytes[batch.start..batch.end]));
        }
    }
    let one = batches(&positions, 100, bytes.len());
    assert_eq!(parse_range(Format::Syslog, bytes, one[0].start, one[0].end).len(), 9);
}

#[test]
fn the_order_of_the_batches_does_not_change_the_entries() {
    let mut text = String::new();
    for i in 0..23 {
        text.push_str(&format!("Jan 12 06:30:{:02} web{} cron: job {} error\n", i, i % 3, i));
    }
    let bytes = text.as_bytes();
    let positions = line_positions(bytes);
    let groups = batches(&positions, 4, bytes.len());
    assert_eq!(groups.len(), 6);
    let key = |e: &logparse::config::LogEntry| format!("{:?}", e);
    let mut forward: Vec<String> = Vec::new();
    for batch in groups.iter() {
        forward.extend(process_batch(Format::Syslog, bytes, *batch).iter().map(key));
    }
    let mut backward: Vec<String> = Vec::new();
    for batch in groups.iter().rev() {
        backward.extend(process_batch(Format::Syslog, bytes, *batch).iter().map(key));
    }
    let mut again: Vec<String> = Vec::new();
    for batch in batches(&line_positions(bytes), 4, bytes.len()) {
        again.extend(process_batch(Format::Syslog, bytes, batch).iter().map(key));
    }
    assert_eq!(forward, again);
    assert_ne!(forward, backward);
    forward.sort();
    backward.sort();
    assert_eq!(forward, backward);
    assert!(forward.len() <= total_lines(bytes));
}

#[test]
fn one_batch_of_everything_reads_every_line() {
    let text = "Jan 12 06:30:00 web01 cron: one\nJan 12 06:30:01 web01 cron: two\nJan 12 06:30:02 web01 cron: three";
    let bytes = text.as_bytes();
    let groups = batches(&line_positions(bytes), 1000000, bytes.len());
    assert_eq!(groups, vec![Batch { start: 0, end: bytes.len() }]);
    let entries = process_batch(Format::Syslog, bytes, groups[0]);
    assert_eq!(entries.len(), 3);
    assert_eq!(entries.len(), total_lines(bytes));
    assert_eq!(entries[2].message.as_deref(), Some("cron: three"));
}
