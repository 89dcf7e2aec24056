use logparse::config::LogEntry;
use logparse::normalizer::normalize;
use logparse::output::{
    create_writer, escape_csv_field, escape_tsv_field, json_object, OutputError, Writer,
};
use logparse::parsers::parse;

fn entry(message: &str) -> LogEntry {
    LogEntry {
        timestamp: Some("Jan 12 06:30:00".to_string()),
        host: Some("host".to_string()),
        service: Some("syslog".to_string()),
        level: Some("info".to_string()),
        message: Some(message.to_string()),
    }
}

fn blank() -> LogEntry {
    LogEntry::default()
}

#[test]
fn default_entry_is_blank() {
    let e = LogEntry::default();
    assert_eq!(e.timestamp, None);
    assert_eq!(e.host, None);
    assert_eq!(e.service, None);
    assert_eq!(e.level, None);
    assert_eq!(e.message, None);
}

#[test]
fn csv_escaping() {
    assert_eq!(escape_csv_field("plain"), "plain");
    assert_eq!(escape_csv_field(""), "");
    assert_eq!(escape_csv_field("a,b"), "\"a,b\"");
    assert_eq!(escape_csv_field("say \"hi\""), "\"say \"\"hi\"\"\"");
    assert_eq!(escape_csv_field("a,b \"q\""), "\"a,b \"\"q\"\"\"");
    assert_eq!(escape_csv_field("two\nlines"), "\"two\nlines\"");
    assert_eq!(escape_csv_field("tab\there"), "tab\there");
    assert_eq!(escape_csv_field("caf\u{e9}, \u{4e2d}"), "\"caf\u{e9}, \u{4e2d}\"");
}

#[test]
fn tsv_escaping() {
    assert_eq!(escape_tsv_field("plain"), "plain");
    assert_eq!(escape_tsv_field("a\tb\nc\rd"), "a b c d");
    assert_eq!(escape_tsv_field("a,b \"q\""), "a,b \"q\"");
    assert_eq!(escape_tsv_field("\t\t"), "  ");
    assert_eq!(escape_tsv_field("caf\u{e9}\t\u{4e2d}"), "caf\u{e9} \u{4e2d}");
}

#[test]
fn csv_header_comes_once() {
    let mut w = Writer::CsvFile(false);
    let first = w.write_batch(&[entry("a,b \"q\"")]).unwrap();
    assert_eq!(
        first,
        "timestamp,host,service,level,message\nJan 12 06:30:00,host,syslog,info,\"a,b \"\"q\"\"\"\n"
    );
    assert_eq!(w, Writer::CsvFile(true));
    let second = w.write_batch(&[blank(), entry("x")]).unwrap();
    assert_eq!(second, ",,,,\nJan 12 06:30:00,host,syslog,info,x\n");
    assert_eq!(w.finish(), "");
}

#[test]
fn csv_header_comes_with_an_empty_batch() {
    let mut w = Writer::CsvFile(false);
    assert_eq!(w.write_batch(&[]).unwrap(), "timestamp,host,service,level,message\n");
    assert_eq!(w.write_batch(&[]).unwrap(), "");
}

#[test]
fn tsv_rows() {
    let mut w = Writer::TsvFile(false);
    let first = w.write_batch(&[entry("a\tb\nc")]).unwrap();
    assert_eq!(
        first,
        "timestamp\thost\tservice\tlevel\tmessage\nJan 12 06:30:00\thost\tsyslog\tinfo\ta b c\n"
    );
    assert_eq!(w, Writer::TsvFile(true));
    assert_eq!(w.write_batch(&[blank()]).unwrap(), "\t\t\t\t\n");
    assert_eq!(w.finish(), "");
}

#[test]
fn json_lines() {
    let mut w = Writer::JsonlFile;
    let text = w.write_batch(&[entry("say \"hi\"\n"), blank()]).unwrap();
    assert_eq!(
        text,
        "{\"timestamp\":\"Jan 12 06:30:00\",\"host\":\"host\",\"service\":\"syslog\",\"level\":\"info\",\"message\":\"say \\\"hi\\\"\\n\"}\n{\"timestamp\":null,\"host\":null,\"service\":null,\"level\":null,\"message\":null}\n"
    );
    for line in text.lines() {
        let value: serde_json::Value = serde_json::from_str(line).unwrap();
        assert_eq!(value.as_object().unwrap().len(), 5);
    }
    let first: serde_json::Value = serde_json::from_str(text.lines().next().unwrap()).unwrap();
    assert_eq!(first["message"].as_str(), Some("say \"hi\"\n"));
    assert_eq!(w.finish(), "");
}

#[test]
fn json_document_of_one_entry() {
    let mut w = Writer::JsonFile(false);
    let mut text = w.write_batch(&[entry("disk \"full\"")]).unwrap();
    assert_eq!(w, Writer::JsonFile(true));
    text.push_str(&w.finish());
    assert_eq!(
        text,
        "[\n{\n  \"timestamp\": \"Jan 12 06:30:00\",\n  \"host\": \"host\",\n  \"service\": \"syslog\",\n  \"level\": \"info\",\n  \"message\": \"disk \\\"full\\\"\"\n}\n]\n"
    );
}

#[test]
fn json_object_frames_five_values() {
    assert_eq!(
        json_object("1", "2", "3", "4", "5", false),
        "{\"timestamp\":1,\"host\":2,\"service\":3,\"level\":4,\"message\":5}"
    );
    assert_eq!(
        json_object("1", "2", "3", "4", "5", true),
        "{\n  \"timestamp\": 1,\n  \"host\": 2,\n  \"service\": 3,\n  \"level\": 4,\n  \"message\": 5\n}"
    );
}

fn document(entries: &[LogEntry], batch: usize) -> String {
    let mut w = Writer::JsonFile(false);
    let mut text = String::new();
    for group in entries.chunks(batch) {
        text.push_str(&w.write_batch(group).unwrap());
    }
    text.push_str(&w.finish());
    text
}

#[test]
fn json_document_does_not_depend_on_batches() {
    let entries: Vec<LogEntry> = (0..7).map(|i| entry(&format!("message {} \\ \"q\"", i))).collect();
    let whole = document(&entries, 7);
    for batch in 1..9 {
        let text = document(&entries, batch);
        assert_eq!(text, whole);
        let value: serde_json::Value = serde_json::from_str(&text).unwrap();
        let items = value.as_array().unwrap();
        assert_eq!(items.len(), 7);
        assert_eq!(items[3]["message"].as_str(), Some("message 3 \\ \"q\""));
        assert_eq!(items[3]["host"].as_str(), Some("host"));
    }
}

#[test]
fn json_document_with_empty_batches() {
    let mut w = Writer::JsonFile(false);
    let mut text = String::new();
    text.push_str(&w.write_batch(&[]).unwrap());
    assert_eq!(w, Writer::JsonFile(false));
    text.push_str(&w.write_batch(&[entry("a")]).unwrap());
    text.push_str(&w.write_batch(&[]).unwrap());
    text.push_str(&w.write_batch(&[blank(), entry("c")]).unwrap());
    text.push_str(&w.finish());
    let value: serde_json::Value = serde_json::from_str(&text).unwrap();
    assert_eq!(value.as_array().unwrap().len(), 3);
    assert!(value[1]["message"].is_null());
}

#[test]
fn json_document_without_entries() {
    let w = Writer::JsonFile(false);
    assert_eq!(w.finish(), "[\n]\n");
    let mut w = Writer::JsonFile(false);
    let mut text = w.write_batch(&[]).unwrap();
    text.push_str(&w.finish());
    let value: serde_json::Value = serde_json::from_str(&text).unwrap();
    assert_eq!(value.as_array().unwrap().len(), 0);
    assert_eq!(Writer::JsonFile(true).finish(), "\n]\n");
}

#[test]
fn console_dump() {
    let e = entry("two\nlines");
    let mut w = Writer::Stdout;
    let text = w.write_batch(&[e.clone(), blank()]).unwrap();
    assert_eq!(text, format!("{:#?}\n{:#?}\n", e, blank()));
    assert!(text.starts_with("LogEntry {\n    timestamp: Some(\n        \"Jan 12 06:30:00\",\n    ),\n"));
    assert!(text.contains("\"two\\nlines\""));
    assert_eq!(w, Writer::Stdout);
    assert_eq!(w.finish(), "");
}

#[test]
fn destinations() {
    assert_eq!(create_writer("stdout"), Ok(Writer::Stdout));
    assert_eq!(create_writer("json"), Ok(Writer::Stdout));
    assert_eq!(create_writer("out.json"), Ok(Writer::JsonFile(false)));
    assert_eq!(create_writer("dir/out.json"), Ok(Writer::JsonFile(false)));
    assert_eq!(create_writer("out.jsonl"), Ok(Writer::JsonlFile));
    assert_eq!(create_writer("out.ndjson"), Ok(Writer::JsonlFile));
    assert_eq!(create_writer("out.csv"), Ok(Writer::CsvFile(false)));
    assert_eq!(create_writer("a/b/out.tsv"), Ok(Writer::TsvFile(false)));
    assert_eq!(create_writer(".csv"), Ok(Writer::CsvFile(false)));
    assert_eq!(create_writer("out.txt"), Ok(Writer::JsonFile(false)));
    assert_eq!(create_writer("dir/out"), Ok(Writer::JsonFile(false)));
    assert_eq!(create_writer("dir\\out"), Ok(Writer::JsonFile(false)));
    assert_eq!(create_writer("out.CSV"), Ok(Writer::JsonFile(false)));
}

#[test]
fn unknown_destination() {
    let err = create_writer("output").unwrap_err();
    assert_eq!(err, OutputError::UnknownFormat("output".to_string()));
    assert_eq!(
        err.message(),
        "Unknown output format: output. Use 'stdout', 'json', or a file path"
    );
    assert!(create_writer("").is_err());
    assert!(create_writer("csv").is_err());
    assert!(create_writer("STDOUT").is_err());
}

#[test]
fn write_gives_the_whole_text() {
    let logs = [entry("a"), entry("b,c")];
    assert_eq!(
        logparse::output::write("x.csv", &logs).unwrap(),
        "timestamp,host,service,level,message\nJan 12 06:30:00,host,syslog,info,a\nJan 12 06:30:00,host,syslog,info,\"b,c\"\n"
    );
    let text = logparse::output::write("x.json", &logs).unwrap();
    let value: serde_json::Value = serde_json::from_str(&text).unwrap();
    assert_eq!(value.as_array().unwrap().len(), 2);
    assert_eq!(logparse::output::write("x.json", &[]).unwrap(), "[\n]\n");
    assert_eq!(logparse::output::write("stdout", &logs).unwrap(), format!("{:#?}\n{:#?}\n", logs[0], logs[1]));
    assert_eq!(
        logparse::output::write("nowhere", &logs),
        Err(OutputError::UnknownFormat("nowhere".to_string()))
    );
}

#[test]
fn normalize_keeps_entries_and_order() {
    let entries = vec![entry("a"), blank(), entry("c")];
    assert_eq!(normalize(entries.clone()), entries);
    assert_eq!(normalize(Vec::new()), Vec::<LogEntry>::new());
}

#[test]
fn from_lines_to_csv() {
    let input = "<34>Jan 12 06:30:00 host app: error disk full\nJan 12 06:30:01 host app: said \"no\", twice\n";
    let entries = normalize(parse("syslog", input).unwrap());
    let mut w = create_writer("out.csv").unwrap();
    let text = w.write_batch(&entries).unwrap();
    assert_eq!(
        text,
        "timestamp,host,service,level,message\nJan 12 06:30:00,host,syslog,error,app: error disk full\nJan 12 06:30:01,host,syslog,info,\"app: said \"\"no\"\", twice\"\n"
    );
}
