//! The streaming writer: what text goes to the destination for each batch of
//! entries, and the framing that is kept from one batch to the next.
//!
//! The writer holds no file. It says what is to be written; whoever owns the
//! destination writes it.

use crate::config::{field_or_empty, field_view, views, LogEntry, LogEntryView};
use crate::text::{chars_of, ends_with, has_char, has_suffix, same_text};
use vstd::prelude::*;
use vstd::string::*;

verus! {

/// The framing state of one run, by kind of destination.
#[derive(Debug, Clone, Copy, PartialEq, Eq, Structural)]
pub enum Writer {
    /// A readable dump on the console.
    Stdout,
    /// One JSON array in a file. The flag says whether the opening bracket
    /// has been written.
    JsonFile(bool),
    /// One JSON object on each line of a file.
    JsonlFile,
    /// Comma-separated values. The flag says whether the header has been
    /// written.
    CsvFile(bool),
    /// Tab-separated values. The flag says whether the header has been
    /// written.
    TsvFile(bool),
}

/// Why nothing was written.
#[derive(Debug, Clone, PartialEq, Eq)]
pub enum OutputError {
    /// The destination is neither a known name nor anything like a path.
    UnknownFormat(String),
    /// `serde_json` gave an error in place of a value; the text is its
    /// reason.
    Serialize(String),
}

/// `serde_json::Error`, of which only the text is ever asked.
#[verifier::external_type_specification]
#[verifier::external_body]
pub struct ExJsonError(serde_json::Error);

/// The JSON string literal that `serde_json` writes for a text.
pub uninterp spec fn json_quoted(text: Seq<char>) -> Seq<char>;

/// The dump that `{:#?}` writes for an entry with these fields.
pub uninterp spec fn debug_text(
    timestamp: Option<Seq<char>>,
    host: Option<Seq<char>>,
    service: Option<Seq<char>>,
    level: Option<Seq<char>>,
    message: Option<Seq<char>>,
) -> Seq<char>;

/// `serde_json::to_string` on a string: it succeeds, for a string is written
/// into a vector in memory and nothing else can fail, and the result is the
/// JSON string literal of the text, which depends on the text alone.
#[verifier::external_body]
fn json_string(text: &str) -> (quoted: Result<String, serde_json::Error>)
    ensures
        quoted is Ok,
        quoted matches Ok(s) ==> s@ == json_quoted(text@),
{
    serde_json::to_string(text)
}

/// The `Display` text of a `serde_json::Error`. Nothing is claimed of it.
#[verifier::external_body]
fn error_text(error: &serde_json::Error) -> String {
    error.to_string()
}

/// `format!` with `{:#?}` on an entry: the pretty `Debug` dump, which depends
/// on the five fields alone.
#[verifier::external_body]
fn debug_dump(entry: &LogEntry) -> (text: String)
    ensures
        text@ == debug_text(
            entry@.timestamp,
            entry@.host,
            entry@.service,
            entry@.level,
            entry@.message,
        ),
{
    format!("{:#?}", entry)
}

/// A field needs quotes in CSV where it holds a comma, a quote or a newline.
pub open spec fn needs_quoting(field: Seq<char>) -> bool {
    field.contains(',') || field.contains('"') || field.contains('\n')
}

/// `field` with every quote written twice.
pub open spec fn doubled_quotes(field: Seq<char>) -> Seq<char>
    decreases field.len(),
{
    if field.len() == 0 {
        Seq::empty()
    } else if field.last() == '"' {
        doubled_quotes(field.drop_last()) + "\"\""@
    } else {
        doubled_quotes(field.drop_last()).push(field.last())
    }
}

/// A field as CSV writes it: unchanged, or between quotes with its own
/// quotes doubled where it needs quoting.
pub open spec fn csv_field(field: Seq<char>) -> Seq<char> {
    if needs_quoting(field) {
        "\""@ + doubled_quotes(field) + "\""@
    } else {
        field
    }
}

/// A character as TSV writes it: a space in place of a tab, a newline or a
/// carriage return.
pub open spec fn tsv_char(c: char) -> char {
    if c == '\t' || c == '\n' || c == '\r' {
        ' '
    } else {
        c
    }
}

/// A field as TSV writes it.
pub open spec fn tsv_field(field: Seq<char>) -> Seq<char> {
    field.map_values(|c: char| tsv_char(c))
}

/// The CSV row of an entry: its five fields, absent ones empty, with commas
/// between them and a newline at the end.
pub open spec fn csv_row(entry: LogEntryView) -> Seq<char> {
    csv_field(field_or_empty(entry.timestamp)) + ","@ + csv_field(field_or_empty(entry.host))
        + ","@ + csv_field(field_or_empty(entry.service)) + ","@ + csv_field(
        field_or_empty(entry.level),
    ) + ","@ + csv_field(field_or_empty(entry.message)) + "\n"@
}

/// The TSV row of an entry.
pub open spec fn tsv_row(entry: LogEntryView) -> Seq<char> {
    tsv_field(field_or_empty(entry.timestamp)) + "\t"@ + tsv_field(field_or_empty(entry.host))
        + "\t"@ + tsv_field(field_or_empty(entry.service)) + "\t"@ + tsv_field(
        field_or_empty(entry.level),
    ) + "\t"@ + tsv_field(field_or_empty(entry.message)) + "\n"@
}

/// A field as JSON writes it: `null` where it is absent.
pub open spec fn json_value(field: Option<Seq<char>>) -> Seq<char> {
    match field {
        Some(text) => json_quoted(text),
        None => "null"@,
    }
}

/// The JSON object of five values on one line.
pub open spec fn compact_object(
    timestamp: Seq<char>,
    host: Seq<char>,
    service: Seq<char>,
    level: Seq<char>,
    message: Seq<char>,
) -> Seq<char> {
    "{\"timestamp\":"@ + timestamp + ",\"host\":"@ + host + ",\"service\":"@ + service
        + ",\"level\":"@ + level + ",\"message\":"@ + message + "}"@
}

/// The JSON object of five values, one on each line, indented by two spaces.
pub open spec fn pretty_object(
    timestamp: Seq<char>,
    host: Seq<char>,
    service: Seq<char>,
    level: Seq<char>,
    message: Seq<char>,
) -> Seq<char> {
    "{\n  \"timestamp\": "@ + timestamp + ",\n  \"host\": "@ + host + ",\n  \"service\": "@
        + service + ",\n  \"level\": "@ + level + ",\n  \"message\": "@ + message + "\n}"@
}

/// An entry as a JSON object on one line.
pub open spec fn json_compact(entry: LogEntryView) -> Seq<char> {
    compact_object(
        json_value(entry.timestamp),
        json_value(entry.host),
        json_value(entry.service),
        json_value(entry.level),
        json_value(entry.message),
    )
}

/// An entry as an indented JSON object.
pub open spec fn json_pretty(entry: LogEntryView) -> Seq<char> {
    pretty_object(
        json_value(entry.timestamp),
        json_value(entry.host),
        json_value(entry.service),
        json_value(entry.level),
        json_value(entry.message),
    )
}

/// The destination that an identifier selects.
///
/// `stdout` and `json` select the console. A name that ends in `.json`,
/// `.jsonl` or `.ndjson`, `.csv` or `.tsv` selects the file writer of that
/// kind. Any other name that holds a `/`, a `\` or a `.` selects the JSON
/// file writer. Nothing else selects a destination.
pub open spec fn destination(arg: Seq<char>) -> Option<Writer> {
    if arg == "stdout"@ || arg == "json"@ {
        Some(Writer::Stdout)
    } else if ends_with(arg, ".json"@) {
        Some(Writer::JsonFile(false))
    } else if ends_with(arg, ".jsonl"@) || ends_with(arg, ".ndjson"@) {
        Some(Writer::JsonlFile)
    } else if ends_with(arg, ".csv"@) {
        Some(Writer::CsvFile(false))
    } else if ends_with(arg, ".tsv"@) {
        Some(Writer::TsvFile(false))
    } else if arg.contains('/') || arg.contains('\\') || arg.contains('.') {
        Some(Writer::JsonFile(false))
    } else {
        None
    }
}

impl OutputError {
    /// The error in words.
    pub open spec fn text(self) -> Seq<char> {
        match self {
            OutputError::UnknownFormat(name) => "Unknown output format: "@ + name@
                + ". Use 'stdout', 'json', or a file path"@,
            OutputError::Serialize(reason) => reason@,
        }
    }

    /// The error in words.
    pub fn message(&self) -> (message: String)
        ensures
            message@ == self.text(),
    {
        match self {
            OutputError::UnknownFormat(name) => {
                let mut message = "Unknown output format: ".to_owned();
                message.append(name.as_str());
                message.append(". Use 'stdout', 'json', or a file path");
                message
            },
            OutputError::Serialize(reason) => reason.as_str().to_owned(),
        }
    }
}

impl Writer {
    /// What is written before the entries of a batch: the header of a CSV or
    /// TSV file that has none yet.
    pub open spec fn header_text(self) -> Seq<char> {
        match self {
            Writer::CsvFile(false) => "timestamp,host,service,level,message\n"@,
            Writer::TsvFile(false) => "timestamp\thost\tservice\tlevel\tmessage\n"@,
            _ => Seq::empty(),
        }
    }

    /// What is written for one entry.
    pub open spec fn entry_text(self, entry: LogEntryView) -> Seq<char> {
        match self {
            Writer::Stdout => debug_text(
                entry.timestamp,
                entry.host,
                entry.service,
                entry.level,
                entry.message,
            ) + "\n"@,
            Writer::JsonFile(_) => "\n"@ + json_pretty(entry),
            Writer::JsonlFile => json_compact(entry) + "\n"@,
            Writer::CsvFile(_) => csv_row(entry),
            Writer::TsvFile(_) => tsv_row(entry),
        }
    }

    /// What is written before an entry, given whether it is the first of its
    /// batch: in a JSON array the opening bracket before the first entry of
    /// the run and a comma before every other one.
    pub open spec fn lead_text(self, first_of_batch: bool) -> Seq<char> {
        match self {
            Writer::JsonFile(opened) => if opened || !first_of_batch {
                ","@
            } else {
                "["@
            },
            _ => Seq::empty(),
        }
    }

    /// What is written for the entries of a batch, one after the other.
    pub open spec fn body_text(self, entries: Seq<LogEntryView>) -> Seq<char>
        decreases entries.len(),
    {
        if entries.len() == 0 {
            Seq::empty()
        } else {
            self.body_text(entries.drop_last()) + self.lead_text(entries.len() == 1)
                + self.entry_text(entries.last())
        }
    }

    /// All that is written for a batch.
    pub open spec fn batch_text(self, entries: Seq<LogEntryView>) -> Seq<char> {
        self.header_text() + self.body_text(entries)
    }

    /// The framing state after a batch.
    pub open spec fn after_batch(self, entries: Seq<LogEntryView>) -> Writer {
        match self {
            Writer::Stdout => Writer::Stdout,
            Writer::JsonFile(opened) => Writer::JsonFile(opened || entries.len() > 0),
            Writer::JsonlFile => Writer::JsonlFile,
            Writer::CsvFile(_) => Writer::CsvFile(true),
            Writer::TsvFile(_) => Writer::TsvFile(true),
        }
    }

    /// What is written at the end of the run: a JSON array is closed, and
    /// opened first where no entry ever was written.
    pub open spec fn closing_text(self) -> Seq<char> {
        match self {
            Writer::JsonFile(true) => "\n]\n"@,
            Writer::JsonFile(false) => "["@ + "\n]\n"@,
            _ => Seq::empty(),
        }
    }

    /// The text of one entry, for every entry and every destination.
    pub fn render_entry(&self, entry: &LogEntry) -> (text: Result<String, OutputError>)
        ensures
            text matches Ok(s) && s@ == self.entry_text(entry@),
    {
        match self {
            Writer::Stdout => {
                let mut text = debug_dump(entry);
                text.append("\n");
                Ok(text)
            },
            Writer::JsonFile(_) => {
                match render_json(entry, true) {
                    Ok(object) => {
                        let mut text = "\n".to_owned();
                        text.append(object.as_str());
                        Ok(text)
                    },
                    Err(e) => Err(e),
                }
            },
            Writer::JsonlFile => {
                match render_json(entry, false) {
                    Ok(object) => {
                        let mut text = object;
                        text.append("\n");
                        Ok(text)
                    },
                    Err(e) => Err(e),
                }
            },
            Writer::CsvFile(_) => Ok(render_csv_row(entry)),
            Writer::TsvFile(_) => Ok(render_tsv_row(entry)),
        }
    }

    /// Gives the text to write for one batch and moves the framing state on.
    ///
    /// Every batch succeeds. The text is the header that is still due, then
    /// for each entry what leads it and the entry itself.
    pub fn write_batch(&mut self, logs: &[LogEntry]) -> (text: Result<String, OutputError>)
        ensures
            text matches Ok(s) && s@ == old(self).batch_text(views(logs@)),
            *final(self) == old(self).after_batch(views(logs@)),
    {
        let ghost start = *self;
        let ghost all = views(logs@);
        let mut out = String::new();
        match self {
            Writer::CsvFile(false) => {
                out.append("timestamp,host,service,level,message\n");
            },
            Writer::TsvFile(false) => {
                out.append("timestamp\thost\tservice\tlevel\tmessage\n");
            },
            _ => {},
        }
        assert(out@ =~= start.header_text());
        assert(all.take(0) =~= Seq::<LogEntryView>::empty());
        assert(out@ =~= start.header_text() + start.body_text(all.take(0)));
        let mut i: usize = 0;
        while i < logs.len()
            invariant
                i <= logs.len(),
                *self == start,
                start == *old(self),
                all == views(logs@),
                out@ == start.header_text() + start.body_text(all.take(i as int)),
            decreases logs.len() - i,
        {
            let entry = match self.render_entry(&logs[i]) {
                Ok(s) => s,
                Err(e) => {
                    return Err(e);
                },
            };
            let first = i == 0;
            match self {
                Writer::JsonFile(opened) => {
                    if *opened || !first {
                        out.append(",");
                    } else {
                        out.append("[");
                    }
                },
                _ => {},
            }
            out.append(entry.as_str());
            proof {
                let upto = all.take(i + 1);
                assert(upto.drop_last() =~= all.take(i as int));
                assert(upto.last() == logs@[i as int]@);
                assert(out@ =~= start.header_text() + start.body_text(upto));
            }
            i += 1;
        }
        assert(all.take(logs@.len() as int) =~= all);
        let more = logs.len() > 0;
        match self {
            Writer::JsonFile(opened) => {
                if more {
                    *opened = true;
                }
            },
            Writer::CsvFile(written) => {
                *written = true;
            },
            Writer::TsvFile(written) => {
                *written = true;
            },
            _ => {},
        }
        Ok(out)
    }

    /// Gives the text that closes the run.
    pub fn finish(self) -> (text: String)
        ensures
            text@ == self.closing_text(),
    {
        match self {
            Writer::JsonFile(opened) => {
                let mut text = String::new();
                if !opened {
                    text.append("[");
                }
                text.append("\n]\n");
                assert(text@ =~= self.closing_text());
                text
            },
            _ => String::new(),
        }
    }
}

/// Escapes a field for CSV.
pub fn escape_csv_field(field: &str) -> (escaped: String)
    ensures
        escaped@ == csv_field(field@),
{
    let chars = chars_of(field);
    if has_char(&chars, ',') || has_char(&chars, '"') || has_char(&chars, '\n') {
        let mut out = "\"".to_owned();
        let mut i: usize = 0;
        assert(chars@.take(0) =~= Seq::<char>::empty());
        assert(out@ =~= "\""@ + doubled_quotes(chars@.take(0)));
        while i < chars.len()
            invariant
                i <= chars.len(),
                out@ == "\""@ + doubled_quotes(chars@.take(i as int)),
            decreases chars.len() - i,
        {
            proof {
                let upto = chars@.take(i + 1);
                assert(upto.drop_last() =~= chars@.take(i as int));
                assert(upto.last() == chars@[i as int]);
            }
            if chars[i] == '"' {
                out.append("\"\"");
                assert(out@ =~= "\""@ + doubled_quotes(chars@.take(i + 1)));
            } else {
                out.push(chars[i]);
                assert(out@ =~= "\""@ + doubled_quotes(chars@.take(i + 1)));
            }
            i += 1;
        }
        assert(chars@.take(chars@.len() as int) =~= chars@);
        out.append("\"");
        out
    } else {
        field.to_owned()
    }
}

/// Escapes a field for TSV.
pub fn escape_tsv_field(field: &str) -> (escaped: String)
    ensures
        escaped@ == tsv_field(field@),
{
    let chars = chars_of(field);
    let mut out = String::new();
    let mut i: usize = 0;
    while i < chars.len()
        invariant
            i <= chars.len(),
            out@ == tsv_field(chars@.take(i as int)),
        decreases chars.len() - i,
    {
        let c = chars[i];
        if c == '\t' || c == '\n' || c == '\r' {
            out.push(' ');
        } else {
            out.push(c);
        }
        assert(out@ =~= tsv_field(chars@.take(i + 1)));
        i += 1;
    }
    assert(chars@.take(chars@.len() as int) =~= chars@);
    out
}

/// A field as a string slice, empty where the field is absent.
fn field_str(field: &Option<String>) -> (s: &str)
    ensures
        s@ == field_or_empty(field_view(*field)),
{
    match field {
        Some(text) => text.as_str(),
        None => {
            proof {
                reveal_strlit("");
            }
            assert(""@ =~= Seq::<char>::empty());
            ""
        },
    }
}

/// The CSV row of an entry.
pub fn render_csv_row(entry: &LogEntry) -> (row: String)
    ensures
        row@ == csv_row(entry@),
{
    let mut row = escape_csv_field(field_str(&entry.timestamp));
    row.append(",");
    row.append(escape_csv_field(field_str(&entry.host)).as_str());
    row.append(",");
    row.append(escape_csv_field(field_str(&entry.service)).as_str());
    row.append(",");
    row.append(escape_csv_field(field_str(&entry.level)).as_str());
    row.append(",");
    row.append(escape_csv_field(field_str(&entry.message)).as_str());
    row.append("\n");
    row
}

/// The TSV row of an entry.
pub fn render_tsv_row(entry: &LogEntry) -> (row: String)
    ensures
        row@ == tsv_row(entry@),
{
    let mut row = escape_tsv_field(field_str(&entry.timestamp));
    row.append("\t");
    row.append(escape_tsv_field(field_str(&entry.host)).as_str());
    row.append("\t");
    row.append(escape_tsv_field(field_str(&entry.service)).as_str());
    row.append("\t");
    row.append(escape_tsv_field(field_str(&entry.level)).as_str());
    row.append("\t");
    row.append(escape_tsv_field(field_str(&entry.message)).as_str());
    row.append("\n");
    row
}

/// Puts five JSON values into the object of an entry, on one line or
/// indented.
pub fn json_object(
    timestamp: &str,
    host: &str,
    service: &str,
    level: &str,
    message: &str,
    pretty: bool,
) -> (object: String)
    ensures
        object@ == if pretty {
            pretty_object(timestamp@, host@, service@, level@, message@)
        } else {
            compact_object(timestamp@, host@, service@, level@, message@)
        },
{
    if pretty {
        let mut object = "{\n  \"timestamp\": ".to_owned();
        object.append(timestamp);
        object.append(",\n  \"host\": ");
        object.append(host);
        object.append(",\n  \"service\": ");
        object.append(service);
        object.append(",\n  \"level\": ");
        object.append(level);
        object.append(",\n  \"message\": ");
        object.append(message);
        object.append("\n}");
        object
    } else {
        let mut object = "{\"timestamp\":".to_owned();
        object.append(timestamp);
        object.append(",\"host\":");
        object.append(host);
        object.append(",\"service\":");
        object.append(service);
        object.append(",\"level\":");
        object.append(level);
        object.append(",\"message\":");
        object.append(message);
        object.append("}");
        object
    }
}

/// The JSON value of a field, given what `serde_json` made of its text: the
/// literal where there is one, `null` for an absent field, and the error
/// where the text could not be written.
pub fn json_field(quoted: Option<Result<String, serde_json::Error>>) -> (value: Result<
    String,
    OutputError,
>)
    ensures
        match quoted {
            None => value matches Ok(s) && s@ == "null"@,
            Some(Ok(literal)) => value == Ok::<String, OutputError>(literal),
            Some(Err(_)) => value matches Err(e) && e is Serialize,
        },
{
    match quoted {
        None => Ok("null".to_owned()),
        Some(Ok(literal)) => Ok(literal),
        Some(Err(error)) => Err(OutputError::Serialize(error_text(&error))),
    }
}

/// The JSON value of a field, present or absent.
pub fn render_field(field: &Option<String>) -> (value: Result<String, OutputError>)
    ensures
        value matches Ok(s) && s@ == json_value(field_view(*field)),
{
    match field {
        Some(text) => json_field(Some(json_string(text.as_str()))),
        None => json_field(None),
    }
}

/// An entry as a JSON object, on one line or indented.
pub fn render_json(entry: &LogEntry, pretty: bool) -> (object: Result<String, OutputError>)
    ensures
        object matches Ok(s) && s@ == if pretty {
            json_pretty(entry@)
        } else {
            json_compact(entry@)
        },
{
    let timestamp = match render_field(&entry.timestamp) {
        Ok(s) => s,
        Err(e) => { return Err(e); },
    };
    let host = match render_field(&entry.host) {
        Ok(s) => s,
        Err(e) => { return Err(e); },
    };
    let service = match render_field(&entry.service) {
        Ok(s) => s,
        Err(e) => { return Err(e); },
    };
    let level = match render_field(&entry.level) {
        Ok(s) => s,
        Err(e) => { return Err(e); },
    };
    let message = match render_field(&entry.message) {
        Ok(s) => s,
        Err(e) => { return Err(e); },
    };
    Ok(
        json_object(
            timestamp.as_str(),
            host.as_str(),
            service.as_str(),
            level.as_str(),
            message.as_str(),
            pretty,
        ),
    )
}

/// Selects the writer for a destination.
pub fn create_writer(output_arg: &str) -> (writer: Result<Writer, OutputError>)
    ensures
        match writer {
            Ok(w) => destination(output_arg@) == Some(w),
            Err(OutputError::UnknownFormat(name)) => destination(output_arg@) is None && name@
                == output_arg@,
            Err(OutputError::Serialize(_)) => false,
        },
{
    let chars = chars_of(output_arg);
    if same_text(output_arg, "stdout") || same_text(output_arg, "json") {
        Ok(Writer::Stdout)
    } else if has_suffix(&chars, ".json") {
        Ok(Writer::JsonFile(false))
    } else if has_suffix(&chars, ".jsonl") || has_suffix(&chars, ".ndjson") {
        Ok(Writer::JsonlFile)
    } else if has_suffix(&chars, ".csv") {
        Ok(Writer::CsvFile(false))
    } else if has_suffix(&chars, ".tsv") {
        Ok(Writer::TsvFile(false))
    } else if has_char(&chars, '/') || has_char(&chars, '\\') || has_char(&chars, '.') {
        Ok(Writer::JsonFile(false))
    } else {
        Err(OutputError::UnknownFormat(output_arg.to_owned()))
    }
}

/// All that a run of one batch writes to a destination: the batch, then the
/// closing.
pub open spec fn whole_text(writer: Writer, entries: Seq<LogEntryView>) -> Seq<char> {
    writer.batch_text(entries) + writer.after_batch(entries).closing_text()
}

/// Gives all the text that goes to a destination for one batch of entries.
///
/// An unknown destination is an error whatever the entries are; a known one
/// always gives its text.
pub fn write(output_arg: &str, logs: &[LogEntry]) -> (text: Result<String, OutputError>)
    ensures
        match text {
            Ok(s) => destination(output_arg@) matches Some(w) && s@ == whole_text(
                w,
                views(logs@),
            ),
            Err(OutputError::UnknownFormat(name)) => destination(output_arg@) is None && name@
                == output_arg@,
            Err(OutputError::Serialize(_)) => false,
        },
{
    let mut writer = match create_writer(output_arg) {
        Ok(w) => w,
        Err(e) => { return Err(e); },
    };
    let mut text = match writer.write_batch(logs) {
        Ok(s) => s,
        Err(e) => { return Err(e); },
    };
    text.append(writer.finish().as_str());
    Ok(text)
}

/// The framing state after a run of batches.
pub open spec fn run_state(writer: Writer, batches: Seq<Seq<LogEntryView>>) -> Writer
    decreases batches.len(),
{
    if batches.len() == 0 {
        writer
    } else {
        run_state(writer, batches.drop_last()).after_batch(batches.last())
    }
}

/// All that is written for a run of batches, one after the other.
pub open spec fn run_text(writer: Writer, batches: Seq<Seq<LogEntryView>>) -> Seq<char>
    decreases batches.len(),
{
    if batches.len() == 0 {
        Seq::empty()
    } else {
        run_text(writer, batches.drop_last()) + run_state(writer, batches.drop_last()).batch_text(
            batches.last(),
        )
    }
}

/// The entries of a second batch are written as if they had come at the end
/// of the first.
pub proof fn lemma_body_join(writer: Writer, first: Seq<LogEntryView>, second: Seq<LogEntryView>)
    ensures
        writer.body_text(first + second) == writer.body_text(first) + writer.after_batch(
            first,
        ).body_text(second),
    decreases second.len(),
{
    let next = writer.after_batch(first);
    if second.len() == 0 {
        assert(first + second =~= first);
        assert(writer.body_text(first) + next.body_text(second) =~= writer.body_text(first));
    } else {
        let all = first + second;
        assert(all.drop_last() =~= first + second.drop_last());
        assert(all.last() == second.last());
        lemma_body_join(writer, first, second.drop_last());
        assert(writer.lead_text(all.len() == 1) == next.lead_text(second.len() == 1));
        assert(writer.entry_text(all.last()) == next.entry_text(second.last()));
        assert(writer.body_text(all) =~= writer.body_text(first) + next.body_text(second));
    }
}

/// Two batches written one after the other give the text, and leave the
/// state, of one batch that holds the entries of both.
pub proof fn lemma_batches_join(writer: Writer, first: Seq<LogEntryView>, second: Seq<LogEntryView>)
    ensures
        writer.batch_text(first) + writer.after_batch(first).batch_text(second)
            == writer.batch_text(first + second),
        writer.after_batch(first).after_batch(second) == writer.after_batch(first + second),
{
    lemma_body_join(writer, first, second);
    let next = writer.after_batch(first);
    assert(next.header_text() =~= Seq::<char>::empty());
    assert(writer.batch_text(first) + next.batch_text(second) =~= writer.batch_text(
        first + second,
    ));
}

/// However the entries of a run are cut into batches, as long as there is a
/// batch, the run writes what one batch of all the entries writes.
pub proof fn lemma_run_is_one_batch(writer: Writer, batches: Seq<Seq<LogEntryView>>)
    requires
        batches.len() > 0,
    ensures
        run_text(writer, batches) == writer.batch_text(batches.flatten()),
        run_state(writer, batches) == writer.after_batch(batches.flatten()),
    decreases batches.len(),
{
    let before = batches.drop_last();
    let last = batches.last();
    assert(batches =~= before.push(last));
    before.lemma_flatten_push(last);
    if before.len() == 0 {
        assert(before.flatten() =~= Seq::<LogEntryView>::empty());
        assert(batches.flatten() =~= last);
        assert(run_state(writer, before) == writer);
        assert(run_text(writer, before) =~= Seq::<char>::empty());
        assert(run_text(writer, batches) =~= writer.batch_text(last));
    } else {
        lemma_run_is_one_batch(writer, before);
        lemma_batches_join(writer, before.flatten(), last);
    }
}

/// A JSON document is the same text whatever the size of the batches: an
/// opening bracket, the entries with commas between them, and the closing
/// bracket, also where the run has no batch or no entry at all.
pub proof fn lemma_json_document(batches: Seq<Seq<LogEntryView>>)
    ensures
        run_text(Writer::JsonFile(false), batches) + run_state(
            Writer::JsonFile(false),
            batches,
        ).closing_text() == whole_text(Writer::JsonFile(false), batches.flatten()),
{
    let writer = Writer::JsonFile(false);
    if batches.len() == 0 {
        assert(batches.flatten() =~= Seq::<LogEntryView>::empty());
        assert(writer.batch_text(Seq::<LogEntryView>::empty()) =~= Seq::<char>::empty());
        assert(run_text(writer, batches) + run_state(writer, batches).closing_text()
            =~= whole_text(writer, batches.flatten()));
    } else {
        lemma_run_is_one_batch(writer, batches);
    }
}

} // verus!
