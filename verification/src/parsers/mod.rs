//! The parsers, one for each log format, and the lookup of a format by name.

pub mod apache;
pub mod journalctl;
pub mod nginx;
pub mod python_web;
pub mod scan;
pub mod syslog;

use crate::config::{views, LogEntry, LogEntryView};
use crate::lines::line_count;
use crate::text::same_text;
use vstd::prelude::*;
use vstd::string::*;

verus! {

/// The log formats that can be read.
#[derive(Debug, Clone, Copy, PartialEq, Eq, Structural)]
pub enum Format {
    Syslog,
    Nginx,
    Apache,
    Journalctl,
    PythonWeb,
}

/// Why nothing was parsed.
#[derive(Debug, Clone, PartialEq, Eq)]
pub enum ParseError {
    /// No format goes by this name.
    UnknownParser(String),
}

impl ParseError {
    /// The error in words.
    pub open spec fn text(self) -> Seq<char> {
        match self {
            ParseError::UnknownParser(name) => "Unknown parser: "@ + name@,
        }
    }

    /// The error in words.
    pub fn message(&self) -> (message: String)
        ensures
            message@ == self.text(),
    {
        match self {
            ParseError::UnknownParser(name) => {
                let mut message = "Unknown parser: ".to_owned();
                message.append(name.as_str());
                message
            },
        }
    }
}

impl Format {
    /// The format that goes by `name`, if any.
    pub open spec fn named(name: Seq<char>) -> Option<Format> {
        if name == "syslog"@ {
            Some(Format::Syslog)
        } else if name == "nginx"@ {
            Some(Format::Nginx)
        } else if name == "apache"@ {
            Some(Format::Apache)
        } else if name == "journalctl"@ {
            Some(Format::Journalctl)
        } else if name == "python_web"@ {
            Some(Format::PythonWeb)
        } else {
            None
        }
    }

    /// The length below which a line of this format is passed over unread.
    pub open spec fn min_line_len(self) -> nat {
        match self {
            Format::Syslog => syslog::MIN_LINE_LEN as nat,
            Format::Nginx => nginx::MIN_LINE_LEN as nat,
            Format::Apache => apache::MIN_LINE_LEN as nat,
            Format::Journalctl => journalctl::MIN_LINE_LEN as nat,
            Format::PythonWeb => python_web::MIN_LINE_LEN as nat,
        }
    }

    /// The entry that one line of this format gives, if it gives one.
    pub open spec fn line_entry(self, line: Seq<u8>) -> Option<LogEntryView> {
        match self {
            Format::Syslog => syslog::syslog_entry(line),
            Format::Nginx => nginx::nginx_entry(line),
            Format::Apache => apache::apache_entry(line),
            Format::Journalctl => journalctl::journal_entry(line),
            Format::PythonWeb => python_web::python_entry(line),
        }
    }

    /// Looks a format up by its name.
    pub fn from_name(name: &str) -> (format: Result<Format, ParseError>)
        ensures
            match format {
                Ok(f) => Format::named(name@) == Some(f),
                Err(ParseError::UnknownParser(unknown)) => Format::named(name@) is None
                    && unknown@ == name@,
            },
    {
        if same_text(name, "syslog") {
            Ok(Format::Syslog)
        } else if same_text(name, "nginx") {
            Ok(Format::Nginx)
        } else if same_text(name, "apache") {
            Ok(Format::Apache)
        } else if same_text(name, "journalctl") {
            Ok(Format::Journalctl)
        } else if same_text(name, "python_web") {
            Ok(Format::PythonWeb)
        } else {
            Err(ParseError::UnknownParser(name.to_owned()))
        }
    }

    /// The length below which a line of this format is passed over unread.
    pub fn shortest_line(self) -> (len: usize)
        ensures
            len == self.min_line_len(),
    {
        match self {
            Format::Syslog => syslog::MIN_LINE_LEN,
            Format::Nginx => nginx::MIN_LINE_LEN,
            Format::Apache => apache::MIN_LINE_LEN,
            Format::Journalctl => journalctl::MIN_LINE_LEN,
            Format::PythonWeb => python_web::MIN_LINE_LEN,
        }
    }

    /// Reads one line of this format.
    pub fn parse_line(self, line: &[u8]) -> (entry: Option<LogEntry>)
        ensures
            crate::config::entry_view(entry) == self.line_entry(line@),
    {
        match self {
            Format::Syslog => syslog::parse_line(line),
            Format::Nginx => nginx::parse_line_to_logentry(line),
            Format::Apache => apache::parse_line(line),
            Format::Journalctl => journalctl::parse_line(line),
            Format::PythonWeb => python_web::parse_line(line),
        }
    }
}

/// Parses `input` with the parser that goes by the name `parser`.
///
/// An unknown name is an error, whatever the input holds. With a known name
/// the result holds, in the order of the lines, the entry of every line that
/// gives one.
pub fn parse(parser: &str, input: &str) -> (result: Result<Vec<LogEntry>, ParseError>)
    ensures
        match result {
            Ok(entries) => Format::named(parser@) matches Some(format) && views(entries@)
                == scan::chunk_entries(format, input.spec_bytes()) && entries@.len() <= line_count(
                input.spec_bytes(),
            ),
            Err(ParseError::UnknownParser(unknown)) => Format::named(parser@) is None && unknown@
                == parser@,
        },
{
    match Format::from_name(parser) {
        Ok(Format::Syslog) => syslog::parse_syslog(input),
        Ok(Format::Nginx) => nginx::parse_nginx(input),
        Ok(Format::Apache) => apache::parse_apache(input),
        Ok(Format::Journalctl) => journalctl::parse_journal(input),
        Ok(Format::PythonWeb) => python_web::parse_python_logs(input),
        Err(e) => Err(e),
    }
}

} // verus!
