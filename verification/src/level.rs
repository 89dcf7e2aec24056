//! Severity: a closed set of three levels, and the rules that derive a level
//! from a message, from an HTTP status or from a level name.

use vstd::prelude::*;

verus! {

/// The severity of an entry.
#[derive(Debug, Clone, Copy, PartialEq, Eq, Structural)]
pub enum Level {
    Info,
    Warn,
    Error,
}

impl Level {
    /// The level as it is written into an entry.
    pub open spec fn name(self) -> Seq<char> {
        match self {
            Level::Info => "info"@,
            Level::Warn => "warn"@,
            Level::Error => "error"@,
        }
    }

    /// The level as it is written into an entry.
    pub fn as_str(self) -> (s: &'static str)
        ensures
            s@ == self.name(),
    {
        match self {
            Level::Info => "info",
            Level::Warn => "warn",
            Level::Error => "error",
        }
    }
}

/// An ASCII capital letter as its small letter; any other byte unchanged.
pub open spec fn lower(b: u8) -> u8 {
    if 65 <= b <= 90 {
        (b + 32) as u8
    } else {
        b
    }
}

/// `word` stands in `hay` at index `at`, letter case aside.
pub open spec fn word_at(hay: Seq<u8>, at: int, word: Seq<u8>) -> bool {
    &&& 0 <= at
    &&& at + word.len() <= hay.len()
    &&& forall|j: int| 0 <= j < word.len() ==> lower(#[trigger] hay[at + j]) == word[j]
}

/// `word` stands somewhere in `hay`, letter case aside.
pub open spec fn mentions(hay: Seq<u8>, word: Seq<u8>) -> bool {
    exists|at: int| word_at(hay, at, word)
}

/// The bytes of `error`.
pub open spec fn word_error() -> Seq<u8> {
    seq![101u8, 114u8, 114u8, 111u8, 114u8]
}

/// The bytes of `fail`.
pub open spec fn word_fail() -> Seq<u8> {
    seq![102u8, 97u8, 105u8, 108u8]
}

/// The bytes of `warn`.
pub open spec fn word_warn() -> Seq<u8> {
    seq![119u8, 97u8, 114u8, 110u8]
}

/// The bytes of `warning`.
pub open spec fn word_warning() -> Seq<u8> {
    seq![119u8, 97u8, 114u8, 110u8, 105u8, 110u8, 103u8]
}

/// The level of a free-text message: `error` where it mentions `error` or
/// `fail`, else `warn` where it mentions `warn`, else `info`.
pub open spec fn level_of_message(message: Seq<u8>) -> Level {
    if mentions(message, word_error()) || mentions(message, word_fail()) {
        Level::Error
    } else if mentions(message, word_warn()) {
        Level::Warn
    } else {
        Level::Info
    }
}

/// The level of an HTTP status: 400 to 499 is `warn`, 500 and above is
/// `error`, anything else `info`.
pub open spec fn level_of_status(status: int) -> Level {
    if 400 <= status < 500 {
        Level::Warn
    } else if status >= 500 {
        Level::Error
    } else {
        Level::Info
    }
}

/// `token` is `word`, letter case aside.
pub open spec fn is_word(token: Seq<u8>, word: Seq<u8>) -> bool {
    token.len() == word.len() && word_at(token, 0, word)
}

/// The level that a level name stands for: `error`, `warn` or `warning` in
/// any letter case; every other name is `info`.
pub open spec fn level_of_name(token: Seq<u8>) -> Level {
    if is_word(token, word_error()) {
        Level::Error
    } else if is_word(token, word_warn()) || is_word(token, word_warning()) {
        Level::Warn
    } else {
        Level::Info
    }
}

/// An ASCII capital letter as its small letter.
pub fn to_lower(b: u8) -> (r: u8)
    ensures
        r == lower(b),
{
    if b >= 65 && b <= 90 {
        b + 32
    } else {
        b
    }
}

/// Whether `word` stands in `hay` at `at`, letter case aside.
pub fn has_word_at(hay: &[u8], at: usize, word: &[u8]) -> (r: bool)
    ensures
        r == word_at(hay@, at as int, word@),
{
    if at > hay.len() || hay.len() - at < word.len() {
        return false;
    }
    let mut j: usize = 0;
    while j < word.len()
        invariant
            j <= word.len(),
            at + word.len() <= hay.len(),
            forall|k: int| 0 <= k < j ==> lower(#[trigger] hay@[at + k]) == word@[k],
        decreases word.len() - j,
    {
        if to_lower(hay[at + j]) != word[j] {
            return false;
        }
        j += 1;
    }
    true
}

/// Whether `word` stands somewhere in `hay`, letter case aside.
pub fn has_word(hay: &[u8], word: &[u8]) -> (r: bool)
    ensures
        r == mentions(hay@, word@),
{
    if word.len() > hay.len() {
        return false;
    }
    let last = hay.len() - word.len();
    let mut at: usize = 0;
    while at <= last
        invariant
            at <= last + 1,
            last + word.len() == hay.len(),
            forall|k: int| 0 <= k < at ==> !word_at(hay@, k, word@),
        decreases last + 1 - at,
    {
        if has_word_at(hay, at, word) {
            return true;
        }
        at += 1;
    }
    false
}

/// The level of a free-text message.
pub fn classify_message(message: &[u8]) -> (level: Level)
    ensures
        level == level_of_message(message@),
{
    let error: [u8; 5] = [101, 114, 114, 111, 114];
    let fail: [u8; 4] = [102, 97, 105, 108];
    let warn: [u8; 4] = [119, 97, 114, 110];
    assert(error@ == word_error());
    assert(fail@ == word_fail());
    assert(warn@ == word_warn());
    if has_word(message, error.as_slice()) || has_word(message, fail.as_slice()) {
        Level::Error
    } else if has_word(message, warn.as_slice()) {
        Level::Warn
    } else {
        Level::Info
    }
}

/// The level of an HTTP status.
pub fn classify_status(status: usize) -> (level: Level)
    ensures
        level == level_of_status(status as int),
{
    if status >= 400 && status < 500 {
        Level::Warn
    } else if status >= 500 {
        Level::Error
    } else {
        Level::Info
    }
}

/// The level that a level name stands for.
pub fn classify_name(token: &[u8]) -> (level: Level)
    ensures
        level == level_of_name(token@),
{
    let error: [u8; 5] = [101, 114, 114, 111, 114];
    let warn: [u8; 4] = [119, 97, 114, 110];
    let warning: [u8; 7] = [119, 97, 114, 110, 105, 110, 103];
    assert(error@ == word_error());
    assert(warn@ == word_warn());
    assert(warning@ == word_warning());
    if token.len() == 5 && has_word_at(token, 0, error.as_slice()) {
        Level::Error
    } else if token.len() == 4 && has_word_at(token, 0, warn.as_slice()) {
        Level::Warn
    } else if token.len() == 7 && has_word_at(token, 0, warning.as_slice()) {
        Level::Warn
    } else {
        Level::Info
    }
}

} // verus!
