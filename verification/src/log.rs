//! The log pipeline: levels, the sink that producers write to, and what the
//! log thread does with each record.

use std::cmp::Ordering;
use vstd::prelude::*;
use vstd::std_specs::cmp::PartialOrdSpecImpl;
use crate::config::Config;
use crate::text::is_word;
use crate::text::lowercase;

verus! {

/// How serious a record is, from least to most.
#[derive(Debug, Clone, Copy, PartialEq, Eq, Structural)]
pub enum LogLevel {
    Debug,
    Info,
    Warning,
    Error,
    Critical,
}

/// The place of a level in the order of levels.
pub open spec fn severity(level: LogLevel) -> int {
    match level {
        LogLevel::Debug => 0,
        LogLevel::Info => 1,
        LogLevel::Warning => 2,
        LogLevel::Error => 3,
        LogLevel::Critical => 4,
    }
}

/// How a level is written in a log line.
pub open spec fn level_name(level: LogLevel) -> Seq<char> {
    match level {
        LogLevel::Debug => "debug"@,
        LogLevel::Info => "info"@,
        LogLevel::Warning => "Warning"@,
        LogLevel::Error => "Error"@,
        LogLevel::Critical => "CRITICAL"@,
    }
}

/// The level that a word in lower case names.
pub open spec fn level_by_name(lower: Seq<char>) -> Option<LogLevel> {
    if lower == "debug"@ {
        Some(LogLevel::Debug)
    } else if lower == "info"@ {
        Some(LogLevel::Info)
    } else if lower == "warning"@ {
        Some(LogLevel::Warning)
    } else if lower == "error"@ {
        Some(LogLevel::Error)
    } else if lower == "critical"@ {
        Some(LogLevel::Critical)
    } else {
        None
    }
}

/// The level that a word names, whatever its letter case.
pub open spec fn level_of(word: Seq<char>) -> Option<LogLevel> {
    level_by_name(lowercase(word))
}

/// The level that a word names, once the word is in lower case.
pub fn level_named(lower: &str) -> (l: Option<LogLevel>)
    ensures
        l == level_by_name(lower@),
{
    let word = crate::text::chars_of(lower);
    if is_word(&word, "debug") {
        Some(LogLevel::Debug)
    } else if is_word(&word, "info") {
        Some(LogLevel::Info)
    } else if is_word(&word, "warning") {
        Some(LogLevel::Warning)
    } else if is_word(&word, "error") {
        Some(LogLevel::Error)
    } else if is_word(&word, "critical") {
        Some(LogLevel::Critical)
    } else {
        None
    }
}

impl LogLevel {
    /// The place of this level in the order of levels.
    pub fn rank(&self) -> (r: u8)
        ensures
            r == severity(*self),
    {
        match self {
            LogLevel::Debug => 0,
            LogLevel::Info => 1,
            LogLevel::Warning => 2,
            LogLevel::Error => 3,
            LogLevel::Critical => 4,
        }
    }
}

impl PartialOrd for LogLevel {
    fn partial_cmp(&self, other: &LogLevel) -> (r: Option<Ordering>) {
        let a = self.rank();
        let b = other.rank();
        if a < b {
            Some(Ordering::Less)
        } else if a == b {
            Some(Ordering::Equal)
        } else {
            Some(Ordering::Greater)
        }
    }
}

impl PartialOrdSpecImpl for LogLevel {
    open spec fn obeys_partial_cmp_spec() -> bool {
        true
    }

    open spec fn partial_cmp_spec(&self, other: &LogLevel) -> Option<Ordering> {
        if severity(*self) < severity(*other) {
            Some(Ordering::Less)
        } else if severity(*self) == severity(*other) {
            Some(Ordering::Equal)
        } else {
            Some(Ordering::Greater)
        }
    }
}

impl From<LogLevel> for &'static str {
    fn from(level: LogLevel) -> (name: &'static str)
        ensures
            name@ == level_name(level),
    {
        match level {
            LogLevel::Debug => "debug",
            LogLevel::Info => "info",
            LogLevel::Warning => "Warning",
            LogLevel::Error => "Error",
            LogLevel::Critical => "CRITICAL",
        }
    }
}

impl vstd::std_specs::convert::FromSpecImpl<LogLevel> for &'static str {
    open spec fn obeys_from_spec() -> bool {
        true
    }

    open spec fn from_spec(level: LogLevel) -> &'static str {
        match level {
            LogLevel::Debug => "debug",
            LogLevel::Info => "info",
            LogLevel::Warning => "Warning",
            LogLevel::Error => "Error",
            LogLevel::Critical => "CRITICAL",
        }
    }
}

/// A word that names no log level.
#[derive(Debug, PartialEq, Eq)]
pub struct LevelParseError(pub String);

impl LevelParseError {
    /// What to tell the user.
    pub fn message(&self) -> (text: String)
        ensures
            text@ == "\""@ + self.0@ + "\" is not a valid log level"@,
    {
        let mut text = String::from_str("\"");
        text.append(self.0.as_str());
        text.append("\" is not a valid log level");
        text
    }
}

impl TryFrom<&str> for LogLevel {
    type Error = LevelParseError;

    /// Reads the name of a level, in any letter case.
    fn try_from(value: &str) -> (r: Result<LogLevel, LevelParseError>)
        ensures
            match r {
                Ok(level) => level_of(value@) == Some(level),
                Err(e) => level_of(value@) is None && e.0@ == value@,
            },
    {
        let lower = value.to_lowercase();
        match level_named(lower.as_str()) {
            Some(level) => Ok(level),
            None => Err(LevelParseError(String::from_str(value))),
        }
    }
}

// What `try_from` returns is stated in its own contract, over the characters
// of the word; a refusal holds a `String`, which has no value-level model.
impl vstd::std_specs::convert::TryFromSpecImpl<&str> for LogLevel {
    open spec fn obeys_try_from_spec() -> bool {
        false
    }

    open spec fn try_from_spec(value: &str) -> Result<LogLevel, LevelParseError> {
        arbitrary()
    }
}

/// How many records may wait between the producers and the log thread.
pub const QUEUE_CAPACITY: usize = 100;

/// The line that records a message: `[<timestamp>] [<LEVEL>] <message>` and
/// a line feed.
pub open spec fn line_text(timestamp: Seq<char>, level: LogLevel, msg: Seq<char>) -> Seq<char> {
    "["@ + timestamp + "] ["@ + level_name(level) + "] "@ + msg + "\n"@
}

/// What the log thread does with one record.
#[derive(Debug, PartialEq, Eq)]
pub struct Written {
    /// The line of the record.
    pub line: String,
    /// Whether the line goes to the log file.
    pub to_file: bool,
    /// Whether the line is echoed on the terminal.
    pub to_terminal: bool,
}

/// One turn of the log thread: formats a record taken at `timestamp` and
/// decides where it goes. The file gets what is at least `file_level`, the
/// terminal what is at least `term_level`, if one is set.
pub fn log_main(
    timestamp: &str,
    level: LogLevel,
    msg: &str,
    file_level: LogLevel,
    term_level: Option<LogLevel>,
) -> (w: Written)
    ensures
        w.line@ == line_text(timestamp@, level, msg@),
        w.to_file == (severity(level) >= severity(file_level)),
        w.to_terminal == match term_level {
            Some(min) => severity(level) >= severity(min),
            None => false,
        },
{
    let mut line = String::from_str("[");
    line.append(timestamp);
    line.append("] [");
    line.append(<&'static str>::from(level));
    line.append("] ");
    line.append(msg);
    line.append("\n");
    let to_terminal = match term_level {
        Some(min) => level >= min,
        None => false,
    };
    Written { line, to_file: level >= file_level, to_terminal }
}

/// The producers' end of the log pipeline. Records are taken only between
/// `start` and `stop`.
pub struct Sink {
    running: bool,
}

/// How the log file is to be opened and what the log thread filters by.
#[derive(Debug, PartialEq, Eq)]
pub struct Opening {
    pub path: String,
    /// Add to the end of the file.
    pub append: bool,
    /// Empty the file, once the lock on it is held.
    pub truncate: bool,
    pub file_level: LogLevel,
    pub term_level: Option<LogLevel>,
    /// How many records the queue to the log thread holds.
    pub capacity: usize,
}

impl Sink {
    /// Whether records are taken.
    pub closed spec fn is_running(&self) -> bool {
        self.running
    }

    /// A sink that takes nothing yet.
    pub fn new() -> (sink: Sink)
        ensures
            !sink.is_running(),
    {
        Sink { running: false }
    }
}

/// The record to hand to the log thread for a message, if the sink takes
/// records.
pub fn log(sink: &Sink, level: LogLevel, msg: &str) -> (record: Option<(LogLevel, String)>)
    ensures
        record is Some <==> sink.is_running(),
        record matches Some(r) ==> r.0 == level && r.1@ == msg@,
{
    if sink.running {
        Some((level, String::from_str(msg)))
    } else {
        None
    }
}

/// How the log file is to be opened: a log that is overwritten is emptied,
/// any other is added to.
pub fn opening(cfg: &Config) -> (opening: Opening)
    ensures
        opening.path@ == cfg.log_path@,
        opening.append == !cfg.overwrite_log,
        opening.truncate == cfg.overwrite_log,
        opening.file_level == cfg.log_level,
        opening.term_level == cfg.term_log_level,
        opening.capacity == QUEUE_CAPACITY,
{
    Opening {
        path: cfg.log_path.clone(),
        append: !cfg.overwrite_log,
        truncate: cfg.overwrite_log,
        file_level: cfg.log_level,
        term_level: cfg.term_log_level,
        capacity: QUEUE_CAPACITY,
    }
}

/// Opens the sink, if the log file is held: `locked` says whether the
/// exclusive lock on the log file was got. Without the lock another
/// instance owns the log; the sink stays as it was and the server must not
/// start.
pub fn start(sink: &mut Sink, locked: bool) -> (started: bool)
    ensures
        started == locked,
        final(sink).is_running() == (locked || old(sink).is_running()),
{
    if locked {
        sink.running = true;
    }
    locked
}

/// Closes the sink: from now on `log` hands on nothing.
pub fn stop(sink: &mut Sink)
    ensures
        !final(sink).is_running(),
{
    sink.running = false;
}

} // verus!
