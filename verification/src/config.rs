//! The configuration file: one `key value` per line, `#` starts a comment,
//! keys in any letter case.

use vstd::prelude::*;
use crate::log::level_by_name;
use crate::log::level_named;
use crate::log::LevelParseError;
use crate::log::LogLevel;
use crate::text::chars_of;
use crate::text::digit_of;
use crate::text::digit_value;
use crate::text::is_word;
use crate::text::lowercase;
use crate::text::same;
use crate::text::split;
use crate::text::split_at_each;
use crate::text::split_once;
use crate::text::split_once_at;
use crate::text::string_of;
use crate::text::trim;
use crate::text::trimmed;

verus! {

/// The settings of the server.
#[derive(Debug, PartialEq, Eq)]
pub struct Config {
    pub log_path: String,
    pub log_level: LogLevel,
    pub term_log_level: Option<LogLevel>,
    pub overwrite_log: bool,
    /// The listen address as written, `ip:port`.
    pub host: String,
    pub certificate: String,
    pub key: String,
    pub db_host: String,
    pub db_port: u16,
    pub db_name: String,
    pub db_user: String,
    pub db_password: String,
    pub db_ssl: bool,
}

/// The settings as mathematical values.
pub struct ConfigView {
    pub log_path: Seq<char>,
    pub log_level: LogLevel,
    pub term_log_level: Option<LogLevel>,
    pub overwrite_log: bool,
    pub host: Seq<char>,
    pub certificate: Seq<char>,
    pub key: Seq<char>,
    pub db_host: Seq<char>,
    pub db_port: u16,
    pub db_name: Seq<char>,
    pub db_user: Seq<char>,
    pub db_password: Seq<char>,
    pub db_ssl: bool,
}

impl View for Config {
    type V = ConfigView;

    open spec fn view(&self) -> ConfigView {
        ConfigView {
            log_path: self.log_path@,
            log_level: self.log_level,
            term_log_level: self.term_log_level,
            overwrite_log: self.overwrite_log,
            host: self.host@,
            certificate: self.certificate@,
            key: self.key@,
            db_host: self.db_host@,
            db_port: self.db_port,
            db_name: self.db_name@,
            db_user: self.db_user@,
            db_password: self.db_password@,
            db_ssl: self.db_ssl,
        }
    }
}

/// Why a configuration was refused.
#[derive(Debug, PartialEq, Eq)]
pub enum Error {
    /// A key that names no setting.
    UnknownOption(String),
    /// A value of `loglevel` or `termloglevel` that names no level.
    Level(LevelParseError),
    /// A value of `overwritelog` or `dbssl` that is neither `true` nor `false`.
    Flag,
    /// A value of `dbport` that is no port number.
    Port(PortFault),
}

/// What is wrong with a port number.
#[derive(Debug, Clone, Copy, PartialEq, Eq, Structural)]
pub enum PortFault {
    /// Nothing was written.
    Empty,
    /// A character that is no decimal digit, or a sign without digits.
    InvalidDigit,
    /// More than 65535.
    PosOverflow,
}

/// An error as mathematical values.
pub enum ErrorView {
    UnknownOption(Seq<char>),
    Level(Seq<char>),
    Flag,
    Port(PortFault),
}

impl View for Error {
    type V = ErrorView;

    open spec fn view(&self) -> ErrorView {
        match self {
            Error::UnknownOption(key) => ErrorView::UnknownOption(key@),
            Error::Level(e) => ErrorView::Level(e.0@),
            Error::Flag => ErrorView::Flag,
            Error::Port(fault) => ErrorView::Port(*fault),
        }
    }
}

/// The settings of a server that was given no configuration.
pub open spec fn defaults() -> ConfigView {
    ConfigView {
        log_path: "server.log"@,
        log_level: LogLevel::Info,
        term_log_level: None,
        overwrite_log: false,
        host: "0.0.0.0:46278"@,
        certificate: "cert.crt"@,
        key: "cert.key"@,
        db_host: ""@,
        db_port: 3306,
        db_name: ""@,
        db_user: ""@,
        db_password: ""@,
        db_ssl: false,
    }
}

impl Default for Config {
    fn default() -> (cfg: Config)
        ensures
            cfg@ == defaults(),
    {
        Config {
            log_path: String::from_str("server.log"),
            log_level: LogLevel::Info,
            term_log_level: None,
            overwrite_log: false,
            host: String::from_str("0.0.0.0:46278"),
            certificate: String::from_str("cert.crt"),
            key: String::from_str("cert.key"),
            db_host: String::from_str(""),
            db_port: 3306,
            db_name: String::from_str(""),
            db_user: String::from_str(""),
            db_password: String::from_str(""),
            db_ssl: false,
        }
    }
}

/// What one line of the file sets: the line up to its first `#`, trimmed and
/// cut at its first space into key and value, both trimmed. A line without a
/// space is a key with an empty value; a line that is empty after trimming
/// sets nothing.
pub open spec fn entry(line: Seq<char>) -> Option<(Seq<char>, Seq<char>)> {
    let text = trim(
        match split_once(line, '#') {
            Some((before, comment)) => before,
            None => line,
        },
    );
    if text.len() == 0 {
        None
    } else {
        match split_once(text, ' ') {
            Some((key, value)) => Some((trim(key), trim(value))),
            None => Some((text, seq![])),
        }
    }
}

/// The entries with `key` set to `value`: in the place of the first entry
/// that has this key, or at the end if none has.
pub open spec fn put(entries: Seq<(Seq<char>, Seq<char>)>, key: Seq<char>, value: Seq<char>) -> Seq<
    (Seq<char>, Seq<char>),
>
    decreases entries.len(),
{
    if entries.len() == 0 {
        seq![(key, value)]
    } else if entries[0].0 == key {
        seq![(key, value)] + entries.drop_first()
    } else {
        seq![entries[0]] + put(entries.drop_first(), key, value)
    }
}

/// What the given lines set, each key once, with the value of its last line.
pub open spec fn collect(lines: Seq<Seq<char>>) -> Seq<(Seq<char>, Seq<char>)>
    decreases lines.len(),
{
    if lines.len() == 0 {
        seq![]
    } else {
        match entry(lines.last()) {
            Some((key, value)) => put(collect(lines.drop_last()), key, value),
            None => collect(lines.drop_last()),
        }
    }
}

/// What a configuration text sets.
pub open spec fn raw(text: Seq<char>) -> Seq<(Seq<char>, Seq<char>)> {
    collect(split(text, '\n'))
}

/// The truth value that a word writes: `true` or `false`, nothing else.
pub open spec fn flag_of(word: Seq<char>) -> Option<bool> {
    if word == "true"@ {
        Some(true)
    } else if word == "false"@ {
        Some(false)
    } else {
        None
    }
}

/// The number that a run of characters writes in decimal digits, read from
/// the left: the first character that is no digit, or the first digit that
/// takes the number past 65535, ends the reading.
pub open spec fn scan_port(digits: Seq<char>) -> Result<nat, PortFault>
    decreases digits.len(),
{
    if digits.len() == 0 {
        Ok(0)
    } else {
        match scan_port(digits.drop_last()) {
            Err(fault) => Err(fault),
            Ok(value) => match digit_value(digits.last()) {
                None => Err(PortFault::InvalidDigit),
                Some(d) => if value * 10 + d > 0xffff {
                    Err(PortFault::PosOverflow)
                } else {
                    Ok(value * 10 + d)
                },
            },
        }
    }
}

/// The port that a word writes: decimal digits, a `+` before them allowed,
/// no more than 65535.
pub open spec fn port_of(word: Seq<char>) -> Result<u16, PortFault> {
    let digits = if word.len() > 0 && word[0] == '+' {
        word.drop_first()
    } else {
        word
    };
    if word.len() == 0 {
        Err(PortFault::Empty)
    } else if digits.len() == 0 {
        Err(PortFault::InvalidDigit)
    } else {
        match scan_port(digits) {
            Ok(n) => Ok(n as u16),
            Err(fault) => Err(fault),
        }
    }
}

/// The settings after one entry was applied, or why the entry is refused;
/// `k` is the key and `lower` the value, both in lower case. The key is
/// matched in lower case, and so are the names of log levels; every other
/// value is taken as it was written.
pub open spec fn applied(
    cfg: ConfigView,
    key: Seq<char>,
    k: Seq<char>,
    value: Seq<char>,
    lower: Seq<char>,
) -> Result<ConfigView, ErrorView> {
    if k == "logpath"@ {
        Ok(ConfigView { log_path: value, ..cfg })
    } else if k == "loglevel"@ {
        match level_by_name(lower) {
            Some(level) => Ok(ConfigView { log_level: level, ..cfg }),
            None => Err(ErrorView::Level(value)),
        }
    } else if k == "termloglevel"@ {
        match level_by_name(lower) {
            Some(level) => Ok(ConfigView { term_log_level: Some(level), ..cfg }),
            None => Err(ErrorView::Level(value)),
        }
    } else if k == "overwritelog"@ {
        match flag_of(value) {
            Some(flag) => Ok(ConfigView { overwrite_log: flag, ..cfg }),
            None => Err(ErrorView::Flag),
        }
    } else if k == "host"@ {
        Ok(ConfigView { host: value, ..cfg })
    } else if k == "cert"@ || k == "certificate"@ {
        Ok(ConfigView { certificate: value, ..cfg })
    } else if k == "key"@ {
        Ok(ConfigView { key: value, ..cfg })
    } else if k == "dbhost"@ {
        Ok(ConfigView { db_host: value, ..cfg })
    } else if k == "dbport"@ {
        match port_of(value) {
            Ok(port) => Ok(ConfigView { db_port: port, ..cfg }),
            Err(fault) => Err(ErrorView::Port(fault)),
        }
    } else if k == "dbname"@ {
        Ok(ConfigView { db_name: value, ..cfg })
    } else if k == "dbuser"@ {
        Ok(ConfigView { db_user: value, ..cfg })
    } else if k == "dbpassword"@ {
        Ok(ConfigView { db_password: value, ..cfg })
    } else if k == "dbssl"@ {
        match flag_of(value) {
            Some(flag) => Ok(ConfigView { db_ssl: flag, ..cfg }),
            None => Err(ErrorView::Flag),
        }
    } else {
        Err(ErrorView::UnknownOption(key))
    }
}

/// The settings after one entry was applied, or why the entry is refused.
pub open spec fn apply(cfg: ConfigView, key: Seq<char>, value: Seq<char>) -> Result<
    ConfigView,
    ErrorView,
> {
    applied(cfg, key, lowercase(key), value, lowercase(value))
}

/// The settings after the entries were applied in order, or the first
/// refusal.
pub open spec fn apply_all(cfg: ConfigView, entries: Seq<(Seq<char>, Seq<char>)>) -> Result<
    ConfigView,
    ErrorView,
>
    decreases entries.len(),
{
    if entries.len() == 0 {
        Ok(cfg)
    } else {
        match apply_all(cfg, entries.drop_last()) {
            Ok(before) => apply(before, entries.last().0, entries.last().1),
            Err(e) => Err(e),
        }
    }
}

/// What a configuration text comes to.
pub open spec fn loaded(text: Seq<char>) -> Result<ConfigView, ErrorView> {
    apply_all(defaults(), raw(text))
}

/// The view of a list of entries.
pub open spec fn entries_view(entries: Seq<(String, String)>) -> Seq<(Seq<char>, Seq<char>)> {
    entries.map_values(|e: (String, String)| (e.0@, e.1@))
}

/// Reads one line of the file.
fn entry_of(line: &Vec<char>) -> (e: Option<(Vec<char>, Vec<char>)>)
    ensures
        match e {
            Some((key, value)) => entry(line@) == Some((key@, value@)),
            None => entry(line@) is None,
        },
{
    let text = match split_once_at(line, '#') {
        Some((before, _)) => trimmed(&before),
        None => trimmed(line),
    };
    if text.len() == 0 {
        None
    } else {
        match split_once_at(&text, ' ') {
            Some((key, value)) => Some((trimmed(&key), trimmed(&value))),
            None => Some((text, Vec::new())),
        }
    }
}

/// Sets `key` to `value` among the entries.
#[verifier::loop_isolation(false)]
fn put_entry(entries: &mut Vec<(String, String)>, key: &Vec<char>, value: String)
    ensures
        entries_view(final(entries)@) == put(entries_view(old(entries)@), key@, value@),
{
    let ghost before = entries_view(entries@);
    let mut i: usize = 0;
    assert(before.skip(0) == before);
    while i < entries.len()
        invariant
            i <= entries.len(),
            before == entries_view(entries@),
            put(before, key@, value@) == before.take(i as int) + put(
                before.skip(i as int),
                key@,
                value@,
            ),
        decreases entries.len() - i,
    {
        let held = chars_of(entries[i].0.as_str());
        proof {
            assert(before.skip(i as int)[0] == before[i as int]);
            assert(before.skip(i as int).drop_first() == before.skip(i + 1));
        }
        assert(before[i as int] == (entries@[i as int].0@, entries@[i as int].1@));
        if same(&held, key) {
            entries.set(i, (string_of(key), value));
            assert(entries_view(entries@) =~= before.update(i as int, (key@, value@)));
            assert(before.update(i as int, (key@, value@)) =~= before.take(i as int) + (seq![
                (key@, value@),
            ] + before.skip(i + 1)));
            return ;
        }
        proof {
            assert(before.take(i + 1) == before.take(i as int).push(before[i as int]));
            let rest = put(before.skip(i + 1), key@, value@);
            assert(before.take(i as int) + (seq![before[i as int]] + rest) == before.take(i + 1)
                + rest);
        }
        i += 1;
    }
    proof {
        assert(before.take(i as int) == before);
        assert(before.skip(i as int).len() == 0);
    }
    entries.push((string_of(key), value));
    assert(entries_view(entries@) == before + seq![(key@, value@)]);
}

/// Reads a truth value.
fn parse_flag(word: &Vec<char>) -> (flag: Option<bool>)
    ensures
        flag == flag_of(word@),
{
    if is_word(word, "true") {
        Some(true)
    } else if is_word(word, "false") {
        Some(false)
    } else {
        None
    }
}

/// Reads a port number.
#[verifier::loop_isolation(false)]
fn parse_port(word: &Vec<char>) -> (port: Result<u16, PortFault>)
    ensures
        port == port_of(word@),
{
    if word.len() == 0 {
        return Err(PortFault::Empty);
    }
    let from: usize = if word[0] == '+' {
        1
    } else {
        0
    };
    let ghost digits = word@.skip(from as int);
    proof {
        if from == 1 {
            assert(digits == word@.drop_first());
        } else {
            assert(digits == word@);
        }
    }
    if from == word.len() {
        return Err(PortFault::InvalidDigit);
    }
    let mut value: u32 = 0;
    let mut i: usize = from;
    assert(digits.take(0) == Seq::<char>::empty());
    while i < word.len()
        invariant
            from <= i <= word.len(),
            value <= 0xffff,
            scan_port(digits.take(i - from)) == Ok::<nat, PortFault>(value as nat),
        decreases word.len() - i,
    {
        proof {
            assert(digits.take(i + 1 - from).drop_last() == digits.take(i - from));
            assert(digits.take(i + 1 - from).last() == word@[i as int]);
        }
        match digit_of(word[i]) {
            Some(d) => {
                let next = value * 10 + d as u32;
                if next > 0xffff {
                    proof {
                        lemma_scan_fails(digits, i + 1 - from);
                    }
                    return Err(PortFault::PosOverflow);
                }
                value = next;
            },
            None => {
                proof {
                    lemma_scan_fails(digits, i + 1 - from);
                }
                return Err(PortFault::InvalidDigit);
            },
        }
        i += 1;
    }
    assert(digits.take(word.len() - from) == digits);
    Ok(value as u16)
}

/// Once the reading has ended, the characters after it change nothing.
proof fn lemma_scan_fails(s: Seq<char>, n: int)
    requires
        0 <= n <= s.len(),
        scan_port(s.take(n)) is Err,
    ensures
        scan_port(s) == scan_port(s.take(n)),
    decreases s.len() - n,
{
    if n < s.len() {
        assert(s.take(n + 1).drop_last() == s.take(n));
        lemma_scan_fails(s, n + 1);
    } else {
        assert(s.take(n) == s);
    }
}

/// What is said of a value that is neither `true` nor `false`.
pub open spec fn flag_text() -> Seq<char> {
    "provided string was not `true` or `false`"@
}

/// What is said of a port number that cannot be read.
pub open spec fn fault_text(fault: PortFault) -> Seq<char> {
    match fault {
        PortFault::Empty => "cannot parse integer from empty string"@,
        PortFault::InvalidDigit => "invalid digit found in string"@,
        PortFault::PosOverflow => "number too large to fit in target type"@,
    }
}

/// The message of an error.
pub open spec fn error_text(error: ErrorView) -> Seq<char> {
    match error {
        ErrorView::UnknownOption(key) => "unknown option in config: "@ + key,
        ErrorView::Level(word) => "\""@ + word + "\" is not a valid log level"@,
        ErrorView::Flag => flag_text(),
        ErrorView::Port(fault) => fault_text(fault),
    }
}

impl Error {
    /// What to tell the user.
    pub fn message(&self) -> (text: String)
        ensures
            text@ == error_text(self@),
    {
        match self {
            Error::UnknownOption(key) => {
                let mut text = String::from_str("unknown option in config: ");
                text.append(key.as_str());
                text
            },
            Error::Level(e) => e.message(),
            Error::Flag => String::from_str("provided string was not `true` or `false`"),
            Error::Port(fault) => match fault {
                PortFault::Empty => String::from_str("cannot parse integer from empty string"),
                PortFault::InvalidDigit => String::from_str("invalid digit found in string"),
                PortFault::PosOverflow => String::from_str(
                    "number too large to fit in target type",
                ),
            },
        }
    }
}

impl Config {
    /// Applies one entry.
    fn set(&mut self, key: &str, value: &str) -> (r: Result<(), Error>)
        ensures
            match r {
                Ok(()) => apply(old(self)@, key@, value@) == Ok::<ConfigView, ErrorView>(
                    final(self)@,
                ),
                Err(e) => apply(old(self)@, key@, value@) == Err::<ConfigView, ErrorView>(e@),
            },
    {
        let lower_key = key.to_lowercase();
        let lower_value = value.to_lowercase();
        self.apply_lowered(key, lower_key.as_str(), value, lower_value.as_str())
    }

    /// Applies one entry, given its key and its value in lower case as
    /// well as the way they were written.
    pub fn apply_lowered(&mut self, key: &str, lower_key: &str, value: &str, lower_value: &str) -> (r:
        Result<(), Error>)
        ensures
            match r {
                Ok(()) => applied(old(self)@, key@, lower_key@, value@, lower_value@) == Ok::<
                    ConfigView,
                    ErrorView,
                >(final(self)@),
                Err(e) => applied(old(self)@, key@, lower_key@, value@, lower_value@) == Err::<
                    ConfigView,
                    ErrorView,
                >(e@),
            },
    {
        let k = chars_of(lower_key);
        if is_word(&k, "logpath") {
            self.log_path = String::from_str(value);
        } else if is_word(&k, "loglevel") {
            match level_named(lower_value) {
                Some(level) => {
                    self.log_level = level;
                },
                None => {
                    return Err(Error::Level(LevelParseError(String::from_str(value))));
                },
            }
        } else if is_word(&k, "termloglevel") {
            match level_named(lower_value) {
                Some(level) => {
                    self.term_log_level = Some(level);
                },
                None => {
                    return Err(Error::Level(LevelParseError(String::from_str(value))));
                },
            }
        } else if is_word(&k, "overwritelog") {
            match parse_flag(&chars_of(value)) {
                Some(flag) => {
                    self.overwrite_log = flag;
                },
                None => {
                    return Err(Error::Flag);
                },
            }
        } else if is_word(&k, "host") {
            self.host = String::from_str(value);
        } else if is_word(&k, "cert") || is_word(&k, "certificate") {
            self.certificate = String::from_str(value);
        } else if is_word(&k, "key") {
            self.key = String::from_str(value);
        } else if is_word(&k, "dbhost") {
            self.db_host = String::from_str(value);
        } else if is_word(&k, "dbport") {
            match parse_port(&chars_of(value)) {
                Ok(port) => {
                    self.db_port = port;
                },
                Err(fault) => {
                    return Err(Error::Port(fault));
                },
            }
        } else if is_word(&k, "dbname") {
            self.db_name = String::from_str(value);
        } else if is_word(&k, "dbuser") {
            self.db_user = String::from_str(value);
        } else if is_word(&k, "dbpassword") {
            self.db_password = String::from_str(value);
        } else if is_word(&k, "dbssl") {
            match parse_flag(&chars_of(value)) {
                Some(flag) => {
                    self.db_ssl = flag;
                },
                None => {
                    return Err(Error::Flag);
                },
            }
        } else {
            return Err(Error::UnknownOption(String::from_str(key)));
        }
        Ok(())
    }

    /// Reads the settings from the text of a configuration file, starting
    /// from the defaults.
    ///
    /// Entries are applied in the order in which their keys first appear;
    /// the first one that is refused ends the reading.
    #[verifier::loop_isolation(false)]
    pub fn load(content: &str) -> (r: Result<Config, Error>)
        ensures
            match r {
                Ok(cfg) => loaded(content@) == Ok::<ConfigView, ErrorView>(cfg@),
                Err(e) => loaded(content@) == Err::<ConfigView, ErrorView>(e@),
            },
    {
        let entries = raw_config(content);
        let ghost all = entries_view(entries@);
        let mut cfg = Config::default();
        let mut i: usize = 0;
        while i < entries.len()
            invariant
                i <= entries.len(),
                all == entries_view(entries@),
                apply_all(defaults(), all.take(i as int)) == Ok::<ConfigView, ErrorView>(cfg@),
            decreases entries.len() - i,
        {
            proof {
                assert(all.take(i + 1).drop_last() == all.take(i as int));
                assert(all.take(i + 1).last() == all[i as int]);
                assert(all[i as int] == (entries@[i as int].0@, entries@[i as int].1@));
            }
            match cfg.set(entries[i].0.as_str(), entries[i].1.as_str()) {
                Ok(()) => {},
                Err(e) => {
                    proof {
                        lemma_apply_all_fails(defaults(), all, i + 1);
                    }
                    return Err(e);
                },
            }
            i += 1;
        }
        assert(all.take(entries.len() as int) == all);
        Ok(cfg)
    }
}

/// Once an entry was refused, the entries after it change nothing.
proof fn lemma_apply_all_fails(cfg: ConfigView, entries: Seq<(Seq<char>, Seq<char>)>, n: int)
    requires
        0 <= n <= entries.len(),
        apply_all(cfg, entries.take(n)) is Err,
    ensures
        apply_all(cfg, entries) == apply_all(cfg, entries.take(n)),
    decreases entries.len() - n,
{
    if n < entries.len() {
        assert(entries.take(n + 1).drop_last() == entries.take(n));
        lemma_apply_all_fails(cfg, entries, n + 1);
    } else {
        assert(entries.take(n) == entries);
    }
}

/// The entries of a configuration text: each key once, in the order of first
/// appearance, with the value of its last line.
pub fn raw_config(content: &str) -> (entries: Vec<(String, String)>)
    ensures
        entries_view(entries@) == raw(content@),
{
    let text = chars_of(content);
    let lines = split_at_each(&text, '\n');
    let ghost all = lines@.map_values(|p: Vec<char>| p@);
    let mut entries: Vec<(String, String)> = Vec::new();
    let mut i: usize = 0;
    while i < lines.len()
        invariant
            i <= lines.len(),
            all == lines@.map_values(|p: Vec<char>| p@),
            entries_view(entries@) == collect(all.take(i as int)),
        decreases lines.len() - i,
    {
        proof {
            assert(all.take(i + 1).drop_last() == all.take(i as int));
            assert(all.take(i + 1).last() == lines@[i as int]@);
        }
        match entry_of(&lines[i]) {
            Some((key, value)) => {
                put_entry(&mut entries, &key, string_of(&value));
            },
            None => {},
        }
        i += 1;
    }
    assert(all.take(lines.len() as int) == all);
    entries
}

} // verus!
