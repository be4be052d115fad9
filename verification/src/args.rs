//! The command line: `<exe> [-c|--cfg <path>]`.

use vstd::prelude::*;
use crate::text::chars_of;
use crate::text::is_word;

verus! {

/// What the command line asks for.
#[derive(Debug, PartialEq, Eq)]
pub struct Args {
    /// The name under which the program was started.
    pub program: String,
    /// The path of the configuration file, if one was given.
    pub config: Option<String>,
}

/// The kind of word that is expected next on the command line.
#[derive(Debug, Clone, Copy, PartialEq, Eq, Structural)]
pub enum NextArg {
    Flag,
    Config,
}

/// Why a command line was refused.
#[derive(Debug, PartialEq, Eq)]
pub enum Error {
    /// A word in flag position that is no known flag.
    UnknownFlag(String),
    /// The command line ended where this kind of word had to follow.
    TokenExpected(NextArg),
}

/// A command line as mathematical values.
pub struct ArgsView {
    pub program: Seq<char>,
    pub config: Option<Seq<char>>,
}

/// An error as mathematical values.
pub enum ErrorView {
    UnknownFlag(Seq<char>),
    TokenExpected(NextArg),
}

impl View for Args {
    type V = ArgsView;

    open spec fn view(&self) -> ArgsView {
        ArgsView {
            program: self.program@,
            config: match self.config {
                Some(path) => Some(path@),
                None => None,
            },
        }
    }
}

impl View for Error {
    type V = ErrorView;

    open spec fn view(&self) -> ErrorView {
        match self {
            Error::UnknownFlag(flag) => ErrorView::UnknownFlag(flag@),
            Error::TokenExpected(next) => ErrorView::TokenExpected(*next),
        }
    }
}

/// How a kind of word is called in messages.
pub open spec fn next_arg_name(next: NextArg) -> Seq<char> {
    match next {
        NextArg::Flag => "flag"@,
        NextArg::Config => "path to config file"@,
    }
}

impl From<&NextArg> for &'static str {
    fn from(next: &NextArg) -> (name: &'static str)
        ensures
            name@ == next_arg_name(*next),
    {
        match next {
            NextArg::Flag => "flag",
            NextArg::Config => "path to config file",
        }
    }
}

impl vstd::std_specs::convert::FromSpecImpl<&NextArg> for &'static str {
    open spec fn obeys_from_spec() -> bool {
        true
    }

    open spec fn from_spec(next: &NextArg) -> &'static str {
        match next {
            NextArg::Flag => "flag",
            NextArg::Config => "path to config file",
        }
    }
}

/// Whether a word is the flag that announces the configuration path.
pub open spec fn is_config_flag(word: Seq<char>) -> bool {
    word == "-c"@ || word == "--cfg"@
}

/// The words after the program name, read from left to right: the path that
/// the last `-c` or `--cfg` announced and the kind of word expected next, or
/// the first word in flag position that is no flag.
pub open spec fn scan(words: Seq<Seq<char>>) -> Result<(Option<Seq<char>>, NextArg), Seq<char>>
    decreases words.len(),
{
    if words.len() == 0 {
        Ok((None, NextArg::Flag))
    } else {
        match scan(words.drop_last()) {
            Err(flag) => Err(flag),
            Ok((config, NextArg::Config)) => Ok((Some(words.last()), NextArg::Flag)),
            Ok((config, NextArg::Flag)) => if is_config_flag(words.last()) {
                Ok((config, NextArg::Config))
            } else {
                Err(words.last())
            },
        }
    }
}

/// What a whole command line, program name first, comes to.
pub open spec fn parsed(words: Seq<Seq<char>>) -> Result<ArgsView, ErrorView>
    recommends
        words.len() > 0,
{
    match scan(words.drop_first()) {
        Err(flag) => Err(ErrorView::UnknownFlag(flag)),
        Ok((config, NextArg::Flag)) => Ok(ArgsView { program: words[0], config }),
        Ok((config, NextArg::Config)) => Err(ErrorView::TokenExpected(NextArg::Config)),
    }
}

/// The message of an error.
pub open spec fn error_text(error: ErrorView) -> Seq<char> {
    match error {
        ErrorView::UnknownFlag(flag) => "unknown flag \""@ + flag + "\""@,
        ErrorView::TokenExpected(next) => "didn't find an expected token: "@ + next_arg_name(next),
    }
}

impl Error {
    /// What to tell the user.
    pub fn message(&self) -> (text: String)
        ensures
            text@ == error_text(self@),
    {
        match self {
            Error::UnknownFlag(flag) => {
                let mut text = String::from_str("unknown flag \"");
                text.append(flag.as_str());
                text.append("\"");
                text
            },
            Error::TokenExpected(next) => {
                let mut text = String::from_str("didn't find an expected token: ");
                text.append(<&'static str>::from(next));
                text
            },
        }
    }
}

impl Args {
    /// The path of the configuration file to read: the one that was given,
    /// else `server.cfg`.
    pub fn config_path(&self) -> (path: &str)
        ensures
            path@ == match self.config {
                Some(given) => given@,
                None => "server.cfg"@,
            },
    {
        match &self.config {
            Some(given) => given.as_str(),
            None => "server.cfg",
        }
    }

    /// Reads a command line; `args[0]` is the program name.
    ///
    /// The only flags are `-c` and `--cfg`, each followed by the path of the
    /// configuration file; of several paths the last one counts.
    pub fn from_cmd(args: Vec<String>) -> (result: Result<Args, Error>)
        requires
            args@.len() > 0,
        ensures
            match result {
                Ok(a) => parsed(args@.map_values(|w: String| w@)) == Ok::<ArgsView, ErrorView>(a@),
                Err(e) => parsed(args@.map_values(|w: String| w@)) == Err::<ArgsView, ErrorView>(
                    e@,
                ),
            },
    {
        let ghost words = args@.map_values(|w: String| w@);
        let ghost rest = words.drop_first();
        let mut config: Option<String> = None;
        let mut next = NextArg::Flag;
        let mut i: usize = 1;
        while i < args.len()
            invariant
                1 <= i <= args.len(),
                words == args@.map_values(|w: String| w@),
                rest == words.drop_first(),
                scan(rest.take(i - 1)) == Ok::<(Option<Seq<char>>, NextArg), Seq<char>>(
                    (
                        match config {
                            Some(path) => Some(path@),
                            None => None,
                        },
                        next,
                    ),
                ),
            decreases args.len() - i,
        {
            proof {
                assert(rest.take(i as int).drop_last() == rest.take(i - 1));
                assert(rest.take(i as int).last() == args@[i as int]@);
            }
            match next {
                NextArg::Flag => {
                    let word = chars_of(args[i].as_str());
                    if is_word(&word, "-c") || is_word(&word, "--cfg") {
                        next = NextArg::Config;
                    } else {
                        proof {
                            lemma_scan_fails(rest, i as int);
                        }
                        return Err(Error::UnknownFlag(args[i].clone()));
                    }
                },
                NextArg::Config => {
                    config = Some(args[i].clone());
                    next = NextArg::Flag;
                },
            }
            i += 1;
        }
        assert(rest.take(args.len() - 1) == rest);
        match next {
            NextArg::Flag => Ok(Args { program: args[0].clone(), config }),
            NextArg::Config => Err(Error::TokenExpected(next)),
        }
    }
}

/// Once a word was refused, the words after it change nothing.
proof fn lemma_scan_fails(words: Seq<Seq<char>>, n: int)
    requires
        0 <= n <= words.len(),
        scan(words.take(n)) is Err,
    ensures
        scan(words) == scan(words.take(n)),
    decreases words.len() - n,
{
    if n < words.len() {
        assert(words.take(n + 1).drop_last() == words.take(n));
        lemma_scan_fails(words, n + 1);
    } else {
        assert(words.take(n) == words);
    }
}

} // verus!
