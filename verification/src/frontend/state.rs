//! The responses of the protocol and their wire form, and the per-connection
//! state machine.

use vstd::prelude::*;
use vstd::slice::slice_to_vec;
use vstd::utf8::decode_utf8;
use vstd::utf8::encode_utf8;
use vstd::utf8::valid_utf8;
use crate::info::audit::row_of;
use crate::info::audit::Audit;
use crate::info::audit::Event;
use crate::info::stash::Entry;
use crate::info::stash::Files;
use crate::info::user::password_matches;
use crate::info::user::User;
use crate::text::chars_of;
use crate::text::decimal;
use crate::text::decimal_of;
use crate::text::is_word;
use crate::text::split;
use crate::text::split_at_each;
use crate::text::split_once;
use crate::text::split_once_at;
use crate::text::string_of;
use crate::text::trim;
use crate::text::trimmed;

verus! {

/// What a successful response carries.
#[derive(Debug, PartialEq, Eq)]
pub enum ResponseContent {
    Empty,
    Lines(Vec<String>),
    Binary(Vec<u8>),
}

/// One answer of the server to one request line.
#[derive(Debug, PartialEq, Eq)]
pub enum Response {
    /// Nothing is sent.
    Silent,
    /// The request was carried out.
    Success(ResponseContent),
    BadFormat,
    NoAuth,
    NoCmd,
    BadArgs,
    NoStash,
    NoFile,
}

/// The content of a successful response as mathematical values.
pub enum ContentView {
    Empty,
    Lines(Seq<Seq<char>>),
    Binary(Seq<u8>),
}

/// A response as mathematical values.
pub enum ResponseView {
    Silent,
    Success(ContentView),
    BadFormat,
    NoAuth,
    NoCmd,
    BadArgs,
    NoStash,
    NoFile,
}

impl View for ResponseContent {
    type V = ContentView;

    open spec fn view(&self) -> ContentView {
        match self {
            ResponseContent::Empty => ContentView::Empty,
            ResponseContent::Lines(lines) => ContentView::Lines(
                lines@.map_values(|l: String| l@),
            ),
            ResponseContent::Binary(data) => ContentView::Binary(data@),
        }
    }
}

impl View for Response {
    type V = ResponseView;

    open spec fn view(&self) -> ResponseView {
        match self {
            Response::Silent => ResponseView::Silent,
            Response::Success(content) => ResponseView::Success(content@),
            Response::BadFormat => ResponseView::BadFormat,
            Response::NoAuth => ResponseView::NoAuth,
            Response::NoCmd => ResponseView::NoCmd,
            Response::BadArgs => ResponseView::BadArgs,
            Response::NoStash => ResponseView::NoStash,
            Response::NoFile => ResponseView::NoFile,
        }
    }
}

/// Number of line feeds in a text.
pub open spec fn newlines(s: Seq<char>) -> nat
    decreases s.len(),
{
    if s.len() == 0 {
        0
    } else {
        newlines(s.drop_last()) + if s.last() == '\n' {
            1nat
        } else {
            0nat
        }
    }
}

/// Number of line feeds inside the lines of a list.
pub open spec fn embedded(lines: Seq<Seq<char>>) -> nat
    decreases lines.len(),
{
    if lines.len() == 0 {
        0
    } else {
        embedded(lines.drop_last()) + newlines(lines.last())
    }
}

/// The line count that a `Lines` response announces: one per line plus one
/// per line feed inside a line, so that a reader who counts line feeds reads
/// exactly the body.
pub open spec fn declared(lines: Seq<Seq<char>>) -> nat {
    lines.len() + embedded(lines)
}

/// The lines one after the other, each closed by a line feed.
pub open spec fn body(lines: Seq<Seq<char>>) -> Seq<char>
    decreases lines.len(),
{
    if lines.len() == 0 {
        seq![]
    } else {
        body(lines.drop_last()) + lines.last() + seq!['\n']
    }
}

/// The text of a `Lines` response: header, then body.
pub open spec fn lines_text(lines: Seq<Seq<char>>) -> Seq<char> {
    "ok:l"@ + decimal(declared(lines)) + seq!['\n'] + body(lines)
}

/// The header of a `Binary` response of `len` bytes.
pub open spec fn binary_header(len: nat) -> Seq<char> {
    "ok:b"@ + decimal(len) + seq!['\n']
}

/// The bytes that a response puts on the wire.
pub open spec fn wire(r: ResponseView) -> Seq<u8> {
    match r {
        ResponseView::Silent => seq![],
        ResponseView::Success(ContentView::Empty) => encode_utf8("ok:0\n"@),
        ResponseView::Success(ContentView::Lines(lines)) => encode_utf8(lines_text(lines)),
        ResponseView::Success(ContentView::Binary(data)) => encode_utf8(
            binary_header(data.len()),
        ) + data,
        ResponseView::BadFormat => encode_utf8("err:format\n"@),
        ResponseView::NoAuth => encode_utf8("err:auth\n"@),
        ResponseView::NoCmd => encode_utf8("err:nocommand\n"@),
        ResponseView::BadArgs => encode_utf8("err:badargs\n"@),
        ResponseView::NoStash => encode_utf8("err:nostash\n"@),
        ResponseView::NoFile => encode_utf8("err:nofile\n"@),
    }
}

/// What is sent when serving a line failed inside the server, before the
/// connection is dropped.
pub open spec fn server_error_wire() -> Seq<u8> {
    encode_utf8("err:server\n"@)
}

/// The bytes that tell the client of a failure inside the server.
pub fn server_error() -> (out: Vec<u8>)
    ensures
        out@ == server_error_wire(),
{
    "err:server\n".as_bytes_vec()
}

/// Counts the line feeds of a text.
fn count_newlines(line: &Vec<char>) -> (n: usize)
    ensures
        n == newlines(line@),
{
    let mut n: usize = 0;
    let mut i: usize = 0;
    while i < line.len()
        invariant
            i <= line.len(),
            n == newlines(line@.take(i as int)),
            n <= i,
        decreases line.len() - i,
    {
        proof {
            assert(line@.take(i + 1).drop_last() == line@.take(i as int));
        }
        if line[i] == '\n' {
            n += 1;
        }
        i += 1;
    }
    assert(line@.take(line.len() as int) == line@);
    n
}

/// Appends the characters of `tail` to `text`.
fn push_all(text: &mut String, tail: &Vec<char>)
    ensures
        final(text)@ == old(text)@ + tail@,
{
    let mut i: usize = 0;
    while i < tail.len()
        invariant
            i <= tail.len(),
            text@ == old(text)@ + tail@.take(i as int),
        decreases tail.len() - i,
    {
        proof {
            assert(tail@.take(i + 1) == tail@.take(i as int).push(tail@[i as int]));
        }
        text.push(tail[i]);
        i += 1;
    }
    assert(tail@.take(tail.len() as int) == tail@);
}

impl From<&Response> for Vec<u8> {
    /// The wire form of a response.
    fn from(response: &Response) -> (out: Vec<u8>)
        ensures
            out@ == wire(response@),
    {
        match response {
            Response::Silent => Vec::new(),
            Response::Success(content) => match content {
                ResponseContent::Empty => "ok:0\n".as_bytes_vec(),
                ResponseContent::Lines(lines) => {
                    let ghost all = lines@.map_values(|l: String| l@);
                    let mut fake: u128 = 0;
                    let mut i: usize = 0;
                    while i < lines.len()
                        invariant
                            i <= lines.len(),
                            all == lines@.map_values(|l: String| l@),
                            fake == embedded(all.take(i as int)),
                            fake <= i * 0xffff_ffff_ffff_ffff,
                        decreases lines.len() - i,
                    {
                        proof {
                            assert(all.take(i + 1).drop_last() == all.take(i as int));
                            assert(all.take(i + 1).last() == lines@[i as int]@);
                        }
                        let n = count_newlines(&chars_of(lines[i].as_str()));
                        fake = fake + n as u128;
                        i += 1;
                    }
                    assert(all.take(lines.len() as int) == all);
                    let mut text = String::from_str("ok:l");
                    let count = decimal_of(lines.len() as u128 + fake);
                    push_all(&mut text, &count);
                    text.push('\n');
                    let ghost head = text@;
                    let mut j: usize = 0;
                    while j < lines.len()
                        invariant
                            j <= lines.len(),
                            all == lines@.map_values(|l: String| l@),
                            text@ == head + body(all.take(j as int)),
                        decreases lines.len() - j,
                    {
                        proof {
                            assert(all.take(j + 1).drop_last() == all.take(j as int));
                            assert(all.take(j + 1).last() == lines@[j as int]@);
                        }
                        text.append(lines[j].as_str());
                        text.push('\n');
                        j += 1;
                    }
                    assert(all.take(lines.len() as int) == all);
                    assert(text@ =~= lines_text(all));
                    text.as_str().as_bytes_vec()
                },
                ResponseContent::Binary(data) => {
                    let mut text = String::from_str("ok:b");
                    let count = decimal_of(data.len() as u128);
                    push_all(&mut text, &count);
                    text.push('\n');
                    assert(text@ =~= binary_header(data@.len()));
                    let mut out = text.as_str().as_bytes_vec();
                    let ghost head = out@;
                    let mut k: usize = 0;
                    while k < data.len()
                        invariant
                            k <= data.len(),
                            out@ == head + data@.take(k as int),
                        decreases data.len() - k,
                    {
                        proof {
                            assert(data@.take(k + 1) == data@.take(k as int).push(data@[k as int]));
                        }
                        out.push(data[k]);
                        k += 1;
                    }
                    assert(data@.take(data.len() as int) == data@);
                    out
                },
            },
            Response::BadFormat => "err:format\n".as_bytes_vec(),
            Response::NoAuth => "err:auth\n".as_bytes_vec(),
            Response::NoCmd => "err:nocommand\n".as_bytes_vec(),
            Response::BadArgs => "err:badargs\n".as_bytes_vec(),
            Response::NoStash => "err:nostash\n".as_bytes_vec(),
            Response::NoFile => "err:nofile\n".as_bytes_vec(),
        }
    }
}

// What `from` returns is stated in its own contract, over the bytes of the
// vector; a `Vec` has no value-level model.
impl vstd::std_specs::convert::FromSpecImpl<&Response> for Vec<u8> {
    open spec fn obeys_from_spec() -> bool {
        false
    }

    open spec fn from_spec(response: &Response) -> Vec<u8> {
        arbitrary()
    }
}

/// What the state machine waits for next.
#[derive(Clone, Copy, PartialEq, Eq, Structural, Debug)]
pub enum Expectation {
    Line,
    Nothing,
}

/// The phase of a connection.
#[derive(Clone, Copy, PartialEq, Eq, Structural, Debug)]
pub enum ConnectState {
    /// Waiting for `<username> <password>`.
    Auth,
    /// Logged in; waiting for commands.
    Command,
    /// Over; nothing more is carried out.
    End,
}

/// How far a phase is along the way to `End`.
pub open spec fn rank(phase: ConnectState) -> nat {
    match phase {
        ConnectState::Auth => 0,
        ConnectState::Command => 1,
        ConnectState::End => 2,
    }
}

/// What the connection has to do to finish the line it was given.
#[derive(Debug, PartialEq, Eq)]
pub enum Step {
    /// Send this response.
    Reply(Response),
    /// Look the user up, then call `try_login` with what was found.
    FindUser { username: String, password: String },
    /// Collect the names of the principal's stashes, then call `stashes`.
    ListStashes,
    /// Open the stash and collect its files, then call `list`.
    ListFiles { stash: String },
    /// Open the stash and read the file, then call `download` with the
    /// arguments as they were given.
    Download { stash: String, path: String, args: String },
}

/// A step as mathematical values.
pub enum StepView {
    Reply(ResponseView),
    FindUser { username: Seq<char>, password: Seq<char> },
    ListStashes,
    ListFiles { stash: Seq<char> },
    Download { stash: Seq<char>, path: Seq<char>, args: Seq<char> },
}

impl View for Step {
    type V = StepView;

    open spec fn view(&self) -> StepView {
        match self {
            Step::Reply(response) => StepView::Reply(response@),
            Step::FindUser { username, password } => StepView::FindUser {
                username: username@,
                password: password@,
            },
            Step::ListStashes => StepView::ListStashes,
            Step::ListFiles { stash } => StepView::ListFiles { stash: stash@ },
            Step::Download { stash, path, args } => StepView::Download {
                stash: stash@,
                path: path@,
                args: args@,
            },
        }
    }
}

/// What came of looking for a file to download.
#[derive(Debug, PartialEq, Eq)]
pub enum Fetched {
    /// The principal has no stash of that name.
    NoStash,
    /// The stash holds no such file.
    NoFile,
    /// The whole content of the file.
    Data(Vec<u8>),
}

/// The step for a line of the `Auth` phase: `<username> <password>`, cut at
/// the first space.
pub open spec fn plan_auth(line: Seq<char>) -> StepView {
    match split_once(line, ' ') {
        Some((username, password)) => StepView::FindUser { username, password },
        None => StepView::Reply(ResponseView::BadFormat),
    }
}

/// Command word and arguments of a line: cut at the first space, both parts
/// trimmed.
pub open spec fn command(line: Seq<char>) -> (Seq<char>, Seq<char>) {
    match split_once(line, ' ') {
        Some((cmd, args)) => (trim(cmd), trim(args)),
        None => (trim(line), seq![]),
    }
}

/// The step for `list <args>`.
pub open spec fn plan_list(args: Seq<char>) -> StepView {
    let pieces = split(args, ' ');
    if pieces[0] == "stashes"@ {
        StepView::ListStashes
    } else if pieces[0] == "files"@ && pieces.len() == 2 {
        StepView::ListFiles { stash: pieces[1] }
    } else {
        StepView::Reply(ResponseView::BadArgs)
    }
}

/// The step for `download <args>`: stash and file name, cut at the first
/// space.
pub open spec fn plan_download(args: Seq<char>) -> StepView {
    match split_once(args, ' ') {
        Some((stash, path)) => StepView::Download { stash, path, args },
        None => StepView::Reply(ResponseView::BadArgs),
    }
}

/// The step for a line of the `Command` phase.
pub open spec fn plan_command(line: Seq<char>) -> StepView {
    let (cmd, args) = command(line);
    if cmd.len() == 0 {
        StepView::Reply(ResponseView::Silent)
    } else if cmd == "list"@ {
        plan_list(args)
    } else if cmd == "download"@ {
        plan_download(args)
    } else {
        StepView::Reply(ResponseView::NoCmd)
    }
}

/// The step for the bytes of one line, received in the given phase.
pub open spec fn plan(phase: ConnectState, bytes: Seq<u8>) -> StepView {
    if !valid_utf8(bytes) {
        StepView::Reply(ResponseView::BadFormat)
    } else {
        match phase {
            ConnectState::Auth => plan_auth(decode_utf8(bytes)),
            ConnectState::Command => plan_command(decode_utf8(bytes)),
            ConnectState::End => StepView::Reply(ResponseView::BadFormat),
        }
    }
}

/// The phase after the bytes of one line were taken in: bytes that are not
/// UTF-8, and a login line without a space, end the connection.
pub open spec fn phase_after(phase: ConnectState, bytes: Seq<u8>) -> ConnectState {
    if !valid_utf8(bytes) {
        ConnectState::End
    } else if phase == ConnectState::Auth && split_once(decode_utf8(bytes), ' ') is None {
        ConnectState::End
    } else {
        phase
    }
}

/// Whether a line makes an audit row before any outside work: a `download`
/// without a file name does.
pub open spec fn refused_download(phase: ConnectState, bytes: Seq<u8>) -> bool {
    &&& valid_utf8(bytes)
    &&& phase == ConnectState::Command
    &&& command(decode_utf8(bytes)).0 == "download"@
    &&& split_once(command(decode_utf8(bytes)).1, ' ') is None
}

/// The line that lists one file: name, a space, the update time.
pub open spec fn file_line(name: Seq<char>, update_time: u64) -> Seq<char> {
    name + seq![' '] + decimal(update_time as nat)
}

/// The lines that list the given files, in their order.
pub open spec fn file_lines(files: Seq<Entry>) -> Seq<Seq<char>> {
    Seq::new(files.len(), |i: int| file_line(files[i].name, files[i].update_time))
}

/// The state of one connection.
pub struct State {
    state: ConnectState,
    user: Option<User>,
    addr: [u8; 4],
}

impl State {
    #[verifier::type_invariant]
    spec fn logged_in_while_commanding(self) -> bool {
        &&& self.state == ConnectState::Command ==> self.user is Some
        &&& self.state == ConnectState::Auth ==> self.user is None
    }

    /// The phase of the connection.
    pub closed spec fn phase(&self) -> ConnectState {
        self.state
    }

    /// The principal that logged in, if any.
    pub closed spec fn principal(&self) -> Option<User> {
        self.user
    }

    /// The octets of the peer's IPv4 address.
    pub closed spec fn peer(&self) -> Seq<u8> {
        self.addr@
    }

    /// A connection from `addr` that has yet to log in.
    pub fn new(addr: [u8; 4]) -> (state: State)
        ensures
            state.phase() == ConnectState::Auth,
            state.principal() is None,
            state.peer() == addr@,
    {
        State { state: ConnectState::Auth, user: None, addr }
    }

    /// The principal that logged in. A connection in phase `Command` always
    /// has one, a connection in phase `Auth` never.
    pub fn user(&self) -> (user: Option<&User>)
        ensures
            user == match self.principal() {
                Some(u) => Some(&u),
                None => None,
            },
            self.phase() == ConnectState::Command ==> user is Some,
            self.phase() == ConnectState::Auth ==> user is None,
    {
        proof {
            use_type_invariant(self);
        }
        self.user.as_ref()
    }

    /// What the connection waits for: a line, until it has ended.
    pub fn expects(&self) -> (e: Expectation)
        ensures
            e == if self.phase() == ConnectState::End {
                Expectation::Nothing
            } else {
                Expectation::Line
            },
    {
        match self.state {
            ConnectState::Auth => Expectation::Line,
            ConnectState::Command => Expectation::Line,
            ConnectState::End => Expectation::Nothing,
        }
    }

    /// Whether the connection has ended.
    pub fn end(&self) -> (e: bool)
        ensures
            e == (self.phase() == ConnectState::End),
    {
        self.state == ConnectState::End
    }

    /// Takes in the bytes of one line, without its line feed, and says what
    /// has to be done for it.
    ///
    /// A line that is not UTF-8 ends the connection with `BadFormat`. In
    /// phase `End` every line is answered with `BadFormat` and changes
    /// nothing. Only a `download` without a file name is audited here; all
    /// other rows are written when the outside work has come back.
    pub fn next_piece(&mut self, buffer: &[u8], audit: &mut Audit) -> (step: Step)
        ensures
            step@ == plan(old(self).phase(), buffer@),
            final(self).phase() == phase_after(old(self).phase(), buffer@),
            final(self).principal() == old(self).principal(),
            final(self).peer() == old(self).peer(),
            rank(final(self).phase()) >= rank(old(self).phase()),
            old(self).phase() == ConnectState::End ==> step@ == StepView::Reply(
                ResponseView::BadFormat,
            ) && final(self).phase() == ConnectState::End,
            final(audit).rows() == if refused_download(old(self).phase(), buffer@) {
                old(audit).rows().push(
                    row_of(
                        old(self).principal(),
                        old(self).peer(),
                        Event::Download,
                        false,
                        Some(command(decode_utf8(buffer@)).1),
                    ),
                )
            } else {
                old(audit).rows()
            },
    {
        proof {
            use_type_invariant(&*self);
            reveal_strlit("list");
            reveal_strlit("download");
        }
        match String::from_utf8(slice_to_vec(buffer)) {
            Ok(text) => {
                let line = chars_of(text.as_str());
                match self.state {
                    ConnectState::Auth => match split_once_at(&line, ' ') {
                        Some((username, password)) => Step::FindUser {
                            username: string_of(&username),
                            password: string_of(&password),
                        },
                        None => {
                            self.state = ConnectState::End;
                            Step::Reply(Response::BadFormat)
                        },
                    },
                    ConnectState::Command => {
                        let (cmd, args) = match split_once_at(&line, ' ') {
                            Some((cmd, args)) => (trimmed(&cmd), trimmed(&args)),
                            None => (trimmed(&line), Vec::new()),
                        };
                        assert(cmd@ == command(line@).0 && args@ == command(line@).1);
                        if cmd.len() == 0 {
                            Step::Reply(Response::Silent)
                        } else if is_word(&cmd, "list") {
                            State::list_step(&args)
                        } else if is_word(&cmd, "download") {
                            match split_once_at(&args, ' ') {
                                Some((stash, path)) => Step::Download {
                                    stash: string_of(&stash),
                                    path: string_of(&path),
                                    args: string_of(&args),
                                },
                                None => {
                                    let given = string_of(&args);
                                    audit.log(
                                        self.user.as_ref(),
                                        self.addr,
                                        Event::Download,
                                        false,
                                        Some(given.as_str()),
                                    );
                                    Step::Reply(Response::BadArgs)
                                },
                            }
                        } else {
                            Step::Reply(Response::NoCmd)
                        }
                    },
                    ConnectState::End => Step::Reply(Response::BadFormat),
                }
            },
            Err(_) => {
                self.state = ConnectState::End;
                Step::Reply(Response::BadFormat)
            },
        }
    }

    /// Ends the connection because a line has outgrown the receive buffer;
    /// the answer is `BadFormat`.
    pub fn overflow(&mut self) -> (response: Response)
        ensures
            response@ == ResponseView::BadFormat,
            final(self).phase() == ConnectState::End,
            final(self).principal() == old(self).principal(),
            final(self).peer() == old(self).peer(),
    {
        self.state = ConnectState::End;
        Response::BadFormat
    }

    /// The step for the arguments of `list`.
    fn list_step(args: &Vec<char>) -> (step: Step)
        ensures
            step@ == plan_list(args@),
    {
        let pieces = split_at_each(args, ' ');
        let ghost parts = pieces@.map_values(|p: Vec<char>| p@);
        assert(parts[0] == pieces@[0]@);
        if is_word(&pieces[0], "stashes") {
            Step::ListStashes
        } else if is_word(&pieces[0], "files") && pieces.len() == 2 {
            assert(parts[1] == pieces@[1]@);
            Step::ListFiles { stash: string_of(&pieces[1]) }
        } else {
            Step::Reply(Response::BadArgs)
        }
    }

    /// Settles a login once the user was looked up: `found` is the principal
    /// of that name, if there is one.
    ///
    /// A matching password logs the principal in; anything else ends the
    /// connection with `NoAuth`. Every attempt writes exactly one row, with
    /// the user if there is one, and with success exactly when the
    /// connection goes on to `Command`.
    pub fn try_login(&mut self, found: Option<User>, password: &str, audit: &mut Audit) -> (response:
        Response)
        requires
            old(self).phase() == ConnectState::Auth,
        ensures
            final(self).peer() == old(self).peer(),
            final(self).phase() == if found matches Some(user) && password_matches(
                user.spec_password_hash(),
                password@,
            ) {
                ConnectState::Command
            } else {
                ConnectState::End
            },
            final(self).principal() == if final(self).phase() == ConnectState::Command {
                found
            } else {
                old(self).principal()
            },
            response@ == if final(self).phase() == ConnectState::Command {
                ResponseView::Success(ContentView::Empty)
            } else {
                ResponseView::NoAuth
            },
            final(audit).rows() == old(audit).rows().push(
                row_of(
                    found,
                    old(self).peer(),
                    Event::Auth,
                    final(self).phase() == ConnectState::Command,
                    None,
                ),
            ),
            final(audit).rows().len() == old(audit).rows().len() + 1,
            final(audit).rows().last().success == (final(self).phase() == ConnectState::Command),
            final(self).principal() matches Some(user) ==> found == Some(user) && password_matches(
                user.spec_password_hash(),
                password@,
            ),
            rank(final(self).phase()) > rank(old(self).phase()),
    {
        proof {
            use_type_invariant(&*self);
        }
        match found {
            Some(user) => {
                if user.check_password(password) {
                    audit.log(Some(&user), self.addr, Event::Auth, true, None);
                    *self = State { state: ConnectState::Command, user: Some(user), addr: self.addr };
                    Response::Success(ResponseContent::Empty)
                } else {
                    audit.log(Some(&user), self.addr, Event::Auth, false, None);
                    self.state = ConnectState::End;
                    Response::NoAuth
                }
            },
            None => {
                audit.log(None, self.addr, Event::Auth, false, None);
                self.state = ConnectState::End;
                Response::NoAuth
            },
        }
    }

    /// Answers `list stashes` with the names that were collected.
    pub fn stashes(&self, names: Vec<String>) -> (response: Response)
        requires
            self.phase() == ConnectState::Command,
        ensures
            response@ == ResponseView::Success(
                ContentView::Lines(names@.map_values(|l: String| l@)),
            ),
    {
        Response::Success(ResponseContent::Lines(names))
    }

    /// Answers `list files <stash>`: `found` yields the files of the stash
    /// that are present on disk, or is nothing if there is no such stash.
    /// Either way one `LIST` row is written.
    pub fn list(&self, stash: &str, found: Option<Files>, audit: &mut Audit) -> (response: Response)
        requires
            self.phase() == ConnectState::Command,
        ensures
            response@ == match found {
                Some(files) => ResponseView::Success(
                    ContentView::Lines(file_lines(files.remaining())),
                ),
                None => ResponseView::NoStash,
            },
            final(audit).rows() == old(audit).rows().push(
                row_of(self.principal(), self.peer(), Event::List, found is Some, Some(stash@)),
            ),
    {
        match found {
            Some(files) => {
                audit.log(self.user.as_ref(), self.addr, Event::List, true, Some(stash));
                let ghost all = files.remaining();
                let mut files = files;
                let mut lines: Vec<String> = Vec::new();
                assert(all.skip(0) == all);
                loop
                    invariant
                        lines@.len() <= all.len(),
                        files.remaining() == all.skip(lines@.len() as int),
                        lines@.map_values(|l: String| l@) == file_lines(all).take(
                            lines@.len() as int,
                        ),
                    ensures
                        lines@.map_values(|l: String| l@) == file_lines(all),
                    decreases files.remaining().len(),
                {
                    let ghost n = lines@.len() as int;
                    match files.next() {
                        Some((name, file)) => {
                            let mut line = chars_of(name.as_str());
                            line.push(' ');
                            let mut digits = decimal_of(file.update_time() as u128);
                            line.append(&mut digits);
                            let text = string_of(&line);
                            proof {
                                assert(all.skip(n)[0] == all[n]);
                                assert(all.skip(n).drop_first() == all.skip(n + 1));
                                assert(text@ =~= file_line(all[n].name, all[n].update_time));
                            }
                            let ghost before = lines@.map_values(|l: String| l@);
                            lines.push(text);
                            proof {
                                assert(lines@.map_values(|l: String| l@) == before.push(text@));
                                assert(file_lines(all).take(n + 1) == file_lines(all).take(n).push(
                                    file_lines(all)[n],
                                ));
                            }
                        },
                        None => {
                            proof {
                                assert(file_lines(all).take(n) == file_lines(all));
                            }
                            break ;
                        },
                    }
                }
                Response::Success(ResponseContent::Lines(lines))
            },
            None => {
                audit.log(self.user.as_ref(), self.addr, Event::List, false, Some(stash));
                Response::NoStash
            },
        }
    }

    /// Answers `download <args>` with what was fetched, and writes one
    /// `DOWNLOAD` row, with success exactly when the content is sent.
    pub fn download(&self, args: &str, fetched: Fetched, audit: &mut Audit) -> (response: Response)
        requires
            self.phase() == ConnectState::Command,
        ensures
            response@ == match fetched {
                Fetched::NoStash => ResponseView::NoStash,
                Fetched::NoFile => ResponseView::NoFile,
                Fetched::Data(data) => ResponseView::Success(ContentView::Binary(data@)),
            },
            final(audit).rows() == old(audit).rows().push(
                row_of(
                    self.principal(),
                    self.peer(),
                    Event::Download,
                    fetched is Data,
                    Some(args@),
                ),
            ),
    {
        let response = match fetched {
            Fetched::NoStash => Response::NoStash,
            Fetched::NoFile => Response::NoFile,
            Fetched::Data(data) => Response::Success(ResponseContent::Binary(data)),
        };
        let success = match response {
            Response::Success(_) => true,
            _ => false,
        };
        audit.log(self.user.as_ref(), self.addr, Event::Download, success, Some(args));
        response
    }
}

} // verus!
