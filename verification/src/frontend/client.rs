//! One connection from the first byte to the last: what the task that serves
//! it has to do next.
//!
//! The task reads, looks things up and writes; everything it decides comes
//! from here. `handle_client` says what to do, and the task hands back what
//! came of it: the bytes that were read, the user that was found, the files
//! of a stash, the content of a file.

use vstd::prelude::*;
use vstd::utf8::decode_utf8;
use crate::frontend::feed_all;
use crate::frontend::frame;
use crate::frontend::joined;
use crate::frontend::lemma_framing_lossless;
use crate::frontend::state::command;
use crate::frontend::state::file_lines;
use crate::frontend::state::phase_after;
use crate::frontend::state::plan;
use crate::frontend::state::refused_download;
use crate::frontend::state::server_error;
use crate::frontend::state::server_error_wire;
use crate::frontend::state::wire;
use crate::frontend::state::ConnectState;
use crate::frontend::state::ContentView;
use crate::frontend::state::Fetched;
use crate::frontend::state::ResponseView;
use crate::frontend::state::State;
use crate::frontend::state::Step;
use crate::frontend::state::StepView;
use crate::frontend::LineBuffer;
use crate::frontend::CAPACITY;
use crate::info::audit::row_of;
use crate::info::audit::Audit;
use crate::info::audit::Event;
use crate::info::audit::Row;
use crate::info::audit::RowView;
use crate::info::stash::Files;
use crate::info::user::password_matches;
use crate::info::user::User;

verus! {

/// What a connection waits for.
#[derive(Clone, Copy, PartialEq, Eq, Structural, Debug)]
pub enum Awaits {
    /// Nothing from outside: `handle_client` says what to do next.
    Nothing,
    /// Bytes from the peer, for `received`.
    Bytes,
    /// The user that was asked for, for `try_login`.
    User,
    /// The names of the principal's stashes, for `stashes`.
    Stashes,
    /// The files of a stash, for `list`.
    Files,
    /// The content of a file, for `download`.
    Content,
    /// Nothing any more: the connection is over.
    Over,
}

/// What the task has to do next.
#[derive(Debug, PartialEq, Eq)]
pub enum Action {
    /// Read at most `at_most` bytes from the peer and hand them to
    /// `received`; no bytes mean that the peer has closed.
    Read { at_most: usize },
    /// Look the user up and hand what was found to `try_login`.
    FindUser { username: String },
    /// Collect the names of the principal's stashes for `stashes`.
    ListStashes,
    /// Open the stash and hand its files to `list`.
    ListFiles { stash: String },
    /// Open the stash, read the file and hand what came of it to `download`.
    Download { stash: String, path: String },
    /// Write the rows to the audit table, then the bytes to the peer.
    Send { rows: Vec<Row>, bytes: Vec<u8> },
    /// Drop the connection.
    Close,
}

/// An action as mathematical values.
#[verifier::ext_equal]
pub enum ActionView {
    Read { at_most: int },
    FindUser { username: Seq<char> },
    ListStashes,
    ListFiles { stash: Seq<char> },
    Download { stash: Seq<char>, path: Seq<char> },
    Send { rows: Seq<RowView>, bytes: Seq<u8> },
    Close,
}

impl View for Action {
    type V = ActionView;

    open spec fn view(&self) -> ActionView {
        match self {
            Action::Read { at_most } => ActionView::Read { at_most: *at_most as int },
            Action::FindUser { username } => ActionView::FindUser { username: username@ },
            Action::ListStashes => ActionView::ListStashes,
            Action::ListFiles { stash } => ActionView::ListFiles { stash: stash@ },
            Action::Download { stash, path } => ActionView::Download {
                stash: stash@,
                path: path@,
            },
            Action::Send { rows, bytes } => ActionView::Send {
                rows: rows@.map_values(|r: Row| r@),
                bytes: bytes@,
            },
            Action::Close => ActionView::Close,
        }
    }
}

/// A connection as mathematical values.
#[verifier::ext_equal]
pub struct ConnView {
    /// The phase of the protocol.
    pub phase: ConnectState,
    /// The principal that logged in, if any.
    pub principal: Option<User>,
    /// The octets of the peer's address.
    pub peer: Seq<u8>,
    /// The bytes read since the last line feed.
    pub pending: Seq<u8>,
    /// The lines that were read and are not served yet, oldest first.
    pub queued: Seq<Seq<u8>>,
    /// What the connection waits for.
    pub awaits: Awaits,
    /// What the lookup under way is about: the password of a login, the
    /// stash of a listing, the arguments of a download.
    pub job: Seq<char>,
}

/// The rows that a line makes without any lookup.
pub open spec fn early_rows(v: ConnView, line: Seq<u8>) -> Seq<RowView> {
    if refused_download(v.phase, line) {
        seq![
            row_of(
                v.principal,
                v.peer,
                Event::Download,
                false,
                Some(command(decode_utf8(line)).1),
            ),
        ]
    } else {
        seq![]
    }
}

/// One turn of a connection that waits for nothing: what becomes of it and
/// what the task has to do.
///
/// Lines are served in the order in which they came, each to its end before
/// the next. Without a line to serve, a connection that has ended is closed,
/// one whose buffer a line has outgrown is ended with `BadFormat`, and any
/// other reads on.
pub open spec fn turn(v: ConnView) -> (ConnView, ActionView) {
    if v.awaits == Awaits::Over {
        (v, ActionView::Close)
    } else if v.queued.len() > 0 {
        let line = v.queued[0];
        let rest = ConnView {
            queued: v.queued.drop_first(),
            phase: phase_after(v.phase, line),
            awaits: Awaits::Nothing,
            job: seq![],
            ..v
        };
        match plan(v.phase, line) {
            StepView::Reply(response) => (
                rest,
                ActionView::Send { rows: early_rows(v, line), bytes: wire(response) },
            ),
            StepView::FindUser { username, password } => (
                ConnView { awaits: Awaits::User, job: password, ..rest },
                ActionView::FindUser { username },
            ),
            StepView::ListStashes => (
                ConnView { awaits: Awaits::Stashes, ..rest },
                ActionView::ListStashes,
            ),
            StepView::ListFiles { stash } => (
                ConnView { awaits: Awaits::Files, job: stash, ..rest },
                ActionView::ListFiles { stash },
            ),
            StepView::Download { stash, path, args } => (
                ConnView { awaits: Awaits::Content, job: args, ..rest },
                ActionView::Download { stash, path },
            ),
        }
    } else if v.phase == ConnectState::End {
        (ConnView { awaits: Awaits::Over, job: seq![], ..v }, ActionView::Close)
    } else if v.pending.len() == CAPACITY {
        (
            ConnView { phase: ConnectState::End, awaits: Awaits::Nothing, job: seq![], ..v },
            ActionView::Send { rows: seq![], bytes: wire(ResponseView::BadFormat) },
        )
    } else {
        (
            ConnView { awaits: Awaits::Bytes, job: seq![], ..v },
            ActionView::Read { at_most: CAPACITY - v.pending.len() },
        )
    }
}

/// The connection after a read: no bytes end it; any others are framed, and
/// the lines they complete join the queue.
pub open spec fn after_read(v: ConnView, chunk: Seq<u8>) -> ConnView {
    if chunk.len() == 0 {
        ConnView { awaits: Awaits::Over, ..v }
    } else {
        ConnView {
            queued: v.queued + frame(v.pending + chunk).0,
            pending: frame(v.pending + chunk).1,
            awaits: Awaits::Nothing,
            ..v
        }
    }
}

/// The connection after the user of a login was looked up, and what is sent.
pub open spec fn after_login(v: ConnView, found: Option<User>) -> (ConnView, ActionView) {
    let ok = found matches Some(user) && password_matches(user.spec_password_hash(), v.job);
    (
        ConnView {
            phase: if ok {
                ConnectState::Command
            } else {
                ConnectState::End
            },
            principal: if ok {
                found
            } else {
                v.principal
            },
            awaits: Awaits::Nothing,
            job: seq![],
            ..v
        },
        ActionView::Send {
            rows: seq![row_of(found, v.peer, Event::Auth, ok, None)],
            bytes: wire(
                if ok {
                    ResponseView::Success(ContentView::Empty)
                } else {
                    ResponseView::NoAuth
                },
            ),
        },
    )
}

/// What is sent for a listing of files.
pub open spec fn listing(v: ConnView, found: Option<Files>) -> ActionView {
    ActionView::Send {
        rows: seq![row_of(v.principal, v.peer, Event::List, found is Some, Some(v.job))],
        bytes: wire(
            match found {
                Some(files) => ResponseView::Success(
                    ContentView::Lines(file_lines(files.remaining())),
                ),
                None => ResponseView::NoStash,
            },
        ),
    }
}

/// What is sent for a download.
pub open spec fn delivery(v: ConnView, fetched: Fetched) -> ActionView {
    ActionView::Send {
        rows: seq![row_of(v.principal, v.peer, Event::Download, fetched is Data, Some(v.job))],
        bytes: wire(
            match fetched {
                Fetched::NoStash => ResponseView::NoStash,
                Fetched::NoFile => ResponseView::NoFile,
                Fetched::Data(data) => ResponseView::Success(ContentView::Binary(data@)),
            },
        ),
    }
}

/// The connection once a lookup has been answered.
pub open spec fn settled(v: ConnView) -> ConnView {
    ConnView { awaits: Awaits::Nothing, job: seq![], ..v }
}

/// The connection after a run of reads.
pub open spec fn after_reads(v: ConnView, chunks: Seq<Seq<u8>>) -> ConnView
    decreases chunks.len(),
{
    if chunks.len() == 0 {
        v
    } else {
        after_read(after_reads(v, chunks.drop_last()), chunks.last())
    }
}

/// However the bytes of the peer are cut into reads, the lines that join the
/// queue are the lines of the whole stream, in their order, and what is held
/// back is what follows the last line feed.
pub proof fn lemma_reads_keep_order(v: ConnView, chunks: Seq<Seq<u8>>)
    requires
        v.pending.len() == 0,
        forall|i: int| 0 <= i < chunks.len() ==> (#[trigger] chunks[i]).len() > 0,
    ensures
        after_reads(v, chunks).queued == v.queued + frame(joined(chunks)).0,
        after_reads(v, chunks).pending == frame(joined(chunks)).1,
{
    lemma_reads(v, chunks);
    assert(v.pending == Seq::<u8>::empty());
    lemma_framing_lossless(chunks);
}

/// A run of reads queues what feeding the chunks one by one hands on.
proof fn lemma_reads(v: ConnView, chunks: Seq<Seq<u8>>)
    requires
        forall|i: int| 0 <= i < chunks.len() ==> (#[trigger] chunks[i]).len() > 0,
    ensures
        after_reads(v, chunks).queued == v.queued + feed_all(v.pending, chunks).0,
        after_reads(v, chunks).pending == feed_all(v.pending, chunks).1,
    decreases chunks.len(),
{
    if chunks.len() > 0 {
        let init = chunks.drop_last();
        assert forall|i: int| 0 <= i < init.len() implies (#[trigger] init[i]).len() > 0 by {
            assert(init[i] == chunks[i]);
        }
        lemma_reads(v, init);
        assert(chunks.last() == chunks[chunks.len() - 1]);
        let before = feed_all(v.pending, init);
        let more = frame(before.1 + chunks.last()).0;
        assert(v.queued + before.0 + more == v.queued + (before.0 + more));
    } else {
        assert(v.queued + Seq::<Seq<u8>>::empty() == v.queued);
    }
}

/// A connection that has ended says nothing but `BadFormat`: every line that
/// is still to be served is answered with it, without an audit row, and then
/// the connection is closed. It never leaves that phase.
pub proof fn lemma_end_is_final(v: ConnView)
    requires
        v.phase == ConnectState::End,
        v.awaits == Awaits::Nothing,
    ensures
        turn(v).0.phase == ConnectState::End,
        turn(v).1 == ActionView::Close || turn(v).1 == (ActionView::Send {
            rows: seq![],
            bytes: wire(ResponseView::BadFormat),
        }),
{
}

/// Every login attempt writes exactly one audit row, whether the user exists
/// or not, and the row says success exactly when the connection goes on to
/// take commands.
pub proof fn lemma_login_is_audited(v: ConnView, found: Option<User>)
    ensures
        after_login(v, found).1 matches ActionView::Send { rows, bytes } && rows.len() == 1
            && rows[0].event == Event::Auth && rows[0].success == (after_login(v, found).0.phase
            == ConnectState::Command),
{
}

/// One connection: the protocol state, the receive buffer, the lines that
/// wait to be served, and what the task is busy with.
pub struct Connection {
    state: State,
    buffer: LineBuffer,
    queue: Vec<Vec<u8>>,
    awaits: Awaits,
    job: String,
}

impl View for Connection {
    type V = ConnView;

    closed spec fn view(&self) -> ConnView {
        ConnView {
            phase: self.state.phase(),
            principal: self.state.principal(),
            peer: self.state.peer(),
            pending: self.buffer.pending(),
            queued: self.queue@.map_values(|l: Vec<u8>| l@),
            awaits: self.awaits,
            job: self.job@,
        }
    }
}

impl Connection {
    #[verifier::type_invariant]
    spec fn lookups_fit_the_phase(self) -> bool {
        &&& self.awaits == Awaits::User ==> self.state.phase() == ConnectState::Auth
        &&& (self.awaits == Awaits::Stashes || self.awaits == Awaits::Files || self.awaits
            == Awaits::Content) ==> self.state.phase() == ConnectState::Command
    }

    /// A connection from the peer with the given address: nothing read,
    /// nobody logged in.
    pub fn new(addr: [u8; 4]) -> (conn: Connection)
        ensures
            conn@ == (ConnView {
                phase: ConnectState::Auth,
                principal: None,
                peer: addr@,
                pending: Seq::<u8>::empty(),
                queued: Seq::<Seq<u8>>::empty(),
                awaits: Awaits::Nothing,
                job: Seq::<char>::empty(),
            }),
    {
        let conn = Connection {
            state: State::new(addr),
            buffer: LineBuffer::new(),
            queue: Vec::new(),
            awaits: Awaits::Nothing,
            job: String::new(),
        };
        assert(conn@.queued =~= Seq::<Seq<u8>>::empty());
        conn
    }

    /// Takes the connection apart, to work on its parts.
    fn parts(&mut self) -> (me: Connection)
        ensures
            me == *old(self),
            me.lookups_fit_the_phase(),
    {
        let mut me = Connection::new([0, 0, 0, 0]);
        std::mem::swap(self, &mut me);
        proof {
            use_type_invariant(&me);
        }
        me
    }

    /// What the connection waits for.
    pub fn awaits(&self) -> (awaits: Awaits)
        ensures
            awaits == self@.awaits,
    {
        self.awaits
    }

    /// The principal that logged in, if any.
    pub fn user(&self) -> (user: Option<&User>)
        ensures
            user == match self@.principal {
                Some(u) => Some(&u),
                None => None,
            },
    {
        self.state.user()
    }

    /// Takes in what a read returned.
    pub fn received(&mut self, chunk: &[u8])
        requires
            old(self)@.awaits == Awaits::Bytes,
            chunk@.len() <= CAPACITY - old(self)@.pending.len(),
        ensures
            final(self)@ == after_read(old(self)@, chunk@),
    {
        let Connection { state, mut buffer, mut queue, job, .. } = self.parts();
        if chunk.len() == 0 {
            *self = Connection { state, buffer, queue, awaits: Awaits::Over, job };
        } else {
            let mut lines = buffer.feed(chunk);
            let ghost before = queue@.map_values(|l: Vec<u8>| l@);
            let ghost more = lines@.map_values(|l: Vec<u8>| l@);
            queue.append(&mut lines);
            assert(queue@.map_values(|l: Vec<u8>| l@) =~= before + more);
            *self = Connection { state, buffer, queue, awaits: Awaits::Nothing, job };
        }
    }

    /// Settles a login with the user that was found, if any.
    pub fn try_login(&mut self, found: Option<User>) -> (action: Action)
        requires
            old(self)@.awaits == Awaits::User,
        ensures
            (final(self)@, action@) == after_login(old(self)@, found),
    {
        let Connection { mut state, buffer, queue, job, .. } = self.parts();
        let mut audit = Audit::new();
        let response = state.try_login(found, job.as_str(), &mut audit);
        let action = Action::Send { rows: audit.take(), bytes: Vec::<u8>::from(&response) };
        *self = Connection { state, buffer, queue, awaits: Awaits::Nothing, job: String::new() };
        action
    }

    /// Answers `list stashes` with the names that were collected.
    pub fn stashes(&mut self, names: Vec<String>) -> (action: Action)
        requires
            old(self)@.awaits == Awaits::Stashes,
        ensures
            final(self)@ == settled(old(self)@),
            action@ == (ActionView::Send {
                rows: seq![],
                bytes: wire(
                    ResponseView::Success(ContentView::Lines(names@.map_values(|l: String| l@))),
                ),
            }),
    {
        let Connection { state, buffer, queue, .. } = self.parts();
        let response = state.stashes(names);
        let action = Action::Send { rows: Vec::new(), bytes: Vec::<u8>::from(&response) };
        assert(action@->rows =~= Seq::<RowView>::empty());
        *self = Connection { state, buffer, queue, awaits: Awaits::Nothing, job: String::new() };
        action
    }

    /// Answers `list files` with the files of the stash that are present on
    /// disk, or with `NoStash` if there is no such stash.
    pub fn list(&mut self, found: Option<Files>) -> (action: Action)
        requires
            old(self)@.awaits == Awaits::Files,
        ensures
            final(self)@ == settled(old(self)@),
            action@ == listing(old(self)@, found),
    {
        let Connection { state, buffer, queue, job, .. } = self.parts();
        let mut audit = Audit::new();
        let response = state.list(job.as_str(), found, &mut audit);
        let action = Action::Send { rows: audit.take(), bytes: Vec::<u8>::from(&response) };
        *self = Connection { state, buffer, queue, awaits: Awaits::Nothing, job: String::new() };
        action
    }

    /// Answers `download` with what was fetched.
    pub fn download(&mut self, fetched: Fetched) -> (action: Action)
        requires
            old(self)@.awaits == Awaits::Content,
        ensures
            final(self)@ == settled(old(self)@),
            action@ == delivery(old(self)@, fetched),
    {
        let Connection { state, buffer, queue, job, .. } = self.parts();
        let mut audit = Audit::new();
        let response = state.download(job.as_str(), fetched, &mut audit);
        let action = Action::Send { rows: audit.take(), bytes: Vec::<u8>::from(&response) };
        *self = Connection { state, buffer, queue, awaits: Awaits::Nothing, job: String::new() };
        action
    }

    /// Gives the connection up because something failed inside the server:
    /// the bytes to send before it is dropped.
    pub fn failed(&mut self) -> (bytes: Vec<u8>)
        ensures
            final(self)@ == (ConnView { awaits: Awaits::Over, ..old(self)@ }),
            bytes@ == server_error_wire(),
    {
        let Connection { state, buffer, queue, job, .. } = self.parts();
        *self = Connection { state, buffer, queue, awaits: Awaits::Over, job };
        server_error()
    }
}

/// One turn of the task that serves a connection: says what the task has to
/// do next.
pub fn handle_client(conn: &mut Connection) -> (action: Action)
    requires
        old(conn)@.awaits == Awaits::Nothing || old(conn)@.awaits == Awaits::Over,
    ensures
        (final(conn)@, action@) == turn(old(conn)@),
{
    let ghost v = conn@;
    let Connection { mut state, buffer, mut queue, awaits, job } = conn.parts();
    if awaits == Awaits::Over {
        *conn = Connection { state, buffer, queue, awaits, job };
        assert(conn@ =~= v);
        Action::Close
    } else if queue.len() > 0 {
        let line = queue.remove(0);
        assert(queue@.map_values(|l: Vec<u8>| l@) =~= v.queued.drop_first());
        assert(v.queued[0] == line@);
        let mut audit = Audit::new();
        let step = state.next_piece(line.as_slice(), &mut audit);
        match step {
            Step::Reply(response) => {
                let action = Action::Send {
                    rows: audit.take(),
                    bytes: Vec::<u8>::from(&response),
                };
                *conn =
                Connection { state, buffer, queue, awaits: Awaits::Nothing, job: String::new() };
                assert(conn@ =~= turn(v).0);
                assert(action@ =~= turn(v).1);
                action
            },
            Step::FindUser { username, password } => {
                *conn = Connection { state, buffer, queue, awaits: Awaits::User, job: password };
                assert(conn@ =~= turn(v).0);
                Action::FindUser { username }
            },
            Step::ListStashes => {
                *conn =
                Connection { state, buffer, queue, awaits: Awaits::Stashes, job: String::new() };
                assert(conn@ =~= turn(v).0);
                Action::ListStashes
            },
            Step::ListFiles { stash } => {
                let job = stash.clone();
                *conn = Connection { state, buffer, queue, awaits: Awaits::Files, job };
                assert(conn@ =~= turn(v).0);
                Action::ListFiles { stash }
            },
            Step::Download { stash, path, args } => {
                *conn = Connection { state, buffer, queue, awaits: Awaits::Content, job: args };
                assert(conn@ =~= turn(v).0);
                Action::Download { stash, path }
            },
        }
    } else if state.end() {
        *conn = Connection { state, buffer, queue, awaits: Awaits::Over, job: String::new() };
        assert(conn@ =~= turn(v).0);
        Action::Close
    } else if buffer.is_full() {
        let response = state.overflow();
        let bytes = Vec::<u8>::from(&response);
        *conn = Connection { state, buffer, queue, awaits: Awaits::Nothing, job: String::new() };
        let action = Action::Send { rows: Vec::new(), bytes };
        assert(conn@ =~= turn(v).0);
        assert(action@ =~= turn(v).1);
        action
    } else {
        let at_most = buffer.free();
        *conn = Connection { state, buffer, queue, awaits: Awaits::Bytes, job: String::new() };
        assert(conn@ =~= turn(v).0);
        Action::Read { at_most }
    }
}

} // verus!
