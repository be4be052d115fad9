use stash_server::frontend::client::{handle_client, Action, Awaits, Connection};
use stash_server::frontend::state::Fetched;
use stash_server::info::audit::{Event, Row};
use stash_server::info::file::Probe;
use stash_server::info::stash::{FileRow, Stash};
use stash_server::info::user::User;

const HUNTER2: &str = "pepper.ffa7fbefa6f5cdf342d10506932a80ca6b9d7c2b20e7be1c25fcb50a37d42efd";
const PEER: [u8; 4] = [10, 1, 2, 3];
const PEER_PACKED: u32 = 0x0a01_0203;

fn alice() -> User {
    User::from_db_username("alice", 7, HUNTER2.to_string())
}

fn row(user: Option<u64>, event: Event, success: bool, info: Option<&str>) -> Row {
    Row { user, address: PEER_PACKED, event, success, info: info.map(|s| s.to_string()) }
}

fn send(rows: Vec<Row>, bytes: &[u8]) -> Action {
    Action::Send { rows, bytes: bytes.to_vec() }
}

fn read(conn: &mut Connection, bytes: &[u8]) {
    assert_eq!(conn.awaits(), Awaits::Nothing);
    match handle_client(conn) {
        Action::Read { at_most } => assert!(bytes.len() <= at_most),
        other => panic!("no read was asked for: {other:?}"),
    }
    assert_eq!(conn.awaits(), Awaits::Bytes);
    conn.received(bytes);
}

fn logged_in() -> Connection {
    let mut conn = Connection::new(PEER);
    read(&mut conn, b"alice hunter2\n");
    assert_eq!(handle_client(&mut conn), Action::FindUser { username: "alice".to_string() });
    conn.try_login(Some(alice()));
    conn
}

#[test]
fn new_connection_reads_first() {
    let mut conn = Connection::new(PEER);
    assert_eq!(conn.awaits(), Awaits::Nothing);
    assert!(conn.user().is_none());
    assert_eq!(handle_client(&mut conn), Action::Read { at_most: 4096 });
    assert_eq!(conn.awaits(), Awaits::Bytes);
}

#[test]
fn login_and_stashes_list_turn_by_turn() {
    let mut conn = Connection::new(PEER);
    read(&mut conn, b"alice hun");
    read(&mut conn, b"ter2\nlist stashes\n");
    assert_eq!(handle_client(&mut conn), Action::FindUser { username: "alice".to_string() });
    assert_eq!(conn.awaits(), Awaits::User);
    assert_eq!(
        conn.try_login(Some(alice())),
        send(vec![row(Some(7), Event::Auth, true, None)], b"ok:0\n")
    );
    assert_eq!(conn.user().map(|u| u.id()), Some(7));
    assert_eq!(handle_client(&mut conn), Action::ListStashes);
    assert_eq!(conn.awaits(), Awaits::Stashes);
    assert_eq!(
        conn.stashes(vec!["personal".to_string(), "work".to_string()]),
        send(vec![], b"ok:l2\npersonal\nwork\n")
    );
    assert_eq!(handle_client(&mut conn), Action::Read { at_most: 4096 });
}

#[test]
fn wrong_password_closes_after_the_answer() {
    let mut conn = Connection::new(PEER);
    read(&mut conn, b"alice badpw\n");
    assert_eq!(handle_client(&mut conn), Action::FindUser { username: "alice".to_string() });
    assert_eq!(
        conn.try_login(Some(alice())),
        send(vec![row(Some(7), Event::Auth, false, None)], b"err:auth\n")
    );
    assert!(conn.user().is_none());
    assert_eq!(handle_client(&mut conn), Action::Close);
    assert_eq!(conn.awaits(), Awaits::Over);
    assert_eq!(handle_client(&mut conn), Action::Close);
}

#[test]
fn unknown_user_closes_with_a_row_without_user() {
    let mut conn = Connection::new(PEER);
    read(&mut conn, b"ghost pw\n");
    assert_eq!(handle_client(&mut conn), Action::FindUser { username: "ghost".to_string() });
    assert_eq!(
        conn.try_login(None),
        send(vec![row(None, Event::Auth, false, None)], b"err:auth\n")
    );
    assert_eq!(handle_client(&mut conn), Action::Close);
}

#[test]
fn login_line_without_space_writes_no_row() {
    let mut conn = Connection::new(PEER);
    read(&mut conn, b"ghost\n");
    assert_eq!(handle_client(&mut conn), send(vec![], b"err:format\n"));
    assert_eq!(handle_client(&mut conn), Action::Close);
}

#[test]
fn lines_are_served_in_the_order_they_came() {
    let mut conn = logged_in();
    read(&mut conn, b"reboot\n\nlist\nlist files ghost\ndownload x\nlist st");
    assert_eq!(handle_client(&mut conn), send(vec![], b"err:nocommand\n"));
    assert_eq!(handle_client(&mut conn), send(vec![], b""));
    assert_eq!(handle_client(&mut conn), send(vec![], b"err:badargs\n"));
    assert_eq!(handle_client(&mut conn), Action::ListFiles { stash: "ghost".to_string() });
    assert_eq!(
        conn.list(None),
        send(vec![row(Some(7), Event::List, false, Some("ghost"))], b"err:nostash\n")
    );
    assert_eq!(
        handle_client(&mut conn),
        send(vec![row(Some(7), Event::Download, false, Some("x"))], b"err:badargs\n")
    );
    assert_eq!(handle_client(&mut conn), Action::Read { at_most: 4096 - 7 });
    conn.received(b"ashes\n");
    assert_eq!(handle_client(&mut conn), Action::ListStashes);
}

#[test]
fn list_files_with_embedded_line_feed() {
    let mut conn = logged_in();
    read(&mut conn, b"list files personal\n");
    assert_eq!(handle_client(&mut conn), Action::ListFiles { stash: "personal".to_string() });
    assert_eq!(conn.awaits(), Awaits::Files);
    let stash = Stash::new(vec![
        FileRow { id: 1, name: "weird\nname".to_string(), update_time: 1700000000 },
        FileRow { id: 2, name: "other".to_string(), update_time: 1699999000 },
    ]);
    let files = stash.into_iter("/srv", vec![Probe::Regular, Probe::Regular]);
    assert_eq!(
        conn.list(Some(files)),
        send(
            vec![row(Some(7), Event::List, true, Some("personal"))],
            b"ok:l3\nweird\nname 1700000000\nother 1699999000\n"
        )
    );
    assert_eq!(conn.awaits(), Awaits::Nothing);
}

#[test]
fn download_turn_by_turn() {
    let mut conn = logged_in();
    read(&mut conn, b"download personal notes.txt\n");
    assert_eq!(
        handle_client(&mut conn),
        Action::Download { stash: "personal".to_string(), path: "notes.txt".to_string() }
    );
    assert_eq!(conn.awaits(), Awaits::Content);
    assert_eq!(
        conn.download(Fetched::Data(b"hello".to_vec())),
        send(
            vec![row(Some(7), Event::Download, true, Some("personal notes.txt"))],
            b"ok:b5\nhello"
        )
    );
}

#[test]
fn download_that_finds_nothing() {
    let mut conn = logged_in();
    read(&mut conn, b"download a b\ndownload c d\n");
    handle_client(&mut conn);
    assert_eq!(
        conn.download(Fetched::NoStash),
        send(vec![row(Some(7), Event::Download, false, Some("a b"))], b"err:nostash\n")
    );
    handle_client(&mut conn);
    assert_eq!(
        conn.download(Fetched::NoFile),
        send(vec![row(Some(7), Event::Download, false, Some("c d"))], b"err:nofile\n")
    );
}

#[test]
fn lines_after_the_end_are_answered_before_closing() {
    let mut conn = Connection::new(PEER);
    read(&mut conn, b"nospace\nalice hunter2\nlist stashes\n");
    assert_eq!(handle_client(&mut conn), send(vec![], b"err:format\n"));
    assert_eq!(handle_client(&mut conn), send(vec![], b"err:format\n"));
    assert_eq!(handle_client(&mut conn), send(vec![], b"err:format\n"));
    assert_eq!(handle_client(&mut conn), Action::Close);
}

#[test]
fn peer_closing_ends_the_connection() {
    let mut conn = logged_in();
    read(&mut conn, b"list stas");
    read(&mut conn, b"");
    assert_eq!(conn.awaits(), Awaits::Over);
    assert_eq!(handle_client(&mut conn), Action::Close);
    assert_eq!(conn.user().map(|u| u.id()), Some(7));
}

#[test]
fn line_that_outgrows_the_buffer_ends_the_connection() {
    let mut conn = logged_in();
    read(&mut conn, &vec![b'x'; 4000]);
    assert_eq!(handle_client(&mut conn), Action::Read { at_most: 96 });
    conn.received(&vec![b'y'; 96]);
    assert_eq!(handle_client(&mut conn), send(vec![], b"err:format\n"));
    assert_eq!(handle_client(&mut conn), Action::Close);
}

#[test]
fn failure_inside_the_server() {
    let mut conn = logged_in();
    read(&mut conn, b"list stashes\nlist stashes\n");
    assert_eq!(handle_client(&mut conn), Action::ListStashes);
    assert_eq!(conn.failed(), b"err:server\n".to_vec());
    assert_eq!(conn.awaits(), Awaits::Over);
    assert_eq!(handle_client(&mut conn), Action::Close);
}

#[test]
fn bytes_that_are_not_utf8() {
    let mut conn = logged_in();
    read(&mut conn, &[0xc3, 0x28, b'\n', b'l', b'\n']);
    assert_eq!(handle_client(&mut conn), send(vec![], b"err:format\n"));
    assert_eq!(handle_client(&mut conn), send(vec![], b"err:format\n"));
    assert_eq!(handle_client(&mut conn), Action::Close);
}

fn serve_all(conn: &mut Connection, seen: &mut Vec<Vec<u8>>) {
    loop {
        match handle_client(conn) {
            Action::Read { .. } => return,
            Action::Close => return,
            Action::Send { bytes, .. } => seen.push(bytes),
            Action::ListStashes => match conn.stashes(vec!["s".to_string()]) {
                Action::Send { bytes, .. } => seen.push(bytes),
                other => panic!("{other:?}"),
            },
            Action::ListFiles { .. } => match conn.list(None) {
                Action::Send { bytes, .. } => seen.push(bytes),
                other => panic!("{other:?}"),
            },
            Action::Download { .. } => match conn.download(Fetched::NoFile) {
                Action::Send { bytes, .. } => seen.push(bytes),
                other => panic!("{other:?}"),
            },
            Action::FindUser { .. } => match conn.try_login(Some(alice())) {
                Action::Send { bytes, .. } => seen.push(bytes),
                other => panic!("{other:?}"),
            },
        }
    }
}

#[test]
fn every_cut_of_a_stream_gets_the_same_answers() {
    let stream = b"alice hunter2\nlist stashes\n\nnope\nlist files x\ndownload a b\nlist";
    let expected: Vec<Vec<u8>> = vec![
        b"ok:0\n".to_vec(),
        b"ok:l1\ns\n".to_vec(),
        b"".to_vec(),
        b"err:nocommand\n".to_vec(),
        b"err:nostash\n".to_vec(),
        b"err:nofile\n".to_vec(),
    ];
    for first in 1..stream.len() {
        for second in first + 1..stream.len() {
            let mut conn = Connection::new(PEER);
            let mut seen = Vec::new();
            for chunk in [&stream[..first], &stream[first..second], &stream[second..]] {
                serve_all(&mut conn, &mut seen);
                assert_eq!(conn.awaits(), Awaits::Bytes);
                conn.received(chunk);
            }
            serve_all(&mut conn, &mut seen);
            assert_eq!(seen, expected);
            assert_eq!(conn.awaits(), Awaits::Bytes);
        }
    }
}
