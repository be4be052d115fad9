use stash_server::frontend::acceptor::{Stopper, Turn};
use stash_server::frontend::stream::handshake::{Error, HandshakeFuture, Progress, Stage};
use stash_server::frontend::stream::{Stream, StreamWrap};
use stash_server::tasks::Tasks;

type Incoming = Turn<Option<Result<&'static str, &'static str>>>;

fn pending() -> Incoming {
    Turn::Pending
}

fn conn() -> Incoming {
    Turn::Ready(Some(Ok("conn")))
}

fn fail() -> Incoming {
    Turn::Ready(Some(Err("io")))
}

#[test]
fn fresh_stopper_waits() {
    let mut stopper: Stopper<u32> = Stopper::new();
    assert_eq!(stopper.poll(7), Turn::Pending);
    assert!(!stopper.is_terminated());
}

#[test]
fn stop_hands_out_the_waker_once() {
    let mut stopper: Stopper<u32> = Stopper::new();
    assert_eq!(stopper.stop(), None);
    let mut stopper: Stopper<u32> = Stopper::new();
    stopper.poll(7);
    stopper.poll(8);
    assert_eq!(stopper.stop(), Some(8));
    assert_eq!(stopper.stop(), None);
}

#[test]
fn stopped_flag_answers_every_poll() {
    let mut stopper: Stopper<u32> = Stopper::new();
    stopper.stop();
    assert_eq!(stopper.poll(1), Turn::Ready(()));
    assert_eq!(stopper.poll(2), Turn::Ready(()));
    assert_eq!(stopper.stop(), None);
    assert!(!stopper.is_terminated());
}

#[test]
fn accept_hands_on_connections_until_stop() {
    let mut stopper: Stopper<u32> = Stopper::new();
    assert_eq!(stopper.accept(pending(), 1), Turn::Pending);
    assert_eq!(stopper.accept(conn(), 2), Turn::Ready(Some(Ok("conn"))));
    assert_eq!(stopper.accept(fail(), 3), Turn::Ready(Some(Err("io"))));
    assert_eq!(stopper.accept(conn(), 4), Turn::Ready(Some(Ok("conn"))));
}

#[test]
fn accept_after_stop_never_hands_on_a_connection() {
    let mut stopper: Stopper<u32> = Stopper::new();
    assert_eq!(stopper.accept(pending(), 1), Turn::Pending);
    assert_eq!(stopper.stop(), Some(1));
    for _ in 0..5 {
        assert_eq!(stopper.accept(conn(), 9), Turn::Ready(None));
        assert_eq!(stopper.accept(pending(), 9), Turn::Ready(None));
        assert_eq!(stopper.accept(fail(), 9), Turn::Ready(None));
    }
    assert_eq!(stopper.stop(), None);
}

#[test]
fn carrier_starts_without_waker() {
    let wrap: StreamWrap<&str, u32> = StreamWrap::new("socket");
    assert_eq!(*wrap.get_ref(), "socket");
    assert_eq!(wrap.waker(), None);
    assert!(!wrap.is_driven());
}

#[test]
fn waker_is_in_during_a_call_and_out_after_it() {
    let mut wrap: StreamWrap<&str, u32> = StreamWrap::new("socket");
    wrap.enter(5);
    assert_eq!(wrap.waker(), Some(&5));
    assert!(wrap.is_driven());
    let done: Turn<Result<usize, &str>> = wrap.leave(Ok(12), false);
    assert_eq!(done, Turn::Ready(Ok(12)));
    assert_eq!(wrap.waker(), None);
    wrap.enter(6);
    let blocked: Turn<Result<usize, &str>> = wrap.leave(Err("would block"), true);
    assert_eq!(blocked, Turn::Pending);
    assert_eq!(wrap.waker(), None);
    wrap.enter(7);
    let failed: Turn<Result<usize, &str>> = wrap.leave(Err("reset"), false);
    assert_eq!(failed, Turn::Ready(Err("reset")));
    assert_eq!(wrap.waker(), None);
    assert_eq!(*wrap.get_ref(), "socket");
}

#[test]
fn carrier_hands_out_transport_and_waker_together() {
    let mut wrap: StreamWrap<String, u32> = StreamWrap::new("sock".to_string());
    wrap.enter(9);
    {
        let (stream, waker) = wrap.parts();
        assert_eq!(*waker, 9);
        stream.push_str("et");
    }
    assert_eq!(wrap.get_ref(), "socket");
    assert_eq!(wrap.waker(), Some(&9));
    wrap.clear();
    assert_eq!(wrap.waker(), None);
    assert!(!wrap.is_driven());
    wrap.clear();
    assert_eq!(wrap.waker(), None);
    assert_eq!(wrap.get_ref(), "socket");
}

#[test]
fn end_of_stream_is_a_ready_zero() {
    let mut wrap: StreamWrap<&str, u32> = StreamWrap::new("socket");
    wrap.enter(1);
    let eof: Turn<Result<usize, &str>> = wrap.leave(Ok(0), true);
    assert_eq!(eof, Turn::Ready(Ok(0)));
}

#[test]
fn carrier_tells_the_engine_when_the_transport_waits() {
    let ready: Turn<Result<usize, &str>> = Turn::Ready(Ok(3));
    let failed: Turn<Result<usize, &str>> = Turn::Ready(Err("reset"));
    let pending: Turn<Result<usize, &str>> = Turn::Pending;
    assert_eq!(StreamWrap::<(), ()>::carry(ready, "would block"), Ok(3));
    assert_eq!(StreamWrap::<(), ()>::carry(failed, "would block"), Err("reset"));
    assert_eq!(StreamWrap::<(), ()>::carry(pending, "would block"), Err("would block"));
}

#[test]
fn closing_is_done_at_once() {
    let stream = Stream::wrap("session");
    assert_eq!(stream.inner, "session");
    let turn: Turn<Result<(), &str>> = stream.poll_close();
    assert_eq!(turn, Turn::Ready(Ok(())));
}

#[test]
fn handshake_begins_with_engine_and_carrier() {
    let mut future: HandshakeFuture<&str, &str, &str> = HandshakeFuture::new("acceptor", "wrap");
    match future.poll() {
        Stage::DidNotBegin { ssl, stream } => {
            assert_eq!(ssl, "acceptor");
            assert_eq!(stream, "wrap");
        }
        Stage::MidWay(_) => panic!("a new handshake is not under way"),
    }
}

#[test]
fn handshake_is_resumed_where_it_waited() {
    let mut carrier: StreamWrap<&str, u32> = StreamWrap::new("socket");
    let mut future: HandshakeFuture<&str, &str, &str> = HandshakeFuture::new("acceptor", "wrap");
    assert!(future.is_pending());
    future.poll();
    assert!(!future.is_pending());
    carrier.enter(1);
    let settled = carrier.settle();
    assert_eq!(carrier.waker(), None);
    let turn: Turn<Result<&str, Error<&str>>> =
        future.process_handshake_res(Progress::WouldBlock("half", settled));
    assert_eq!(turn, Turn::Pending);
    assert!(future.is_pending());
    match future.poll() {
        Stage::MidWay(waiting) => assert_eq!(waiting, "half"),
        Stage::DidNotBegin { .. } => panic!("the handshake was under way"),
    }
    carrier.enter(2);
    let settled = carrier.settle();
    let turn: Turn<Result<&str, Error<&str>>> =
        future.process_handshake_res(Progress::WouldBlock("nearly", settled));
    assert_eq!(turn, Turn::Pending);
    future.poll();
    carrier.enter(3);
    let settled = carrier.settle();
    assert_eq!(carrier.waker(), None);
    assert_eq!(*carrier.get_ref(), "socket");
    let turn: Turn<Result<&str, Error<&str>>> =
        future.process_handshake_res(Progress::Done("session", settled));
    assert_eq!(turn, Turn::Ready(Ok("session")));
    assert!(!future.is_pending());
}

#[test]
fn settling_takes_the_waker_out() {
    let mut carrier: StreamWrap<&str, u32> = StreamWrap::new("socket");
    carrier.enter(4);
    assert!(carrier.is_driven());
    carrier.settle();
    assert!(!carrier.is_driven());
    assert_eq!(carrier.waker(), None);
    carrier.settle();
    assert_eq!(carrier.waker(), None);
    assert_eq!(*carrier.get_ref(), "socket");
}

#[test]
fn handshake_failures_are_final() {
    let mut future: HandshakeFuture<&str, &str, &str> = HandshakeFuture::new("acceptor", "wrap");
    future.poll();
    let turn: Turn<Result<&str, Error<&str>>> = future.process_handshake_res(Progress::Failure);
    assert_eq!(turn, Turn::Ready(Err(Error::Handshake)));
    assert!(!future.is_pending());
    let mut future: HandshakeFuture<&str, &str, &str> = HandshakeFuture::new("acceptor", "wrap");
    future.poll();
    let turn: Turn<Result<&str, Error<&str>>> =
        future.process_handshake_res(Progress::SetupFailure("no key"));
    assert_eq!(turn, Turn::Ready(Err(Error::Setup("no key"))));
}

#[test]
fn handshake_error_messages() {
    let setup: Error<u8> = Error::Setup(1);
    let failed: Error<u8> = Error::Handshake;
    assert_eq!(setup.message("no private key"), "Bad ssl setup: no private key");
    assert_eq!(failed.message("unused"), "Handshake failed");
}

#[test]
fn first_task_gets_id_zero() {
    let tasks: Tasks<&str> = Tasks::new();
    assert_eq!(tasks.len(), 0);
    assert_eq!(tasks.claim(), 0);
    assert!(!tasks.contains_key(0));
}

#[test]
fn ids_go_up_past_running_tasks() {
    let mut tasks: Tasks<&str> = Tasks::new();
    assert_eq!(tasks.insert(0, "a"), None);
    assert_eq!(tasks.claim(), 1);
    tasks.insert(1, "b");
    assert_eq!(tasks.claim(), 2);
    tasks.insert(2, "c");
    assert!(tasks.contains_key(1));
    assert_eq!(tasks.len(), 3);
    assert_eq!(tasks.claim(), 3);
}

#[test]
fn last_id_is_given_again_once_it_is_free() {
    let mut tasks: Tasks<&str> = Tasks::new();
    tasks.insert(0, "a");
    tasks.insert(1, "b");
    assert_eq!(tasks.remove(1), Some("b"));
    assert_eq!(tasks.claim(), 1);
    assert_eq!(tasks.remove(0), Some("a"));
    assert_eq!(tasks.claim(), 1);
    assert_eq!(tasks.remove(0), None);
    assert_eq!(tasks.len(), 0);
}

#[test]
fn ids_go_round_past_the_largest() {
    let mut tasks: Tasks<&str> = Tasks::new();
    tasks.insert(0, "zero");
    tasks.insert(1, "one");
    tasks.insert(usize::MAX - 1, "last but one");
    assert_eq!(tasks.claim(), usize::MAX);
    tasks.insert(usize::MAX, "last");
    assert_eq!(tasks.claim(), 2);
}

#[test]
fn a_task_under_a_used_id_takes_the_place_of_the_old_one() {
    let mut tasks: Tasks<&str> = Tasks::new();
    tasks.insert(4, "old");
    assert_eq!(tasks.insert(4, "new"), Some("old"));
    assert_eq!(tasks.len(), 1);
    assert_eq!(tasks.remove(4), Some("new"));
}

#[test]
fn drain_hands_out_every_task() {
    let mut tasks: Tasks<&str> = Tasks::new();
    tasks.insert(0, "a");
    tasks.insert(1, "b");
    tasks.insert(2, "c");
    tasks.remove(1);
    let mut all: Vec<(usize, &str)> = tasks.drain().into_iter().collect();
    all.sort();
    assert_eq!(all, vec![(0, "a"), (2, "c")]);
    assert_eq!(tasks.len(), 0);
    assert!(tasks.drain().is_empty());
    assert_eq!(tasks.claim(), 2);
}
