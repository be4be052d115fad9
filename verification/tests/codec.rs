use stash_server::frontend::state::{server_error, Response, ResponseContent};

fn wire(response: &Response) -> Vec<u8> {
    response.into()
}

fn lines(items: &[&str]) -> Response {
    Response::Success(ResponseContent::Lines(items.iter().map(|s| s.to_string()).collect()))
}

#[test]
fn empty_success_is_ok_zero() {
    assert_eq!(wire(&Response::Success(ResponseContent::Empty)), b"ok:0\n".to_vec());
}

#[test]
fn silent_sends_nothing() {
    assert_eq!(wire(&Response::Silent), Vec::<u8>::new());
}

#[test]
fn errors_have_their_fixed_lines() {
    assert_eq!(wire(&Response::BadFormat), b"err:format\n".to_vec());
    assert_eq!(wire(&Response::NoAuth), b"err:auth\n".to_vec());
    assert_eq!(wire(&Response::NoCmd), b"err:nocommand\n".to_vec());
    assert_eq!(wire(&Response::BadArgs), b"err:badargs\n".to_vec());
    assert_eq!(wire(&Response::NoStash), b"err:nostash\n".to_vec());
    assert_eq!(wire(&Response::NoFile), b"err:nofile\n".to_vec());
}

#[test]
fn server_error_line() {
    assert_eq!(server_error(), b"err:server\n".to_vec());
}

#[test]
fn lines_are_counted_and_closed_by_line_feeds() {
    assert_eq!(wire(&lines(&["personal", "work"])), b"ok:l2\npersonal\nwork\n".to_vec());
}

#[test]
fn no_lines_is_a_bare_header() {
    assert_eq!(wire(&lines(&[])), b"ok:l0\n".to_vec());
}

#[test]
fn one_empty_line() {
    assert_eq!(wire(&lines(&[""])), b"ok:l1\n\n".to_vec());
}

#[test]
fn lines_count_embedded_line_feeds() {
    assert_eq!(
        wire(&lines(&["weird\nname 1700000000", "other 1699999000"])),
        b"ok:l3\nweird\nname 1700000000\nother 1699999000\n".to_vec()
    );
}

#[test]
fn declared_count_equals_line_feeds_in_body() {
    let response = lines(&["a\n\nb", "", "c\n", "\n"]);
    let bytes = wire(&response);
    let header_end = bytes.iter().position(|b| *b == b'\n').unwrap();
    let declared: usize =
        std::str::from_utf8(&bytes[4..header_end]).unwrap().parse().unwrap();
    let in_body = bytes[header_end + 1..].iter().filter(|b| **b == b'\n').count();
    assert_eq!(declared, 8);
    assert_eq!(declared, in_body);
}

#[test]
fn lines_keep_their_utf8() {
    assert_eq!(wire(&lines(&["grüße", "日本"])), "ok:l2\ngrüße\n日本\n".as_bytes().to_vec());
}

#[test]
fn count_with_several_digits() {
    let many: Vec<String> = (0..120).map(|i| i.to_string()).collect();
    let bytes = wire(&Response::Success(ResponseContent::Lines(many)));
    assert!(bytes.starts_with(b"ok:l120\n0\n1\n"));
    assert!(bytes.ends_with(b"\n119\n"));
}

#[test]
fn binary_is_length_prefixed() {
    assert_eq!(
        wire(&Response::Success(ResponseContent::Binary(b"hello".to_vec()))),
        b"ok:b5\nhello".to_vec()
    );
}

#[test]
fn empty_binary() {
    assert_eq!(wire(&Response::Success(ResponseContent::Binary(vec![]))), b"ok:b0\n".to_vec());
}

#[test]
fn binary_keeps_any_byte() {
    let data = vec![0u8, 10, 255, 13, 10];
    let mut expected = b"ok:b5\n".to_vec();
    expected.extend_from_slice(&data);
    assert_eq!(wire(&Response::Success(ResponseContent::Binary(data))), expected);
}

#[test]
fn lines_without_line_feeds_read_back() {
    let written = vec!["one".to_string(), "".to_string(), "three 3".to_string()];
    let bytes = wire(&Response::Success(ResponseContent::Lines(written.clone())));
    let text = String::from_utf8(bytes).unwrap();
    let (header, body) = text.split_once('\n').unwrap();
    assert_eq!(header, "ok:l3");
    let mut read: Vec<String> = body.split('\n').map(|s| s.to_string()).collect();
    assert_eq!(read.pop(), Some(String::new()));
    assert_eq!(read, written);
}

#[test]
fn conversion_by_from() {
    assert_eq!(Vec::<u8>::from(&Response::NoAuth), b"err:auth\n".to_vec());
}
