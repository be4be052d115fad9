//! How the bytes of a response are read back, and that reading undoes
//! writing.

use vstd::prelude::*;
use vstd::utf8::decode_utf8;
use vstd::utf8::encode_utf8;
use vstd::utf8::encode_utf8_decode_utf8;
use vstd::utf8::encode_utf8_valid_utf8;
use vstd::utf8::is_ascii_chars;
use vstd::utf8::is_ascii_chars_encode_utf8;
use vstd::utf8::valid_utf8;
use crate::frontend::state::binary_header;
use crate::frontend::state::body;
use crate::frontend::state::declared;
use crate::frontend::state::lines_text;
use crate::frontend::state::newlines;
use crate::frontend::state::wire;
use crate::frontend::state::ContentView;
use crate::frontend::state::ResponseView;
use crate::frontend::LINE_FEED;
use crate::text::decimal;
use crate::text::digit_value;
use crate::text::lemma_decimal;
use crate::text::lemma_position;
use crate::text::number;
use crate::text::position;
use crate::text::split;

verus! {

/// The lines of a body: the text cut at its line feeds, the last of which
/// ends it. A body that is not empty and does not end in a line feed holds
/// no list of lines.
pub open spec fn lines_of(text: Seq<char>) -> Option<Seq<Seq<char>>> {
    if text.len() == 0 {
        Some(seq![])
    } else if text.last() == '\n' {
        Some(split(text.drop_last(), '\n'))
    } else {
        None
    }
}

/// The response that a header without content stands for.
pub open spec fn plain(header: Seq<char>) -> Option<ResponseView> {
    if header == "ok:0"@ {
        Some(ResponseView::Success(ContentView::Empty))
    } else if header == "err:format"@ {
        Some(ResponseView::BadFormat)
    } else if header == "err:auth"@ {
        Some(ResponseView::NoAuth)
    } else if header == "err:nocommand"@ {
        Some(ResponseView::NoCmd)
    } else if header == "err:badargs"@ {
        Some(ResponseView::BadArgs)
    } else if header == "err:nostash"@ {
        Some(ResponseView::NoStash)
    } else if header == "err:nofile"@ {
        Some(ResponseView::NoFile)
    } else {
        None
    }
}

/// The response that a header and the bytes after it stand for.
pub open spec fn read(header: Seq<char>, rest: Seq<u8>) -> Option<ResponseView> {
    if header.len() >= 4 && header.take(4) == "ok:l"@ {
        match number(header.skip(4)) {
            Some(count) => if valid_utf8(rest) && newlines(decode_utf8(rest)) == count {
                match lines_of(decode_utf8(rest)) {
                    Some(lines) => Some(ResponseView::Success(ContentView::Lines(lines))),
                    None => None,
                }
            } else {
                None
            },
            None => None,
        }
    } else if header.len() >= 4 && header.take(4) == "ok:b"@ {
        match number(header.skip(4)) {
            Some(len) => if rest.len() == len {
                Some(ResponseView::Success(ContentView::Binary(rest)))
            } else {
                None
            },
            None => None,
        }
    } else if rest.len() == 0 {
        plain(header)
    } else {
        None
    }
}

/// The response that the bytes of exactly one answer stand for: no bytes are
/// no answer; else the header runs to the first line feed, and says what
/// follows.
pub open spec fn decode(bytes: Seq<u8>) -> Option<ResponseView> {
    if bytes.len() == 0 {
        Some(ResponseView::Silent)
    } else {
        let p = position(bytes, LINE_FEED);
        if 0 <= p < bytes.len() && valid_utf8(bytes.take(p)) {
            read(decode_utf8(bytes.take(p)), bytes.skip(p + 1))
        } else {
            None
        }
    }
}

/// The lines as a reader finds them: every line cut at the line feeds it
/// holds.
pub open spec fn pieces(lines: Seq<Seq<char>>) -> Seq<Seq<char>>
    decreases lines.len(),
{
    if lines.len() == 0 {
        seq![]
    } else {
        pieces(lines.drop_last()) + split(lines.last(), '\n')
    }
}

/// The response as a reader finds it: a list with its lines cut at the line
/// feeds they hold, every other response as it is.
pub open spec fn as_read(r: ResponseView) -> ResponseView {
    match r {
        ResponseView::Success(ContentView::Lines(lines)) => ResponseView::Success(
            ContentView::Lines(pieces(lines)),
        ),
        _ => r,
    }
}

/// Whether no line of a list holds a line feed.
pub open spec fn single_lines(lines: Seq<Seq<char>>) -> bool {
    forall|i: int| 0 <= i < lines.len() ==> !(#[trigger] lines[i]).contains('\n')
}

/// Whether a response is the only one with its wire form: every response
/// but a list with a line feed inside a line.
pub open spec fn readable(r: ResponseView) -> bool {
    r matches ResponseView::Success(ContentView::Lines(lines)) ==> single_lines(lines)
}

/// The encoding of a text is the encoding of its parts, one after the other.
pub proof fn lemma_encode_concat(a: Seq<char>, b: Seq<char>)
    ensures
        encode_utf8(a + b) == encode_utf8(a) + encode_utf8(b),
    decreases a.len(),
{
    if a.len() == 0 {
        assert(a + b == b);
    } else {
        assert((a + b).drop_first() == a.drop_first() + b);
        assert((a + b)[0] == a[0]);
        lemma_encode_concat(a.drop_first(), b);
    }
}

/// A text counts the line feeds of its parts.
pub proof fn lemma_newlines_concat(a: Seq<char>, b: Seq<char>)
    ensures
        newlines(a + b) == newlines(a) + newlines(b),
    decreases b.len(),
{
    if b.len() == 0 {
        assert(a + b == a);
    } else {
        assert((a + b).drop_last() == a + b.drop_last());
        lemma_newlines_concat(a, b.drop_last());
    }
}

/// The body of a list holds as many line feeds as its header declares.
pub proof fn lemma_declared(lines: Seq<Seq<char>>)
    ensures
        newlines(body(lines)) == declared(lines),
    decreases lines.len(),
{
    if lines.len() != 0 {
        lemma_declared(lines.drop_last());
        lemma_newlines_concat(body(lines.drop_last()) + lines.last(), seq!['\n']);
        lemma_newlines_concat(body(lines.drop_last()), lines.last());
        assert(newlines(seq!['\n']) == 1) by {
            reveal_with_fuel(newlines, 2);
            assert(seq!['\n'].last() == '\n');
        }
    }
}

/// A text without the separator is one piece.
proof fn lemma_split_whole(s: Seq<char>, sep: char)
    requires
        !s.contains(sep),
    ensures
        split(s, sep) == seq![s],
{
    crate::text::lemma_position_bounds(s, sep);
    let p = position(s, sep);
    if p < s.len() {
        assert(s.contains(s[p]));
    }
}

/// A piece without the separator, the separator, and more text: the piece
/// comes first, then the pieces of the rest.
proof fn lemma_split_first(piece: Seq<char>, rest: Seq<char>, sep: char)
    requires
        !piece.contains(sep),
    ensures
        split(piece + seq![sep] + rest, sep) == seq![piece] + split(rest, sep),
{
    let s = piece + seq![sep] + rest;
    assert forall|j: int| 0 <= j < piece.len() implies s[j] != sep by {
        assert(s[j] == piece[j]);
        assert(piece.contains(piece[j]));
    }
    assert(s[piece.len() as int] == sep);
    lemma_position(s, sep, piece.len() as int);
    assert(s.take(piece.len() as int) == piece);
    assert(s.skip(piece.len() as int + 1) == rest);
}

/// Two texts with a separator between them: the pieces of the first, then
/// the pieces of the second.
proof fn lemma_split_join(a: Seq<char>, b: Seq<char>, sep: char)
    ensures
        split(a + seq![sep] + b, sep) == split(a, sep) + split(b, sep),
    decreases a.len(),
{
    crate::text::lemma_position_bounds(a, sep);
    let p = position(a, sep);
    if p < a.len() {
        let head = a.take(p);
        let tail = a.skip(p + 1);
        assert(!head.contains(sep)) by {
            if head.contains(sep) {
                let i = choose|i: int| 0 <= i < head.len() && head[i] == sep;
                assert(a[i] == sep);
            }
        }
        lemma_split_join(tail, b, sep);
        assert(a + seq![sep] + b == head + seq![sep] + (tail + seq![sep] + b));
        lemma_split_first(head, tail + seq![sep] + b, sep);
        assert(seq![head] + (split(tail, sep) + split(b, sep)) == (seq![head] + split(tail, sep))
            + split(b, sep));
    } else {
        assert(!a.contains(sep)) by {
            if a.contains(sep) {
                let i = choose|i: int| 0 <= i < a.len() && a[i] == sep;
            }
        }
        lemma_split_first(a, b, sep);
    }
}

/// The body of a list is read as the lines of the list, each cut at the line
/// feeds it holds.
proof fn lemma_lines_of_body(lines: Seq<Seq<char>>)
    ensures
        lines_of(body(lines)) == Some(pieces(lines)),
        lines.len() > 0 ==> body(lines).len() > 0 && body(lines).last() == '\n',
    decreases lines.len(),
{
    if lines.len() == 0 {
    } else {
        let init = lines.drop_last();
        let last = lines.last();
        lemma_lines_of_body(init);
        let b = body(lines);
        assert(b.last() == '\n');
        assert(b.drop_last() == body(init) + last);
        if init.len() == 0 {
            assert(body(init) + last == last);
            assert(pieces(init) + split(last, '\n') == split(last, '\n'));
        } else {
            let front = body(init).drop_last();
            assert(body(init) == front + seq!['\n']);
            assert(b.drop_last() == front + seq!['\n'] + last);
            lemma_split_join(front, last, '\n');
        }
    }
}

/// Lines without line feeds are read as they are.
pub proof fn lemma_pieces_single(lines: Seq<Seq<char>>)
    requires
        single_lines(lines),
    ensures
        pieces(lines) == lines,
    decreases lines.len(),
{
    if lines.len() != 0 {
        let init = lines.drop_last();
        assert(single_lines(init)) by {
            assert forall|i: int| 0 <= i < init.len() implies !(#[trigger] init[i]).contains(
                '\n',
            ) by {
                assert(init[i] == lines[i]);
            }
        }
        lemma_pieces_single(init);
        assert(!lines[lines.len() - 1].contains('\n'));
        lemma_split_whole(lines.last(), '\n');
        assert(init + seq![lines.last()] == lines);
    }
}

/// The bytes of a header line and what follows it are read as that header
/// and that rest, if the header is plain ASCII without a line feed.
proof fn lemma_header(header: Seq<char>, rest: Seq<u8>)
    requires
        is_ascii_chars(header),
        !header.contains('\n'),
    ensures
        decode(encode_utf8(header + seq!['\n']) + rest) == read(header, rest),
{
    let line = header + seq!['\n'];
    let bytes = encode_utf8(line) + rest;
    assert(is_ascii_chars(line)) by {
        assert forall|i: int| 0 <= i < line.len() implies '\0' <= #[trigger] line[i]
            <= '\u{7f}' by {
            if i < header.len() {
                assert(line[i] == header[i]);
            }
        }
    }
    is_ascii_chars_encode_utf8(line);
    is_ascii_chars_encode_utf8(header);
    lemma_encode_concat(header, seq!['\n']);
    let h = encode_utf8(header);
    let p = header.len() as int;
    assert forall|j: int| 0 <= j < p implies bytes[j] != LINE_FEED by {
        assert(bytes[j] == encode_utf8(line)[j]);
        assert(line[j] == header[j]);
        assert(header.contains(header[j]));
        assert(line[j] as u8 == encode_utf8(line)[j]);
        lemma_ascii_line_feed(line[j]);
    }
    assert(bytes[p] == LINE_FEED) by {
        assert(bytes[p] == encode_utf8(line)[p]);
        assert(line[p] == '\n');
        assert(line[p] as u8 == encode_utf8(line)[p]);
        lemma_ascii_line_feed(line[p]);
    }
    lemma_position(bytes, LINE_FEED, p);
    assert(bytes.take(p) == h) by {
        assert(encode_utf8(line) == h + encode_utf8(seq!['\n']));
        assert(bytes.take(p) =~= h);
    }
    assert(bytes.skip(p + 1) == rest) by {
        assert(encode_utf8(line).len() == p + 1);
        assert(bytes.skip(p + 1) =~= rest);
    }
    encode_utf8_valid_utf8(header);
    encode_utf8_decode_utf8(header);
}

/// Among the ASCII characters only the line feed has the code of the line
/// feed.
proof fn lemma_ascii_line_feed(c: char)
    requires
        '\0' <= c <= '\u{7f}',
    ensures
        (c as u8 == LINE_FEED) <==> c == '\n',
{
}

/// A header that starts with a tag of four letters and goes on in digits is
/// plain ASCII without a line feed.
proof fn lemma_counted_header(tag: Seq<char>, n: nat)
    requires
        tag.len() == 4,
        is_ascii_chars(tag),
        !tag.contains('\n'),
    ensures
        is_ascii_chars(tag + decimal(n)),
        !(tag + decimal(n)).contains('\n'),
        (tag + decimal(n)).take(4) == tag,
        number((tag + decimal(n)).skip(4)) == Some(n),
{
    lemma_decimal(n);
    let h = tag + decimal(n);
    assert forall|i: int| 0 <= i < h.len() implies '\0' <= #[trigger] h[i] <= '\u{7f}' && h[i]
        != '\n' by {
        if i < 4 {
            assert(h[i] == tag[i]);
            assert(tag.contains(tag[i]));
        } else {
            assert(h[i] == decimal(n)[i - 4]);
            assert(digit_value(decimal(n)[i - 4]) is Some);
        }
    }
    assert(h.take(4) == tag);
    assert(h.skip(4) == decimal(n));
}

/// The text of a message, a line feed at its end included, is the header
/// that is read back.
proof fn lemma_plain(header: Seq<char>, message: Seq<char>, r: ResponseView)
    requires
        message == header + seq!['\n'],
        is_ascii_chars(header),
        !header.contains('\n'),
        read(header, Seq::<u8>::empty()) == Some(r),
    ensures
        decode(encode_utf8(message)) == Some(r),
{
    lemma_header(header, Seq::<u8>::empty());
    assert(encode_utf8(message) + Seq::<u8>::empty() == encode_utf8(message));
}

/// Reading undoes writing: the bytes of a response are read back as that
/// response, if it is the only one with its wire form.
pub proof fn lemma_round_trip(r: ResponseView)
    requires
        readable(r),
    ensures
        decode(wire(r)) == Some(r),
{
    lemma_reading(r);
    if let ResponseView::Success(ContentView::Lines(lines)) = r {
        lemma_pieces_single(lines);
    }
}

/// What a reader makes of the bytes of any response: the response itself,
/// but for a list with line feeds inside its lines. Of such a list the
/// reader finds the declared number of line feeds and the same text, but
/// cannot tell which line feeds end a line, and so reads every piece as a
/// line.
pub proof fn lemma_reading(r: ResponseView)
    ensures
        decode(wire(r)) == Some(as_read(r)),
{
    reveal_strlit("ok:l");
    reveal_strlit("ok:b");
    reveal_strlit("ok:0");
    reveal_strlit("ok:0\n");
    reveal_strlit("err:format");
    reveal_strlit("err:format\n");
    reveal_strlit("err:auth");
    reveal_strlit("err:auth\n");
    reveal_strlit("err:nocommand");
    reveal_strlit("err:nocommand\n");
    reveal_strlit("err:badargs");
    reveal_strlit("err:badargs\n");
    reveal_strlit("err:nostash");
    reveal_strlit("err:nostash\n");
    reveal_strlit("err:nofile");
    reveal_strlit("err:nofile\n");
    match r {
        ResponseView::Silent => {},
        ResponseView::Success(ContentView::Empty) => {
            lemma_message("ok:0"@, "ok:0\n"@);
            assert("ok:0"@.take(4)[3] == '0');
            lemma_plain("ok:0"@, "ok:0\n"@, r);
        },
        ResponseView::Success(ContentView::Lines(lines)) => {
            let n = declared(lines);
            lemma_tag("ok:l"@);
            lemma_counted_header("ok:l"@, n);
            let header = "ok:l"@ + decimal(n);
            let rest = encode_utf8(body(lines));
            assert(lines_text(lines) == (header + seq!['\n']) + body(lines));
            lemma_encode_concat(header + seq!['\n'], body(lines));
            lemma_header(header, rest);
            encode_utf8_valid_utf8(body(lines));
            encode_utf8_decode_utf8(body(lines));
            lemma_declared(lines);
            lemma_lines_of_body(lines);
        },
        ResponseView::Success(ContentView::Binary(data)) => {
            lemma_tag("ok:b"@);
            lemma_counted_header("ok:b"@, data.len());
            let header = "ok:b"@ + decimal(data.len());
            assert(binary_header(data.len()) == header + seq!['\n']);
            lemma_header(header, data);
            assert("ok:b"@[3] != "ok:l"@[3]);
        },
        ResponseView::BadFormat => {
            lemma_message("err:format"@, "err:format\n"@);
            assert("err:format"@.take(4)[0] == 'e');
            lemma_plain("err:format"@, "err:format\n"@, r);
        },
        ResponseView::NoAuth => {
            lemma_message("err:auth"@, "err:auth\n"@);
            assert("err:auth"@.take(4)[0] == 'e');
            lemma_plain("err:auth"@, "err:auth\n"@, r);
        },
        ResponseView::NoCmd => {
            lemma_message("err:nocommand"@, "err:nocommand\n"@);
            assert("err:nocommand"@.take(4)[0] == 'e');
            lemma_plain("err:nocommand"@, "err:nocommand\n"@, r);
        },
        ResponseView::BadArgs => {
            lemma_message("err:badargs"@, "err:badargs\n"@);
            assert("err:badargs"@.take(4)[0] == 'e');
            lemma_plain("err:badargs"@, "err:badargs\n"@, r);
        },
        ResponseView::NoStash => {
            lemma_message("err:nostash"@, "err:nostash\n"@);
            assert("err:nostash"@.take(4)[0] == 'e');
            assert("err:nostash"@[4] != "err:badargs"@[4]);
            lemma_plain("err:nostash"@, "err:nostash\n"@, r);
        },
        ResponseView::NoFile => {
            lemma_message("err:nofile"@, "err:nofile\n"@);
            assert("err:nofile"@.take(4)[0] == 'e');
            assert("err:nofile"@[4] != "err:format"@[4]);
            lemma_plain("err:nofile"@, "err:nofile\n"@, r);
        },
    }
}

/// A tag of lower-case letters, digits and colons is plain ASCII without a
/// line feed.
proof fn lemma_tag(tag: Seq<char>)
    requires
        forall|i: int| 0 <= i < tag.len() ==> word_char(#[trigger] tag[i]),
    ensures
        is_ascii_chars(tag),
        !tag.contains('\n'),
{
}

/// The characters that headers are made of.
pub open spec fn word_char(c: char) -> bool {
    ('a' <= c <= 'z') || ('0' <= c <= '9') || c == ':'
}

/// A message is its header and a line feed.
proof fn lemma_message(header: Seq<char>, message: Seq<char>)
    requires
        message.len() == header.len() + 1,
        message.last() == '\n',
        forall|i: int| 0 <= i < header.len() ==> header[i] == message[i],
        forall|i: int| 0 <= i < header.len() ==> word_char(#[trigger] header[i]),
    ensures
        message == header + seq!['\n'],
        is_ascii_chars(header),
        !header.contains('\n'),
{
    assert(message =~= header + seq!['\n']);
}

} // verus!
