//! Character-sequence helpers shared by the parsers of this crate.
//!
//! Text is handled as `Vec<char>` in executable code and as `Seq<char>` in
//! contracts, which is also the view of `str` and `String`.

use vstd::prelude::*;
use vstd::utf8::decode_utf8;
use vstd::utf8::valid_utf8;

verus! {

/// Whether `c` has the Unicode `White_Space` property: the character
/// tabulation to the carriage return, the space, the next line, the no-break
/// space, the ogham space mark, the en quad to the hair space, the line and
/// the paragraph separator, the narrow no-break space, the medium
/// mathematical space and the ideographic space.
pub open spec fn white_space(c: char) -> bool {
    ||| '\u{9}' <= c <= '\u{d}'
    ||| c == '\u{20}'
    ||| c == '\u{85}'
    ||| c == '\u{a0}'
    ||| c == '\u{1680}'
    ||| '\u{2000}' <= c <= '\u{200a}'
    ||| c == '\u{2028}'
    ||| c == '\u{2029}'
    ||| c == '\u{202f}'
    ||| c == '\u{205f}'
    ||| c == '\u{3000}'
}

/// Whether `c` is white space.
pub fn is_white_space(c: char) -> (b: bool)
    ensures
        b == white_space(c),
{
    ('\u{9}' <= c && c <= '\u{d}') || c == '\u{20}' || c == '\u{85}' || c == '\u{a0}' || c
        == '\u{1680}' || ('\u{2000}' <= c && c <= '\u{200a}') || c == '\u{2028}' || c
        == '\u{2029}' || c == '\u{202f}' || c == '\u{205f}' || c == '\u{3000}'
}

/// The Unicode lowercase mapping of a text.
pub uninterp spec fn lowercase(s: Seq<char>) -> Seq<char>;

/// `str::to_lowercase` returns the lowercase mapping of the whole slice; the
/// result depends on the characters alone.
pub assume_specification[ str::to_lowercase ](s: &str) -> (r: String)
    ensures
        r@ == lowercase(s@),
;

/// `String::push` appends one character at the end.
pub assume_specification[ String::push ](s: &mut String, c: char)
    ensures
        final(s)@ == old(s)@.push(c),
;

/// The error of `String::from_utf8`. Nothing of it is read.
#[verifier::external_type_specification]
#[verifier::external_body]
pub struct ExFromUtf8Error(std::string::FromUtf8Error);

/// `String::from_utf8` succeeds exactly on well-formed UTF-8 and then holds
/// the characters that the bytes encode.
pub assume_specification[ String::from_utf8 ](bytes: Vec<u8>) -> (r: Result<
    String,
    std::string::FromUtf8Error,
>)
    ensures
        r is Ok <==> valid_utf8(bytes@),
        r matches Ok(s) ==> s@ == decode_utf8(bytes@),
;

/// Index of the first occurrence of `c` in `s`, or `s.len()` if there is none.
pub open spec fn position<T>(s: Seq<T>, c: T) -> int
    decreases s.len(),
{
    if s.len() == 0 || s[0] == c {
        0
    } else {
        1 + position(s.drop_first(), c)
    }
}

/// The parts before and after the first `sep`, if `s` holds one.
pub open spec fn split_once(s: Seq<char>, sep: char) -> Option<(Seq<char>, Seq<char>)> {
    let p = position(s, sep);
    if p < s.len() {
        Some((s.take(p), s.skip(p + 1)))
    } else {
        None
    }
}

/// `s` cut at every `sep`; always at least one piece.
pub open spec fn split(s: Seq<char>, sep: char) -> Seq<Seq<char>>
    decreases s.len(),
{
    let p = position(s, sep);
    if 0 <= p < s.len() {
        seq![s.take(p)] + split(s.skip(p + 1), sep)
    } else {
        seq![s]
    }
}

/// `s` without its leading white space.
pub open spec fn trim_start(s: Seq<char>) -> Seq<char>
    decreases s.len(),
{
    if s.len() > 0 && white_space(s[0]) {
        trim_start(s.drop_first())
    } else {
        s
    }
}

/// `s` without its trailing white space.
pub open spec fn trim_end(s: Seq<char>) -> Seq<char>
    decreases s.len(),
{
    if s.len() > 0 && white_space(s.last()) {
        trim_end(s.drop_last())
    } else {
        s
    }
}

/// `s` without leading and trailing white space.
pub open spec fn trim(s: Seq<char>) -> Seq<char> {
    trim_end(trim_start(s))
}

/// The character of a decimal digit.
pub open spec fn digit(d: nat) -> char
    recommends
        d < 10,
{
    if d == 0 {
        '0'
    } else if d == 1 {
        '1'
    } else if d == 2 {
        '2'
    } else if d == 3 {
        '3'
    } else if d == 4 {
        '4'
    } else if d == 5 {
        '5'
    } else if d == 6 {
        '6'
    } else if d == 7 {
        '7'
    } else if d == 8 {
        '8'
    } else {
        '9'
    }
}

/// The decimal notation of `n`, without sign or leading zeros.
pub open spec fn decimal(n: nat) -> Seq<char>
    decreases n,
{
    if n < 10 {
        seq![digit(n)]
    } else {
        decimal(n / 10).push(digit(n % 10))
    }
}

/// The value of a decimal digit.
pub open spec fn digit_value(c: char) -> Option<nat> {
    if c == '0' {
        Some(0)
    } else if c == '1' {
        Some(1)
    } else if c == '2' {
        Some(2)
    } else if c == '3' {
        Some(3)
    } else if c == '4' {
        Some(4)
    } else if c == '5' {
        Some(5)
    } else if c == '6' {
        Some(6)
    } else if c == '7' {
        Some(7)
    } else if c == '8' {
        Some(8)
    } else if c == '9' {
        Some(9)
    } else {
        None
    }
}

/// The number that a run of decimal digits writes; nothing for an empty run
/// or one that holds anything but digits.
pub open spec fn number(s: Seq<char>) -> Option<nat>
    decreases s.len(),
{
    if s.len() == 0 {
        None
    } else if s.len() == 1 {
        digit_value(s[0])
    } else {
        match (number(s.drop_last()), digit_value(s.last())) {
            (Some(n), Some(d)) => Some(n * 10 + d),
            _ => None,
        }
    }
}

/// `position` is the first index that holds `c`.
pub proof fn lemma_position<T>(s: Seq<T>, c: T, i: int)
    requires
        0 <= i <= s.len(),
        forall|j: int| 0 <= j < i ==> s[j] != c,
        i < s.len() ==> s[i] == c,
    ensures
        position(s, c) == i,
    decreases s.len(),
{
    if s.len() != 0 && i != 0 {
        let t = s.drop_first();
        assert forall|j: int| 0 <= j < i - 1 implies t[j] != c by {
            assert(t[j] == s[j + 1]);
        }
        lemma_position(t, c, i - 1);
    }
}

/// `position` stays within the text and marks an occurrence when it is inside.
pub proof fn lemma_position_bounds<T>(s: Seq<T>, c: T)
    ensures
        0 <= position(s, c) <= s.len(),
        position(s, c) < s.len() ==> s[position(s, c)] == c,
        forall|j: int| 0 <= j < position(s, c) ==> s[j] != c,
    decreases s.len(),
{
    if s.len() != 0 && s[0] != c {
        let t = s.drop_first();
        lemma_position_bounds(t, c);
        assert forall|j: int| 0 <= j < position(s, c) implies s[j] != c by {
            if j > 0 {
                assert(t[j - 1] == s[j]);
            }
        }
    }
}

/// The decimal notation of a number is made of digits and reads back as the
/// number.
pub proof fn lemma_decimal(n: nat)
    ensures
        number(decimal(n)) == Some(n),
        decimal(n).len() >= 1,
        forall|i: int| 0 <= i < decimal(n).len() ==> digit_value(#[trigger] decimal(n)[i]) is Some,
    decreases n,
{
    if n >= 10 {
        lemma_decimal(n / 10);
        let d = decimal(n / 10);
        assert(decimal(n).drop_last() == d);
        assert(digit_value(digit(n % 10)) == Some(n % 10));
    } else {
        assert(digit_value(digit(n)) == Some(n));
    }
}

/// The characters of a string slice.
pub fn chars_of(s: &str) -> (out: Vec<char>)
    ensures
        out@ == s@,
{
    let mut out: Vec<char> = Vec::new();
    for c in it: s.chars()
        invariant
            it.seq() == s@,
            out@ == s@.take(it.index() as int),
    {
        out.push(c);
    }
    out
}

/// The string made of the given characters.
pub fn string_of(chars: &Vec<char>) -> (s: String)
    ensures
        s@ == chars@,
{
    let mut s = String::new();
    let mut i: usize = 0;
    while i < chars.len()
        invariant
            i <= chars.len(),
            s@ == chars@.take(i as int),
        decreases chars.len() - i,
    {
        s.push(chars[i]);
        i += 1;
    }
    s
}

/// Whether two texts hold the same characters.
pub fn same(a: &Vec<char>, b: &Vec<char>) -> (r: bool)
    ensures
        r == (a@ == b@),
{
    if a.len() != b.len() {
        return false;
    }
    let mut i: usize = 0;
    while i < a.len()
        invariant
            a.len() == b.len(),
            i <= a.len(),
            a@.take(i as int) == b@.take(i as int),
        decreases a.len() - i,
    {
        if a[i] != b[i] {
            return false;
        }
        assert(a@.take(i + 1) == a@.take(i as int).push(a@[i as int]));
        assert(b@.take(i + 1) == b@.take(i as int).push(b@[i as int]));
        i += 1;
    }
    assert(a@ == a@.take(a.len() as int));
    assert(b@ == b@.take(b.len() as int));
    true
}

/// Whether a text spells the given word.
pub fn is_word(a: &Vec<char>, word: &str) -> (r: bool)
    ensures
        r == (a@ == word@),
{
    let w = chars_of(word);
    same(a, &w)
}

/// A copy of `s[from..to]`.
pub fn slice(s: &Vec<char>, from: usize, to: usize) -> (out: Vec<char>)
    requires
        from <= to <= s.len(),
    ensures
        out@ == s@.subrange(from as int, to as int),
{
    let mut out: Vec<char> = Vec::new();
    let mut i: usize = from;
    while i < to
        invariant
            from <= i <= to <= s.len(),
            out@ == s@.subrange(from as int, i as int),
        decreases to - i,
    {
        out.push(s[i]);
        i += 1;
    }
    out
}

/// Index of the first `c` at or after `from`, or `s.len()`.
pub fn find_from(s: &Vec<char>, from: usize, c: char) -> (p: usize)
    requires
        from <= s.len(),
    ensures
        p == from + position(s@.skip(from as int), c),
        from <= p <= s.len(),
{
    let mut i: usize = from;
    while i < s.len() && s[i] != c
        invariant
            from <= i <= s.len(),
            forall|j: int| from <= j < i ==> s@[j] != c,
        decreases s.len() - i,
    {
        i += 1;
    }
    proof {
        lemma_position(s@.skip(from as int), c, i - from);
    }
    i
}

/// Cuts `s` at its first `sep`.
pub fn split_once_at(s: &Vec<char>, sep: char) -> (r: Option<(Vec<char>, Vec<char>)>)
    ensures
        match r {
            Some((a, b)) => split_once(s@, sep) == Some((a@, b@)),
            None => split_once(s@, sep) is None,
        },
{
    let p = find_from(s, 0, sep);
    assert(s@.skip(0) == s@);
    if p < s.len() {
        let a = slice(s, 0, p);
        let b = slice(s, p + 1, s.len());
        Some((a, b))
    } else {
        None
    }
}

/// Cuts `s` at every `sep`.
pub fn split_at_each(s: &Vec<char>, sep: char) -> (out: Vec<Vec<char>>)
    ensures
        out@.map_values(|p: Vec<char>| p@) == split(s@, sep),
        out@.len() >= 1,
{
    let mut out: Vec<Vec<char>> = Vec::new();
    let mut start: usize = 0;
    assert(s@.skip(0) == s@);
    loop
        invariant_except_break
            start <= s.len(),
            out@.map_values(|p: Vec<char>| p@) + split(s@.skip(start as int), sep) == split(
                s@,
                sep,
            ),
        ensures
            out@.map_values(|p: Vec<char>| p@) == split(s@, sep),
            out@.len() >= 1,
        decreases s.len() - start,
    {
        let p = find_from(s, start, sep);
        let piece = slice(s, start, p);
        let ghost before = out@.map_values(|p: Vec<char>| p@);
        let ghost rest = s@.skip(start as int);
        out.push(piece);
        proof {
            assert(out@.map_values(|p: Vec<char>| p@) == before.push(piece@));
            assert(rest.take(p - start) == s@.subrange(start as int, p as int));
        }
        if p < s.len() {
            proof {
                assert(rest.skip(p - start + 1) == s@.skip(p + 1));
                assert(before.push(piece@) + split(s@.skip(p + 1), sep) == before + split(
                    rest,
                    sep,
                ));
            }
            start = p + 1;
        } else {
            proof {
                assert(rest.take(p - start) == rest);
                assert(before.push(piece@) == before + split(rest, sep));
            }
            break;
        }
    }
    out
}

/// Strips leading and trailing white space.
pub fn trimmed(s: &Vec<char>) -> (out: Vec<char>)
    ensures
        out@ == trim(s@),
{
    let mut from: usize = 0;
    assert(s@.skip(0) == s@);
    while from < s.len() && is_white_space(s[from])
        invariant
            from <= s.len(),
            trim_start(s@) == trim_start(s@.skip(from as int)),
        decreases s.len() - from,
    {
        proof {
            assert(s@.skip(from as int).drop_first() == s@.skip(from + 1));
        }
        from += 1;
    }
    assert(trim_start(s@) == s@.skip(from as int));
    let mut to: usize = s.len();
    while to > from && is_white_space(s[to - 1])
        invariant
            from <= to <= s.len(),
            trim(s@) == trim_end(s@.subrange(from as int, to as int)),
        decreases to,
    {
        proof {
            assert(s@.subrange(from as int, to as int).drop_last() == s@.subrange(
                from as int,
                to - 1,
            ));
        }
        to -= 1;
    }
    slice(s, from, to)
}

/// The decimal notation of `n`.
pub fn decimal_of(n: u128) -> (out: Vec<char>)
    ensures
        out@ == decimal(n as nat),
{
    let mut rev: Vec<char> = Vec::new();
    let mut rest: u128 = n;
    // digits are produced from the last one backwards
    loop
        invariant
            decimal(rest as nat) + rev@.reverse() == decimal(n as nat),
        ensures
            rest < 10,
            decimal(rest as nat) + rev@.reverse() == decimal(n as nat),
        decreases rest,
    {
        if rest < 10 {
            break;
        }
        let d = digit_char((rest % 10) as u8);
        proof {
            let ghost old_rev = rev@;
            assert(old_rev.push(d).reverse() == seq![d] + old_rev.reverse());
            assert(decimal(rest as nat) == decimal((rest / 10) as nat).push(d));
            assert(decimal((rest / 10) as nat).push(d) + old_rev.reverse() == decimal(
                (rest / 10) as nat,
            ) + (seq![d] + old_rev.reverse()));
        }
        rev.push(d);
        rest = rest / 10;
    }
    let mut out: Vec<char> = Vec::new();
    out.push(digit_char(rest as u8));
    let mut i: usize = rev.len();
    while i > 0
        invariant
            i <= rev.len(),
            rest < 10,
            out@ == decimal(rest as nat) + rev@.reverse().take(rev.len() - i),
        decreases i,
    {
        i -= 1;
        proof {
            let r = rev@.reverse();
            assert(r.take(rev.len() - i) == r.take(rev.len() - i - 1).push(rev@[i as int]));
        }
        out.push(rev[i]);
    }
    assert(rev@.reverse().take(rev.len() as int) == rev@.reverse());
    out
}

/// The value of a decimal digit, if `c` is one.
pub fn digit_of(c: char) -> (d: Option<u8>)
    ensures
        match d {
            Some(v) => digit_value(c) == Some(v as nat) && v < 10,
            None => digit_value(c) is None,
        },
{
    if c == '0' {
        Some(0)
    } else if c == '1' {
        Some(1)
    } else if c == '2' {
        Some(2)
    } else if c == '3' {
        Some(3)
    } else if c == '4' {
        Some(4)
    } else if c == '5' {
        Some(5)
    } else if c == '6' {
        Some(6)
    } else if c == '7' {
        Some(7)
    } else if c == '8' {
        Some(8)
    } else if c == '9' {
        Some(9)
    } else {
        None
    }
}

/// The character of one decimal digit.
pub fn digit_char(d: u8) -> (c: char)
    requires
        d < 10,
    ensures
        c == digit(d as nat),
{
    if d == 0 {
        '0'
    } else if d == 1 {
        '1'
    } else if d == 2 {
        '2'
    } else if d == 3 {
        '3'
    } else if d == 4 {
        '4'
    } else if d == 5 {
        '5'
    } else if d == 6 {
        '6'
    } else if d == 7 {
        '7'
    } else if d == 8 {
        '8'
    } else {
        '9'
    }
}

} // verus!
