//! Quoted strings: the one textual form in which a record's string fields are
//! written, both in the stored encoding and in the payload that is signed.
//!
//! A string is written between double quotes. Inside them a double quote, a
//! backslash and every character below U+0020 are escaped; every other
//! character stands for itself. Each string has exactly one such form, and
//! the reader accepts no other.
use vstd::prelude::*;

verus! {

/// `String::push` appends one character.
pub assume_specification[ String::push ](s: &mut String, c: char)
    ensures
        final(s)@ == old(s)@.push(c),
;

/// The characters of a string slice, as a vector that can be indexed.
pub fn chars_of(s: &str) -> (v: Vec<char>)
    ensures
        v@ == s@,
{
    let mut v: Vec<char> = Vec::new();
    for c in it: s.chars()
        invariant
            it.seq() == s@,
            v@ == it.seq().take(it.index() as int),
    {
        v.push(c);
    }
    v
}

/// The lower-case hexadecimal digit for a value below sixteen.
pub open spec fn hex_digit(n: int) -> char
    recommends
        0 <= n < 16,
{
    if n < 10 {
        ((48 + n) as u8) as char
    } else {
        ((87 + n) as u8) as char
    }
}

/// The value of a lower-case hexadecimal digit.
pub open spec fn hex_value(c: char) -> Option<int> {
    if 48 <= c as u32 <= 57 {
        Some(c as u32 - 48)
    } else if 97 <= c as u32 <= 102 {
        Some(c as u32 - 87)
    } else {
        None
    }
}

/// Whether a character has to be written as an escape.
pub open spec fn is_control(c: char) -> bool {
    (c as u32) < 0x20
}

/// The escaped form of one character.
#[verifier::opaque]
pub open spec fn escape_char(c: char) -> Seq<char> {
    if c == '"' {
        seq!['\\', '"']
    } else if c == '\\' {
        seq!['\\', '\\']
    } else if c == '\u{8}' {
        seq!['\\', 'b']
    } else if c == '\u{c}' {
        seq!['\\', 'f']
    } else if c == '\n' {
        seq!['\\', 'n']
    } else if c == '\r' {
        seq!['\\', 'r']
    } else if c == '\t' {
        seq!['\\', 't']
    } else if is_control(c) {
        seq!['\\', 'u', '0', '0', hex_digit((c as u32) as int / 16), hex_digit((c as u32) as int % 16)]
    } else {
        seq![c]
    }
}

/// The escaped form of a string: the escaped forms of its characters, in order.
pub open spec fn escape(s: Seq<char>) -> Seq<char>
    decreases s.len(),
{
    if s.len() == 0 {
        Seq::empty()
    } else {
        escape_char(s[0]) + escape(s.skip(1))
    }
}

/// A string in quotes.
pub open spec fn quoted(s: Seq<char>) -> Seq<char> {
    seq!['"'] + escape(s) + seq!['"']
}

/// Reads one character, escaped or plain, from the front of `t`: the
/// character and the number of characters of `t` that it took. Only the
/// escape that `escape_char` writes for a character is accepted for it.
#[verifier::opaque]
pub open spec fn unescape_head(t: Seq<char>) -> Option<(char, int)> {
    if t.len() == 0 {
        None
    } else if t[0] == '\\' {
        if t.len() < 2 {
            None
        } else if t[1] == '"' {
            Some(('"', 2))
        } else if t[1] == '\\' {
            Some(('\\', 2))
        } else if t[1] == 'b' {
            Some(('\u{8}', 2))
        } else if t[1] == 'f' {
            Some(('\u{c}', 2))
        } else if t[1] == 'n' {
            Some(('\n', 2))
        } else if t[1] == 'r' {
            Some(('\r', 2))
        } else if t[1] == 't' {
            Some(('\t', 2))
        } else if t[1] == 'u' && t.len() >= 6 && t[2] == '0' && t[3] == '0' && (t[4] == '0' || t[4]
            == '1') && hex_value(t[5]) is Some {
            let v = 16 * hex_value(t[4])->0 + hex_value(t[5])->0;
            if v == 8 || v == 9 || v == 10 || v == 12 || v == 13 {
                None
            } else {
                Some(((v as u8) as char, 6))
            }
        } else {
            None
        }
    } else if t[0] == '"' || is_control(t[0]) {
        None
    } else {
        Some((t[0], 1))
    }
}

/// Reads escaped characters up to the closing quote: the string they stand
/// for, and what follows the quote.
pub open spec fn parse_body(t: Seq<char>) -> Option<(Seq<char>, Seq<char>)>
    decreases t.len(),
{
    if t.len() == 0 {
        None
    } else if t[0] == '"' {
        Some((Seq::empty(), t.skip(1)))
    } else {
        match unescape_head(t) {
            Some((c, n)) => if 0 < n <= t.len() {
                match parse_body(t.skip(n)) {
                    Some((s, rest)) => Some((seq![c] + s, rest)),
                    None => None,
                }
            } else {
                None
            },
            None => None,
        }
    }
}

/// Reads a quoted string from the front of `t`: the string, and what follows.
pub open spec fn parse_quoted(t: Seq<char>) -> Option<(Seq<char>, Seq<char>)> {
    if t.len() > 0 && t[0] == '"' {
        parse_body(t.skip(1))
    } else {
        None
    }
}

pub proof fn lemma_hex_digit(n: int)
    requires
        0 <= n < 16,
    ensures
        hex_value(hex_digit(n)) == Some(n),
        n == 0 ==> hex_digit(n) == '0',
        n == 1 ==> hex_digit(n) == '1',
{
}

pub proof fn lemma_hex_value(c: char)
    requires
        hex_value(c) is Some,
    ensures
        0 <= hex_value(c)->0 < 16,
        hex_digit(hex_value(c)->0) == c,
{
}

/// What `unescape_head` reads from an escaped character is that character.
pub proof fn lemma_unescape_escape_char(c: char, rest: Seq<char>)
    ensures
        unescape_head(escape_char(c) + rest) == Some((c, escape_char(c).len() as int)),
        (escape_char(c) + rest)[0] != '"',
{
    reveal(escape_char);
    reveal(unescape_head);
    let t = escape_char(c) + rest;
    if is_control(c) && c != '\u{8}' && c != '\u{c}' && c != '\n' && c != '\r' && c != '\t' {
        let v = (c as u32) as int;
        lemma_hex_digit(v / 16);
        lemma_hex_digit(v % 16);
        assert(t[4] == hex_digit(v / 16));
        assert(t[5] == hex_digit(v % 16));
        assert(16 * (v / 16) + v % 16 == v);
        assert(((v as u8) as char) == c);
    }
}

/// `unescape_head` accepts nothing but what `escape_char` writes.
pub proof fn lemma_escape_unescape_head(t: Seq<char>)
    requires
        unescape_head(t) is Some,
    ensures
        0 < unescape_head(t).unwrap().1 <= t.len(),
        t.take(unescape_head(t).unwrap().1) == escape_char(unescape_head(t).unwrap().0),
{
    reveal(escape_char);
    reveal(unescape_head);
    let (c, n) = unescape_head(t)->0;
    if n == 6 {
        lemma_hex_value(t[4]);
        lemma_hex_value(t[5]);
    }
    assert(t.take(n) =~= escape_char(c));
}

/// Escaping goes through concatenation.
pub proof fn lemma_escape_concat(a: Seq<char>, b: Seq<char>)
    ensures
        escape(a + b) == escape(a) + escape(b),
    decreases a.len(),
{
    if a.len() == 0 {
        assert(a + b =~= b);
        assert(escape(a) + escape(b) =~= escape(b));
    } else {
        assert((a + b).skip(1) =~= a.skip(1) + b);
        lemma_escape_concat(a.skip(1), b);
        assert(escape_char(a[0]) + (escape(a.skip(1)) + escape(b)) =~= (escape_char(a[0]) + escape(
            a.skip(1),
        )) + escape(b));
    }
}

/// Escaping one more character appends its escaped form.
pub proof fn lemma_escape_push(s: Seq<char>, c: char)
    ensures
        escape(s.push(c)) == escape(s) + escape_char(c),
{
    lemma_escape_concat(s, seq![c]);
    assert(s.push(c) =~= s + seq![c]);
    assert(seq![c].skip(1) =~= Seq::<char>::empty());
    assert(escape(seq![c].skip(1)) =~= Seq::<char>::empty());
    assert(escape(seq![c]) =~= escape_char(c));
}

/// Reading back an escaped string that is followed by a quote gives the
/// string, and leaves what follows the quote.
pub proof fn lemma_parse_body_escape(s: Seq<char>, rest: Seq<char>)
    ensures
        parse_body(escape(s) + seq!['"'] + rest) == Some((s, rest)),
    decreases s.len(),
{
    let t = escape(s) + seq!['"'] + rest;
    if s.len() == 0 {
        assert(t.skip(1) =~= rest);
    } else {
        let c = s[0];
        let tail = escape(s.skip(1)) + seq!['"'] + rest;
        assert(t =~= escape_char(c) + tail);
        lemma_unescape_escape_char(c, tail);
        let n = escape_char(c).len() as int;
        assert(t.skip(n) =~= tail);
        lemma_parse_body_escape(s.skip(1), rest);
        assert(seq![c] + s.skip(1) =~= s);
    }
}

/// Whatever `parse_body` accepts is an escaped string followed by a quote.
pub proof fn lemma_escape_parse_body(t: Seq<char>)
    requires
        parse_body(t) is Some,
    ensures
        t == escape(parse_body(t).unwrap().0) + seq!['"'] + parse_body(t).unwrap().1,
        parse_body(t).unwrap().1.len() < t.len(),
    decreases t.len(),
{
    let (s, rest) = parse_body(t)->0;
    if t[0] == '"' {
        assert(t =~= escape(s) + seq!['"'] + rest);
    } else {
        let (c, n) = unescape_head(t)->0;
        lemma_escape_unescape_head(t);
        lemma_escape_parse_body(t.skip(n));
        let (s1, rest1) = parse_body(t.skip(n))->0;
        assert(s == seq![c] + s1);
        assert(s.skip(1) =~= s1);
        assert(escape(s) == escape_char(c) + escape(s1));
        assert(t =~= t.take(n) + t.skip(n));
        assert(t =~= escape(s) + seq!['"'] + rest);
    }
}

/// Reading back a quoted string gives the string, and leaves what follows.
pub proof fn lemma_parse_quoted(s: Seq<char>, rest: Seq<char>)
    ensures
        parse_quoted(quoted(s) + rest) == Some((s, rest)),
{
    let t = quoted(s) + rest;
    assert(t.skip(1) =~= escape(s) + seq!['"'] + rest);
    lemma_parse_body_escape(s, rest);
}

/// Whatever `parse_quoted` accepts is a quoted string, in the one form that
/// `quoted` gives it.
pub proof fn lemma_parse_quoted_canonical(t: Seq<char>)
    requires
        parse_quoted(t) is Some,
    ensures
        t == quoted(parse_quoted(t).unwrap().0) + parse_quoted(t).unwrap().1,
        parse_quoted(t).unwrap().1.len() < t.len(),
{
    lemma_escape_parse_body(t.skip(1));
    let (s, rest) = parse_quoted(t)->0;
    assert(t =~= seq!['"'] + t.skip(1));
    assert(t =~= quoted(s) + rest);
}

/// The digit for `n`, computed.
pub fn hex_digit_of(n: u8) -> (c: char)
    requires
        n < 16,
    ensures
        c == hex_digit(n as int),
{
    if n < 10 {
        (48 + n) as char
    } else {
        (87 + n) as char
    }
}

/// Appends the escaped form of `c` to `out`.
pub fn push_escaped(out: &mut String, c: char)
    ensures
        final(out)@ == old(out)@ + escape_char(c),
{
    proof {
        reveal(escape_char);
    }
    if c == '"' {
        out.push('\\');
        out.push('"');
    } else if c == '\\' {
        out.push('\\');
        out.push('\\');
    } else if c == '\u{8}' {
        out.push('\\');
        out.push('b');
    } else if c == '\u{c}' {
        out.push('\\');
        out.push('f');
    } else if c == '\n' {
        out.push('\\');
        out.push('n');
    } else if c == '\r' {
        out.push('\\');
        out.push('r');
    } else if c == '\t' {
        out.push('\\');
        out.push('t');
    } else if (c as u32) < 0x20 {
        let v: u8 = c as u8;
        out.push('\\');
        out.push('u');
        out.push('0');
        out.push('0');
        out.push(hex_digit_of(v / 16));
        out.push(hex_digit_of(v % 16));
    } else {
        out.push(c);
    }
    assert(out@ =~= old(out)@ + escape_char(c));
}

/// Appends `s` in quotes to `out`.
pub fn push_quoted(out: &mut String, s: &str)
    ensures
        final(out)@ == old(out)@ + quoted(s@),
{
    let chars = chars_of(s);
    out.push('"');
    let mut i: usize = 0;
    while i < chars.len()
        invariant
            i <= chars.len(),
            chars@ == s@,
            out@ == old(out)@ + seq!['"'] + escape(s@.take(i as int)),
        decreases chars.len() - i,
    {
        let ghost before = out@;
        push_escaped(out, chars[i]);
        proof {
            lemma_escape_push(s@.take(i as int), s@[i as int]);
            assert(s@.take(i + 1) =~= s@.take(i as int).push(s@[i as int]));
            assert(out@ =~= old(out)@ + seq!['"'] + escape(s@.take(i + 1)));
        }
        i += 1;
    }
    out.push('"');
    proof {
        assert(s@.take(i as int) =~= s@);
        assert(out@ =~= old(out)@ + quoted(s@));
    }
}

/// Reads one character, escaped or plain, at position `i` of `t`.
pub fn read_escaped(t: &Vec<char>, i: usize) -> (r: Option<(char, usize)>)
    requires
        i < t.len(),
    ensures
        match r {
            Some((c, n)) => unescape_head(t@.skip(i as int)) == Some((c, n as int)) && 0 < n && i
                + n <= t.len(),
            None => unescape_head(t@.skip(i as int)) is None,
        },
{
    proof {
        reveal(unescape_head);
    }
    let ghost u = t@.skip(i as int);
    let len = t.len();
    let c = t[i];
    assert(u[0] == c);
    if c == '\\' {
        if len - i < 2 {
            return None;
        }
        let d = t[i + 1];
        assert(u[1] == d);
        if d == '"' {
            Some(('"', 2))
        } else if d == '\\' {
            Some(('\\', 2))
        } else if d == 'b' {
            Some(('\u{8}', 2))
        } else if d == 'f' {
            Some(('\u{c}', 2))
        } else if d == 'n' {
            Some(('\n', 2))
        } else if d == 'r' {
            Some(('\r', 2))
        } else if d == 't' {
            Some(('\t', 2))
        } else if d == 'u' && len - i >= 6 {
            let h = t[i + 4];
            let l = t[i + 5];
            assert(u[2] == t@[i + 2] && u[3] == t@[i + 3] && u[4] == h && u[5] == l);
            if t[i + 2] != '0' || t[i + 3] != '0' || (h != '0' && h != '1') {
                return None;
            }
            let hi: u8 = if h == '0' {
                0
            } else {
                1
            };
            let lc: u32 = l as u32;
            let lo: u8 = if 48 <= lc && lc <= 57 {
                (lc - 48) as u8
            } else if 97 <= lc && lc <= 102 {
                (lc - 87) as u8
            } else {
                return None;
            };
            let v: u8 = 16 * hi + lo;
            if v == 8 || v == 9 || v == 10 || v == 12 || v == 13 {
                None
            } else {
                Some((v as char, 6))
            }
        } else {
            None
        }
    } else if c == '"' || (c as u32) < 0x20 {
        None
    } else {
        Some((c, 1))
    }
}

/// Reads a quoted string that starts at position `start` of `t`: the string,
/// and the position after its closing quote.
pub fn read_quoted(t: &Vec<char>, start: usize) -> (r: Option<(String, usize)>)
    requires
        start <= t.len(),
    ensures
        match r {
            Some((s, next)) => start < next <= t.len() && parse_quoted(t@.skip(start as int))
                == Some((s@, t@.skip(next as int))),
            None => parse_quoted(t@.skip(start as int)) is None,
        },
{
    if start >= t.len() || t[start] != '"' {
        return None;
    }
    let mut out = String::new();
    let mut i: usize = start + 1;
    assert(t@.skip(start as int).skip(1) =~= t@.skip(i as int));
    loop
        invariant
            start < i <= t.len(),
            parse_quoted(t@.skip(start as int)) == parse_body(t@.skip(start + 1)),
            parse_body(t@.skip(start + 1)) == match parse_body(t@.skip(i as int)) {
                Some((s, rest)) => Some((out@ + s, rest)),
                None => None,
            },
        decreases t.len() - i,
    {
        if i >= t.len() {
            return None;
        }
        let ghost u = t@.skip(i as int);
        if t[i] == '"' {
            proof {
                assert(u[0] == '"');
                assert(u.skip(1) =~= t@.skip(i + 1));
                assert(out@ + Seq::<char>::empty() =~= out@);
            }
            return Some((out, i + 1));
        }
        match read_escaped(t, i) {
            None => {
                return None;
            },
            Some((c, n)) => {
                proof {
                    assert(u.skip(n as int) =~= t@.skip(i + n));
                    match parse_body(t@.skip(i + n)) {
                        Some((s, rest)) => {
                            assert(out@.push(c) + s =~= out@ + (seq![c] + s));
                        },
                        None => {},
                    }
                }
                out.push(c);
                i += n;
            },
        }
    }
}

} // verus!
