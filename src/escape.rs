use vstd::prelude::*;

verus! {

/// The source text that stands for one character inside a string literal.
pub open spec fn escape_char(c: char) -> Seq<char> {
    if c == '"' {
        seq!['\\', '"']
    } else if c == '\\' {
        seq!['\\', '\\']
    } else if c == '\n' {
        seq!['\\', 'n']
    } else if c == '\r' {
        seq!['\\', 'r']
    } else if c == '\t' {
        seq!['\\', 't']
    } else {
        seq![c]
    }
}

/// The body of the string literal for `s`: each character escaped in turn.
pub open spec fn escaped(s: Seq<char>) -> Seq<char>
    decreases s.len(),
{
    if s.len() == 0 {
        Seq::empty()
    } else {
        escape_char(s[0]) + escaped(s.skip(1))
    }
}

/// The lower-case hexadecimal digit for `d` (below 16).
pub open spec fn hex_digit(d: u8) -> char {
    if d < 10 {
        (('0' as u8) + d) as char
    } else {
        (('a' as u8) + d - 10) as char
    }
}

/// The source text that stands for one byte inside a byte literal.
pub open spec fn escape_byte(b: u8) -> Seq<char> {
    if b == 0x22 {
        seq!['\\', '"']
    } else if b == 0x5c {
        seq!['\\', '\\']
    } else if b == 0x0a {
        seq!['\\', 'n']
    } else if b == 0x0d {
        seq!['\\', 'r']
    } else if b == 0x09 {
        seq!['\\', 't']
    } else if 0x20 <= b <= 0x7e {
        seq![b as char]
    } else {
        seq!['\\', 'x', hex_digit(b / 16), hex_digit(b % 16)]
    }
}

/// The body of the byte literal for `b`: each byte escaped in turn.
pub open spec fn escaped_bytes(b: Seq<u8>) -> Seq<char>
    decreases b.len(),
{
    if b.len() == 0 {
        Seq::empty()
    } else {
        escape_byte(b[0]) + escaped_bytes(b.skip(1))
    }
}

proof fn lemma_escaped_push(s: Seq<char>, c: char)
    ensures
        escaped(s.push(c)) == escaped(s) + escape_char(c),
    decreases s.len(),
{
    if s.len() == 0 {
        assert(s.push(c).skip(1) =~= Seq::<char>::empty());
        assert(escaped(s.push(c).skip(1)) == Seq::<char>::empty());
        assert(escaped(s.push(c)) =~= escape_char(c));
    } else {
        assert(s.push(c).skip(1) =~= s.skip(1).push(c));
        lemma_escaped_push(s.skip(1), c);
        assert(escaped(s.push(c)) =~= escaped(s) + escape_char(c));
    }
}

proof fn lemma_escaped_bytes_push(b: Seq<u8>, x: u8)
    ensures
        escaped_bytes(b.push(x)) == escaped_bytes(b) + escape_byte(x),
    decreases b.len(),
{
    if b.len() == 0 {
        assert(b.push(x).skip(1) =~= Seq::<u8>::empty());
        assert(escaped_bytes(b.push(x).skip(1)) == Seq::<char>::empty());
        assert(escaped_bytes(b.push(x)) =~= escape_byte(x));
    } else {
        assert(b.push(x).skip(1) =~= b.skip(1).push(x));
        lemma_escaped_bytes_push(b.skip(1), x);
        assert(escaped_bytes(b.push(x)) =~= escaped_bytes(b) + escape_byte(x));
    }
}

/// Escape a string for string literals
pub fn escape_string(s: &str) -> (r: String)
    ensures
        r@ == escaped(s@),
{
    let n = s.unicode_len();
    let mut out = String::new();
    let mut i: usize = 0;
    while i < n
        invariant
            n == s@.len(),
            i <= n,
            out@ == escaped(s@.take(i as int)),
        decreases n - i,
    {
        proof {
            reveal_strlit("\\\"");
            reveal_strlit("\\\\");
            reveal_strlit("\\n");
            reveal_strlit("\\r");
            reveal_strlit("\\t");
            lemma_escaped_push(s@.take(i as int), s@[i as int]);
            assert(s@.take(i as int).push(s@[i as int]) =~= s@.take(i + 1));
        }
        let c = s.get_char(i);
        if c == '"' {
            out.append("\\\"");
        } else if c == '\\' {
            out.append("\\\\");
        } else if c == '\n' {
            out.append("\\n");
        } else if c == '\r' {
            out.append("\\r");
        } else if c == '\t' {
            out.append("\\t");
        } else {
            out.append(s.substring_char(i, i + 1));
            assert(s@.subrange(i as int, i + 1) =~= seq![c]);
        }
        i = i + 1;
    }
    assert(s@.take(n as int) =~= s@);
    out
}

/// The character of a printable byte, as text.
fn printable_text(b: u8) -> (r: &'static str)
    requires
        0x20 <= b <= 0x7e,
    ensures
        r@ == seq![b as char],
{
    proof {
        reveal_strlit(" !\"#$%&'()*+,-./0123456789:;<=>?@ABCDEFGHIJKLMNOPQRSTUVWXYZ[\\]^_`abcdefghijklmnopqrstuvwxyz{|}~");
    }
    let k = (b - 0x20) as usize;
    // the printable ASCII characters, from space on, in order
    let printable = " !\"#$%&'()*+,-./0123456789:;<=>?@ABCDEFGHIJKLMNOPQRSTUVWXYZ[\\]^_`abcdefghijklmnopqrstuvwxyz{|}~";
    let r = printable.substring_char(k, k + 1);
    assert(printable@[k as int] == b as char);
    assert(r@ =~= seq![b as char]);
    r
}

/// A hexadecimal digit, as text.
pub(crate) fn hex_text(d: u8) -> (r: &'static str)
    requires
        d < 16,
    ensures
        r@ == seq![hex_digit(d)],
{
    proof {
        reveal_strlit("0123456789abcdef");
    }
    let k = d as usize;
    let digits = "0123456789abcdef";
    let r = digits.substring_char(k, k + 1);
    assert(digits@[k as int] == hex_digit(d));
    assert(r@ =~= seq![hex_digit(d)]);
    r
}

/// Escape bytes for byte literals
pub fn escape_bytes(b: &[u8]) -> (r: String)
    ensures
        r@ == escaped_bytes(b@),
{
    let n = b.len();
    let mut out = String::new();
    let mut i: usize = 0;
    while i < n
        invariant
            n == b@.len(),
            i <= n,
            out@ == escaped_bytes(b@.take(i as int)),
        decreases n - i,
    {
        proof {
            reveal_strlit("\\\"");
            reveal_strlit("\\\\");
            reveal_strlit("\\n");
            reveal_strlit("\\r");
            reveal_strlit("\\t");
            reveal_strlit("\\x");
            lemma_escaped_bytes_push(b@.take(i as int), b@[i as int]);
            assert(b@.take(i as int).push(b@[i as int]) =~= b@.take(i + 1));
        }
        let byte = b[i];
        if byte == 0x22 {
            out.append("\\\"");
        } else if byte == 0x5c {
            out.append("\\\\");
        } else if byte == 0x0a {
            out.append("\\n");
        } else if byte == 0x0d {
            out.append("\\r");
        } else if byte == 0x09 {
            out.append("\\t");
        } else if 0x20 <= byte && byte <= 0x7e {
            out.append(printable_text(byte));
        } else {
            out.append("\\x");
            out.append(hex_text(byte / 16));
            out.append(hex_text(byte % 16));
            assert(out@ =~= escaped_bytes(b@.take(i as int)) + escape_byte(byte));
        }
        i = i + 1;
    }
    assert(b@.take(n as int) =~= b@);
    out
}

/// The character that a backslash followed by `c` stands for, where that is
/// an escape.
pub open spec fn unescape_char(c: char) -> Option<char> {
    if c == 'n' {
        Some('\n')
    } else if c == 'r' {
        Some('\r')
    } else if c == 't' {
        Some('\t')
    } else if c == '"' {
        Some('"')
    } else if c == '\'' {
        Some('\'')
    } else if c == '\\' {
        Some('\\')
    } else {
        None
    }
}

/// The value that the body `t` of a double-quoted string literal reads back
/// as; `None` where the body is not well formed: a bare quote or line break,
/// a backslash at its end, or a backslash before a character that names no
/// escape.
pub open spec fn unescaped(t: Seq<char>) -> Option<Seq<char>>
    decreases t.len(),
{
    if t.len() == 0 {
        Some(Seq::empty())
    } else if t[0] == '"' || t[0] == '\n' || t[0] == '\r' {
        None
    } else if t[0] == '\\' {
        if t.len() < 2 {
            None
        } else {
            match (unescape_char(t[1]), unescaped(t.skip(2))) {
                (Some(c), Some(rest)) => Some(seq![c] + rest),
                _ => None,
            }
        }
    } else {
        match unescaped(t.skip(1)) {
            Some(rest) => Some(seq![t[0]] + rest),
            None => None,
        }
    }
}

/// The value of a hexadecimal digit, either case.
pub open spec fn hex_value(c: char) -> Option<u8> {
    if '0' <= c <= '9' {
        Some((c as u8 - '0' as u8) as u8)
    } else if 'a' <= c <= 'f' {
        Some((c as u8 - 'a' as u8 + 10) as u8)
    } else if 'A' <= c <= 'F' {
        Some((c as u8 - 'A' as u8 + 10) as u8)
    } else {
        None
    }
}

/// The bytes that the body `t` of a byte literal reads back as; `None` where
/// the body is not well formed: a bare quote, a character outside printable
/// ASCII, or a backslash that starts no escape.
pub open spec fn unescaped_bytes(t: Seq<char>) -> Option<Seq<u8>>
    decreases t.len(),
{
    if t.len() == 0 {
        Some(Seq::empty())
    } else if t[0] == '\\' {
        if t.len() < 2 {
            None
        } else if t[1] == 'x' {
            if t.len() < 4 {
                None
            } else {
                match (hex_value(t[2]), hex_value(t[3]), unescaped_bytes(t.skip(4))) {
                    (Some(hi), Some(lo), Some(rest)) => Some(seq![(hi * 16 + lo) as u8] + rest),
                    _ => None,
                }
            }
        } else {
            match (unescape_char(t[1]), unescaped_bytes(t.skip(2))) {
                (Some(c), Some(rest)) => Some(seq![c as u8] + rest),
                _ => None,
            }
        }
    } else if ' ' <= t[0] <= '~' && t[0] != '"' {
        match unescaped_bytes(t.skip(1)) {
            Some(rest) => Some(seq![t[0] as u8] + rest),
            None => None,
        }
    } else {
        None
    }
}

/// Reading back the body of the string literal for `s` gives `s` again.
pub proof fn lemma_string_round_trip(s: Seq<char>)
    ensures
        unescaped(escaped(s)) == Some(s),
    decreases s.len(),
{
    if s.len() > 0 {
        let e = escape_char(s[0]);
        let rest = escaped(s.skip(1));
        lemma_string_round_trip(s.skip(1));
        assert((e + rest).skip(e.len() as int) =~= rest);
        assert(escaped(s) == e + rest);
        assert(seq![s[0]] + s.skip(1) =~= s);
    }
}

/// Reading back the body of the byte literal for `b` gives `b` again.
pub proof fn lemma_bytes_round_trip(b: Seq<u8>)
    ensures
        unescaped_bytes(escaped_bytes(b)) == Some(b),
    decreases b.len(),
{
    if b.len() > 0 {
        let x = b[0];
        let e = escape_byte(x);
        let rest = escaped_bytes(b.skip(1));
        lemma_bytes_round_trip(b.skip(1));
        assert((e + rest).skip(e.len() as int) =~= rest);
        assert(escaped_bytes(b) == e + rest);
        assert(seq![x] + b.skip(1) =~= b);
        if !(x == 0x22 || x == 0x5c || x == 0x0a || x == 0x0d || x == 0x09 || (0x20 <= x <= 0x7e)) {
            assert(hex_value(hex_digit(x / 16)) == Some(x / 16));
            assert(hex_value(hex_digit(x % 16)) == Some(x % 16));
            assert(((x / 16) * 16 + x % 16) as u8 == x);
        }
    }
}

} // verus!
