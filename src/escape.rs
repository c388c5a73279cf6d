use vstd::prelude::*;
use vstd::string::*;

verus! {

/// The lowercase hexadecimal digit for `d < 16`.
pub open spec fn hex_digit(d: u32) -> char {
    if d < 10 {
        ((d + 48) as u8) as char
    } else {
        ((d + 87) as u8) as char
    }
}

/// What one character of text becomes inside a JSON string literal.
pub open spec fn escape_char(c: char) -> Seq<char> {
    if c == '\u{8}' {
        seq!['\\', 'b']
    } else if c == '\t' {
        seq!['\\', 't']
    } else if c == '\n' {
        seq!['\\', 'n']
    } else if c == '\u{c}' {
        seq!['\\', 'f']
    } else if c == '\r' {
        seq!['\\', 'r']
    } else if c == '"' {
        seq!['\\', '"']
    } else if c == '\\' {
        seq!['\\', '\\']
    } else if (c as u32) < 0x20 {
        seq!['\\', 'u', '0', '0', hex_digit((c as u32) / 16), hex_digit((c as u32) % 16)]
    } else {
        seq![c]
    }
}

/// The escaped text of `s`, without the surrounding quotes.
pub open spec fn escape_body(s: Seq<char>) -> Seq<char>
    decreases s.len(),
{
    if s.len() == 0 {
        Seq::empty()
    } else {
        escape_body(s.drop_last()) + escape_char(s.last())
    }
}

/// The double-quoted JSON string literal of `s`.
pub open spec fn escaped(s: Seq<char>) -> Seq<char> {
    seq!['"'] + escape_body(s) + seq!['"']
}

/// Relies on `String::push`: appends one character at the end.
#[verifier::external_body]
pub(crate) fn push_char(buf: &mut String, c: char)
    ensures
        final(buf)@ == old(buf)@.push(c),
{
    buf.push(c)
}

fn hex(d: u32) -> (r: char)
    requires
        d < 16,
    ensures
        r == hex_digit(d),
{
    if d < 10 {
        ((d + 48) as u8) as char
    } else {
        ((d + 87) as u8) as char
    }
}

fn push_escaped_char(buf: &mut String, c: char)
    ensures
        final(buf)@ == old(buf)@ + escape_char(c),
{
    let two: Option<char> = if c == '\u{8}' {
        Some('b')
    } else if c == '\t' {
        Some('t')
    } else if c == '\n' {
        Some('n')
    } else if c == '\u{c}' {
        Some('f')
    } else if c == '\r' {
        Some('r')
    } else if c == '"' {
        Some('"')
    } else if c == '\\' {
        Some('\\')
    } else {
        None
    };
    match two {
        Some(e) => {
            push_char(buf, '\\');
            push_char(buf, e);
        },
        None => {
            let code = c as u32;
            if code < 0x20 {
                push_char(buf, '\\');
                push_char(buf, 'u');
                push_char(buf, '0');
                push_char(buf, '0');
                push_char(buf, hex(code / 16));
                push_char(buf, hex(code % 16));
            } else {
                push_char(buf, c);
            }
        },
    }
    assert(final(buf)@ =~= old(buf)@ + escape_char(c));
}

/// Appends the double-quoted JSON string literal of `value` to `buf`.
pub fn escape_string_json_buf(value: &str, buf: &mut String)
    ensures
        final(buf)@ == old(buf)@ + escaped(value@),
{
    let n = value.unicode_len();
    push_char(buf, '"');
    let ghost start = old(buf)@;
    let mut i: usize = 0;
    while i < n
        invariant
            n == value@.len(),
            i <= n,
            buf@ == start + seq!['"'] + escape_body(value@.subrange(0, i as int)),
        decreases n - i,
    {
        let c = value.get_char(i);
        push_escaped_char(buf, c);
        proof {
            let next = value@.subrange(0, i + 1);
            assert(next.drop_last() =~= value@.subrange(0, i as int));
            assert(next.last() == c);
        }
        i = i + 1;
    }
    assert(value@.subrange(0, n as int) =~= value@);
    push_char(buf, '"');
    assert(buf@ =~= start + escaped(value@));
}

/// The double-quoted JSON string literal of `s`.
pub fn escape_string_json(s: &str) -> (r: String)
    ensures
        r@ == escaped(s@),
{
    let mut buf = String::new();
    escape_string_json_buf(s, &mut buf);
    assert(buf@ =~= escaped(s@));
    buf
}

} // verus!
