//! Escaping of text for the two flat output formats.

use vstd::prelude::*;

use crate::hash::hex_char;
use crate::text::{chars_of, string_of_chars};

verus! {

/// How one character appears in a raw copy field: the field separator
/// and line breaks become spaces.
pub open spec fn char_csv(c: char) -> char {
    if c == '|' || c == '\n' || c == '\r' {
        ' '
    } else {
        c
    }
}

/// A value escaped for a raw copy field.
pub open spec fn spec_escape_csv(s: Seq<char>) -> Seq<char> {
    s.map(|i: int, c: char| char_csv(c))
}

/// Escapes a value for a raw copy field.
pub fn escape_csv(value: &str) -> (r: String)
    ensures
        r@ == spec_escape_csv(value@),
{
    let cs = chars_of(value);
    let n = cs.len();
    let mut out: Vec<char> = Vec::new();
    let mut i: usize = 0;
    while i < n
        invariant
            0 <= i <= n,
            n == cs@.len(),
            cs@ == value@,
            out@ == spec_escape_csv(value@.subrange(0, i as int)),
        decreases n - i,
    {
        let c = cs[i];
        if c == '|' || c == '\n' || c == '\r' {
            out.push(' ');
        } else {
            out.push(c);
        }
        proof {
            assert(out@ =~= spec_escape_csv(value@.subrange(0, i + 1)));
        }
        i = i + 1;
    }
    proof {
        assert(value@.subrange(0, n as int) =~= value@);
    }
    string_of_chars(out.as_slice())
}

/// The four hex digits of a control character's code.
pub open spec fn hex4(n: nat) -> Seq<char> {
    seq![
        hex_char((n / 4096) % 16),
        hex_char((n / 256) % 16),
        hex_char((n / 16) % 16),
        hex_char(n % 16),
    ]
}

/// How one character appears inside a JSON string literal.
pub open spec fn char_json(c: char) -> Seq<char> {
    if c == '"' {
        seq!['\\', '"']
    } else if c == '\\' {
        seq!['\\', '\\']
    } else if c == '\n' {
        seq!['\\', 'n']
    } else if c == '\r' {
        seq!['\\', 'r']
    } else if c == '\t' {
        seq!['\\', 't']
    } else if (c as u32) < 32 || (127 <= c as u32 && c as u32 <= 159) {
        seq!['\\', 'u'] + hex4(c as u32 as nat)
    } else {
        seq![c]
    }
}

/// A string escaped for a JSON literal.
pub open spec fn spec_escape_json(s: Seq<char>) -> Seq<char>
    decreases s.len(),
{
    if s.len() == 0 {
        Seq::empty()
    } else {
        spec_escape_json(s.drop_last()) + char_json(s.last())
    }
}

/// Escapes a string for a JSON literal: quotes, backslashes and the
/// common control characters get their short escapes, the remaining
/// control characters a four-digit escape.
pub fn escape_json(s: &str) -> (r: String)
    ensures
        r@ == spec_escape_json(s@),
{
    let cs = chars_of(s);
    let n = cs.len();
    let mut out: Vec<char> = Vec::new();
    let mut i: usize = 0;
    while i < n
        invariant
            0 <= i <= n,
            n == cs@.len(),
            cs@ == s@,
            out@ == spec_escape_json(s@.subrange(0, i as int)),
        decreases n - i,
    {
        let c = cs[i];
        let u = c as u32;
        if c == '"' {
            out.push('\\');
            out.push('"');
        } else if c == '\\' {
            out.push('\\');
            out.push('\\');
        } else if c == '\n' {
            out.push('\\');
            out.push('n');
        } else if c == '\r' {
            out.push('\\');
            out.push('r');
        } else if c == '\t' {
            out.push('\\');
            out.push('t');
        } else if u < 32 || (127 <= u && u <= 159) {
            out.push('\\');
            out.push('u');
            out.push(hex_digit_char(((u / 4096) % 16) as u8));
            out.push(hex_digit_char(((u / 256) % 16) as u8));
            out.push(hex_digit_char(((u / 16) % 16) as u8));
            out.push(hex_digit_char((u % 16) as u8));
        } else {
            out.push(c);
        }
        proof {
            let t = s@.subrange(0, i + 1);
            assert(t.drop_last() =~= s@.subrange(0, i as int));
            assert(t.last() == s@[i as int]);
            assert(out@ =~= spec_escape_json(t));
        }
        i = i + 1;
    }
    proof {
        assert(s@.subrange(0, n as int) =~= s@);
    }
    string_of_chars(out.as_slice())
}

/// One hex digit, lower case.
fn hex_digit_char(d: u8) -> (r: char)
    requires
        d < 16,
    ensures
        r == hex_char(d as nat),
{
    if d < 10 {
        ((d + 48) as u8) as char
    } else {
        ((d + 87) as u8) as char
    }
}

} // verus!
