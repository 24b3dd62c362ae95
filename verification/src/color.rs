//! The `#RRGGBB` text form of a color's 8-bit channels.
//!
//! Colors are written as `#` and two upper-case hex digits per channel.
//! They are read from `#RRGGBB`, `RRGGBB`, `#RGB` or `RGB`, after trimming
//! white space and any leading `#`. The conversion between channel bytes and
//! the renderer's floating-point channels is the caller's.

use vstd::prelude::*;

use crate::text::{chars_of, push_char};
use crate::panel::skip_ws;
use crate::theme::{rskip_ws, trim, trimmed};

verus! {

/// The value of a hex digit (either case).
pub open spec fn hex_value(c: char) -> Option<u8> {
    if '0' <= c <= '9' {
        Some((c as int - '0' as int) as u8)
    } else if 'a' <= c <= 'f' {
        Some((c as int - 'a' as int + 10) as u8)
    } else if 'A' <= c <= 'F' {
        Some((c as int - 'A' as int + 10) as u8)
    } else {
        None
    }
}

fn hex_digit_value(c: char) -> (r: Option<u8>)
    ensures
        r == hex_value(c),
{
    if '0' <= c && c <= '9' {
        Some(((c as u32) - ('0' as u32)) as u8)
    } else if 'a' <= c && c <= 'f' {
        Some(((c as u32) - ('a' as u32) + 10) as u8)
    } else if 'A' <= c && c <= 'F' {
        Some(((c as u32) - ('A' as u32) + 10) as u8)
    } else {
        None
    }
}

/// `s` without its leading `#`s.
pub open spec fn strip_hashes(s: Seq<char>) -> Seq<char>
    decreases s.len(),
{
    if s.len() > 0 && s[0] == '#' {
        strip_hashes(s.drop_first())
    } else {
        s
    }
}

/// The text that holds the digits: trimmed, leading `#`s removed.
pub open spec fn hex_body(s: Seq<char>) -> Seq<char> {
    strip_hashes(trimmed(s))
}

/// A two-digit channel: two hex digits, high digit first.
pub open spec fn pair_value(a: char, b: char) -> Option<u8> {
    match (hex_value(a), hex_value(b)) {
        (Some(x), Some(y)) => Some((x * 16 + y) as u8),
        _ => None,
    }
}

/// The channels a color text denotes: its body (see `hex_body`) is exactly
/// six hex digits, two per channel, or exactly three, one per channel
/// repeated; any other text denotes none.
pub open spec fn hex_rgb(s: Seq<char>) -> Option<(u8, u8, u8)> {
    let t = hex_body(s);
    if t.len() == 6 {
        match (pair_value(t[0], t[1]), pair_value(t[2], t[3]), pair_value(t[4], t[5])) {
            (Some(r), Some(g), Some(b)) => Some((r, g, b)),
            _ => None,
        }
    } else if t.len() == 3 {
        match (hex_value(t[0]), hex_value(t[1]), hex_value(t[2])) {
            (Some(r), Some(g), Some(b)) => Some(((r * 17) as u8, (g * 17) as u8, (b * 17) as u8)),
            _ => None,
        }
    } else {
        None
    }
}

fn pair(a: char, b: char) -> (r: Option<u8>)
    ensures
        r == pair_value(a, b),
{
    match (hex_digit_value(a), hex_digit_value(b)) {
        (Some(x), Some(y)) => Some(x * 16 + y),
        _ => None,
    }
}

/// The body of a color text (see `hex_body`), as characters.
fn body_chars(s: &str) -> (r: Vec<char>)
    ensures
        r@ == hex_body(s@),
{
    let t = trim(s);
    let cs = chars_of(t.as_str());
    let n = cs.len();
    let mut i: usize = 0;
    proof {
        assert(cs@.subrange(0, n as int) =~= cs@);
    }
    while i < n && cs[i] == '#'
        invariant
            n == cs@.len(),
            i <= n,
            strip_hashes(cs@) == strip_hashes(cs@.subrange(i as int, n as int)),
        decreases n - i,
    {
        proof {
            let u = cs@.subrange(i as int, n as int);
            assert(u.drop_first() =~= cs@.subrange(i + 1, n as int));
        }
        i = i + 1;
    }
    proof {
        let body = cs@.subrange(i as int, n as int);
        if body.len() > 0 {
            assert(body[0] == cs@[i as int]);
        }
    }
    let mut out: Vec<char> = Vec::new();
    let mut j = i;
    while j < n
        invariant
            i <= j <= n,
            n == cs@.len(),
            out@ == cs@.subrange(i as int, j as int),
        decreases n - j,
    {
        out.push(cs[j]);
        proof {
            assert(cs@.subrange(i as int, j + 1) =~= cs@.subrange(i as int, j as int).push(cs@[j as int]));
        }
        j = j + 1;
    }
    out
}

/// Read the channels of a color text (see `hex_rgb`); `None` on any
/// malformed text.
pub fn hex_to_rgb8(s: &str) -> (r: Option<(u8, u8, u8)>)
    ensures
        r == hex_rgb(s@),
{
    let t = body_chars(s);
    let len = t.len();
    if len == 6 {
        match (pair(t[0], t[1]), pair(t[2], t[3]), pair(t[4], t[5])) {
            (Some(r), Some(g), Some(b)) => Some((r, g, b)),
            _ => None,
        }
    } else if len == 3 {
        match (hex_digit_value(t[0]), hex_digit_value(t[1]), hex_digit_value(t[2])) {
            (Some(r), Some(g), Some(b)) => Some((r * 17, g * 17, b * 17)),
            _ => None,
        }
    } else {
        None
    }
}

/// The upper-case hex digit of `v` (for `v < 16`).
pub open spec fn hex_char(v: u8) -> char {
    if v < 10 {
        (('0' as int) + v) as char
    } else {
        (('A' as int) + v - 10) as char
    }
}

/// `#RRGGBB` with upper-case digits.
pub open spec fn hex_text(r: u8, g: u8, b: u8) -> Seq<char> {
    seq![
        '#',
        hex_char(r / 16),
        hex_char(r % 16),
        hex_char(g / 16),
        hex_char(g % 16),
        hex_char(b / 16),
        hex_char(b % 16),
    ]
}

fn hex_digit(v: u8) -> (c: char)
    requires
        v < 16,
    ensures
        c == hex_char(v),
{
    if v < 10 {
        (('0' as u8) + v) as char
    } else {
        (('A' as u8) + v - 10) as char
    }
}

/// Write channels as `#RRGGBB`.
pub fn rgb8_to_hex(r: u8, g: u8, b: u8) -> (s: String)
    ensures
        s@ == hex_text(r, g, b),
{
    let mut s = String::new();
    push_char(&mut s, '#');
    push_char(&mut s, hex_digit(r / 16));
    push_char(&mut s, hex_digit(r % 16));
    push_char(&mut s, hex_digit(g / 16));
    push_char(&mut s, hex_digit(g % 16));
    push_char(&mut s, hex_digit(b / 16));
    push_char(&mut s, hex_digit(b % 16));
    proof {
        assert(s@ =~= hex_text(r, g, b));
    }
    s
}

/// A written color reads back as the same channels.
pub proof fn lemma_hex_roundtrip(r: u8, g: u8, b: u8)
    ensures
        hex_rgb(hex_text(r, g, b)) == Some((r, g, b)),
{
    let t = hex_text(r, g, b);
    assert(skip_ws(t) == t);
    assert(rskip_ws(t) == t);
    assert(trimmed(t) == t);
    let body = t.drop_first();
    assert(strip_hashes(t) == strip_hashes(body));
    assert(body[0] != '#');
    assert(strip_hashes(body) == body);
    assert(hex_body(t) == body);
    assert(pair_value(body[0], body[1]) == Some(r));
    assert(pair_value(body[2], body[3]) == Some(g));
    assert(pair_value(body[4], body[5]) == Some(b));
}

} // verus!
