//! Reading program input: one UTF-8 character, or one decimal integer, from a
//! byte buffer at a read position.

use crate::text::{char_is_whitespace, push_char, str_from_utf8, white_space};
use crate::value::{parse_decimal_spec, Int};
use vstd::prelude::*;
use vstd::utf8::{decode_utf8, valid_utf8};

verus! {

/// U+FFFD, which stands for bytes that cannot start or finish a character.
pub const REPLACEMENT: char = '\u{FFFD}';

/// How many bytes a UTF-8 sequence with leading byte `b` has; `0` for a
/// continuation byte, which cannot lead one.
pub open spec fn utf8_width(b: u8) -> int {
    if b < 0x80 {
        1
    } else if b < 0xC0 {
        0
    } else if b < 0xE0 {
        2
    } else if b < 0xF0 {
        3
    } else {
        4
    }
}

/// Reads one character at `pos`: the character (`None` at the end of the
/// input, or when the bytes are no valid UTF-8) and the next read position.
/// A continuation byte reads as `REPLACEMENT`, one byte long; a sequence cut
/// off by the end of the input reads as `REPLACEMENT` and uses up the input.
pub open spec fn read_char_spec(input: Seq<u8>, pos: int) -> (Option<char>, int) {
    if pos >= input.len() {
        (None, pos)
    } else {
        let w = utf8_width(input[pos]);
        if w == 0 {
            (Some(REPLACEMENT), pos + 1)
        } else if pos + w > input.len() {
            (Some(REPLACEMENT), input.len() as int)
        } else {
            let bytes = input.subrange(pos, pos + w);
            if valid_utf8(bytes) {
                (Some(decode_utf8(bytes)[0]), pos + w)
            } else {
                (None, pos + w)
            }
        }
    }
}

/// A read that gives a character moves forward.
pub proof fn lemma_read_char_advances(input: Seq<u8>, pos: int)
    requires
        0 <= pos <= input.len(),
    ensures
        pos <= read_char_spec(input, pos).1 <= input.len(),
        read_char_spec(input, pos).0 is Some ==> pos < read_char_spec(input, pos).1,
{
}

/// Skips white space: the first other character (or `None` where reading
/// stops) and the position after it.
pub open spec fn skip_white_space(input: Seq<u8>, pos: int) -> (Option<char>, int)
    decreases input.len() - pos,
{
    let (r, p) = read_char_spec(input, pos);
    match r {
        None => (None, p),
        Some(c) => if white_space(c) && pos < p {
            skip_white_space(input, p)
        } else if white_space(c) {
            (None, p)
        } else {
            (Some(c), p)
        },
    }
}

/// Reads characters onto `acc` up to (and using up) the next white space or
/// until reading stops.
pub open spec fn read_token(input: Seq<u8>, pos: int, acc: Seq<char>) -> (Seq<char>, int)
    decreases input.len() - pos,
{
    let (r, p) = read_char_spec(input, pos);
    match r {
        None => (acc, p),
        Some(c) => if white_space(c) || p <= pos {
            (acc, p)
        } else {
            read_token(input, p, acc.push(c))
        },
    }
}

/// Reads one decimal integer: skips white space, takes the characters up to
/// the next white space, and parses them; `None` at the end of the input or
/// for a malformed numeral.
pub open spec fn read_number_spec(input: Seq<u8>, pos: int) -> (Option<int>, int) {
    let (f, p) = skip_white_space(input, pos);
    match f {
        None => (None, p),
        Some(c) => {
            let (tok, q) = read_token(input, p, seq![c]);
            (parse_decimal_spec(tok), q)
        },
    }
}

/// Reads one UTF-8 character from `input` at `pos` (see `read_char_spec`).
pub fn read_utf8_char(input: &[u8], pos: usize) -> (r: (Option<char>, usize))
    requires
        pos <= input@.len(),
    ensures
        (r.0, r.1 as int) == read_char_spec(input@, pos as int),
{
    let len = input.len();
    if pos >= len {
        return (None, pos);
    }
    let first = input[pos];
    let expected: usize = if first < 0x80 {
        1
    } else if first < 0xC0 {
        return (Some(REPLACEMENT), pos + 1);
    } else if first < 0xE0 {
        2
    } else if first < 0xF0 {
        3
    } else {
        4
    };
    if expected > len - pos {
        return (Some(REPLACEMENT), len);
    }
    let mut bytes: Vec<u8> = Vec::new();
    let mut k: usize = 0;
    while k < expected
        invariant
            pos + expected <= len,
            len == input@.len(),
            k <= expected,
            bytes@ == input@.subrange(pos as int, pos + k),
        decreases expected - k,
    {
        bytes.push(input[pos + k]);
        k = k + 1;
        assert(bytes@ =~= input@.subrange(pos as int, pos + k));
    }
    match str_from_utf8(bytes.as_slice()) {
        Some(s) => {
            let ghost b = bytes@;
            assert(decode_utf8(b).len() > 0);
            (Some(s.get_char(0)), pos + expected)
        },
        None => (None, pos + expected),
    }
}

/// Skips white space (see `skip_white_space`).
fn skip_ws(input: &[u8], pos: usize) -> (r: (Option<char>, usize))
    requires
        pos <= input@.len(),
    ensures
        (r.0, r.1 as int) == skip_white_space(input@, pos as int),
        r.1 <= input@.len(),
    decreases input@.len() - pos,
{
    proof {
        lemma_read_char_advances(input@, pos as int);
    }
    let (r, p) = read_utf8_char(input, pos);
    match r {
        None => (None, p),
        Some(c) => {
            let ws = char_is_whitespace(c);
            if ws && pos < p {
                skip_ws(input, p)
            } else if ws {
                (None, p)
            } else {
                (Some(c), p)
            }
        },
    }
}

/// Reads the rest of a token (see `read_token`).
fn read_token_exec(input: &[u8], pos: usize, acc: &mut String) -> (p: usize)
    requires
        pos <= input@.len(),
    ensures
        (final(acc)@, p as int) == read_token(input@, pos as int, old(acc)@),
        p <= input@.len(),
    decreases input@.len() - pos,
{
    proof {
        lemma_read_char_advances(input@, pos as int);
    }
    let (r, p) = read_utf8_char(input, pos);
    match r {
        None => p,
        Some(c) => {
            if char_is_whitespace(c) || p <= pos {
                p
            } else {
                push_char(acc, c);
                read_token_exec(input, p, acc)
            }
        },
    }
}

/// Reads one decimal integer from `input` at `pos` (see `read_number_spec`).
pub fn read_num_input(input: &[u8], pos: usize) -> (r: (Option<Int>, usize))
    requires
        pos <= input@.len(),
    ensures
        r.1 <= input@.len(),
        r.1 == read_number_spec(input@, pos as int).1,
        match (r.0, read_number_spec(input@, pos as int).0) {
            (Some(v), Some(w)) => v@ == w,
            (None, None) => true,
            _ => false,
        },
{
    let (first, p) = skip_ws(input, pos);
    match first {
        None => (None, p),
        Some(c) => {
            let mut tok = String::new();
            push_char(&mut tok, c);
            assert(tok@ =~= seq![c]);
            let q = read_token_exec(input, p, &mut tok);
            (Int::parse_decimal(tok.as_str()), q)
        },
    }
}

} // verus!
