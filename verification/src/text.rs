//! Character facts that come from the standard library.

use vstd::prelude::*;
use vstd::utf8::{decode_utf8, valid_utf8};

verus! {

/// Whether `v` is a Unicode scalar value, i.e. the code of some `char`.
pub open spec fn is_scalar_value(v: int) -> bool {
    0 <= v <= 0x10FFFF && !(0xD800 <= v <= 0xDFFF)
}

/// Calls `String::push`: appends one character.
#[verifier::external_body]
pub(crate) fn push_char(s: &mut String, c: char)
    ensures
        final(s)@ == old(s)@.push(c),
{
    s.push(c);
}

/// Whether `c` is a control character: Unicode general category `Cc`, which
/// is exactly U+0000..=U+001F and U+007F..=U+009F.
pub open spec fn control_char(c: char) -> bool {
    (c as int) <= 0x1F || (0x7F <= (c as int) && (c as int) <= 0x9F)
}

/// Calls `char::is_control`.
#[verifier::external_body]
pub(crate) fn char_is_control(c: char) -> (r: bool)
    ensures
        r == control_char(c),
{
    c.is_control()
}

/// What `{:?}` prints for a string: the quoted, escaped form.
pub uninterp spec fn str_debug_text(s: Seq<char>) -> Seq<char>;

/// Calls `<str as Debug>::fmt` through `format!("{:?}", s)`.
#[verifier::external_body]
pub(crate) fn str_debug(s: &str) -> (r: String)
    ensures
        r@ == str_debug_text(s@),
{
    format!("{:?}", s)
}

/// `count` copies of `c`.
pub open spec fn repeat_char(c: char, count: nat) -> Seq<char> {
    Seq::new(count, |_i: int| c)
}

/// Whether `c` has the Unicode `White_Space` property: U+0009..=U+000D,
/// U+0020, U+0085, U+00A0, U+1680, U+2000..=U+200A, U+2028, U+2029, U+202F,
/// U+205F and U+3000.
pub open spec fn white_space(c: char) -> bool {
    let v = c as int;
    ||| 0x09 <= v <= 0x0D
    ||| v == 0x20
    ||| v == 0x85
    ||| v == 0xA0
    ||| v == 0x1680
    ||| 0x2000 <= v <= 0x200A
    ||| v == 0x2028
    ||| v == 0x2029
    ||| v == 0x202F
    ||| v == 0x205F
    ||| v == 0x3000
}

/// Calls `char::from_u32`: the `char` whose code is `v`, or `None` when `v`
/// is above `0x10FFFF` or a surrogate code.
#[verifier::external_body]
pub(crate) fn char_from_u32(v: u32) -> (r: Option<char>)
    ensures
        r is Some <==> is_scalar_value(v as int),
        r matches Some(c) ==> c as int == v as int,
{
    char::from_u32(v)
}

/// Calls `char::is_whitespace`: whether `c` has the Unicode `White_Space` property.
#[verifier::external_body]
pub(crate) fn char_is_whitespace(c: char) -> (r: bool)
    ensures
        r == white_space(c),
{
    c.is_whitespace()
}

/// Calls `std::str::from_utf8`: the text that `bytes` encode when they are
/// valid UTF-8, else `None`.
#[verifier::external_body]
pub(crate) fn str_from_utf8(bytes: &[u8]) -> (r: Option<&str>)
    ensures
        r is Some <==> valid_utf8(bytes@),
        r matches Some(s) ==> s@ == decode_utf8(bytes@),
{
    std::str::from_utf8(bytes).ok()
}

/// What `{:?}` prints for a `char`: the quoted, escaped form.
pub uninterp spec fn char_debug_text(c: char) -> Seq<char>;

/// Calls `<char as Debug>::fmt` through `format!("{:?}", c)`.
#[verifier::external_body]
pub(crate) fn char_debug(c: char) -> (r: String)
    ensures
        r@ == char_debug_text(c),
{
    format!("{:?}", c)
}

/// `s` without its leading white space.
pub open spec fn trim_start_spec(s: Seq<char>) -> Seq<char>
    decreases s.len(),
{
    if s.len() > 0 && white_space(s[0]) {
        trim_start_spec(s.skip(1))
    } else {
        s
    }
}

/// `s` without its trailing white space.
pub open spec fn trim_end_spec(s: Seq<char>) -> Seq<char>
    decreases s.len(),
{
    if s.len() > 0 && white_space(s.last()) {
        trim_end_spec(s.drop_last())
    } else {
        s
    }
}

/// `s` without leading and trailing white space.
pub open spec fn trim_spec(s: Seq<char>) -> Seq<char> {
    trim_end_spec(trim_start_spec(s))
}

/// Calls `str::trim`: the text without leading and trailing characters that
/// have the Unicode `White_Space` property.
#[verifier::external_body]
pub(crate) fn str_trim(s: &str) -> (r: &str)
    ensures
        r@ == trim_spec(s@),
{
    s.trim()
}

/// The text in lowercase as `str::to_lowercase` gives it: each character's
/// Unicode lowercase mapping, except that a capital sigma lowercases to the
/// final form `ς` where it ends a word and to `σ` elsewhere.
pub uninterp spec fn lowercase(s: Seq<char>) -> Seq<char>;

/// Calls `str::to_lowercase`.
#[verifier::external_body]
pub(crate) fn str_to_lowercase(s: &str) -> (r: String)
    ensures
        r@ == lowercase(s@),
{
    s.to_lowercase()
}

/// The code of a character.
pub fn char_code(c: char) -> (r: u32)
    ensures
        r as int == c as int,
{
    c as u32
}

/// The characters of `s`, in order.
pub fn to_chars(s: &str) -> (v: Vec<char>)
    ensures
        v@ == s@,
{
    let mut v: Vec<char> = Vec::new();
    for c in it: s.chars()
        invariant
            v@ == it.seq().take(it.index() as int),
            it.seq() == s@,
    {
        v.push(c);
        assert(v@ =~= it.seq().take(it.index() as int + 1));
    }
    v
}

/// Uppercase hexadecimal digits of `n`, most significant first.
pub open spec fn hex_digits(n: nat) -> Seq<char>
    decreases n,
{
    let d = (n % 16) as int;
    let c = if d < 10 {
        (48 + d) as char
    } else {
        (55 + d) as char
    };
    if n < 16 {
        seq![c]
    } else {
        hex_digits(n / 16).push(c)
    }
}

/// `n` in uppercase hexadecimal, padded with zeros to at least four digits.
pub open spec fn hex4(n: nat) -> Seq<char> {
    let h = hex_digits(n);
    if h.len() < 4 {
        repeat_char('0', (4 - h.len()) as nat) + h
    } else {
        h
    }
}

/// Uppercase hexadecimal digits of `n`.
pub fn hex_string(n: u32) -> (r: String)
    ensures
        r@ == hex_digits(n as nat),
    decreases n,
{
    let d = n % 16;
    let c: char = if d < 10 {
        char_from_digit(d)
    } else {
        char_from_hex_letter(d)
    };
    if n < 16 {
        let mut s = String::new();
        push_char(&mut s, c);
        assert(s@ =~= seq![c]);
        s
    } else {
        let mut s = hex_string(n / 16);
        push_char(&mut s, c);
        s
    }
}

fn char_from_digit(d: u32) -> (c: char)
    requires
        d < 10,
    ensures
        c == (48 + d) as char,
{
    match char_from_u32(48 + d) {
        Some(c) => c,
        None => '0',
    }
}

fn char_from_hex_letter(d: u32) -> (c: char)
    requires
        10 <= d < 16,
    ensures
        c == (55 + d) as char,
{
    match char_from_u32(55 + d) {
        Some(c) => c,
        None => 'A',
    }
}

/// `n` in uppercase hexadecimal, zero-padded to at least four digits.
pub fn hex4_string(n: u32) -> (r: String)
    ensures
        r@ == hex4(n as nat),
{
    let h = hex_string(n);
    let len = h.as_str().unicode_len();
    if len < 4 {
        let mut s = String::new();
        let mut k: usize = len;
        while k < 4
            invariant
                len <= k <= 4,
                s@ == repeat_char('0', (k - len) as nat),
            decreases 4 - k,
        {
            push_char(&mut s, '0');
            k = k + 1;
            assert(s@ =~= repeat_char('0', (k - len) as nat));
        }
        s.append(h.as_str());
        s
    } else {
        h
    }
}

} // verus!
