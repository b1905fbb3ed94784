//! The author's signature and the banner that a signed program prints.
//!
//! When the normalized source text contains `SIGNATURE`, the banner goes to
//! the error stream before the program runs.

use crate::text::{push_char, repeat_char, to_chars};
use vstd::prelude::*;

verus! {

/// The author's signature searched for in the normalized source.
pub const SIGNATURE: &'static str = "sisobus";

/// The version of the language and of this library.
pub const VERSION: &'static str = "0.4.0";

/// Inner width of the banner box, between its vertical bars.
pub const BANNER_WIDTH: usize = 39;

/// Whether `needle` occurs in `hay` as a run of consecutive characters.
pub open spec fn contains_text(hay: Seq<char>, needle: Seq<char>) -> bool {
    exists|i: int|
        0 <= i && i + needle.len() <= hay.len() && #[trigger] hay.subrange(i, i + needle.len())
            == needle
}

/// `s` followed by spaces up to `width` characters; unchanged when already that wide.
pub open spec fn padded(s: Seq<char>, width: nat) -> Seq<char> {
    if s.len() >= width {
        s
    } else {
        s + repeat_char(' ', (width - s.len()) as nat)
    }
}

/// The four lines of the banner box.
pub open spec fn banner_text() -> Seq<char> {
    let bar = repeat_char('═', BANNER_WIDTH as nat);
    "╔"@ + bar + "╗\n║"@ + padded("  Windy v"@ + VERSION@, BANNER_WIDTH as nat) + "║\n║"@
        + padded("  Crafted by Kim Sangkeun (@sisobus)"@, BANNER_WIDTH as nat) + "║\n╚"@ + bar
        + "╝"@
}

/// `s` padded with spaces to `width` characters (see `padded`).
pub fn pad_to_width(s: &str, width: usize) -> (r: String)
    ensures
        r@ == padded(s@, width as nat),
{
    let visual = s.unicode_len();
    let mut out = String::from_str(s);
    if visual < width {
        let mut k: usize = visual;
        while k < width
            invariant
                visual <= k <= width,
                visual == s@.len(),
                out@ == s@ + repeat_char(' ', (k - visual) as nat),
            decreases width - k,
        {
            push_char(&mut out, ' ');
            k = k + 1;
            assert(out@ =~= s@ + repeat_char(' ', (k - visual) as nat));
        }
    }
    out
}

fn push_bar(out: &mut String)
    ensures
        final(out)@ == old(out)@ + repeat_char('═', BANNER_WIDTH as nat),
{
    let mut k: usize = 0;
    while k < BANNER_WIDTH
        invariant
            k <= BANNER_WIDTH,
            out@ == old(out)@ + repeat_char('═', k as nat),
        decreases BANNER_WIDTH - k,
    {
        push_char(out, '═');
        k = k + 1;
        assert(out@ =~= old(out)@ + repeat_char('═', k as nat));
    }
}

/// The banner printed for a signed program: a box around the version line
/// and the author line.
pub fn banner() -> (r: String)
    ensures
        r@ == banner_text(),
{
    let mut version_line = String::from_str("  Windy v");
    version_line.append(VERSION);
    let mut out = String::new();
    out.append("╔");
    push_bar(&mut out);
    out.append("╗\n║");
    out.append(pad_to_width(version_line.as_str(), BANNER_WIDTH).as_str());
    out.append("║\n║");
    out.append(pad_to_width("  Crafted by Kim Sangkeun (@sisobus)", BANNER_WIDTH).as_str());
    out.append("║\n╚");
    push_bar(&mut out);
    out.append("╝");
    assert(out@ =~= banner_text());
    out
}

/// Whether the text contains the author's signature.
pub fn detect(source: &str) -> (r: bool)
    ensures
        r == contains_text(source@, SIGNATURE@),
{
    let hay = to_chars(source);
    let needle = to_chars(SIGNATURE);
    let n = hay.len();
    let m = needle.len();
    if m > n {
        return false;
    }
    let mut i: usize = 0;
    while i <= n - m
        invariant
            i <= n - m + 1,
            n == hay@.len(),
            m == needle@.len(),
            m <= n,
            hay@ == source@,
            needle@ == SIGNATURE@,
            forall|j: int| 0 <= j < i ==> #[trigger] hay@.subrange(j, j + m) != needle@,
        decreases n - i,
    {
        let mut k: usize = 0;
        while k < m && hay[i + k] == needle[k]
            invariant
                k <= m,
                i + m <= n,
                n == hay@.len(),
                m == needle@.len(),
                forall|t: int| 0 <= t < k ==> hay@[i + t] == needle@[t],
            decreases m - k,
        {
            k = k + 1;
        }
        if k == m {
            assert(hay@.subrange(i as int, i + m) =~= needle@);
            return true;
        }
        assert(hay@.subrange(i as int, i + m)[k as int] != needle@[k as int]);
        i = i + 1;
    }
    assert forall|j: int|
        0 <= j && j + m <= n implies #[trigger] hay@.subrange(j, j + m) != needle@ by {
        assert(j < i);
    }
    false
}

} // verus!
