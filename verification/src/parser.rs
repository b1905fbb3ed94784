//! Source text to grid.
//!
//! Before the grid is built the text is normalized: a leading byte-order mark
//! is dropped, `\r\n` and lone `\r` become `\n`, and a first line that starts
//! with `#!` is dropped. Each `\n`-separated line is one row (top row `y = 0`);
//! within a row, `x` counts characters, not bytes.

use crate::grid::{Grid, SPACE};
use crate::text::{char_code, push_char, to_chars};
use crate::value::Int;
use vstd::prelude::*;

verus! {

/// The text without a leading byte-order mark.
pub open spec fn strip_bom(s: Seq<char>) -> Seq<char> {
    if s.len() > 0 && s[0] == '\u{feff}' {
        s.skip(1)
    } else {
        s
    }
}

/// The text with each `\r\n`, and each other `\r`, turned into `\n`.
pub open spec fn unify_line_ends(s: Seq<char>) -> Seq<char>
    decreases s.len(),
{
    if s.len() == 0 {
        s
    } else if s[0] == '\r' && s.len() > 1 && s[1] == '\n' {
        seq!['\n'] + unify_line_ends(s.skip(2))
    } else if s[0] == '\r' {
        seq!['\n'] + unify_line_ends(s.skip(1))
    } else {
        seq![s[0]] + unify_line_ends(s.skip(1))
    }
}

/// What follows the first `\n`; nothing when there is none.
pub open spec fn after_first_line(s: Seq<char>) -> Seq<char>
    decreases s.len(),
{
    if s.len() == 0 {
        s
    } else if s[0] == '\n' {
        s.skip(1)
    } else {
        after_first_line(s.skip(1))
    }
}

/// The normalized text: byte-order mark dropped, line ends unified, and a
/// `#!` first line dropped together with its `\n`.
pub open spec fn normalize_spec(s: Seq<char>) -> Seq<char> {
    let t = unify_line_ends(strip_bom(s));
    if t.len() >= 2 && t[0] == '#' && t[1] == '!' {
        after_first_line(t.skip(2))
    } else {
        t
    }
}

/// Column and row reached after reading `s` from `(0, 0)`.
pub open spec fn position_after(s: Seq<char>) -> (int, int)
    decreases s.len(),
{
    if s.len() == 0 {
        (0, 0)
    } else {
        let p = position_after(s.drop_last());
        if s.last() == '\n' {
            (0, p.1 + 1)
        } else {
            (p.0 + 1, p.1)
        }
    }
}

/// The grid that the text lays out: every character other than a space or a
/// line end, at its column and row.
pub open spec fn layout(s: Seq<char>) -> Map<(i64, i64), int>
    decreases s.len(),
{
    if s.len() == 0 {
        Map::empty()
    } else {
        let g = layout(s.drop_last());
        let p = position_after(s.drop_last());
        let c = s.last();
        if c == '\n' || c == ' ' {
            g
        } else {
            g.insert((p.0 as i64, p.1 as i64), c as int)
        }
    }
}

/// A position never exceeds the number of characters read.
pub proof fn lemma_position_bounds(s: Seq<char>)
    ensures
        0 <= position_after(s).0 <= s.len(),
        0 <= position_after(s).1 <= s.len(),
    decreases s.len(),
{
    if s.len() > 0 {
        lemma_position_bounds(s.drop_last());
    }
}

/// A line end adds no cell: trailing line ends do not create rows.
pub proof fn lemma_trailing_newline(s: Seq<char>)
    ensures
        layout(s.push('\n')) == layout(s),
{
    assert(s.push('\n').drop_last() =~= s);
}

proof fn lemma_unify_len(s: Seq<char>)
    ensures
        unify_line_ends(s).len() <= s.len(),
    decreases s.len(),
{
    if s.len() > 0 {
        lemma_unify_len(s.skip(1));
        if s.len() > 1 {
            lemma_unify_len(s.skip(2));
        }
    }
}

proof fn lemma_after_first_line_len(s: Seq<char>)
    ensures
        after_first_line(s).len() <= s.len(),
    decreases s.len(),
{
    if s.len() > 0 {
        lemma_after_first_line_len(s.skip(1));
    }
}

/// Normalizing never lengthens the text.
pub proof fn lemma_normalize_len(s: Seq<char>)
    ensures
        normalize_spec(s).len() <= s.len(),
{
    lemma_unify_len(strip_bom(s));
    let t = unify_line_ends(strip_bom(s));
    if t.len() >= 2 {
        lemma_after_first_line_len(t.skip(2));
    }
}

/// The normalized source text (see `normalize_spec`).
pub fn normalize(source: &str) -> (r: String)
    ensures
        r@ == normalize_spec(source@),
{
    let chars = to_chars(source);
    let n = chars.len();
    let start: usize = if n > 0 && chars[0] == '\u{feff}' {
        1
    } else {
        0
    };
    let ghost stripped = strip_bom(source@);
    assert(stripped =~= chars@.skip(start as int));
    // Unify line ends.
    let mut unified: Vec<char> = Vec::new();
    let mut i: usize = start;
    assert(chars@.skip(i as int) =~= stripped);
    while i < n
        invariant
            start <= i <= n,
            n == chars@.len(),
            unify_line_ends(stripped) == unified@ + unify_line_ends(chars@.skip(i as int)),
        decreases n - i,
    {
        let ghost rest = chars@.skip(i as int);
        let c = chars[i];
        if c == '\r' && i + 1 < n && chars[i + 1] == '\n' {
            unified.push('\n');
            assert(rest.skip(2) =~= chars@.skip(i + 2));
            i = i + 2;
        } else if c == '\r' {
            unified.push('\n');
            assert(rest.skip(1) =~= chars@.skip(i + 1));
            i = i + 1;
        } else {
            unified.push(c);
            assert(rest.skip(1) =~= chars@.skip(i + 1));
            i = i + 1;
        }
        assert(unify_line_ends(stripped) =~= unified@ + unify_line_ends(chars@.skip(i as int)));
    }
    assert(chars@.skip(n as int) =~= Seq::<char>::empty());
    assert(unified@ =~= unify_line_ends(stripped));
    // Drop a shebang line.
    let m = unified.len();
    let mut from: usize = 0;
    if m >= 2 && unified[0] == '#' && unified[1] == '!' {
        let mut j: usize = 2;
        assert(unified@.skip(2) =~= unified@.skip(j as int));
        while j < m && unified[j] != '\n'
            invariant
                2 <= j <= m,
                m == unified@.len(),
                after_first_line(unified@.skip(2)) == after_first_line(unified@.skip(j as int)),
            decreases m - j,
        {
            assert(unified@.skip(j as int).skip(1) =~= unified@.skip(j + 1));
            j = j + 1;
        }
        if j < m {
            assert(unified@.skip(j as int).skip(1) =~= unified@.skip(j + 1));
            from = j + 1;
        } else {
            from = m;
        }
    }
    let mut out = String::new();
    let mut k: usize = from;
    while k < m
        invariant
            from <= k <= m,
            m == unified@.len(),
            out@ == unified@.subrange(from as int, k as int),
        decreases m - k,
    {
        push_char(&mut out, unified[k]);
        k = k + 1;
        assert(out@ =~= unified@.subrange(from as int, k as int));
    }
    assert(out@ =~= unified@.skip(from as int));
    out
}

/// Builds the grid from source text; also returns the normalized text, over
/// which the signature is searched. The text must have fewer than `i64::MAX`
/// characters, so that every coordinate fits.
pub fn parse(source: &str) -> (r: (Grid, String))
    requires
        source@.len() < i64::MAX,
    ensures
        r.1@ == normalize_spec(source@),
        r.0@ == layout(normalize_spec(source@)),
{
    let text = normalize(source);
    let chars = to_chars(text.as_str());
    proof {
        lemma_normalize_len(source@);
    }
    let mut grid = Grid::new();
    let n = chars.len();
    let mut x: i64 = 0;
    let mut y: i64 = 0;
    let mut i: usize = 0;
    assert(chars@.take(0) =~= Seq::<char>::empty());
    while i < n
        invariant
            i <= n,
            n == chars@.len(),
            n < i64::MAX,
            (x as int, y as int) == position_after(chars@.take(i as int)),
            grid@ == layout(chars@.take(i as int)),
        decreases n - i,
    {
        proof {
            lemma_position_bounds(chars@.take(i as int));
        }
        let c = chars[i];
        assert(chars@.take(i + 1).drop_last() =~= chars@.take(i as int));
        if c == '\n' {
            x = 0;
            y = y + 1;
        } else {
            if c != ' ' {
                let v = Int::from_u32(char_code(c));
                assert(v@ == c as int);
                assert(v@ != SPACE as int);
                grid.put(x, y, v);
            }
            x = x + 1;
        }
        i = i + 1;
    }
    assert(chars@.take(n as int) =~= chars@);
    (grid, text)
}

} // verus!
