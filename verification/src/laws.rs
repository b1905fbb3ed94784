//! What each instruction does, stated over one IP's turn on a cell that
//! holds the instruction's character: the stack before and after, the new
//! direction, the grid, the input and the output.

use crate::grid::cell_of;
use crate::input::{read_char_spec, read_number_spec, read_token, skip_white_space, utf8_width};
use crate::machine::{ip_turn, warning_text, EnvState, IpState};
use crate::vm::{exit_of, lemma_turns_frame, live, run_of, tick, ticks, turns, ExitCode, VmState};
use crate::parser::{lemma_position_bounds, after_first_line, layout, normalize_spec, position_after, strip_bom, unify_line_ends};
use crate::opcodes::{decode_spec, glyph_op, is_glyph_of, lemma_glyphs_distinct, Op};
use crate::text::{is_scalar_value, white_space};
use crate::value::{floor_div, floor_mod, digit_char, int_decimal, is_digit_run, digits_value, lemma_floor_div_mod, nat_decimal, parse_decimal_spec};
use vstd::wrapping::i64_specs::{wrapping_add, wrapping_sub};
use vstd::prelude::*;
use vstd::utf8::{decode_utf8, encode_utf8, encode_utf8_decode_utf8, encode_utf8_first_scalar, encode_utf8_valid_utf8, valid_utf8};

verus! {

/// A character that is a glyph of `op` (and no digit) decodes to `op`.
proof fn lemma_decodes(ch: char, op: Op)
    requires
        is_glyph_of(ch, op),
        !('0' <= ch <= '9'),
    ensures
        decode_spec(ch as int) == (op, 0u32),
{
    vstd::utf8::char_is_scalar(ch);
    let o = choose|o: Op| is_glyph_of(ch, o);
    lemma_glyphs_distinct(ch, o, op);
    assert(glyph_op(ch) == op);
}

/// The turn of a live IP that is not in string mode, on a cell holding `ch`.
pub open spec fn turn_on(e: EnvState, c: IpState, ch: char) -> bool {
    &&& !c.halted
    &&& !c.strmode
    &&& cell_of(e.grid, c.x, c.y) == ch as int
}

/// `/` pops the divisor `b` (the top) and the dividend `a` below it, and
/// pushes the quotient rounded toward negative infinity: the `q` with
/// `b*q <= a < b*q + b` for a positive divisor, `b*q >= a > b*q + b` for a
/// negative one. Nothing else changes but the IP's position.
pub proof fn lemma_div_turn(e: EnvState, c: IpState, p: Seq<int>, a: int, b: int)
    requires
        turn_on(e, c, '/'),
        c.stack == p.push(a).push(b),
        b != 0,
    ensures
        ip_turn(e, c).0 == e,
        ip_turn(e, c).1.stack.drop_last() == p,
        ip_turn(e, c).1.stack.len() == p.len() + 1,
        b > 0 ==> b * ip_turn(e, c).1.stack.last() <= a < b * ip_turn(e, c).1.stack.last() + b,
        b < 0 ==> b * ip_turn(e, c).1.stack.last() >= a > b * ip_turn(e, c).1.stack.last() + b,
        (ip_turn(e, c).1.dx, ip_turn(e, c).1.dy) == (c.dx, c.dy),
{
    lemma_decodes('/', Op::Div);
    lemma_floor_div_mod(a, b);
    let q = floor_div(a, b);
    assert(c.stack.drop_last() == p.push(a));
    assert(ip_turn(e, c).1.stack == p.push(q));
    assert(p.push(q).drop_last() =~= p);
}

/// The stack after a binary operator: the two operands replaced by `r`.
pub open spec fn replaced_by(p: Seq<int>, r: int) -> Seq<int> {
    p.push(r)
}

/// `+`, `-` and `*` pop `b` (the top) and `a` below it and push `a + b`,
/// `a - b` and `a * b`; direction and shared state stay.
pub proof fn lemma_add_sub_mul_turn(e: EnvState, c: IpState, p: Seq<int>, a: int, b: int, ch: char)
    requires
        turn_on(e, c, ch),
        ch == '+' || ch == '-' || ch == '*',
        c.stack == p.push(a).push(b),
    ensures
        ip_turn(e, c).0 == e,
        ch == '+' ==> ip_turn(e, c).1.stack == p.push(a + b),
        ch == '-' ==> ip_turn(e, c).1.stack == p.push(a - b),
        ch == '*' ==> ip_turn(e, c).1.stack == p.push(a * b),
        (ip_turn(e, c).1.dx, ip_turn(e, c).1.dy) == (c.dx, c.dy),
{
    assert(c.stack.drop_last() == p.push(a));
    if ch == '+' {
        lemma_decodes('+', Op::Add);
    } else if ch == '-' {
        lemma_decodes('-', Op::Sub);
    } else {
        lemma_decodes('*', Op::Mul);
    }
}

/// A missing operand reads as 0: `-` on a one-element stack `[b]` leaves
/// `[0 - b]`, and on an empty stack leaves `[0]`.
pub proof fn lemma_underflow_reads_zero(e: EnvState, c: IpState, b: int)
    requires
        turn_on(e, c, '-'),
        c.stack == seq![b] || c.stack.len() == 0,
    ensures
        c.stack == seq![b] ==> ip_turn(e, c).1.stack == seq![-b],
        c.stack.len() == 0 ==> ip_turn(e, c).1.stack == seq![0int],
{
    lemma_decodes('-', Op::Sub);
    if c.stack == seq![b] {
        assert(c.stack.drop_last() =~= Seq::<int>::empty());
        assert(Seq::<int>::empty().push(0 - b) =~= seq![-b]);
    } else {
        assert(Seq::<int>::empty().push(0int) =~= seq![0int]);
    }
}

/// `%` pops `b` and `a` and pushes the remainder `r` of floor division: for
/// a positive `b`, `0 <= r < b`; for a negative `b`, `b < r <= 0`; and
/// `a - r` is a multiple of `b`. Dividing or taking the remainder by 0 pushes 0.
pub proof fn lemma_mod_turn(e: EnvState, c: IpState, p: Seq<int>, a: int, b: int)
    requires
        turn_on(e, c, '%'),
        c.stack == p.push(a).push(b),
    ensures
        ip_turn(e, c).0 == e,
        ip_turn(e, c).1.stack.drop_last() == p,
        ip_turn(e, c).1.stack.len() == p.len() + 1,
        b == 0 ==> ip_turn(e, c).1.stack.last() == 0,
        b > 0 ==> 0 <= ip_turn(e, c).1.stack.last() < b,
        b < 0 ==> b < ip_turn(e, c).1.stack.last() <= 0,
        b != 0 ==> exists|q: int| a == #[trigger] (b * q) + ip_turn(e, c).1.stack.last(),
{
    lemma_decodes('%', Op::Mod);
    assert(c.stack.drop_last() == p.push(a));
    let r = if b == 0 {
        0
    } else {
        floor_mod(a, b)
    };
    assert(ip_turn(e, c).1.stack == p.push(r));
    assert(p.push(r).drop_last() =~= p);
    if b != 0 {
        lemma_floor_div_mod(a, b);
        let q = floor_div(a, b);
        assert(a == b * q + r);
    }
}

/// Dividing by 0 pushes 0.
pub proof fn lemma_div_by_zero_turn(e: EnvState, c: IpState, p: Seq<int>, a: int)
    requires
        turn_on(e, c, '/'),
        c.stack == p.push(a).push(0),
    ensures
        ip_turn(e, c).1.stack == p.push(0),
{
    lemma_decodes('/', Op::Div);
    assert(c.stack.drop_last() == p.push(a));
}

/// `` ` `` pops `b` and `a` and pushes 1 when `a > b`, else 0; `!` pops `a`
/// and pushes 1 when `a` is 0, else 0.
pub proof fn lemma_gt_not_turn(e: EnvState, c: IpState, p: Seq<int>, a: int, b: int)
    requires
        !c.strmode,
        cell_of(e.grid, c.x, c.y) == '`' as int ==> c.stack == p.push(a).push(b),
        cell_of(e.grid, c.x, c.y) == '!' as int ==> c.stack == p.push(a),
    ensures
        cell_of(e.grid, c.x, c.y) == '`' as int ==> ip_turn(e, c).1.stack == p.push(
            if a > b {
                1int
            } else {
                0int
            },
        ),
        cell_of(e.grid, c.x, c.y) == '!' as int ==> ip_turn(e, c).1.stack == p.push(
            if a == 0 {
                1int
            } else {
                0int
            },
        ),
{
    if cell_of(e.grid, c.x, c.y) == '`' as int {
        lemma_decodes('`', Op::Gt);
        assert(c.stack.drop_last() == p.push(a));
    } else if cell_of(e.grid, c.x, c.y) == '!' as int {
        lemma_decodes('!', Op::Not);
    }
}

/// `:` pushes a second copy of the top, `$` pops the top, and `\\` swaps the
/// two top values; an empty stack reads as holding 0.
pub proof fn lemma_stack_turn(e: EnvState, c: IpState, p: Seq<int>, a: int, b: int)
    requires
        !c.strmode,
        cell_of(e.grid, c.x, c.y) == ':' as int ==> c.stack == p.push(a),
        cell_of(e.grid, c.x, c.y) == '$' as int ==> c.stack == p.push(a),
        cell_of(e.grid, c.x, c.y) == '\\' as int ==> c.stack == p.push(a).push(b),
    ensures
        cell_of(e.grid, c.x, c.y) == ':' as int ==> ip_turn(e, c).1.stack == p.push(a).push(a),
        cell_of(e.grid, c.x, c.y) == '$' as int ==> ip_turn(e, c).1.stack == p,
        cell_of(e.grid, c.x, c.y) == '\\' as int ==> ip_turn(e, c).1.stack == p.push(b).push(a),
{
    let v = cell_of(e.grid, c.x, c.y);
    if v == ':' as int {
        lemma_decodes(':', Op::Dup);
    } else if v == '$' as int {
        lemma_decodes('$', Op::Drop);
    } else if v == '\\' as int {
        lemma_decodes('\\', Op::Swap);
        assert(c.stack.drop_last() == p.push(a));
    }
}

/// `:` on an empty stack leaves `[0, 0]`.
pub proof fn lemma_dup_empty_turn(e: EnvState, c: IpState)
    requires
        turn_on(e, c, ':'),
        c.stack.len() == 0,
    ensures
        ip_turn(e, c).1.stack == seq![0int, 0int],
{
    lemma_decodes(':', Op::Dup);
    assert(c.stack.push(0).push(0) =~= seq![0int, 0int]);
}

/// `_` pops `a` and heads east when `a` is 0, west otherwise; `|` pops `a`
/// and heads south (`dy = 1`) when `a` is 0, north otherwise. An empty stack
/// reads as 0 and stays empty. The IP then moves one cell that way.
pub proof fn lemma_branch_turn(e: EnvState, c: IpState, ch: char)
    requires
        turn_on(e, c, ch),
        ch == '_' || ch == '|',
    ensures
        ip_turn(e, c).0 == e,
        ip_turn(e, c).1.stack == (if c.stack.len() == 0 {
            c.stack
        } else {
            c.stack.drop_last()
        }),
        ch == '_' ==> (ip_turn(e, c).1.dx, ip_turn(e, c).1.dy) == (if c.stack.len() == 0
            || c.stack.last() == 0 {
            (1i64, 0i64)
        } else {
            (-1i64, 0i64)
        }),
        ch == '|' ==> (ip_turn(e, c).1.dx, ip_turn(e, c).1.dy) == (if c.stack.len() == 0
            || c.stack.last() == 0 {
            (0i64, 1i64)
        } else {
            (0i64, -1i64)
        }),
        ip_turn(e, c).1.x == wrapping_add(c.x, ip_turn(e, c).1.dx),
        ip_turn(e, c).1.y == wrapping_add(c.y, ip_turn(e, c).1.dy),
{
    if ch == '_' {
        lemma_decodes('_', Op::IfH);
    } else {
        lemma_decodes('|', Op::IfV);
    }
}

/// The arrows set the direction and touch nothing else: `→`/`>` east
/// `(1, 0)`, `↗` `(1, -1)`, `↑`/`^` north `(0, -1)`, `↖` `(-1, -1)`, `←`/`<`
/// west `(-1, 0)`, `↙` `(-1, 1)`, `↓`/`v` south `(0, 1)`, `↘` `(1, 1)`.
pub proof fn lemma_wind_turn(e: EnvState, c: IpState, ch: char)
    requires
        turn_on(e, c, ch),
        ch == '→' || ch == '>' || ch == '↗' || ch == '↑' || ch == '^' || ch == '↖' || ch == '←'
            || ch == '<' || ch == '↙' || ch == '↓' || ch == 'v' || ch == '↘',
    ensures
        ip_turn(e, c).0 == e,
        ip_turn(e, c).1.stack == c.stack,
        ch == '→' || ch == '>' ==> (ip_turn(e, c).1.dx, ip_turn(e, c).1.dy) == (1i64, 0i64),
        ch == '↗' ==> (ip_turn(e, c).1.dx, ip_turn(e, c).1.dy) == (1i64, -1i64),
        ch == '↑' || ch == '^' ==> (ip_turn(e, c).1.dx, ip_turn(e, c).1.dy) == (0i64, -1i64),
        ch == '↖' ==> (ip_turn(e, c).1.dx, ip_turn(e, c).1.dy) == (-1i64, -1i64),
        ch == '←' || ch == '<' ==> (ip_turn(e, c).1.dx, ip_turn(e, c).1.dy) == (-1i64, 0i64),
        ch == '↙' ==> (ip_turn(e, c).1.dx, ip_turn(e, c).1.dy) == (-1i64, 1i64),
        ch == '↓' || ch == 'v' ==> (ip_turn(e, c).1.dx, ip_turn(e, c).1.dy) == (0i64, 1i64),
        ch == '↘' ==> (ip_turn(e, c).1.dx, ip_turn(e, c).1.dy) == (1i64, 1i64),
        ip_turn(e, c).1.x == wrapping_add(c.x, ip_turn(e, c).1.dx),
        ip_turn(e, c).1.y == wrapping_add(c.y, ip_turn(e, c).1.dy),
{
    if ch == '→' || ch == '>' {
        lemma_decodes(ch, Op::MoveE);
    } else if ch == '↗' {
        lemma_decodes(ch, Op::MoveNe);
    } else if ch == '↑' || ch == '^' {
        lemma_decodes(ch, Op::MoveN);
    } else if ch == '↖' {
        lemma_decodes(ch, Op::MoveNw);
    } else if ch == '←' || ch == '<' {
        lemma_decodes(ch, Op::MoveW);
    } else if ch == '↙' {
        lemma_decodes(ch, Op::MoveSw);
    } else if ch == '↓' || ch == 'v' {
        lemma_decodes(ch, Op::MoveS);
    } else {
        lemma_decodes(ch, Op::MoveSe);
    }
}

/// A space (or `·`) changes nothing but moves the IP one cell on; `#`
/// moves it two cells on (it jumps the next cell); `@` halts the IP where it
/// stands.
pub proof fn lemma_nop_trampoline_halt_turn(e: EnvState, c: IpState, ch: char)
    requires
        turn_on(e, c, ch),
        ch == ' ' || ch == '·' || ch == '#' || ch == '@',
    ensures
        ip_turn(e, c).0 == e,
        ip_turn(e, c).1.stack == c.stack,
        (ip_turn(e, c).1.dx, ip_turn(e, c).1.dy) == (c.dx, c.dy),
        ch == ' ' || ch == '·' ==> (ip_turn(e, c).1.x, ip_turn(e, c).1.y) == (wrapping_add(
            c.x,
            c.dx,
        ), wrapping_add(c.y, c.dy)) && !ip_turn(e, c).1.halted,
        ch == '#' ==> (ip_turn(e, c).1.x, ip_turn(e, c).1.y) == (wrapping_add(
            wrapping_add(c.x, c.dx),
            c.dx,
        ), wrapping_add(wrapping_add(c.y, c.dy), c.dy)) && !ip_turn(e, c).1.halted,
        ch == '@' ==> (ip_turn(e, c).1.x, ip_turn(e, c).1.y) == (c.x, c.y)
            && ip_turn(e, c).1.halted,
{
    if ch == ' ' || ch == '·' {
        lemma_decodes(ch, Op::Nop);
    } else if ch == '#' {
        lemma_decodes(ch, Op::Trampoline);
    } else {
        lemma_decodes(ch, Op::Halt);
    }
}

/// `t` adds one IP to those spawned this tick: one cell behind the parent,
/// heading the opposite way, with an empty stack, string mode off. The parent
/// keeps its stack and direction, and nothing else is shared changes.
pub proof fn lemma_split_turn(e: EnvState, c: IpState)
    requires
        turn_on(e, c, 't'),
    ensures
        ip_turn(e, c).0 == (EnvState {
            pending: e.pending.push(
                IpState {
                    x: wrapping_sub(c.x, c.dx),
                    y: wrapping_sub(c.y, c.dy),
                    dx: wrapping_sub(0, c.dx),
                    dy: wrapping_sub(0, c.dy),
                    stack: Seq::empty(),
                    strmode: false,
                    halted: false,
                },
            ),
            ..e
        }),
        ip_turn(e, c).1.stack == c.stack,
        (ip_turn(e, c).1.dx, ip_turn(e, c).1.dy) == (c.dx, c.dy),
{
    lemma_decodes('t', Op::Split);
}

/// `"` turns string mode on. In string mode a cell's value is pushed as it
/// is, whatever it holds, until a `"` turns string mode off again.
pub proof fn lemma_string_mode_turn(e: EnvState, c: IpState)
    requires
        !c.halted,
    ensures
        !c.strmode && cell_of(e.grid, c.x, c.y) == '"' as int ==> ip_turn(e, c).1.strmode
            && ip_turn(e, c).1.stack == c.stack,
        c.strmode && cell_of(e.grid, c.x, c.y) == '"' as int ==> !ip_turn(e, c).1.strmode
            && ip_turn(e, c).1.stack == c.stack,
        c.strmode && cell_of(e.grid, c.x, c.y) != '"' as int ==> ip_turn(e, c).1.strmode
            && ip_turn(e, c).1.stack == c.stack.push(cell_of(e.grid, c.x, c.y)),
        c.strmode ==> ip_turn(e, c).0 == e,
        (ip_turn(e, c).1.dx, ip_turn(e, c).1.dy) == (c.dx, c.dy) || !c.strmode,
{
    if !c.strmode && cell_of(e.grid, c.x, c.y) == '"' as int {
        lemma_decodes('"', Op::StrMode);
    }
}

/// A digit `0`..`9` pushes its value.
pub proof fn lemma_digit_turn(e: EnvState, c: IpState, d: int)
    requires
        !c.halted,
        !c.strmode,
        0 <= d <= 9,
        cell_of(e.grid, c.x, c.y) == '0' as int + d,
    ensures
        ip_turn(e, c).0 == e,
        ip_turn(e, c).1.stack == c.stack.push(d),
        (ip_turn(e, c).1.dx, ip_turn(e, c).1.dy) == (c.dx, c.dy),
{
}

/// `.` pops `a` and writes its decimal text and a space; `,` pops `a` and
/// writes the character whose code is `a`, or nothing when `a` is no
/// character's code.
pub proof fn lemma_output_turn(e: EnvState, c: IpState, p: Seq<int>, a: int, ch: char)
    requires
        turn_on(e, c, ch),
        ch == '.' || ch == ',',
        c.stack == p.push(a),
    ensures
        ip_turn(e, c).1.stack == p,
        ch == '.' ==> ip_turn(e, c).0 == (EnvState { out: e.out + int_decimal(a) + seq![' '], ..e }),
        ch == ',' && is_scalar_value(a) ==> ip_turn(e, c).0 == (EnvState {
            out: e.out.push(a as char),
            ..e
        }),
        ch == ',' && !is_scalar_value(a) ==> ip_turn(e, c).0 == e,
{
    if ch == '.' {
        lemma_decodes('.', Op::PutNum);
    } else {
        lemma_decodes(',', Op::PutChr);
    }
}

/// The decimal text of a natural number is a run of digits whose value is
/// the number.
pub proof fn lemma_decimal_value(n: nat)
    ensures
        is_digit_run(nat_decimal(n)),
        digits_value(nat_decimal(n)) == n,
    decreases n,
{
    let d = (n % 10) as int;
    assert(digit_char(d) as int == 48 + d);
    if n >= 10 {
        lemma_decimal_value(n / 10);
        let s = nat_decimal(n / 10);
        let t = nat_decimal(n);
        assert(t.drop_last() == s);
        assert(t.last() == digit_char(d));
        assert(forall|i: int| 0 <= i < s.len() ==> t[i] == s[i]);
        assert(digits_value(t) == digits_value(s) * 10 + d);
        assert(n == (n / 10) * 10 + d);
    } else {
        let t = nat_decimal(n);
        assert(n % 10 == n);
        assert(t == seq![digit_char(d)]);
        assert(t.last() == digit_char(d));
        assert(t.drop_last() =~= Seq::<char>::empty());
        assert(digits_value(t.drop_last()) == 0);
        assert(digits_value(t) == d);
    }
}

/// What `.` prints, base-10 parsing reads back: the decimal text of every
/// integer parses to that integer.
pub proof fn lemma_decimal_round_trip(i: int)
    ensures
        parse_decimal_spec(int_decimal(i)) == Some(i),
{
    if i < 0 {
        lemma_decimal_value((-i) as nat);
        assert((seq!['-'] + nat_decimal((-i) as nat)).drop_first() =~= nat_decimal((-i) as nat));
    } else {
        lemma_decimal_value(i as nat);
    }
}

/// When the input at `pos` starts with the UTF-8 encoding of a character
/// `ch` (one to four bytes), reading a character gives `ch` and moves past
/// exactly those bytes.
pub proof fn lemma_read_encoded_char(input: Seq<u8>, pos: int, ch: char)
    requires
        0 <= pos,
        pos + encode_utf8(seq![ch]).len() <= input.len(),
        input.subrange(pos, pos + encode_utf8(seq![ch]).len()) == encode_utf8(seq![ch]),
    ensures
        read_char_spec(input, pos) == (Some(ch), pos + encode_utf8(seq![ch]).len()),
{
    let enc = encode_utf8(seq![ch]);
    encode_utf8_first_scalar(seq![ch]);
    encode_utf8_valid_utf8(seq![ch]);
    encode_utf8_decode_utf8(seq![ch]);
    assert(seq![ch].drop_first() =~= Seq::<char>::empty());
    assert(encode_utf8(Seq::<char>::empty()) =~= Seq::<u8>::empty());
    assert(enc == vstd::utf8::encode_scalar(seq![ch][0] as u32) + encode_utf8(seq![ch].drop_first()));
    assert(enc =~= vstd::utf8::encode_scalar(ch as u32));
    assert(input[pos] == enc[0]);
    assert(vstd::utf8::valid_first_scalar(enc));
    assert(vstd::utf8::length_of_first_scalar(enc) == enc.len());
    assert(vstd::utf8::valid_leading_and_continuation_bytes_first_codepoint(enc));
    assert(utf8_width(enc[0]) == vstd::utf8::length_of_first_codepoint(enc));
    assert(utf8_width(enc[0]) == enc.len());
    assert(input.subrange(pos, pos + utf8_width(input[pos])) == enc);
}

/// `?` pushes the code of the character encoded at the read position and
/// moves the read position past it; at the end of the input it pushes -1.
pub proof fn lemma_get_char_turn(e: EnvState, c: IpState, ch: char)
    requires
        turn_on(e, c, '?'),
        0 <= e.pos,
    ensures
        e.pos + encode_utf8(seq![ch]).len() <= e.input.len() && e.input.subrange(
            e.pos,
            e.pos + encode_utf8(seq![ch]).len(),
        ) == encode_utf8(seq![ch]) ==> ip_turn(e, c).1.stack == c.stack.push(ch as int)
            && ip_turn(e, c).0 == (EnvState { pos: e.pos + encode_utf8(seq![ch]).len(), ..e }),
        e.pos >= e.input.len() ==> ip_turn(e, c).1.stack == c.stack.push(-1) && ip_turn(e, c).0
            == e,
{
    lemma_decodes('?', Op::GetChr);
    if e.pos + encode_utf8(seq![ch]).len() <= e.input.len() && e.input.subrange(
        e.pos,
        e.pos + encode_utf8(seq![ch]).len(),
    ) == encode_utf8(seq![ch]) {
        lemma_read_encoded_char(e.input, e.pos, ch);
    }
}

/// `g` pops `y` (the top) and `x` and pushes the value at column `x`, row
/// `y`: the value stored there, or 0x20 for a cell that holds nothing.
pub proof fn lemma_grid_get_turn(e: EnvState, c: IpState, p: Seq<int>, x: i64, y: i64)
    requires
        turn_on(e, c, 'g'),
        c.stack == p.push(x as int).push(y as int),
    ensures
        ip_turn(e, c).0 == e,
        ip_turn(e, c).1.stack == p.push(
            if e.grid.contains_key((x, y)) {
                e.grid[(x, y)]
            } else {
                0x20
            },
        ),
{
    lemma_decodes('g', Op::GridGet);
    assert(c.stack.drop_last() == p.push(x as int));
}

/// `p` pops `y` (the top), `x` and `v` and writes `v` at column `x`, row `y`
/// (a space empties the cell); the rest of the grid stays.
pub proof fn lemma_grid_put_turn(e: EnvState, c: IpState, p: Seq<int>, v: int, x: i64, y: i64)
    requires
        turn_on(e, c, 'p'),
        c.stack == p.push(v).push(x as int).push(y as int),
    ensures
        ip_turn(e, c).1.stack == p,
        ip_turn(e, c).0 == (EnvState {
            grid: if v == 0x20 {
                e.grid.remove((x, y))
            } else {
                e.grid.insert((x, y), v)
            },
            ..e
        }),
{
    lemma_decodes('p', Op::GridPut);
    assert(c.stack.drop_last() == p.push(v).push(x as int));
    assert(c.stack.drop_last().drop_last() == p.push(v));
}

/// What `p` writes at `(x, y)`, a later `g` at `(x, y)` reads back.
pub proof fn lemma_put_then_get(
    e: EnvState,
    c: IpState,
    p: Seq<int>,
    v: int,
    x: i64,
    y: i64,
    c2: IpState,
    q: Seq<int>,
)
    requires
        turn_on(e, c, 'p'),
        c.stack == p.push(v).push(x as int).push(y as int),
        turn_on(ip_turn(e, c).0, c2, 'g'),
        c2.stack == q.push(x as int).push(y as int),
    ensures
        ip_turn(ip_turn(e, c).0, c2).1.stack == q.push(v),
{
    lemma_grid_put_turn(e, c, p, v, x, y);
    lemma_grid_get_turn(ip_turn(e, c).0, c2, q, x, y);
}

/// The UTF-8 encoding of a non-empty text is that of its first character
/// followed by that of the rest.
proof fn lemma_encode_first(t: Seq<char>)
    requires
        t.len() > 0,
    ensures
        encode_utf8(t) == encode_utf8(seq![t[0]]) + encode_utf8(t.drop_first()),
{
    assert(seq![t[0]].drop_first() =~= Seq::<char>::empty());
    assert(encode_utf8(Seq::<char>::empty()) =~= Seq::<u8>::empty());
    assert(encode_utf8(seq![t[0]]) =~= vstd::utf8::encode_scalar(t[0] as u32));
}

/// Where the input at `p` holds `a + b`, it holds `b` right after `a`.
proof fn lemma_subrange_tail(input: Seq<u8>, p: int, a: Seq<u8>, b: Seq<u8>)
    requires
        0 <= p,
        p + a.len() + b.len() <= input.len(),
        input.subrange(p, p + a.len() + b.len()) == a + b,
    ensures
        input.subrange(p + a.len(), p + a.len() + b.len()) == b,
{
    assert forall|j: int| 0 <= j < b.len() implies input.subrange(p + a.len(), p + a.len() + b.len())[j]
        == b[j] by {
        assert(input.subrange(p, p + a.len() + b.len())[a.len() + j] == (a + b)[a.len() + j]);
        assert(input.subrange(p, p + a.len() + b.len())[a.len() + j] == input[p + a.len() + j]);
        assert((a + b)[a.len() + j] == b[j]);
    }
    assert(input.subrange(p + a.len(), p + a.len() + b.len()) =~= b);
}

/// Reading a token over the encoding of a text without white space, ended
/// by the encoding of a white-space character, gives that text and moves past
/// the white space.
proof fn lemma_read_token_encoded(input: Seq<u8>, p: int, t: Seq<char>, w: char, acc: Seq<char>)
    requires
        0 <= p,
        forall|j: int| 0 <= j < t.len() ==> !white_space(#[trigger] t[j]),
        white_space(w),
        p + encode_utf8(t).len() + encode_utf8(seq![w]).len() <= input.len(),
        input.subrange(p, p + encode_utf8(t).len() + encode_utf8(seq![w]).len()) == encode_utf8(t)
            + encode_utf8(seq![w]),
    ensures
        read_token(input, p, acc) == (acc + t, p + encode_utf8(t).len() + encode_utf8(seq![w]).len()),
    decreases t.len(),
{
    let n = encode_utf8(t).len();
    let m = encode_utf8(seq![w]).len();
    if t.len() == 0 {
        assert(encode_utf8(t) =~= Seq::<u8>::empty());
        assert(input.subrange(p, p + m) =~= input.subrange(p, p + n + m));
        lemma_read_encoded_char(input, p, w);
        assert(acc + t =~= acc);
    } else {
        let ch = t[0];
        let rest = t.drop_first();
        lemma_encode_first(t);
        let k = encode_utf8(seq![ch]).len();
        assert(encode_utf8(t).len() == k + encode_utf8(rest).len());
        assert(input.subrange(p, p + k) =~= encode_utf8(seq![ch]));
        lemma_read_encoded_char(input, p, ch);
        encode_utf8_first_scalar(seq![ch]);
        assert(k > 0);
        assert(!white_space(ch));
        assert(forall|j: int| 0 <= j < rest.len() ==> rest[j] == t[j + 1]);
        assert(encode_utf8(t) + encode_utf8(seq![w]) =~= encode_utf8(seq![ch]) + (encode_utf8(rest)
            + encode_utf8(seq![w])));
        assert((encode_utf8(rest) + encode_utf8(seq![w])).len() == encode_utf8(rest).len() + m);
        lemma_subrange_tail(input, p, encode_utf8(seq![ch]), encode_utf8(rest) + encode_utf8(seq![w]));
        lemma_read_token_encoded(input, p + k, rest, w, acc.push(ch));
        assert(acc.push(ch) + rest =~= acc + t);
    }
}

/// No character of an integer's decimal text is white space.
proof fn lemma_decimal_no_white_space(i: int)
    ensures
        int_decimal(i).len() > 0,
        forall|j: int| 0 <= j < int_decimal(i).len() ==> !white_space(#[trigger] int_decimal(i)[j]),
{
    let n: nat = if i < 0 {
        (-i) as nat
    } else {
        i as nat
    };
    lemma_decimal_value(n);
    let d = nat_decimal(n);
    if i < 0 {
        assert forall|j: int| 0 <= j < int_decimal(i).len() implies !white_space(
            #[trigger] int_decimal(i)[j],
        ) by {
            if j > 0 {
                assert(int_decimal(i)[j] == d[j - 1]);
            }
        }
    }
}

/// `&` reads one decimal integer: when the input at the read position holds
/// the decimal text of `i` followed by a white-space character, `&` pushes
/// `i` and moves the read position past that white space.
pub proof fn lemma_get_num_turn(e: EnvState, c: IpState, i: int, w: char)
    requires
        turn_on(e, c, '&'),
        0 <= e.pos,
        white_space(w),
        e.pos + encode_utf8(int_decimal(i)).len() + encode_utf8(seq![w]).len() <= e.input.len(),
        e.input.subrange(
            e.pos,
            e.pos + encode_utf8(int_decimal(i)).len() + encode_utf8(seq![w]).len(),
        ) == encode_utf8(int_decimal(i)) + encode_utf8(seq![w]),
    ensures
        ip_turn(e, c).1.stack == c.stack.push(i),
        ip_turn(e, c).0 == (EnvState {
            pos: e.pos + encode_utf8(int_decimal(i)).len() + encode_utf8(seq![w]).len(),
            ..e
        }),
{
    lemma_decodes('&', Op::GetNum);
    let t = int_decimal(i);
    let m = encode_utf8(seq![w]).len();
    lemma_decimal_no_white_space(i);
    lemma_decimal_round_trip(i);
    let ch = t[0];
    let rest = t.drop_first();
    lemma_encode_first(t);
    let k = encode_utf8(seq![ch]).len();
    encode_utf8_first_scalar(seq![ch]);
    assert(e.input.subrange(e.pos, e.pos + k) =~= encode_utf8(seq![ch]));
    lemma_read_encoded_char(e.input, e.pos, ch);
    assert(!white_space(ch));
    assert(skip_white_space(e.input, e.pos) == (Some(ch), e.pos + k));
    assert(forall|j: int| 0 <= j < rest.len() ==> rest[j] == t[j + 1]);
    assert(encode_utf8(t) + encode_utf8(seq![w]) =~= encode_utf8(seq![ch]) + (encode_utf8(rest)
        + encode_utf8(seq![w])));
    assert((encode_utf8(rest) + encode_utf8(seq![w])).len() == encode_utf8(rest).len() + m);
    lemma_subrange_tail(e.input, e.pos, encode_utf8(seq![ch]), encode_utf8(rest) + encode_utf8(seq![w]));
    lemma_read_token_encoded(e.input, e.pos + k, rest, w, seq![ch]);
    assert(seq![ch] + rest =~= t);
    assert(read_number_spec(e.input, e.pos) == (Some(i), e.pos + k + encode_utf8(rest).len() + m));
}

/// A capital letter `A`..`Z` is no instruction: the IP moves on with its
/// stack and direction, and the first time its code is met one warning line
/// goes to the error stream; after that nothing is written.
pub proof fn lemma_unknown_glyph_turn(e: EnvState, c: IpState, ch: char)
    requires
        turn_on(e, c, ch),
        'A' <= ch <= 'Z',
    ensures
        ip_turn(e, c).1.stack == c.stack,
        (ip_turn(e, c).1.dx, ip_turn(e, c).1.dy) == (c.dx, c.dy),
        !e.warned.contains(ch as u32) ==> ip_turn(e, c).0 == (EnvState {
            warned: e.warned.insert(ch as u32),
            err: e.err + warning_text(ch as u32),
            ..e
        }),
        e.warned.contains(ch as u32) ==> ip_turn(e, c).0 == e,
{
    vstd::utf8::char_is_scalar(ch);
    assert forall|op: Op| !is_glyph_of(ch, op) by {
    }
    assert(glyph_op(ch) == Op::Unknown);
    assert(decode_spec(ch as int) == (Op::Unknown, 0u32));
}

/// A lone IP on `t`: after the tick there are two IPs, the parent (moved one
/// cell on) first and the spawned IP second, one cell behind the `t`,
/// heading the other way, with an empty stack.
pub proof fn lemma_split_tick(s: VmState, c: IpState)
    requires
        s.ips == seq![c],
        s.env.pending.len() == 0,
        turn_on(s.env, c, 't'),
    ensures
        tick(s).ips == seq![
            IpState { x: wrapping_add(c.x, c.dx), y: wrapping_add(c.y, c.dy), ..c },
            IpState {
                x: wrapping_sub(c.x, c.dx),
                y: wrapping_sub(c.y, c.dy),
                dx: wrapping_sub(0, c.dx),
                dy: wrapping_sub(0, c.dy),
                stack: Seq::empty(),
                strmode: false,
                halted: false,
            },
        ],
        tick(s).env.pending.len() == 0,
        tick(s).halted == s.halted,
{
    lemma_split_turn(s.env, c);
    let t = turns(s, 1);
    assert(turns(s, 0) == s);
    let all = t.ips + t.env.pending;
    assert(all.len() == 2);
    assert(all.drop_last().drop_last() =~= Seq::<IpState>::empty());
    assert(live(all) =~= live(all.drop_last()).push(all.last()));
    assert(live(all.drop_last()) =~= live(all.drop_last().drop_last()).push(all[0]));
}

/// A lone IP on `@`: after the tick no IP is left and the VM has halted.
pub proof fn lemma_halt_tick(s: VmState, c: IpState)
    requires
        s.ips == seq![c],
        s.env.pending.len() == 0,
        turn_on(s.env, c, '@'),
    ensures
        tick(s).ips.len() == 0,
        tick(s).halted,
{
    lemma_nop_trampoline_halt_turn(s.env, c, '@');
    let t = turns(s, 1);
    assert(turns(s, 0) == s);
    assert(t.ips == s.ips.update(0, ip_turn(s.env, c).1));
    assert(t.ips[0].halted);
    assert(t.env == s.env);
    let all = t.ips + t.env.pending;
    assert(all =~= seq![t.ips[0]]);
    assert(all.drop_last() =~= Seq::<IpState>::empty());
    assert(live(all) == live(all.drop_last()));
    assert(live(Seq::<IpState>::empty()) =~= Seq::<IpState>::empty());
}

/// IPs take their turns oldest first: two IPs on `,` cells write their
/// characters in birth order.
pub proof fn lemma_turns_in_birth_order(s: VmState, c1: IpState, c2: IpState, a1: int, a2: int)
    requires
        s.ips == seq![c1, c2],
        turn_on(s.env, c1, ','),
        turn_on(s.env, c2, ','),
        c1.stack.len() > 0 && c1.stack.last() == a1,
        c2.stack.len() > 0 && c2.stack.last() == a2,
        is_scalar_value(a1),
        is_scalar_value(a2),
    ensures
        tick(s).env.out == s.env.out.push(a1 as char).push(a2 as char),
{
    assert(c1.stack =~= c1.stack.drop_last().push(a1));
    assert(c2.stack =~= c2.stack.drop_last().push(a2));
    lemma_output_turn(s.env, c1, c1.stack.drop_last(), a1, ',');
    let t1 = turns(s, 1);
    assert(turns(s, 0) == s);
    assert(t1.env == (EnvState { out: s.env.out.push(a1 as char), ..s.env }));
    assert(t1.ips[1] == c2);
    assert(turn_on(t1.env, c2, ','));
    lemma_output_turn(t1.env, c2, c2.stack.drop_last(), a2, ',');
}

/// How a run ends: exit `Success` exactly when every IP halted; otherwise
/// the step budget was used up (or the counter is full).
pub proof fn lemma_run_exit(s0: VmState, k: nat)
    requires
        run_of(s0, k),
    ensures
        exit_of(ticks(s0, k)) == ExitCode::Success <==> ticks(s0, k).halted,
        exit_of(ticks(s0, k)) == ExitCode::MaxSteps ==> ticks(s0, k).steps == u64::MAX || (
        s0.max_steps is Some && ticks(s0, k).steps >= s0.max_steps->0),
        ExitCode::Success.code_spec() == 0,
        ExitCode::MaxSteps.code_spec() == 124,
{
    lemma_ticks_keep_budget(s0, k);
}

/// Ticks keep the step budget.
proof fn lemma_ticks_keep_budget(s0: VmState, k: nat)
    ensures
        ticks(s0, k).max_steps == s0.max_steps,
    decreases k,
{
    if k > 0 {
        lemma_ticks_keep_budget(s0, (k - 1) as nat);
        lemma_turns_frame(ticks(s0, (k - 1) as nat), ticks(s0, (k - 1) as nat).ips.len());
    }
}

/// Unifying line ends leaves no `\r`, and leaves a text without `\r` as it is.
proof fn lemma_unify_no_cr(s: Seq<char>)
    ensures
        forall|i: int| 0 <= i < unify_line_ends(s).len() ==> #[trigger] unify_line_ends(s)[i] != '\r',
        (forall|i: int| 0 <= i < s.len() ==> #[trigger] s[i] != '\r') ==> unify_line_ends(s) == s,
    decreases s.len(),
{
    if s.len() > 0 {
        let k: int = if s[0] == '\r' && s.len() > 1 && s[1] == '\n' {
            2
        } else {
            1
        };
        lemma_unify_no_cr(s.skip(k));
        let head = if s[0] == '\r' {
            '\n'
        } else {
            s[0]
        };
        let u = unify_line_ends(s.skip(k));
        assert(unify_line_ends(s) == seq![head] + u);
        assert forall|i: int| 0 <= i < unify_line_ends(s).len() implies #[trigger] unify_line_ends(s)[i]
            != '\r' by {
            if i > 0 {
                assert(unify_line_ends(s)[i] == u[i - 1]);
            }
        }
        if forall|i: int| 0 <= i < s.len() ==> #[trigger] s[i] != '\r' {
            assert(forall|i: int| 0 <= i < s.skip(1).len() ==> s.skip(1)[i] == s[i + 1]);
            assert(seq![s[0]] + s.skip(1) =~= s);
        }
    }
}

/// What follows the first line end holds no `\r` when the text holds none.
proof fn lemma_after_first_line_no_cr(s: Seq<char>)
    requires
        forall|i: int| 0 <= i < s.len() ==> #[trigger] s[i] != '\r',
    ensures
        forall|i: int| 0 <= i < after_first_line(s).len() ==> #[trigger] after_first_line(s)[i] != '\r',
    decreases s.len(),
{
    if s.len() > 0 {
        let t = s.skip(1);
        assert forall|i: int| 0 <= i < t.len() implies #[trigger] t[i] != '\r' by {
            assert(t[i] == s[i + 1]);
        }
        if s[0] != '\n' {
            lemma_after_first_line_no_cr(t);
            assert(after_first_line(s) == after_first_line(t));
        } else {
            assert(after_first_line(s) == t);
        }
        assert forall|i: int| 0 <= i < after_first_line(s).len() implies #[trigger] after_first_line(
            s,
        )[i] != '\r' by {
            if s[0] == '\n' {
                assert(after_first_line(s)[i] == t[i]);
            } else {
                assert(after_first_line(s)[i] == after_first_line(t)[i]);
            }
        }
    }
}

/// Normalized source holds no `\r`; a text with no byte-order mark, no `\r`
/// and no `#!` at its start is already normalized.
pub proof fn lemma_normalized(s: Seq<char>)
    ensures
        forall|i: int| 0 <= i < normalize_spec(s).len() ==> #[trigger] normalize_spec(s)[i] != '\r',
        (forall|i: int| 0 <= i < s.len() ==> #[trigger] s[i] != '\r') && !(s.len() > 0 && s[0]
            == '\u{feff}') && !(s.len() >= 2 && s[0] == '#' && s[1] == '!') ==> normalize_spec(s)
            == s,
{
    let b = strip_bom(s);
    lemma_unify_no_cr(b);
    let t = unify_line_ends(b);
    if t.len() >= 2 && t[0] == '#' && t[1] == '!' {
        assert(forall|i: int| 0 <= i < t.skip(2).len() ==> t.skip(2)[i] == t[i + 2]);
        lemma_after_first_line_no_cr(t.skip(2));
    }
}

/// Laying out text that holds no line end after text that ends at column 0
/// of row `r` puts each of its characters other than a space at its column
/// in row `r`, and adds nothing else.
proof fn lemma_layout_row(pre: Seq<char>, t: Seq<char>, r: int)
    requires
        position_after(pre) == (0int, r),
        pre.len() + t.len() < i64::MAX,
        forall|i: int| 0 <= i < t.len() ==> #[trigger] t[i] != '\n',
    ensures
        position_after(pre + t) == (t.len() as int, r),
        forall|x: i64, y: i64|
            #![trigger layout(pre + t).contains_key((x, y))]
            layout(pre + t).contains_key((x, y)) <==> (layout(pre).contains_key((x, y)) || (y == r
                && 0 <= x < t.len() && t[x as int] != ' ')),
        forall|x: i64|
            0 <= x < t.len() && t[x as int] != ' ' ==> #[trigger] layout(pre + t)[(x, r as i64)]
                == t[x as int] as int,
        forall|x: i64, y: i64|
            y != r && #[trigger] layout(pre).contains_key((x, y)) ==> layout(pre + t)[(x, y)]
                == layout(pre)[(x, y)],
    decreases t.len(),
{
    lemma_position_bounds(pre);
    if t.len() == 0 {
        assert(pre + t =~= pre);
    } else {
        let u = t.drop_last();
        assert(forall|i: int| 0 <= i < u.len() ==> u[i] == t[i]);
        lemma_layout_row(pre, u, r);
        assert((pre + t).drop_last() =~= pre + u);
        assert((pre + t).last() == t.last());
        let ch = t.last();
        let k = (u.len() as i64, r as i64);
        assert(k.0 as int == u.len() && k.1 as int == r);
        let g = layout(pre + u);
        assert(layout(pre + t) == if ch == ' ' {
            g
        } else {
            g.insert(k, ch as int)
        });
        assert forall|x: i64, y: i64|
            layout(pre + t).contains_key((x, y)) <==> (layout(pre).contains_key((x, y)) || (y == r
                && 0 <= x < t.len() && t[x as int] != ' ')) by {
            assert(g.contains_key((x, y)) <==> (layout(pre).contains_key((x, y)) || (y == r && 0 <= x
                < u.len() && u[x as int] != ' ')));
        }
        assert forall|x: i64|
            0 <= x < t.len() && t[x as int] != ' ' implies #[trigger] layout(pre + t)[(x, r as i64)]
                == t[x as int] as int by {
            if (x as int) < u.len() {
                assert(g[(x, r as i64)] == u[x as int] as int);
            }
        }
    }
}

/// A one-line text: each character other than a space sits at its column in
/// row 0, and no other cell is set.
pub proof fn lemma_layout_line(t: Seq<char>)
    requires
        t.len() < i64::MAX,
        forall|i: int| 0 <= i < t.len() ==> #[trigger] t[i] != '\n',
    ensures
        forall|x: i64, y: i64|
            #![trigger layout(t).contains_key((x, y))]
            layout(t).contains_key((x, y)) <==> (y == 0 && 0 <= x < t.len() && t[x as int] != ' '),
        forall|x: i64|
            0 <= x < t.len() && t[x as int] != ' ' ==> #[trigger] layout(t)[(x, 0)] == t[x as int] as int,
{
    let pre = Seq::<char>::empty();
    lemma_layout_row(pre, t, 0);
    assert(pre + t =~= t);
}

/// A line end starts the next row: in `a`, a line end, then `b` (neither
/// holding a line end), the characters of `b` sit in row 1 at their columns
/// and those of `a` stay in row 0.
pub proof fn lemma_layout_two_lines(a: Seq<char>, b: Seq<char>)
    requires
        a.len() + b.len() + 1 < i64::MAX,
        forall|i: int| 0 <= i < a.len() ==> #[trigger] a[i] != '\n',
        forall|i: int| 0 <= i < b.len() ==> #[trigger] b[i] != '\n',
    ensures
        forall|x: i64, y: i64|
            #![trigger layout(a + seq!['\n'] + b).contains_key((x, y))]
            layout(a + seq!['\n'] + b).contains_key((x, y)) <==> ((y == 0 && 0 <= x < a.len()
                && a[x as int] != ' ') || (y == 1 && 0 <= x < b.len() && b[x as int] != ' ')),
        forall|x: i64|
            0 <= x < b.len() && b[x as int] != ' ' ==> #[trigger] layout(a + seq!['\n'] + b)[(x, 1)]
                == b[x as int] as int,
        forall|x: i64|
            0 <= x < a.len() && a[x as int] != ' ' ==> #[trigger] layout(a + seq!['\n'] + b)[(x, 0)]
                == a[x as int] as int,
{
    let e = Seq::<char>::empty();
    lemma_layout_row(e, a, 0);
    assert(e + a =~= a);
    let pre = a + seq!['\n'];
    assert(pre.drop_last() =~= a);
    assert(position_after(pre) == (0int, 1int));
    assert(layout(pre) == layout(a));
    lemma_layout_row(pre, b, 1);
    assert forall|x: i64|
        0 <= x < a.len() && a[x as int] != ' ' implies #[trigger] layout(a + seq!['\n'] + b)[(x, 0)]
            == a[x as int] as int by {
        assert(layout(a).contains_key((x, 0)));
        assert(layout(a)[(x, 0)] == a[x as int] as int);
    }
}

/// A prefix without `\r` passes through line-end unification unchanged.
proof fn lemma_unify_prefix(a: Seq<char>, b: Seq<char>)
    requires
        forall|i: int| 0 <= i < a.len() ==> #[trigger] a[i] != '\r',
    ensures
        unify_line_ends(a + b) == a + unify_line_ends(b),
    decreases a.len(),
{
    if a.len() > 0 {
        let r = a.skip(1);
        assert forall|i: int| 0 <= i < r.len() implies #[trigger] r[i] != '\r' by {
            assert(r[i] == a[i + 1]);
        }
        lemma_unify_prefix(r, b);
        assert((a + b).skip(1) =~= r + b);
        assert((a + b)[0] == a[0]);
        assert(seq![a[0]] + (r + unify_line_ends(b)) =~= a + unify_line_ends(b));
    } else {
        assert(a + b =~= b);
        assert(a + unify_line_ends(b) =~= unify_line_ends(b));
    }
}

/// What follows the first line end of `a`, a line end, then `b` (with no
/// line end in `a`) is `b`.
proof fn lemma_after_line(a: Seq<char>, b: Seq<char>)
    requires
        forall|i: int| 0 <= i < a.len() ==> #[trigger] a[i] != '\n',
    ensures
        after_first_line(a + seq!['\n'] + b) == b,
    decreases a.len(),
{
    let s = a + seq!['\n'] + b;
    if a.len() > 0 {
        let r = a.skip(1);
        assert forall|i: int| 0 <= i < r.len() implies #[trigger] r[i] != '\n' by {
            assert(r[i] == a[i + 1]);
        }
        lemma_after_line(r, b);
        assert(s.skip(1) =~= r + seq!['\n'] + b);
        assert(s[0] == a[0]);
    } else {
        assert(s[0] == '\n');
        assert(s.skip(1) =~= b);
    }
}

/// `\r\n` becomes `\n`: a text with one `\r\n` and no other `\r` (and no
/// byte-order mark or `#` at its start) normalizes to the same text with
/// `\n` in its place.
pub proof fn lemma_normalize_crlf(a: Seq<char>, b: Seq<char>)
    requires
        forall|i: int| 0 <= i < a.len() ==> #[trigger] a[i] != '\r',
        forall|i: int| 0 <= i < b.len() ==> #[trigger] b[i] != '\r',
        a.len() > 0 ==> a[0] != '\u{feff}' && a[0] != '#',
    ensures
        normalize_spec(a + seq!['\r', '\n'] + b) == a + seq!['\n'] + b,
{
    let s = a + seq!['\r', '\n'] + b;
    assert(s == a + (seq!['\r', '\n'] + b));
    assert(strip_bom(s) == s);
    lemma_unify_prefix(a, seq!['\r', '\n'] + b);
    let t = seq!['\r', '\n'] + b;
    assert(t.skip(2) =~= b);
    lemma_unify_no_cr(b);
    assert(unify_line_ends(t) == seq!['\n'] + b);
    assert(a + (seq!['\n'] + b) =~= a + seq!['\n'] + b);
    let u = a + seq!['\n'] + b;
    assert(unify_line_ends(s) == u);
    if a.len() == 0 {
        assert(u[0] == '\n');
    } else {
        assert(u[0] == a[0]);
    }
}

/// A first line that starts with `#!` is dropped with its line end.
pub proof fn lemma_normalize_shebang(a: Seq<char>, b: Seq<char>)
    requires
        forall|i: int| 0 <= i < a.len() ==> #[trigger] a[i] != '\r' && a[i] != '\n',
        forall|i: int| 0 <= i < b.len() ==> #[trigger] b[i] != '\r',
    ensures
        normalize_spec(seq!['#', '!'] + a + seq!['\n'] + b) == b,
{
    let s = seq!['#', '!'] + a + seq!['\n'] + b;
    assert(s[0] == '#');
    assert(strip_bom(s) == s);
    assert forall|i: int| 0 <= i < s.len() implies #[trigger] s[i] != '\r' by {
        if 2 <= i < 2 + a.len() {
            assert(s[i] == a[i - 2]);
        } else if i > 2 + a.len() {
            assert(s[i] == b[i - 3 - a.len()]);
        }
    }
    lemma_unify_no_cr(s);
    assert(s.skip(2) =~= a + seq!['\n'] + b);
    lemma_after_line(a, b);
}

} // verus!
