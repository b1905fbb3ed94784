//! The debugger's screen: a window on the grid around the oldest IP, the VM
//! state, the oldest IP's stack, and what the program wrote so far.

use crate::debugger::{dir_name, dir_name_spec};
use crate::grid::{cell_of, Grid};
use crate::machine::{IpContext, IpState};
use crate::vm::{first_or_root, Vm, VmState};
use crate::opcodes::{decode_cell, decode_spec, op_name, Op};
use crate::text::{
    char_debug, char_debug_text, char_from_u32, char_is_control, control_char, hex4, hex4_string,
    is_scalar_value, push_char, repeat_char, to_chars,
};
use crate::value::{int_decimal, Int};
use vstd::wrapping::i64_specs::{wrapping_add, wrapping_sub};
use vstd::prelude::*;

verus! {

/// Index of the first `\n` in `s`, or its length when there is none.
pub open spec fn line_end(s: Seq<char>) -> nat
    decreases s.len(),
{
    if s.len() == 0 {
        0
    } else if s[0] == '\n' {
        0
    } else {
        1 + line_end(s.skip(1))
    }
}

/// A line without the `\r` of a `\r\n` ending.
pub open spec fn strip_cr(line: Seq<char>) -> Seq<char> {
    if line.len() > 0 && line.last() == '\r' {
        line.drop_last()
    } else {
        line
    }
}

/// The lines of a text as `str::lines` gives them: split at `\n` (a `\r`
/// before it is dropped), with no empty last line after a final `\n`.
pub open spec fn text_lines(s: Seq<char>) -> Seq<Seq<char>>
    decreases s.len(),
{
    if s.len() == 0 {
        Seq::empty()
    } else {
        let e = line_end(s);
        if e < s.len() {
            seq![strip_cr(s.take(e as int))] + text_lines(s.skip(e as int + 1))
        } else {
            seq![s]
        }
    }
}

/// Each line framed as a panel row: `│ `, the line, a line end.
pub open spec fn boxed_lines(ls: Seq<Seq<char>>) -> Seq<char>
    decreases ls.len(),
{
    if ls.len() == 0 {
        Seq::empty()
    } else {
        boxed_lines(ls.drop_last()) + "│ "@ + ls.last() + "\n"@
    }
}

/// The panel showing what the program wrote.
pub open spec fn stdout_panel(captured: Seq<char>) -> Seq<char> {
    "┌─ program stdout ─────\n"@ + (if captured.len() == 0 {
        "│ (no output)\n"@
    } else {
        boxed_lines(text_lines(captured))
    }) + "└──────────────────────\n"@
}

/// The line end of `s` is at `e` when `e` is the first `\n` (or the end).
pub proof fn lemma_line_end_at(s: Seq<char>, e: int)
    requires
        0 <= e <= s.len(),
        e < s.len() ==> s[e] == '\n',
        forall|j: int| 0 <= j < e ==> s[j] != '\n',
    ensures
        line_end(s) == e,
    decreases s.len(),
{
    if s.len() > 0 && e > 0 {
        assert forall|j: int| 0 <= j < e - 1 implies s.skip(1)[j] != '\n' by {
            assert(s.skip(1)[j] == s[j + 1]);
        }
        lemma_line_end_at(s.skip(1), e - 1);
    }
}

fn append_line(out: &mut String, line: &Vec<char>, from: usize, to: usize)
    requires
        from <= to <= line@.len(),
    ensures
        final(out)@ == old(out)@ + line@.subrange(from as int, to as int),
{
    let mut k = from;
    while k < to
        invariant
            from <= k <= to,
            to <= line@.len(),
            out@ == old(out)@ + line@.subrange(from as int, k as int),
        decreases to - k,
    {
        push_char(out, line[k]);
        k = k + 1;
        assert(out@ =~= old(out)@ + line@.subrange(from as int, k as int));
    }
}

/// The panel showing what the program wrote (see `stdout_panel`).
pub fn render_stdout(captured: &str) -> (r: String)
    ensures
        r@ == stdout_panel(captured@),
{
    let chars = to_chars(captured);
    let n = chars.len();
    let mut out = String::from_str("┌─ program stdout ─────\n");
    let ghost header = out@;
    if n == 0 {
        out.append("│ (no output)\n");
    } else {
        let ghost s = chars@;
        let ghost mut emitted: Seq<Seq<char>> = Seq::empty();
        let mut start: usize = 0;
        let mut i: usize = 0;
        assert(s.skip(0) =~= s);
        assert(emitted + text_lines(s) =~= text_lines(s));
        while i < n
            invariant
                start <= i <= n,
                n == chars@.len(),
                s == chars@,
                out@ == header + boxed_lines(emitted),
                text_lines(s) == emitted + text_lines(s.skip(start as int)),
                forall|j: int| start <= j < i ==> s[j] != '\n',
            decreases n - i,
        {
            if chars[i] == '\n' {
                let ghost rest = s.skip(start as int);
                proof {
                    lemma_line_end_at(rest, i - start);
                    assert(rest.take(i - start) =~= s.subrange(start as int, i as int));
                    assert(rest.skip(i - start + 1) =~= s.skip(i + 1));
                }
                let ghost line = strip_cr(s.subrange(start as int, i as int));
                let mut end = i;
                if end > start && chars[end - 1] == '\r' {
                    end = end - 1;
                }
                assert(s.subrange(start as int, end as int) =~= line);
                out.append("│ ");
                append_line(&mut out, &chars, start, end);
                out.append("\n");
                proof {
                    assert(emitted.push(line).drop_last() =~= emitted);
                    assert(out@ =~= header + boxed_lines(emitted.push(line)));
                    assert(emitted + text_lines(rest) =~= emitted.push(line) + text_lines(
                        s.skip(i + 1),
                    ));
                    emitted = emitted.push(line);
                }
                start = i + 1;
            }
            i = i + 1;
        }
        if start < n {
            let ghost rest = s.skip(start as int);
            proof {
                lemma_line_end_at(rest, n - start);
                assert(rest =~= s.subrange(start as int, n as int));
            }
            out.append("│ ");
            append_line(&mut out, &chars, start, n);
            out.append("\n");
            proof {
                assert(emitted.push(rest).drop_last() =~= emitted);
                assert(out@ =~= header + boxed_lines(emitted.push(rest)));
                assert(text_lines(s) =~= emitted.push(rest));
                emitted = emitted.push(rest);
            }
        } else {
            assert(s.skip(start as int) =~= Seq::<char>::empty());
            assert(text_lines(s) =~= emitted);
        }
        assert(out@ == header + boxed_lines(text_lines(s)));
    }
    out.append("└──────────────────────\n");
    out
}

/// Columns and rows of the grid window.
pub const VIEWPORT_COLS: i64 = 60;

pub const VIEWPORT_ROWS: i64 = 13;

/// Clears the terminal and homes the cursor.
pub const CLEAR_SCREEN: &'static str = "\x1b[2J\x1b[H";

/// Starts and ends reverse video, which marks the IP's cell.
pub const REVERSE_ON: &'static str = "\x1b[7m";

pub const REVERSE_OFF: &'static str = "\x1b[0m";

/// The decimal text of an `i64`.
pub open spec fn dec(v: int) -> Seq<char> {
    int_decimal(v)
}

fn decimal_i64(v: i64) -> (r: String)
    ensures
        r@ == dec(v as int),
{
    Int::from_i64(v).to_decimal()
}

fn decimal_u64(v: u64) -> (r: String)
    ensures
        r@ == dec(v as int),
{
    Int::from_u64(v).to_decimal()
}

/// The top `k` values of a stack, one panel row each, top first.
pub open spec fn stack_rows(stack: Seq<int>, k: nat) -> Seq<char>
    decreases k,
{
    if k == 0 {
        Seq::empty()
    } else {
        stack_rows(stack, (k - 1) as nat) + "│ "@ + dec(stack[stack.len() - k]) + "\n"@
    }
}

/// The panel showing a stack: at most its top 20 values, top first, and how
/// many more lie below.
pub open spec fn stack_panel(stack: Seq<int>) -> Seq<char> {
    let show: nat = if stack.len() < 20 {
        stack.len()
    } else {
        20
    };
    "┌─ stack (top first) ─\n"@ + (if stack.len() == 0 {
        "│ (empty)\n"@
    } else {
        stack_rows(stack, show) + (if stack.len() > show {
            "│ ... (+"@ + dec(stack.len() - show) + " below)\n"@
        } else {
            Seq::empty()
        })
    }) + "└─────────────────────\n"@
}

/// The panel showing a stack (see `stack_panel`).
pub fn render_stack(stack: &Vec<Int>) -> (r: String)
    ensures
        r@ == stack_panel(stack@.map_values(|v: Int| v@)),
{
    let ghost vals = stack@.map_values(|v: Int| v@);
    let n = stack.len();
    let mut out = String::from_str("┌─ stack (top first) ─\n");
    let ghost header = out@;
    if n == 0 {
        out.append("│ (empty)\n");
    } else {
        let show: usize = if n < 20 {
            n
        } else {
            20
        };
        let mut k: usize = 0;
        while k < show
            invariant
                k <= show <= n,
                n == stack@.len(),
                vals == stack@.map_values(|v: Int| v@),
                out@ == header + stack_rows(vals, k as nat),
            decreases show - k,
        {
            let ghost before = out@;
            out.append("│ ");
            out.append(stack[n - 1 - k].to_decimal().as_str());
            out.append("\n");
            k = k + 1;
            assert(out@ =~= header + stack_rows(vals, k as nat));
        }
        if n > show {
            out.append("│ ... (+");
            out.append(decimal_u64((n - show) as u64).as_str());
            out.append(" below)\n");
        }
    }
    out.append("└─────────────────────\n");
    assert(out@ =~= stack_panel(vals));
    out
}

/// The character shown for a cell value: the character itself when it is a
/// printable one, else a space.
pub open spec fn display_char(v: int) -> char {
    if 0 <= v <= u32::MAX && is_scalar_value(v) && !control_char(v as char) && (v as char) != '\t'
        && (v as char) != '\n' {
        v as char
    } else {
        ' '
    }
}

/// The text shown for the cell `(x, y)`, in reverse video at the IP's cell.
pub open spec fn cell_text(g: Map<(i64, i64), int>, x: i64, y: i64, px: i64, py: i64) -> Seq<char> {
    let ch = display_char(cell_of(g, x, y));
    if x == px && y == py {
        REVERSE_ON@ + seq![ch] + REVERSE_OFF@
    } else {
        seq![ch]
    }
}

/// The first `n` cells of the window row `y`, from column `x0`.
pub open spec fn row_cells(g: Map<(i64, i64), int>, x0: i64, y: i64, px: i64, py: i64, n: nat) -> Seq<
    char,
>
    decreases n,
{
    if n == 0 {
        Seq::empty()
    } else {
        row_cells(g, x0, y, px, py, (n - 1) as nat) + cell_text(
            g,
            wrapping_add(x0, (n - 1) as i64),
            y,
            px,
            py,
        )
    }
}

/// The first `m` rows of the window, from row `y0`, each framed by bars.
pub open spec fn grid_rows(g: Map<(i64, i64), int>, x0: i64, y0: i64, px: i64, py: i64, m: nat) -> Seq<
    char,
>
    decreases m,
{
    if m == 0 {
        Seq::empty()
    } else {
        grid_rows(g, x0, y0, px, py, (m - 1) as nat) + "│ "@ + row_cells(
            g,
            x0,
            wrapping_add(y0, (m - 1) as i64),
            px,
            py,
            VIEWPORT_COLS as nat,
        ) + " │\n"@
    }
}

/// `s` with spaces before it up to `w` characters.
pub open spec fn right_aligned(s: Seq<char>, w: nat) -> Seq<char> {
    if s.len() >= w {
        s
    } else {
        repeat_char(' ', (w - s.len()) as nat) + s
    }
}

/// The panel showing the grid window centred on `(px, py)`.
pub open spec fn grid_panel(g: Map<(i64, i64), int>, px: i64, py: i64) -> Seq<char> {
    "┌─ grid "@ + right_aligned("("@ + dec(px as int) + ", "@ + dec(py as int) + ")  "@, 52)
        + "\n"@ + grid_rows(g, wrapping_sub(px, 30), wrapping_sub(py, 6), px, py, VIEWPORT_ROWS as nat)
        + "└"@ + repeat_char('─', 62) + "\n"@
}

fn display_char_exec(v: &Int) -> (c: char)
    ensures
        c == display_char(v@),
{
    match v.to_u32() {
        Some(cp) => match char_from_u32(cp) {
            Some(ch) => {
                if !char_is_control(ch) && ch != '\t' && ch != '\n' {
                    ch
                } else {
                    ' '
                }
            },
            None => ' ',
        },
        None => ' ',
    }
}

/// The panel showing the grid window centred on `(px, py)` (see `grid_panel`).
pub fn render_grid(grid: &Grid, px: i64, py: i64) -> (r: String)
    ensures
        r@ == grid_panel(grid@, px, py),
{
    let mut pos = String::from_str("(");
    pos.append(decimal_i64(px).as_str());
    pos.append(", ");
    pos.append(decimal_i64(py).as_str());
    pos.append(")  ");
    let len = pos.as_str().unicode_len();
    let mut out = String::from_str("┌─ grid ");
    let ghost head = out@;
    if len < 52 {
        let mut k = len;
        while k < 52
            invariant
                len <= k <= 52,
                out@ == head + repeat_char(' ', (k - len) as nat),
            decreases 52 - k,
        {
            push_char(&mut out, ' ');
            k = k + 1;
            assert(out@ =~= head + repeat_char(' ', (k - len) as nat));
        }
    }
    out.append(pos.as_str());
    out.append("\n");
    let x0 = px.wrapping_sub(30);
    let y0 = py.wrapping_sub(6);
    let ghost top = out@;
    let mut r: i64 = 0;
    while r < VIEWPORT_ROWS
        invariant
            0 <= r <= VIEWPORT_ROWS,
            x0 == wrapping_sub(px, 30),
            y0 == wrapping_sub(py, 6),
            out@ == top + grid_rows(grid@, x0, y0, px, py, r as nat),
        decreases VIEWPORT_ROWS - r,
    {
        let y = y0.wrapping_add(r);
        out.append("│ ");
        let ghost row_start = out@;
        let mut c: i64 = 0;
        while c < VIEWPORT_COLS
            invariant
                0 <= c <= VIEWPORT_COLS,
                y == wrapping_add(y0, r),
                out@ == row_start + row_cells(grid@, x0, y, px, py, c as nat),
            decreases VIEWPORT_COLS - c,
        {
            let x = x0.wrapping_add(c);
            let ch = display_char_exec(&grid.get(x, y));
            if x == px && y == py {
                out.append(REVERSE_ON);
                push_char(&mut out, ch);
                out.append(REVERSE_OFF);
            } else {
                push_char(&mut out, ch);
            }
            c = c + 1;
            assert(out@ =~= row_start + row_cells(grid@, x0, y, px, py, c as nat));
        }
        out.append(" │\n");
        r = r + 1;
        assert(out@ =~= top + grid_rows(grid@, x0, y0, px, py, r as nat));
    }
    out.append("└");
    let ghost before_bar = out@;
    let mut k: usize = 0;
    while k < 62
        invariant
            k <= 62,
            out@ == before_bar + repeat_char('─', k as nat),
        decreases 62 - k,
    {
        push_char(&mut out, '─');
        k = k + 1;
        assert(out@ =~= before_bar + repeat_char('─', k as nat));
    }
    out.append("\n");
    assert(out@ =~= grid_panel(grid@, px, py));
    out
}

/// The op line of the state panel: the opcode's name, and the digit's value
/// for `PUSH_DIGIT`.
pub open spec fn op_line(op: Op, operand: u32) -> Seq<char> {
    if op == Op::PushDigit {
        "│ op:     "@ + op_name(op) + " (value="@ + dec(operand as int) + ")"@
    } else {
        "│ op:     "@ + op_name(op)
    }
}

/// The panel showing the VM state for the IP `c`.
pub open spec fn status_panel(g: Map<(i64, i64), int>, c: IpState, steps: u64, halted: bool) -> Seq<
    char,
> {
    let cell = cell_of(g, c.x, c.y);
    let cp: u32 = if 0 <= cell <= u32::MAX {
        cell as u32
    } else {
        0
    };
    let shown = if is_scalar_value(cp as int) {
        cp as char
    } else {
        '?'
    };
    let d = decode_spec(cell);
    "┌─ state ─────\n"@ + "│ step:   "@ + dec(steps as int) + "\n"@ + "│ ip:     ("@ + dec(c.x as int)
        + ", "@ + dec(c.y as int) + ")\n"@ + "│ dir:    "@ + dir_name_spec(c.dx, c.dy) + "\n"@
        + "│ strmod: "@ + (if c.strmode {
        "on"@
    } else {
        "off"@
    }) + "\n"@ + "│ halted: "@ + (if halted {
        "yes"@
    } else {
        "no"@
    }) + "\n"@ + "│ cell:   "@ + char_debug_text(shown) + " (U+"@ + hex4(cp as nat) + ")\n"@ + op_line(
        d.0,
        d.1,
    ) + "\n"@ + "└─────────────\n"@
}

/// The panel showing the VM state for the IP `c` (see `status_panel`).
pub fn render_status(grid: &Grid, x: i64, y: i64, dx: i64, dy: i64, strmode: bool, steps: u64, halted: bool) -> (r: String)
    ensures
        forall|c: IpState|
            c.x == x && c.y == y && c.dx == dx && c.dy == dy && c.strmode == strmode ==> r@
                == #[trigger] status_panel(grid@, c, steps, halted),
{
    let cell = grid.get(x, y);
    let cp: u32 = match cell.to_u32() {
        Some(v) => v,
        None => 0,
    };
    let shown = match char_from_u32(cp) {
        Some(c) => c,
        None => '?',
    };
    let (op, operand) = decode_cell(&cell);
    let mut out = String::from_str("┌─ state ─────\n");
    out.append("│ step:   ");
    out.append(decimal_u64(steps).as_str());
    out.append("\n");
    out.append("│ ip:     (");
    out.append(decimal_i64(x).as_str());
    out.append(", ");
    out.append(decimal_i64(y).as_str());
    out.append(")\n");
    out.append("│ dir:    ");
    out.append(dir_name(dx, dy));
    out.append("\n");
    out.append("│ strmod: ");
    out.append(
        if strmode {
            "on"
        } else {
            "off"
        },
    );
    out.append("\n");
    out.append("│ halted: ");
    out.append(
        if halted {
            "yes"
        } else {
            "no"
        },
    );
    out.append("\n");
    out.append("│ cell:   ");
    out.append(char_debug(shown).as_str());
    out.append(" (U+");
    out.append(hex4_string(cp).as_str());
    out.append(")\n");
    out.append("│ op:     ");
    out.append(op.name());
    if op == Op::PushDigit {
        out.append(" (value=");
        out.append(decimal_u64(operand as u64).as_str());
        out.append(")");
    }
    out.append("\n");
    out.append("└─────────────\n");
    assert forall|c: IpState|
        c.x == x && c.y == y && c.dx == dx && c.dy == dy && c.strmode == strmode implies out@
            == #[trigger] status_panel(grid@, c, steps, halted) by {
        assert(out@ =~= status_panel(grid@, c, steps, halted));
    }
    out
}

/// The heading line of the debugger screen.
pub const HEADER: &'static str = "windy debugger — [Enter]/s: step  c: run-to-halt  q: quit\n";

/// The whole debugger screen for a VM state, centred on its oldest IP.
#[verifier::opaque]
pub open spec fn frame_text(s: VmState) -> Seq<char> {
    let c = first_or_root(s);
    CLEAR_SCREEN@ + HEADER@ + grid_panel(s.env.grid, c.x, c.y) + status_panel(
        s.env.grid,
        c,
        s.steps,
        s.halted,
    ) + stack_panel(c.stack) + stdout_panel(s.env.out)
}

/// The whole debugger screen (see `frame_text`).
pub fn render_frame(vm: &Vm) -> (r: String)
    ensures
        r@ == frame_text(vm@),
{
    let empty: Vec<Int> = Vec::new();
    let (x, y, dx, dy, strmode, stack): (i64, i64, i64, i64, bool, &Vec<Int>) = match vm.first_ip() {
        Some(c) => (c.ip.x, c.ip.y, c.ip.dx, c.ip.dy, c.strmode, &c.stack),
        None => (0, 0, 1, 0, false, &empty),
    };
    let ghost c = first_or_root(vm@);
    assert(stack@.map_values(|v: Int| v@) =~= c.stack);
    let mut out = String::from_str(CLEAR_SCREEN);
    out.append(HEADER);
    out.append(render_grid(vm.grid(), x, y).as_str());
    out.append(render_status(vm.grid(), x, y, dx, dy, strmode, vm.steps(), vm.halted()).as_str());
    out.append(render_stack(stack).as_str());
    out.append(render_stdout(vm.stdout()).as_str());
    assert(out@ =~= frame_text(vm@)) by {
        reveal(frame_text);
    }
    out
}

} // verus!
