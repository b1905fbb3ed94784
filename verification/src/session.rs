//! A stepper over one program, for front ends that show the VM between ticks,
//! and a batch entry point that returns everything a run wrote.

use crate::easter::{banner, banner_text, contains_text, detect, SIGNATURE, VERSION};
use crate::grid::SPACE;
use crate::grid::cell_of;
use crate::machine::{IpContext, IpState};
use crate::opcodes::{decode_cell, decode_spec, op_name, Op};
use crate::parser::{layout, normalize_spec, parse};
use crate::value::{int_decimal, Int};
use crate::vm::{
    first_or_root, counted_tick, exit_of, key_for, outcome_of, run_of, run_source, runs_on, source_start, ticks,
    ExitCode, RunOptions, Vm, VmState,
};
use vstd::prelude::*;
use vstd::utf8::encode_utf8;

verus! {

/// What a batch run wrote, and its exit status.
pub struct RunResult {
    stdout: String,
    stderr: String,
    exit: i32,
}

impl RunResult {
    /// What the program wrote to its output.
    pub closed spec fn out(&self) -> Seq<char> {
        self.stdout@
    }

    /// What went to the error stream.
    pub closed spec fn err(&self) -> Seq<char> {
        self.stderr@
    }

    /// The exit status.
    pub closed spec fn status(&self) -> i32 {
        self.exit
    }

    /// What the program wrote to its output.
    pub fn stdout(&self) -> (r: String)
        ensures
            r@ == self.out(),
    {
        self.stdout.clone()
    }

    /// What went to the error stream: the banner and warnings.
    pub fn stderr(&self) -> (r: String)
        ensures
            r@ == self.err(),
    {
        self.stderr.clone()
    }

    /// 0 when every IP halted, 124 when the step budget ran out.
    pub fn exit(&self) -> (r: i32)
        ensures
            r == self.status(),
    {
        self.exit
    }
}

/// Runs `source` with `stdin` as its input (see `run_source`).
pub fn run(source: &str, stdin: &str, seed: Option<u64>, max_steps: Option<u64>) -> (r: RunResult)
    requires
        source@.len() < i64::MAX,
    ensures
        exists|key: Seq<u8>, exit: ExitCode|
            #![trigger source_start(source@, encode_utf8(stdin@), max_steps, key), exit.code_spec()]
            key_for(seed, key) && outcome_of(
                source_start(source@, encode_utf8(stdin@), max_steps, key),
                exit,
                r.out(),
                r.err(),
            ) && r.status() == exit.code_spec(),
{
    let input = stdin.as_bytes_vec();
    let (exit, stdout, stderr) = run_source(source, RunOptions { seed, max_steps, stdin: input });
    RunResult { stdout, stderr, exit: exit.code() }
}

/// The version of the language and of this library.
pub fn version() -> (r: String)
    ensures
        r@ == VERSION@,
{
    String::from_str(VERSION)
}

/// A cell's value as a code, or `default` when it does not fit in `u32`.
pub open spec fn code_or(v: int, default: u32) -> u32 {
    if 0 <= v <= u32::MAX {
        v as u32
    } else {
        default
    }
}

/// `(x, y, dx, dy)` of each IP in order, one after another.
pub open spec fn flat_positions(ips: Seq<IpState>) -> Seq<i64>
    decreases ips.len(),
{
    if ips.len() == 0 {
        Seq::empty()
    } else {
        let c = ips.last();
        flat_positions(ips.drop_last()) + seq![c.x, c.y, c.dx, c.dy]
    }
}

/// One row of a grid window: the codes of the cells `(x0 + c, y)` for
/// `c < width`, with 0x20 for a value that does not fit in `u32`.
pub open spec fn window_row(g: Map<(i64, i64), int>, x0: int, y: int, width: nat) -> Seq<u32> {
    Seq::new(width, |c: int| code_or(cell_of(g, (x0 + c) as i64, y as i64), SPACE))
}

/// The rows `y0 .. y0 + height` of a grid window, one after another.
pub open spec fn window(g: Map<(i64, i64), int>, x0: int, y0: int, width: nat, height: nat) -> Seq<u32>
    decreases height,
{
    if height == 0 {
        Seq::empty()
    } else {
        window(g, x0, y0, width, (height - 1) as nat) + window_row(g, x0, y0 + height - 1, width)
    }
}

/// A count given as `u32` and read as `i32`; nothing when that is not positive.
pub open spec fn extent(n: u32) -> nat {
    if (n as i32) > 0 {
        (n as i32) as nat
    } else {
        0
    }
}

/// A program being stepped through, with its input and captured output.
pub struct Session {
    vm: Vm,
}

impl View for Session {
    type V = VmState;

    closed spec fn view(&self) -> VmState {
        self.vm@
    }
}

impl Session {
    /// The VM is between ticks and consistent.
    pub closed spec fn wf(&self) -> bool {
        self.vm.wf()
    }

    /// Parses `source`, puts the banner on the error stream if the text is
    /// signed, and readies the VM with `stdin` as the program's input.
    pub fn new(source: &str, stdin: &str, seed: Option<u64>, max_steps: Option<u64>) -> (s: Session)
        requires
            source@.len() < i64::MAX,
        ensures
            s.wf(),
            key_for(seed, s@.env.key),
            s@ == source_start(source@, encode_utf8(stdin@), max_steps, s@.env.key),
    {
        let (grid, scan_text) = parse(source);
        let signed = detect(scan_text.as_str());
        let mut vm = Vm::with_input(grid, seed, max_steps, stdin.as_bytes_vec());
        if signed {
            let mut line = banner();
            line.append("\n");
            vm.write_err(line.as_str());
            proof {
                reveal_strlit("\n");
                assert(vm@.env.err =~= banner_text() + seq!['\n']);
            }
        } else {
            assert(vm@.env.err =~= Seq::<char>::empty());
        }
        Session { vm }
    }

    /// Executes one tick and counts it; does nothing once every IP has halted
    /// or the step budget is used up.
    pub fn step(&mut self)
        requires
            old(self).wf(),
        ensures
            final(self).wf(),
            final(self)@ == if runs_on(old(self)@) {
                counted_tick(old(self)@)
            } else {
                old(self)@
            },
    {
        if self.vm.halted() {
            return ;
        }
        match self.vm.max_steps() {
            Some(cap) => {
                if self.vm.steps() >= cap {
                    return ;
                }
            },
            None => {},
        }
        if self.vm.steps() == u64::MAX {
            return ;
        }
        self.vm.counted_step();
    }

    /// Runs until every IP has halted or the step budget is used up. Returns
    /// 0 on a clean halt and 124 when the budget ran out.
    pub fn run_to_halt(&mut self) -> (r: i32)
        requires
            old(self).wf(),
        ensures
            final(self).wf(),
            exists|k: nat| run_of(old(self)@, k) && final(self)@ == #[trigger] ticks(old(self)@, k),
            r == exit_of(final(self)@).code_spec(),
    {
        let ghost start = self@;
        let code = self.vm.run();
        proof {
            let k = choose|k: nat| run_of(start, k) && self.vm@ == #[trigger] ticks(start, k);
            assert(run_of(start, k) && self@ == ticks(start, k));
        }
        code.code()
    }

    /// Whether every IP has halted.
    pub fn halted(&self) -> (r: bool)
        ensures
            r == self@.halted,
    {
        self.vm.halted()
    }

    /// Ticks executed so far.
    pub fn steps(&self) -> (r: u64)
        ensures
            r == self@.steps,
    {
        self.vm.steps()
    }

    /// Number of live IPs (as `u32`, truncated).
    pub fn ip_count(&self) -> (r: u32)
        ensures
            r == self@.ips.len() as u32,
    {
        self.vm.ips().len() as u32
    }

    /// Column of the oldest live IP (0 when none is left).
    pub fn ip_x(&self) -> (r: i64)
        ensures
            r == first_or_root(self@).x,
    {
        match self.vm.first_ip() {
            Some(c) => c.ip.x,
            None => 0,
        }
    }

    /// Row of the oldest live IP (0 when none is left).
    pub fn ip_y(&self) -> (r: i64)
        ensures
            r == first_or_root(self@).y,
    {
        match self.vm.first_ip() {
            Some(c) => c.ip.y,
            None => 0,
        }
    }

    /// Horizontal direction of the oldest live IP (1 when none is left).
    pub fn dx(&self) -> (r: i64)
        ensures
            r == first_or_root(self@).dx,
    {
        match self.vm.first_ip() {
            Some(c) => c.ip.dx,
            None => 1,
        }
    }

    /// Vertical direction of the oldest live IP (0 when none is left).
    pub fn dy(&self) -> (r: i64)
        ensures
            r == first_or_root(self@).dy,
    {
        match self.vm.first_ip() {
            Some(c) => c.ip.dy,
            None => 0,
        }
    }

    /// String mode of the oldest live IP (off when none is left).
    pub fn strmode(&self) -> (r: bool)
        ensures
            r == first_or_root(self@).strmode,
    {
        match self.vm.first_ip() {
            Some(c) => c.strmode,
            None => false,
        }
    }

    /// Stack of the oldest live IP, bottom to top, in decimal.
    pub fn stack(&self) -> (r: Vec<String>)
        ensures
            self@.ips.len() > 0 ==> r@.len() == self@.ips[0].stack.len() && forall|i: int|
                0 <= i < r@.len() ==> #[trigger] r@[i]@ == int_decimal(self@.ips[0].stack[i]),
            self@.ips.len() == 0 ==> r@.len() == 0,
    {
        self.stack_for(0)
    }

    /// Stack height of the oldest live IP (0 when none is left).
    pub fn stack_len(&self) -> (r: u32)
        ensures
            r == (if self@.ips.len() > 0 {
                self@.ips[0].stack.len() as u32
            } else {
                0
            }),
    {
        self.stack_len_for(0)
    }

    /// Stack of the IP at `ip_index` (birth order), bottom to top, in
    /// decimal; empty when there is no such IP.
    pub fn stack_for(&self, ip_index: u32) -> (r: Vec<String>)
        ensures
            ip_index < self@.ips.len() ==> r@.len() == self@.ips[ip_index as int].stack.len()
                && forall|i: int|
                0 <= i < r@.len() ==> #[trigger] r@[i]@ == int_decimal(
                    self@.ips[ip_index as int].stack[i],
                ),
            ip_index >= self@.ips.len() ==> r@.len() == 0,
    {
        let ips = self.vm.ips();
        let idx = ip_index as usize;
        let mut out: Vec<String> = Vec::new();
        if idx < ips.len() {
            let ctx: &IpContext = &ips[idx];
            let n = ctx.stack.len();
            let mut i: usize = 0;
            while i < n
                invariant
                    i <= n,
                    n == ctx.stack@.len(),
                    ctx@ == self@.ips[ip_index as int],
                    out@.len() == i,
                    forall|j: int| 0 <= j < i ==> #[trigger] out@[j]@ == int_decimal(ctx@.stack[j]),
                decreases n - i,
            {
                out.push(ctx.stack[i].to_decimal());
                i = i + 1;
            }
        }
        out
    }

    /// Stack height of the IP at `ip_index`; 0 when there is no such IP.
    pub fn stack_len_for(&self, ip_index: u32) -> (r: u32)
        ensures
            r == (if ip_index < self@.ips.len() {
                self@.ips[ip_index as int].stack.len() as u32
            } else {
                0
            }),
    {
        let ips = self.vm.ips();
        let idx = ip_index as usize;
        if idx < ips.len() {
            ips[idx].stack.len() as u32
        } else {
            0
        }
    }

    /// String mode of the IP at `ip_index`; off when there is no such IP.
    pub fn strmode_for(&self, ip_index: u32) -> (r: bool)
        ensures
            r == (ip_index < self@.ips.len() && self@.ips[ip_index as int].strmode),
    {
        let ips = self.vm.ips();
        let idx = ip_index as usize;
        if idx < ips.len() {
            ips[idx].strmode
        } else {
            false
        }
    }

    /// What the program wrote to its output so far.
    pub fn stdout(&self) -> (r: String)
        ensures
            r@ == self@.env.out,
    {
        String::from_str(self.vm.stdout())
    }

    /// What went to the error stream so far: the banner and warnings.
    pub fn stderr(&self) -> (r: String)
        ensures
            r@ == self@.env.err,
    {
        String::from_str(self.vm.stderr())
    }

    /// Name of the opcode under the oldest live IP, with the digit's value
    /// for `PUSH_DIGIT`; `—` once every IP has halted.
    pub fn current_op(&self) -> (r: String)
        ensures
            self@.ips.len() == 0 ==> r@ == "—"@,
            self@.ips.len() > 0 ==> {
                let d = decode_spec(cell_of(self@.env.grid, self@.ips[0].x, self@.ips[0].y));
                r@ == if d.0 == Op::PushDigit {
                    op_name(d.0) + " ("@ + int_decimal(d.1 as int) + ")"@
                } else {
                    op_name(d.0)
                }
            },
    {
        let ctx = match self.vm.first_ip() {
            Some(c) => c,
            None => {
                return String::from_str("—");
            },
        };
        let cell = self.vm.grid().get(ctx.ip.x, ctx.ip.y);
        let (op, operand) = decode_cell(&cell);
        let mut out = String::from_str(op.name());
        if op == Op::PushDigit {
            out.append(" (");
            out.append(Int::from_u32(operand).to_decimal().as_str());
            out.append(")");
        }
        out
    }

    /// Code of the cell under the oldest live IP (0 when none is left, or
    /// when the value does not fit in `u32`).
    pub fn current_cell(&self) -> (r: u32)
        ensures
            self@.ips.len() == 0 ==> r == 0,
            self@.ips.len() > 0 ==> r == code_or(
                cell_of(self@.env.grid, self@.ips[0].x, self@.ips[0].y),
                0,
            ),
    {
        let ctx = match self.vm.first_ip() {
            Some(c) => c,
            None => {
                return 0;
            },
        };
        match self.vm.grid().get(ctx.ip.x, ctx.ip.y).to_u32() {
            Some(v) => v,
            None => 0,
        }
    }

    /// Codes of the `width * height` cells from `(x0, y0)`, row by row; an
    /// empty cell reads as 0x20, as does a value that does not fit in `u32`.
    /// `width` and `height` are read as `i32`.
    pub fn grid_slice(&self, x0: i32, y0: i32, width: u32, height: u32) -> (r: Vec<u32>)
        ensures
            r@ == window(self@.env.grid, x0 as int, y0 as int, extent(width), extent(height)),
    {
        let w = width as i32;
        let h = height as i32;
        let grid = self.vm.grid();
        let mut out: Vec<u32> = Vec::new();
        let mut dy: i32 = 0;
        while dy < h
            invariant
                0 <= dy,
                h == height as i32,
                w == width as i32,
                dy <= extent(height),
                grid@ == self@.env.grid,
                out@ == window(self@.env.grid, x0 as int, y0 as int, extent(width), dy as nat),
            decreases h - dy,
        {
            let ghost before = out@;
            let mut dx: i32 = 0;
            while dx < w
                invariant
                    0 <= dx,
                    w == width as i32,
                    dx <= extent(width),
                    0 <= dy < h,
                    grid@ == self@.env.grid,
                    out@ == before + window_row(self@.env.grid, x0 as int, y0 + dy, extent(width)).take(
                        dx as int,
                    ),
                decreases w - dx,
            {
                let cell = grid.get(x0 as i64 + dx as i64, y0 as i64 + dy as i64);
                let code = match cell.to_u32() {
                    Some(v) => v,
                    None => SPACE,
                };
                out.push(code);
                assert(out@ =~= before + window_row(self@.env.grid, x0 as int, y0 + dy, extent(width)).take(
                    dx + 1,
                ));
                dx = dx + 1;
            }
            assert(window_row(self@.env.grid, x0 as int, y0 + dy, extent(width)).take(dx as int)
                =~= window_row(self@.env.grid, x0 as int, y0 + dy, extent(width)));
            dy = dy + 1;
        }
        out
    }

    /// `(x, y, dx, dy)` of every live IP in birth order, flattened.
    pub fn ip_positions(&self) -> (r: Vec<i64>)
        ensures
            r@ == flat_positions(self@.ips),
    {
        let ips = self.vm.ips();
        let n = ips.len();
        let mut out: Vec<i64> = Vec::new();
        let mut i: usize = 0;
        while i < n
            invariant
                i <= n,
                n == ips@.len(),
                n == self@.ips.len(),
                forall|j: int| 0 <= j < n ==> #[trigger] ips@[j]@ == self@.ips[j],
                out@ == flat_positions(self@.ips.take(i as int)),
            decreases n - i,
        {
            let c = &ips[i];
            assert(ips@[i as int]@ == self@.ips[i as int]);
            assert(self@.ips.take(i + 1).drop_last() =~= self@.ips.take(i as int));
            out.push(c.ip.x);
            out.push(c.ip.y);
            out.push(c.ip.dx);
            out.push(c.ip.dy);
            assert(out@ =~= flat_positions(self@.ips.take(i + 1)));
            i = i + 1;
        }
        assert(self@.ips.take(n as int) =~= self@.ips);
        out
    }
}

} // verus!
