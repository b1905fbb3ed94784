//! One instruction pointer's turn: the state an IP owns, the state all IPs
//! share, and what executing one cell does to both.

use crate::grid::{cell_of, put_cell, Grid, Ip, SPACE};
use crate::input::{read_char_spec, read_num_input, read_number_spec, read_utf8_char};
use crate::opcodes::{decode_cell, decode_spec, Op};
use crate::text::{push_char, char_debug, char_debug_text, char_from_u32, hex4, hex4_string, is_scalar_value};
use crate::value::{floor_div, floor_mod, int_decimal, Int};
use rand::seq::SliceRandom;
use rand::SeedableRng;
use rand_chacha::ChaCha8Rng;
use std::collections::HashSet;
use vstd::prelude::*;
use vstd::wrapping::i64_specs::{wrapping_add, wrapping_sub};

verus! {

broadcast use vstd::std_specs::hash::group_hash_axioms;

/// The 32-byte key that `ChaCha8Rng::seed_from_u64` derives from a `u64` seed.
pub uninterp spec fn chacha_seed_of(seed: u64) -> Seq<u8>;

/// What `SliceRandom::choose` draws from `items` with a `ChaCha8Rng` keyed by
/// `key` and positioned at word `word_pos` of its stream: the element drawn and
/// the word position after the draw.
pub uninterp spec fn chacha_choice(key: Seq<u8>, word_pos: u128, items: Seq<(i64, i64)>) -> (
    (i64, i64),
    u128,
);

/// Calls `ChaCha8Rng::seed_from_u64` and `get_seed`: the key that a `u64` seed expands to.
#[verifier::external_body]
pub(crate) fn chacha_key_from_seed(seed: u64) -> (r: Vec<u8>)
    ensures
        r@ == chacha_seed_of(seed),
        r@.len() == 32,
{
    ChaCha8Rng::seed_from_u64(seed).get_seed().to_vec()
}

/// Calls `ChaCha8Rng::from_entropy` and `get_seed`: a key drawn from the
/// operating system's randomness.
#[verifier::external_body]
pub(crate) fn chacha_key_from_entropy() -> (r: Vec<u8>)
    ensures
        r@.len() == 32,
{
    ChaCha8Rng::from_entropy().get_seed().to_vec()
}

/// Calls `SliceRandom::choose` on a non-empty slice with a `ChaCha8Rng` made
/// by `from_seed(key)` and moved to `word_pos` by `set_word_pos`; returns the
/// element drawn and `get_word_pos` after the draw.
#[verifier::external_body]
fn chacha_choose(key: &[u8], word_pos: u128, items: &[(i64, i64)]) -> (r: ((i64, i64), u128))
    requires
        key@.len() == 32,
        items@.len() > 0,
    ensures
        items@.contains(r.0),
        r == chacha_choice(key@, word_pos, items@),
{
    let mut seed = [0u8; 32];
    seed.copy_from_slice(key);
    let mut rng = ChaCha8Rng::from_seed(seed);
    rng.set_word_pos(word_pos);
    let d = *items.choose(&mut rng).unwrap();
    (d, rng.get_word_pos())
}

/// The eight wind directions, in the order `Turbulence` draws from.
pub open spec fn winds() -> Seq<(i64, i64)> {
    seq![
        (1i64, 0i64),
        (1i64, -1i64),
        (0i64, -1i64),
        (-1i64, -1i64),
        (-1i64, 0i64),
        (-1i64, 1i64),
        (0i64, 1i64),
        (1i64, 1i64),
    ]
}

/// Whether `(dx, dy)` is one of the eight wind directions: each part in
/// `{-1, 0, 1}`, not both zero.
pub open spec fn is_wind(dx: i64, dy: i64) -> bool {
    -1 <= dx <= 1 && -1 <= dy <= 1 && !(dx == 0 && dy == 0)
}

/// The IP that `t` spawns starts on another cell than its parent, heading the
/// opposite way, so it does not run into the `t` again on its first turn.
pub proof fn lemma_split_child_elsewhere(c: IpState)
    requires
        is_wind(c.dx, c.dy),
    ensures
        (split_child(c).x, split_child(c).y) != (c.x, c.y),
        split_child(c).dx == -c.dx,
        split_child(c).dy == -c.dy,
        is_wind(split_child(c).dx, split_child(c).dy),
{
}

/// An instruction pointer's own state, as a value.
pub struct IpState {
    pub x: i64,
    pub y: i64,
    pub dx: i64,
    pub dy: i64,
    pub stack: Seq<int>,
    pub strmode: bool,
    pub halted: bool,
}

/// The state that all instruction pointers share, as a value.
pub struct EnvState {
    pub grid: Map<(i64, i64), int>,
    pub pending: Seq<IpState>,
    pub input: Seq<u8>,
    pub pos: int,
    pub out: Seq<char>,
    pub err: Seq<char>,
    pub warned: Set<u32>,
    pub key: Seq<u8>,
    pub word_pos: u128,
}

/// A fresh IP at the origin heading east, with an empty stack.
pub open spec fn root_ip() -> IpState {
    IpState { x: 0, y: 0, dx: 1, dy: 0, stack: Seq::empty(), strmode: false, halted: false }
}

/// The top of a stack; an empty stack gives 0.
pub open spec fn top(s: Seq<int>) -> int {
    if s.len() == 0 {
        0
    } else {
        s.last()
    }
}

/// A stack without its top; an empty stack stays empty.
pub open spec fn rest(s: Seq<int>) -> Seq<int> {
    if s.len() == 0 {
        s
    } else {
        s.drop_last()
    }
}

/// What a binary operator computes from `a` (below) and `b` (top).
pub open spec fn arith(op: Op, a: int, b: int) -> int {
    match op {
        Op::Add => a + b,
        Op::Sub => a - b,
        Op::Mul => a * b,
        Op::Div => if b == 0 {
            0
        } else {
            floor_div(a, b)
        },
        Op::Mod => if b == 0 {
            0
        } else {
            floor_mod(a, b)
        },
        _ => if a > b {
            1
        } else {
            0
        },
    }
}

/// Pops `b`, then `a`, and pushes `arith(op, a, b)`.
pub open spec fn binary(s: Seq<int>, op: Op) -> Seq<int> {
    rest(rest(s)).push(arith(op, top(rest(s)), top(s)))
}

/// Whether an integer fits in `i64`.
pub open spec fn fits_i64(v: int) -> bool {
    i64::MIN <= v <= i64::MAX
}

/// The line written to the error stream the first time an unknown glyph is met.
pub open spec fn warning_text(cp: u32) -> Seq<char> {
    let shown = if is_scalar_value(cp as int) {
        cp as char
    } else {
        '?'
    };
    "windy: warning: unknown glyph "@ + char_debug_text(shown) + " (U+"@ + hex4(cp as nat)
        + ") treated as NOP\n"@
}

/// Warning about an unknown glyph: once per code, and only for values that
/// fit in `u32`.
pub open spec fn warn(e: EnvState, cell: int) -> EnvState {
    if 0 <= cell <= u32::MAX && !e.warned.contains(cell as u32) {
        EnvState { warned: e.warned.insert(cell as u32), err: e.err + warning_text(cell as u32), ..e }
    } else {
        e
    }
}

/// A glyph is warned about once: warning again about the same value changes
/// nothing.
pub proof fn lemma_warn_once(e: EnvState, cell: int)
    ensures
        warn(warn(e, cell), cell) == warn(e, cell),
{
}

/// The IP one step further in its direction (coordinates wrap at the `i64` range).
pub open spec fn advanced(c: IpState) -> IpState {
    IpState { x: wrapping_add(c.x, c.dx), y: wrapping_add(c.y, c.dy), ..c }
}

/// The IP with a new direction.
pub open spec fn turned(c: IpState, d: (i64, i64)) -> IpState {
    IpState { dx: d.0, dy: d.1, ..c }
}

/// The IP with a new stack.
pub open spec fn with_stack(c: IpState, s: Seq<int>) -> IpState {
    IpState { stack: s, ..c }
}

/// The IP that `t` spawns: one cell behind, heading the other way, with an
/// empty stack and string mode off.
pub open spec fn split_child(c: IpState) -> IpState {
    IpState {
        x: wrapping_sub(c.x, c.dx),
        y: wrapping_sub(c.y, c.dy),
        dx: wrapping_sub(0, c.dx),
        dy: wrapping_sub(0, c.dy),
        stack: Seq::empty(),
        strmode: false,
        halted: false,
    }
}

/// What executing `op` does to the shared state and to the executing IP.
/// `Turbulence` draws one of the eight winds from the seeded generator.
pub open spec fn exec_op(e: EnvState, c: IpState, op: Op, operand: u32, cell: int) -> (
    EnvState,
    IpState,
) {
    let s = c.stack;
    match op {
        Op::Nop => (e, c),
        Op::Halt => (e, IpState { halted: true, ..c }),
        Op::Trampoline => (e, advanced(c)),
        Op::Split => (EnvState { pending: e.pending.push(split_child(c)), ..e }, c),
        Op::MoveE => (e, turned(c, (1, 0))),
        Op::MoveNe => (e, turned(c, (1i64, -1i64))),
        Op::MoveN => (e, turned(c, (0i64, -1i64))),
        Op::MoveNw => (e, turned(c, (-1i64, -1i64))),
        Op::MoveW => (e, turned(c, (-1i64, 0i64))),
        Op::MoveSw => (e, turned(c, (-1i64, 1i64))),
        Op::MoveS => (e, turned(c, (0, 1))),
        Op::MoveSe => (e, turned(c, (1, 1))),
        Op::Turbulence => {
            let (d, p) = chacha_choice(e.key, e.word_pos, winds());
            (EnvState { word_pos: p, ..e }, turned(c, d))
        },
        Op::PushDigit => (e, with_stack(c, s.push(operand as int))),
        Op::StrMode => (e, IpState { strmode: true, ..c }),
        Op::Add | Op::Sub | Op::Mul | Op::Div | Op::Mod | Op::Gt => (
            e,
            with_stack(c, binary(s, op)),
        ),
        Op::Not => (e, with_stack(c, rest(s).push(if top(s) == 0 { 1 } else { 0 }))),
        Op::Dup => (e, with_stack(c, rest(s).push(top(s)).push(top(s)))),
        Op::Drop => (e, with_stack(c, rest(s))),
        Op::Swap => (e, with_stack(c, rest(rest(s)).push(top(s)).push(top(rest(s))))),
        Op::IfH => (
            e,
            turned(
                with_stack(c, rest(s)),
                if top(s) == 0 {
                    (1, 0)
                } else {
                    (-1i64, 0i64)
                },
            ),
        ),
        Op::IfV => (
            e,
            turned(
                with_stack(c, rest(s)),
                if top(s) == 0 {
                    (0, 1)
                } else {
                    (0i64, -1i64)
                },
            ),
        ),
        Op::PutNum => (
            EnvState { out: e.out + int_decimal(top(s)) + seq![' '], ..e },
            with_stack(c, rest(s)),
        ),
        Op::PutChr => {
            let a = top(s);
            let out = if 0 <= a <= u32::MAX && is_scalar_value(a) {
                e.out.push(a as char)
            } else {
                e.out
            };
            (EnvState { out, ..e }, with_stack(c, rest(s)))
        },
        Op::GetNum => {
            let (r, p) = read_number_spec(e.input, e.pos);
            let v = match r {
                Some(n) => n,
                None => -1,
            };
            (EnvState { pos: p, ..e }, with_stack(c, s.push(v)))
        },
        Op::GetChr => {
            let (r, p) = read_char_spec(e.input, e.pos);
            let v = match r {
                Some(ch) => ch as int,
                None => -1,
            };
            (EnvState { pos: p, ..e }, with_stack(c, s.push(v)))
        },
        Op::GridGet => {
            let y = top(s);
            let x = top(rest(s));
            let s2 = rest(rest(s));
            let v = if fits_i64(x) && fits_i64(y) {
                cell_of(e.grid, x as i64, y as i64)
            } else {
                SPACE as int
            };
            (e, with_stack(c, s2.push(v)))
        },
        Op::GridPut => {
            let y = top(s);
            let x = top(rest(s));
            let v = top(rest(rest(s)));
            let s3 = rest(rest(rest(s)));
            let grid = if fits_i64(x) && fits_i64(y) {
                put_cell(e.grid, x as i64, y as i64, v)
            } else {
                e.grid
            };
            (EnvState { grid, ..e }, with_stack(c, s3))
        },
        Op::Gust | Op::Calm | Op::Unknown => (warn(e, cell), c),
    }
}

/// One IP's turn: read the cell under it; in string mode push the cell (a
/// quote ends string mode), else execute it; then move on unless it halted.
pub open spec fn ip_turn(e: EnvState, c: IpState) -> (EnvState, IpState) {
    let cell = cell_of(e.grid, c.x, c.y);
    let (e1, c1) = if c.strmode {
        if cell == 0x22 {
            (e, IpState { strmode: false, ..c })
        } else {
            (e, with_stack(c, c.stack.push(cell)))
        }
    } else {
        exec_op(e, c, decode_spec(cell).0, decode_spec(cell).1, cell)
    };
    if c1.halted {
        (e1, c1)
    } else {
        (e1, advanced(c1))
    }
}

/// Per-IP state.
#[derive(Debug, Clone)]
pub struct IpContext {
    pub ip: Ip,
    pub stack: Vec<Int>,
    pub strmode: bool,
    /// Set by `@`; the IP leaves the live list at the end of the tick.
    pub halted: bool,
}

/// The values of a stack of `Int`s.
pub open spec fn stack_values(s: Seq<Int>) -> Seq<int> {
    s.map_values(|v: Int| v@)
}

impl View for IpContext {
    type V = IpState;

    open spec fn view(&self) -> IpState {
        IpState {
            x: self.ip.x,
            y: self.ip.y,
            dx: self.ip.dx,
            dy: self.ip.dy,
            stack: stack_values(self.stack@),
            strmode: self.strmode,
            halted: self.halted,
        }
    }
}

impl IpContext {
    /// The first IP: at the origin, heading east, with an empty stack.
    pub fn new_root() -> (c: IpContext)
        ensures
            c@ == root_ip(),
    {
        let c = IpContext { ip: Ip::new(), stack: Vec::new(), strmode: false, halted: false };
        assert(c@.stack =~= Seq::<int>::empty());
        c
    }

    /// Pops the top; an empty stack gives 0.
    pub fn pop(&mut self) -> (r: Int)
        ensures
            r@ == top(old(self)@.stack),
            final(self)@ == with_stack(old(self)@, rest(old(self)@.stack)),
    {
        let ghost old_stack = self.stack@;
        match self.stack.pop() {
            Some(v) => {
                assert(stack_values(self.stack@) =~= stack_values(old_stack).drop_last());
                v
            },
            None => Int::zero(),
        }
    }

    /// Pushes `v`.
    pub fn push(&mut self, v: Int)
        ensures
            final(self)@ == with_stack(old(self)@, old(self)@.stack.push(v@)),
    {
        let ghost old_stack = self.stack@;
        self.stack.push(v);
        assert(stack_values(self.stack@) =~= stack_values(old_stack).push(v@));
    }

    /// Turns to `(dx, dy)`.
    pub fn turn(&mut self, dx: i64, dy: i64)
        ensures
            final(self)@ == turned(old(self)@, (dx, dy)),
    {
        self.ip.set_dir(dx, dy);
    }
}

/// The state that all instruction pointers share: the grid, the IPs spawned
/// during the current tick, the key and stream position of the generator, the glyphs already warned
/// about, and the program's input and output.
pub struct Shared {
    pub grid: Grid,
    pub pending: Vec<IpContext>,
    pub key: Vec<u8>,
    pub word_pos: u128,
    pub warned: HashSet<u32>,
    pub input: Vec<u8>,
    pub input_pos: usize,
    pub out: String,
    pub err: String,
}

/// The values of a list of IPs.
pub open spec fn ip_states(s: Seq<IpContext>) -> Seq<IpState> {
    s.map_values(|c: IpContext| c@)
}

impl View for Shared {
    type V = EnvState;

    open spec fn view(&self) -> EnvState {
        EnvState {
            grid: self.grid@,
            pending: ip_states(self.pending@),
            input: self.input@,
            pos: self.input_pos as int,
            out: self.out@,
            err: self.err@,
            warned: self.warned@,
            key: self.key@,
            word_pos: self.word_pos,
        }
    }
}

impl Shared {
    /// The read position stays within the input, the key has 32 bytes, and
    /// every waiting IP heads in a wind direction.
    pub open spec fn wf(&self) -> bool {
        &&& self.input_pos <= self.input@.len()
        &&& self.key@.len() == 32
        &&& forall|i: int|
            0 <= i < self.pending@.len() ==> is_wind(
                #[trigger] self.pending@[i].ip.dx,
                self.pending@[i].ip.dy,
            )
    }

    /// Warns once per unknown glyph: the first time a value that fits in
    /// `u32` is met, one warning line goes to the error stream.
    pub fn warn_unknown(&mut self, cell: &Int)
        requires
            old(self).wf(),
        ensures
            final(self).wf(),
            final(self)@ == warn(old(self)@, cell@),
    {
        let cp = match cell.to_u32() {
            Some(v) => v,
            None => {
                return ;
            },
        };
        if self.warned.contains(&cp) {
            return ;
        }
        self.warned.insert(cp);
        let shown = match char_from_u32(cp) {
            Some(c) => c,
            None => '?',
        };
        let text = char_debug(shown);
        let hex = hex4_string(cp);
        self.err.append("windy: warning: unknown glyph ");
        self.err.append(text.as_str());
        self.err.append(" (U+");
        self.err.append(hex.as_str());
        self.err.append(") treated as NOP\n");
        assert(self.err@ =~= old(self).err@ + warning_text(cp));
    }

    /// Executes `op` for `ctx`.
    #[verifier::rlimit(40)]
    pub fn execute(&mut self, ctx: &mut IpContext, op: Op, operand: u32, cell: &Int)
        requires
            old(self).wf(),
            is_wind(old(ctx).ip.dx, old(ctx).ip.dy),
            op == decode_spec(cell@).0,
            operand == decode_spec(cell@).1,
        ensures
            final(self).wf(),
            is_wind(final(ctx).ip.dx, final(ctx).ip.dy),
            (final(self)@, final(ctx)@) == exec_op(old(self)@, old(ctx)@, op, operand, cell@),
    {
        match op {
            Op::Nop => {},
            Op::Halt => {
                ctx.halted = true;
            },
            Op::Trampoline => {
                ctx.ip.advance();
            },
            Op::Split => {
                let here = ctx.ip;
                let child = IpContext {
                    ip: Ip {
                        x: here.x.wrapping_sub(here.dx),
                        y: here.y.wrapping_sub(here.dy),
                        dx: 0i64.wrapping_sub(here.dx),
                        dy: 0i64.wrapping_sub(here.dy),
                    },
                    stack: Vec::new(),
                    strmode: false,
                    halted: false,
                };
                let ghost old_pending = self.pending@;
                self.pending.push(child);
                assert(child@.stack =~= Seq::<int>::empty());
                assert(ip_states(self.pending@) =~= ip_states(old_pending).push(child@));
                assert(self.pending@.last() == child);
            },
            Op::MoveE => ctx.turn(1, 0),
            Op::MoveNe => ctx.turn(1, -1),
            Op::MoveN => ctx.turn(0, -1),
            Op::MoveNw => ctx.turn(-1, -1),
            Op::MoveW => ctx.turn(-1, 0),
            Op::MoveSw => ctx.turn(-1, 1),
            Op::MoveS => ctx.turn(0, 1),
            Op::MoveSe => ctx.turn(1, 1),
            Op::Turbulence => {
                let table: [(i64, i64); 8] = [
                    (1, 0),
                    (1, -1),
                    (0, -1),
                    (-1, -1),
                    (-1, 0),
                    (-1, 1),
                    (0, 1),
                    (1, 1),
                ];
                assert(table@ =~= winds());
                let (d, p) = chacha_choose(self.key.as_slice(), self.word_pos, table.as_slice());
                self.word_pos = p;
                assert(is_wind(d.0, d.1));
                ctx.turn(d.0, d.1);
            },
            Op::PushDigit => {
                ctx.push(Int::from_u32(operand));
            },
            Op::StrMode => {
                ctx.strmode = true;
            },
            Op::Add => {
                let b = ctx.pop();
                let a = ctx.pop();
                ctx.push(a.plus(&b));
            },
            Op::Sub => {
                let b = ctx.pop();
                let a = ctx.pop();
                ctx.push(a.minus(&b));
            },
            Op::Mul => {
                let b = ctx.pop();
                let a = ctx.pop();
                ctx.push(a.times(&b));
            },
            Op::Div => {
                let b = ctx.pop();
                let a = ctx.pop();
                let r = if b.is_zero() {
                    Int::zero()
                } else {
                    a.div_floor(&b)
                };
                ctx.push(r);
            },
            Op::Mod => {
                let b = ctx.pop();
                let a = ctx.pop();
                let r = if b.is_zero() {
                    Int::zero()
                } else {
                    a.mod_floor(&b)
                };
                ctx.push(r);
            },
            Op::Not => {
                let a = ctx.pop();
                ctx.push(
                    if a.is_zero() {
                        Int::one()
                    } else {
                        Int::zero()
                    },
                );
            },
            Op::Gt => {
                let b = ctx.pop();
                let a = ctx.pop();
                ctx.push(
                    if a.gt(&b) {
                        Int::one()
                    } else {
                        Int::zero()
                    },
                );
            },
            Op::Dup => {
                let t = ctx.pop();
                ctx.push(t.copy());
                ctx.push(t);
            },
            Op::Drop => {
                let _ = ctx.pop();
            },
            Op::Swap => {
                let b = ctx.pop();
                let a = ctx.pop();
                ctx.push(b);
                ctx.push(a);
            },
            Op::IfH => {
                let a = ctx.pop();
                if a.is_zero() {
                    ctx.turn(1, 0);
                } else {
                    ctx.turn(-1, 0);
                }
            },
            Op::IfV => {
                let a = ctx.pop();
                if a.is_zero() {
                    ctx.turn(0, 1);
                } else {
                    ctx.turn(0, -1);
                }
            },
            Op::PutNum => {
                let a = ctx.pop();
                let text = a.to_decimal();
                self.out.append(text.as_str());
                let ghost before = self.out@;
                self.out.append(" ");
                proof {
                    reveal_strlit(" ");
                }
                assert(self.out@ =~= before + seq![' ']);
            },
            Op::PutChr => {
                let a = ctx.pop();
                match a.to_u32() {
                    Some(cp) => match char_from_u32(cp) {
                        Some(ch) => push_char(&mut self.out, ch),
                        None => {},
                    },
                    None => {},
                }
            },
            Op::GetNum => {
                let (r, p) = read_num_input(self.input.as_slice(), self.input_pos);
                self.input_pos = p;
                let v = match r {
                    Some(n) => n,
                    None => Int::from_i64(-1),
                };
                ctx.push(v);
            },
            Op::GetChr => {
                let (r, p) = read_utf8_char(self.input.as_slice(), self.input_pos);
                self.input_pos = p;
                let v = match r {
                    Some(ch) => Int::from_u32(ch as u32),
                    None => Int::from_i64(-1),
                };
                ctx.push(v);
            },
            Op::GridGet => {
                let y = ctx.pop();
                let x = ctx.pop();
                match (x.to_i64(), y.to_i64()) {
                    (Some(xi), Some(yi)) => {
                        let v = self.grid.get(xi, yi);
                        ctx.push(v);
                    },
                    _ => {
                        ctx.push(Int::from_u32(SPACE));
                    },
                }
            },
            Op::GridPut => {
                let y = ctx.pop();
                let x = ctx.pop();
                let v = ctx.pop();
                match (x.to_i64(), y.to_i64()) {
                    (Some(xi), Some(yi)) => {
                        self.grid.put(xi, yi, v);
                    },
                    _ => {},
                }
            },
            Op::Gust | Op::Calm | Op::Unknown => {
                self.warn_unknown(cell);
            },
        }
    }

    /// One IP's turn (see `ip_turn`).
    pub fn run_ip(&mut self, ctx: &mut IpContext)
        requires
            old(self).wf(),
            is_wind(old(ctx).ip.dx, old(ctx).ip.dy),
        ensures
            final(self).wf(),
            is_wind(final(ctx).ip.dx, final(ctx).ip.dy),
            (final(self)@, final(ctx)@) == ip_turn(old(self)@, old(ctx)@),
    {
        let cell = self.grid.get(ctx.ip.x, ctx.ip.y);
        if ctx.strmode {
            let quote = Int::from_u32(0x22);
            if cell.same(&quote) {
                ctx.strmode = false;
            } else {
                ctx.push(cell);
            }
        } else {
            let (op, operand) = decode_cell(&cell);
            self.execute(ctx, op, operand, &cell);
        }
        if !ctx.halted {
            ctx.ip.advance();
        }
    }
}

} // verus!
