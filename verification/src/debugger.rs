//! The decisions of the interactive step debugger.
//!
//! A front end reads one command line at a time, hands it to
//! `parse_command`, applies the command with `Debugger::apply`, and shows the
//! VM between commands. The debugged program gets an empty input.

use crate::easter::{banner, banner_text, contains_text, detect, SIGNATURE};
use crate::render::{frame_text, lemma_line_end_at, line_end, render_frame};
use crate::parser::{layout, normalize_spec, parse};
use crate::text::{
    lowercase, push_char, str_debug, str_debug_text, str_to_lowercase, str_trim, to_chars, trim_spec,
};
use crate::vm::{counted_tick, initial_state, ticks, Vm, VmState};
use vstd::prelude::*;

verus! {

/// Ticks that `continue` runs at most before it gives up.
pub const RUN_SAFETY_CAP: u64 = 10_000_000;

/// The name shown for a direction.
pub open spec fn dir_name_spec(dx: i64, dy: i64) -> Seq<char> {
    if dx == 1 && dy == 0 {
        "→ east"@
    } else if dx == 1 && dy == -1 {
        "↗ ne"@
    } else if dx == 0 && dy == -1 {
        "↑ north"@
    } else if dx == -1 && dy == -1 {
        "↖ nw"@
    } else if dx == -1 && dy == 0 {
        "← west"@
    } else if dx == -1 && dy == 1 {
        "↙ sw"@
    } else if dx == 0 && dy == 1 {
        "↓ south"@
    } else if dx == 1 && dy == 1 {
        "↘ se"@
    } else {
        "?"@
    }
}

/// The arrow and name of the direction `(dx, dy)`; `?` when it is none of
/// the eight winds.
pub fn dir_name(dx: i64, dy: i64) -> (r: &'static str)
    ensures
        r@ == dir_name_spec(dx, dy),
{
    match (dx, dy) {
        (1, 0) => "→ east",
        (1, -1) => "↗ ne",
        (0, -1) => "↑ north",
        (-1, -1) => "↖ nw",
        (-1, 0) => "← west",
        (-1, 1) => "↙ sw",
        (0, 1) => "↓ south",
        (1, 1) => "↘ se",
        _ => "?",
    }
}

/// A debugger command.
pub enum Command {
    /// Run one tick.
    Step,
    /// Run until the program halts or the safety cap is reached.
    Continue,
    /// Leave the debugger.
    Quit,
    /// Anything else, as typed (trimmed and lowercased).
    Unknown(String),
}

/// The words that mean `step` (an empty line among them).
pub open spec fn is_step_word(c: Seq<char>) -> bool {
    c == ""@ || c == "s"@ || c == "step"@
}

/// The words that mean `continue`.
pub open spec fn is_continue_word(c: Seq<char>) -> bool {
    c == "c"@ || c == "cont"@ || c == "continue"@ || c == "r"@ || c == "run"@
}

/// The words that mean `quit`.
pub open spec fn is_quit_word(c: Seq<char>) -> bool {
    c == "q"@ || c == "quit"@ || c == "exit"@
}

/// The command words: `""`, `s` and `step` step; `c`, `cont`, `continue`,
/// `r` and `run` continue; `q`, `quit` and `exit` quit; no word is in two of
/// these lists.
pub proof fn lemma_command_words(c: Seq<char>)
    ensures
        (c == ""@ || c == "s"@ || c == "step"@) ==> is_step_word(c) && !is_continue_word(c)
            && !is_quit_word(c),
        (c == "c"@ || c == "cont"@ || c == "continue"@ || c == "r"@ || c == "run"@) ==> is_continue_word(c)
            && !is_step_word(c) && !is_quit_word(c),
        (c == "q"@ || c == "quit"@ || c == "exit"@) ==> is_quit_word(c) && !is_step_word(c)
            && !is_continue_word(c),
{
    reveal_strlit("");
    reveal_strlit("s");
    reveal_strlit("step");
    reveal_strlit("c");
    reveal_strlit("cont");
    reveal_strlit("continue");
    reveal_strlit("r");
    reveal_strlit("run");
    reveal_strlit("q");
    reveal_strlit("quit");
    reveal_strlit("exit");
    assert("s"@[0] == 's' && "c"@[0] == 'c' && "r"@[0] == 'r' && "q"@[0] == 'q');
    assert("step"@[0] == 's' && "cont"@[0] == 'c' && "quit"@[0] == 'q' && "exit"@[0] == 'e');
    assert(""@.len() == 0 && "c"@.len() == 1 && "r"@.len() == 1 && "q"@.len() == 1);
    assert("cont"@.len() == 4 && "quit"@.len() == 4 && "exit"@.len() == 4);
    assert("continue"@.len() == 8 && "run"@.len() == 3);
}

fn same_text(a: &String, lit: &str) -> (r: bool)
    ensures
        r == (a@ == lit@),
{
    *a == String::from_str(lit)
}

/// Reads a command line: surrounding white space is ignored and letters
/// are compared in lowercase.
pub fn parse_command(line: &str) -> (r: Command)
    ensures
        ({
            let c = lowercase(trim_spec(line@));
            &&& r is Step <==> is_step_word(c)
            &&& r is Continue <==> (!is_step_word(c) && is_continue_word(c))
            &&& r is Quit <==> (!is_step_word(c) && !is_continue_word(c) && is_quit_word(c))
            &&& r matches Command::Unknown(t) ==> t@ == c
            &&& (c == ""@ || c == "s"@ || c == "step"@) ==> r is Step
            &&& (c == "c"@ || c == "cont"@ || c == "continue"@ || c == "r"@ || c == "run"@) ==> r is Continue
            &&& (c == "q"@ || c == "quit"@ || c == "exit"@) ==> r is Quit
        }),
{
    proof {
        lemma_command_words(lowercase(trim_spec(line@)));
    }
    let cmd = str_to_lowercase(str_trim(line));
    if same_text(&cmd, "") || same_text(&cmd, "s") || same_text(&cmd, "step") {
        Command::Step
    } else if same_text(&cmd, "c") || same_text(&cmd, "cont") || same_text(&cmd, "continue")
        || same_text(&cmd, "r") || same_text(&cmd, "run") {
        Command::Continue
    } else if same_text(&cmd, "q") || same_text(&cmd, "quit") || same_text(&cmd, "exit") {
        Command::Quit
    } else {
        Command::Unknown(cmd)
    }
}

/// What applying a command led to.
#[derive(Debug, Clone, Copy, PartialEq, Eq, Structural)]
pub enum Outcome {
    /// Ready for the next command.
    Ready,
    /// `continue` ran until every IP halted.
    Halted,
    /// `continue` used up the safety cap.
    BudgetExhausted,
    /// The user asked to leave.
    Quit,
    /// The command was not understood; nothing happened.
    Unknown,
}

/// A run from `s0` of `k` ticks, at most `cap`, that stopped at the first
/// state where every IP had halted, or at the cap.
pub open spec fn capped_run_of(s0: VmState, k: nat, cap: nat) -> bool {
    &&& k <= cap
    &&& forall|j: nat| j < k ==> !(#[trigger] ticks(s0, j)).halted && ticks(s0, j).steps < u64::MAX
    &&& (k == cap || ticks(s0, k).halted || ticks(s0, k).steps == u64::MAX)
}

/// The program under the debugger.
pub struct Debugger {
    vm: Vm,
    signed: bool,
}

impl View for Debugger {
    type V = VmState;

    closed spec fn view(&self) -> VmState {
        self.vm@
    }
}

impl Debugger {
    /// The VM is between ticks and consistent.
    pub closed spec fn wf(&self) -> bool {
        self.vm.wf()
    }

    /// Whether the program carries the signature (its banner is then due on
    /// the error stream).
    pub closed spec fn is_signed(&self) -> bool {
        self.signed
    }

    /// Loads `source`; the program gets an empty input and an unlimited budget.
    pub fn new(source: &str) -> (d: Debugger)
        requires
            source@.len() < i64::MAX,
        ensures
            d.wf(),
            d.is_signed() == contains_text(normalize_spec(source@), SIGNATURE@),
            d@ == initial_state(
                layout(normalize_spec(source@)),
                Seq::empty(),
                Seq::empty(),
                None,
                d@.env.key,
            ),
            d@.env.key.len() == 32,
    {
        let (grid, scan_text) = parse(source);
        let signed = detect(scan_text.as_str());
        let vm = Vm::new(grid, None, None);
        Debugger { vm, signed }
    }

    /// Whether the program carries the signature.
    pub fn signed(&self) -> (r: bool)
        ensures
            r == self.is_signed(),
    {
        self.signed
    }

    /// The VM, for display.
    pub fn vm(&self) -> (r: &Vm)
        ensures
            r@ == self@,
    {
        &self.vm
    }

    fn step_once(&mut self)
        requires
            old(self).wf(),
        ensures
            final(self).wf(),
            final(self).is_signed() == old(self).is_signed(),
            final(self)@ == if !old(self)@.halted && old(self)@.steps < u64::MAX {
                counted_tick(old(self)@)
            } else {
                old(self)@
            },
    {
        if !self.vm.halted() && self.vm.steps() < u64::MAX {
            self.vm.counted_step();
        }
    }

    /// Applies a command. `Step` runs one counted tick unless the program has
    /// halted; `Continue` runs counted ticks until every IP halts or
    /// `RUN_SAFETY_CAP` ticks have run; `Quit` and an unknown command change
    /// nothing.
    pub fn apply(&mut self, cmd: &Command) -> (r: Outcome)
        requires
            old(self).wf(),
        ensures
            final(self).wf(),
            final(self).is_signed() == old(self).is_signed(),
            match cmd {
                Command::Step => r == Outcome::Ready && final(self)@ == if !old(self)@.halted
                    && old(self)@.steps < u64::MAX {
                    counted_tick(old(self)@)
                } else {
                    old(self)@
                },
                Command::Continue => exists|k: nat|
                    capped_run_of(old(self)@, k, RUN_SAFETY_CAP as nat) && final(self)@
                        == #[trigger] ticks(old(self)@, k) && r == (if final(self)@.halted {
                        Outcome::Halted
                    } else {
                        Outcome::BudgetExhausted
                    }),
                Command::Quit => r == Outcome::Quit && final(self)@ == old(self)@,
                Command::Unknown(_) => r == Outcome::Unknown && final(self)@ == old(self)@,
            },
    {
        match cmd {
            Command::Step => {
                self.step_once();
                Outcome::Ready
            },
            Command::Continue => {
                let ghost start = self@;
                let ghost mut k: nat = 0;
                let mut remaining: u64 = RUN_SAFETY_CAP;
                while !self.vm.halted() && remaining > 0 && self.vm.steps() < u64::MAX
                    invariant
                        self.vm.wf(),
                        self.signed == old(self).signed,
                        self@ == ticks(start, k),
                        k + remaining == RUN_SAFETY_CAP,
                        forall|j: nat|
                            j < k ==> !(#[trigger] ticks(start, j)).halted && ticks(start, j).steps
                                < u64::MAX,
                    decreases remaining,
                {
                    let ghost before = self@;
                    self.vm.counted_step();
                    proof {
                        assert forall|j: nat| j < k + 1 implies !(#[trigger] ticks(
                            start,
                            j,
                        )).halted && ticks(start, j).steps < u64::MAX by {
                            if j == k {
                                assert(ticks(start, j) == before);
                            }
                        }
                        k = k + 1;
                    }
                    remaining = remaining - 1;
                }
                assert(capped_run_of(start, k, RUN_SAFETY_CAP as nat));
                if self.vm.halted() {
                    Outcome::Halted
                } else {
                    Outcome::BudgetExhausted
                }
            },
            Command::Quit => Outcome::Quit,
            Command::Unknown(_) => Outcome::Unknown,
        }
    }
}

/// A capped run stops after a number of ticks that the start state fixes.
pub proof fn lemma_capped_run_unique(s0: VmState, k1: nat, k2: nat, cap: nat)
    requires
        capped_run_of(s0, k1, cap),
        capped_run_of(s0, k2, cap),
    ensures
        k1 == k2,
{
    if k1 < k2 {
        assert(!ticks(s0, k1).halted && ticks(s0, k1).steps < u64::MAX);
    } else if k2 < k1 {
        assert(!ticks(s0, k2).halted && ticks(s0, k2).steps < u64::MAX);
    }
}

/// What the debugger shows, and whether it then stops.
pub enum Turn {
    /// Show the text and wait for a command line.
    Prompt(String),
    /// Show the text and stop with the exit code.
    Exit(String, i32),
}

/// The screen shown before each command: the frame, then either
/// `program halted` (and the debugger stops with 0) or the prompt.
pub open spec fn start_text(s: VmState) -> (Seq<char>, Option<i32>) {
    if s.halted {
        (frame_text(s) + "program halted\n"@, Some(0i32))
    } else {
        (frame_text(s) + "> "@, None)
    }
}

/// Where `continue` from `s` stops.
pub open spec fn continue_end(s: VmState) -> VmState {
    ticks(s, choose|k: nat| capped_run_of(s, k, RUN_SAFETY_CAP as nat))
}

/// The state, text and exit after one command line.
#[verifier::opaque]
pub open spec fn reply(s: VmState, line: Seq<char>) -> (VmState, Seq<char>, Option<i32>) {
    let c = lowercase(trim_spec(line));
    if is_step_word(c) {
        let s2 = if !s.halted && s.steps < u64::MAX {
            counted_tick(s)
        } else {
            s
        };
        (s2, start_text(s2).0, start_text(s2).1)
    } else if is_continue_word(c) {
        let s2 = continue_end(s);
        if s2.halted {
            (s2, frame_text(s2) + "program halted\n"@, Some(0i32))
        } else {
            (s2, frame_text(s2) + "run budget exhausted\n"@, Some(124i32))
        }
    } else if is_quit_word(c) {
        (s, Seq::empty(), Some(0i32))
    } else {
        (s, "unknown command: "@ + str_debug_text(c) + "\n"@ + start_text(s).0, start_text(s).1)
    }
}

/// The lines of a command stream as `BufRead::read_line` returns them: each
/// with its `\n`, the last one possibly without.
pub open spec fn command_lines(s: Seq<char>) -> Seq<Seq<char>>
    decreases s.len(),
{
    if s.len() == 0 {
        Seq::empty()
    } else {
        let e = line_end(s);
        if e < s.len() {
            seq![s.take(e as int + 1)] + command_lines(s.skip(e as int + 1))
        } else {
            seq![s]
        }
    }
}

/// The text shown and the exit code for the command lines that follow a
/// prompt in state `s`; running out of lines ends the session with 0.
pub open spec fn after_prompt(s: VmState, lines: Seq<Seq<char>>) -> (Seq<char>, i32)
    decreases lines.len(),
{
    if lines.len() == 0 {
        (Seq::empty(), 0i32)
    } else {
        let (s2, t, e) = reply(s, lines[0]);
        match e {
            Some(code) => (t, code),
            None => {
                let (t2, c2) = after_prompt(s2, lines.drop_first());
                (t + t2, c2)
            },
        }
    }
}

/// The whole session from state `s` with the given command lines.
pub open spec fn dialogue(s: VmState, lines: Seq<Seq<char>>) -> (Seq<char>, i32) {
    let (t, e) = start_text(s);
    match e {
        Some(code) => (t, code),
        None => {
            let (t2, c2) = after_prompt(s, lines);
            (t + t2, c2)
        },
    }
}

impl Debugger {
    /// The first screen (see `start_text`).
    pub fn start(&self) -> (r: Turn)
        requires
            self.wf(),
        ensures
            match r {
                Turn::Prompt(t) => start_text(self@) == (t@, None::<i32>),
                Turn::Exit(t, code) => start_text(self@) == (t@, Some(code)),
            },
    {
        let mut text = render_frame(&self.vm);
        if self.vm.halted() {
            text.append("program halted\n");
            Turn::Exit(text, 0)
        } else {
            text.append("> ");
            Turn::Prompt(text)
        }
    }

    /// Answers one command line (see `reply`); `None` stands for the end of
    /// the command stream, which ends the session with 0 and no text.
    pub fn respond(&mut self, line: Option<&str>) -> (r: Turn)
        requires
            old(self).wf(),
        ensures
            final(self).wf(),
            final(self).is_signed() == old(self).is_signed(),
            match line {
                None => final(self)@ == old(self)@ && (r matches Turn::Exit(t, code) && t@.len() == 0
                    && code == 0),
                Some(l) => {
                    let (s2, t, e) = reply(old(self)@, l@);
                    &&& final(self)@ == s2
                    &&& match r {
                        Turn::Prompt(x) => x@ == t && e == None::<i32>,
                        Turn::Exit(x, code) => x@ == t && e == Some(code),
                    }
                },
            },
    {
        reveal(reply);
        match line {
            None => Turn::Exit(String::new(), 0),
            Some(l) => {
                let cmd = parse_command(l);
                match cmd {
                    Command::Step => {
                        self.step_once();
                        self.start()
                    },
                    Command::Continue => {
                        let ghost before = self@;
                        let _ = self.apply(&cmd);
                        proof {
                            let k = choose|k: nat|
                                capped_run_of(before, k, RUN_SAFETY_CAP as nat) && self@
                                    == #[trigger] ticks(before, k);
                            let k2 = choose|k: nat| capped_run_of(before, k, RUN_SAFETY_CAP as nat);
                            lemma_capped_run_unique(before, k, k2, RUN_SAFETY_CAP as nat);
                        }
                        let mut text = render_frame(&self.vm);
                        if self.vm.halted() {
                            text.append("program halted\n");
                            Turn::Exit(text, 0)
                        } else {
                            text.append("run budget exhausted\n");
                            Turn::Exit(text, 124)
                        }
                    },
                    Command::Quit => Turn::Exit(String::new(), 0),
                    Command::Unknown(t) => {
                        let mut text = String::from_str("unknown command: ");
                        text.append(str_debug(t.as_str()).as_str());
                        text.append("\n");
                        match self.start() {
                            Turn::Prompt(p) => {
                                text.append(p.as_str());
                                Turn::Prompt(text)
                            },
                            Turn::Exit(p, code) => {
                                text.append(p.as_str());
                                Turn::Exit(text, code)
                            },
                        }
                    },
                }
            },
        }
    }
}

fn line_from(chars: &Vec<char>, from: usize, to: usize) -> (r: String)
    requires
        from <= to <= chars@.len(),
    ensures
        r@ == chars@.subrange(from as int, to as int),
{
    let mut out = String::new();
    let mut k = from;
    while k < to
        invariant
            from <= k <= to,
            to <= chars@.len(),
            out@ == chars@.subrange(from as int, k as int),
        decreases to - k,
    {
        push_char(&mut out, chars[k]);
        k = k + 1;
        assert(out@ =~= chars@.subrange(from as int, k as int));
    }
    out
}

/// Runs a whole debugger session over `source`, reading commands from
/// `commands` one line at a time. Returns the exit code, the text shown, and
/// what went to the error stream (the banner, with a line end, when the
/// program is signed).
pub fn debug_source_inner(source: &str, commands: &str) -> (r: (i32, String, String))
    requires
        source@.len() < i64::MAX,
    ensures
        exists|key: Seq<u8>|
            key.len() == 32 && (r.1@, r.0) == dialogue(
                #[trigger] initial_state(
                    layout(normalize_spec(source@)),
                    Seq::empty(),
                    Seq::empty(),
                    None,
                    key,
                ),
                command_lines(commands@),
            ),
        r.2@ == (if contains_text(normalize_spec(source@), SIGNATURE@) {
            banner_text() + seq!['\n']
        } else {
            Seq::empty()
        }),
{
    let mut dbg = Debugger::new(source);
    let mut err = String::new();
    if dbg.signed() {
        err = banner();
        err.append("\n");
        proof {
            reveal_strlit("\n");
        }
    }
    let ghost s0 = dbg@;
    let ghost err_text = err@;
    assert(err_text == (if contains_text(normalize_spec(source@), SIGNATURE@) {
        banner_text() + seq!['\n']
    } else {
        Seq::empty()
    }));
    let chars = to_chars(commands);
    let n = chars.len();
    let ghost lines = command_lines(commands@);
    let ghost goal = dialogue(s0, lines);
    let mut ui = String::new();
    match dbg.start() {
        Turn::Exit(t, code) => {
            return (code, t, err);
        },
        Turn::Prompt(t) => {
            ui = t;
        },
    }
    let mut pos: usize = 0;
    assert(chars@.skip(0) =~= commands@);
    loop
        invariant
            dbg.wf(),
            pos <= n,
            n == chars@.len(),
            chars@ == commands@,
            goal == dialogue(s0, lines),
            lines == command_lines(commands@),
            err@ == err_text,
            err_text == (if contains_text(normalize_spec(source@), SIGNATURE@) {
                banner_text() + seq!['\n']
            } else {
                Seq::empty()
            }),
            s0.env.key.len() == 32,
            s0 == initial_state(
                layout(normalize_spec(source@)),
                Seq::empty(),
                Seq::empty(),
                None,
                s0.env.key,
            ),
            goal.0 == ui@ + after_prompt(dbg@, command_lines(chars@.skip(pos as int))).0,
            goal.1 == after_prompt(dbg@, command_lines(chars@.skip(pos as int))).1,
        decreases n - pos,
    {
        if pos >= n {
            assert(chars@.skip(pos as int) =~= Seq::<char>::empty());
            let _ = dbg.respond(None);
            return (0, ui, err);
        }
        let mut j = pos;
        while j < n && chars[j] != '\n'
            invariant
                pos <= j <= n,
                n == chars@.len(),
                forall|t: int| pos <= t < j ==> chars@[t] != '\n',
            decreases n - j,
        {
            j = j + 1;
        }
        let end = if j < n {
            j + 1
        } else {
            n
        };
        let ghost rest = chars@.skip(pos as int);
        proof {
            lemma_line_end_at(rest, j - pos);
            assert(rest.take(end - pos) =~= chars@.subrange(pos as int, end as int));
            assert(rest.skip(end - pos) =~= chars@.skip(end as int));
            assert(command_lines(rest)[0] == chars@.subrange(pos as int, end as int));
            assert(command_lines(rest).drop_first() =~= command_lines(chars@.skip(end as int)));
        }
        let line = line_from(&chars, pos, end);
        match dbg.respond(Some(line.as_str())) {
            Turn::Exit(t, code) => {
                ui.append(t.as_str());
                return (code, ui, err);
            },
            Turn::Prompt(t) => {
                ui.append(t.as_str());
            },
        }
        pos = end;
    }
}

} // verus!
