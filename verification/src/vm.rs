//! The multi-IP execution loop.
//!
//! The VM holds an ordered list of IPs (birth order, oldest first) and the
//! shared state. One tick gives every live IP one turn, in order; IPs spawned
//! during the tick join the list at its end, and IPs that halted leave it.
//! The step counter counts ticks.

use crate::easter::{banner, banner_text, contains_text, detect, SIGNATURE};
use crate::grid::Grid;
use crate::parser::{layout, normalize_spec, parse};
use crate::machine::{
    chacha_key_from_entropy, chacha_key_from_seed, chacha_seed_of, ip_states, is_wind, ip_turn, root_ip, EnvState,
    IpContext, IpState, Shared,
};
use std::collections::HashSet;
use vstd::prelude::*;

verus! {

broadcast use vstd::std_specs::hash::group_hash_axioms;

/// How a run ended.
#[derive(Debug, Clone, Copy, PartialEq, Eq, Structural)]
pub enum ExitCode {
    /// Every IP halted.
    Success,
    /// The step budget ran out first.
    MaxSteps,
}

impl ExitCode {
    /// The process exit status: 0 for a clean halt, 124 when the step budget ran out.
    pub open spec fn code_spec(self) -> i32 {
        match self {
            ExitCode::Success => 0i32,
            ExitCode::MaxSteps => 124i32,
        }
    }

    /// The process exit status: 0 for a clean halt, 124 when the step budget ran out.
    pub fn code(self) -> (r: i32)
        ensures
            r == self.code_spec(),
    {
        match self {
            ExitCode::Success => 0,
            ExitCode::MaxSteps => 124,
        }
    }
}

/// The whole VM as a value.
pub struct VmState {
    pub env: EnvState,
    pub ips: Seq<IpState>,
    pub halted: bool,
    pub steps: u64,
    pub max_steps: Option<u64>,
}

/// The live IPs of a list: those that did not halt, in their order.
pub open spec fn live(s: Seq<IpState>) -> Seq<IpState>
    decreases s.len(),
{
    if s.len() == 0 {
        s
    } else if s.last().halted {
        live(s.drop_last())
    } else {
        live(s.drop_last()).push(s.last())
    }
}

/// The turns of IPs `0 .. n` in order; a halted IP has no turn.
pub open spec fn turns(s: VmState, n: nat) -> VmState
    decreases n,
{
    if n == 0 {
        s
    } else {
        let t = turns(s, (n - 1) as nat);
        let i = n - 1;
        if i < t.ips.len() && !t.ips[i].halted {
            let (e, c) = ip_turn(t.env, t.ips[i]);
            VmState { env: e, ips: t.ips.update(i, c), ..t }
        } else {
            t
        }
    }
}

/// Turns change neither the counters nor the number of IPs.
pub proof fn lemma_turns_frame(s: VmState, n: nat)
    ensures
        turns(s, n).steps == s.steps,
        turns(s, n).max_steps == s.max_steps,
        turns(s, n).halted == s.halted,
        turns(s, n).ips.len() == s.ips.len(),
    decreases n,
{
    if n > 0 {
        lemma_turns_frame(s, (n - 1) as nat);
    }
}

/// The end of a tick: spawned IPs join the list, halted IPs leave it, and the
/// VM halts once no IP is left.
pub open spec fn end_tick(s: VmState) -> VmState {
    let ips = live(s.ips + s.env.pending);
    VmState {
        env: EnvState { pending: Seq::empty(), ..s.env },
        ips,
        halted: s.halted || ips.len() == 0,
        ..s
    }
}

/// One tick: every live IP takes one turn, in birth order.
pub open spec fn tick(s: VmState) -> VmState {
    end_tick(turns(s, s.ips.len()))
}

/// A tick counted by the step counter.
pub open spec fn counted_tick(s: VmState) -> VmState {
    let t = tick(s);
    VmState { steps: (t.steps + 1) as u64, ..t }
}

/// The state after `k` counted ticks.
pub open spec fn ticks(s: VmState, k: nat) -> VmState
    decreases k,
{
    if k == 0 {
        s
    } else {
        counted_tick(ticks(s, (k - 1) as nat))
    }
}

/// Whether the counter may count one more tick: below the budget, if any,
/// and below the counter's own limit.
pub open spec fn under_budget(s: VmState) -> bool {
    &&& s.steps < u64::MAX
    &&& match s.max_steps {
        Some(cap) => s.steps < cap,
        None => true,
    }
}

/// Whether a run goes on from `s`.
pub open spec fn runs_on(s: VmState) -> bool {
    !s.halted && under_budget(s)
}

/// A run from `s0` that took `k` ticks and stopped at the first state where
/// every IP had halted or the budget ran out.
pub open spec fn run_of(s0: VmState, k: nat) -> bool {
    &&& forall|j: nat| j < k ==> runs_on(#[trigger] ticks(s0, j))
    &&& !runs_on(ticks(s0, k))
}

/// A run stops after a number of ticks that the start state fixes: the same
/// start state, and so the same program, seed, budget and input, gives the same
/// final state, output and exit code.
pub proof fn lemma_run_unique(s0: VmState, k1: nat, k2: nat)
    requires
        run_of(s0, k1),
        run_of(s0, k2),
    ensures
        k1 == k2,
{
    if k1 < k2 {
        assert(runs_on(ticks(s0, k1)));
    } else if k2 < k1 {
        assert(runs_on(ticks(s0, k2)));
    }
}

/// The exit code at the end of a run.
pub open spec fn exit_of(s: VmState) -> ExitCode {
    if s.halted {
        ExitCode::Success
    } else {
        ExitCode::MaxSteps
    }
}

/// The VM: the ordered list of live IPs and the state they share.
pub struct Vm {
    ips: Vec<IpContext>,
    shared: Shared,
    halted: bool,
    steps: u64,
    max_steps: Option<u64>,
}

impl View for Vm {
    type V = VmState;

    closed spec fn view(&self) -> VmState {
        VmState {
            env: self.shared@,
            ips: ip_states(self.ips@),
            halted: self.halted,
            steps: self.steps,
            max_steps: self.max_steps,
        }
    }
}

/// Every IP of the state heads in one of the eight wind directions.
pub open spec fn all_winds(s: VmState) -> bool {
    forall|i: int| 0 <= i < s.ips.len() ==> is_wind(#[trigger] s.ips[i].dx, s.ips[i].dy)
}

/// The oldest live IP, or the defaults of a fresh IP when none is left.
pub open spec fn first_or_root(s: VmState) -> IpState {
    if s.ips.len() > 0 {
        s.ips[0]
    } else {
        IpState { x: 0, y: 0, dx: 1, dy: 0, stack: Seq::empty(), strmode: false, halted: false }
    }
}

/// The state of a VM that has not run yet.
pub open spec fn initial_state(
    grid: Map<(i64, i64), int>,
    input: Seq<u8>,
    err: Seq<char>,
    max_steps: Option<u64>,
    key: Seq<u8>,
) -> VmState {
    VmState {
        env: EnvState {
            grid,
            pending: Seq::empty(),
            input,
            pos: 0,
            out: Seq::empty(),
            err,
            warned: Set::empty(),
            key,
            word_pos: 0,
        },
        ips: seq![root_ip()],
        halted: false,
        steps: 0,
        max_steps,
    }
}

impl Vm {
    /// Between ticks no spawned IP is waiting, the input position is within
    /// the input, and the VM is halted exactly when no IP is left.
    pub closed spec fn wf(&self) -> bool {
        &&& self.shared.wf()
        &&& self.shared.pending@.len() == 0
        &&& self.halted == (self.ips@.len() == 0)
        &&& forall|i: int|
            0 <= i < self.ips@.len() ==> is_wind(#[trigger] self.ips@[i].ip.dx, self.ips@[i].ip.dy)
    }

    /// Every live IP always heads in one of the eight wind directions.
    pub proof fn lemma_heads_wind(&self)
        requires
            self.wf(),
        ensures
            all_winds(self@),
    {
        assert forall|i: int| 0 <= i < self@.ips.len() implies is_wind(
            #[trigger] self@.ips[i].dx,
            self@.ips[i].dy,
        ) by {
            assert(self@.ips[i] == self.ips@[i]@);
        }
    }

    /// A VM over `grid` with one IP at the origin heading east. With a `seed`
    /// the generator's key is the one the seed expands to, so that runs are
    /// reproducible; without one the key comes from the operating system. The program reads its input from `input`.
    pub fn with_input(grid: Grid, seed: Option<u64>, max_steps: Option<u64>, input: Vec<u8>) -> (vm: Vm)
        ensures
            vm.wf(),
            vm@ == initial_state(grid@, input@, Seq::empty(), max_steps, vm@.env.key),
            vm@.env.key.len() == 32,
            seed matches Some(s) ==> vm@.env.key == chacha_seed_of(s),
    {
        let key = match seed {
            Some(s) => chacha_key_from_seed(s),
            None => chacha_key_from_entropy(),
        };
        let mut ips: Vec<IpContext> = Vec::new();
        ips.push(IpContext::new_root());
        let vm = Vm {
            ips,
            shared: Shared {
                grid,
                pending: Vec::new(),
                key,
                word_pos: 0,
                warned: HashSet::new(),
                input,
                input_pos: 0,
                out: String::new(),
                err: String::new(),
            },
            halted: false,
            steps: 0,
            max_steps,
        };
        assert(vm@.ips =~= seq![root_ip()]);
        assert(vm@.env.pending =~= Seq::<IpState>::empty());
        vm
    }

    /// A VM over `grid` whose program gets an empty input.
    pub fn new(grid: Grid, seed: Option<u64>, max_steps: Option<u64>) -> (vm: Vm)
        ensures
            vm.wf(),
            vm@ == initial_state(grid@, Seq::empty(), Seq::empty(), max_steps, vm@.env.key),
            vm@.env.key.len() == 32,
            seed matches Some(s) ==> vm@.env.key == chacha_seed_of(s),
    {
        let vm = Vm::with_input(grid, seed, max_steps, Vec::new());
        assert(vm@.env.input =~= Seq::<u8>::empty());
        vm
    }

    /// Appends `text` to the error stream, ahead of anything the program writes.
    pub fn write_err(&mut self, text: &str)
        requires
            old(self).wf(),
        ensures
            final(self).wf(),
            final(self)@ == (VmState {
                env: EnvState { err: old(self)@.env.err + text@, ..old(self)@.env },
                ..old(self)@
            }),
    {
        self.shared.err.append(text);
    }

    /// The grid.
    pub fn grid(&self) -> (g: &Grid)
        ensures
            g@ == self@.env.grid,
    {
        &self.shared.grid
    }

    /// The live IPs, oldest first.
    pub fn ips(&self) -> (r: &Vec<IpContext>)
        ensures
            ip_states(r@) == self@.ips,
    {
        &self.ips
    }

    /// The oldest live IP, or `None` once every IP has halted.
    pub fn first_ip(&self) -> (r: Option<&IpContext>)
        ensures
            match r {
                Some(c) => self@.ips.len() > 0 && c@ == self@.ips[0],
                None => self@.ips.len() == 0,
            },
    {
        if self.ips.len() > 0 {
            Some(&self.ips[0])
        } else {
            None
        }
    }

    /// Whether every IP has halted.
    pub fn halted(&self) -> (r: bool)
        ensures
            r == self@.halted,
    {
        self.halted
    }

    /// Ticks executed so far.
    pub fn steps(&self) -> (r: u64)
        ensures
            r == self@.steps,
    {
        self.steps
    }

    /// The step budget, if any.
    pub fn max_steps(&self) -> (r: Option<u64>)
        ensures
            r == self@.max_steps,
    {
        self.max_steps
    }

    /// What the program wrote to its output so far.
    pub fn stdout(&self) -> (r: &str)
        ensures
            r@ == self@.env.out,
    {
        self.shared.out.as_str()
    }

    /// What was written to the error stream so far.
    pub fn stderr(&self) -> (r: &str)
        ensures
            r@ == self@.env.err,
    {
        self.shared.err.as_str()
    }

    /// Executes one tick: every live IP takes one turn, in birth order. IPs
    /// spawned by `t` join at the end of the list and first run on the next
    /// tick; IPs that executed `@` leave the list at the end of this tick.
    /// The step counter is not changed.
    pub fn step(&mut self)
        requires
            old(self).wf(),
        ensures
            final(self).wf(),
            final(self)@ == tick(old(self)@),
    {
        let n = self.ips.len();
        let ghost start = self@;
        let mut i: usize = 0;
        while i < n
            invariant
                0 <= i <= n,
                n == self.ips@.len(),
                n == start.ips.len(),
                self.shared.wf(),
                self@ == turns(start, i as nat),
                forall|j: int|
                    0 <= j < self.ips@.len() ==> is_wind(
                        #[trigger] self.ips@[j].ip.dx,
                        self.ips@[j].ip.dy,
                    ),
            decreases n - i,
        {
            let ghost before = self@;
            let ghost before_ips = self.ips@;
            if !self.ips[i].halted {
                self.shared.run_ip(&mut self.ips[i]);
                assert(self@.ips =~= before.ips.update(i as int, self.ips@[i as int]@));
                assert(forall|j: int| 0 <= j < n && j != i ==> self.ips@[j] == before_ips[j]);
            }
            i = i + 1;
        }
        let ghost mid = self@;
        proof {
            lemma_turns_frame(start, n as nat);
        }
        let mut all: Vec<IpContext> = Vec::new();
        std::mem::swap(&mut all, &mut self.ips);
        let mut spawned: Vec<IpContext> = Vec::new();
        std::mem::swap(&mut spawned, &mut self.shared.pending);
        let ghost ips_part = all@;
        let ghost pending_part = spawned@;
        all.append(&mut spawned);
        assert(ip_states(all@) =~= mid.ips + mid.env.pending);
        assert forall|j: int| 0 <= j < all@.len() implies is_wind(
            #[trigger] all@[j].ip.dx,
            all@[j].ip.dy,
        ) by {
            if j < ips_part.len() {
                assert(all@[j] == ips_part[j]);
            } else {
                assert(all@[j] == pending_part[j - ips_part.len()]);
            }
        }
        let ghost all_states = ip_states(all@);
        let mut kept: Vec<IpContext> = Vec::new();
        let total = all.len();
        let mut k: usize = 0;
        while k < total
            invariant
                k <= total,
                total == all@.len(),
                all_states.len() == total,
                forall|j: int| k <= j < total ==> #[trigger] all@[j]@ == all_states[j],
                forall|j: int|
                    k <= j < total ==> is_wind(#[trigger] all@[j].ip.dx, all@[j].ip.dy),
                forall|j: int|
                    0 <= j < kept@.len() ==> is_wind(#[trigger] kept@[j].ip.dx, kept@[j].ip.dy),
                ip_states(kept@) == live(all_states.take(k as int)),
            decreases total - k,
        {
            let ghost all_before = all@;
            let mut c = IpContext::new_root();
            std::mem::swap(&mut c, &mut all[k]);
            assert(c@ == all_states[k as int]);
            assert(forall|j: int| k < j < total ==> all@[j] == all_before[j]);
            assert(all_states.take(k + 1).drop_last() =~= all_states.take(k as int));
            assert(all_states.take(k + 1).last() == all_states[k as int]);
            assert(is_wind(c.ip.dx, c.ip.dy));
            if !c.halted {
                let ghost before = kept@;
                kept.push(c);
                assert(ip_states(kept@) =~= ip_states(before).push(all_states[k as int]));
            }
            k = k + 1;
        }
        assert(all_states.take(total as int) =~= all_states);
        assert(start.halted ==> all_states.len() == 0);
        assert(ip_states(kept@).len() == kept@.len());
        let empty = kept.len() == 0;
        self.ips = kept;
        if empty {
            self.halted = true;
        }
        assert(self@.env.pending =~= Seq::<IpState>::empty());
        assert(self@ == tick(start));
    }

    /// Executes one tick and counts it.
    pub fn counted_step(&mut self)
        requires
            old(self).wf(),
            old(self)@.steps < u64::MAX,
        ensures
            final(self).wf(),
            final(self)@ == counted_tick(old(self)@),
            final(self)@.steps == old(self)@.steps + 1,
            final(self)@.max_steps == old(self)@.max_steps,
    {
        let ghost start = self@;
        self.step();
        proof {
            lemma_turns_frame(start, start.ips.len());
        }
        self.steps = self.steps + 1;
    }

    /// Runs ticks until every IP has halted or the step budget runs out.
    pub fn run(&mut self) -> (r: ExitCode)
        requires
            old(self).wf(),
        ensures
            final(self).wf(),
            exists|k: nat| run_of(old(self)@, k) && final(self)@ == #[trigger] ticks(old(self)@, k),
            r == exit_of(final(self)@),
    {
        let ghost start = old(self)@;
        let ghost mut k: nat = 0;
        loop
            invariant_except_break
                self.wf(),
                self@ == ticks(start, k),
                forall|j: nat| j < k ==> runs_on(#[trigger] ticks(start, j)),
            ensures
                self.wf(),
                run_of(start, k),
                self@ == ticks(start, k),
            decreases u64::MAX - self.steps,
        {
            let at_cap = match self.max_steps {
                Some(cap) => self.steps >= cap,
                None => false,
            };
            if self.halted || at_cap || self.steps == u64::MAX {
                break;
            }
            let ghost before = self@;
            assert(runs_on(before));
            self.counted_step();
            proof {
                assert forall|j: nat| j < k + 1 implies runs_on(#[trigger] ticks(start, j)) by {
                    if j == k {
                        assert(ticks(start, j) == before);
                    }
                }
                k = k + 1;
            }
        }
        if self.halted {
            ExitCode::Success
        } else {
            ExitCode::MaxSteps
        }
    }

    /// Runs at most `limit` ticks. Returns the exit code once every IP has
    /// halted or the step budget has run out, and `None` while the program
    /// would go on.
    pub fn run_for(&mut self, limit: u64) -> (r: Option<ExitCode>)
        requires
            old(self).wf(),
        ensures
            final(self).wf(),
            exists|k: nat|
                k <= limit && final(self)@ == #[trigger] ticks(old(self)@, k) && (forall|j: nat|
                    j < k ==> runs_on(#[trigger] ticks(old(self)@, j))),
            match r {
                Some(code) => !runs_on(final(self)@) && code == exit_of(final(self)@),
                None => runs_on(final(self)@),
            },
            r is None ==> final(self)@ == ticks(old(self)@, limit as nat),
    {
        let ghost start = old(self)@;
        let ghost mut k: nat = 0;
        let mut left = limit;
        loop
            invariant_except_break
                self.wf(),
                self@ == ticks(start, k),
                k + left == limit,
                forall|j: nat| j < k ==> runs_on(#[trigger] ticks(start, j)),
            ensures
                self.wf(),
                self@ == ticks(start, k),
                k <= limit,
                forall|j: nat| j < k ==> runs_on(#[trigger] ticks(start, j)),
                !runs_on(self@) || k == limit,
            decreases left,
        {
            let at_cap = match self.max_steps {
                Some(cap) => self.steps >= cap,
                None => false,
            };
            if self.halted || at_cap || self.steps == u64::MAX || left == 0 {
                break;
            }
            let ghost before = self@;
            assert(runs_on(before));
            self.counted_step();
            proof {
                assert forall|j: nat| j < k + 1 implies runs_on(#[trigger] ticks(start, j)) by {
                    if j == k {
                        assert(ticks(start, j) == before);
                    }
                }
                k = k + 1;
            }
            left = left - 1;
        }
        let at_cap = match self.max_steps {
            Some(cap) => self.steps >= cap,
            None => false,
        };
        if self.halted {
            Some(ExitCode::Success)
        } else if at_cap || self.steps == u64::MAX {
            Some(ExitCode::MaxSteps)
        } else {
            None
        }
    }
}

/// What `run_source` needs besides the source text.
pub struct RunOptions {
    /// Seed of the `Turbulence` generator; without one the operating system seeds it.
    pub seed: Option<u64>,
    /// Tick budget; without one the program runs until every IP halts.
    pub max_steps: Option<u64>,
    /// The bytes the program reads with `&` and `?`.
    pub stdin: Vec<u8>,
}

/// The state a run of `source` starts from, given the generator's key: the
/// grid laid out from the normalized text, and the banner (with a line end)
/// already on the error stream when the text carries the signature.
pub open spec fn source_start(source: Seq<char>, input: Seq<u8>, max_steps: Option<u64>, key: Seq<u8>) -> VmState {
    let text = normalize_spec(source);
    let err = if contains_text(text, SIGNATURE@) {
        banner_text() + seq!['\n']
    } else {
        Seq::empty()
    };
    initial_state(layout(text), input, err, max_steps, key)
}

/// Whether `(exit, out, err)` is how a run from `s0` ends.
pub open spec fn outcome_of(s0: VmState, exit: ExitCode, out: Seq<char>, err: Seq<char>) -> bool {
    exists|k: nat|
        run_of(s0, k) && exit == exit_of(#[trigger] ticks(s0, k)) && out == ticks(s0, k).env.out && err
            == ticks(s0, k).env.err
}

/// Whether `key` is a generator key that `seed` allows: the key the seed
/// expands to, or any 32-byte key when there is no seed.
pub open spec fn key_for(seed: Option<u64>, key: Seq<u8>) -> bool {
    &&& key.len() == 32
    &&& seed matches Some(s) ==> key == chacha_seed_of(s)
}

/// A run of `source` stopped after `k` ticks ends as every other run with
/// the same seed, budget and input: the same exit code, output and error
/// stream. So two seeded runs agree, and stepping a program to its end gives
/// what a batch run gives.
pub proof fn lemma_seeded_runs_agree(
    source: Seq<char>,
    input: Seq<u8>,
    max_steps: Option<u64>,
    seed: u64,
    key1: Seq<u8>,
    k: nat,
    key2: Seq<u8>,
    exit: ExitCode,
    out: Seq<char>,
    err: Seq<char>,
)
    requires
        key_for(Some(seed), key1),
        run_of(source_start(source, input, max_steps, key1), k),
        key_for(Some(seed), key2),
        outcome_of(source_start(source, input, max_steps, key2), exit, out, err),
    ensures
        exit_of(ticks(source_start(source, input, max_steps, key1), k)) == exit,
        ticks(source_start(source, input, max_steps, key1), k).env.out == out,
        ticks(source_start(source, input, max_steps, key1), k).env.err == err,
{
    let s0 = source_start(source, input, max_steps, key1);
    let k2 = choose|j: nat|
        run_of(s0, j) && exit == exit_of(#[trigger] ticks(s0, j)) && out == ticks(s0, j).env.out
            && err == ticks(s0, j).env.err;
    lemma_run_unique(s0, k, k2);
}

/// Two runs with the same seed, program, budget and input end the same way:
/// the same exit code, output and error stream.
pub proof fn lemma_seeded_outcomes_agree(
    source: Seq<char>,
    input: Seq<u8>,
    max_steps: Option<u64>,
    seed: u64,
    key1: Seq<u8>,
    exit1: ExitCode,
    out1: Seq<char>,
    err1: Seq<char>,
    key2: Seq<u8>,
    exit2: ExitCode,
    out2: Seq<char>,
    err2: Seq<char>,
)
    requires
        key_for(Some(seed), key1),
        outcome_of(source_start(source, input, max_steps, key1), exit1, out1, err1),
        key_for(Some(seed), key2),
        outcome_of(source_start(source, input, max_steps, key2), exit2, out2, err2),
    ensures
        exit1 == exit2,
        out1 == out2,
        err1 == err2,
{
    let s0 = source_start(source, input, max_steps, key1);
    let k1 = choose|j: nat|
        run_of(s0, j) && exit1 == exit_of(#[trigger] ticks(s0, j)) && out1 == ticks(s0, j).env.out
            && err1 == ticks(s0, j).env.err;
    lemma_seeded_runs_agree(source, input, max_steps, seed, key1, k1, key2, exit2, out2, err2);
}

/// Parses `source`, writes the banner to the error stream if the text is
/// signed, and runs it. Returns the exit code and what was written to the
/// output and error streams.
pub fn run_source(source: &str, opts: RunOptions) -> (r: (ExitCode, String, String))
    requires
        source@.len() < i64::MAX,
    ensures
        exists|key: Seq<u8>|
            key_for(opts.seed, key) && outcome_of(
                #[trigger] source_start(source@, opts.stdin@, opts.max_steps, key),
                r.0,
                r.1@,
                r.2@,
            ),
{
    let (grid, scan_text) = parse(source);
    let signed = detect(scan_text.as_str());
    let mut vm = Vm::with_input(grid, opts.seed, opts.max_steps, opts.stdin);
    let ghost key = vm@.env.key;
    if signed {
        let mut line = banner();
        line.append("\n");
        vm.write_err(line.as_str());
        proof {
            reveal_strlit("\n");
            assert(vm@.env.err =~= banner_text() + seq!['\n']);
        }
    } else {
        assert(vm@.env.err =~= Seq::<char>::empty());
    }
    proof {
        reveal_strlit("\n");
        assert(vm@ == source_start(source@, opts.stdin@, opts.max_steps, key));
    }
    let ghost start = vm@;
    let code = vm.run();
    let out = String::from_str(vm.stdout());
    let err = String::from_str(vm.stderr());
    proof {
        let k = choose|k: nat| run_of(start, k) && vm@ == #[trigger] ticks(start, k);
        assert(outcome_of(start, code, out@, err@));
    }
    (code, out, err)
}

} // verus!
