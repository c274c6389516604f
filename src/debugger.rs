//! The debugger: breakpoints, stepping in both directions, restart, paced
//! execution, and the execution-state machine that the shell observes.
use vstd::prelude::*;
use std::collections::HashSet;
use crate::emulator::Emulator;
use crate::machine::{
    backward, backward_n, forward, lemma_backward_rewound, lemma_run_n_last, lemma_run_n_stopped,
    must_stop, rewound, run_n, Timeline,
};
use crate::types::Register;
use vstd::arithmetic::div_mod::{
    lemma_fundamental_div_mod_converse_div, lemma_fundamental_div_mod_converse_mod,
};

verus! {

broadcast use vstd::std_specs::hash::group_hash_axioms;

/// Nanoseconds in a second.
pub const NANOS_PER_SECOND: u64 = 1_000_000_000;

/// The fastest pace: one instruction per nanosecond.
pub const MAX_IPS: u32 = 1_000_000_000;

/// Instructions per second when a debugger is created.
pub const DEFAULT_IPS: u32 = 5;

/// What the debugger is doing, as the shell sees it.
#[derive(Debug, Clone, Copy, PartialEq, Eq, Structural)]
pub enum ExecutionState {
    /// Just assembled, or fully rewound.
    Start,
    /// Paced forward execution.
    Running,
    /// Paused by the user.
    Paused,
    /// The last action was a step.
    Stepping,
    /// `PC` sits on a breakpoint.
    BreakpointHit,
    /// The machine has executed `HALT`.
    Halted,
}

/// A request to the debugger from the shell.
#[derive(Debug, Clone, Copy, PartialEq, Eq, Structural)]
pub enum Message {
    Run,
    /// Time passed while running, in nanoseconds.
    Tick(u64),
    Pause,
    Resume,
    Restart,
    StepOver,
    StepForward,
    StepBackward,
    SetBreakpoint(u32),
    RemoveBreakpoint(u32),
}

impl ExecutionState {
    /// Whether a message is accepted in this state.
    pub open spec fn allows(self, m: Message) -> bool {
        match m {
            Message::SetBreakpoint(_) | Message::RemoveBreakpoint(_) => true,
            Message::Run => self is Start || self is Paused || self is Stepping,
            Message::Resume => self is Paused,
            Message::Tick(_) | Message::Pause => self is Running,
            Message::StepForward => !(self is Running || self is Halted),
            Message::StepBackward => !(self is Start || self is Running),
            Message::StepOver => self is Stepping || self is BreakpointHit,
            Message::Restart => !(self is Start || self is Running),
        }
    }

    /// Whether a message is accepted in this state.
    pub fn accepts(self, m: Message) -> (r: bool)
        ensures
            r == self.allows(m),
    {
        match m {
            Message::SetBreakpoint(_) | Message::RemoveBreakpoint(_) => true,
            Message::Run => matches!(
                self,
                ExecutionState::Start | ExecutionState::Paused | ExecutionState::Stepping
            ),
            Message::Resume => matches!(self, ExecutionState::Paused),
            Message::Tick(_) | Message::Pause => matches!(self, ExecutionState::Running),
            Message::StepForward => !matches!(
                self,
                ExecutionState::Running | ExecutionState::Halted
            ),
            Message::StepBackward => !matches!(self, ExecutionState::Start | ExecutionState::Running),
            Message::StepOver => matches!(
                self,
                ExecutionState::Stepping | ExecutionState::BreakpointHit
            ),
            Message::Restart => !matches!(self, ExecutionState::Start | ExecutionState::Running),
        }
    }
}

/// The state a step leaves the debugger in: `Start` at step zero, else
/// `Halted`, `BreakpointHit` or `Stepping`, in that order of precedence.
pub open spec fn settled(v: Timeline, breakpoints: Set<u32>) -> ExecutionState {
    if v.past.len() == 0 {
        ExecutionState::Start
    } else if v.machine.halted() {
        ExecutionState::Halted
    } else if breakpoints.contains(v.machine.reg(Register::PC)) {
        ExecutionState::BreakpointHit
    } else {
        ExecutionState::Stepping
    }
}

/// The state in which paced execution ends: `Halted` or `BreakpointHit`.
pub open spec fn stop_state(v: Timeline) -> ExecutionState {
    if v.machine.halted() {
        ExecutionState::Halted
    } else {
        ExecutionState::BreakpointHit
    }
}

/// Length of one instruction period at a pace, in nanoseconds.
pub open spec fn period(ips: u32) -> u64 {
    (NANOS_PER_SECOND / ips as u64) as u64
}

/// A time-reversible debugger over an emulator: a set of breakpoint
/// addresses, a pace in instructions per second, and an execution state.
pub struct Debugger {
    instructions_per_second: u32,
    breakpoints: HashSet<u32>,
    emulator: Emulator,
    execution_state: ExecutionState,
    /// Nanoseconds accumulated towards the next paced cycle.
    elapsed: u64,
}

impl Debugger {
    pub closed spec fn wf(&self) -> bool {
        &&& self.emulator.wf()
        &&& 0 < self.instructions_per_second <= MAX_IPS
    }

    /// The emulator's timeline.
    pub closed spec fn timeline(&self) -> Timeline {
        self.emulator@
    }

    pub closed spec fn breakpoint_set(&self) -> Set<u32> {
        self.breakpoints@
    }

    pub closed spec fn ips(&self) -> u32 {
        self.instructions_per_second
    }

    pub closed spec fn state(&self) -> ExecutionState {
        self.execution_state
    }

    /// Nanoseconds accumulated towards the next paced cycle.
    pub closed spec fn pending_nanos(&self) -> u64 {
        self.elapsed
    }

    /// A debugger at step zero over a program image, with no breakpoints, the
    /// default pace and state `Start`.
    pub fn new(instructions: &[u32]) -> (r: Self)
        requires
            instructions@.len() <= u32::MAX as int + 1,
        ensures
            r.wf(),
            r.timeline().machine == crate::machine::initial_state(instructions@),
            r.timeline().past.len() == 0,
            r.breakpoint_set() == Set::<u32>::empty(),
            r.ips() == DEFAULT_IPS,
            r.state() == ExecutionState::Start,
            r.pending_nanos() == 0,
    {
        Debugger {
            instructions_per_second: DEFAULT_IPS,
            breakpoints: HashSet::new(),
            emulator: Emulator::new(instructions),
            execution_state: ExecutionState::Start,
            elapsed: 0,
        }
    }

    /// The emulator.
    pub fn emulator(&self) -> (r: &Emulator)
        requires
            self.wf(),
        ensures
            r.wf(),
            r@ == self.timeline(),
    {
        &self.emulator
    }

    /// Current value of a register.
    pub fn read_reg(&self, reg: Register) -> (r: u32)
        requires
            self.wf(),
        ensures
            r == self.timeline().machine.reg(reg),
    {
        self.emulator.read_reg(reg)
    }

    /// Current word at an address.
    pub fn read_mem(&self, address: u32) -> (r: u32)
        requires
            self.wf(),
        ensures
            r == self.timeline().machine.word(address),
    {
        self.emulator.read_mem(address)
    }

    /// The current execution state.
    pub fn execution_state(&self) -> (r: ExecutionState)
        ensures
            r == self.state(),
    {
        self.execution_state
    }

    /// The pace of `run`, in instructions per second.
    pub fn instructions_per_second(&self) -> (r: u32)
        ensures
            r == self.ips(),
    {
        self.instructions_per_second
    }

    /// Sets the pace of paced execution; a pace of zero or above `MAX_IPS` is
    /// refused (false, no change).
    pub fn set_instructions_per_second(&mut self, ips: u32) -> (r: bool)
        requires
            old(self).wf(),
        ensures
            final(self).wf(),
            r == (0 < ips <= MAX_IPS),
            final(self).ips() == (if r { ips } else { old(self).ips() }),
            final(self).timeline() == old(self).timeline(),
            final(self).breakpoint_set() == old(self).breakpoint_set(),
            final(self).state() == old(self).state(),
            final(self).pending_nanos() == old(self).pending_nanos(),
    {
        if ips == 0 || ips > MAX_IPS {
            return false;
        }
        self.instructions_per_second = ips;
        true
    }

    /// Whether the machine has halted.
    pub fn halted(&self) -> (r: bool)
        requires
            self.wf(),
        ensures
            r == self.timeline().machine.halted(),
    {
        self.emulator.halted()
    }

    /// Whether a breakpoint is set at an address.
    pub fn query(&self, address: u32) -> (r: bool)
        ensures
            r == self.breakpoint_set().contains(address),
    {
        self.breakpoints.contains(&address)
    }

    /// Whether forward execution must yield: halted, or a breakpoint at `PC`.
    pub fn should_stop(&self) -> (r: bool)
        requires
            self.wf(),
        ensures
            r == must_stop(self.timeline().machine, self.breakpoint_set()),
    {
        self.halted() || self.query(self.emulator.read_reg(Register::PC))
    }

    /// Sets a breakpoint at an address.
    pub fn set_breakpoint(&mut self, address: u32)
        requires
            old(self).wf(),
        ensures
            final(self).wf(),
            final(self).breakpoint_set() == old(self).breakpoint_set().insert(address),
            final(self).timeline() == old(self).timeline(),
            final(self).ips() == old(self).ips(),
            final(self).state() == old(self).state(),
            final(self).pending_nanos() == old(self).pending_nanos(),
    {
        self.breakpoints.insert(address);
    }

    /// Removes the breakpoint at an address; returns whether there was one.
    pub fn remove_breakpoint(&mut self, address: u32) -> (r: bool)
        requires
            old(self).wf(),
        ensures
            final(self).wf(),
            r == old(self).breakpoint_set().contains(address),
            final(self).breakpoint_set() == old(self).breakpoint_set().remove(address),
            final(self).timeline() == old(self).timeline(),
            final(self).ips() == old(self).ips(),
            final(self).state() == old(self).state(),
            final(self).pending_nanos() == old(self).pending_nanos(),
    {
        self.breakpoints.remove(&address)
    }

    /// One cycle regardless of breakpoints, unless halted.
    pub fn step_over(&mut self)
        requires
            old(self).wf(),
        ensures
            final(self).wf(),
            final(self).timeline() == (if old(self).timeline().machine.halted() {
                old(self).timeline()
            } else {
                forward(old(self).timeline())
            }),
            final(self).breakpoint_set() == old(self).breakpoint_set(),
            final(self).ips() == old(self).ips(),
            final(self).state() == old(self).state(),
            final(self).pending_nanos() == old(self).pending_nanos(),
    {
        if !self.halted() {
            self.emulator.cycle();
        }
    }

    /// Up to `steps` cycles, stopping once halted or at a breakpoint on `PC`.
    pub fn stepi(&mut self, steps: usize)
        requires
            old(self).wf(),
        ensures
            final(self).wf(),
            final(self).timeline() == run_n(
                old(self).timeline(),
                old(self).breakpoint_set(),
                steps as nat,
            ),
            final(self).breakpoint_set() == old(self).breakpoint_set(),
            final(self).ips() == old(self).ips(),
            final(self).state() == old(self).state(),
            final(self).pending_nanos() == old(self).pending_nanos(),
    {
        let ghost bps = self.breakpoint_set();
        for i in 0..steps
            invariant
                self.wf(),
                self.breakpoint_set() == bps,
                bps == old(self).breakpoint_set(),
                self.ips() == old(self).ips(),
                self.state() == old(self).state(),
                self.pending_nanos() == old(self).pending_nanos(),
                self.timeline() == run_n(old(self).timeline(), bps, i as nat),
        {
            proof {
                lemma_run_n_last(old(self).timeline(), bps, i as nat);
            }
            if !self.should_stop() {
                self.emulator.cycle();
            }
        }
    }

    /// Up to `steps` steps backward; at step zero a step backward does nothing.
    pub fn backi(&mut self, steps: usize)
        requires
            old(self).wf(),
        ensures
            final(self).wf(),
            final(self).timeline() == backward_n(old(self).timeline(), steps as nat),
            final(self).breakpoint_set() == old(self).breakpoint_set(),
            final(self).ips() == old(self).ips(),
            final(self).state() == old(self).state(),
            final(self).pending_nanos() == old(self).pending_nanos(),
    {
        self.emulator.backi(steps);
    }

    /// Steps back until the journal is exhausted: the state at step zero.
    pub fn restart(&mut self)
        requires
            old(self).wf(),
        ensures
            final(self).wf(),
            final(self).timeline() == rewound(old(self).timeline()),
            final(self).breakpoint_set() == old(self).breakpoint_set(),
            final(self).ips() == old(self).ips(),
            final(self).state() == old(self).state(),
            final(self).pending_nanos() == old(self).pending_nanos(),
    {
        loop
            invariant
                self.wf(),
                rewound(self.timeline()) == rewound(old(self).timeline()),
                self.breakpoint_set() == old(self).breakpoint_set(),
                self.ips() == old(self).ips(),
                self.state() == old(self).state(),
                self.pending_nanos() == old(self).pending_nanos(),
            decreases self.timeline().past.len(),
        {
            proof {
                lemma_backward_rewound(self.timeline());
            }
            if !self.emulator.step_backward() {
                return;
            }
        }
    }

    /// Paced execution: while `Running`, `nanos` more nanoseconds have passed.
    /// With the time accumulated so far, this covers `n` instruction periods;
    /// up to `n` cycles run, stopping once halted or at a breakpoint. On a stop
    /// the state becomes `Halted` or `BreakpointHit` and the accumulated time
    /// is dropped; otherwise the remainder is kept. In any other state
    /// nothing happens.
    pub fn tick(&mut self, nanos: u64)
        requires
            old(self).wf(),
        ensures
            final(self).wf(),
            final(self).breakpoint_set() == old(self).breakpoint_set(),
            final(self).ips() == old(self).ips(),
            old(self).state() != ExecutionState::Running ==> final(self).timeline() == old(self).timeline() && final(self).state() == old(self).state() && final(self).pending_nanos() == old(self).pending_nanos(),
            old(self).state() == ExecutionState::Running ==> {
                let total = old(self).pending_nanos().saturating_add(nanos);
                let p = period(old(self).ips());
                let v = run_n(old(self).timeline(), old(self).breakpoint_set(), (total / p) as nat);
                &&& final(self).timeline() == v
                &&& must_stop(v.machine, old(self).breakpoint_set()) ==> final(self).state()
                    == stop_state(v) && final(self).pending_nanos() == 0
                &&& !must_stop(v.machine, old(self).breakpoint_set()) ==> final(self).state()
                    == ExecutionState::Running && final(self).pending_nanos() == total % p
            },
    {
        if !matches!(self.execution_state, ExecutionState::Running) {
            return;
        }
        let p = NANOS_PER_SECOND / (self.instructions_per_second as u64);
        let mut acc = self.elapsed.saturating_add(nanos);
        let ghost total = acc;
        let ghost bps = self.breakpoint_set();
        let ghost start = self.timeline();
        let ghost mut j: nat = 0;
        assert(p > 0) by (nonlinear_arith)
            requires
                p == NANOS_PER_SECOND / (self.instructions_per_second as u64),
                0 < self.instructions_per_second <= MAX_IPS,
        ;
        while acc >= p && !self.should_stop()
            invariant
                self.wf(),
                self.breakpoint_set() == bps,
                bps == old(self).breakpoint_set(),
                self.ips() == old(self).ips(),
                self.execution_state == old(self).execution_state,
                p == period(self.ips()),
                p > 0,
                acc + j * p == total,
                self.timeline() == run_n(start, bps, j),
            decreases acc,
        {
            proof {
                lemma_run_n_last(start, bps, j);
                j = j + 1;
                assert(acc - p + j * p == total) by (nonlinear_arith)
                    requires
                        acc + (j - 1) * p == total,
                ;
            }
            self.emulator.cycle();
            acc = acc - p;
        }
        proof {
            let n = (total as int) / (p as int);
            if acc < p {
                lemma_fundamental_div_mod_converse_div(total as int, p as int, j as int, acc as int);
                lemma_fundamental_div_mod_converse_mod(total as int, p as int, j as int, acc as int);
            } else {
                assert(j <= n) by (nonlinear_arith)
                    requires
                        acc + j * p == total,
                        acc >= 0,
                        p > 0,
                        n == (total as int) / (p as int),
                ;
                lemma_run_n_stopped(start, bps, j, n as nat);
            }
        }
        if self.should_stop() {
            self.elapsed = 0;
            self.execution_state = if self.halted() {
                ExecutionState::Halted
            } else {
                ExecutionState::BreakpointHit
            };
        } else {
            self.elapsed = acc;
        }
    }

    /// The state after a step: `Start` at step zero, else `Halted`,
    /// `BreakpointHit` or `Stepping`.
    fn settle(&mut self)
        requires
            old(self).wf(),
        ensures
            final(self).wf(),
            final(self).state() == settled(old(self).timeline(), old(self).breakpoint_set()),
            final(self).timeline() == old(self).timeline(),
            final(self).breakpoint_set() == old(self).breakpoint_set(),
            final(self).ips() == old(self).ips(),
            final(self).pending_nanos() == old(self).pending_nanos(),
    {
        self.execution_state = if self.emulator.time() == 0 {
            ExecutionState::Start
        } else if self.halted() {
            ExecutionState::Halted
        } else if self.query(self.emulator.read_reg(Register::PC)) {
            ExecutionState::BreakpointHit
        } else {
            ExecutionState::Stepping
        };
    }

    /// Handles a request from the shell. A request that the current state
    /// does not allow is refused (false, nothing changes). Otherwise: `Run`
    /// and `Resume` start paced execution, `Tick` advances it, `Pause` pauses
    /// it; `StepForward`, `StepOver` and `StepBackward` take one step and
    /// settle the state; `Restart` rewinds to step zero (state `Start`);
    /// breakpoint requests set or remove a breakpoint.
    pub fn handle(&mut self, m: Message) -> (r: bool)
        requires
            old(self).wf(),
        ensures
            final(self).wf(),
            r == old(self).state().allows(m),
            final(self).ips() == old(self).ips(),
            !r ==> final(self).timeline() == old(self).timeline() && final(self).state() == old(self).state() && final(self).breakpoint_set() == old(self).breakpoint_set()
                && final(self).pending_nanos() == old(self).pending_nanos(),
            r ==> match m {
                Message::Run | Message::Resume => final(self).state() == ExecutionState::Running
                    && final(self).timeline() == old(self).timeline() && final(self).breakpoint_set() == old(self).breakpoint_set(),
                Message::Pause => final(self).state() == ExecutionState::Paused && final(self).timeline() == old(self).timeline() && final(self).breakpoint_set() == old(self).breakpoint_set(),
                Message::Tick(nanos) => final(self).breakpoint_set() == old(self).breakpoint_set()
                    && {
                    let total = old(self).pending_nanos().saturating_add(nanos);
                    let p = period(old(self).ips());
                    final(self).timeline() == run_n(
                        old(self).timeline(),
                        old(self).breakpoint_set(),
                        (total / p) as nat,
                    )
                },
                Message::Restart => final(self).state() == ExecutionState::Start && final(self).timeline() == rewound(old(self).timeline()) && final(self).breakpoint_set()
                    == old(self).breakpoint_set() && final(self).pending_nanos() == 0,
                Message::StepForward => {
                    let v = run_n(old(self).timeline(), old(self).breakpoint_set(), 1);
                    &&& final(self).timeline() == v
                    &&& final(self).state() == settled(v, old(self).breakpoint_set())
                    &&& final(self).breakpoint_set() == old(self).breakpoint_set()
                },
                Message::StepOver => {
                    let v = if old(self).timeline().machine.halted() {
                        old(self).timeline()
                    } else {
                        forward(old(self).timeline())
                    };
                    &&& final(self).timeline() == v
                    &&& final(self).state() == settled(v, old(self).breakpoint_set())
                    &&& final(self).breakpoint_set() == old(self).breakpoint_set()
                },
                Message::StepBackward => {
                    let v = backward(old(self).timeline());
                    &&& final(self).timeline() == v
                    &&& final(self).state() == settled(v, old(self).breakpoint_set())
                    &&& final(self).breakpoint_set() == old(self).breakpoint_set()
                },
                Message::SetBreakpoint(a) => final(self).breakpoint_set() == old(self).breakpoint_set().insert(a) && final(self).timeline() == old(self).timeline()
                    && final(self).state() == old(self).state(),
                Message::RemoveBreakpoint(a) => final(self).breakpoint_set() == old(self).breakpoint_set().remove(a) && final(self).timeline() == old(self).timeline()
                    && final(self).state() == old(self).state(),
            },
    {
        if !self.execution_state.accepts(m) {
            return false;
        }
        match m {
            Message::Run | Message::Resume => {
                self.execution_state = ExecutionState::Running;
            },
            Message::Tick(nanos) => {
                self.tick(nanos);
            },
            Message::Pause => {
                self.execution_state = ExecutionState::Paused;
            },
            Message::Restart => {
                self.restart();
                self.elapsed = 0;
                self.execution_state = ExecutionState::Start;
            },
            Message::StepOver => {
                self.step_over();
                self.settle();
            },
            Message::StepForward => {
                self.stepi(1);
                self.settle();
            },
            Message::StepBackward => {
                self.backi(1);
                proof {
                    assert(backward_n(backward(old(self).timeline()), 0) == backward(
                        old(self).timeline(),
                    ));
                }
                self.settle();
            },
            Message::SetBreakpoint(a) => {
                self.set_breakpoint(a);
            },
            Message::RemoveBreakpoint(a) => {
                self.remove_breakpoint(a);
            },
        }
        true
    }
}

} // verus!
