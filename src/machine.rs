//! The machine model: what one cycle does to the registers and memory, and
//! timelines of states that cycles and backward steps move along.
use vstd::prelude::*;
use crate::memory::image_words;
use crate::types::{Instruction, Register, REGISTER_COUNT};

verus! {

/// The observable state of the machine: every register and every memory word.
pub ghost struct MachineState {
    /// Register values, indexed by `Register::ordinal`.
    pub regs: Seq<u32>,
    /// The word at every address.
    pub mem: Map<u32, u32>,
}

impl MachineState {
    pub open spec fn wf(self) -> bool {
        &&& self.regs.len() == REGISTER_COUNT
        &&& forall|a: u32| #[trigger] self.mem.contains_key(a)
    }

    pub open spec fn reg(self, r: Register) -> u32 {
        self.regs[r.ordinal() as int]
    }

    pub open spec fn word(self, a: u32) -> u32 {
        self.mem[a]
    }

    pub open spec fn with_reg(self, r: Register, v: u32) -> MachineState {
        MachineState { regs: self.regs.update(r.ordinal() as int, v), mem: self.mem }
    }

    pub open spec fn with_word(self, a: u32, v: u32) -> MachineState {
        MachineState { regs: self.regs, mem: self.mem.insert(a, v) }
    }

    /// The machine has executed `HALT`.
    pub open spec fn halted(self) -> bool {
        self.reg(Register::S) == 1
    }
}

/// The state in which a program image starts: every register zero, the image
/// at addresses `0..image.len()`.
pub open spec fn initial_state(image: Seq<u32>) -> MachineState {
    MachineState { regs: Seq::new(REGISTER_COUNT as nat, |i: int| 0u32), mem: image_words(image) }
}

/// First part of a cycle: `Z` records whether `ACC` is zero.
pub open spec fn update_z(s: MachineState) -> MachineState {
    s.with_reg(Register::Z, if s.reg(Register::ACC) == 0 { 1 } else { 0 })
}

/// Instruction fetch: the word at `PC` lands in `DR` and `IR`, `PC` moves on
/// by one and `AR` points at the possible operand.
pub open spec fn fetch(s: MachineState) -> MachineState {
    let pc = s.reg(Register::PC);
    let w = s.word(pc);
    let next = pc.wrapping_add(1);
    s.with_reg(Register::DR, w).with_reg(Register::PC, next).with_reg(Register::IR, w).with_reg(
        Register::AR,
        next,
    )
}

/// Taking a jump: the operand at `AR` becomes `PC` (and passes through `DR`).
pub open spec fn jump(s: MachineState) -> MachineState {
    let target = s.word(s.reg(Register::AR));
    s.with_reg(Register::DR, target).with_reg(Register::PC, target)
}

/// Execution of one opcode on the state left by the fetch.
pub open spec fn execute(op: Instruction, s: MachineState) -> MachineState {
    let acc = s.reg(Register::ACC);
    let r = s.reg(Register::R);
    let pc = s.reg(Register::PC);
    match op {
        Instruction::HALT => s.with_reg(Register::S, 1),
        Instruction::LDAC => {
            let a = s.word(s.reg(Register::AR));
            let v = s.word(a);
            s.with_reg(Register::PC, pc.wrapping_add(1)).with_reg(Register::AR, a).with_reg(
                Register::DR,
                v,
            ).with_reg(Register::ACC, v)
        },
        Instruction::STAC => {
            let a = s.word(s.reg(Register::AR));
            s.with_reg(Register::PC, pc.wrapping_add(1)).with_reg(Register::AR, a).with_reg(
                Register::DR,
                acc,
            ).with_word(a, acc)
        },
        Instruction::MVAC => s.with_reg(Register::R, acc),
        Instruction::MOVR => s.with_reg(Register::ACC, r),
        Instruction::JMP => jump(s),
        Instruction::JMPZ => if s.reg(Register::Z) == 1 {
            jump(s)
        } else {
            s.with_reg(Register::PC, pc.wrapping_add(1))
        },
        Instruction::OUT => s.with_reg(Register::OUTR, acc),
        Instruction::SUB => s.with_reg(Register::ACC, acc.wrapping_sub(r)),
        Instruction::ADD => s.with_reg(Register::ACC, acc.wrapping_add(r)),
        Instruction::INC => s.with_reg(Register::ACC, acc.wrapping_add(1)),
        Instruction::CLAC => s.with_reg(Register::ACC, 0),
        Instruction::AND => s.with_reg(Register::ACC, acc & r),
        Instruction::OR => s.with_reg(Register::ACC, acc | r),
        Instruction::ASHR => s.with_reg(Register::ACC, acc >> 1),
        Instruction::NOT => s.with_reg(Register::ACC, !acc),
    }
}

/// One full cycle: update `Z`, fetch, decode the low nibble of `IR`, execute.
pub open spec fn next_state(s: MachineState) -> MachineState {
    let f = fetch(update_z(s));
    execute(Instruction::decode_spec(f.reg(Register::IR)), f)
}

/// A machine state together with the states it passed through, oldest first:
/// `past[k]` is the state at step `k`, and the current step is `past.len()`.
pub ghost struct Timeline {
    pub machine: MachineState,
    pub past: Seq<MachineState>,
}

/// One cycle forward; the state left behind joins the past.
pub open spec fn forward(v: Timeline) -> Timeline {
    Timeline { machine: next_state(v.machine), past: v.past.push(v.machine) }
}

/// One step backward: the most recent past state comes back; at step zero
/// nothing changes.
pub open spec fn backward(v: Timeline) -> Timeline {
    if v.past.len() == 0 {
        v
    } else {
        Timeline { machine: v.past.last(), past: v.past.drop_last() }
    }
}

/// `n` cycles forward.
pub open spec fn forward_n(v: Timeline, n: nat) -> Timeline
    decreases n,
{
    if n == 0 {
        v
    } else {
        forward_n(forward(v), (n - 1) as nat)
    }
}

/// `n` steps backward.
pub open spec fn backward_n(v: Timeline, n: nat) -> Timeline
    decreases n,
{
    if n == 0 {
        v
    } else {
        backward_n(backward(v), (n - 1) as nat)
    }
}

/// Whether forward execution must yield: the machine halted, or `PC` sits on
/// a breakpoint.
pub open spec fn must_stop(s: MachineState, breakpoints: Set<u32>) -> bool {
    s.halted() || breakpoints.contains(s.reg(Register::PC))
}

/// Up to `n` cycles forward, stopping as soon as execution must yield.
pub open spec fn run_n(v: Timeline, breakpoints: Set<u32>, n: nat) -> Timeline
    decreases n,
{
    if n == 0 || must_stop(v.machine, breakpoints) {
        v
    } else {
        run_n(forward(v), breakpoints, (n - 1) as nat)
    }
}

/// The timeline after stepping back to its first state.
pub open spec fn rewound(v: Timeline) -> Timeline {
    if v.past.len() == 0 {
        v
    } else {
        Timeline { machine: v.past[0], past: Seq::empty() }
    }
}


/// Stepping back undoes a cycle: the timeline returns to what it was.
pub proof fn lemma_backward_forward(v: Timeline)
    ensures
        backward(forward(v)) == v,
{
    assert(v.past.push(v.machine).drop_last() =~= v.past);
}

/// `n + 1` cycles are `n` cycles followed by one more.
pub proof fn lemma_forward_n_last(v: Timeline, n: nat)
    ensures
        forward_n(v, n + 1) == forward(forward_n(v, n)),
    decreases n,
{
    if n > 0 {
        lemma_forward_n_last(forward(v), (n - 1) as nat);
    } else {
        assert(forward_n(forward(v), 0) == forward(v));
    }
}

/// `n + 1` backward steps are `n` steps followed by one more.
pub proof fn lemma_backward_n_last(v: Timeline, n: nat)
    ensures
        backward_n(v, n + 1) == backward(backward_n(v, n)),
    decreases n,
{
    if n > 0 {
        lemma_backward_n_last(backward(v), (n - 1) as nat);
    } else {
        assert(backward_n(backward(v), 0) == backward(v));
    }
}

/// Bounded running gains one more cycle exactly when the state reached does
/// not have to yield.
pub proof fn lemma_run_n_last(v: Timeline, breakpoints: Set<u32>, n: nat)
    ensures
        run_n(v, breakpoints, n + 1) == ({
            let w = run_n(v, breakpoints, n);
            if must_stop(w.machine, breakpoints) {
                w
            } else {
                forward(w)
            }
        }),
    decreases n,
{
    if n > 0 && !must_stop(v.machine, breakpoints) {
        lemma_run_n_last(forward(v), breakpoints, (n - 1) as nat);
    } else if n == 0 && !must_stop(v.machine, breakpoints) {
        assert(run_n(forward(v), breakpoints, 0) == forward(v));
    }
}

/// Reversibility: `k` cycles forward followed by `k` steps backward give back
/// the starting timeline, every register and every memory word included.
pub proof fn lemma_reversibility(v: Timeline, k: nat)
    ensures
        backward_n(forward_n(v, k), k) == v,
    decreases k,
{
    if k > 0 {
        let j = (k - 1) as nat;
        lemma_forward_n_last(v, j);
        lemma_backward_forward(forward_n(v, j));
        lemma_reversibility(v, j);
    }
}

/// Journal faithfulness: one step backward right after a cycle restores the
/// exact state from before the cycle.
pub proof fn lemma_journal_faithfulness(v: Timeline)
    ensures
        backward(forward(v)).machine == v.machine,
        backward(forward(v)) == v,
{
    lemma_backward_forward(v);
}

/// Step monotonicity: running for at most `n` cycles performs `c <= n`
/// cycles; if `c < n`, the machine halted or `PC` sits on a breakpoint.
pub proof fn lemma_step_monotonicity(v: Timeline, breakpoints: Set<u32>, n: nat)
    ensures
        ({
            let w = run_n(v, breakpoints, n);
            let c = (w.past.len() - v.past.len()) as nat;
            &&& v.past.len() <= w.past.len()
            &&& c <= n
            &&& w == forward_n(v, c)
            &&& c < n ==> must_stop(w.machine, breakpoints)
        }),
    decreases n,
{
    if n > 0 && !must_stop(v.machine, breakpoints) {
        lemma_step_monotonicity(forward(v), breakpoints, (n - 1) as nat);
        let w = run_n(v, breakpoints, n);
        let c = (w.past.len() - v.past.len()) as nat;
        assert(c >= 1);
        assert(forward_n(v, c) == forward_n(forward(v), (c - 1) as nat));
    }
}

/// Running a bounded number of cycles can be undone: stepping back once per
/// cycle actually performed returns to the starting timeline.
pub proof fn lemma_run_n_reversible(v: Timeline, breakpoints: Set<u32>, n: nat)
    ensures
        ({
            let w = run_n(v, breakpoints, n);
            backward_n(w, (w.past.len() - v.past.len()) as nat) == v
        }),
{
    lemma_step_monotonicity(v, breakpoints, n);
    let w = run_n(v, breakpoints, n);
    lemma_reversibility(v, (w.past.len() - v.past.len()) as nat);
}


/// Once execution must yield, further bounded running changes nothing.
pub proof fn lemma_run_n_stopped(v: Timeline, breakpoints: Set<u32>, j: nat, m: nat)
    requires
        j <= m,
        must_stop(run_n(v, breakpoints, j).machine, breakpoints),
    ensures
        run_n(v, breakpoints, m) == run_n(v, breakpoints, j),
    decreases m - j,
{
    if j < m {
        lemma_run_n_stopped(v, breakpoints, j, (m - 1) as nat);
        lemma_run_n_last(v, breakpoints, (m - 1) as nat);
    }
}

/// Stepping back keeps the first state of the timeline.
pub proof fn lemma_backward_rewound(v: Timeline)
    ensures
        rewound(backward(v)) == rewound(v),
{
    if v.past.len() > 1 {
        assert(v.past.drop_last()[0] == v.past[0]);
    } else if v.past.len() == 1 {
        assert(v.past.drop_last() =~= Seq::<MachineState>::empty());
    }
}

} // verus!
