//! The emulator: fetch, decode and execute at register-transfer level, with
//! every write journaled so that each cycle can be undone.
use vstd::prelude::*;
use std::collections::HashMap;
use crate::machine::{
    backward, backward_n, execute, fetch, forward, initial_state, lemma_backward_n_last,
    lemma_run_n_last, must_stop, run_n, update_z, MachineState, Timeline,
};
use crate::memory::{undo_memory, undo_registers, Memory, Registers};
use crate::types::{Instruction, Register, REGISTER_COUNT};

verus! {

broadcast use vstd::std_specs::hash::group_hash_axioms;

/// The state closing step `j` of a timeline whose current step is still open:
/// a recorded past state, or `closing` for the current step.
pub open spec fn state_at(past: Seq<MachineState>, closing: MachineState, j: int) -> MachineState {
    if j < past.len() {
        past[j]
    } else {
        closing
    }
}

/// Writing a register and journaling its prior value leaves the undo of the
/// step unchanged.
proof fn lemma_undo_register_write(
    values: Seq<u32>,
    changes: Seq<(Register, u32)>,
    r: Register,
    v: u32,
)
    requires
        values.len() == REGISTER_COUNT,
    ensures
        undo_registers(
            values.update(r.ordinal() as int, v),
            changes.push((r, values[r.ordinal() as int])),
        ) == undo_registers(values, changes),
{
    let i = r.ordinal() as int;
    let c = changes.push((r, values[i]));
    assert(c.drop_last() =~= changes);
    assert(values.update(i, v).update(i, values[i]) =~= values);
}

/// Writing a memory word and journaling its prior value leaves the undo of the
/// step unchanged.
proof fn lemma_undo_memory_write(words: Map<u32, u32>, changes: Seq<(u32, u32)>, a: u32, v: u32)
    requires
        words.contains_key(a),
    ensures
        undo_memory(words.insert(a, v), changes.push((a, words[a]))) == undo_memory(
            words,
            changes,
        ),
{
    let c = changes.push((a, words[a]));
    assert(c.drop_last() =~= changes);
    assert(words.insert(a, v).insert(a, words[a]) =~= words);
}

/// The RSC machine: registers, memory, and a map of breakpoints (each enabled
/// or disabled).
pub struct Emulator {
    registers: Registers,
    memory: Memory,
    breakpoints: HashMap<u32, bool>,
    past: Ghost<Seq<MachineState>>,
}

impl View for Emulator {
    type V = Timeline;

    closed spec fn view(&self) -> Timeline {
        Timeline { machine: self.machine(), past: self.past@ }
    }
}

impl Emulator {
    closed spec fn machine(&self) -> MachineState {
        MachineState { regs: self.registers@.values, mem: self.memory@.words }
    }

    /// The journals of both cell collections retrace the past exactly: undoing
    /// step `k` of the journal yields `past[k]`, and the changes recorded so far
    /// in the open step lead back to `start`.
    closed spec fn mid_step(&self, start: MachineState) -> bool {
        let rj = self.registers@.journal;
        let mj = self.memory@.journal;
        let past = self.past@;
        let t = past.len() as int;
        &&& self.registers.wf()
        &&& self.memory.wf()
        &&& rj.time == t
        &&& mj.time == t
        &&& forall|i: int| t < i < rj.buckets.len() ==> (#[trigger] rj.buckets[i]).len() == 0
        &&& forall|i: int| t < i < mj.buckets.len() ==> (#[trigger] mj.buckets[i]).len() == 0
        &&& forall|k: int|
            0 <= k < t ==> undo_registers(state_at(past, start, k + 1).regs, #[trigger] rj.buckets[k])
                == past[k].regs
        &&& forall|k: int|
            0 <= k < t ==> undo_memory(state_at(past, start, k + 1).mem, #[trigger] mj.buckets[k])
                == past[k].mem
        &&& undo_registers(self.registers@.values, rj.buckets[t]) == start.regs
        &&& undo_memory(self.memory@.words, mj.buckets[t]) == start.mem
        &&& start.wf()
        &&& forall|k: int| 0 <= k < t ==> (#[trigger] past[k]).wf()
    }

    /// Well-formedness between cycles: nothing is recorded for the open step.
    pub closed spec fn wf(&self) -> bool {
        let t = self.past@.len() as int;
        &&& self.mid_step(self.machine())
        &&& self.registers@.journal.buckets[t].len() == 0
        &&& self.memory@.journal.buckets[t].len() == 0
    }

    /// Addresses of the enabled breakpoints.
    pub closed spec fn enabled_breakpoints(&self) -> Set<u32> {
        Set::new(|a: u32| self.breakpoints@.contains_key(a) && self.breakpoints@[a])
    }

    /// All breakpoints, each with whether it is enabled.
    pub closed spec fn breakpoint_map(&self) -> Map<u32, bool> {
        self.breakpoints@
    }

    /// An emulator at step zero, with the image at addresses `0..len` and no
    /// breakpoints.
    pub fn new(instructions: &[u32]) -> (r: Self)
        requires
            instructions@.len() <= u32::MAX as int + 1,
        ensures
            r.wf(),
            r@.machine == initial_state(instructions@),
            r@.past == Seq::<MachineState>::empty(),
            r.breakpoint_map() == Map::<u32, bool>::empty(),
    {
        let r = Emulator {
            registers: Registers::new(),
            memory: Memory::new(instructions),
            breakpoints: HashMap::new(),
            past: Ghost(Seq::empty()),
        };
        assert(r.machine().regs =~= initial_state(instructions@).regs);
        r
    }

    /// Current value of a register.
    pub fn read_reg(&self, reg: Register) -> (r: u32)
        requires
            self.wf(),
        ensures
            r == self@.machine.reg(reg),
    {
        self.registers.get(reg)
    }

    /// Current word at an address.
    pub fn read_mem(&self, address: u32) -> (r: u32)
        requires
            self.wf(),
        ensures
            r == self@.machine.word(address),
    {
        self.memory.get(address)
    }

    /// The register file.
    pub fn registers(&self) -> (r: &Registers)
        requires
            self.wf(),
        ensures
            r.wf(),
            r@.values == self@.machine.regs,
    {
        &self.registers
    }

    /// The memory.
    pub fn memory(&self) -> (r: &Memory)
        requires
            self.wf(),
        ensures
            r.wf(),
            r@.words == self@.machine.mem,
    {
        &self.memory
    }

    /// The current step: the number of cycles that can be stepped back.
    pub fn time(&self) -> (r: usize)
        requires
            self.wf(),
        ensures
            r == self@.past.len(),
    {
        self.registers.time()
    }

    /// Whether the machine has executed `HALT` (`S == 1`).
    pub fn halted(&self) -> (r: bool)
        requires
            self.wf(),
        ensures
            r == self@.machine.halted(),
    {
        self.registers.get(Register::S) == 1
    }

    /// Writes a register in the open step.
    fn set_reg(&mut self, r: Register, v: u32, Ghost(start): Ghost<MachineState>)
        requires
            old(self).mid_step(start),
        ensures
            final(self).mid_step(start),
            final(self).machine() == old(self).machine().with_reg(r, v),
            final(self).past@ == old(self).past@,
            final(self).breakpoints@ == old(self).breakpoints@,
    {
        proof {
            let rj = self.registers@.journal;
            lemma_undo_register_write(self.registers@.values, rj.buckets[rj.time as int], r, v);
        }
        self.registers.set(r, v);
    }

    /// Copies one register into another in the open step.
    fn transfer(&mut self, src: Register, dest: Register, Ghost(start): Ghost<MachineState>)
        requires
            old(self).mid_step(start),
        ensures
            final(self).mid_step(start),
            final(self).machine() == old(self).machine().with_reg(
                dest,
                old(self).machine().reg(src),
            ),
            final(self).past@ == old(self).past@,
            final(self).breakpoints@ == old(self).breakpoints@,
    {
        let v = self.registers.get(src);
        self.set_reg(dest, v, Ghost(start));
    }

    /// Writes a memory word in the open step.
    fn set_word(&mut self, a: u32, v: u32, Ghost(start): Ghost<MachineState>)
        requires
            old(self).mid_step(start),
        ensures
            final(self).mid_step(start),
            final(self).machine() == old(self).machine().with_word(a, v),
            final(self).past@ == old(self).past@,
            final(self).breakpoints@ == old(self).breakpoints@,
    {
        proof {
            let mj = self.memory@.journal;
            lemma_undo_memory_write(self.memory@.words, mj.buckets[mj.time as int], a, v);
        }
        self.memory.set(a, v);
    }

    /// The word at the address held in a register.
    fn dereference(&self, r: Register) -> (v: u32)
        requires
            self.registers.wf(),
            self.memory.wf(),
        ensures
            v == self.machine().word(self.machine().reg(r)),
    {
        self.memory.get(self.registers.get(r))
    }

    /// `PC ← PC + 1`, wrapping.
    fn inc_pc(&mut self, Ghost(start): Ghost<MachineState>)
        requires
            old(self).mid_step(start),
        ensures
            final(self).mid_step(start),
            final(self).machine() == old(self).machine().with_reg(
                Register::PC,
                old(self).machine().reg(Register::PC).wrapping_add(1),
            ),
            final(self).past@ == old(self).past@,
            final(self).breakpoints@ == old(self).breakpoints@,
    {
        let pc = self.registers.get(Register::PC);
        self.set_reg(Register::PC, pc.wrapping_add(1), Ghost(start));
    }

    /// `Z ← (ACC == 0)`; returns the new flag.
    fn update_z(&mut self, Ghost(start): Ghost<MachineState>) -> (z: bool)
        requires
            old(self).mid_step(start),
        ensures
            final(self).mid_step(start),
            final(self).machine() == update_z(old(self).machine()),
            z == (old(self).machine().reg(Register::ACC) == 0),
            final(self).past@ == old(self).past@,
            final(self).breakpoints@ == old(self).breakpoints@,
    {
        let z = self.registers.get(Register::ACC) == 0;
        self.set_reg(Register::Z, if z { 1 } else { 0 }, Ghost(start));
        z
    }

    /// Fetches the next instruction and decodes its low nibble.
    fn fetch(&mut self, Ghost(start): Ghost<MachineState>) -> (i: Instruction)
        requires
            old(self).mid_step(start),
        ensures
            final(self).mid_step(start),
            final(self).machine() == fetch(old(self).machine()),
            i == Instruction::decode_spec(final(self).machine().reg(Register::IR)),
            final(self).past@ == old(self).past@,
            final(self).breakpoints@ == old(self).breakpoints@,
    {
        let ghost s0 = self.machine();
        self.transfer(Register::PC, Register::AR, Ghost(start));
        let w = self.dereference(Register::AR);
        self.set_reg(Register::DR, w, Ghost(start));
        self.inc_pc(Ghost(start));
        self.transfer(Register::DR, Register::IR, Ghost(start));
        self.transfer(Register::PC, Register::AR, Ghost(start));
        assert(self.machine().regs =~= fetch(s0).regs);
        Instruction::decode(self.registers.get(Register::IR))
    }

    /// Sets `S`, halting the machine.
    fn halt(&mut self, Ghost(start): Ghost<MachineState>)
        requires
            old(self).mid_step(start),
        ensures
            final(self).mid_step(start),
            final(self).machine() == execute(Instruction::HALT, old(self).machine()),
            final(self).past@ == old(self).past@,
            final(self).breakpoints@ == old(self).breakpoints@,
    {
        self.set_reg(Register::S, 1, Ghost(start));
    }

    /// Loads the word at the operand address into `ACC`.
    fn ldac(&mut self, Ghost(start): Ghost<MachineState>)
        requires
            old(self).mid_step(start),
        ensures
            final(self).mid_step(start),
            final(self).machine() == execute(Instruction::LDAC, old(self).machine()),
            final(self).past@ == old(self).past@,
            final(self).breakpoints@ == old(self).breakpoints@,
    {
        let ghost s0 = self.machine();
        let v = self.dereference(Register::AR);
        self.set_reg(Register::DR, v, Ghost(start));
        self.inc_pc(Ghost(start));
        self.transfer(Register::DR, Register::AR, Ghost(start));
        let v = self.dereference(Register::AR);
        self.set_reg(Register::DR, v, Ghost(start));
        self.transfer(Register::DR, Register::ACC, Ghost(start));
        assert(self.machine().regs =~= execute(Instruction::LDAC, s0).regs);
    }

    /// Stores `ACC` at the operand address.
    fn stac(&mut self, Ghost(start): Ghost<MachineState>)
        requires
            old(self).mid_step(start),
        ensures
            final(self).mid_step(start),
            final(self).machine() == execute(Instruction::STAC, old(self).machine()),
            final(self).past@ == old(self).past@,
            final(self).breakpoints@ == old(self).breakpoints@,
    {
        let ghost s0 = self.machine();
        let v = self.dereference(Register::AR);
        self.set_reg(Register::DR, v, Ghost(start));
        self.inc_pc(Ghost(start));
        self.transfer(Register::DR, Register::AR, Ghost(start));
        self.transfer(Register::ACC, Register::DR, Ghost(start));
        let a = self.registers.get(Register::AR);
        let v = self.registers.get(Register::DR);
        self.set_word(a, v, Ghost(start));
        assert(self.machine().regs =~= execute(Instruction::STAC, s0).regs);
        assert(self.machine().mem =~= execute(Instruction::STAC, s0).mem);
    }

    /// `R ← ACC`.
    fn mvac(&mut self, Ghost(start): Ghost<MachineState>)
        requires
            old(self).mid_step(start),
        ensures
            final(self).mid_step(start),
            final(self).machine() == execute(Instruction::MVAC, old(self).machine()),
            final(self).past@ == old(self).past@,
            final(self).breakpoints@ == old(self).breakpoints@,
    {
        self.transfer(Register::ACC, Register::R, Ghost(start));
    }

    /// `ACC ← R`.
    fn movr(&mut self, Ghost(start): Ghost<MachineState>)
        requires
            old(self).mid_step(start),
        ensures
            final(self).mid_step(start),
            final(self).machine() == execute(Instruction::MOVR, old(self).machine()),
            final(self).past@ == old(self).past@,
            final(self).breakpoints@ == old(self).breakpoints@,
    {
        self.transfer(Register::R, Register::ACC, Ghost(start));
    }

    /// Jumps to the operand.
    fn jmp(&mut self, Ghost(start): Ghost<MachineState>)
        requires
            old(self).mid_step(start),
        ensures
            final(self).mid_step(start),
            final(self).machine() == execute(Instruction::JMP, old(self).machine()),
            final(self).past@ == old(self).past@,
            final(self).breakpoints@ == old(self).breakpoints@,
    {
        let ghost s0 = self.machine();
        let v = self.dereference(Register::AR);
        self.set_reg(Register::DR, v, Ghost(start));
        self.transfer(Register::DR, Register::PC, Ghost(start));
        assert(self.machine().regs =~= execute(Instruction::JMP, s0).regs);
    }

    /// Jumps to the operand when `Z` is set, else skips it.
    fn jmpz(&mut self, Ghost(start): Ghost<MachineState>)
        requires
            old(self).mid_step(start),
        ensures
            final(self).mid_step(start),
            final(self).machine() == execute(Instruction::JMPZ, old(self).machine()),
            final(self).past@ == old(self).past@,
            final(self).breakpoints@ == old(self).breakpoints@,
    {
        if self.registers.get(Register::Z) == 1 {
            self.jmp(Ghost(start));
        } else {
            self.inc_pc(Ghost(start));
        }
    }

    /// `OUTR ← ACC`.
    fn out(&mut self, Ghost(start): Ghost<MachineState>)
        requires
            old(self).mid_step(start),
        ensures
            final(self).mid_step(start),
            final(self).machine() == execute(Instruction::OUT, old(self).machine()),
            final(self).past@ == old(self).past@,
            final(self).breakpoints@ == old(self).breakpoints@,
    {
        self.transfer(Register::ACC, Register::OUTR, Ghost(start));
    }

    /// `ACC ← ACC - R`, wrapping.
    fn sub(&mut self, Ghost(start): Ghost<MachineState>)
        requires
            old(self).mid_step(start),
        ensures
            final(self).mid_step(start),
            final(self).machine() == execute(Instruction::SUB, old(self).machine()),
            final(self).past@ == old(self).past@,
            final(self).breakpoints@ == old(self).breakpoints@,
    {
        let v = self.registers.get(Register::ACC).wrapping_sub(self.registers.get(Register::R));
        self.set_reg(Register::ACC, v, Ghost(start));
    }

    /// `ACC ← ACC + R`, wrapping.
    fn add(&mut self, Ghost(start): Ghost<MachineState>)
        requires
            old(self).mid_step(start),
        ensures
            final(self).mid_step(start),
            final(self).machine() == execute(Instruction::ADD, old(self).machine()),
            final(self).past@ == old(self).past@,
            final(self).breakpoints@ == old(self).breakpoints@,
    {
        let v = self.registers.get(Register::ACC).wrapping_add(self.registers.get(Register::R));
        self.set_reg(Register::ACC, v, Ghost(start));
    }

    /// `ACC ← ACC + 1`, wrapping.
    fn inc(&mut self, Ghost(start): Ghost<MachineState>)
        requires
            old(self).mid_step(start),
        ensures
            final(self).mid_step(start),
            final(self).machine() == execute(Instruction::INC, old(self).machine()),
            final(self).past@ == old(self).past@,
            final(self).breakpoints@ == old(self).breakpoints@,
    {
        let v = self.registers.get(Register::ACC).wrapping_add(1);
        self.set_reg(Register::ACC, v, Ghost(start));
    }

    /// `ACC ← 0`.
    fn clac(&mut self, Ghost(start): Ghost<MachineState>)
        requires
            old(self).mid_step(start),
        ensures
            final(self).mid_step(start),
            final(self).machine() == execute(Instruction::CLAC, old(self).machine()),
            final(self).past@ == old(self).past@,
            final(self).breakpoints@ == old(self).breakpoints@,
    {
        self.set_reg(Register::ACC, 0, Ghost(start));
    }

    /// `ACC ← ACC & R`.
    fn and(&mut self, Ghost(start): Ghost<MachineState>)
        requires
            old(self).mid_step(start),
        ensures
            final(self).mid_step(start),
            final(self).machine() == execute(Instruction::AND, old(self).machine()),
            final(self).past@ == old(self).past@,
            final(self).breakpoints@ == old(self).breakpoints@,
    {
        let v = self.registers.get(Register::ACC) & self.registers.get(Register::R);
        self.set_reg(Register::ACC, v, Ghost(start));
    }

    /// `ACC ← ACC | R`.
    fn or(&mut self, Ghost(start): Ghost<MachineState>)
        requires
            old(self).mid_step(start),
        ensures
            final(self).mid_step(start),
            final(self).machine() == execute(Instruction::OR, old(self).machine()),
            final(self).past@ == old(self).past@,
            final(self).breakpoints@ == old(self).breakpoints@,
    {
        let v = self.registers.get(Register::ACC) | self.registers.get(Register::R);
        self.set_reg(Register::ACC, v, Ghost(start));
    }

    /// `ACC ← ACC >> 1`, a logical shift.
    fn ashr(&mut self, Ghost(start): Ghost<MachineState>)
        requires
            old(self).mid_step(start),
        ensures
            final(self).mid_step(start),
            final(self).machine() == execute(Instruction::ASHR, old(self).machine()),
            final(self).past@ == old(self).past@,
            final(self).breakpoints@ == old(self).breakpoints@,
    {
        let v = self.registers.get(Register::ACC) >> 1;
        self.set_reg(Register::ACC, v, Ghost(start));
    }

    /// `ACC ← !ACC`.
    fn not(&mut self, Ghost(start): Ghost<MachineState>)
        requires
            old(self).mid_step(start),
        ensures
            final(self).mid_step(start),
            final(self).machine() == execute(Instruction::NOT, old(self).machine()),
            final(self).past@ == old(self).past@,
            final(self).breakpoints@ == old(self).breakpoints@,
    {
        let v = !self.registers.get(Register::ACC);
        self.set_reg(Register::ACC, v, Ghost(start));
    }

    /// Executes one decoded instruction.
    fn execute(&mut self, i: Instruction, Ghost(start): Ghost<MachineState>)
        requires
            old(self).mid_step(start),
        ensures
            final(self).mid_step(start),
            final(self).machine() == execute(i, old(self).machine()),
            final(self).past@ == old(self).past@,
            final(self).breakpoints@ == old(self).breakpoints@,
    {
        match i {
            Instruction::HALT => self.halt(Ghost(start)),
            Instruction::LDAC => self.ldac(Ghost(start)),
            Instruction::STAC => self.stac(Ghost(start)),
            Instruction::MVAC => self.mvac(Ghost(start)),
            Instruction::MOVR => self.movr(Ghost(start)),
            Instruction::JMP => self.jmp(Ghost(start)),
            Instruction::JMPZ => self.jmpz(Ghost(start)),
            Instruction::OUT => self.out(Ghost(start)),
            Instruction::SUB => self.sub(Ghost(start)),
            Instruction::ADD => self.add(Ghost(start)),
            Instruction::INC => self.inc(Ghost(start)),
            Instruction::CLAC => self.clac(Ghost(start)),
            Instruction::AND => self.and(Ghost(start)),
            Instruction::OR => self.or(Ghost(start)),
            Instruction::ASHR => self.ashr(Ghost(start)),
            Instruction::NOT => self.not(Ghost(start)),
        }
    }

    /// One cycle: update `Z`, fetch, decode and execute, then close the step
    /// in both journals.
    pub fn cycle(&mut self)
        requires
            old(self).wf(),
        ensures
            final(self).wf(),
            final(self)@ == forward(old(self)@),
            final(self).breakpoint_map() == old(self).breakpoint_map(),
    {
        let ghost start = self.machine();
        self.update_z(Ghost(start));
        let instruction = self.fetch(Ghost(start));
        self.execute(instruction, Ghost(start));
        let ghost before = self.machine();
        self.registers.step_forward();
        self.memory.step_forward();
        self.past = Ghost(self.past@.push(start));
        proof {
            let t = self.past@.len() as int;
            let rj = self.registers@.journal;
            let mj = self.memory@.journal;
            assert(self.machine() == before);
            assert forall|k: int| 0 <= k < t implies undo_registers(
                state_at(self.past@, self.machine(), k + 1).regs,
                #[trigger] rj.buckets[k],
            ) == self.past@[k].regs by {
                if k + 1 < t {
                    assert(state_at(self.past@, self.machine(), k + 1) == state_at(old(self).past@, start, k + 1));
                }
            }
            assert forall|k: int| 0 <= k < t implies undo_memory(
                state_at(self.past@, self.machine(), k + 1).mem,
                #[trigger] mj.buckets[k],
            ) == self.past@[k].mem by {
                if k + 1 < t {
                    assert(state_at(self.past@, self.machine(), k + 1) == state_at(old(self).past@, start, k + 1));
                }
            }
            assert(self@ == forward(old(self)@));
        }
    }

    /// Steps back one cycle, restoring the state before it; returns whether
    /// there was a cycle to undo.
    pub fn step_backward(&mut self) -> (r: bool)
        requires
            old(self).wf(),
        ensures
            final(self).wf(),
            r == (old(self)@.past.len() > 0),
            final(self)@ == backward(old(self)@),
            final(self).breakpoint_map() == old(self).breakpoint_map(),
    {
        let undone = self.registers.step_backward();
        self.memory.step_backward();
        if undone {
            self.past = Ghost(self.past@.drop_last());
            proof {
                let t = self.past@.len() as int;
                let rj = self.registers@.journal;
                let mj = self.memory@.journal;
                let s = old(self).past@[t];
                assert(old(self).machine() == state_at(old(self).past@, old(self).machine(), t + 1));
                assert(self.machine().regs == s.regs);
                assert(self.machine().mem == s.mem);
                assert forall|k: int| 0 <= k < t implies undo_registers(
                    state_at(self.past@, self.machine(), k + 1).regs,
                    #[trigger] rj.buckets[k],
                ) == self.past@[k].regs by {
                    assert(old(self).registers@.journal.buckets[k] == rj.buckets[k]);
                    assert(state_at(self.past@, self.machine(), k + 1) == state_at(old(self).past@, old(self).machine(), k + 1));
                }
                assert forall|k: int| 0 <= k < t implies undo_memory(
                    state_at(self.past@, self.machine(), k + 1).mem,
                    #[trigger] mj.buckets[k],
                ) == self.past@[k].mem by {
                    assert(old(self).memory@.journal.buckets[k] == mj.buckets[k]);
                    assert(state_at(self.past@, self.machine(), k + 1) == state_at(old(self).past@, old(self).machine(), k + 1));
                }
            }
        }
        undone
    }

    /// Sets an enabled breakpoint at an address.
    pub fn set_breakpoint(&mut self, address: u32)
        requires
            old(self).wf(),
        ensures
            final(self).wf(),
            final(self)@ == old(self)@,
            final(self).breakpoint_map() == old(self).breakpoint_map().insert(address, true),
    {
        self.breakpoints.insert(address, true);
    }

    /// Removes the breakpoint at an address; returns whether there was one.
    pub fn remove_breakpoint(&mut self, address: u32) -> (r: bool)
        requires
            old(self).wf(),
        ensures
            final(self).wf(),
            final(self)@ == old(self)@,
            r == old(self).breakpoint_map().contains_key(address),
            final(self).breakpoint_map() == old(self).breakpoint_map().remove(address),
    {
        self.breakpoints.remove(&address).is_some()
    }

    /// Whether an enabled breakpoint sits at an address.
    pub fn query(&self, address: u32) -> (r: bool)
        requires
            self.wf(),
        ensures
            r == self.enabled_breakpoints().contains(address),
    {
        match self.breakpoints.get(&address) {
            Some(enabled) => *enabled,
            None => false,
        }
    }

    /// Enables the breakpoint at an address; returns false, changing nothing,
    /// if there is none.
    pub fn enable(&mut self, address: u32) -> (r: bool)
        requires
            old(self).wf(),
        ensures
            final(self).wf(),
            final(self)@ == old(self)@,
            r == old(self).breakpoint_map().contains_key(address),
            final(self).breakpoint_map() == (if r {
                old(self).breakpoint_map().insert(address, true)
            } else {
                old(self).breakpoint_map()
            }),
    {
        if self.breakpoints.contains_key(&address) {
            self.breakpoints.insert(address, true);
            true
        } else {
            false
        }
    }

    /// Disables the breakpoint at an address; returns false, changing
    /// nothing, if there is none.
    pub fn disable(&mut self, address: u32) -> (r: bool)
        requires
            old(self).wf(),
        ensures
            final(self).wf(),
            final(self)@ == old(self)@,
            r == old(self).breakpoint_map().contains_key(address),
            final(self).breakpoint_map() == (if r {
                old(self).breakpoint_map().insert(address, false)
            } else {
                old(self).breakpoint_map()
            }),
    {
        if self.breakpoints.contains_key(&address) {
            self.breakpoints.insert(address, false);
            true
        } else {
            false
        }
    }

    /// Whether forward execution must yield: halted, or an enabled breakpoint
    /// at `PC`.
    pub fn should_stop(&self) -> (r: bool)
        requires
            self.wf(),
        ensures
            r == must_stop(self@.machine, self.enabled_breakpoints()),
    {
        self.halted() || self.query(self.registers.get(Register::PC))
    }

    /// One cycle, ignoring breakpoints, unless the machine has halted.
    pub fn step_over(&mut self)
        requires
            old(self).wf(),
        ensures
            final(self).wf(),
            final(self)@ == (if old(self)@.machine.halted() {
                old(self)@
            } else {
                forward(old(self)@)
            }),
            final(self).breakpoint_map() == old(self).breakpoint_map(),
    {
        if !self.halted() {
            self.cycle();
        }
    }

    /// Up to `steps` cycles, stopping once halted or at an enabled breakpoint.
    pub fn stepi(&mut self, steps: usize)
        requires
            old(self).wf(),
        ensures
            final(self).wf(),
            final(self)@ == run_n(old(self)@, old(self).enabled_breakpoints(), steps as nat),
            final(self).breakpoint_map() == old(self).breakpoint_map(),
    {
        let ghost bps = self.enabled_breakpoints();
        for i in 0..steps
            invariant
                self.wf(),
                self.breakpoint_map() == old(self).breakpoint_map(),
                self.enabled_breakpoints() == bps,
                self@ == run_n(old(self)@, bps, i as nat),
        {
            proof {
                lemma_run_n_last(old(self)@, bps, i as nat);
            }
            if !self.should_stop() {
                self.cycle();
            }
        }
    }

    /// Up to `steps` steps backward; stepping back at step zero does nothing.
    pub fn backi(&mut self, steps: usize)
        requires
            old(self).wf(),
        ensures
            final(self).wf(),
            final(self)@ == backward_n(old(self)@, steps as nat),
            final(self).breakpoint_map() == old(self).breakpoint_map(),
    {
        for i in 0..steps
            invariant
                self.wf(),
                self.breakpoint_map() == old(self).breakpoint_map(),
                self@ == backward_n(old(self)@, i as nat),
        {
            proof {
                lemma_backward_n_last(old(self)@, i as nat);
            }
            self.step_backward();
        }
    }

    /// Runs until the machine halts or reaches an enabled breakpoint.
    pub fn start(&mut self)
        requires
            old(self).wf(),
        ensures
            final(self).wf(),
            exists|n: nat| final(self)@ == run_n(old(self)@, old(self).enabled_breakpoints(), n),
            must_stop(final(self)@.machine, old(self).enabled_breakpoints()),
            final(self).breakpoint_map() == old(self).breakpoint_map(),
    {
        let ghost bps = self.enabled_breakpoints();
        let ghost mut n: nat = 0;
        while !self.should_stop()
            invariant
                self.wf(),
                self.breakpoint_map() == old(self).breakpoint_map(),
                self.enabled_breakpoints() == bps,
                self@ == run_n(old(self)@, bps, n),
            decreases usize::MAX - self@.past.len(),
        {
            proof {
                lemma_run_n_last(old(self)@, bps, n);
                n = n + 1;
            }
            self.cycle();
        }
    }
}

} // verus!
