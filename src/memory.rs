//! The register file and memory, each with its journal of prior values.
use vstd::prelude::*;
use std::collections::HashMap;
use crate::timeless::{JournalState, TimelessEngine};
use crate::types::{Register, REGISTER_COUNT};

verus! {

broadcast use vstd::std_specs::hash::group_hash_axioms;

/// Undoes the register changes of one step: the records are replayed from the
/// last to the first, each writing its saved prior value back.
pub open spec fn undo_registers(values: Seq<u32>, changes: Seq<(Register, u32)>) -> Seq<u32>
    decreases changes.len(),
{
    if changes.len() == 0 {
        values
    } else {
        let c = changes.last();
        undo_registers(values.update(c.0.ordinal() as int, c.1), changes.drop_last())
    }
}

/// Undoes the memory changes of one step, last record first.
pub open spec fn undo_memory(words: Map<u32, u32>, changes: Seq<(u32, u32)>) -> Map<u32, u32>
    decreases changes.len(),
{
    if changes.len() == 0 {
        words
    } else {
        let c = changes.last();
        undo_memory(words.insert(c.0, c.1), changes.drop_last())
    }
}

/// A memory image that maps every address to a word: `image[a]` below the
/// image's length, 0 above.
pub open spec fn image_words(image: Seq<u32>) -> Map<u32, u32> {
    Map::new(|a: u32| true, |a: u32| if (a as int) < image.len() { image[a as int] } else { 0 })
}

/// Abstract state of the register file.
pub ghost struct RegisterFileState {
    /// Register values, indexed by `Register::ordinal`.
    pub values: Seq<u32>,
    pub journal: JournalState<(Register, u32)>,
}

/// The nine registers, with a journal of the prior value of every write.
pub struct Registers {
    registers: [u32; 9],
    engine: TimelessEngine<(Register, u32)>,
}

impl View for Registers {
    type V = RegisterFileState;

    closed spec fn view(&self) -> RegisterFileState {
        RegisterFileState { values: self.registers@, journal: self.engine@ }
    }
}

impl Registers {
    pub open spec fn wf(&self) -> bool {
        &&& self@.values.len() == REGISTER_COUNT
        &&& self@.journal.inv()
    }

    /// Value of a register in this state.
    pub open spec fn value(&self, reg: Register) -> u32 {
        self@.values[reg.ordinal() as int]
    }

    /// All registers zero, empty journal at step zero.
    pub fn new() -> (r: Self)
        ensures
            r.wf(),
            r@.values == Seq::new(9, |i: int| 0u32),
            r@.journal.time == 0,
            r@.journal.buckets == seq![Seq::<(Register, u32)>::empty()],
    {
        let r = Registers { registers: [0, 0, 0, 0, 0, 0, 0, 0, 0], engine: TimelessEngine::new() };
        assert(r@.values =~= Seq::new(9, |i: int| 0u32));
        r
    }

    /// Current value of a register.
    pub fn get(&self, reg: Register) -> (r: u32)
        requires
            self.wf(),
        ensures
            r == self.value(reg),
    {
        self.registers[reg.index()]
    }

    /// Writes a register, journaling its prior value.
    pub fn set(&mut self, reg: Register, val: u32)
        requires
            old(self).wf(),
        ensures
            final(self).wf(),
            final(self)@.values == old(self)@.values.update(reg.ordinal() as int, val),
            final(self)@.journal.time == old(self)@.journal.time,
            final(self)@.journal.buckets == old(self)@.journal.buckets.update(
                old(self)@.journal.time as int,
                old(self)@.journal.buckets[old(self)@.journal.time as int].push(
                    (reg, old(self).value(reg)),
                ),
            ),
    {
        let i = reg.index();
        let prior = self.registers[i];
        self.engine.add_change((reg, prior));
        self.registers[i] = val;
    }

    /// Copies the source register into the destination register, journaling
    /// the destination's prior value.
    pub fn transfer(&mut self, src: Register, dest: Register)
        requires
            old(self).wf(),
        ensures
            final(self).wf(),
            final(self)@.values == old(self)@.values.update(
                dest.ordinal() as int,
                old(self).value(src),
            ),
            final(self)@.journal.time == old(self)@.journal.time,
            final(self)@.journal.buckets == old(self)@.journal.buckets.update(
                old(self)@.journal.time as int,
                old(self)@.journal.buckets[old(self)@.journal.time as int].push(
                    (dest, old(self).value(dest)),
                ),
            ),
    {
        let v = self.get(src);
        self.set(dest, v);
    }

    /// The current step of the journal.
    pub fn time(&self) -> (r: usize)
        requires
            self.wf(),
        ensures
            r == self@.journal.time,
    {
        self.engine.time()
    }

    /// Closes the current step.
    pub fn step_forward(&mut self)
        requires
            old(self).wf(),
        ensures
            final(self).wf(),
            final(self)@.values == old(self)@.values,
            final(self)@.journal.time == old(self)@.journal.time + 1,
            final(self)@.journal.buckets == (if old(self)@.journal.time + 1
                < old(self)@.journal.buckets.len() {
                old(self)@.journal.buckets
            } else {
                old(self)@.journal.buckets.push(Seq::empty())
            }),
    {
        self.engine.step_forward();
    }

    /// Steps back one step, restoring the prior values journaled during it;
    /// returns whether there was a step to undo.
    pub fn step_backward(&mut self) -> (r: bool)
        requires
            old(self).wf(),
        ensures
            final(self).wf(),
            r == (old(self)@.journal.time > 0),
            !r ==> final(self)@ == old(self)@,
            r ==> {
                let t = (old(self)@.journal.time - 1) as int;
                &&& final(self)@.values == undo_registers(
                    old(self)@.values,
                    old(self)@.journal.buckets[t],
                )
                &&& final(self)@.journal.time == t
                &&& final(self)@.journal.buckets == old(self)@.journal.buckets.update(
                    t,
                    Seq::empty(),
                )
            },
    {
        match self.engine.step_backward() {
            None => false,
            Some(changes) => {
                let ghost start = self.registers@;
                let ghost journal = self.engine@;
                let mut k: usize = changes.len();
                assert(changes@.take(k as int) =~= changes@);
                while k > 0
                    invariant
                        k <= changes@.len(),
                        self.engine@ == journal,
                        self.registers@.len() == REGISTER_COUNT,
                        undo_registers(self.registers@, changes@.take(k as int))
                            == undo_registers(start, changes@),
                    decreases k,
                {
                    let (reg, prior) = changes[k - 1];
                    self.registers[reg.index()] = prior;
                    proof {
                        let p = changes@.take(k as int);
                        assert(p.drop_last() =~= changes@.take(k - 1));
                        assert(p.last() == changes@[k - 1]);
                    }
                    k = k - 1;
                }
                assert(changes@.take(0) =~= Seq::<(Register, u32)>::empty());
                true
            },
        }
    }
}

/// Abstract state of memory.
pub ghost struct MemoryState {
    /// The word at every address; addresses never written hold 0.
    pub words: Map<u32, u32>,
    pub journal: JournalState<(u32, u32)>,
}

/// Word-addressed memory, with a journal of the prior value of every write.
pub struct Memory {
    underlying: HashMap<u32, u32>,
    engine: TimelessEngine<(u32, u32)>,
}

impl View for Memory {
    type V = MemoryState;

    closed spec fn view(&self) -> MemoryState {
        MemoryState {
            words: Map::new(
                |a: u32| true,
                |a: u32|
                    if self.underlying@.contains_key(a) {
                        self.underlying@[a]
                    } else {
                        0
                    },
            ),
            journal: self.engine@,
        }
    }
}

impl Memory {
    pub open spec fn wf(&self) -> bool {
        &&& self@.journal.inv()
        &&& forall|a: u32| #[trigger] self@.words.contains_key(a)
    }

    /// Word at an address in this state.
    pub open spec fn word(&self, address: u32) -> u32 {
        self@.words[address]
    }

    /// Memory holding the image at addresses `0..image.len()` and 0 elsewhere.
    pub fn new(instructions: &[u32]) -> (r: Self)
        requires
            instructions@.len() <= u32::MAX as int + 1,
        ensures
            r.wf(),
            r@.words == image_words(instructions@),
            r@.journal.time == 0,
            r@.journal.buckets == seq![Seq::<(u32, u32)>::empty()],
    {
        let mut underlying: HashMap<u32, u32> = HashMap::new();
        let mut i: usize = 0;
        while i < instructions.len()
            invariant
                i <= instructions@.len(),
                instructions@.len() <= u32::MAX as int + 1,
                forall|a: u32| #[trigger]
                    underlying@.contains_key(a) <==> (a as int) < i,
                forall|a: u32|
                    (a as int) < i ==> #[trigger] underlying@[a] == instructions@[a as int],
            decreases instructions@.len() - i,
        {
            underlying.insert(i as u32, instructions[i]);
            i = i + 1;
        }
        let r = Memory { underlying, engine: TimelessEngine::new() };
        assert(r@.words =~= image_words(instructions@));
        r
    }

    /// Word at an address; 0 where nothing was ever written.
    pub fn get(&self, address: u32) -> (r: u32)
        requires
            self.wf(),
        ensures
            r == self.word(address),
    {
        match self.underlying.get(&address) {
            Some(v) => *v,
            None => 0,
        }
    }

    /// Writes a word, journaling the prior value at that address.
    pub fn set(&mut self, address: u32, val: u32)
        requires
            old(self).wf(),
        ensures
            final(self).wf(),
            final(self)@.words == old(self)@.words.insert(address, val),
            final(self)@.journal.time == old(self)@.journal.time,
            final(self)@.journal.buckets == old(self)@.journal.buckets.update(
                old(self)@.journal.time as int,
                old(self)@.journal.buckets[old(self)@.journal.time as int].push(
                    (address, old(self).word(address)),
                ),
            ),
    {
        let prior = self.get(address);
        self.engine.add_change((address, prior));
        self.underlying.insert(address, val);
        assert(self@.words =~= old(self)@.words.insert(address, val));
    }

    /// Closes the current step.
    pub fn step_forward(&mut self)
        requires
            old(self).wf(),
        ensures
            final(self).wf(),
            final(self)@.words == old(self)@.words,
            final(self)@.journal.time == old(self)@.journal.time + 1,
            final(self)@.journal.buckets == (if old(self)@.journal.time + 1
                < old(self)@.journal.buckets.len() {
                old(self)@.journal.buckets
            } else {
                old(self)@.journal.buckets.push(Seq::empty())
            }),
    {
        self.engine.step_forward();
    }

    /// Steps back one step, restoring the prior words journaled during it;
    /// returns whether there was a step to undo.
    pub fn step_backward(&mut self) -> (r: bool)
        requires
            old(self).wf(),
        ensures
            final(self).wf(),
            r == (old(self)@.journal.time > 0),
            !r ==> final(self)@ == old(self)@,
            r ==> {
                let t = (old(self)@.journal.time - 1) as int;
                &&& final(self)@.words == undo_memory(
                    old(self)@.words,
                    old(self)@.journal.buckets[t],
                )
                &&& final(self)@.journal.time == t
                &&& final(self)@.journal.buckets == old(self)@.journal.buckets.update(
                    t,
                    Seq::empty(),
                )
            },
    {
        match self.engine.step_backward() {
            None => false,
            Some(changes) => {
                let ghost start = self@.words;
                let ghost journal = self.engine@;
                let mut k: usize = changes.len();
                assert(changes@.take(k as int) =~= changes@);
                while k > 0
                    invariant
                        k <= changes@.len(),
                        self.engine@ == journal,
                        forall|a: u32| #[trigger] self@.words.contains_key(a),
                        undo_memory(self@.words, changes@.take(k as int))
                            == undo_memory(start, changes@),
                    decreases k,
                {
                    let ghost before = self@.words;
                    let (address, prior) = changes[k - 1];
                    self.underlying.insert(address, prior);
                    proof {
                        assert(self@.words =~= before.insert(address, prior));
                        let p = changes@.take(k as int);
                        assert(p.drop_last() =~= changes@.take(k - 1));
                        assert(p.last() == changes@[k - 1]);
                    }
                    k = k - 1;
                }
                assert(changes@.take(0) =~= Seq::<(u32, u32)>::empty());
                true
            },
        }
    }
}

} // verus!
