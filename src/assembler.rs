//! The assembler: source text to a program image, with the symbol table, the
//! line map and the patched symbol references; every problem is collected.
use vstd::prelude::*;
use crate::text::{
    code_end, find_code_end, find_line_end, find_word_end, find_word_start, hex_value, line_end,
    parse_hex, range_eq, word_end, word_start,
};
use crate::types::{Diagnostic, Error, Instruction};
use vstd::string::StrSliceExecFns;

verus! {

/// What the assembler has built, as the contracts see it.
pub ghost struct AsmState {
    /// The program image.
    pub instructions: Seq<u32>,
    /// Declared symbols with their word addresses, in declaration order.
    pub symbols: Seq<(Seq<char>, u32)>,
    /// For each line that emitted words: `(line, start, end)`, the inclusive
    /// range of word indices it produced.
    pub lines: Seq<(nat, nat, nat)>,
    /// Operand placeholders to patch: `(word index, line, symbol name)`.
    pub patches: Seq<(nat, nat, Seq<char>)>,
    /// Patched operands: `(word index, symbol name)`.
    pub references: Seq<(nat, Seq<char>)>,
    pub errors: Seq<Diagnostic>,
}

/// Nothing assembled yet.
pub open spec fn empty_state() -> AsmState {
    AsmState {
        instructions: Seq::empty(),
        symbols: Seq::empty(),
        lines: Seq::empty(),
        patches: Seq::empty(),
        references: Seq::empty(),
        errors: Seq::empty(),
    }
}

/// The address of a declared symbol.
pub open spec fn lookup(symbols: Seq<(Seq<char>, u32)>, name: Seq<char>) -> Option<u32>
    decreases symbols.len(),
{
    if symbols.len() == 0 {
        None
    } else if symbols.last().0 == name {
        Some(symbols.last().1)
    } else {
        lookup(symbols.drop_last(), name)
    }
}

/// Emits the opcode `op`, whose mnemonic is the word `s[a..b]` of the code
/// `..c` of line `ln`; an operand-carrying opcode takes the next word as the
/// name of the symbol whose address will replace its placeholder.
pub open spec fn assemble_op(
    st: AsmState,
    s: Seq<char>,
    ln: nat,
    op: Instruction,
    a: int,
    b: int,
    c: int,
) -> AsmState {
    let a1 = word_start(s, b, c);
    let b1 = word_end(s, a1, c);
    let idx = st.instructions.len();
    if !op.carries_operand() {
        AsmState {
            instructions: st.instructions.push(op.code()),
            lines: st.lines.push((ln, idx, idx)),
            ..st
        }
    } else if a1 >= c {
        AsmState {
            instructions: st.instructions.push(op.code()),
            lines: st.lines.push((ln, idx, idx)),
            errors: st.errors.push(Diagnostic::MissingOperand(s.subrange(a, b), ln)),
            ..st
        }
    } else {
        AsmState {
            instructions: st.instructions.push(op.code()).push(0),
            lines: st.lines.push((ln, idx, idx + 1)),
            patches: st.patches.push((idx + 1, ln, s.subrange(a1, b1))),
            ..st
        }
    }
}

/// Assembles the line `p..e` of the source `s`, the `ln`-th (from 0).
///
/// The code part of the line ends at the first `;`; its words are separated
/// by whitespace. A line without words emits nothing. A first word that is a
/// mnemonic emits that instruction (see `assemble_op`). A first word `name:`
/// declares `name` at the next word address: as a label when nothing
/// follows, as a label for the instruction that follows when the next word
/// is a mnemonic, and otherwise as a variable initialized to the hexadecimal
/// value of the next word.
pub open spec fn assemble_line(st: AsmState, s: Seq<char>, ln: nat, p: int, e: int) -> AsmState {
    let c = code_end(s, p, e);
    let a0 = word_start(s, p, c);
    let b0 = word_end(s, a0, c);
    let a1 = word_start(s, b0, c);
    let b1 = word_end(s, a1, c);
    let w0 = s.subrange(a0, b0);
    let w1 = s.subrange(a1, b1);
    let idx = st.instructions.len();
    if a0 >= c {
        st
    } else {
        match Instruction::from_mnemonic_spec(w0) {
            Some(op) => assemble_op(st, s, ln, op, a0, b0, c),
            None => if w0.last() != ':' {
                AsmState { errors: st.errors.push(Diagnostic::UnknownKeyword(w0, ln)), ..st }
            } else {
                let name = w0.drop_last();
                let declared = AsmState { symbols: st.symbols.push((name, idx as u32)), ..st };
                if lookup(st.symbols, name) is Some {
                    AsmState { errors: st.errors.push(Diagnostic::Redefinition(name, ln)), ..st }
                } else if a1 >= c {
                    declared
                } else {
                    match Instruction::from_mnemonic_spec(w1) {
                        Some(op) => assemble_op(declared, s, ln, op, a1, b1, c),
                        None => match hex_value(s, a1, b1) {
                            None => AsmState {
                                errors: st.errors.push(Diagnostic::InvalidInitializer(name, ln)),
                                ..st
                            },
                            Some(v) => AsmState {
                                instructions: st.instructions.push(v),
                                symbols: st.symbols.push((name, idx as u32)),
                                lines: st.lines.push((ln, idx, idx)),
                                ..st
                            },
                        },
                    }
                }
            },
        }
    }
}

/// Assembles the lines of `s` from the one starting at `p`, the `ln`-th;
/// lines end at `'\n'`.
pub open spec fn assemble_from(st: AsmState, s: Seq<char>, ln: nat, p: int) -> AsmState
    decreases s.len() - p,
{
    let e = line_end(s, p);
    let next = assemble_line(st, s, ln, p, e);
    if p <= e < s.len() {
        assemble_from(next, s, ln + 1, e + 1)
    } else {
        next
    }
}

/// Patches the placeholders from the `k`-th on: each gets the address of its
/// symbol and becomes a reference, or is reported as undefined.
pub open spec fn resolve_from(st: AsmState, k: nat) -> AsmState
    decreases st.patches.len() - k,
{
    if k >= st.patches.len() {
        st
    } else {
        let (idx, ln, name) = st.patches[k as int];
        let next = match lookup(st.symbols, name) {
            Some(a) => AsmState {
                instructions: st.instructions.update(idx as int, a),
                references: st.references.push((idx, name)),
                ..st
            },
            None => AsmState {
                errors: st.errors.push(Diagnostic::UndefinedVariable(name, ln)),
                ..st
            },
        };
        resolve_from(next, k + 1)
    }
}

/// The result of assembling the source `s`.
pub open spec fn assembled(s: Seq<char>) -> AsmState {
    resolve_from(assemble_from(empty_state(), s, 0, 0), 0)
}

/// Symbol names are pairwise distinct.
pub open spec fn names_unique(symbols: Seq<(Seq<char>, u32)>) -> bool {
    forall|i: int, j: int|
        0 <= i < j < symbols.len() ==> (#[trigger] symbols[i]).0 != (#[trigger] symbols[j]).0
}

/// Every line range lies within the image: `start <= end < instructions.len()`.
pub open spec fn lines_within(st: AsmState) -> bool {
    forall|i: int|
        0 <= i < st.lines.len() ==> {
            let r = #[trigger] st.lines[i];
            r.1 <= r.2 < st.instructions.len()
        }
}

/// Every reference points at a word that holds the address of its symbol.
pub open spec fn references_consistent(st: AsmState) -> bool {
    forall|i: int|
        0 <= i < st.references.len() ==> {
            let r = #[trigger] st.references[i];
            &&& r.0 < st.instructions.len()
            &&& lookup(st.symbols, r.1) == Some(st.instructions[r.0 as int])
        }
}

/// Placeholders lie in the image, at strictly increasing indices.
spec fn patches_ordered(st: AsmState) -> bool {
    &&& forall|i: int| 0 <= i < st.patches.len() ==> (#[trigger] st.patches[i]).0 < st.instructions.len()
    &&& forall|i: int, j: int|
        0 <= i < j < st.patches.len() ==> (#[trigger] st.patches[i]).0 < (#[trigger] st.patches[j]).0
}

spec fn line_phase_inv(st: AsmState) -> bool {
    &&& names_unique(st.symbols)
    &&& lines_within(st)
    &&& patches_ordered(st)
    &&& st.references.len() == 0
}

proof fn lemma_lookup_none(symbols: Seq<(Seq<char>, u32)>, name: Seq<char>)
    requires
        lookup(symbols, name) is None,
    ensures
        forall|i: int| 0 <= i < symbols.len() ==> (#[trigger] symbols[i]).0 != name,
    decreases symbols.len(),
{
    if symbols.len() > 0 {
        lemma_lookup_none(symbols.drop_last(), name);
        assert forall|i: int| 0 <= i < symbols.len() implies (#[trigger] symbols[i]).0 != name by {
            if i < symbols.len() - 1 {
                assert(symbols.drop_last()[i] == symbols[i]);
            }
        }
    }
}

proof fn lemma_line_preserves(st: AsmState, s: Seq<char>, ln: nat, p: int, e: int)
    requires
        line_phase_inv(st),
    ensures
        line_phase_inv(assemble_line(st, s, ln, p, e)),
        assemble_line(st, s, ln, p, e).instructions.len() >= st.instructions.len(),
{
    let c = code_end(s, p, e);
    let a0 = word_start(s, p, c);
    let b0 = word_end(s, a0, c);
    let w0 = s.subrange(a0, b0);
    let name = w0.drop_last();
    let r = assemble_line(st, s, ln, p, e);
    if a0 < c && Instruction::from_mnemonic_spec(w0) is None && w0.last() == ':' && lookup(
        st.symbols,
        name,
    ) is None {
        lemma_lookup_none(st.symbols, name);
        assert forall|i: int, j: int|
            0 <= i < j < r.symbols.len() implies (#[trigger] r.symbols[i]).0 != (
            #[trigger] r.symbols[j]).0 by {
            if j >= st.symbols.len() {
                assert(r.symbols[j].0 == name);
                assert(r.symbols[i] == st.symbols[i]);
            } else {
                assert(r.symbols[i] == st.symbols[i]);
                assert(r.symbols[j] == st.symbols[j]);
            }
        }
    }
    assert forall|i: int| 0 <= i < r.lines.len() implies {
        let x = #[trigger] r.lines[i];
        x.1 <= x.2 < r.instructions.len()
    } by {
        if i < st.lines.len() {
            assert(r.lines[i] == st.lines[i]);
        }
    }
    assert forall|i: int| 0 <= i < r.patches.len() implies (#[trigger] r.patches[i]).0
        < r.instructions.len() by {
        if i < st.patches.len() {
            assert(r.patches[i] == st.patches[i]);
        }
    }
    assert forall|i: int, j: int| 0 <= i < j < r.patches.len() implies (
    #[trigger] r.patches[i]).0 < (#[trigger] r.patches[j]).0 by {
        assert(r.patches[i] == st.patches[i]);
        if j < st.patches.len() {
            assert(r.patches[j] == st.patches[j]);
        }
    }
}

proof fn lemma_assemble_from_preserves(st: AsmState, s: Seq<char>, ln: nat, p: int)
    requires
        line_phase_inv(st),
    ensures
        line_phase_inv(assemble_from(st, s, ln, p)),
    decreases s.len() - p,
{
    let e = line_end(s, p);
    lemma_line_preserves(st, s, ln, p, e);
    if p <= e < s.len() {
        lemma_assemble_from_preserves(assemble_line(st, s, ln, p, e), s, ln + 1, e + 1);
    }
}

proof fn lemma_resolve_from(st: AsmState, k: nat)
    requires
        names_unique(st.symbols),
        lines_within(st),
        patches_ordered(st),
        references_consistent(st),
        k <= st.patches.len(),
        forall|i: int, j: int|
            0 <= i < st.references.len() && k <= j < st.patches.len() ==> (
            #[trigger] st.references[i]).0 < (#[trigger] st.patches[j]).0,
    ensures
        names_unique(resolve_from(st, k).symbols),
        lines_within(resolve_from(st, k)),
        references_consistent(resolve_from(st, k)),
        resolve_from(st, k).symbols == st.symbols,
    decreases st.patches.len() - k,
{
    if k < st.patches.len() {
        let (idx, ln, name) = st.patches[k as int];
        let next = match lookup(st.symbols, name) {
            Some(a) => AsmState {
                instructions: st.instructions.update(idx as int, a),
                references: st.references.push((idx, name)),
                ..st
            },
            None => AsmState {
                errors: st.errors.push(Diagnostic::UndefinedVariable(name, ln)),
                ..st
            },
        };
        assert(next.patches == st.patches);
        assert forall|i: int| 0 <= i < next.references.len() implies {
            let r = #[trigger] next.references[i];
            &&& r.0 < next.instructions.len()
            &&& lookup(next.symbols, r.1) == Some(next.instructions[r.0 as int])
        } by {
            if i < st.references.len() {
                assert(next.references[i] == st.references[i]);
                assert(st.references[i].0 < st.patches[k as int].0);
            }
        }
        assert forall|i: int, j: int|
            0 <= i < next.references.len() && k + 1 <= j < next.patches.len() implies (
            #[trigger] next.references[i]).0 < (#[trigger] next.patches[j]).0 by {
            if i < st.references.len() {
                assert(next.references[i] == st.references[i]);
            } else {
                assert(st.patches[k as int].0 < st.patches[j].0);
            }
        }
        assert forall|i: int| 0 <= i < next.lines.len() implies {
            let r = #[trigger] next.lines[i];
            r.1 <= r.2 < next.instructions.len()
        } by {
            assert(next.lines[i] == st.lines[i]);
        }
        lemma_resolve_from(next, k + 1);
    }
}

/// Symbol consistency: in the result of assembling any source, symbol names
/// are unique and every patched reference holds the address of its symbol.
pub proof fn lemma_symbol_consistency(s: Seq<char>)
    ensures
        names_unique(assembled(s).symbols),
        references_consistent(assembled(s)),
{
    lemma_line_phase_start();
    lemma_assemble_from_preserves(empty_state(), s, 0, 0);
    lemma_resolve_from(assemble_from(empty_state(), s, 0, 0), 0);
}

/// Line-map containment: in the result of assembling any source, every line
/// range satisfies `start <= end < instructions.len()`.
pub proof fn lemma_line_map_containment(s: Seq<char>)
    ensures
        lines_within(assembled(s)),
{
    lemma_line_phase_start();
    lemma_assemble_from_preserves(empty_state(), s, 0, 0);
    lemma_resolve_from(assemble_from(empty_state(), s, 0, 0), 0);
}

proof fn lemma_line_phase_start()
    ensures
        line_phase_inv(empty_state()),
{
}

/// A declared symbol and its word address.
pub struct Symbol {
    pub name: String,
    pub address: u32,
}

/// An operand word that was patched with the address of a symbol.
pub struct SymbolReference {
    pub index: usize,
    pub name: String,
}

/// The inclusive range `start..=end` of word indices that a source line
/// produced.
#[derive(Debug, Clone, Copy, PartialEq, Eq, Structural)]
pub struct LineRange {
    pub line: usize,
    pub start: usize,
    pub end: usize,
}

/// The symbol table as `(name, address)` pairs.
pub open spec fn symbols_view(v: Seq<Symbol>) -> Seq<(Seq<char>, u32)> {
    Seq::new(v.len(), |i: int| (v[i].name@, v[i].address))
}

/// The line map as `(line, start, end)` triples.
pub open spec fn lines_view(v: Seq<LineRange>) -> Seq<(nat, nat, nat)> {
    Seq::new(v.len(), |i: int| (v[i].line as nat, v[i].start as nat, v[i].end as nat))
}

/// The references as `(word index, symbol name)` pairs.
pub open spec fn references_view(v: Seq<SymbolReference>) -> Seq<(nat, Seq<char>)> {
    Seq::new(v.len(), |i: int| (v[i].index as nat, v[i].name@))
}

/// The diagnostics as the contracts see them.
pub open spec fn errors_view(v: Seq<Error>) -> Seq<Diagnostic> {
    Seq::new(v.len(), |i: int| v[i]@)
}

/// An assembled program: the image, its symbols, the line map, the patched
/// references and, if there were any, the diagnostics.
pub struct Assembler {
    pub instructions: Vec<u32>,
    pub line_map: Vec<LineRange>,
    pub symbol_map: Vec<Symbol>,
    pub symbol_references: Vec<SymbolReference>,
    pub errors: Option<Vec<Error>>,
}

/// The working tables of the assembler; symbol names and operand names are
/// ranges of the source text.
struct Builder {
    instructions: Vec<u32>,
    /// `(name start, name end, address)`.
    symbols: Vec<(usize, usize, u32)>,
    lines: Vec<LineRange>,
    /// `(word index, line, name start, name end)`.
    patches: Vec<(usize, usize, usize, usize)>,
    references: Vec<SymbolReference>,
    errors: Vec<Error>,
}

spec fn ranged_symbols(s: Seq<char>, v: Seq<(usize, usize, u32)>) -> Seq<(Seq<char>, u32)> {
    Seq::new(v.len(), |i: int| (s.subrange(v[i].0 as int, v[i].1 as int), v[i].2))
}

spec fn ranged_patches(s: Seq<char>, v: Seq<(usize, usize, usize, usize)>) -> Seq<
    (nat, nat, Seq<char>),
> {
    Seq::new(v.len(), |i: int| (v[i].0 as nat, v[i].1 as nat, s.subrange(v[i].2 as int, v[i].3 as int)))
}


/// The address of the symbol named `s[a..b]`, if it is declared.
fn find_symbol(s: &Vec<char>, symbols: &Vec<(usize, usize, u32)>, a: usize, b: usize) -> (r: Option<
    u32,
>)
    requires
        a <= b <= s@.len(),
        forall|i: int|
            0 <= i < symbols@.len() ==> #[trigger] symbols@[i].0 <= symbols@[i].1 <= s@.len(),
    ensures
        r == lookup(ranged_symbols(s@, symbols@), s@.subrange(a as int, b as int)),
{
    let ghost name = s@.subrange(a as int, b as int);
    let ghost all = ranged_symbols(s@, symbols@);
    let mut k: usize = symbols.len();
    assert(all.take(k as int) =~= all);
    while k > 0
        invariant
            k <= symbols@.len(),
            a <= b <= s@.len(),
            all == ranged_symbols(s@, symbols@),
            name == s@.subrange(a as int, b as int),
            forall|i: int|
                0 <= i < symbols@.len() ==> #[trigger] symbols@[i].0 <= symbols@[i].1 <= s@.len(),
            lookup(all, name) == lookup(all.take(k as int), name),
        decreases k,
    {
        let (x, y, address) = symbols[k - 1];
        let ghost prefix = all.take(k as int);
        assert(prefix.drop_last() =~= all.take(k - 1));
        assert(prefix.last() == all[k - 1]);
        if range_eq(s, x, y, a, b) {
            return Some(address);
        }
        k = k - 1;
    }
    assert(all.take(0) =~= Seq::<(Seq<char>, u32)>::empty());
    None
}

/// The characters `input[a..b]` as a `String`.
fn text_of(input: &str, a: usize, b: usize) -> (r: String)
    requires
        a <= b <= input@.len(),
    ensures
        r@ == input@.subrange(a as int, b as int),
{
    input.substring_char(a, b).to_owned()
}

impl Builder {
    spec fn view_in(&self, s: Seq<char>) -> AsmState {
        AsmState {
            instructions: self.instructions@,
            symbols: ranged_symbols(s, self.symbols@),
            lines: lines_view(self.lines@),
            patches: ranged_patches(s, self.patches@),
            references: references_view(self.references@),
            errors: errors_view(self.errors@),
        }
    }

    /// Every name range lies in the source, and every placeholder in the image.
    spec fn ranges_ok(&self, s: Seq<char>) -> bool {
        &&& forall|i: int|
            0 <= i < self.symbols@.len() ==> {
                let x = #[trigger] self.symbols@[i];
                x.0 <= x.1 <= s.len()
            }
        &&& forall|i: int|
            0 <= i < self.patches@.len() ==> {
                let x = #[trigger] self.patches@[i];
                &&& x.2 <= x.3 <= s.len()
                &&& x.0 < self.instructions@.len()
            }
    }

    fn new() -> (r: Builder)
        ensures
            r.instructions@.len() == 0,
            r.symbols@.len() == 0,
            r.lines@.len() == 0,
            r.patches@.len() == 0,
            r.references@.len() == 0,
            r.errors@.len() == 0,
    {
        Builder {
            instructions: Vec::new(),
            symbols: Vec::new(),
            lines: Vec::new(),
            patches: Vec::new(),
            references: Vec::new(),
            errors: Vec::new(),
        }
    }

    /// Patches every placeholder with the address of its symbol, or reports
    /// the symbol as undefined.
    fn resolve(&mut self, input: &str, s: &Vec<char>)
        requires
            old(self).ranges_ok(s@),
            input@ == s@,
        ensures
            final(self).view_in(s@) == resolve_from(old(self).view_in(s@), 0),
            final(self).ranges_ok(s@),
            final(self).instructions@.len() == old(self).instructions@.len(),
            final(self).symbols@ == old(self).symbols@,
            final(self).lines@ == old(self).lines@,
    {
        let ghost target = resolve_from(self.view_in(s@), 0);
        let n = self.patches.len();
        for k in 0..n
            invariant
                n == self.patches@.len(),
                self.ranges_ok(s@),
                input@ == s@,
                resolve_from(self.view_in(s@), k as nat) == target,
                self.instructions@.len() == old(self).instructions@.len(),
                self.symbols@ == old(self).symbols@,
                self.lines@ == old(self).lines@,
                self.patches@ == old(self).patches@,
        {
            let ghost st = self.view_in(s@);
            let (index, line, a, b) = self.patches[k];
            assert(self.patches@[k as int] == (index, line, a, b));
            match find_symbol(s, &self.symbols, a, b) {
                Some(address) => {
                    self.instructions.set(index, address);
                    self.references.push(SymbolReference { index, name: text_of(input, a, b) });
                    assert(self.view_in(s@).references =~= st.references.push(
                        (index as nat, s@.subrange(a as int, b as int)),
                    ));
                },
                None => {
                    self.errors.push(Error::UndefinedVariable(text_of(input, a, b), line));
                    assert(self.view_in(s@).errors =~= st.errors.push(
                        Diagnostic::UndefinedVariable(s@.subrange(a as int, b as int), line as nat),
                    ));
                },
            }
        }
    }

    /// Emits the opcode `op` named by the word `s[a..b]`, with its operand
    /// placeholder if it carries one.
    fn emit(
        &mut self,
        input: &str,
        s: &Vec<char>,
        ln: usize,
        op: Instruction,
        a: usize,
        b: usize,
        c: usize,
    )
        requires
            old(self).ranges_ok(s@),
            input@ == s@,
            a < b <= c <= s@.len(),
            old(self).instructions@.len() <= a,
        ensures
            final(self).ranges_ok(s@),
            final(self).view_in(s@) == assemble_op(
                old(self).view_in(s@),
                s@,
                ln as nat,
                op,
                a as int,
                b as int,
                c as int,
            ),
            final(self).instructions@.len() <= c + 1,
            final(self).references@ == old(self).references@,
    {
        let ghost st = self.view_in(s@);
        let a1 = find_word_start(s, b, c);
        let b1 = find_word_end(s, a1, c);
        let idx = self.instructions.len();
        self.instructions.push(op.code_of());
        if op.has_operand() {
            if a1 < c {
                self.instructions.push(0);
                self.lines.push(LineRange { line: ln, start: idx, end: idx + 1 });
                self.patches.push((idx + 1, ln, a1, b1));
                assert(self.patches@[self.patches@.len() - 1] == ((idx + 1) as usize, ln, a1, b1));
                assert(self.view_in(s@).patches =~= st.patches.push(
                    ((idx + 1) as nat, ln as nat, s@.subrange(a1 as int, b1 as int)),
                ));
            } else {
                self.lines.push(LineRange { line: ln, start: idx, end: idx });
                self.errors.push(Error::MissingOperand(text_of(input, a, b), ln));
                assert(self.view_in(s@).errors =~= st.errors.push(
                    Diagnostic::MissingOperand(s@.subrange(a as int, b as int), ln as nat),
                ));
                assert(self.view_in(s@).patches =~= st.patches);
            }
        } else {
            self.lines.push(LineRange { line: ln, start: idx, end: idx });
            assert(self.view_in(s@).patches =~= st.patches);
        }
        assert(self.view_in(s@).lines =~= st.lines.push(
            (ln as nat, idx as nat, self.lines@.last().end as nat),
        ));
        assert(self.view_in(s@).symbols =~= st.symbols);
    }

    /// Assembles the line `p..e`, the `ln`-th of the source.
    fn assemble_line(&mut self, input: &str, s: &Vec<char>, ln: usize, p: usize, e: usize)
        requires
            old(self).ranges_ok(s@),
            input@ == s@,
            p <= e <= s@.len(),
            s@.len() < u32::MAX,
            old(self).instructions@.len() <= p,
        ensures
            final(self).ranges_ok(s@),
            final(self).view_in(s@) == assemble_line(old(self).view_in(s@), s@, ln as nat, p as int, e as int),
            final(self).instructions@.len() <= e + 1,
            final(self).references@ == old(self).references@,
    {
        let ghost st = self.view_in(s@);
        let c = find_code_end(s, p, e);
        let a0 = find_word_start(s, p, c);
        if a0 >= c {
            return;
        }
        let b0 = find_word_end(s, a0, c);
        let a1 = find_word_start(s, b0, c);
        let b1 = find_word_end(s, a1, c);
        let idx = self.instructions.len();
        match Instruction::lookup(s, a0, b0) {
            Some(op) => {
                self.emit(input, s, ln, op, a0, b0, c);
            },
            None => {
                if s[b0 - 1] != ':' {
                    self.errors.push(Error::UnknownKeyword(text_of(input, a0, b0), ln));
                    assert(self.view_in(s@).errors =~= st.errors.push(
                        Diagnostic::UnknownKeyword(s@.subrange(a0 as int, b0 as int), ln as nat),
                    ));
                } else {
                    let n = b0 - 1;
                    assert(s@.subrange(a0 as int, b0 as int).drop_last() =~= s@.subrange(
                        a0 as int,
                        n as int,
                    ));
                    if find_symbol(s, &self.symbols, a0, n).is_some() {
                        self.errors.push(Error::Redefinition(text_of(input, a0, n), ln));
                        assert(self.view_in(s@).errors =~= st.errors.push(
                            Diagnostic::Redefinition(s@.subrange(a0 as int, n as int), ln as nat),
                        ));
                    } else if a1 >= c {
                        self.symbols.push((a0, n, idx as u32));
                        assert(self.symbols@[self.symbols@.len() - 1] == (a0, n, idx as u32));
                        assert(self.view_in(s@).symbols =~= st.symbols.push(
                            (s@.subrange(a0 as int, n as int), idx as u32),
                        ));
                    } else {
                        match Instruction::lookup(s, a1, b1) {
                            Some(op) => {
                                self.symbols.push((a0, n, idx as u32));
                                assert(self.symbols@[self.symbols@.len() - 1] == (a0, n, idx as u32));
                                assert(self.view_in(s@).symbols =~= st.symbols.push(
                                    (s@.subrange(a0 as int, n as int), idx as u32),
                                ));
                                assert(self.view_in(s@).lines =~= st.lines);
                                assert(self.view_in(s@).errors =~= st.errors);
                                assert(self.view_in(s@).patches =~= st.patches);
                                self.emit(input, s, ln, op, a1, b1, c);
                            },
                            None => match parse_hex(s, a1, b1) {
                                None => {
                                    self.errors.push(
                                        Error::InvalidInitializer(text_of(input, a0, n), ln),
                                    );
                                    assert(self.view_in(s@).errors =~= st.errors.push(
                                        Diagnostic::InvalidInitializer(
                                            s@.subrange(a0 as int, n as int),
                                            ln as nat,
                                        ),
                                    ));
                                },
                                Some(v) => {
                                    self.lines.push(LineRange { line: ln, start: idx, end: idx });
                                    self.symbols.push((a0, n, idx as u32));
                                    assert(self.symbols@[self.symbols@.len() - 1] == (
                                        a0,
                                        n,
                                        idx as u32,
                                    ));
                                    self.instructions.push(v);
                                    assert(self.view_in(s@).symbols =~= st.symbols.push(
                                        (s@.subrange(a0 as int, n as int), idx as u32),
                                    ));
                                    assert(self.view_in(s@).lines =~= st.lines.push(
                                        (ln as nat, idx as nat, idx as nat),
                                    ));
                                },
                            },
                        }
                    }
                }
            },
        }
    }
}

impl Assembler {
    /// Assembles a source text. Never fails: every problem is collected in
    /// `errors`, which is `None` exactly when there was none.
    pub fn parse(input: String) -> (r: Assembler)
        requires
            input@.len() < u32::MAX,
        ensures
            r.instructions@ == assembled(input@).instructions,
            symbols_view(r.symbol_map@) == assembled(input@).symbols,
            lines_view(r.line_map@) == assembled(input@).lines,
            references_view(r.symbol_references@) == assembled(input@).references,
            assembled(input@).errors.len() == 0 ==> r.errors is None,
            assembled(input@).errors.len() > 0 ==> r.errors is Some && errors_view(
                r.errors->0@,
            ) == assembled(input@).errors,
    {
        let text = input.as_str();
        let mut chars: Vec<char> = Vec::new();
        for ch in it: text.chars()
            invariant
                chars@ == it.seq().take(it.index() as int),
        {
            chars.push(ch);
        }
        assert(chars@ =~= input@);
        let ghost s = input@;
        let mut b = Builder::new();
        assert(b.instructions@ =~= Seq::<u32>::empty());
        assert(b.view_in(s).symbols =~= Seq::empty());
        assert(b.view_in(s).lines =~= Seq::empty());
        assert(b.view_in(s).patches =~= Seq::empty());
        assert(b.view_in(s).references =~= Seq::empty());
        assert(b.view_in(s).errors =~= Seq::empty());
        assert(b.view_in(s) == empty_state());
        let ghost target = assemble_from(empty_state(), s, 0, 0);
        let mut pos: usize = 0;
        let mut ln: usize = 0;
        let mut done = false;
        while !done
            invariant
                chars@ == s,
                text@ == s,
                s.len() < u32::MAX,
                pos <= s.len(),
                ln <= pos,
                !done ==> b.instructions@.len() <= pos,
                b.ranges_ok(s),
                b.references@.len() == 0,
                !done ==> assemble_from(b.view_in(s), s, ln as nat, pos as int) == target,
                done ==> b.view_in(s) == target,
            decreases s.len() - pos + (if done { 0int } else { 1 }),
        {
            let e = find_line_end(&chars, pos);
            b.assemble_line(text, &chars, ln, pos, e);
            if e < chars.len() {
                pos = e + 1;
                ln = ln + 1;
            } else {
                done = true;
            }
        }
        b.resolve(text, &chars);
        let mut symbol_map: Vec<Symbol> = Vec::new();
        for k in 0..b.symbols.len()
            invariant
                text@ == s,
                b.ranges_ok(s),
                k <= b.symbols@.len(),
                symbol_map@.len() == k,
                symbols_view(symbol_map@) == ranged_symbols(s, b.symbols@).take(k as int),
        {
            let (x, y, address) = b.symbols[k];
            assert(b.symbols@[k as int] == (x, y, address));
            let ghost prior = symbol_map@;
            let name = text_of(text, x, y);
            symbol_map.push(Symbol { name, address });
            assert(symbol_map@ == prior.push(Symbol { name, address }));
            assert(symbols_view(symbol_map@)[k as int] == (s.subrange(x as int, y as int), address));
            assert(symbols_view(symbol_map@) =~= ranged_symbols(s, b.symbols@).take(k + 1));
        }
        assert(ranged_symbols(s, b.symbols@).take(b.symbols@.len() as int) =~= ranged_symbols(
            s,
            b.symbols@,
        ));
        let errors = if b.errors.len() == 0 {
            None
        } else {
            Some(b.errors)
        };
        Assembler {
            instructions: b.instructions,
            line_map: b.lines,
            symbol_map,
            symbol_references: b.references,
            errors,
        }
    }
}

} // verus!
