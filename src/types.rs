//! Registers, opcodes and assembly diagnostics.
use vstd::prelude::*;
use crate::text::range_eq_word;

verus! {

/// The registers of the RSC architecture, in register-file order.
#[derive(Debug, Clone, Copy, PartialEq, Eq, Structural)]
pub enum Register {
    S,
    Z,
    IR,
    AR,
    DR,
    PC,
    OUTR,
    ACC,
    R,
}

/// Number of registers in the register file.
pub const REGISTER_COUNT: usize = 9;

impl Register {
    /// Position of the register in the register file.
    pub open spec fn ordinal(self) -> nat {
        match self {
            Register::S => 0,
            Register::Z => 1,
            Register::IR => 2,
            Register::AR => 3,
            Register::DR => 4,
            Register::PC => 5,
            Register::OUTR => 6,
            Register::ACC => 7,
            Register::R => 8,
        }
    }

    /// Display name of the register.
    pub open spec fn name(self) -> Seq<char> {
        match self {
            Register::S => "S"@,
            Register::Z => "Z"@,
            Register::IR => "IR"@,
            Register::AR => "AR"@,
            Register::DR => "DR"@,
            Register::PC => "PC"@,
            Register::OUTR => "OUTR"@,
            Register::ACC => "ACC"@,
            Register::R => "R"@,
        }
    }

    /// Position of the register in the register file.
    pub fn index(self) -> (r: usize)
        ensures
            r == self.ordinal(),
            r < REGISTER_COUNT,
    {
        match self {
            Register::S => 0,
            Register::Z => 1,
            Register::IR => 2,
            Register::AR => 3,
            Register::DR => 4,
            Register::PC => 5,
            Register::OUTR => 6,
            Register::ACC => 7,
            Register::R => 8,
        }
    }

    /// Display name of the register.
    pub fn as_str(self) -> (r: &'static str)
        ensures
            r@ == self.name(),
    {
        match self {
            Register::S => "S",
            Register::Z => "Z",
            Register::IR => "IR",
            Register::AR => "AR",
            Register::DR => "DR",
            Register::PC => "PC",
            Register::OUTR => "OUTR",
            Register::ACC => "ACC",
            Register::R => "R",
        }
    }

    /// All registers, in register-file order.
    pub fn iter() -> (r: Vec<Register>)
        ensures
            r@.len() == REGISTER_COUNT,
            forall|i: int| 0 <= i < REGISTER_COUNT ==> (#[trigger] r@[i]).ordinal() == i,
    {
        vec![
            Register::S,
            Register::Z,
            Register::IR,
            Register::AR,
            Register::DR,
            Register::PC,
            Register::OUTR,
            Register::ACC,
            Register::R,
        ]
    }
}

/// The instructions of the RSC architecture; the code of each is its position here.
#[derive(Debug, Clone, Copy, PartialEq, Eq, Structural)]
pub enum Instruction {
    HALT,
    LDAC,
    STAC,
    MVAC,
    MOVR,
    JMP,
    JMPZ,
    OUT,
    SUB,
    ADD,
    INC,
    CLAC,
    AND,
    OR,
    ASHR,
    NOT,
}

/// Number of opcodes.
pub const OPCODE_COUNT: u32 = 16;

impl Instruction {
    /// Numeric encoding of the opcode.
    pub open spec fn code(self) -> u32 {
        match self {
            Instruction::HALT => 0,
            Instruction::LDAC => 1,
            Instruction::STAC => 2,
            Instruction::MVAC => 3,
            Instruction::MOVR => 4,
            Instruction::JMP => 5,
            Instruction::JMPZ => 6,
            Instruction::OUT => 7,
            Instruction::SUB => 8,
            Instruction::ADD => 9,
            Instruction::INC => 10,
            Instruction::CLAC => 11,
            Instruction::AND => 12,
            Instruction::OR => 13,
            Instruction::ASHR => 14,
            Instruction::NOT => 15,
        }
    }

    /// The opcode with a given encoding, for `c < 16`.
    pub open spec fn from_code_spec(c: u32) -> Instruction {
        if c == 0 {
            Instruction::HALT
        } else         if c == 1 {
            Instruction::LDAC
        } else         if c == 2 {
            Instruction::STAC
        } else         if c == 3 {
            Instruction::MVAC
        } else         if c == 4 {
            Instruction::MOVR
        } else         if c == 5 {
            Instruction::JMP
        } else         if c == 6 {
            Instruction::JMPZ
        } else         if c == 7 {
            Instruction::OUT
        } else         if c == 8 {
            Instruction::SUB
        } else         if c == 9 {
            Instruction::ADD
        } else         if c == 10 {
            Instruction::INC
        } else         if c == 11 {
            Instruction::CLAC
        } else         if c == 12 {
            Instruction::AND
        } else         if c == 13 {
            Instruction::OR
        } else         if c == 14 {
            Instruction::ASHR
        } else {
            Instruction::NOT
        }
    }

    /// The opcode held in the low nibble of a word.
    pub open spec fn decode_spec(word: u32) -> Instruction {
        Instruction::from_code_spec(word % 16)
    }

    /// The mnemonic that names the opcode in assembly source.
    pub open spec fn mnemonic(self) -> Seq<char> {
        match self {
            Instruction::HALT => seq!['H', 'A', 'L', 'T'],
            Instruction::LDAC => seq!['L', 'D', 'A', 'C'],
            Instruction::STAC => seq!['S', 'T', 'A', 'C'],
            Instruction::MVAC => seq!['M', 'V', 'A', 'C'],
            Instruction::MOVR => seq!['M', 'O', 'V', 'R'],
            Instruction::JMP => seq!['J', 'M', 'P'],
            Instruction::JMPZ => seq!['J', 'M', 'P', 'Z'],
            Instruction::OUT => seq!['O', 'U', 'T'],
            Instruction::SUB => seq!['S', 'U', 'B'],
            Instruction::ADD => seq!['A', 'D', 'D'],
            Instruction::INC => seq!['I', 'N', 'C'],
            Instruction::CLAC => seq!['C', 'L', 'A', 'C'],
            Instruction::AND => seq!['A', 'N', 'D'],
            Instruction::OR => seq!['O', 'R'],
            Instruction::ASHR => seq!['A', 'S', 'H', 'R'],
            Instruction::NOT => seq!['N', 'O', 'T'],
        }
    }

    /// Whether the opcode consumes the following word as its operand.
    pub open spec fn carries_operand(self) -> bool {
        self is LDAC || self is STAC || self is JMP || self is JMPZ
    }

    /// The opcode named by a mnemonic, if any.
    pub open spec fn from_mnemonic_spec(s: Seq<char>) -> Option<Instruction> {
        if exists|i: Instruction| i.mnemonic() == s {
            Some(choose|i: Instruction| i.mnemonic() == s)
        } else {
            None
        }
    }

    /// Numeric encoding of the opcode.
    pub fn code_of(self) -> (r: u32)
        ensures
            r == self.code(),
            r < OPCODE_COUNT,
    {
        match self {
            Instruction::HALT => 0,
            Instruction::LDAC => 1,
            Instruction::STAC => 2,
            Instruction::MVAC => 3,
            Instruction::MOVR => 4,
            Instruction::JMP => 5,
            Instruction::JMPZ => 6,
            Instruction::OUT => 7,
            Instruction::SUB => 8,
            Instruction::ADD => 9,
            Instruction::INC => 10,
            Instruction::CLAC => 11,
            Instruction::AND => 12,
            Instruction::OR => 13,
            Instruction::ASHR => 14,
            Instruction::NOT => 15,
        }
    }

    /// The opcode with a given encoding.
    pub fn from_code(c: u32) -> (r: Instruction)
        requires
            c < OPCODE_COUNT,
        ensures
            r == Instruction::from_code_spec(c),
            r.code() == c,
    {
        if c == 0 {
            Instruction::HALT
        } else         if c == 1 {
            Instruction::LDAC
        } else         if c == 2 {
            Instruction::STAC
        } else         if c == 3 {
            Instruction::MVAC
        } else         if c == 4 {
            Instruction::MOVR
        } else         if c == 5 {
            Instruction::JMP
        } else         if c == 6 {
            Instruction::JMPZ
        } else         if c == 7 {
            Instruction::OUT
        } else         if c == 8 {
            Instruction::SUB
        } else         if c == 9 {
            Instruction::ADD
        } else         if c == 10 {
            Instruction::INC
        } else         if c == 11 {
            Instruction::CLAC
        } else         if c == 12 {
            Instruction::AND
        } else         if c == 13 {
            Instruction::OR
        } else         if c == 14 {
            Instruction::ASHR
        } else {
            Instruction::NOT
        }
    }

    /// Decodes the opcode held in the low nibble of a word.
    pub fn decode(word: u32) -> (r: Instruction)
        ensures
            r == Instruction::decode_spec(word),
    {
        Instruction::from_code(word % 16)
    }

    /// Whether the opcode consumes the following word as its operand.
    pub fn has_operand(&self) -> (r: bool)
        ensures
            r == self.carries_operand(),
    {
        match self {
            Instruction::LDAC | Instruction::STAC | Instruction::JMP | Instruction::JMPZ => true,
            _ => false,
        }
    }

    /// The mnemonic of the opcode.
    pub fn as_str(self) -> (r: &'static str)
        ensures
            r@ == self.mnemonic(),
    {
        match self {
            Instruction::HALT => {
                proof {
                    reveal_strlit("HALT");
                }
                "HALT"
            },
            Instruction::LDAC => {
                proof {
                    reveal_strlit("LDAC");
                }
                "LDAC"
            },
            Instruction::STAC => {
                proof {
                    reveal_strlit("STAC");
                }
                "STAC"
            },
            Instruction::MVAC => {
                proof {
                    reveal_strlit("MVAC");
                }
                "MVAC"
            },
            Instruction::MOVR => {
                proof {
                    reveal_strlit("MOVR");
                }
                "MOVR"
            },
            Instruction::JMP => {
                proof {
                    reveal_strlit("JMP");
                }
                "JMP"
            },
            Instruction::JMPZ => {
                proof {
                    reveal_strlit("JMPZ");
                }
                "JMPZ"
            },
            Instruction::OUT => {
                proof {
                    reveal_strlit("OUT");
                }
                "OUT"
            },
            Instruction::SUB => {
                proof {
                    reveal_strlit("SUB");
                }
                "SUB"
            },
            Instruction::ADD => {
                proof {
                    reveal_strlit("ADD");
                }
                "ADD"
            },
            Instruction::INC => {
                proof {
                    reveal_strlit("INC");
                }
                "INC"
            },
            Instruction::CLAC => {
                proof {
                    reveal_strlit("CLAC");
                }
                "CLAC"
            },
            Instruction::AND => {
                proof {
                    reveal_strlit("AND");
                }
                "AND"
            },
            Instruction::OR => {
                proof {
                    reveal_strlit("OR");
                }
                "OR"
            },
            Instruction::ASHR => {
                proof {
                    reveal_strlit("ASHR");
                }
                "ASHR"
            },
            Instruction::NOT => {
                proof {
                    reveal_strlit("NOT");
                }
                "NOT"
            },
        }
    }

    /// The opcode whose mnemonic is `s[a..b]`, if any.
    pub fn lookup(s: &Vec<char>, a: usize, b: usize) -> (r: Option<Instruction>)
        requires
            a <= b <= s@.len(),
        ensures
            r == Instruction::from_mnemonic_spec(s@.subrange(a as int, b as int)),
    {
        let ghost w = s@.subrange(a as int, b as int);
        let mut code: u32 = 0;
        while code < OPCODE_COUNT
            invariant
                a <= b <= s@.len(),
                w == s@.subrange(a as int, b as int),
                code <= OPCODE_COUNT,
                forall|i: Instruction| i.code() < code ==> i.mnemonic() != w,
            decreases OPCODE_COUNT - code,
        {
            let op = Instruction::from_code(code);
            if range_eq_word(s, a, b, &op.mnemonic_chars()) {
                proof {
                    let c = choose|i: Instruction| i.mnemonic() == w;
                    lemma_mnemonic_injective(c, op);
                }
                return Some(op);
            }
            proof {
                assert forall|i: Instruction| i.code() < code + 1 implies i.mnemonic() != w by {
                    if i.code() == code {
                        lemma_code_round_trip(i);
                    }
                }
            }
            code = code + 1;
        }
        proof {
            assert forall|i: Instruction| i.mnemonic() != w by {
                lemma_code_round_trip(i);
            }
        }
        None
    }

    /// The opcode named by a mnemonic, if any.
    pub fn from_mnemonic(text: &str) -> (r: Option<Instruction>)
        ensures
            r == Instruction::from_mnemonic_spec(text@),
    {
        let mut chars: Vec<char> = Vec::new();
        for ch in it: text.chars()
            invariant
                chars@ == it.seq().take(it.index() as int),
        {
            chars.push(ch);
        }
        assert(chars@ =~= text@);
        assert(chars@.subrange(0, chars@.len() as int) =~= text@);
        Instruction::lookup(&chars, 0, chars.len())
    }

    /// The mnemonic of the opcode, as characters.
    pub fn mnemonic_chars(self) -> (r: Vec<char>)
        ensures
            r@ == self.mnemonic(),
    {
        match self {
            Instruction::HALT => vec!['H', 'A', 'L', 'T'],
            Instruction::LDAC => vec!['L', 'D', 'A', 'C'],
            Instruction::STAC => vec!['S', 'T', 'A', 'C'],
            Instruction::MVAC => vec!['M', 'V', 'A', 'C'],
            Instruction::MOVR => vec!['M', 'O', 'V', 'R'],
            Instruction::JMP => vec!['J', 'M', 'P'],
            Instruction::JMPZ => vec!['J', 'M', 'P', 'Z'],
            Instruction::OUT => vec!['O', 'U', 'T'],
            Instruction::SUB => vec!['S', 'U', 'B'],
            Instruction::ADD => vec!['A', 'D', 'D'],
            Instruction::INC => vec!['I', 'N', 'C'],
            Instruction::CLAC => vec!['C', 'L', 'A', 'C'],
            Instruction::AND => vec!['A', 'N', 'D'],
            Instruction::OR => vec!['O', 'R'],
            Instruction::ASHR => vec!['A', 'S', 'H', 'R'],
            Instruction::NOT => vec!['N', 'O', 'T'],
        }
    }
}

/// Distinct opcodes have distinct mnemonics.
pub proof fn lemma_mnemonic_injective(a: Instruction, b: Instruction)
    ensures
        a.mnemonic() == b.mnemonic() ==> a == b,
{
    if a.mnemonic() == b.mnemonic() && a != b {
        assert(a.mnemonic().len() == b.mnemonic().len());
        assert(a.mnemonic()[0] == b.mnemonic()[0]);
        assert(a.mnemonic()[1] == b.mnemonic()[1]);
        if a.mnemonic().len() > 2 {
            assert(a.mnemonic()[2] == b.mnemonic()[2]);
        }
        if a.mnemonic().len() > 3 {
            assert(a.mnemonic()[3] == b.mnemonic()[3]);
        }
    }
}

/// Encoding then decoding an opcode gives it back.
pub proof fn lemma_code_round_trip(i: Instruction)
    ensures
        Instruction::from_code_spec(i.code()) == i,
        i.code() < 16,
{
}


/// A diagnostic as the contracts see it: the offending token and the 0-based
/// line it stands on.
pub ghost enum Diagnostic {
    UnknownKeyword(Seq<char>, nat),
    MissingOperand(Seq<char>, nat),
    InvalidInitializer(Seq<char>, nat),
    UndefinedVariable(Seq<char>, nat),
    Redefinition(Seq<char>, nat),
}

/// An assembly diagnostic: the offending token and the 0-based line index.
#[derive(Debug, PartialEq, Eq)]
pub enum Error {
    /// The first word of a line is neither a mnemonic nor a declaration.
    UnknownKeyword(String, usize),
    /// An opcode that takes an operand has none.
    MissingOperand(String, usize),
    /// A variable's initializer is not a 32-bit hexadecimal number.
    InvalidInitializer(String, usize),
    /// An operand names a symbol that is never declared.
    UndefinedVariable(String, usize),
    /// A symbol is declared a second time.
    Redefinition(String, usize),
}

impl View for Error {
    type V = Diagnostic;

    open spec fn view(&self) -> Diagnostic {
        match self {
            Error::UnknownKeyword(t, l) => Diagnostic::UnknownKeyword(t@, *l as nat),
            Error::MissingOperand(t, l) => Diagnostic::MissingOperand(t@, *l as nat),
            Error::InvalidInitializer(t, l) => Diagnostic::InvalidInitializer(t@, *l as nat),
            Error::UndefinedVariable(t, l) => Diagnostic::UndefinedVariable(t@, *l as nat),
            Error::Redefinition(t, l) => Diagnostic::Redefinition(t@, *l as nat),
        }
    }
}

impl Error {
    /// The offending token.
    pub fn token(&self) -> (r: &String)
        ensures
            r@ == match self@ {
                Diagnostic::UnknownKeyword(t, _) => t,
                Diagnostic::MissingOperand(t, _) => t,
                Diagnostic::InvalidInitializer(t, _) => t,
                Diagnostic::UndefinedVariable(t, _) => t,
                Diagnostic::Redefinition(t, _) => t,
            },
    {
        match self {
            Error::UnknownKeyword(t, _) => t,
            Error::MissingOperand(t, _) => t,
            Error::InvalidInitializer(t, _) => t,
            Error::UndefinedVariable(t, _) => t,
            Error::Redefinition(t, _) => t,
        }
    }

    /// The 0-based line on which the problem stands.
    pub fn line(&self) -> (r: usize)
        ensures
            r as nat == match self@ {
                Diagnostic::UnknownKeyword(_, l) => l,
                Diagnostic::MissingOperand(_, l) => l,
                Diagnostic::InvalidInitializer(_, l) => l,
                Diagnostic::UndefinedVariable(_, l) => l,
                Diagnostic::Redefinition(_, l) => l,
            },
    {
        match self {
            Error::UnknownKeyword(_, l) => *l,
            Error::MissingOperand(_, l) => *l,
            Error::InvalidInitializer(_, l) => *l,
            Error::UndefinedVariable(_, l) => *l,
            Error::Redefinition(_, l) => *l,
        }
    }
}

} // verus!
