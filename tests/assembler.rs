use rustrsc::assembler::Assembler;
use rustrsc::types::{Error, Instruction};

fn parse(text: &str) -> Assembler {
    Assembler::parse(text.to_string())
}

fn address_of(program: &Assembler, name: &str) -> Option<u32> {
    program.symbol_map
        .iter()
        .find(|s| s.name == name)
        .map(|s| s.address)
}

const SAMPLE_PROGRAM: &str = "; Finds the larger of two numbers and outputs it\n\
    start:  LDAC a\n\
            MVAC\n\
            LDAC b\n\
            SUB          ; ACC <- b - a\n\
            ASHR\n\
            JMPZ take_a\n\
            LDAC b\n\
            JMP done\n\
    take_a: LDAC a\n\
    done:   OUT\n\
            CLAC\n\
            INC\n\
            ADD\n\
            AND\n\
            OR\n\
            NOT\n\
            MOVR\n\
            STAC result\n\
            HALT\n\
    a:      00000007\n\
    b:      0000000c\n\
    result: 0\n";

#[test]
fn test_file() {
    let program = parse(SAMPLE_PROGRAM);
    assert!(program.errors.is_none(), "{:?}", program.errors);
    assert!(!program.instructions.is_empty());
    assert_eq!(program.symbol_map.len(), 6);
    println!("{:?}, {:?}", program.instructions, program.line_map);
}

#[test]
fn halt_immediately_assembles() {
    let program = parse("HALT");
    assert_eq!(program.instructions, vec![0]);
    assert!(program.errors.is_none());
    assert_eq!(program.line_map.len(), 1);
    assert_eq!((program.line_map[0].line, program.line_map[0].start, program.line_map[0].end), (0, 0, 0));
}

#[test]
fn increment_loop_assembles() {
    let program = parse("start: INC\n       JMP start");
    assert_eq!(program.instructions, vec![10, 5, 0]);
    assert!(program.errors.is_none());
    assert_eq!(address_of(&program, "start"), Some(0));
    assert_eq!(program.symbol_references.len(), 1);
    assert_eq!(program.symbol_references[0].index, 2);
    assert_eq!(program.symbol_references[0].name, "start");
}

#[test]
fn load_store_variables_assemble() {
    let program = parse("LDAC x\nSTAC y\nHALT\nx: 0000002A\ny: 00000000\n");
    assert!(program.errors.is_none());
    assert_eq!(program.instructions, vec![1, 5, 2, 6, 0, 0x2A, 0]);
    assert_eq!(address_of(&program, "x"), Some(5));
    assert_eq!(address_of(&program, "y"), Some(6));
}

#[test]
fn error_aggregation() {
    let program = parse("FOO\nLDAC\nbar: ZZ\nLDAC qux\n");
    let errors = program.errors.expect("errors expected");
    assert!(errors.contains(&Error::UnknownKeyword("FOO".to_string(), 0)));
    assert!(errors.contains(&Error::MissingOperand("LDAC".to_string(), 1)));
    assert!(errors.contains(&Error::InvalidInitializer("bar".to_string(), 2)));
    assert!(errors.contains(&Error::UndefinedVariable("qux".to_string(), 3)));
    assert_eq!(errors.len(), 4);
    // Parsing went on after each error: both LDAC lines emitted words.
    assert_eq!(program.instructions, vec![1, 1, 0]);
}

#[test]
fn label_before_an_instruction() {
    let program = parse("top: LDAC x ; load\nx: 5\n");
    assert!(program.errors.is_none());
    assert_eq!(program.instructions, vec![1, 2, 5]);
    assert_eq!(address_of(&program, "top"), Some(0));
    assert_eq!(address_of(&program, "x"), Some(2));
    assert_eq!((program.line_map[0].start, program.line_map[0].end), (0, 1));
}

#[test]
fn redefinition_is_reported() {
    let program = parse("a: 1\na:\nHALT\n");
    assert_eq!(program.errors, Some(vec![Error::Redefinition("a".to_string(), 1)]));
    assert_eq!(address_of(&program, "a"), Some(0));
    assert_eq!(program.instructions, vec![1, 0]);
}

#[test]
fn error_accessors() {
    let e = Error::UndefinedVariable("qux".to_string(), 3);
    assert_eq!(e.token(), "qux");
    assert_eq!(e.line(), 3);
}

#[test]
fn comments_and_blank_lines_emit_nothing() {
    let program = parse("; a comment\n\n   \n;another\nHALT ; stop here\n");
    assert!(program.errors.is_none());
    assert_eq!(program.instructions, vec![0]);
    assert_eq!(program.line_map[0].line, 4);
}

#[test]
fn label_followed_by_comment_is_a_label() {
    let program = parse("here: ; a label\nJMP here\n");
    assert!(program.errors.is_none());
    assert_eq!(address_of(&program, "here"), Some(0));
    assert_eq!(program.instructions, vec![5, 0]);
}

#[test]
fn variable_with_trailing_comment() {
    let program = parse("v: ff ; initial value\n");
    assert!(program.errors.is_none());
    assert_eq!(program.instructions, vec![0xff]);
}

#[test]
fn forward_reference_is_patched() {
    let program = parse("JMP end\nINC\nend: HALT\n");
    assert!(program.errors.is_none());
    assert_eq!(program.instructions, vec![5, 3, 10, 0]);
    assert_eq!(address_of(&program, "end"), Some(3));
}

#[test]
fn hex_initializers() {
    let program = parse("a: +1F\nb: FFFFFFFF\nc: 0x10\nd: 100000000\ne: -1\n");
    let errors = program.errors.expect("errors expected");
    assert_eq!(program.instructions, vec![0x1F, 0xFFFF_FFFF]);
    assert_eq!(
        errors,
        vec![
            Error::InvalidInitializer("c".to_string(), 2),
            Error::InvalidInitializer("d".to_string(), 3),
            Error::InvalidInitializer("e".to_string(), 4),
        ]
    );
}

#[test]
fn operand_missing_keeps_opcode_and_line() {
    let program = parse("JMPZ ; nothing\n");
    assert_eq!(program.errors, Some(vec![Error::MissingOperand("JMPZ".to_string(), 0)]));
    assert_eq!(program.instructions, vec![6]);
    assert_eq!((program.line_map[0].start, program.line_map[0].end), (0, 0));
}

#[test]
fn symbol_references_hold_symbol_addresses() {
    let program = parse(SAMPLE_PROGRAM);
    assert!(!program.symbol_references.is_empty());
    for r in &program.symbol_references {
        assert_eq!(Some(program.instructions[r.index]), address_of(&program, &r.name));
    }
}

#[test]
fn line_map_ranges_lie_within_the_image() {
    let program = parse(SAMPLE_PROGRAM);
    for r in &program.line_map {
        assert!(r.start <= r.end && r.end < program.instructions.len());
    }
    let mnemonics = program.line_map.iter().filter(|r| r.end == r.start + 1).count();
    assert_eq!(mnemonics, 7);
}

#[test]
fn mnemonics_and_operands() {
    assert!(Instruction::LDAC.has_operand());
    assert!(Instruction::JMPZ.has_operand());
    assert!(!Instruction::HALT.has_operand());
    assert_eq!(Instruction::decode(0x1F), Instruction::NOT);
    assert_eq!(Instruction::decode(0x25), Instruction::JMP);
    assert_eq!(Instruction::from_code(9), Instruction::ADD);
    assert_eq!(Instruction::ASHR.code_of(), 14);
    assert_eq!(Instruction::JMPZ.mnemonic_chars(), vec!['J', 'M', 'P', 'Z']);
    assert_eq!(Instruction::OUT.as_str(), "OUT");
    assert_eq!(Instruction::from_mnemonic("CLAC"), Some(Instruction::CLAC));
    assert_eq!(Instruction::from_mnemonic("clac"), None);
    assert_eq!(Instruction::from_mnemonic("JMPZ "), None);
}
