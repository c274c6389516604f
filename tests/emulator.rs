use rustrsc::assembler::Assembler;
use rustrsc::emulator::Emulator;
use rustrsc::types::Register;

fn emulator_for(text: &str) -> Emulator {
    let program = Assembler::parse(text.to_string());
    assert!(program.errors.is_none(), "{:?}", program.errors);
    Emulator::new(&program.instructions)
}

#[test]
fn load_store_variable() {
    let mut emu = emulator_for("LDAC x\nSTAC y\nHALT\nx: 0000002A\ny: 00000000\n");
    emu.start();
    assert!(emu.halted());
    assert_eq!(emu.read_mem(6), 0x2A);
    assert_eq!(emu.read_reg(Register::ACC), 0x2A);
}

#[test]
fn fetch_sets_the_address_registers() {
    let mut emu = emulator_for("LDAC x\nHALT\nx: 7\n");
    emu.cycle();
    assert_eq!(emu.read_reg(Register::ACC), 7);
    assert_eq!(emu.read_reg(Register::PC), 2);
    assert_eq!(emu.read_reg(Register::AR), 3);
    assert_eq!(emu.read_reg(Register::DR), 7);
    assert_eq!(emu.read_reg(Register::IR), 1);
    assert_eq!(emu.read_reg(Register::Z), 1);
}

#[test]
fn arithmetic_wraps() {
    let mut emu = emulator_for("LDAC one\nMVAC\nCLAC\nSUB\nOUT\nINC\nADD\nHALT\none: 1\n");
    emu.start();
    assert_eq!(emu.read_reg(Register::OUTR), 0xFFFF_FFFF);
    assert_eq!(emu.read_reg(Register::ACC), 1);
    assert_eq!(emu.read_reg(Register::R), 1);
}

#[test]
fn bitwise_operations() {
    let mut emu = emulator_for("LDAC m\nMVAC\nLDAC v\nAND\nSTAC a\nLDAC v\nOR\nSTAC o\nLDAC v\nNOT\nSTAC n\nLDAC v\nASHR\nMOVR\nHALT\nm: 0000FF00\nv: 80000F0F\na: 0\no: 0\nn: 0\n");
    emu.start();
    assert_eq!(emu.read_mem(25), 0x0000_0F00);
    assert_eq!(emu.read_mem(26), 0x8000_FF0F);
    assert_eq!(emu.read_mem(27), 0x7FFF_F0F0);
    assert_eq!(emu.read_reg(Register::ACC), 0x0000_FF00);
}

#[test]
fn logical_shift_right() {
    let mut emu = emulator_for("LDAC v\nASHR\nHALT\nv: 80000001\n");
    emu.start();
    assert_eq!(emu.read_reg(Register::ACC), 0x4000_0000);
}

#[test]
fn decode_uses_the_low_nibble() {
    let mut emu = Emulator::new(&[0x10, 0x1B]);
    emu.cycle();
    assert!(emu.halted());
}

#[test]
fn unwritten_memory_reads_zero() {
    let mut emu = emulator_for("LDAC far\nSTAC far\nHALT\nfar: 0\n");
    assert_eq!(emu.read_mem(0xFFFF_FFFF), 0);
    emu.start();
    assert!(emu.halted());
    assert_eq!(emu.read_mem(1_000_000), 0);
}

#[test]
fn enabled_breakpoints_stop_start() {
    let mut emu = emulator_for("INC\nINC\nINC\nHALT\n");
    emu.set_breakpoint(2);
    assert!(emu.query(2));
    assert!(emu.disable(2));
    assert!(!emu.query(2));
    assert!(emu.enable(2));
    assert!(!emu.enable(7));
    emu.start();
    assert_eq!(emu.read_reg(Register::PC), 2);
    assert!(emu.should_stop());
    emu.step_over();
    emu.stepi(1);
    assert_eq!(emu.read_reg(Register::ACC), 3);
    assert!(emu.remove_breakpoint(2));
    emu.backi(4);
    assert_eq!(emu.time(), 0);
    assert_eq!(emu.read_reg(Register::ACC), 0);
}

#[test]
fn register_names() {
    let names: Vec<&str> = Register::iter().iter().map(|r| r.as_str()).collect();
    assert_eq!(names, vec!["S", "Z", "IR", "AR", "DR", "PC", "OUTR", "ACC", "R"]);
    assert_eq!(Register::OUTR.index(), 6);
}
