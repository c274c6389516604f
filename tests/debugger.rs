use rustrsc::assembler::Assembler;
use rustrsc::debugger::{Debugger, ExecutionState, Message, DEFAULT_IPS};
use rustrsc::types::Register;

fn debugger_for(text: &str) -> (Assembler, Debugger) {
    let program = Assembler::parse(text.to_string());
    assert!(program.errors.is_none(), "{:?}", program.errors);
    let dbg = Debugger::new(&program.instructions);
    (program, dbg)
}

fn registers(dbg: &Debugger) -> Vec<u32> {
    Register::iter().iter().map(|r| dbg.read_reg(*r)).collect()
}

#[test]
fn halt_immediately() {
    let (program, mut dbg) = debugger_for("HALT");
    assert_eq!(program.instructions, vec![0]);
    dbg.stepi(1);
    assert_eq!(dbg.read_reg(Register::S), 1);
    assert_eq!(dbg.read_reg(Register::PC), 1);
    assert!(dbg.halted());
}

#[test]
fn increment_loop() {
    let (_, mut dbg) = debugger_for("start: INC\n       JMP start");
    dbg.stepi(6);
    assert_eq!(dbg.read_reg(Register::ACC), 3);
    assert_eq!(dbg.read_reg(Register::PC), 0);
}

#[test]
fn conditional_jump_on_zero() {
    let (_, mut dbg) = debugger_for("CLAC\nJMPZ end\nINC\nend: HALT\n");
    dbg.stepi(100);
    assert!(dbg.halted());
    assert_eq!(dbg.read_reg(Register::ACC), 0);
    assert_eq!(dbg.emulator().time(), 3);
}

#[test]
fn backward_step_past_the_start_is_a_noop() {
    let (_, mut dbg) = debugger_for("HALT");
    let initial = registers(&dbg);
    dbg.backi(5);
    assert_eq!(registers(&dbg), initial);
    assert!(initial.iter().all(|v| *v == 0));
    assert_eq!(dbg.emulator().time(), 0);
    assert_eq!(dbg.execution_state(), ExecutionState::Start);
}

#[test]
fn reversibility_restores_registers_and_memory() {
    let (program, mut dbg) = debugger_for("LDAC x\nSTAC y\nINC\nSTAC x\nHALT\nx: 0000002A\ny: 00000000\n");
    let initial = registers(&dbg);
    dbg.stepi(5);
    assert!(dbg.halted());
    assert_eq!(dbg.read_mem(8), 0x2B);
    assert_eq!(dbg.read_mem(9), 0x2A);
    dbg.backi(5);
    assert_eq!(registers(&dbg), initial);
    for (a, w) in program.instructions.iter().enumerate() {
        assert_eq!(dbg.read_mem(a as u32), *w);
    }
}

#[test]
fn one_step_back_restores_the_previous_cycle() {
    let (_, mut dbg) = debugger_for("start: INC\n       JMP start");
    dbg.stepi(3);
    let before = registers(&dbg);
    dbg.stepi(1);
    assert_ne!(registers(&dbg), before);
    dbg.backi(1);
    assert_eq!(registers(&dbg), before);
}

#[test]
fn stepi_stops_at_a_breakpoint() {
    let (_, mut dbg) = debugger_for("INC\nINC\nINC\nINC\nHALT\n");
    dbg.set_breakpoint(2);
    assert!(dbg.query(2));
    dbg.stepi(10);
    assert_eq!(dbg.read_reg(Register::PC), 2);
    assert_eq!(dbg.read_reg(Register::ACC), 2);
    assert_eq!(dbg.emulator().time(), 2);
    dbg.step_over();
    assert_eq!(dbg.read_reg(Register::PC), 3);
    assert!(dbg.remove_breakpoint(2));
    assert!(!dbg.remove_breakpoint(2));
    dbg.stepi(10);
    assert!(dbg.halted());
    assert_eq!(dbg.read_reg(Register::ACC), 4);
}

#[test]
fn step_over_does_nothing_once_halted() {
    let (_, mut dbg) = debugger_for("HALT");
    dbg.stepi(1);
    let t = dbg.emulator().time();
    dbg.step_over();
    assert_eq!(dbg.emulator().time(), t);
}

#[test]
fn restart_returns_to_the_initial_state() {
    let (_, mut dbg) = debugger_for("start: INC\n       JMP start");
    dbg.stepi(7);
    dbg.restart();
    assert_eq!(dbg.emulator().time(), 0);
    assert!(registers(&dbg).iter().all(|v| *v == 0));
    assert_eq!(dbg.read_mem(0), 10);
}

#[test]
fn paced_run_state_machine() {
    let (_, mut dbg) = debugger_for("INC\nINC\nINC\nHALT\n");
    assert_eq!(dbg.instructions_per_second(), DEFAULT_IPS);
    assert!(!dbg.handle(Message::StepBackward));
    assert!(!dbg.handle(Message::Pause));
    assert!(dbg.handle(Message::Run));
    assert_eq!(dbg.execution_state(), ExecutionState::Running);
    // 5 instructions per second: 0.3 s covers one cycle, with 0.1 s left over.
    assert!(dbg.handle(Message::Tick(300_000_000)));
    assert_eq!(dbg.read_reg(Register::ACC), 1);
    assert!(dbg.handle(Message::Tick(100_000_000)));
    assert_eq!(dbg.read_reg(Register::ACC), 2);
    assert!(dbg.handle(Message::Pause));
    assert_eq!(dbg.execution_state(), ExecutionState::Paused);
    assert!(!dbg.handle(Message::Tick(1_000_000_000)));
    assert!(dbg.handle(Message::Resume));
    assert!(dbg.handle(Message::Tick(10_000_000_000)));
    assert_eq!(dbg.execution_state(), ExecutionState::Halted);
    assert!(dbg.halted());
    assert!(!dbg.handle(Message::StepForward));
    assert!(dbg.handle(Message::StepBackward));
    assert_eq!(dbg.execution_state(), ExecutionState::Stepping);
    assert!(!dbg.halted());
    assert!(dbg.handle(Message::Restart));
    assert_eq!(dbg.execution_state(), ExecutionState::Start);
    assert_eq!(dbg.read_reg(Register::ACC), 0);
}

#[test]
fn stepping_messages_settle_the_state() {
    let (_, mut dbg) = debugger_for("INC\nINC\nHALT\n");
    assert!(dbg.handle(Message::SetBreakpoint(1)));
    assert!(dbg.handle(Message::StepForward));
    assert_eq!(dbg.execution_state(), ExecutionState::BreakpointHit);
    assert!(!dbg.handle(Message::Run));
    assert!(dbg.handle(Message::StepOver));
    assert_eq!(dbg.execution_state(), ExecutionState::Stepping);
    assert!(dbg.handle(Message::StepForward));
    assert_eq!(dbg.execution_state(), ExecutionState::Halted);
    assert!(dbg.handle(Message::RemoveBreakpoint(1)));
    assert!(!dbg.query(1));
    assert!(dbg.handle(Message::StepBackward));
    assert!(dbg.handle(Message::StepBackward));
    assert!(dbg.handle(Message::StepBackward));
    assert_eq!(dbg.execution_state(), ExecutionState::Start);
}

#[test]
fn run_stops_at_breakpoint_and_drops_pending_time() {
    let (_, mut dbg) = debugger_for("INC\nINC\nINC\nHALT\n");
    dbg.set_breakpoint(2);
    assert!(dbg.set_instructions_per_second(10));
    assert!(!dbg.set_instructions_per_second(0));
    assert_eq!(dbg.instructions_per_second(), 10);
    dbg.handle(Message::Run);
    dbg.handle(Message::Tick(1_000_000_000));
    assert_eq!(dbg.execution_state(), ExecutionState::BreakpointHit);
    assert_eq!(dbg.read_reg(Register::PC), 2);
}
