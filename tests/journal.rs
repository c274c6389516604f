use rustrsc::memory::{Memory, Registers};
use rustrsc::timeless::TimelessEngine;
use rustrsc::types::Register;

#[test]
fn engine_drains_the_previous_step() {
    let mut e: TimelessEngine<u32> = TimelessEngine::new();
    assert!(e.step_backward().is_none());
    e.add_change(1);
    e.add_change(2);
    e.step_forward();
    e.step_forward();
    assert_eq!(e.time(), 2);
    assert_eq!(e.step_backward(), Some(vec![]));
    assert_eq!(e.step_backward(), Some(vec![1, 2]));
    assert_eq!(e.time(), 0);
    assert!(e.step_backward().is_none());
    e.step_forward();
    assert_eq!(e.step_backward(), Some(vec![]));
}

#[test]
fn registers_undo_in_reverse_order() {
    let mut regs = Registers::new();
    regs.set(Register::ACC, 5);
    regs.set(Register::ACC, 9);
    regs.transfer(Register::ACC, Register::R);
    regs.step_forward();
    assert_eq!(regs.get(Register::R), 9);
    assert!(regs.step_backward());
    assert_eq!(regs.get(Register::ACC), 0);
    assert_eq!(regs.get(Register::R), 0);
    assert!(!regs.step_backward());
}

#[test]
fn memory_journals_prior_values() {
    let mut mem = Memory::new(&[7, 8]);
    mem.set(1, 20);
    mem.set(1, 30);
    mem.set(500, 1);
    mem.step_forward();
    assert_eq!(mem.get(1), 30);
    assert_eq!(mem.get(500), 1);
    assert!(mem.step_backward());
    assert_eq!(mem.get(0), 7);
    assert_eq!(mem.get(1), 8);
    assert_eq!(mem.get(500), 0);
    assert!(!mem.step_backward());
}
