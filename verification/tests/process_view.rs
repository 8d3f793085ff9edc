use mirrorscope::process_view::{Registers, ThreadId};

#[test]
fn thread_id_equality_and_ordering() {
    assert_eq!(ThreadId::new(1), ThreadId(1));
    assert!(ThreadId::new(1) < ThreadId::new(2));
}

#[test]
fn registers_are_copyable_value_type() {
    let regs = Registers { pc: 1, sp: 2 };
    let copy = regs;
    assert_eq!(regs.pc, copy.pc);
}
