use um::fault::Fault;
use um::machine::Machine;
use um::semantics::{Action, Status};

const HALT: u32 = 0x7000_0000;

fn abc(code: u32, a: u32, b: u32, c: u32) -> u32 {
    (code << 28) | (a << 6) | (b << 3) | c
}

fn set(a: u32, value: u32) -> u32 {
    (13 << 28) | (a << 25) | value
}

fn registers(m: &Machine) -> [u32; 8] {
    let mut regs = [0u32; 8];
    for (i, r) in regs.iter_mut().enumerate() {
        *r = m.register(i);
    }
    regs
}

/// Runs `program` to the end with no input and returns the machine.
fn finished(program: Vec<u32>) -> Machine {
    let mut m = Machine::new(program);
    let outcome = m.run(&[], 10_000);
    assert_eq!(outcome.status, Status::Halted);
    m
}

#[test]
fn halt_only() {
    let mut m = Machine::new(vec![0x7000_0000]);
    let outcome = m.run(&[], 100);
    assert_eq!(outcome.status, Status::Halted);
    assert_eq!(outcome.output, Vec::<u8>::new());
    assert_eq!(outcome.consumed, 0);
    assert_eq!(m.finger(), 0);
    assert_eq!(registers(&m), [0; 8]);
}

#[test]
fn print_a() {
    let mut m = Machine::new(vec![0xD000_0041, 0xA000_0000, 0x7000_0000]);
    let outcome = m.run(&[], 100);
    assert_eq!(outcome.status, Status::Halted);
    assert_eq!(outcome.output, vec![0x41]);
    assert_eq!(m.register(0), 65);
    assert_eq!(m.finger(), 2);
}

#[test]
fn echo_one_byte() {
    let mut m = Machine::new(vec![0xB000_0001, 0xA000_0001, 0x7000_0000]);
    let outcome = m.run(b"Q", 100);
    assert_eq!(outcome.status, Status::Halted);
    assert_eq!(outcome.output, b"Q".to_vec());
    assert_eq!(outcome.consumed, 1);
}

#[test]
fn echo_at_the_end_of_input_faults() {
    let mut m = Machine::new(vec![0xB000_0001, 0xA000_0001, 0x7000_0000]);
    let outcome = m.run(b"", 100);
    assert_eq!(outcome.status, Status::Faulted(Fault::OutputOutOfRange));
    assert_eq!(outcome.output, Vec::<u8>::new());
    assert_eq!(outcome.consumed, 0);
    assert_eq!(m.register(1), 0xFFFF_FFFF);
    assert_eq!(m.finger(), 1);
}

#[test]
fn self_jump_loops_on_the_same_instruction() {
    let mut m = Machine::new(vec![0xC000_0000]);
    for _ in 0..5 {
        assert_eq!(m.step(), Action::Next);
        assert_eq!(m.finger(), 0);
    }
    let outcome = m.run(&[], 10_000);
    assert_eq!(outcome.status, Status::Running);
    assert_eq!(outcome.output, Vec::<u8>::new());
    assert_eq!(m.finger(), 0);
    assert_eq!(registers(&m), [0; 8]);
    assert_eq!(m.memory().read(0, 0), Ok(&0xC000_0000));
}

#[test]
fn division_by_zero_keeps_the_earlier_output() {
    let mut m = Machine::new(vec![set(0, 65), abc(10, 0, 0, 0), abc(5, 0, 1, 2), HALT]);
    let outcome = m.run(&[], 100);
    assert_eq!(outcome.status, Status::Faulted(Fault::DivisionByZero));
    assert_eq!(outcome.output, vec![0x41]);
    assert_eq!(m.finger(), 2);
    assert_eq!(m.register(0), 65);
}

#[test]
fn load_reads_big_endian_words() {
    let m = Machine::load(&[0x12, 0x34, 0x56, 0x78, 0x70, 0, 0, 0, 0, 0, 0, 1]).unwrap();
    assert_eq!(m.memory().len(), 1);
    assert_eq!(m.memory().read(0, 0), Ok(&0x1234_5678));
    assert_eq!(m.memory().read(0, 1), Ok(&0x7000_0000));
    assert_eq!(m.memory().read(0, 2), Ok(&1));
    assert_eq!(m.memory().read(0, 3), Err(Fault::OutOfBounds));
    assert_eq!(m.finger(), 0);
    assert_eq!(registers(&m), [0; 8]);
}

#[test]
fn load_refuses_a_partial_word() {
    assert_eq!(Machine::load(&[0x70]).err(), Some(Fault::MalformedProgram));
    assert_eq!(Machine::load(&[0x70, 0]).err(), Some(Fault::MalformedProgram));
    assert_eq!(Machine::load(&[0x70, 0, 0]).err(), Some(Fault::MalformedProgram));
    assert_eq!(Machine::load(&[0x70, 0, 0, 0, 0]).err(), Some(Fault::MalformedProgram));
    assert!(Machine::load(&[0x70, 0, 0, 0]).is_ok());
    assert!(Machine::load(&[]).is_ok());
}

#[test]
fn a_loaded_image_runs() {
    let image = [0xD0, 0, 0, 0x41, 0xA0, 0, 0, 0, 0x70, 0, 0, 0];
    let mut m = Machine::load(&image).unwrap();
    let outcome = m.run(&[], 100);
    assert_eq!(outcome.status, Status::Halted);
    assert_eq!(outcome.output, vec![0x41]);
}

#[test]
fn running_off_the_program_faults() {
    let mut m = Machine::new(vec![]);
    assert_eq!(m.step(), Action::Trap(Fault::OutOfBounds));
    assert_eq!(m.finger(), 0);

    let mut m = Machine::new(vec![set(3, 9)]);
    let outcome = m.run(&[], 100);
    assert_eq!(outcome.status, Status::Faulted(Fault::OutOfBounds));
    assert_eq!(m.finger(), 1);
    assert_eq!(m.register(3), 9);
}

#[test]
fn illegal_opcode_faults() {
    let mut m = Machine::new(vec![set(0, 1), 0xE000_0000, HALT]);
    let outcome = m.run(&[], 100);
    assert_eq!(outcome.status, Status::Faulted(Fault::IllegalOpcode));
    assert_eq!(m.finger(), 1);

    let mut m = Machine::new(vec![0xF123_4567]);
    assert_eq!(m.step(), Action::Trap(Fault::IllegalOpcode));
}

#[test]
fn load_immediate_sets_one_register() {
    let m = finished(vec![set(5, 0x01FF_FFFF), set(7, 3), HALT]);
    assert_eq!(registers(&m), [0, 0, 0, 0, 0, 0x01FF_FFFF, 0, 3]);
    assert_eq!(m.finger(), 2);
}

#[test]
fn conditional_move_moves_only_on_a_nonzero_condition() {
    let m = finished(vec![set(1, 11), set(2, 22), set(3, 1), abc(0, 1, 2, 3), abc(0, 2, 4, 5), HALT]);
    assert_eq!(registers(&m), [0, 22, 22, 1, 0, 0, 0, 0]);

    let m = finished(vec![set(1, 11), set(2, 22), abc(0, 1, 2, 3), HALT]);
    assert_eq!(registers(&m), [0, 11, 22, 0, 0, 0, 0, 0]);
    assert_eq!(m.finger(), 3);
}

#[test]
fn addition_wraps_at_two_to_the_thirty_two() {
    // r1 := all ones, r2 := 1, r3 := r1 + r2, r4 := r1 + r1, r5 := r2 + r2
    let m = finished(vec![
        abc(6, 1, 0, 0),
        set(2, 1),
        abc(3, 3, 1, 2),
        abc(3, 4, 1, 1),
        abc(3, 5, 2, 2),
        HALT,
    ]);
    assert_eq!(m.register(1), 0xFFFF_FFFF);
    assert_eq!(m.register(3), 0);
    assert_eq!(m.register(4), 0xFFFF_FFFE);
    assert_eq!(m.register(5), 2);
}

#[test]
fn multiplication_wraps_at_two_to_the_thirty_two() {
    // r1 := 0x10000, r2 := r1 * r1, r3 := all ones, r4 := r3 * r3, r5 := 3, r6 := r3 * r5
    let m = finished(vec![
        set(1, 0x1_0000),
        abc(4, 2, 1, 1),
        abc(6, 3, 0, 0),
        abc(4, 4, 3, 3),
        set(5, 3),
        abc(4, 6, 3, 5),
        set(7, 1000),
        abc(4, 7, 7, 7),
        HALT,
    ]);
    assert_eq!(m.register(2), 0);
    assert_eq!(m.register(4), 1);
    assert_eq!(m.register(6), 0xFFFF_FFFD);
    assert_eq!(m.register(7), 1_000_000);
}

#[test]
fn division_rounds_down() {
    let m = finished(vec![
        set(1, 7),
        set(2, 2),
        abc(5, 3, 1, 2),
        abc(5, 4, 2, 1),
        abc(6, 5, 0, 0),
        abc(5, 6, 5, 2),
        abc(5, 7, 1, 1),
        HALT,
    ]);
    assert_eq!(m.register(3), 3);
    assert_eq!(m.register(4), 0);
    assert_eq!(m.register(6), 0x7FFF_FFFF);
    assert_eq!(m.register(7), 1);
}

#[test]
fn division_by_zero_faults_and_changes_nothing() {
    let mut m = Machine::new(vec![set(1, 7), abc(5, 1, 1, 2), HALT]);
    assert_eq!(m.step(), Action::Next);
    assert_eq!(m.step(), Action::Trap(Fault::DivisionByZero));
    assert_eq!(m.register(1), 7);
    assert_eq!(m.finger(), 1);
}

#[test]
fn not_and_complements_the_and() {
    let m = finished(vec![
        set(1, 0b1100),
        set(2, 0b1010),
        abc(6, 3, 1, 2),
        abc(6, 4, 0, 1),
        abc(6, 5, 3, 3),
        HALT,
    ]);
    assert_eq!(m.register(3), 0xFFFF_FFF7);
    assert_eq!(m.register(4), 0xFFFF_FFFF);
    assert_eq!(m.register(5), 0b1000);
}

#[test]
fn arrays_are_allocated_amended_and_indexed() {
    // r2 := 4, r1 := alloc(r2), r3 := 2, r4 := 99, array r1 [r3] := r4,
    // r5 := array r1 [r3], r6 := array r1 [r0]
    let m = finished(vec![
        set(2, 4),
        abc(8, 0, 1, 2),
        set(3, 2),
        set(4, 99),
        abc(2, 1, 3, 4),
        abc(1, 5, 1, 3),
        abc(1, 6, 1, 0),
        HALT,
    ]);
    assert_eq!(m.register(1), 1);
    assert_eq!(m.register(5), 99);
    assert_eq!(m.register(6), 0);
    assert_eq!(m.memory().len(), 2);
    assert_eq!(m.memory().read(1, 2), Ok(&99));
    assert_eq!(m.memory().read(1, 3), Ok(&0));
    assert_eq!(m.memory().read(1, 4), Err(Fault::OutOfBounds));
}

#[test]
fn array_index_reads_the_program_too() {
    let m = finished(vec![set(1, 2), abc(1, 2, 0, 1), HALT]);
    assert_eq!(m.register(2), HALT);
}

#[test]
fn array_amend_can_rewrite_the_program() {
    // The word at offset 4 starts out illegal and is overwritten with a copy
    // of the halt instruction at offset 5 before the finger gets there.
    let mut m = Machine::new(vec![
        set(1, 4),
        set(2, 5),
        abc(1, 3, 0, 2),        // r3 := array 0 [r2]
        abc(2, 0, 1, 3),        // array 0 [r1] := r3
        0xE000_0000,
        HALT,
    ]);
    let outcome = m.run(&[], 100);
    assert_eq!(outcome.status, Status::Halted);
    assert_eq!(m.finger(), 4);
    assert_eq!(m.memory().read(0, 4), Ok(&HALT));
    assert_eq!(m.memory().read(0, 5), Ok(&HALT));
}

#[test]
fn an_illegal_word_that_is_copied_stays_illegal() {
    let mut m = Machine::new(vec![set(1, 3), abc(1, 2, 0, 1), abc(2, 0, 1, 2), 0xE000_0000]);
    assert_eq!(m.run(&[], 100).status, Status::Faulted(Fault::IllegalOpcode));
    assert_eq!(m.finger(), 3);
    assert_eq!(m.register(2), 0xE000_0000);
}

#[test]
fn access_faults_leave_the_machine_as_it_was() {
    // r1 := 1, r2 := array r1 [r0]: identifier 1 was never issued.
    let mut m = Machine::new(vec![set(1, 1), abc(1, 2, 1, 0), HALT]);
    assert_eq!(m.run(&[], 100).status, Status::Faulted(Fault::Unallocated));
    assert_eq!(m.finger(), 1);
    assert_eq!(registers(&m), [0, 1, 0, 0, 0, 0, 0, 0]);

    // r1 := 3, array r0 [r1] := r1: offset 3 is the length of the program.
    let mut m = Machine::new(vec![set(1, 3), abc(2, 0, 1, 1), HALT]);
    assert_eq!(m.run(&[], 100).status, Status::Faulted(Fault::OutOfBounds));
    assert_eq!(m.finger(), 1);

    // r2 := 1, r1 := alloc(r2), free(r1), r3 := array r1 [r0]
    let mut m = Machine::new(vec![set(2, 1), abc(8, 0, 1, 2), abc(9, 0, 0, 1), abc(1, 3, 1, 0), HALT]);
    assert_eq!(m.run(&[], 100).status, Status::Faulted(Fault::UseAfterFree));
    assert_eq!(m.finger(), 3);

    // r2 := 1, r1 := alloc(r2), free(r1), array r1 [r0] := r2
    let mut m = Machine::new(vec![set(2, 1), abc(8, 0, 1, 2), abc(9, 0, 0, 1), abc(2, 1, 0, 2), HALT]);
    assert_eq!(m.run(&[], 100).status, Status::Faulted(Fault::UseAfterFree));
}

#[test]
fn abandonment_retires_and_allocation_reissues() {
    // r7 := 8, r1 := alloc(r7), r2 := alloc(r7), free(r1), free(r2), r3 := alloc(r7), r4 := alloc(r7), r5 := alloc(r7)
    let m = finished(vec![
        set(7, 8),
        abc(8, 0, 1, 7),
        abc(8, 0, 2, 7),
        abc(9, 0, 0, 1),
        abc(9, 0, 0, 2),
        abc(8, 0, 3, 7),
        abc(8, 0, 4, 7),
        abc(8, 0, 5, 7),
        HALT,
    ]);
    assert_eq!(registers(&m), [0, 1, 2, 1, 2, 3, 0, 8]);
    assert_eq!(m.memory().len(), 4);
}

#[test]
fn abandonment_faults() {
    let mut m = Machine::new(vec![abc(9, 0, 0, 0), HALT]);
    assert_eq!(m.run(&[], 100).status, Status::Faulted(Fault::FreeOfProgram));
    assert_eq!(m.finger(), 0);

    let mut m = Machine::new(vec![set(1, 5), abc(9, 0, 0, 1), HALT]);
    assert_eq!(m.run(&[], 100).status, Status::Faulted(Fault::Unallocated));

    let mut m = Machine::new(vec![set(2, 1), abc(8, 0, 1, 2), abc(9, 0, 0, 1), abc(9, 0, 0, 1), HALT]);
    assert_eq!(m.run(&[], 100).status, Status::Faulted(Fault::DoubleFree));
    assert_eq!(m.finger(), 3);
}

#[test]
fn output_takes_bytes_only() {
    let mut m = Machine::new(vec![set(1, 255), abc(10, 0, 0, 1), abc(10, 0, 0, 0), set(2, 256), abc(10, 0, 0, 2), HALT]);
    let outcome = m.run(&[], 100);
    assert_eq!(outcome.status, Status::Faulted(Fault::OutputOutOfRange));
    assert_eq!(outcome.output, vec![255, 0]);
    assert_eq!(m.finger(), 4);
}

#[test]
fn output_emits_through_step() {
    let mut m = Machine::new(vec![set(1, 0x7A), abc(10, 0, 0, 1), HALT]);
    assert_eq!(m.step(), Action::Next);
    assert_eq!(m.step(), Action::Emit(0x7A));
    assert_eq!(m.finger(), 2);
    assert_eq!(m.step(), Action::Halt);
    assert_eq!(m.finger(), 2);
    assert_eq!(m.step(), Action::Halt);
}

#[test]
fn input_waits_until_the_byte_is_supplied() {
    let mut m = Machine::new(vec![abc(11, 0, 0, 6), HALT]);
    assert_eq!(m.step(), Action::Await(6));
    assert_eq!(m.finger(), 0);
    assert_eq!(registers(&m), [0; 8]);
    assert_eq!(m.step(), Action::Await(6));
    m.supply(6, Some(0x51));
    assert_eq!(m.finger(), 1);
    assert_eq!(registers(&m), [0, 0, 0, 0, 0, 0, 0x51, 0]);
    assert_eq!(m.step(), Action::Halt);
}

#[test]
fn the_end_of_input_reads_as_all_ones() {
    let mut m = Machine::new(vec![abc(11, 0, 0, 2), HALT]);
    assert_eq!(m.step(), Action::Await(2));
    m.supply(2, None);
    assert_eq!(m.register(2), 0xFFFF_FFFF);
    assert_eq!(m.finger(), 1);

    let mut m = Machine::new(vec![abc(11, 0, 0, 2), abc(11, 0, 0, 3), abc(11, 0, 0, 4), HALT]);
    let outcome = m.run(&[0, 0xFF], 100);
    assert_eq!(outcome.status, Status::Halted);
    assert_eq!(outcome.consumed, 2);
    assert_eq!(registers(&m), [0, 0, 0, 0xFF, 0xFFFF_FFFF, 0, 0, 0]);
}

#[test]
fn input_is_consumed_in_order() {
    // Reads three bytes and writes them back last first.
    let mut m = Machine::new(vec![
        abc(11, 0, 0, 1),
        abc(11, 0, 0, 2),
        abc(11, 0, 0, 3),
        abc(10, 0, 0, 3),
        abc(10, 0, 0, 2),
        abc(10, 0, 0, 1),
        HALT,
    ]);
    let outcome = m.run(b"abcdef", 100);
    assert_eq!(outcome.status, Status::Halted);
    assert_eq!(outcome.output, b"cba".to_vec());
    assert_eq!(outcome.consumed, 3);
}

/// A program that builds the one-word program `halt` in a new array, writes
/// `X`, and loads that array.
fn loader() -> Vec<u32> {
    vec![
        set(2, 1),
        abc(8, 0, 1, 2),        // r1 := alloc(1)
        set(3, 7),
        set(4, 0x100_0000),
        abc(4, 3, 3, 4),        // r3 := 7 * 2^24
        set(4, 16),
        abc(4, 3, 3, 4),        // r3 := 7 * 2^28, the halt instruction
        abc(2, 1, 0, 3),        // array r1 [0] := r3
        set(5, 0x58),
        abc(10, 0, 0, 5),       // write 'X'
        abc(12, 0, 1, 0),       // load array r1, finger := r0
        abc(10, 0, 0, 5),       // never reached
    ]
}

#[test]
fn load_program_replaces_the_image_and_jumps() {
    let mut m = Machine::new(loader());
    let outcome = m.run(&[], 100);
    assert_eq!(outcome.status, Status::Halted);
    assert_eq!(outcome.output, vec![0x58]);
    assert_eq!(m.finger(), 0);
    assert_eq!(m.register(3), HALT);
    assert_eq!(m.memory().read(0, 0), Ok(&HALT));
    assert_eq!(m.memory().read(0, 1), Err(Fault::OutOfBounds));
    assert_eq!(m.memory().read(1, 0), Ok(&HALT));
    assert_eq!(m.memory().len(), 2);
}

#[test]
fn load_program_of_array_zero_is_a_jump() {
    // r1 := 3, load array r0 with finger := r1; the words in between are skipped.
    let program = vec![set(1, 3), abc(12, 0, 0, 1), 0xE000_0000, set(2, 5), HALT];
    let mut m = Machine::new(program.clone());
    let outcome = m.run(&[], 100);
    assert_eq!(outcome.status, Status::Halted);
    assert_eq!(m.finger(), 4);
    assert_eq!(registers(&m), [0, 3, 5, 0, 0, 0, 0, 0]);
    for (k, w) in program.iter().enumerate() {
        assert_eq!(m.memory().read(0, k as u32), Ok(w));
    }
    assert_eq!(m.memory().read(0, 5), Err(Fault::OutOfBounds));
}

#[test]
fn load_program_does_not_advance_the_finger() {
    let mut m = Machine::new(vec![set(1, 2), abc(12, 0, 0, 1), HALT]);
    assert_eq!(m.step(), Action::Next);
    assert_eq!(m.finger(), 1);
    assert_eq!(m.step(), Action::Next);
    assert_eq!(m.finger(), 2);
    assert_eq!(m.step(), Action::Halt);
}

#[test]
fn load_program_faults() {
    let mut m = Machine::new(vec![set(1, 9), abc(12, 0, 1, 0), HALT]);
    assert_eq!(m.run(&[], 100).status, Status::Faulted(Fault::Unallocated));
    assert_eq!(m.finger(), 1);

    let mut m = Machine::new(vec![set(2, 1), abc(8, 0, 1, 2), abc(9, 0, 0, 1), abc(12, 0, 1, 0), HALT]);
    assert_eq!(m.run(&[], 100).status, Status::Faulted(Fault::UseAfterFree));
    assert_eq!(m.finger(), 3);
}

#[test]
fn load_program_copies_the_whole_array() {
    // Array 1 holds three zero words, each of which decodes to a conditional
    // move that does nothing. Once loaded, the machine runs through them and
    // off the end.
    let mut m = Machine::new(vec![
        set(2, 3),
        abc(8, 0, 1, 2),        // r1 := alloc(3)
        abc(12, 0, 1, 0),       // load array r1, finger := 0
        HALT,
    ]);
    assert_eq!(m.run(&[], 3).status, Status::Running);
    assert_eq!(m.finger(), 0);
    for k in 0..3 {
        assert_eq!(m.memory().read(0, k), Ok(&0));
    }
    assert_eq!(m.memory().read(0, 3), Err(Fault::OutOfBounds));
    let outcome = m.run(&[], 100);
    assert_eq!(outcome.status, Status::Faulted(Fault::OutOfBounds));
    assert_eq!(m.finger(), 3);
    assert_eq!(registers(&m), [0, 1, 3, 0, 0, 0, 0, 0]);
}

#[test]
fn a_run_is_determined_by_program_and_input() {
    let program = vec![
        abc(11, 0, 0, 1),
        abc(11, 0, 0, 2),
        abc(3, 3, 1, 2),
        abc(10, 0, 0, 3),
        abc(10, 0, 0, 1),
        HALT,
    ];
    let mut first = Machine::new(program.clone());
    let mut second = Machine::new(program.clone());
    let a = first.run(&[3, 4, 5], 1000);
    let b = second.run(&[3, 4, 5], 1000);
    assert_eq!(a.status, Status::Halted);
    assert_eq!(a.output, vec![7, 3]);
    assert_eq!(a.consumed, 2);
    assert_eq!(b.status, a.status);
    assert_eq!(b.output, a.output);
    assert_eq!(b.consumed, a.consumed);
    assert_eq!(registers(&first), registers(&second));
    assert_eq!(first.finger(), second.finger());
}

#[test]
fn a_larger_budget_does_not_change_a_finished_run() {
    let program = vec![set(0, 65), abc(10, 0, 0, 0), abc(10, 0, 0, 0), HALT];
    let mut exact = Machine::new(program.clone());
    let mut ample = Machine::new(program.clone());
    let a = exact.run(&[], 4);
    let b = ample.run(&[], u64::MAX);
    assert_eq!(a.status, Status::Halted);
    assert_eq!(a.output, vec![65, 65]);
    assert_eq!(b.status, Status::Halted);
    assert_eq!(b.output, vec![65, 65]);
    assert_eq!(exact.finger(), ample.finger());
}

#[test]
fn a_run_stops_when_the_budget_is_spent() {
    let program = vec![set(0, 65), abc(10, 0, 0, 0), abc(10, 0, 0, 0), HALT];
    let mut m = Machine::new(program.clone());
    let outcome = m.run(&[], 0);
    assert_eq!(outcome.status, Status::Running);
    assert_eq!(outcome.output, Vec::<u8>::new());
    assert_eq!(m.finger(), 0);

    let outcome = m.run(&[], 2);
    assert_eq!(outcome.status, Status::Running);
    assert_eq!(outcome.output, vec![65]);
    assert_eq!(m.finger(), 2);

    let outcome = m.run(&[], 1);
    assert_eq!(outcome.status, Status::Running);
    assert_eq!(outcome.output, vec![65]);
    assert_eq!(m.finger(), 3);

    let outcome = m.run(&[], 1);
    assert_eq!(outcome.status, Status::Halted);
    assert_eq!(outcome.output, Vec::<u8>::new());
    assert_eq!(m.finger(), 3);
}

#[test]
fn a_counting_loop_terminates() {
    // r1 counts down from 5 and each round writes '*'. The jump back is a
    // program load of array 0.
    let program = vec![
        set(1, 5),              // 0
        set(2, 0x2A),           // 1
        abc(6, 3, 0, 0),        // 2: r3 := all ones, which is minus one
        set(5, 4),              // 3: r5 := address of the loop body
        set(4, 10),             // 4: r4 := address of the exit
        abc(10, 0, 0, 2),       // 5: write '*'
        abc(3, 1, 1, 3),        // 6: r1 := r1 - 1
        abc(0, 4, 5, 1),        // 7: if r1 != 0 then r4 := r5
        abc(12, 0, 0, 4),       // 8: finger := r4
        0xE000_0000,            // 9: never reached
        HALT,                   // 10
    ];
    let mut m = Machine::new(program);
    let outcome = m.run(&[], 1000);
    assert_eq!(outcome.status, Status::Halted);
    assert_eq!(outcome.output, b"*****".to_vec());
    assert_eq!(m.register(1), 0);
    assert_eq!(m.finger(), 10);
}
