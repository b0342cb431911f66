//! The meaning of the machine: its abstract state, the effect of each
//! instruction, runs against an input stream, and the laws that follow.

use vstd::prelude::*;

use crate::fault::Fault;
use crate::op::{decode, Op, Reg};
use crate::store::{
    alloc_spec, free_spec, lemma_next_id_minimal, load_spec, read_spec, store_inv, write_spec,
    Store,
};

verus! {

/// The abstract machine: eight registers, the execution finger and the store.
pub struct State {
    pub regs: Seq<u32>,
    pub finger: u32,
    pub store: Store,
}

/// What one instruction asks of the world around the machine.
#[derive(Clone, Copy, Debug, PartialEq, Eq, Structural)]
pub enum Action {
    /// The instruction is done and the next one can be fetched.
    Next,
    /// The machine halted.
    Halt,
    /// The instruction is done; this byte goes to the output stream.
    Emit(u8),
    /// The instruction reads the input stream into this register. The state
    /// is unchanged until the byte is handed over.
    Await(Reg),
    /// The instruction is refused and the state is unchanged.
    Trap(Fault),
}

/// Where a run stands: still going, halted, or stopped by a fault.
#[derive(Clone, Copy, Debug, PartialEq, Eq, Structural)]
pub enum Status {
    Running,
    Halted,
    Faulted(Fault),
}

/// Sum of two words modulo 2^32.
pub open spec fn word_add(x: u32, y: u32) -> u32 {
    ((x + y) % 0x1_0000_0000) as u32
}

/// Product of two words modulo 2^32.
pub open spec fn word_mul(x: u32, y: u32) -> u32 {
    ((x * y) % 0x1_0000_0000) as u32
}

/// Bitwise complement of the bitwise and of two words.
pub open spec fn word_nand(x: u32, y: u32) -> u32 {
    !(x & y)
}

/// What holds of every state: eight registers over a valid store.
pub open spec fn state_inv(s: State) -> bool {
    s.regs.len() == 8 && store_inv(s.store)
}

/// The state a machine starts in: all registers and the finger zero, and
/// `program` as array 0 of a store with no other array.
pub open spec fn initial_state(program: Seq<u32>) -> State {
    State { regs: Seq::new(8, |i: int| 0u32), finger: 0, store: seq![Some(program)] }
}

/// `s` with register `r` set to `value` and the finger moved to the next
/// word, wrapping around at 2^32.
pub open spec fn retire(s: State, r: Reg, value: u32) -> State {
    State { regs: s.regs.update(r as int, value), finger: word_add(s.finger, 1), store: s.store }
}

/// `s` with the finger moved to the next word, wrapping around at 2^32.
pub open spec fn skip(s: State) -> State {
    State { finger: word_add(s.finger, 1), ..s }
}

/// The effect of one decoded instruction.
pub open spec fn execute(s: State, op: Op) -> (State, Action) {
    match op {
        Op::CondMov(a, b, c) => if s.regs[c as int] != 0 {
            (retire(s, a, s.regs[b as int]), Action::Next)
        } else {
            (skip(s), Action::Next)
        },
        Op::MemRead(a, b, c) => match read_spec(s.store, s.regs[b as int], s.regs[c as int]) {
            Ok(word) => (retire(s, a, word), Action::Next),
            Err(fault) => (s, Action::Trap(fault)),
        },
        Op::MemWrite(a, b, c) => {
            let (store, r) = write_spec(
                s.store,
                s.regs[a as int],
                s.regs[b as int],
                s.regs[c as int],
            );
            match r {
                Ok(_) => (skip(State { store, ..s }), Action::Next),
                Err(fault) => (s, Action::Trap(fault)),
            }
        },
        Op::Add(a, b, c) => (
            retire(s, a, word_add(s.regs[b as int], s.regs[c as int])),
            Action::Next,
        ),
        Op::Mul(a, b, c) => (
            retire(s, a, word_mul(s.regs[b as int], s.regs[c as int])),
            Action::Next,
        ),
        Op::Div(a, b, c) => if s.regs[c as int] == 0 {
            (s, Action::Trap(Fault::DivisionByZero))
        } else {
            (retire(s, a, s.regs[b as int] / s.regs[c as int]), Action::Next)
        },
        Op::Nand(a, b, c) => (
            retire(s, a, word_nand(s.regs[b as int], s.regs[c as int])),
            Action::Next,
        ),
        Op::Halt => (s, Action::Halt),
        Op::Alloc(b, c) => {
            let (store, r) = alloc_spec(s.store, s.regs[c as int]);
            match r {
                Ok(id) => (retire(State { store, ..s }, b, id), Action::Next),
                Err(fault) => (s, Action::Trap(fault)),
            }
        },
        Op::Free(c) => {
            let (store, r) = free_spec(s.store, s.regs[c as int]);
            match r {
                Ok(_) => (skip(State { store, ..s }), Action::Next),
                Err(fault) => (s, Action::Trap(fault)),
            }
        },
        Op::Output(c) => if s.regs[c as int] > 255 {
            (s, Action::Trap(Fault::OutputOutOfRange))
        } else {
            (skip(s), Action::Emit(s.regs[c as int] as u8))
        },
        Op::Input(c) => (s, Action::Await(c)),
        Op::LoadProgram(b, c) => {
            let (store, r) = load_spec(s.store, s.regs[b as int]);
            match r {
                Ok(_) => (State { store, finger: s.regs[c as int], ..s }, Action::Next),
                Err(fault) => (s, Action::Trap(fault)),
            }
        },
        Op::Mov(a, value) => (retire(s, a, value), Action::Next),
    }
}

/// One cycle: fetch the word under the finger, decode it, execute it.
pub open spec fn step_spec(s: State) -> (State, Action) {
    match read_spec(s.store, 0, s.finger) {
        Err(fault) => (s, Action::Trap(fault)),
        Ok(word) => match decode(word) {
            Err(fault) => (s, Action::Trap(fault)),
            Ok(op) => execute(s, op),
        },
    }
}

/// The end of an input instruction: register `r` takes the byte read, or all
/// ones where the input stream is at its end, and the finger moves on.
pub open spec fn supply_spec(s: State, r: Reg, byte: Option<u8>) -> State {
    match byte {
        Some(b) => retire(s, r, b as u32),
        None => retire(s, r, 0xFFFF_FFFFu32),
    }
}

/// Addition and multiplication are exact modulo 2^32, and not-and is the
/// bitwise complement of the bitwise and.
pub proof fn lemma_arithmetic_is_modular(s: State, a: Reg, b: Reg, c: Reg)
    requires
        state_inv(s),
        a < 8,
        b < 8,
        c < 8,
    ensures
        execute(s, Op::Add(a, b, c)).0.regs[a as int] == (s.regs[b as int] + s.regs[c as int])
            % 0x1_0000_0000,
        execute(s, Op::Mul(a, b, c)).0.regs[a as int] == (s.regs[b as int] * s.regs[c as int])
            % 0x1_0000_0000,
        execute(s, Op::Nand(a, b, c)).0.regs[a as int] == !(s.regs[b as int] & s.regs[c as int]),
        execute(s, Op::Add(a, b, c)).1 == Action::Next,
        execute(s, Op::Mul(a, b, c)).1 == Action::Next,
        execute(s, Op::Nand(a, b, c)).1 == Action::Next,
{
}

/// The finger after one instruction. An instruction that completes moves it
/// by one modulo 2^32, except a program load, which sets it to the word in
/// register `c` and does not move it further. An instruction that halts,
/// waits for input or is refused leaves the whole state as it was.
pub proof fn lemma_finger_update(s: State, op: Op)
    requires
        state_inv(s),
        op.well_formed(),
    ensures
        ({
            let (next, action) = execute(s, op);
            &&& (action is Next || action is Emit) && !(op is LoadProgram)
                ==> next.finger == (s.finger + 1) % 0x1_0000_0000
            &&& op matches Op::LoadProgram(_, c) ==> (action is Next
                ==> next.finger == s.regs[c as int])
            &&& action is Halt || action is Await || action is Trap ==> next == s
            &&& next.regs.len() == 8
        }),
{
}

/// Completing an input instruction moves the finger by one modulo 2^32, and
/// the end of the input stream reads as all ones.
pub proof fn lemma_supply_update(s: State, r: Reg, byte: Option<u8>)
    requires
        state_inv(s),
        r < 8,
    ensures
        supply_spec(s, r, byte).finger == (s.finger + 1) % 0x1_0000_0000,
        supply_spec(s, r, byte).store == s.store,
        byte matches Some(b) ==> supply_spec(s, r, byte).regs[r as int] == b,
        byte is None ==> supply_spec(s, r, byte).regs[r as int] == 0xFFFF_FFFFu32,
{
}

/// A program load that names array 0 is a plain jump: the store and the
/// registers stay as they were and the finger takes the word in register `c`.
pub proof fn lemma_load_program_of_self(s: State, b: Reg, c: Reg)
    requires
        state_inv(s),
        b < 8,
        c < 8,
        s.regs[b as int] == 0,
    ensures
        execute(s, Op::LoadProgram(b, c)) == (
            State { finger: s.regs[c as int], ..s },
            Action::Next,
        ),
{
}

/// Stopping is final: a cycle that halts, that waits for input or that is
/// refused leaves the state as it was, so that the same cycle would come
/// again.
pub proof fn lemma_stop_changes_nothing(s: State)
    ensures
        step_spec(s).1 is Halt || step_spec(s).1 is Await || step_spec(s).1 is Trap
            ==> step_spec(s).0 == s,
{
}

/// Every state that a valid state steps to is valid.
pub proof fn lemma_step_keeps_inv(s: State)
    requires
        state_inv(s),
    ensures
        state_inv(step_spec(s).0),
{
    lemma_next_id_minimal(s.store);
}

/// A run of the machine against an input stream: the state reached, where the
/// run stands, the bytes written so far and the number of input bytes read.
pub struct Run {
    pub state: State,
    pub status: Status,
    pub output: Seq<u8>,
    pub consumed: nat,
}

/// The run of a machine in state `s` before its first cycle.
pub open spec fn start(s: State) -> Run {
    Run { state: s, status: Status::Running, output: Seq::empty(), consumed: 0 }
}

/// One cycle of a run. An output instruction appends its byte to the
/// output. An input instruction takes the next byte of `input`, or all ones
/// once `input` is used up. A run that halted or faulted stays as it is.
pub open spec fn advance(r: Run, input: Seq<u8>) -> Run {
    if r.status != Status::Running {
        r
    } else {
        let (next, action) = step_spec(r.state);
        match action {
            Action::Next => Run { state: next, ..r },
            Action::Halt => Run { state: next, status: Status::Halted, ..r },
            Action::Emit(byte) => Run { state: next, output: r.output.push(byte), ..r },
            Action::Await(reg) => if r.consumed < input.len() {
                Run {
                    state: supply_spec(next, reg, Some(input[r.consumed as int])),
                    consumed: r.consumed + 1,
                    ..r
                }
            } else {
                Run { state: supply_spec(next, reg, None), ..r }
            },
            Action::Trap(fault) => Run { state: next, status: Status::Faulted(fault), ..r },
        }
    }
}

/// The run `r` after `cycles` more cycles.
pub open spec fn run_for(r: Run, input: Seq<u8>, cycles: nat) -> Run
    decreases cycles,
{
    if cycles == 0 {
        r
    } else {
        advance(run_for(r, input, (cycles - 1) as nat), input)
    }
}

/// Halted and faulted are final: once a run has stopped, more cycles change
/// nothing of it.
pub proof fn lemma_run_settles(r: Run, input: Seq<u8>, cycles: nat, more: nat)
    requires
        run_for(r, input, cycles).status != Status::Running,
        cycles <= more,
    ensures
        run_for(r, input, more) == run_for(r, input, cycles),
    decreases more,
{
    if cycles < more {
        lemma_run_settles(r, input, cycles, (more - 1) as nat);
    }
}

/// A run that stops has one outcome, fixed by the program and the input
/// stream alone. Whatever two budgets of cycles let the run reach its end,
/// the output, the final status and the final state are the same.
pub proof fn lemma_outcome_is_determined(
    program: Seq<u32>,
    input: Seq<u8>,
    first: nat,
    second: nat,
)
    requires
        run_for(start(initial_state(program)), input, first).status != Status::Running,
        run_for(start(initial_state(program)), input, second).status != Status::Running,
    ensures
        run_for(start(initial_state(program)), input, first) == run_for(
            start(initial_state(program)),
            input,
            second,
        ),
{
    let r = start(initial_state(program));
    if first <= second {
        lemma_run_settles(r, input, first, second);
    } else {
        lemma_run_settles(r, input, second, first);
    }
}

/// A run reads its input in order and never more than there is, and only
/// ever appends to its output.
pub proof fn lemma_run_is_monotone(r: Run, input: Seq<u8>, cycles: nat)
    requires
        r.consumed <= input.len(),
    ensures
        r.consumed <= run_for(r, input, cycles).consumed <= input.len(),
        r.output.is_prefix_of(run_for(r, input, cycles).output),
    decreases cycles,
{
    if cycles > 0 {
        lemma_run_is_monotone(r, input, (cycles - 1) as nat);
    }
}

} // verus!
