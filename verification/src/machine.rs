//! The machine itself: registers, memory and finger, one cycle at a time or
//! in a bounded run over byte streams held in memory.

use byteorder::ByteOrder;
use vstd::prelude::*;
use vstd::slice::slice_subrange;

use crate::fault::Fault;
use crate::mem::Mem;
use crate::op::{Op, Reg};
use crate::semantics::{
    advance, initial_state, lemma_run_settles, run_for, start, state_inv, step_spec, supply_spec,
    Action, Run, State, Status,
};

verus! {

/// The big-endian word that the first four bytes of `bytes` spell.
pub open spec fn be_word(bytes: Seq<u8>) -> u32 {
    (bytes[0] as int * 0x100_0000 + bytes[1] as int * 0x1_0000 + bytes[2] as int * 0x100
        + bytes[3] as int) as u32
}

/// The words of a program image: every four bytes make one big-endian word.
pub open spec fn image_words(bytes: Seq<u8>) -> Seq<u32> {
    Seq::new(bytes.len() / 4, |i: int| be_word(bytes.subrange(4 * i, 4 * i + 4)))
}

/// Reads one big-endian word with `byteorder::BigEndian::read_u32`.
///
/// Trusted: that function returns `u32::from_be_bytes` of the first four
/// bytes of its argument, and panics on fewer than four bytes, which the
/// precondition rules out.
#[verifier::external_body]
fn read_be_u32(chunk: &[u8]) -> (word: u32)
    requires
        chunk@.len() >= 4,
    ensures
        word == be_word(chunk@),
{
    byteorder::BigEndian::read_u32(chunk)
}

/// How a bounded run ended: its status, the bytes it wrote and the number of
/// input bytes it read.
pub struct Outcome {
    pub status: Status,
    pub output: Vec<u8>,
    pub consumed: usize,
}

/// The Universal Machine: a register file, a store and an execution finger.
pub struct Machine {
    reg: [u32; 8],
    mem: Mem,
    ip: u32,
}

impl Machine {
    /// The abstract state of the machine.
    pub closed spec fn view(&self) -> State {
        State { regs: self.reg@, finger: self.ip, store: self.mem@ }
    }

    /// The representation invariant, which is that of the store.
    pub closed spec fn wf(&self) -> bool {
        self.mem.wf()
    }

    /// A well-formed machine is in a valid state.
    pub proof fn lemma_state_inv(&self)
        requires
            self.wf(),
        ensures
            state_inv(self@),
    {
        self.mem.lemma_store_inv();
    }

    /// A machine about to run `program` from its first word.
    pub fn new(program: Vec<u32>) -> (m: Self)
        ensures
            m.wf(),
            m@ == initial_state(program@),
    {
        let m = Machine { reg: [0u32; 8], mem: Mem::init(program), ip: 0 };
        proof {
            assert(m@.regs =~= initial_state(program@).regs);
        }
        m
    }

    /// A machine about to run the program image `bytes`, a sequence of
    /// big-endian words. An image that is not a whole number of words is
    /// refused.
    pub fn load(bytes: &[u8]) -> (r: Result<Self, Fault>)
        ensures
            r is Ok <==> bytes@.len() % 4 == 0,
            r matches Ok(m) ==> m.wf() && m@ == initial_state(image_words(bytes@)),
            r matches Err(fault) ==> fault == Fault::MalformedProgram,
    {
        if bytes.len() % 4 != 0 {
            return Err(Fault::MalformedProgram);
        }
        let size = bytes.len() / 4;
        let mut program: Vec<u32> = Vec::with_capacity(size);
        let mut i: usize = 0;
        while i < size
            invariant
                4 * size == bytes@.len() <= usize::MAX,
                i <= size,
                program@.len() == i,
                forall|k: int| 0 <= k < i ==> program@[k] == image_words(bytes@)[k],
            decreases size - i,
        {
            let chunk = slice_subrange(bytes, 4 * i, 4 * i + 4);
            let word32 = read_be_u32(chunk);
            program.push(word32);
            i += 1;
        }
        proof {
            assert(program@ =~= image_words(bytes@));
        }
        Ok(Machine::new(program))
    }

    /// The word in register `r`.
    pub fn register(&self, r: Reg) -> (word: u32)
        requires
            r < 8,
        ensures
            word == self@.regs[r as int],
    {
        self.reg[r]
    }

    /// The execution finger: the offset in array 0 of the next instruction.
    pub fn finger(&self) -> (at: u32)
        ensures
            at == self@.finger,
    {
        self.ip
    }

    /// The store of the machine.
    pub fn memory(&self) -> (mem: &Mem)
        ensures
            mem@ == self@.store,
            self.wf() ==> mem.wf(),
    {
        &self.mem
    }

    /// Runs one cycle and says what it asks of the caller. On `Await` and on
    /// `Trap` the machine is left as it was.
    pub fn step(&mut self) -> (action: Action)
        requires
            old(self).wf(),
        ensures
            final(self).wf(),
            (final(self)@, action) == step_spec(old(self)@),
            action matches Action::Await(reg) ==> reg < 8,
    {
        let word = match self.mem.read(0, self.ip) {
            Ok(word) => *word,
            Err(fault) => {
                return Action::Trap(fault);
            },
        };
        let op = match Op::parse(word) {
            Ok(op) => op,
            Err(fault) => {
                return Action::Trap(fault);
            },
        };
        let ghost before = self@;
        match op {
            Op::CondMov(a, b, c) => {
                if self.reg[c] != 0 {
                    self.reg[a] = self.reg[b];
                }
            },
            Op::MemRead(a, b, c) => {
                let word = match self.mem.read(self.reg[b], self.reg[c]) {
                    Ok(word) => *word,
                    Err(fault) => {
                        return Action::Trap(fault);
                    },
                };
                self.reg[a] = word;
            },
            Op::MemWrite(a, b, c) => {
                match self.mem.write(self.reg[a], self.reg[b], self.reg[c]) {
                    Ok(()) => {},
                    Err(fault) => {
                        return Action::Trap(fault);
                    },
                }
            },
            Op::Add(a, b, c) => {
                self.reg[a] = self.reg[b].wrapping_add(self.reg[c]);
            },
            Op::Mul(a, b, c) => {
                self.reg[a] = self.reg[b].wrapping_mul(self.reg[c]);
            },
            Op::Div(a, b, c) => {
                if self.reg[c] == 0 {
                    return Action::Trap(Fault::DivisionByZero);
                }
                self.reg[a] = self.reg[b] / self.reg[c];
            },
            Op::Nand(a, b, c) => {
                self.reg[a] = !(self.reg[b] & self.reg[c]);
            },
            Op::Halt => {
                return Action::Halt;
            },
            Op::Alloc(b, c) => {
                match self.mem.allocate(self.reg[c]) {
                    Ok(id) => {
                        self.reg[b] = id;
                    },
                    Err(fault) => {
                        return Action::Trap(fault);
                    },
                }
            },
            Op::Free(c) => {
                match self.mem.free(self.reg[c]) {
                    Ok(()) => {},
                    Err(fault) => {
                        return Action::Trap(fault);
                    },
                }
            },
            Op::Output(c) => {
                let chr = self.reg[c];
                if chr > 255 {
                    return Action::Trap(Fault::OutputOutOfRange);
                }
                self.ip = self.ip.wrapping_add(1);
                return Action::Emit(chr as u8);
            },
            Op::Input(c) => {
                return Action::Await(c);
            },
            Op::LoadProgram(b, c) => {
                match self.mem.copy_to_zero(self.reg[b]) {
                    Ok(()) => {
                        self.ip = self.reg[c];
                        return Action::Next;
                    },
                    Err(fault) => {
                        return Action::Trap(fault);
                    },
                }
            },
            Op::Mov(a, val) => {
                self.reg[a] = val;
            },
        }
        self.ip = self.ip.wrapping_add(1);
        proof {
            assert(self@.regs =~= step_spec(before).0.regs);
        }
        Action::Next
    }

    /// Completes an input instruction that [`Machine::step`] answered with
    /// `Await(r)`: `byte` is the byte read, or `None` at the end of the input.
    pub fn supply(&mut self, r: Reg, byte: Option<u8>)
        requires
            old(self).wf(),
            r < 8,
        ensures
            final(self).wf(),
            final(self)@ == supply_spec(old(self)@, r, byte),
    {
        self.reg[r] = match byte {
            Some(b) => b as u32,
            None => 0xFFFF_FFFFu32,
        };
        self.ip = self.ip.wrapping_add(1);
    }

    /// Runs the machine for at most `budget` cycles against the input stream
    /// `input`, and collects what it writes. The run stops early when the
    /// machine halts or faults.
    pub fn run(&mut self, input: &[u8], budget: u64) -> (outcome: Outcome)
        requires
            old(self).wf(),
        ensures
            final(self).wf(),
            ({
                let r = run_for(start(old(self)@), input@, budget as nat);
                &&& final(self)@ == r.state
                &&& outcome.status == r.status
                &&& outcome.output@ == r.output
                &&& outcome.consumed == r.consumed
            }),
    {
        let mut output: Vec<u8> = Vec::new();
        let mut consumed: usize = 0;
        let mut status = Status::Running;
        let mut cycles: u64 = 0;
        while cycles < budget
            invariant_except_break
                status == Status::Running,
                run_for(start(old(self)@), input@, cycles as nat) == (Run {
                    state: self@,
                    status: Status::Running,
                    output: output@,
                    consumed: consumed as nat,
                }),
            invariant
                self.wf(),
                cycles <= budget,
                consumed <= input@.len(),
            ensures
                self.wf(),
                run_for(start(old(self)@), input@, budget as nat) == (Run {
                    state: self@,
                    status,
                    output: output@,
                    consumed: consumed as nat,
                }),
            decreases budget - cycles,
        {
            let ghost so_far = run_for(start(old(self)@), input@, cycles as nat);
            proof {
                assert(run_for(start(old(self)@), input@, (cycles + 1) as nat) == advance(
                    so_far,
                    input@,
                ));
            }
            match self.step() {
                Action::Next => {},
                Action::Halt => {
                    status = Status::Halted;
                },
                Action::Emit(byte) => {
                    output.push(byte);
                },
                Action::Await(reg) => {
                    if consumed < input.len() {
                        self.supply(reg, Some(input[consumed]));
                        consumed += 1;
                    } else {
                        self.supply(reg, None);
                    }
                },
                Action::Trap(fault) => {
                    status = Status::Faulted(fault);
                },
            }
            cycles += 1;
            if status != Status::Running {
                proof {
                    lemma_run_settles(start(old(self)@), input@, cycles as nat, budget as nat);
                }
                break ;
            }
        }
        Outcome { status, output, consumed }
    }
}

} // verus!
