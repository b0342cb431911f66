//! The instruction set and its decoder.

use vstd::prelude::*;

use crate::fault::Fault;

verus! {

/// An index into the register file.
pub type Reg = usize;

/// A decoded instruction. Register operands are named `a`, `b`, `c` as in the
/// instruction encoding.
#[derive(Clone, Copy, Debug, PartialEq, Eq, Structural)]
pub enum Op {
    /// Opcode 0, operands `a`, `b`, `c`: if `c` is not zero, `a := b`.
    CondMov(Reg, Reg, Reg),
    /// Opcode 1, operands `a`, `b`, `c`: `a :=` the word at offset `c` of
    /// array `b`.
    MemRead(Reg, Reg, Reg),
    /// Opcode 2, operands `a`, `b`, `c`: the word at offset `b` of array `a`
    /// becomes `c`.
    MemWrite(Reg, Reg, Reg),
    /// Opcode 3, operands `a`, `b`, `c`: `a := b + c` modulo 2^32.
    Add(Reg, Reg, Reg),
    /// Opcode 4, operands `a`, `b`, `c`: `a := b * c` modulo 2^32.
    Mul(Reg, Reg, Reg),
    /// Opcode 5, operands `a`, `b`, `c`: `a := b / c`, rounded down.
    Div(Reg, Reg, Reg),
    /// Opcode 6, operands `a`, `b`, `c`: `a := !(b & c)`.
    Nand(Reg, Reg, Reg),
    /// Opcode 7: the machine stops.
    Halt,
    /// Opcode 8, operands `b`, `c`: `b :=` the identifier of a new array of
    /// `c` zero words.
    Alloc(Reg, Reg),
    /// Opcode 9, operand `c`: the array `c` is abandoned.
    Free(Reg),
    /// Opcode 10, operand `c`: the byte `c` is written.
    Output(Reg),
    /// Opcode 11, operand `c`: `c :=` the next byte of the input, or all
    /// ones at its end.
    Input(Reg),
    /// Opcode 12, operands `b`, `c`: array 0 becomes a copy of array `b`
    /// unless `b` is zero, and the finger is set to `c`.
    LoadProgram(Reg, Reg),
    /// Opcode 13, a register and a 25-bit value: the register takes the
    /// value.
    Mov(Reg, u32),
}

/// Bits 31..28 of the word.
pub open spec fn opcode(w: u32) -> int {
    w as int / 0x1000_0000
}

/// Bits 8..6 of the word: operand `a` of the standard form.
pub open spec fn field_a(w: u32) -> int {
    (w as int / 64) % 8
}

/// Bits 5..3 of the word: operand `b` of the standard form.
pub open spec fn field_b(w: u32) -> int {
    (w as int / 8) % 8
}

/// Bits 2..0 of the word: operand `c` of the standard form.
pub open spec fn field_c(w: u32) -> int {
    w as int % 8
}

/// Bits 27..25 of the word: the target register of a load-immediate.
pub open spec fn imm_reg(w: u32) -> int {
    (w as int / 0x200_0000) % 8
}

/// Bits 24..0 of the word: the value of a load-immediate.
pub open spec fn imm_value(w: u32) -> int {
    w as int % 0x200_0000
}

/// The instruction that a word encodes, or the fault for an opcode above 13.
pub open spec fn decode(w: u32) -> Result<Op, Fault> {
    let a = field_a(w) as usize;
    let b = field_b(w) as usize;
    let c = field_c(w) as usize;
    let code = opcode(w);
    if code == 0 {
        Ok(Op::CondMov(a, b, c))
    } else if code == 1 {
        Ok(Op::MemRead(a, b, c))
    } else if code == 2 {
        Ok(Op::MemWrite(a, b, c))
    } else if code == 3 {
        Ok(Op::Add(a, b, c))
    } else if code == 4 {
        Ok(Op::Mul(a, b, c))
    } else if code == 5 {
        Ok(Op::Div(a, b, c))
    } else if code == 6 {
        Ok(Op::Nand(a, b, c))
    } else if code == 7 {
        Ok(Op::Halt)
    } else if code == 8 {
        Ok(Op::Alloc(b, c))
    } else if code == 9 {
        Ok(Op::Free(c))
    } else if code == 10 {
        Ok(Op::Output(c))
    } else if code == 11 {
        Ok(Op::Input(c))
    } else if code == 12 {
        Ok(Op::LoadProgram(b, c))
    } else if code == 13 {
        Ok(Op::Mov(imm_reg(w) as usize, imm_value(w) as u32))
    } else {
        Err(Fault::IllegalOpcode)
    }
}

impl Op {
    /// Every register operand names one of the eight registers, and an
    /// immediate fits in 25 bits.
    pub open spec fn well_formed(self) -> bool {
        match self {
            Op::CondMov(a, b, c)
            | Op::MemRead(a, b, c)
            | Op::MemWrite(a, b, c)
            | Op::Add(a, b, c)
            | Op::Mul(a, b, c)
            | Op::Div(a, b, c)
            | Op::Nand(a, b, c) => a < 8 && b < 8 && c < 8,
            Op::Halt => true,
            Op::Alloc(b, c) | Op::LoadProgram(b, c) => b < 8 && c < 8,
            Op::Free(c) | Op::Output(c) | Op::Input(c) => c < 8,
            Op::Mov(a, value) => a < 8 && value < 0x200_0000,
        }
    }

    /// Decodes one instruction word.
    pub fn parse(v: u32) -> (r: Result<Op, Fault>)
        ensures
            r == decode(v),
            r is Err <==> opcode(v) > 13,
            r matches Ok(op) ==> op.well_formed(),
    {
        let code = v >> 28;
        let a = ((v & 0b111000000_u32) >> 6) as usize;
        let b = ((v & 0b111000_u32) >> 3) as usize;
        let c = (v & 0b111_u32) as usize;
        proof {
            assert(v >> 28 == v / 0x1000_0000) by (bit_vector);
            assert((v & 0b111000000_u32) >> 6 == (v / 64) % 8) by (bit_vector);
            assert((v & 0b111000_u32) >> 3 == (v / 8) % 8) by (bit_vector);
            assert(v & 0b111_u32 == v % 8) by (bit_vector);
            assert((v >> 25) & 0b111_u32 == (v / 0x200_0000) % 8) by (bit_vector);
            assert(v & 0x01FF_FFFF_u32 == v % 0x200_0000) by (bit_vector);
            assert(v / 0x1000_0000 < 16) by (bit_vector);
        }
        match code {
            0 => Ok(Op::CondMov(a, b, c)),
            1 => Ok(Op::MemRead(a, b, c)),
            2 => Ok(Op::MemWrite(a, b, c)),
            3 => Ok(Op::Add(a, b, c)),
            4 => Ok(Op::Mul(a, b, c)),
            5 => Ok(Op::Div(a, b, c)),
            6 => Ok(Op::Nand(a, b, c)),
            7 => Ok(Op::Halt),
            8 => Ok(Op::Alloc(b, c)),
            9 => Ok(Op::Free(c)),
            10 => Ok(Op::Output(c)),
            11 => Ok(Op::Input(c)),
            12 => Ok(Op::LoadProgram(b, c)),
            13 => {
                let a = ((v >> 25) & 0b111_u32) as usize;
                let val = v & 0x01FF_FFFF_u32;
                Ok(Op::Mov(a, val))
            },
            _ => Err(Fault::IllegalOpcode),
        }
    }
}

/// The decoder is total. A word decodes to the illegal-opcode fault exactly
/// when it is `0xE000_0000` or above, and otherwise to an instruction whose
/// operands are in range.
pub proof fn lemma_decode_is_total(w: u32)
    ensures
        decode(w) is Err <==> w >= 0xE000_0000,
        decode(w) matches Err(fault) ==> fault == Fault::IllegalOpcode,
        decode(w) matches Ok(op) ==> op.well_formed(),
{
}

} // verus!
