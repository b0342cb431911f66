//! The fatal conditions of the machine.

use vstd::prelude::*;

verus! {

/// The conditions under which the machine stops abnormally.
#[derive(Clone, Copy, Debug, PartialEq, Eq, Structural)]
pub enum Fault {
    /// The program image is not a whole number of 32-bit words.
    MalformedProgram,
    /// The instruction word carries an opcode above 13.
    IllegalOpcode,
    /// A division whose divisor register holds zero.
    DivisionByZero,
    /// An output of a value above 255.
    OutputOutOfRange,
    /// An access to an identifier that was never issued.
    Unallocated,
    /// A read, a write or a program load that names a retired identifier.
    UseAfterFree,
    /// An abandonment of a retired identifier.
    DoubleFree,
    /// An abandonment of array 0, the program image.
    FreeOfProgram,
    /// An offset at or beyond the length of the array.
    OutOfBounds,
    /// An allocation when every identifier is issued and none is retired.
    IdSpaceExhausted,
}

} // verus!
