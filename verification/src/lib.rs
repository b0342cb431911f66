//! An interpreter core for the 32-bit Universal Machine.
//!
//! The machine runs programs made of 32-bit words over eight registers and a
//! store of word arrays that are named by 32-bit identifiers. This crate
//! holds its decoder, its memory and its fetch-decode-execute cycle, each
//! verified against a mathematical model:
//!
//! - [`store`] and [`semantics`] say what the memory and the machine are and
//!   what every operation does, and prove the laws that follow;
//! - [`mem`], [`pool`], [`op`] and [`machine`] are the executable code, whose
//!   contracts tie it to that model.
//!
//! Nothing here reads or writes a file or a stream. [`machine::Machine::step`]
//! hands each byte to write and each request for input to its caller, and
//! [`machine::Machine::run`] runs against byte streams held in memory.

pub mod fault;
pub mod machine;
pub mod mem;
pub mod op;
pub mod pool;
pub mod semantics;
pub mod store;
