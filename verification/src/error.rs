use vstd::prelude::*;

verus! {

/// The fatal conditions an interpreter cycle can report. Every fault is
/// unrecoverable for the current run; the host may reset and restart.
#[derive(Clone, Copy, Debug, PartialEq, Eq, Structural)]
pub enum Chip8Error {
    /// An opcode whose nibble pattern matches no instruction; carries the
    /// raw 16-bit value so the host can report it.
    InvalidOpcode(u16),
    /// PC, I, or a key index addressed storage beyond its declared capacity.
    MemoryOutOfBounds,
    /// A CALL was issued with all stack slots in use.
    StackOverflow,
    /// A RET was issued with the stack empty.
    StackUnderflow,
    /// A program image too large for the memory above the load address.
    RomTooLarge,
}

} // verus!
