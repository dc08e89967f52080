//! A verified CHIP-8 interpreter core: machine state, fetch, decode,
//! execute, and the timer cadence, with the instruction semantics stated
//! as a mathematical transition function.

pub mod chip8;
pub mod error;
pub mod laws;
pub mod model;

pub use chip8::Chip8;
pub use error::Chip8Error;
