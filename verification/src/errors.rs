use vstd::prelude::*;

verus! {

/// The abnormal conditions one execution step can surface.
///
/// None of these abort the process: `step` returns them so the host can
/// decide whether to halt the emulated session.
#[derive(Clone, Copy, Debug, PartialEq, Eq, Structural)]
pub enum Chip8Error {
    /// The fetched instruction word matches no instruction, or a family's
    /// secondary selector matches no operation in that family.
    DecodeError,
    /// A return instruction ran with an empty call stack.
    StackUnderflow,
    /// A call instruction ran with the call stack at capacity.
    StackOverflow,
    /// The index register (or a key index taken from a register) points
    /// outside the valid range, or a program image does not fit in memory.
    MemoryOutOfBounds,
}

} // verus!
