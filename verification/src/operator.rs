//! The instruction set: eight operation tags with no payload.

use vstd::prelude::*;

verus! {

/// One instruction of the language. A pure data tag: the execution engine
/// gives each variant its effect.
#[derive(Debug, Clone, Copy, PartialEq, Eq, Structural)]
pub enum Operator {
    /// `>` — move the data pointer right (wrapping past the last cell).
    IncrementPointer,
    /// `<` — move the data pointer left (wrapping past cell 0).
    DecrementPointer,
    /// `+` — increment the current cell, with 8-bit wraparound.
    IncrementCell,
    /// `-` — decrement the current cell, with 8-bit wraparound.
    DecrementCell,
    /// `.` — emit the current cell's value as one byte.
    Output,
    /// `,` — read one byte and store it in the current cell.
    Input,
    /// `[` — jump past the matching `LoopEnd` if the current cell is zero.
    LoopStart,
    /// `]` — jump back to the matching `LoopStart` if the current cell is not zero.
    LoopEnd,
}

} // verus!
