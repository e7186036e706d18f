//! Instructions of the virtual machine and the error types of the two
//! pipeline stages.

use vstd::prelude::*;

verus! {

/// One instruction of the compiled program.
///
/// Runs of identical arithmetic or move operators in the source are collapsed
/// into a single instruction carrying the run length. Arithmetic counts are
/// reduced modulo 256 when the run is emitted, so an `Add` or `Subtract`
/// count always fits in a byte; move counts keep the full run length.
///
/// `UnresolvedLoopStart` is a placeholder that only exists while the compiler
/// has seen a `[` whose matching `]` is still pending; a finished program
/// never contains it (see [`well_formed`]).
#[derive(Clone, Copy, Debug, PartialEq, Eq, Structural)]
pub enum Instruction {
    /// Increment the current cell by the count, wrapping modulo 256.
    Add(u8),
    /// Decrement the current cell by the count, wrapping modulo 256.
    Subtract(u8),
    /// Advance the data pointer by the count.
    MoveRight(usize),
    /// Retreat the data pointer by the count.
    MoveLeft(usize),
    /// If the current cell is zero, set the instruction pointer to the target.
    JumpIfZero(usize),
    /// If the current cell is not zero, set the instruction pointer to the target.
    JumpIfNotZero(usize),
    /// Emit the current cell through the output port.
    Output,
    /// Read one byte from the input port into the current cell.
    Input,
    /// Transient stand-in for a `[` whose `]` has not been seen yet.
    UnresolvedLoopStart,
}

/// The two ways compilation can fail; both are bracket-nesting faults.
#[derive(Clone, Copy, Debug, PartialEq, Eq, Structural)]
pub enum CompileError {
    /// A `]` appeared with no `[` still open.
    UnopenedLoop,
    /// Input ended while at least one `[` was still open.
    UnclosedLoop,
}

/// The fatal faults a run can end in; none of them is recoverable.
#[derive(Clone, Copy, Debug, PartialEq, Eq, Structural)]
pub enum RuntimeError {
    /// A move left would take the data pointer below cell 0.
    NegativeIndex,
    /// A move right would take the data pointer past the fixed tape.
    OutOfBounds,
    /// An input instruction ran after the input port was exhausted.
    MissingInput,
    /// An `UnresolvedLoopStart` was fetched; the program was not compiled
    /// by a correct compiler.
    MalformedProgram,
}

/// The pairing demanded of the jump halves at position `i`, leaving
/// `UnresolvedLoopStart` unconstrained. The compiler maintains this of its
/// staging sequence, where placeholders are still legitimate.
pub open spec fn wf_open_at(p: Seq<Instruction>, i: int) -> bool {
    match p[i] {
        Instruction::JumpIfZero(j) => {
            &&& i < j < p.len()
            &&& (p[j as int] matches Instruction::JumpIfNotZero(b) && b as int == i)
        },
        Instruction::JumpIfNotZero(j) => {
            &&& (j as int) < i
            &&& (p[j as int] matches Instruction::JumpIfZero(b) && b as int == i)
        },
        _ => true,
    }
}

/// What a single position of a finished program may hold: no placeholder,
/// and each jump half points at its partner.
pub open spec fn wf_at(p: Seq<Instruction>, i: int) -> bool {
    &&& !(p[i] is UnresolvedLoopStart)
    &&& wf_open_at(p, i)
}

/// The invariant of a completed program: no `UnresolvedLoopStart` remains,
/// every `JumpIfZero` at index `i` targets a `JumpIfNotZero` at some `j > i`
/// whose own target is `i`, and symmetrically for every `JumpIfNotZero`.
pub open spec fn well_formed(p: Seq<Instruction>) -> bool {
    forall|i: int| 0 <= i < p.len() ==> #[trigger] wf_at(p, i)
}

} // verus!
