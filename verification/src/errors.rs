//! The error taxonomy of the level parser.
//!
//! Every kind is terminal for the parse attempt that raised it: no partial
//! level is ever exposed, and no recovery is attempted.

use vstd::prelude::*;

verus! {

/// One reason a level file was rejected.
///
/// Detection order is fixed: grid-shape checks run first, then the
/// ghost-spawn checks, then the Pac-Man-spawn checks, then the warp checks,
/// then character encoding.  A file with several defects reports the
/// earliest-detected one.
#[derive(Debug, Clone, Copy, PartialEq, Eq, Structural)]
pub enum PacError {
    /// The underlying file could not be read.  Never produced by the
    /// in-memory parser itself; reserved for the I/O layer around it.
    FileRead,
    /// Zero lines, or the first line has zero columns.
    LevelEmpty,
    /// Some row's column count differs from the first row's.
    LevelNotRectangular,
    /// No horizontal `$$` pair was found.
    NoPacSpawn,
    /// A second disjoint `$$` pair was found.
    MultiplePacSpawns,
    /// A stray `$` remained outside the accepted pair.
    InvalidPacSpawn,
    /// No 8-wide by 5-tall `@` block was found, and no stray `@` either.
    NoGhostSpawn,
    /// A second `@` block, disjoint from the first, was found.
    MultipleGhostSpawns,
    /// A stray `@` remained outside the accepted block (this also catches a
    /// mis-shaped block).
    InvalidGhostSpawn,
    /// The two cells directly above and the two directly below the block's
    /// horizontal center are missing or not blank.
    InvalidGhostSpawnPeripheral,
    /// A digit appeared other than exactly twice, or the used digits are not
    /// contiguous starting at 1.
    InvalidWarp,
    /// An unrecognized character was encountered during encoding.
    InvalidCharacters,
    /// The flat cell sequence could not be reshaped into a 2-D array.
    /// Unreachable given the rectangularity invariant; kept as a guard.
    ConversionToArray,
}

} // verus!
