//! Tuning constants of the interpreter.

use vstd::prelude::*;

verus! {

/// number of free cells when the memory is constructed
pub const INITIAL_FREE_CELLS: usize = 256;

/// after garbage collection at most `used * MAXIMUM_FREE_NUMERATOR / MAXIMUM_FREE_DENOMINATOR`
/// free cells are kept before the free cells are trimmed
pub const MAXIMUM_FREE_NUMERATOR: usize = 3;
pub const MAXIMUM_FREE_DENOMINATOR: usize = 4;

/// when trimming free cells, keep `used * MINIMUM_FREE_NUMERATOR / MINIMUM_FREE_DENOMINATOR + 1` of them
pub const MINIMUM_FREE_NUMERATOR: usize = 1;
pub const MINIMUM_FREE_DENOMINATOR: usize = 10;

/// when there are no more free cells (not even after garbage collection),
/// grow the memory to `ALLOCATION_NUMERATOR / ALLOCATION_DENOMINATOR` times the used cells
pub const ALLOCATION_NUMERATOR: usize = 1;
pub const ALLOCATION_DENOMINATOR: usize = 1;

/// maximum depth of recursion before an evaluation is interrupted and a stackoverflow signal is emitted
pub const MAX_RECURSION_DEPTH: usize = 700;

/// How many steps one evaluation, expansion or load may take before it gives up.
pub const MAX_EVALUATION_STEPS: u64 = 18446744073709551615;

/// the name of the whole application
pub const APPLICATION_NAME: &'static str = "picilisp";

} // verus!
