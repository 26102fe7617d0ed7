//! The errors of the reshaping functions.

use polars::prelude::PolarsError;
use vstd::prelude::*;

verus! {

/// An error of the engine. It is carried through unread.
#[verifier::external_type_specification]
#[verifier::external_body]
pub struct ExPolarsError(PolarsError);

/// A structural precondition that the inputs of a reshaping do not meet.
/// Each variant carries the quantities that were compared.
#[derive(Clone, Copy, Debug, PartialEq, Eq, Structural)]
pub enum Mismatch {
    /// The offsets are empty, or their first entry, given here, is not zero.
    FirstOffset { first: Option<i64> },
    /// The last offset differs from the number of rows of the target.
    LastOffset { last: i64, target_len: usize },
    /// The entry after position `at` is smaller than the entry at `at`.
    Decreasing { at: usize },
    /// The lengths up to and including position `at` add up to a total that
    /// no 64-bit offset can hold.
    TotalTooLarge { at: usize },
    /// The layout holds `layout_len` elements in all, the target `target_len` rows.
    LayoutLength { layout_len: i64, target_len: usize },
    /// The array column is `array_width` wide, the struct has `struct_width` fields.
    Width { array_width: usize, struct_width: usize },
    /// The target is stored in no chunk at all, where a column has one or more.
    NoChunk,
    /// A column of `rows` rows would come out, and the engine counts rows in
    /// 32 bits.
    TooManyRows { rows: usize },
    /// The `rows` arrays of `width` items each hold more items than the
    /// engine, which counts them in 32 bits, can reach.
    TooManyItems { rows: usize, width: usize },
}

/// The input in which a null stands where none is allowed.
#[derive(Clone, Copy, Debug, PartialEq, Eq, Structural)]
pub enum NullsIn {
    Offsets,
    Lengths,
    Layout,
}

/// Why a reshaping produced no column.
#[derive(Debug)]
pub enum ReshapeError {
    /// The sizes of the inputs do not fit each other.
    ShapeMismatch(Mismatch),
    /// A null stands where none is allowed.
    ComputeError(NullsIn),
    /// The column engine refused a step: the input has the wrong type, or a
    /// buffer could not be cast or assembled.
    Engine(PolarsError),
}

impl ReshapeError {
    pub fn is_shape_mismatch(&self) -> (b: bool)
        ensures
            b == (*self is ShapeMismatch),
    {
        match self {
            ReshapeError::ShapeMismatch(_) => true,
            _ => false,
        }
    }

    pub fn is_compute_error(&self) -> (b: bool)
        ensures
            b == (*self is ComputeError),
    {
        match self {
            ReshapeError::ComputeError(_) => true,
            _ => false,
        }
    }

    pub fn is_engine(&self) -> (b: bool)
        ensures
            b == (*self is Engine),
    {
        match self {
            ReshapeError::Engine(_) => true,
            _ => false,
        }
    }
}

/// What the engine handed back, with its refusal as an error of this library.
pub fn from_engine<T>(result: Result<T, PolarsError>) -> (r: Result<T, ReshapeError>)
    ensures
        match result {
            Ok(value) => r == Ok::<T, ReshapeError>(value),
            Err(e) => r == Err::<T, ReshapeError>(ReshapeError::Engine(e)),
        },
{
    match result {
        Ok(value) => Ok(value),
        Err(e) => Err(ReshapeError::Engine(e)),
    }
}

} // verus!
