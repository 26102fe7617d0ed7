//! Reshaping between flat and nested columns: reading the offsets of a
//! nested column, wrapping a flat column into a nested one by offsets, by
//! lengths or after the shape of another column, and reading a column of
//! fixed-width arrays as a column of structs.

pub mod column;
pub mod error;
pub mod functions;
pub mod model;
pub mod offsets;

pub use error::Mismatch;
pub use error::NullsIn;
pub use error::ReshapeError;
pub use functions::cast_arr_to_struct;
pub use functions::get_offsets;
pub use functions::implode_like;
pub use functions::implode_with_lengths;
pub use functions::implode_with_offsets;
