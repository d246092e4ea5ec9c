//! The interface through which named values reach the builder.

pub mod args;
pub mod errors;
pub mod excel;
pub mod json;
pub mod request;

use vstd::prelude::*;
use crate::layout::value::{DataValue, ValueSource};
use errors::DataError;

verus! {

/// A provider of values by name.
///
/// The builder asks a data source once for every field that names a value,
/// and builds from whatever it answers.
pub trait DataSource: Sync {
    /// Retrieves a single numeric or boolean value.
    fn retrieve_single_value(&self, name: &str) -> Result<DataValue, DataError>;

    /// Retrieves a list of values or a literal string.
    fn retrieve_1d_array_or_string(&self, name: &str) -> Result<ValueSource, DataError>;

    /// Retrieves a table of values, row by row.
    fn retrieve_2d_array(&self, name: &str) -> Result<Vec<Vec<DataValue>>, DataError>;
}

} // verus!
