//! Builds byte-exact memory block images from a field layout and named values.
//!
//! A layout describes blocks, each with a header (address, length, padding,
//! checksum placement) and a tree of fields. The library turns such a tree into
//! bytes, places a CRC-32 over them, tags the result with its address range and
//! checks that the blocks of one output do not overlap. Values that a layout
//! refers to by name come from a data source: the sheets of a workbook, or
//! JSON objects, one for each version.

pub mod args;
pub mod commands;
pub mod data;
pub mod error;
pub mod layout;
pub mod order;
pub mod output;

