//! The layout model and the builder that turns a field tree into bytes.

pub mod args;
pub mod block;
pub mod conversions;
pub mod entry;
pub mod errors;
pub mod format;
pub mod header;
pub mod settings;
pub mod text;
pub mod used_values;
pub mod value;
