use vstd::prelude::*;
use crate::layout::text::{ends_ignoring_case, ends_like};

verus! {

/// The formats in which a layout file can be written.
#[derive(Copy, Clone, Debug, PartialEq, Eq, Structural)]
pub enum LayoutFormat {
    Toml,
    Yaml,
    Json,
}

/// The format that a file's name stands for: by its extension, whatever the
/// case of its letters; none for any other name.
pub open spec fn spec_layout_format(path: Seq<char>) -> Option<LayoutFormat> {
    if ends_like(path, ".toml"@) {
        Some(LayoutFormat::Toml)
    } else if ends_like(path, ".yaml"@) || ends_like(path, ".yml"@) {
        Some(LayoutFormat::Yaml)
    } else if ends_like(path, ".json"@) {
        Some(LayoutFormat::Json)
    } else {
        None
    }
}

/// The format of the layout file at `path`.
pub fn layout_format(path: &str) -> (r: Option<LayoutFormat>)
    ensures
        r == spec_layout_format(path@),
{
    if ends_ignoring_case(path, ".toml") {
        Some(LayoutFormat::Toml)
    } else if ends_ignoring_case(path, ".yaml") || ends_ignoring_case(path, ".yml") {
        Some(LayoutFormat::Yaml)
    } else if ends_ignoring_case(path, ".json") {
        Some(LayoutFormat::Json)
    } else {
        None
    }
}

} // verus!
