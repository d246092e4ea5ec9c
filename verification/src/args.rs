use vstd::prelude::*;
use crate::data::args::DataArgs;
use crate::layout::args::LayoutArgs;
use crate::output::args::OutputArgs;

verus! {

/// Everything a build is told: which blocks, from which values, to what
/// output.
#[derive(Debug)]
pub struct Args {
    pub layout: LayoutArgs,
    pub data: DataArgs,
    pub output: OutputArgs,
}

} // verus!
