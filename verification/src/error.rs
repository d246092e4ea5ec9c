use vstd::prelude::*;
use vstd::string::StringExecFns;
use crate::data::errors::DataError;
use crate::layout::errors::LayoutError;
use crate::output::errors::OutputError;

verus! {

/// Any error of a build.
#[derive(Debug)]
pub enum MintError {
    Layout(LayoutError),
    Data(DataError),
    Output(OutputError),
    /// The error `source`, met while the block `block_name` of the layout
    /// file `layout_file` was built.
    InBlock { block_name: String, layout_file: String, source: Box<MintError> },
}

impl MintError {
    /// The text of the error. An error inside a block is preceded by the
    /// block's name and its layout file.
    pub open spec fn message_text(self) -> Seq<char>
        decreases self,
    {
        match self {
            MintError::Layout(e) => e.message_text(),
            MintError::Data(e) => e.message_text(),
            MintError::Output(e) => e.message_text(),
            MintError::InBlock { block_name, layout_file, source } => "While building block '"@
                + block_name@ + "' from '"@ + layout_file@ + "': "@ + source.message_text(),
        }
    }

    /// The text of the error.
    pub fn message(&self) -> (r: String)
        ensures
            r@ == self.message_text(),
        decreases self,
    {
        match self {
            MintError::Layout(e) => e.message(),
            MintError::Data(e) => e.message(),
            MintError::Output(e) => e.message(),
            MintError::InBlock { block_name, layout_file, source } => {
                let mut out = String::from_str("While building block '");
                out.append(block_name.as_str());
                out.append("' from '");
                out.append(layout_file.as_str());
                out.append("': ");
                let inner = source.message();
                out.append(inner.as_str());
                out
            },
        }
    }
}

} // verus!
