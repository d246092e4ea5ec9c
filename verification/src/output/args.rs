use vstd::prelude::*;
use vstd::string::*;

verus! {

/// The text format of an output file.
#[derive(Copy, Clone, Debug, PartialEq, Eq, Structural)]
pub enum OutputFormat {
    /// Intel HEX.
    Hex,
    /// Motorola S-records.
    Mot,
}

impl OutputFormat {
    /// The extension of a file in this format.
    pub open spec fn spec_extension(self) -> Seq<char> {
        match self {
            OutputFormat::Hex => "hex"@,
            OutputFormat::Mot => "mot"@,
        }
    }

    /// The extension of a file in this format.
    pub fn extension(&self) -> (r: &'static str)
        ensures
            r@ == self.spec_extension(),
    {
        match self {
            OutputFormat::Hex => "hex",
            OutputFormat::Mot => "mot",
        }
    }
}

/// `text` and a `_` behind it; nothing where `text` is empty.
pub open spec fn leading_part(text: Seq<char>) -> Seq<char> {
    if text.len() == 0 {
        text
    } else {
        text + "_"@
    }
}

/// A `_` and `text` behind it; nothing where `text` is empty.
pub open spec fn trailing_part(text: Seq<char>) -> Seq<char> {
    if text.len() == 0 {
        text
    } else {
        "_"@ + text
    }
}

/// The name of the file that holds `name`: prefix, name and suffix with a
/// `_` between them, a dot and the format's extension.
pub open spec fn file_name_text(
    prefix: Seq<char>,
    name: Seq<char>,
    suffix: Seq<char>,
    format: OutputFormat,
) -> Seq<char> {
    leading_part(prefix) + name + trailing_part(suffix) + "."@ + format.spec_extension()
}

/// Output configuration for a build.
#[derive(Debug, Clone)]
pub struct OutputArgs {
    /// Output directory.
    pub out: String,
    /// Text put before the block's name in a file's name.
    pub prefix: String,
    /// Text put behind the block's name in a file's name.
    pub suffix: String,
    /// Number of data bytes per record.
    pub record_width: u16,
    pub format: OutputFormat,
    /// Write all blocks into one file.
    pub combined: bool,
    /// Show detailed build statistics.
    pub stats: bool,
    /// Suppress all output except errors.
    pub quiet: bool,
    /// File for the report of the values that the blocks resolved.
    pub export_json: Option<String>,
}

impl OutputArgs {
    /// The name of the output file for `name`, a block's name or the name of
    /// the whole: `prefix_name_suffix` with the format's extension. An empty
    /// prefix or suffix is left out with its `_`.
    pub fn file_name(&self, name: &str) -> (r: String)
        ensures
            r@ == file_name_text(self.prefix@, name@, self.suffix@, self.format),
    {
        let mut out = String::from_str("");
        proof {
            reveal_strlit("");
        }
        if self.prefix.as_str().unicode_len() > 0 {
            out.append(self.prefix.as_str());
            out.append("_");
        }
        proof {
            assert(out@ =~= leading_part(self.prefix@));
        }
        out.append(name);
        if self.suffix.as_str().unicode_len() > 0 {
            out.append("_");
            out.append(self.suffix.as_str());
        }
        proof {
            assert(out@ =~= leading_part(self.prefix@) + name@ + trailing_part(self.suffix@));
        }
        out.append(".");
        out.append(self.format.extension());
        out
    }
}

} // verus!
