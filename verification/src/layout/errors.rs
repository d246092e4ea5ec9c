use vstd::prelude::*;
use vstd::string::StringExecFns;
use super::text::{decimal_text, push_decimal, push_signed, signed_text};
use crate::data::errors::DataError;

verus! {

/// Why a field's value could not be turned into bytes or recorded.
#[derive(Debug, Clone, Copy, PartialEq, Eq, Structural)]
pub enum ExportFailure {
    /// Both `size` and `SIZE` are given.
    SizeKeysConflict,
    /// A bitmap carries a size.
    BitmapWithSize,
    /// A bitmap's storage type is not an integer type.
    BitmapNotInteger,
    /// A bitmap field is zero bits wide.
    BitmapZeroBits,
    /// The widths of a bitmap's fields do not add up to its storage width.
    BitmapBitSum { total: usize, expected: usize },
    /// A field without a size holds an array.
    SingleValueExpected,
    /// A string is stored in a type other than `u8`.
    StringNeedsU8,
    /// The byte count of an array does not fit the machine.
    ArraySizeOverflow,
    /// An array or string is longer than its declared size.
    ArrayTooLarge,
    /// An array or string is shorter than its strict size.
    ArrayTooSmall,
    /// The element count of a two-dimensional array does not fit the machine.
    TableSizeOverflow,
    /// The byte count of a two-dimensional array does not fit the machine.
    TableByteCountOverflow,
    /// A row of a two-dimensional array has not the declared number of columns.
    ColumnCountMismatch,
    /// A two-dimensional array has more rows than declared.
    TooManyRows,
    /// A two-dimensional array has fewer rows than its strict size.
    TooFewRows,
    /// A two-dimensional array is written in the layout itself.
    LiteralTableUnsupported,
    /// A string stands where a number is needed.
    StringNotScalar,
    /// A number stands where a string is needed.
    StringExpected,
    /// Strict conversion of a NaN or an infinity.
    NonFinite,
    /// Strict conversion of a number with a fractional part to an integer.
    Fractional,
    /// Strict conversion of a number outside the target's range.
    OutOfRange,
    /// Strict conversion of a number that the target floating-point type
    /// cannot hold exactly.
    Inexact,
    /// A one-byte type under word addressing.
    ByteTypeWithWordAddressing,
    /// A NaN or an infinity cannot be exported.
    NonFiniteExport,
    /// An integer outside the range of exported numbers.
    ExportOutOfRange,
    /// A value recorded at an empty path.
    EmptyPath,
    /// A value recorded at a path that already holds one.
    DuplicatePath,
    /// A value recorded below a path that holds a value, not a group.
    PathCollision,
}

/// The field that names a value while no data source is at hand.
#[derive(Debug)]
pub enum MissingData {
    Field(String),
    BitmapField(String),
}

/// Why a block reference could not be used.
#[derive(Debug)]
pub enum BlockArgumentFailure {
    /// The layout file's name is empty.
    EmptyLayoutFile,
    /// The reference, given here, is not of the form `name@file` or `file`.
    Malformed(String),
    /// The block's start address plus the virtual offset leaves the address range.
    StartOverflow,
    /// The block's start plus its length leaves the address range.
    EndOverflow,
}

/// Why a layout could not be built.
#[derive(Debug)]
pub enum LayoutError {
    FileError(String),
    BlockNotFound(String),
    DataValueExportFailed(ExportFailure),
    InvalidBlockArgument(BlockArgumentFailure),
    NoBlocksProvided,
    /// The layout file, named here, defines no block.
    NoBlocksInLayout(String),
    /// A branch of the block named here holds two fields of one name.
    DuplicateFieldName(String),
    MissingDataSheet(MissingData),
    /// The error `source`, met inside the field `field`.
    InField { field: String, source: Box<LayoutError> },
    /// A bitmap field's value does not fit its width, in strict mode.
    BitfieldOutOfRange { value: i128, bits: usize, signed: bool, min: i128, max: i128 },
    /// The data source failed.
    Data(DataError),
}

impl ExportFailure {
    /// The text of the failure.
    pub open spec fn message_text(self) -> Seq<char> {
        match self {
            ExportFailure::SizeKeysConflict => "Use either 'size' or 'SIZE', not both."@,
            ExportFailure::BitmapWithSize => "size/SIZE keys are forbidden with bitmap."@,
            ExportFailure::BitmapNotInteger => "Bitmap requires integer storage type."@,
            ExportFailure::BitmapZeroBits => "Bitmap field bits must be > 0."@,
            ExportFailure::SingleValueExpected => "Single value expected for scalar type."@,
            ExportFailure::StringNeedsU8 => "Strings should have type u8."@,
            ExportFailure::ArraySizeOverflow => "Array size overflow"@,
            ExportFailure::ArrayTooLarge => "Array/string is larger than defined size."@,
            ExportFailure::ArrayTooSmall => "Array/string is smaller than defined size (strict SIZE)."@,
            ExportFailure::TableSizeOverflow => "2D size overflow"@,
            ExportFailure::TableByteCountOverflow => "2D byte count overflow"@,
            ExportFailure::ColumnCountMismatch => "2D array column count mismatch."@,
            ExportFailure::TooManyRows => "2D array row count greater than defined size."@,
            ExportFailure::TooFewRows => "2D array row count smaller than defined size (strict SIZE)."@,
            ExportFailure::LiteralTableUnsupported => "2D arrays within the layout file are not supported."@,
            ExportFailure::StringNotScalar => "Cannot convert string to scalar value."@,
            ExportFailure::StringExpected => "Expected a string value."@,
            ExportFailure::NonFinite => "Non-finite float cannot be converted in strict mode."@,
            ExportFailure::Fractional => "Float to integer conversion is not allowed unless the value is an exact integer."@,
            ExportFailure::OutOfRange => "Value out of range for target type."@,
            ExportFailure::Inexact => "Value cannot be represented exactly in target type."@,
            ExportFailure::ByteTypeWithWordAddressing => "u8/i8 types are not supported with word_addressing"@,
            ExportFailure::NonFiniteExport => "Non-finite float cannot be serialized to JSON."@,
            ExportFailure::ExportOutOfRange => "Value out of range for JSON number."@,
            ExportFailure::EmptyPath => "Cannot record value with empty path."@,
            ExportFailure::DuplicatePath => "Duplicate value path."@,
            ExportFailure::PathCollision => "Path collides with existing value."@,
            ExportFailure::BitmapBitSum { total, expected } => "Bitmap total bits ("@ + decimal_text(
                total as nat,
            ) + ") must equal storage width ("@ + decimal_text(expected as nat) + ")."@,
        }
    }

    /// The text of the failure.
    pub fn message(&self) -> (r: String)
        ensures
            r@ == self.message_text(),
    {
        match self {
            ExportFailure::SizeKeysConflict => String::from_str("Use either 'size' or 'SIZE', not both."),
            ExportFailure::BitmapWithSize => String::from_str("size/SIZE keys are forbidden with bitmap."),
            ExportFailure::BitmapNotInteger => String::from_str("Bitmap requires integer storage type."),
            ExportFailure::BitmapZeroBits => String::from_str("Bitmap field bits must be > 0."),
            ExportFailure::SingleValueExpected => String::from_str("Single value expected for scalar type."),
            ExportFailure::StringNeedsU8 => String::from_str("Strings should have type u8."),
            ExportFailure::ArraySizeOverflow => String::from_str("Array size overflow"),
            ExportFailure::ArrayTooLarge => String::from_str("Array/string is larger than defined size."),
            ExportFailure::ArrayTooSmall => String::from_str("Array/string is smaller than defined size (strict SIZE)."),
            ExportFailure::TableSizeOverflow => String::from_str("2D size overflow"),
            ExportFailure::TableByteCountOverflow => String::from_str("2D byte count overflow"),
            ExportFailure::ColumnCountMismatch => String::from_str("2D array column count mismatch."),
            ExportFailure::TooManyRows => String::from_str("2D array row count greater than defined size."),
            ExportFailure::TooFewRows => String::from_str("2D array row count smaller than defined size (strict SIZE)."),
            ExportFailure::LiteralTableUnsupported => String::from_str("2D arrays within the layout file are not supported."),
            ExportFailure::StringNotScalar => String::from_str("Cannot convert string to scalar value."),
            ExportFailure::StringExpected => String::from_str("Expected a string value."),
            ExportFailure::NonFinite => String::from_str("Non-finite float cannot be converted in strict mode."),
            ExportFailure::Fractional => String::from_str("Float to integer conversion is not allowed unless the value is an exact integer."),
            ExportFailure::OutOfRange => String::from_str("Value out of range for target type."),
            ExportFailure::Inexact => String::from_str("Value cannot be represented exactly in target type."),
            ExportFailure::ByteTypeWithWordAddressing => String::from_str("u8/i8 types are not supported with word_addressing"),
            ExportFailure::NonFiniteExport => String::from_str("Non-finite float cannot be serialized to JSON."),
            ExportFailure::ExportOutOfRange => String::from_str("Value out of range for JSON number."),
            ExportFailure::EmptyPath => String::from_str("Cannot record value with empty path."),
            ExportFailure::DuplicatePath => String::from_str("Duplicate value path."),
            ExportFailure::PathCollision => String::from_str("Path collides with existing value."),
            ExportFailure::BitmapBitSum { total, expected } => {
                let mut out = String::from_str("Bitmap total bits (");
                push_decimal(&mut out, *total as u128);
                out.append(") must equal storage width (");
                push_decimal(&mut out, *expected as u128);
                out.append(").");
                out
            },
        }
    }
}

impl MissingData {
    /// The text of the failure.
    pub open spec fn message_text(self) -> Seq<char> {
        match self {
            MissingData::Field(name) => "Field '"@ + name@
                + "' requires a value from a data source, but none was provided."@,
            MissingData::BitmapField(name) => "Bitmap field '"@ + name@
                + "' requires a value from a data source, but none was provided."@,
        }
    }

    /// The text of the failure.
    pub fn message(&self) -> (r: String)
        ensures
            r@ == self.message_text(),
    {
        match self {
            MissingData::Field(name) => {
                let mut out = String::from_str("Field '");
                out.append(name.as_str());
                out.append("' requires a value from a data source, but none was provided.");
                out
            },
            MissingData::BitmapField(name) => {
                let mut out = String::from_str("Bitmap field '");
                out.append(name.as_str());
                out.append("' requires a value from a data source, but none was provided.");
                out
            },
        }
    }
}

impl BlockArgumentFailure {
    /// The text of the failure.
    pub open spec fn message_text(self) -> Seq<char> {
        match self {
            BlockArgumentFailure::EmptyLayoutFile => "Layout file must not be empty"@,
            BlockArgumentFailure::Malformed(input) => "Failed to unpack block "@ + input@,
            BlockArgumentFailure::StartOverflow => "start_address + virtual_offset overflow"@,
            BlockArgumentFailure::EndOverflow => "start + length overflow"@,
        }
    }

    /// The text of the failure.
    pub fn message(&self) -> (r: String)
        ensures
            r@ == self.message_text(),
    {
        match self {
            BlockArgumentFailure::EmptyLayoutFile => String::from_str(
                "Layout file must not be empty",
            ),
            BlockArgumentFailure::Malformed(input) => {
                let mut out = String::from_str("Failed to unpack block ");
                out.append(input.as_str());
                out
            },
            BlockArgumentFailure::StartOverflow => String::from_str(
                "start_address + virtual_offset overflow",
            ),
            BlockArgumentFailure::EndOverflow => String::from_str("start + length overflow"),
        }
    }
}

/// `signed` or `unsigned`.
pub open spec fn signedness_text(signed: bool) -> Seq<char> {
    if signed {
        "signed"@
    } else {
        "unsigned"@
    }
}

impl LayoutError {
    /// The text of the error. An error inside a field is preceded by the
    /// field's name, so that nested fields spell the path to the fault.
    pub open spec fn message_text(self) -> Seq<char>
        decreases self,
    {
        match self {
            LayoutError::FileError(text) => "File error: "@ + text@ + "."@,
            LayoutError::BlockNotFound(text) => "Block not found: "@ + text@ + "."@,
            LayoutError::DataValueExportFailed(failure) => "Data value export failed: "@
                + failure.message_text() + "."@,
            LayoutError::InvalidBlockArgument(failure) => "Invalid block argument: "@
                + failure.message_text() + "."@,
            LayoutError::NoBlocksProvided => "No blocks provided."@,
            LayoutError::NoBlocksInLayout(file) => "No blocks defined in layout '"@ + file@ + "'."@,
            LayoutError::DuplicateFieldName(block) => "Duplicate field name in block '"@ + block@
                + "'."@,
            LayoutError::MissingDataSheet(missing) => "Missing datasheet: "@
                + missing.message_text(),
            LayoutError::InField { field, source } => "In field '"@ + field@ + "': "@
                + source.message_text(),
            LayoutError::BitfieldOutOfRange { value, bits, signed, min, max } => "bitfield value "@
                + signed_text(value as int) + " out of range for "@ + decimal_text(bits as nat)
                + "-bit "@ + signedness_text(signed) + " field ("@ + signed_text(min as int) + "..="@
                + signed_text(max as int) + ")"@,
            LayoutError::Data(e) => e.message_text(),
        }
    }

    /// The text of the error.
    pub fn message(&self) -> (r: String)
        ensures
            r@ == self.message_text(),
        decreases self,
    {
        match self {
            LayoutError::FileError(text) => {
                let mut out = String::from_str("File error: ");
                out.append(text.as_str());
                out.append(".");
                out
            },
            LayoutError::BlockNotFound(text) => {
                let mut out = String::from_str("Block not found: ");
                out.append(text.as_str());
                out.append(".");
                out
            },
            LayoutError::DataValueExportFailed(failure) => {
                let mut out = String::from_str("Data value export failed: ");
                let inner = failure.message();
                out.append(inner.as_str());
                out.append(".");
                out
            },
            LayoutError::InvalidBlockArgument(failure) => {
                let mut out = String::from_str("Invalid block argument: ");
                let inner = failure.message();
                out.append(inner.as_str());
                out.append(".");
                out
            },
            LayoutError::NoBlocksProvided => String::from_str("No blocks provided."),
            LayoutError::NoBlocksInLayout(file) => {
                let mut out = String::from_str("No blocks defined in layout '");
                out.append(file.as_str());
                out.append("'.");
                out
            },
            LayoutError::DuplicateFieldName(block) => {
                let mut out = String::from_str("Duplicate field name in block '");
                out.append(block.as_str());
                out.append("'.");
                out
            },
            LayoutError::MissingDataSheet(missing) => {
                let mut out = String::from_str("Missing datasheet: ");
                let inner = missing.message();
                out.append(inner.as_str());
                out
            },
            LayoutError::InField { field, source } => {
                let mut out = String::from_str("In field '");
                out.append(field.as_str());
                out.append("': ");
                let inner = source.message();
                out.append(inner.as_str());
                out
            },
            LayoutError::BitfieldOutOfRange { value, bits, signed, min, max } => {
                let mut out = String::from_str("bitfield value ");
                push_signed(&mut out, *value);
                out.append(" out of range for ");
                push_decimal(&mut out, *bits as u128);
                out.append("-bit ");
                out.append(
                    if *signed {
                        "signed"
                    } else {
                        "unsigned"
                    },
                );
                out.append(" field (");
                push_signed(&mut out, *min);
                out.append("..=");
                push_signed(&mut out, *max);
                out.append(")");
                out
            },
            LayoutError::Data(e) => e.message(),
        }
    }
}

} // verus!
