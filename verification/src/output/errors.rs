use vstd::prelude::*;
use vstd::string::StringExecFns;
use crate::layout::text::{decimal_text, hex_text, push_decimal, push_hex};

verus! {

/// Why a block could not be assembled or encoded.
#[derive(Debug)]
pub enum HexFailure {
    /// The bytes are longer than the block.
    LengthExceeded,
    /// The CRC address lies before the block's start.
    CrcBeforeStart,
    /// The CRC would lie inside the payload.
    CrcOverlapsPayload,
    /// The CRC location is a keyword that is not known; it is given here.
    InvalidCrcLocation(String),
    /// The CRC location is an address taken from the layout's settings,
    /// where only a keyword may stand.
    AddressInSettings,
    /// The CRC would not end inside the block.
    CrcOverrun,
    /// A CRC location is set, but not every CRC parameter.
    MissingCrcSettings,
    /// An address or a size leaves the range of 32 bits.
    AddressOverflow,
    /// The record width is not between 1 and 128.
    RecordWidth,
    /// The encoder refused a range of bytes; its message is given here.
    AddBytes(String),
    /// The encoder could not write Intel HEX; its message is given here.
    IntelHex(String),
    /// The encoder could not write S-records; its message is given here.
    SRecord(String),
}

/// Two blocks whose address spans intersect, and the intersection. Every
/// span runs from its start up to, not including, its end.
#[derive(Debug)]
pub struct Overlap {
    pub first: String,
    pub first_start: u32,
    pub first_end: u32,
    pub second: String,
    pub second_start: u32,
    pub second_end: u32,
    pub start: u32,
    pub end: u32,
}

/// Why output could not be produced.
#[derive(Debug)]
pub enum OutputError {
    HexOutputError(HexFailure),
    /// Blocks of one output intersect: every pair that does, in the order
    /// of the blocks.
    BlockOverlapError(Vec<Overlap>),
    FileError(String),
}

/// The last address of a span that ends before `end`; zero for a span that
/// ends at zero.
pub open spec fn last_address(end: u32) -> u32 {
    if end == 0 {
        0
    } else {
        (end - 1) as u32
    }
}

/// The numeral of an address: `0x` and eight hexadecimal digits.
pub open spec fn address_text(address: u32) -> Seq<char> {
    "0x"@ + hex_text(address as nat, 8)
}

fn push_address(out: &mut String, address: u32)
    ensures
        final(out)@ == old(out)@ + address_text(address),
{
    out.append("0x");
    push_hex(out, address, 8);
    proof {
        assert(old(out)@ + "0x"@ + hex_text(address as nat, 8) =~= old(out)@ + address_text(
            address,
        ));
    }
}

fn last_of(end: u32) -> (r: u32)
    ensures
        r == last_address(end),
{
    if end == 0 {
        0
    } else {
        end - 1
    }
}

impl HexFailure {
    /// The text of the failure.
    pub open spec fn message_text(self) -> Seq<char> {
        match self {
            HexFailure::LengthExceeded => "Bytestream length exceeds block length."@,
            HexFailure::CrcBeforeStart => "CRC address before block start."@,
            HexFailure::CrcOverlapsPayload => "CRC overlaps with payload."@,
            HexFailure::InvalidCrcLocation(word) => "Invalid CRC location: "@ + word@,
            HexFailure::AddressInSettings => "CRC location in settings must be a keyword, not an address."@,
            HexFailure::CrcOverrun => "CRC location would overrun block."@,
            HexFailure::MissingCrcSettings => "CRC location specified but missing CRC settings (no [settings.crc] or header overrides)."@,
            HexFailure::AddressOverflow => "Address out of range."@,
            HexFailure::RecordWidth => "Record width must be between 1 and 128"@,
            HexFailure::AddBytes(text) => "Failed to add bytes: "@ + text@,
            HexFailure::IntelHex(text) => "Failed to generate Intel HEX: "@ + text@,
            HexFailure::SRecord(text) => "Failed to generate S-Record: "@ + text@,
        }
    }

    /// The text of the failure.
    pub fn message(&self) -> (r: String)
        ensures
            r@ == self.message_text(),
    {
        match self {
            HexFailure::LengthExceeded => String::from_str("Bytestream length exceeds block length."),
            HexFailure::CrcBeforeStart => String::from_str("CRC address before block start."),
            HexFailure::CrcOverlapsPayload => String::from_str("CRC overlaps with payload."),
            HexFailure::InvalidCrcLocation(word) => {
                let mut out = String::from_str("Invalid CRC location: ");
                out.append(word.as_str());
                out
            },
            HexFailure::AddressInSettings => String::from_str(
                "CRC location in settings must be a keyword, not an address.",
            ),
            HexFailure::CrcOverrun => String::from_str("CRC location would overrun block."),
            HexFailure::MissingCrcSettings => String::from_str(
                "CRC location specified but missing CRC settings (no [settings.crc] or header overrides).",
            ),
            HexFailure::AddressOverflow => String::from_str("Address out of range."),
            HexFailure::RecordWidth => String::from_str("Record width must be between 1 and 128"),
            HexFailure::AddBytes(text) => {
                let mut out = String::from_str("Failed to add bytes: ");
                out.append(text.as_str());
                out
            },
            HexFailure::IntelHex(text) => {
                let mut out = String::from_str("Failed to generate Intel HEX: ");
                out.append(text.as_str());
                out
            },
            HexFailure::SRecord(text) => {
                let mut out = String::from_str("Failed to generate S-Record: ");
                out.append(text.as_str());
                out
            },
        }
    }
}

impl Overlap {
    /// The text of the overlap: both blocks with their first and last
    /// address, then the first and last address they share and the number
    /// of bytes between them.
    pub open spec fn message_text(self) -> Seq<char> {
        "Block '"@ + self.first@ + "' ("@ + address_text(self.first_start) + "-"@ + address_text(
            last_address(self.first_end),
        ) + ") overlaps with block '"@ + self.second@ + "' ("@ + address_text(self.second_start)
            + "-"@ + address_text(last_address(self.second_end)) + "). Overlap: "@ + address_text(
            self.start,
        ) + "-"@ + address_text(last_address(self.end)) + " ("@ + decimal_text(
            if self.end >= self.start {
                (self.end - self.start) as nat
            } else {
                0
            },
        ) + " bytes)"@
    }

    /// The text of the overlap.
    pub fn message(&self) -> (r: String)
        ensures
            r@ == self.message_text(),
    {
        let mut out = String::from_str("Block '");
        out.append(self.first.as_str());
        out.append("' (");
        push_address(&mut out, self.first_start);
        out.append("-");
        push_address(&mut out, last_of(self.first_end));
        out.append(") overlaps with block '");
        out.append(self.second.as_str());
        out.append("' (");
        push_address(&mut out, self.second_start);
        out.append("-");
        push_address(&mut out, last_of(self.second_end));
        out.append("). Overlap: ");
        push_address(&mut out, self.start);
        out.append("-");
        push_address(&mut out, last_of(self.end));
        out.append(" (");
        let size: u32 = if self.end >= self.start {
            self.end - self.start
        } else {
            0
        };
        push_decimal(&mut out, size as u128);
        out.append(" bytes)");
        out
    }
}

/// The texts of the first `count` overlaps, with `; ` between them.
pub open spec fn overlaps_text(overlaps: Seq<Overlap>, count: nat) -> Seq<char>
    decreases count,
{
    if count == 0 || count > overlaps.len() {
        Seq::empty()
    } else if count == 1 {
        overlaps[0].message_text()
    } else {
        overlaps_text(overlaps, (count - 1) as nat) + "; "@ + overlaps[count - 1].message_text()
    }
}

/// The texts of the overlaps, with `; ` between them.
pub fn overlaps_message(overlaps: &Vec<Overlap>) -> (r: String)
    ensures
        r@ == overlaps_text(overlaps@, overlaps@.len()),
{
    let mut out = String::from_str("");
    let mut i: usize = 0;
    proof {
        reveal_strlit("");
        assert(out@ =~= overlaps_text(overlaps@, 0));
    }
    while i < overlaps.len()
        invariant
            i <= overlaps.len(),
            out@ == overlaps_text(overlaps@, i as nat),
        decreases overlaps.len() - i,
    {
        let ghost before = out@;
        if i > 0 {
            out.append("; ");
        }
        let inner = overlaps[i].message();
        out.append(inner.as_str());
        proof {
            if i == 0 {
                assert(before + overlaps@[0].message_text() =~= overlaps@[0].message_text());
            }
        }
        i = i + 1;
    }
    out
}

impl OutputError {
    /// The text of the error. Overlaps are listed one after the other.
    pub open spec fn message_text(self) -> Seq<char> {
        match self {
            OutputError::HexOutputError(failure) => "Hex output error: "@ + failure.message_text()
                + "."@,
            OutputError::BlockOverlapError(overlaps) => "Block overlap detected: "@
                + overlaps_text(overlaps@, overlaps@.len()),
            OutputError::FileError(text) => "File error: "@ + text@ + "."@,
        }
    }

    /// The text of the error.
    pub fn message(&self) -> (r: String)
        ensures
            r@ == self.message_text(),
    {
        match self {
            OutputError::HexOutputError(failure) => {
                let mut out = String::from_str("Hex output error: ");
                let inner = failure.message();
                out.append(inner.as_str());
                out.append(".");
                out
            },
            OutputError::BlockOverlapError(overlaps) => {
                let mut out = String::from_str("Block overlap detected: ");
                let inner = overlaps_message(overlaps);
                out.append(inner.as_str());
                out
            },
            OutputError::FileError(text) => {
                let mut out = String::from_str("File error: ");
                out.append(text.as_str());
                out.append(".");
                out
            },
        }
    }
}

} // verus!
