//! Address-tagged block images and the checksum placed in them.

pub mod args;
pub mod checksum;
pub mod encoder;
pub mod errors;

use vstd::prelude::*;
use vstd::string::StringExecFns;
use crate::layout::entry::{pad_to, padding_run};
use crate::layout::header::Header;
use crate::layout::text::is_word;
use crate::layout::settings::{
    encode_pattern, endian_bytes, CrcArea, CrcConfig, CrcLocation, Settings,
};
use args::OutputFormat;
use checksum::{calculate_crc, crc32_with};
use encoder::{
    add_part, added_run, address_limit, encoder_error_text, image_content, image_is_bare,
    intel_hex_lines,
    intel_hex_records, line_texts, new_image, s_record_lines, s_records, workable, HexAddressing,
    ImageContent, RecordAddressing,
};
use errors::{HexFailure, OutputError};

verus! {

/// A finished block: its bytes with the address they start at, the CRC with
/// the address it is placed at, and how much of the block is used.
///
/// A block without CRC has no CRC bytes and the CRC address zero.
#[derive(Debug)]
pub struct DataRange {
    pub start_address: u32,
    pub bytestream: Vec<u8>,
    pub crc_address: u32,
    pub crc_bytestream: Vec<u8>,
    pub used_size: u32,
    pub allocated_size: u32,
}

/// The mathematical content of a `DataRange`.
pub struct DataRangeView {
    pub start_address: u32,
    pub bytestream: Seq<u8>,
    pub crc_address: u32,
    pub crc_bytestream: Seq<u8>,
    pub used_size: u32,
    pub allocated_size: u32,
}

impl View for DataRange {
    type V = DataRangeView;

    open spec fn view(&self) -> DataRangeView {
        DataRangeView {
            start_address: self.start_address,
            bytestream: self.bytestream@,
            crc_address: self.crc_address,
            crc_bytestream: self.crc_bytestream@,
            used_size: self.used_size,
            allocated_size: self.allocated_size,
        }
    }
}

impl Clone for DataRange {
    fn clone(&self) -> (r: Self)
        ensures
            r@ == self@,
    {
        DataRange {
            start_address: self.start_address,
            bytestream: self.bytestream.clone(),
            crc_address: self.crc_address,
            crc_bytestream: self.crc_bytestream.clone(),
            used_size: self.used_size,
            allocated_size: self.allocated_size,
        }
    }
}

/// `bytes` with the two bytes of every pair exchanged. A last byte without
/// partner stays.
pub open spec fn swap_pairs(bytes: Seq<u8>) -> Seq<u8> {
    Seq::new(
        bytes.len(),
        |i: int|
            if i % 2 == 1 {
                bytes[i - 1]
            } else if i + 1 < bytes.len() {
                bytes[i + 1]
            } else {
                bytes[i]
            },
    )
}

/// `bytes` filled with padding up to `total` bytes; unchanged where they
/// are that long already.
pub open spec fn padded_to(bytes: Seq<u8>, total: nat, padding: u8) -> Seq<u8> {
    bytes + padding_run(
        if total > bytes.len() {
            (total - bytes.len()) as nat
        } else {
            0
        },
        padding,
    )
}

/// `bytes` with the four bytes from `offset` on set to zero.
pub open spec fn zeroed_at(bytes: Seq<u8>, offset: nat) -> Seq<u8> {
    Seq::new(
        bytes.len(),
        |i: int|
            if offset <= i < offset + 4 {
                0u8
            } else {
                bytes[i]
            },
    )
}

/// Swaps every pair of adjacent bytes.
pub fn byte_swap_inplace(bytes: &mut Vec<u8>)
    ensures
        final(bytes)@ == swap_pairs(old(bytes)@),
{
    let mut i: usize = 0;
    let length = bytes.len();
    while i + 1 < length
        invariant
            length == bytes@.len(),
            bytes@.len() == old(bytes)@.len(),
            i % 2 == 0,
            i <= length,
            forall|k: int| 0 <= k < i ==> bytes@[k] == swap_pairs(old(bytes)@)[k],
            forall|k: int| i <= k < length ==> bytes@[k] == old(bytes)@[k],
        decreases length - i,
    {
        let low = bytes[i];
        let high = bytes[i + 1];
        bytes.set(i, high);
        bytes.set(i + 1, low);
        i = i + 2;
    }
    proof {
        assert(bytes@ =~= swap_pairs(old(bytes)@));
    }
}

/// The address that a block address stands for: doubled under word
/// addressing, and then moved by the virtual offset.
pub open spec fn output_address(address: nat, settings: Settings) -> nat {
    (if settings.word_addressing {
        2 * address
    } else {
        address
    }) + settings.virtual_offset as nat
}

/// The least multiple of four that is not below `length`.
pub open spec fn round_up_to_four(length: nat) -> nat {
    ((length + 3) / 4 * 4) as nat
}

/// What is checked of every CRC offset: the CRC lies behind the payload,
/// ends inside the block, and every parameter is set.
pub open spec fn checked_offset(offset: nat, length: nat, header: Header, merged: CrcConfig) -> Result<
    Option<(u32, CrcConfig)>,
    OutputError,
> {
    if offset < length {
        Err(OutputError::HexOutputError(HexFailure::CrcOverlapsPayload))
    } else if offset + 4 > header.length {
        Err(OutputError::HexOutputError(HexFailure::CrcOverrun))
    } else if !merged.spec_is_complete() {
        Err(OutputError::HexOutputError(HexFailure::MissingCrcSettings))
    } else {
        Ok(Some((offset as u32, merged)))
    }
}

/// The offset of the CRC in a block whose payload is `length` bytes long,
/// with the CRC parameters in force; `None` where the block has no CRC.
///
/// Without a location, or with the keyword `none`, there is no CRC. The
/// keyword `end_data`, or `end`, places it at the next multiple of four
/// behind the payload, `end_block` in the last four bytes of the block, and
/// an address at that address, which only a header may give.
pub open spec fn spec_resolve_crc(length: nat, header: Header, settings: Settings) -> Result<
    Option<(u32, CrcConfig)>,
    OutputError,
> {
    let merged = header.spec_effective_crc(settings);
    match merged.location {
        None => Ok(None),
        Some(CrcLocation::Keyword(word)) => if word@ == "none"@ {
            Ok(None)
        } else if word@ == "end_data"@ || word@ == "end"@ {
            checked_offset(round_up_to_four(length), length, header, merged)
        } else if word@ == "end_block"@ {
            if header.length < 4 {
                Err(OutputError::HexOutputError(HexFailure::CrcOverrun))
            } else {
                checked_offset((header.length - 4) as nat, length, header, merged)
            }
        } else {
            Err(OutputError::HexOutputError(HexFailure::InvalidCrcLocation(word)))
        },
        Some(CrcLocation::Address(address)) => if !(header.crc matches Some(own)
            && own.location matches Some(CrcLocation::Address(_))) {
            Err(OutputError::HexOutputError(HexFailure::AddressInSettings))
        } else if address < header.start_address {
            Err(OutputError::HexOutputError(HexFailure::CrcBeforeStart))
        } else {
            checked_offset((address - header.start_address) as nat, length, header, merged)
        },
    }
}

fn check_offset(offset: u64, length: usize, header: &Header, merged: CrcConfig) -> (r: Result<
    Option<(u32, CrcConfig)>,
    OutputError,
>)
    ensures
        r == checked_offset(offset as nat, length as nat, *header, merged),
{
    if offset < length as u64 {
        Err(OutputError::HexOutputError(HexFailure::CrcOverlapsPayload))
    } else if offset > 0xFFFF_FFFF || offset + 4 > header.length as u64 {
        Err(OutputError::HexOutputError(HexFailure::CrcOverrun))
    } else if !merged.is_complete() {
        Err(OutputError::HexOutputError(HexFailure::MissingCrcSettings))
    } else {
        Ok(Some((offset as u32, merged)))
    }
}

/// Returns the CRC offset and the CRC parameters if the block has a CRC,
/// `None` otherwise: see `spec_resolve_crc`.
#[verifier::rlimit(40)]
pub fn resolve_crc(length: usize, header: &Header, settings: &Settings) -> (r: Result<
    Option<(u32, CrcConfig)>,
    OutputError,
>)
    ensures
        r == spec_resolve_crc(length as nat, *header, *settings),
{
    let merged = header.effective_crc(settings);
    let from_header = match &header.crc {
        Some(own) => matches!(&own.location, Some(CrcLocation::Address(_))),
        None => false,
    };
    match &merged.location {
        None => Ok(None),
        Some(CrcLocation::Keyword(word)) => {
            if is_word(word, "none") {
                Ok(None)
            } else if is_word(word, "end_data") || is_word(word, "end") {
                if length as u64 > 0xFFFF_FFFF_FFFF_FFF0 {
                    assert(round_up_to_four(length as nat) >= length);
                    Err(OutputError::HexOutputError(HexFailure::CrcOverrun))
                } else {
                    let offset: u64 = (length as u64 + 3) / 4 * 4;
                    check_offset(offset, length, header, merged)
                }
            } else if is_word(word, "end_block") {
                if header.length < 4 {
                    Err(OutputError::HexOutputError(HexFailure::CrcOverrun))
                } else {
                    check_offset((header.length - 4) as u64, length, header, merged)
                }
            } else {
                Err(OutputError::HexOutputError(HexFailure::InvalidCrcLocation(word.clone())))
            }
        },
        Some(CrcLocation::Address(address)) => {
            if !from_header {
                Err(OutputError::HexOutputError(HexFailure::AddressInSettings))
            } else if *address < header.start_address {
                Err(OutputError::HexOutputError(HexFailure::CrcBeforeStart))
            } else {
                check_offset((*address - header.start_address) as u64, length, header, merged)
            }
        },
    }
}

/// True where pairs of bytes are swapped: under byte swap and under word
/// addressing.
pub open spec fn swaps_bytes(settings: Settings) -> bool {
    settings.byte_swap || settings.word_addressing
}

/// The payload as the CRC sees it: under byte swap, padded to an even
/// length and swapped pair by pair.
pub open spec fn prepared_stream(bytes: Seq<u8>, header: Header, settings: Settings) -> Seq<u8> {
    if swaps_bytes(settings) {
        swap_pairs(
            if bytes.len() % 2 == 1 {
                bytes.push(header.padding)
            } else {
                bytes
            },
        )
    } else {
        bytes
    }
}

/// The block's bytes once the CRC's area is laid out: padded to the CRC
/// offset where the CRC covers the data, and to the block's length where it
/// covers the block, with the four CRC bytes set to zero where the area
/// says so.
pub open spec fn laid_out(stream: Seq<u8>, offset: nat, header: Header, area: CrcArea) -> Seq<u8> {
    match area {
        CrcArea::Data => padded_to(stream, offset, header.padding),
        CrcArea::BlockZeroCrc => zeroed_at(
            padded_to(stream, header.length as nat, header.padding),
            offset,
        ),
        _ => padded_to(stream, header.length as nat, header.padding),
    }
}

/// The bytes that the CRC is computed over: all that is laid out, but for
/// the four CRC bytes where the area leaves them out.
pub open spec fn crc_coverage(stream: Seq<u8>, offset: nat, header: Header, area: CrcArea) -> Seq<u8> {
    let body = laid_out(stream, offset, header, area);
    match area {
        CrcArea::BlockOmitCrc => body.take(offset as int) + body.skip(offset as int + 4),
        _ => body,
    }
}

/// The four CRC areas cover different bytes.
///
/// For a payload that ends at or before the CRC, with bytes of the block
/// left behind the CRC and a padding byte other than zero, the bytes that
/// the CRC is computed over differ between any two of the four areas.
pub proof fn lemma_areas_cover_different_bytes(stream: Seq<u8>, offset: nat, header: Header)
    requires
        stream.len() <= offset,
        offset + 4 < header.length,
        header.padding != 0,
    ensures
        ({
            let data = crc_coverage(stream, offset, header, CrcArea::Data);
            let zero = crc_coverage(stream, offset, header, CrcArea::BlockZeroCrc);
            let pad = crc_coverage(stream, offset, header, CrcArea::BlockPadCrc);
            let omit = crc_coverage(stream, offset, header, CrcArea::BlockOmitCrc);
            &&& data != zero
            &&& data != pad
            &&& data != omit
            &&& zero != pad
            &&& zero != omit
            &&& pad != omit
        }),
{
    let data = crc_coverage(stream, offset, header, CrcArea::Data);
    let zero = crc_coverage(stream, offset, header, CrcArea::BlockZeroCrc);
    let pad = crc_coverage(stream, offset, header, CrcArea::BlockPadCrc);
    let omit = crc_coverage(stream, offset, header, CrcArea::BlockOmitCrc);
    assert(data.len() == offset);
    assert(zero.len() == header.length);
    assert(pad.len() == header.length);
    assert(omit.len() == header.length - 4);
    assert(zero[offset as int] == 0);
    assert(pad[offset as int] == header.padding);
}

/// `value` held to the range of `u32`.
pub open spec fn clip_u32(value: int) -> u32 {
    if value < 0 {
        0
    } else if value > u32::MAX {
        u32::MAX
    } else {
        value as u32
    }
}

/// The finished block for the built bytes `bytes`, of which
/// `padding_bytes` are alignment padding.
///
/// Bytes longer than the block are refused. The payload is prepared, the
/// CRC location resolved, and the addresses formed; an address or size
/// beyond 32 bits is refused. The used size is the payload's length less
/// the alignment padding, and four more with a CRC; the allocated size is
/// the block's length, doubled under word addressing. Without a CRC the
/// payload is the result, padded to the block's end where the settings say
/// so. With one, the bytes are laid out for its area, the CRC computed over
/// its coverage and written in the layout's byte order, swapped like the
/// payload, for the address of its offset.
#[verifier::opaque]
pub open spec fn spec_assemble(bytes: Seq<u8>, header: Header, settings: Settings, padding_bytes: u32) -> Result<
    DataRangeView,
    OutputError,
> {
    let stream = prepared_stream(bytes, header, settings);
    let start = output_address(header.start_address as nat, settings);
    let allocated = if settings.word_addressing {
        2 * header.length
    } else {
        header.length as int
    };
    let used = clip_u32(stream.len() - padding_bytes);
    if bytes.len() > header.length {
        Err(OutputError::HexOutputError(HexFailure::LengthExceeded))
    } else {
        match spec_resolve_crc(stream.len(), header, settings) {
            Err(e) => Err(e),
            Ok(found) => if start > u32::MAX || allocated > u32::MAX {
                Err(OutputError::HexOutputError(HexFailure::AddressOverflow))
            } else {
                match found {
                    None => Ok(
                        DataRangeView {
                            start_address: start as u32,
                            bytestream: if settings.pad_to_end {
                                padded_to(stream, header.length as nat, header.padding)
                            } else {
                                stream
                            },
                            crc_address: 0,
                            crc_bytestream: Seq::empty(),
                            used_size: used,
                            allocated_size: allocated as u32,
                        },
                    ),
                    Some((offset, config)) => {
                        let area = config.area->Some_0;
                        let body = laid_out(stream, offset as nat, header, area);
                        let value = crc32_with(
                            crc_coverage(stream, offset as nat, header, area),
                            config,
                        );
                        let written = endian_bytes(value as nat, 4, settings.endianness);
                        let crc_address = output_address(
                            header.start_address as nat + offset as nat,
                            settings,
                        );
                        if crc_address > u32::MAX {
                            Err(OutputError::HexOutputError(HexFailure::AddressOverflow))
                        } else {
                            Ok(
                                DataRangeView {
                                    start_address: start as u32,
                                    bytestream: if settings.pad_to_end {
                                        padded_to(body, header.length as nat, header.padding)
                                    } else {
                                        body
                                    },
                                    crc_address: crc_address as u32,
                                    crc_bytestream: if swaps_bytes(settings) {
                                        swap_pairs(written)
                                    } else {
                                        written
                                    },
                                    used_size: clip_u32(used + 4),
                                    allocated_size: allocated as u32,
                                },
                            )
                        }
                    },
                }
            },
        }
    }
}

/// The address that a block address stands for: see `output_address`.
fn address_of(address: u64, settings: &Settings) -> (r: u64)
    requires
        address <= 0x1_FFFF_FFFF,
    ensures
        r == output_address(address as nat, *settings),
{
    let base = if settings.word_addressing {
        2 * address
    } else {
        address
    };
    base + settings.virtual_offset as u64
}

/// Sets the four bytes from `offset` on to zero.
fn zero_crc_bytes(bytes: &mut Vec<u8>, offset: usize)
    requires
        offset + 4 <= old(bytes)@.len(),
    ensures
        final(bytes)@ == zeroed_at(old(bytes)@, offset as nat),
{
    let mut i: usize = 0;
    let length = bytes.len();
    while i < 4
        invariant
            i <= 4,
            bytes@.len() == old(bytes)@.len(),
            length == bytes@.len(),
            offset + 4 <= bytes@.len(),
            forall|k: int|
                0 <= k < bytes@.len() ==> bytes@[k] == (if offset <= k < offset + i {
                    0u8
                } else {
                    old(bytes)@[k]
                }),
        decreases 4 - i,
    {
        bytes.set(offset + i, 0);
        i = i + 1;
    }
    proof {
        assert(bytes@ =~= zeroed_at(old(bytes)@, offset as nat));
    }
}

/// The bytes before and behind the four bytes at `offset`.
fn without_crc_bytes(bytes: &Vec<u8>, offset: usize) -> (r: Vec<u8>)
    requires
        offset + 4 <= bytes@.len(),
    ensures
        r@ == bytes@.take(offset as int) + bytes@.skip(offset + 4),
{
    let mut out: Vec<u8> = Vec::new();
    let mut i: usize = 0;
    while i < bytes.len()
        invariant
            i <= bytes@.len(),
            offset + 4 <= bytes@.len(),
            out@ == (if i <= offset {
                bytes@.take(i as int)
            } else if i <= offset + 4 {
                bytes@.take(offset as int)
            } else {
                bytes@.take(offset as int) + bytes@.subrange(offset + 4, i as int)
            }),
        decreases bytes.len() - i,
    {
        let ghost before = out@;
        if i < offset || i >= offset + 4 {
            out.push(bytes[i]);
        }
        proof {
            if i < offset {
                assert(out@ =~= bytes@.take(i + 1));
            } else if i >= offset + 4 {
                assert(out@ =~= bytes@.take(offset as int) + bytes@.subrange(
                    offset + 4,
                    i + 1,
                ));
            }
        }
        i = i + 1;
    }
    proof {
        assert(bytes@.subrange(offset + 4, bytes@.len() as int) =~= bytes@.skip(offset + 4));
        assert(out@ =~= bytes@.take(offset as int) + bytes@.skip(offset + 4));
    }
    out
}

/// Turns the built bytes of a block into the finished block: see
/// `spec_assemble`.
#[verifier::rlimit(40)]
pub fn bytestream_to_datarange(
    bytestream: Vec<u8>,
    header: &Header,
    settings: &Settings,
    padding_bytes: u32,
) -> (r: Result<DataRange, OutputError>)
    ensures
        match r {
            Ok(range) => spec_assemble(bytestream@, *header, *settings, padding_bytes) == Ok::<
                DataRangeView,
                OutputError,
            >(range@),
            Err(e) => spec_assemble(bytestream@, *header, *settings, padding_bytes) == Err::<
                DataRangeView,
                OutputError,
            >(e),
        },
{
    reveal(spec_assemble);
    let ghost built = bytestream@;
    let mut bytestream = bytestream;
    if bytestream.len() > header.length as usize {
        return Err(OutputError::HexOutputError(HexFailure::LengthExceeded));
    }
    let swap = settings.byte_swap || settings.word_addressing;
    if swap {
        if bytestream.len() % 2 == 1 {
            bytestream.push(header.padding);
        }
        byte_swap_inplace(&mut bytestream);
    }
    let ghost stream = bytestream@;
    assert(stream == prepared_stream(built, *header, *settings)) by {
        assert(bytestream@ =~= prepared_stream(built, *header, *settings));
    }
    let found = match resolve_crc(bytestream.len(), header, settings) {
        Ok(f) => f,
        Err(e) => {
            return Err(e);
        },
    };
    let start = address_of(header.start_address as u64, settings);
    let allocated: u64 = if settings.word_addressing {
        2 * (header.length as u64)
    } else {
        header.length as u64
    };
    if start > 0xFFFF_FFFF || allocated > 0xFFFF_FFFF {
        return Err(OutputError::HexOutputError(HexFailure::AddressOverflow));
    }
    let length = bytestream.len() as u64;
    let used: u32 = if length <= padding_bytes as u64 {
        0
    } else if length - padding_bytes as u64 > 0xFFFF_FFFF {
        0xFFFF_FFFF
    } else {
        (length - padding_bytes as u64) as u32
    };
    let (offset, config) = match found {
        Some(pair) => pair,
        None => {
            if settings.pad_to_end {
                pad_to(&mut bytestream, header.length as usize, header.padding);
            }
            return Ok(
                DataRange {
                    start_address: start as u32,
                    bytestream,
                    crc_address: 0,
                    crc_bytestream: Vec::new(),
                    used_size: used,
                    allocated_size: allocated as u32,
                },
            );
        },
    };
    let crc_address = address_of(header.start_address as u64 + offset as u64, settings);
    if crc_address > 0xFFFF_FFFF {
        return Err(OutputError::HexOutputError(HexFailure::AddressOverflow));
    }
    let area = config.area.unwrap();
    match area {
        CrcArea::Data => {
            pad_to(&mut bytestream, offset as usize, header.padding);
        },
        _ => {
            pad_to(&mut bytestream, header.length as usize, header.padding);
        },
    }
    if let CrcArea::BlockZeroCrc = area {
        zero_crc_bytes(&mut bytestream, offset as usize);
    }
    assert(bytestream@ == laid_out(stream, offset as nat, *header, area));
    let value = if let CrcArea::BlockOmitCrc = area {
        let covered = without_crc_bytes(&bytestream, offset as usize);
        calculate_crc(covered.as_slice(), &config)
    } else {
        calculate_crc(bytestream.as_slice(), &config)
    };
    let mut crc_bytes = encode_pattern(value as u64, 4, settings.endianness);
    if swap {
        byte_swap_inplace(&mut crc_bytes);
    }
    if settings.pad_to_end {
        pad_to(&mut bytestream, header.length as usize, header.padding);
    }
    Ok(
        DataRange {
            start_address: start as u32,
            bytestream,
            crc_address: crc_address as u32,
            crc_bytestream: crc_bytes,
            used_size: if used > 0xFFFF_FFFB {
                0xFFFF_FFFF
            } else {
                used + 4
            },
            allocated_size: allocated as u32,
        },
    )
}

/// The address behind the last byte of a block, its CRC included.
pub open spec fn range_end(range: DataRangeView) -> nat {
    let data_end = range.start_address as nat + range.bytestream.len();
    let crc_end = range.crc_address as nat + range.crc_bytestream.len();
    if range.crc_bytestream.len() > 0 && crc_end > data_end {
        crc_end
    } else {
        data_end
    }
}

/// The contents of a list of blocks.
pub open spec fn range_views(ranges: Seq<DataRange>) -> Seq<DataRangeView> {
    Seq::new(ranges.len(), |i: int| ranges[i]@)
}

/// The address behind the last byte of the first `count` blocks.
pub open spec fn ranges_end(ranges: Seq<DataRangeView>, count: nat) -> nat
    decreases count,
{
    if count == 0 || count > ranges.len() {
        0
    } else {
        let before = ranges_end(ranges, (count - 1) as nat);
        if range_end(ranges[count - 1]) > before {
            range_end(ranges[count - 1])
        } else {
            before
        }
    }
}

/// What an image holds after a block has been put into what it held: the
/// block's bytes at its start address and then, where the block has a CRC,
/// the CRC bytes at the CRC address, which may replace what is there.
/// `None` where the image refuses either.
pub open spec fn with_range(content: ImageContent, range: DataRangeView) -> Option<ImageContent> {
    match added_run(content.0, content.1, range.start_address as nat, range.bytestream, false) {
        None => None,
        Some(filled) => if range.crc_bytestream.len() == 0 {
            Some(filled)
        } else {
            added_run(filled.0, filled.1, range.crc_address as nat, range.crc_bytestream, true)
        },
    }
}

/// What an image holds after the first `count` blocks have been put into
/// an empty one, in order; `None` where it refuses any of them.
pub open spec fn image_after(ranges: Seq<DataRangeView>, count: nat) -> Option<ImageContent>
    decreases count,
{
    if count == 0 || count > ranges.len() {
        Some((Seq::empty(), None))
    } else {
        match image_after(ranges, (count - 1) as nat) {
            None => None,
            Some(content) => with_range(content, ranges[count - 1]),
        }
    }
}

/// The lines joined by line feeds.
pub open spec fn joined_lines(lines: Seq<Seq<char>>) -> Seq<char>
    decreases lines.len(),
{
    if lines.len() == 0 {
        Seq::empty()
    } else if lines.len() == 1 {
        lines[0]
    } else {
        joined_lines(lines.drop_last()) + "\n"@ + lines.last()
    }
}

/// How an encoding ends.
pub enum HexOutcome {
    /// The record width is not between 1 and 128.
    BadWidth,
    /// A block ends beyond the address limit of an image.
    Overflow,
    /// The image refuses a run of bytes.
    Refused,
    /// The image cannot be written in the format.
    Unwritable,
    /// The text of the records.
    Text(Seq<char>),
}

/// The Intel HEX addressing for an image that ends at `end`: segment
/// addresses up to 64 KiB, linear addresses beyond.
pub open spec fn hex_addressing_for(end: nat) -> HexAddressing {
    if end <= 0x1_0000 {
        HexAddressing::Segment
    } else {
        HexAddressing::Linear
    }
}

/// The S-record addressing for an image that ends at `end`: the narrowest
/// that reaches it.
pub open spec fn record_addressing_for(end: nat) -> RecordAddressing {
    if end <= 0x1_0000 {
        RecordAddressing::Bits16
    } else if end <= 0x100_0000 {
        RecordAddressing::Bits24
    } else {
        RecordAddressing::Bits32
    }
}

/// How the encoding of `ranges` ends. The blocks are put into an empty
/// image in order; the image is then written with the addressing that its
/// end asks for, and the records are joined by line feeds.
pub open spec fn hex_outcome(ranges: Seq<DataRangeView>, record_width: usize, format: OutputFormat) -> HexOutcome {
    let end = ranges_end(ranges, ranges.len());
    if !(1 <= record_width <= 128) {
        HexOutcome::BadWidth
    } else if end > address_limit() {
        HexOutcome::Overflow
    } else {
        match image_after(ranges, ranges.len()) {
            None => HexOutcome::Refused,
            Some(content) => {
                let records = match format {
                    OutputFormat::Hex => intel_hex_records(
                        content.0,
                        record_width as nat,
                        hex_addressing_for(end),
                    ),
                    OutputFormat::Mot => s_records(
                        content.0,
                        record_width as nat,
                        record_addressing_for(end),
                    ),
                };
                match records {
                    Some(lines) => HexOutcome::Text(joined_lines(lines)),
                    None => HexOutcome::Unwritable,
                }
            },
        }
    }
}

/// The outcome that a result of `emit_hex` stands for.
pub open spec fn outcome_of(r: Result<String, OutputError>, format: OutputFormat) -> Option<HexOutcome> {
    match r {
        Ok(text) => Some(HexOutcome::Text(text@)),
        Err(OutputError::HexOutputError(HexFailure::RecordWidth)) => Some(HexOutcome::BadWidth),
        Err(OutputError::HexOutputError(HexFailure::AddressOverflow)) => Some(HexOutcome::Overflow),
        Err(OutputError::HexOutputError(HexFailure::AddBytes(_))) => Some(HexOutcome::Refused),
        Err(OutputError::HexOutputError(HexFailure::IntelHex(_))) => if format == OutputFormat::Hex {
            Some(HexOutcome::Unwritable)
        } else {
            None
        },
        Err(OutputError::HexOutputError(HexFailure::SRecord(_))) => if format == OutputFormat::Mot {
            Some(HexOutcome::Unwritable)
        } else {
            None
        },
        _ => None,
    }
}

/// Joins lines by line feeds.
pub fn join_lines(lines: &Vec<String>) -> (text: String)
    ensures
        text@ == joined_lines(line_texts(lines@)),
{
    let mut text = String::new();
    let mut i: usize = 0;
    while i < lines.len()
        invariant
            i <= lines.len(),
            text@ == joined_lines(line_texts(lines@).take(i as int)),
        decreases lines.len() - i,
    {
        proof {
            let now = line_texts(lines@).take(i + 1);
            assert(now.drop_last() =~= line_texts(lines@).take(i as int));
            assert(now.last() == lines@[i as int]@);
        }
        if i > 0 {
            text.append("\n");
        }
        text.append(lines[i].as_str());
        proof {
            if i == 0 {
                assert(text@ =~= lines@[i as int]@);
            }
        }
        i = i + 1;
    }
    proof {
        assert(line_texts(lines@).take(lines@.len() as int) =~= line_texts(lines@));
    }
    text
}

/// Once a block is refused, the blocks are refused.
pub proof fn lemma_refusal_stays(ranges: Seq<DataRangeView>, count: nat, more: nat)
    requires
        count <= more <= ranges.len(),
        image_after(ranges, count) is None,
    ensures
        image_after(ranges, more) is None,
    decreases more - count,
{
    if count < more {
        lemma_refusal_stays(ranges, count, (more - 1) as nat);
    }
}

/// The end of more blocks is no less.
pub proof fn lemma_ranges_end_grows(ranges: Seq<DataRangeView>, count: nat, more: nat)
    requires
        count <= more <= ranges.len(),
    ensures
        ranges_end(ranges, count) <= ranges_end(ranges, more),
    decreases more - count,
{
    if count < more {
        lemma_ranges_end_grows(ranges, count, (more - 1) as nat);
    }
}

/// Writes the blocks as the records of a hex file, one line for each
/// record: see `hex_outcome`.
#[verifier::rlimit(40)]
pub fn emit_hex(ranges: &[DataRange], record_width: usize, format: OutputFormat) -> (r: Result<
    String,
    OutputError,
>)
    ensures
        outcome_of(r, format) == Some(hex_outcome(range_views(ranges@), record_width, format)),
{
    if record_width < 1 || record_width > 128 {
        return Err(OutputError::HexOutputError(HexFailure::RecordWidth));
    }
    let ghost views = range_views(ranges@);
    // The addresses are found before anything is put into the image.
    let mut max_end: usize = 0;
    let mut i: usize = 0;
    while i < ranges.len()
        invariant
            i <= ranges.len(),
            1 <= record_width <= 128,
            views == range_views(ranges@),
            max_end == ranges_end(views, i as nat),
            max_end <= address_limit(),
        decreases ranges.len() - i,
    {
        let range = &ranges[i];
        proof {
            lemma_ranges_end_grows(views, (i + 1) as nat, views.len());
        }
        let end = match (range.start_address as usize).checked_add(range.bytestream.len()) {
            Some(e) => e,
            None => {
                return Err(OutputError::HexOutputError(HexFailure::AddressOverflow));
            },
        };
        if end as u128 > 0x7FFF_FFFF_FFFF_FFFF {
            return Err(OutputError::HexOutputError(HexFailure::AddressOverflow));
        }
        if end > max_end {
            max_end = end;
        }
        if range.crc_bytestream.len() > 0 {
            let end = match (range.crc_address as usize).checked_add(range.crc_bytestream.len()) {
                Some(e) => e,
                None => {
                    return Err(OutputError::HexOutputError(HexFailure::AddressOverflow));
                },
            };
            if end as u128 > 0x7FFF_FFFF_FFFF_FFFF {
                return Err(OutputError::HexOutputError(HexFailure::AddressOverflow));
            }
            if end > max_end {
                max_end = end;
            }
        }
        i = i + 1;
    }
    let mut image = new_image();
    let mut i: usize = 0;
    while i < ranges.len()
        invariant
            i <= ranges.len(),
            1 <= record_width <= 128,
            views == range_views(ranges@),
            max_end == ranges_end(views, views.len()),
            max_end <= address_limit(),
            image_after(views, i as nat) == Some(image_content(image)),
            image_is_bare(image),
            workable(image_content(image)),
        decreases ranges.len() - i,
    {
        let range = &ranges[i];
        proof {
            lemma_ranges_end_grows(views, (i + 1) as nat, views.len());
        }
        match add_part(
            &mut image,
            range.bytestream.as_slice(),
            range.start_address as usize,
            false,
        ) {
            Ok(()) => {},
            Err(e) => {
                proof {
                    lemma_refusal_stays(views, (i + 1) as nat, views.len());
                }
                return Err(OutputError::HexOutputError(HexFailure::AddBytes(encoder_error_text(&e))));
            },
        }
        if range.crc_bytestream.len() > 0 {
            match add_part(
                &mut image,
                range.crc_bytestream.as_slice(),
                range.crc_address as usize,
                true,
            ) {
                Ok(()) => {},
                Err(e) => {
                    proof {
                        lemma_refusal_stays(views, (i + 1) as nat, views.len());
                    }
                    return Err(
                        OutputError::HexOutputError(HexFailure::AddBytes(encoder_error_text(&e))),
                    );
                },
            }
        }
        i = i + 1;
    }
    match format {
        OutputFormat::Hex => {
            let addressing = if max_end <= 0x1_0000 {
                HexAddressing::Segment
            } else {
                HexAddressing::Linear
            };
            match intel_hex_lines(&image, record_width, addressing) {
                Ok(lines) => Ok(join_lines(&lines)),
                Err(e) => Err(OutputError::HexOutputError(HexFailure::IntelHex(encoder_error_text(&e)))),
            }
        },
        OutputFormat::Mot => {
            let addressing = if max_end <= 0x1_0000 {
                RecordAddressing::Bits16
            } else if max_end <= 0x100_0000 {
                RecordAddressing::Bits24
            } else {
                RecordAddressing::Bits32
            };
            match s_record_lines(&image, record_width, addressing) {
                Ok(lines) => Ok(join_lines(&lines)),
                Err(e) => Err(OutputError::HexOutputError(HexFailure::SRecord(encoder_error_text(&e)))),
            }
        },
    }
}

} // verus!
