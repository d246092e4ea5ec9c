use vstd::prelude::*;
use bin_file::{BinFile, IHexFormat, SRecordAddressLength};

verus! {

/// The image builder of the `bin_file` crate.
#[verifier::external_type_specification]
#[verifier::external_body]
pub struct ExBinFile(BinFile);

/// The error type of the `bin_file` crate.
#[verifier::external_type_specification]
#[verifier::external_body]
pub struct ExEncoderError(bin_file::Error);

/// How Intel HEX records carry addresses beyond 16 bits.
#[derive(Copy, Clone, Debug, PartialEq, Eq, Structural)]
pub enum HexAddressing {
    /// Extended segment addresses, which reach 20 bits.
    Segment,
    /// Extended linear addresses, which reach 32 bits.
    Linear,
}

/// The width of the addresses in S-records.
#[derive(Copy, Clone, Debug, PartialEq, Eq, Structural)]
pub enum RecordAddressing {
    Bits16,
    Bits24,
    Bits32,
}

/// A segment of an image: the address of its first byte, and its bytes.
pub type Segment = (nat, Seq<u8>);

/// What an image holds that adding bytes depends on and changes: its
/// segments, and the place of the segment it works at.
pub type ImageContent = (Seq<Segment>, Option<nat>);

/// The segments that an image holds, in the order of its list of
/// segments (`segments.list`): for each the address of its first byte and
/// its bytes. Bytes that touch or overlap are held in one segment.
pub uninterp spec fn image_segments(image: BinFile) -> Seq<Segment>;

/// The place, in the list of segments, of the segment that an image works
/// at (`segments.current_segment_index`): the marker that it keeps for
/// sequential inserts.
pub uninterp spec fn image_marker(image: BinFile) -> Option<nat>;

/// True for an image that has neither a header (`header`) nor an
/// execution start address (`execution_start_address`).
pub uninterp spec fn image_is_bare(image: BinFile) -> bool;

/// What adding `data` at `address` makes of the segments and the marker of
/// an image; `None` where the image refuses the bytes.
pub uninterp spec fn added_run(segments: Seq<Segment>, marker: Option<nat>, address: nat, data: Seq<u8>, overwrite: bool) -> Option<ImageContent>;

/// The Intel HEX records of an image without header and execution start
/// address that holds `segments`, with `width` data bytes to a record;
/// `None` where the image cannot be written so.
pub uninterp spec fn intel_hex_records(segments: Seq<Segment>, width: nat, addressing: HexAddressing) -> Option<Seq<Seq<char>>>;

/// The S-records of an image without header and execution start address
/// that holds `segments`, with `width` data bytes to a record; `None`
/// where the image cannot be written so.
pub uninterp spec fn s_records(segments: Seq<Segment>, width: nat, addressing: RecordAddressing) -> Option<Seq<Seq<char>>>;

/// The segments and the marker of an image.
pub open spec fn image_content(image: BinFile) -> ImageContent {
    (image_segments(image), image_marker(image))
}

/// The end beyond which no run of bytes is handed to an image: what the
/// machine can address, and no more than a signed number of 64 bits can
/// hold, since the image works out distances between addresses in such
/// numbers.
pub open spec fn address_limit() -> nat {
    if usize::MAX < 0x7FFF_FFFF_FFFF_FFFF {
        usize::MAX as nat
    } else {
        0x7FFF_FFFF_FFFF_FFFF
    }
}

/// True for segments and a marker that an image can work on: no segment
/// ends beyond the address limit, and where there are segments the marker
/// points at one of them.
pub open spec fn workable(content: ImageContent) -> bool {
    &&& forall|i: int|
        0 <= i < content.0.len() ==> (#[trigger] content.0[i]).0 + content.0[i].1.len()
            <= address_limit()
    &&& content.0.len() > 0 ==> content.1 is Some && content.1->Some_0 < content.0.len()
}

/// The texts of a list of lines.
pub open spec fn line_texts(lines: Seq<String>) -> Seq<Seq<char>> {
    Seq::new(lines.len(), |i: int| lines[i]@)
}

/// Calls `BinFile::new`, which makes an image without header, execution
/// start address, segments and marker.
#[verifier::external_body]
pub(crate) fn new_image() -> (image: BinFile)
    ensures
        image_segments(image) == Seq::<Segment>::empty(),
        image_marker(image) is None,
        image_is_bare(image),
{
    BinFile::new()
}

/// Calls `BinFile::add_bytes`, which puts `data` at `address` or refuses
/// it. What becomes of the segments and the marker depends on them and on
/// the run alone; header and execution start address are not touched. An
/// image that has taken a run can work on: its marker points at a
/// segment, and no segment ends beyond the run's end or the ends that
/// were there.
#[verifier::external_body]
pub(crate) fn add_part(image: &mut BinFile, data: &[u8], address: usize, overwrite: bool) -> (r:
    Result<(), bin_file::Error>)
    requires
        address + data@.len() <= address_limit(),
        workable(image_content(*old(image))),
    ensures
        image_is_bare(*final(image)) == image_is_bare(*old(image)),
        match r {
            Ok(()) => added_run(
                image_segments(*old(image)),
                image_marker(*old(image)),
                address as nat,
                data@,
                overwrite,
            ) == Some(image_content(*final(image))) && workable(image_content(*final(image))),
            Err(_) => added_run(
                image_segments(*old(image)),
                image_marker(*old(image)),
                address as nat,
                data@,
                overwrite,
            ) is None,
        },
{
    image.add_bytes(data, Some(address), overwrite)
}

/// Calls `BinFile::to_ihex`, which writes the image as Intel HEX records,
/// one text for each record. For an image without header and execution
/// start address the records depend on its segments alone.
#[verifier::external_body]
pub(crate) fn intel_hex_lines(image: &BinFile, width: usize, addressing: HexAddressing) -> (r:
    Result<Vec<String>, bin_file::Error>)
    requires
        1 <= width,
        image_is_bare(*image),
        workable(image_content(*image)),
    ensures
        match r {
            Ok(lines) => intel_hex_records(image_segments(*image), width as nat, addressing)
                == Some(line_texts(lines@)),
            Err(_) => intel_hex_records(image_segments(*image), width as nat, addressing) is None,
        },
{
    let format = match addressing {
        HexAddressing::Segment => IHexFormat::IHex16,
        HexAddressing::Linear => IHexFormat::IHex32,
    };
    image.to_ihex(Some(width), format)
}

/// Calls `BinFile::to_srec`, which writes the image as Motorola S-records,
/// one text for each record. For an image without header and execution
/// start address the records depend on its segments alone.
#[verifier::external_body]
pub(crate) fn s_record_lines(image: &BinFile, width: usize, addressing: RecordAddressing) -> (r:
    Result<Vec<String>, bin_file::Error>)
    requires
        1 <= width,
        image_is_bare(*image),
        workable(image_content(*image)),
    ensures
        match r {
            Ok(lines) => s_records(image_segments(*image), width as nat, addressing) == Some(
                line_texts(lines@),
            ),
            Err(_) => s_records(image_segments(*image), width as nat, addressing) is None,
        },
{
    let length = match addressing {
        RecordAddressing::Bits16 => SRecordAddressLength::Length16,
        RecordAddressing::Bits24 => SRecordAddressLength::Length24,
        RecordAddressing::Bits32 => SRecordAddressLength::Length32,
    };
    image.to_srec(Some(width), length)
}

/// Formats an error of the encoder with its `Display` implementation.
#[verifier::external_body]
pub(crate) fn encoder_error_text(error: &bin_file::Error) -> (text: String) {
    format!("{}", error)
}

} // verus!
