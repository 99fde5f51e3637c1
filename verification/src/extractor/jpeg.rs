//! The JPEG decoder: finds the APP1 segment and decodes the TIFF stream
//! behind its Exif header.

use crate::FileMetadata;
use crate::FileMetadataView;
use crate::failures::Failure;
use crate::failures::FailureView;
use crate::failures::caused_by;
use crate::text::decimal;
use crate::text::numbered;
use crate::text::str_eq;
use crate::timestamp::is_timestamp;
use super::Endianness;
use super::input::Input;
use super::input::InputError;
use super::input::InputView;
use super::outcome_view;
use super::tiff::decode_tiff;
use super::tiff::new_tiff_metadata;
use super::tiff::tiff_extract_metadata_creation_timestamp;
use super::tiff::tiff_metadata;
use vstd::prelude::*;
use vstd::string::StringExecFns;

verus! {

/// The marker that a JPEG stream starts with.
pub const JPEG_SOI: u16 = 0xFFD8;

/// The marker of the segment that holds the Exif data.
pub const JPEG_APP1: u16 = 0xFFE1;

/// The two bytes that follow the word `Exif` in an APP1 segment.
pub const EXIF_HEADER_SUFFIX: u16 = 0x0000;

/// The read during which the input failed.
#[derive(Clone, Copy, Debug, PartialEq, Eq, Structural)]
pub enum JpegStep {
    Header,
    Marker,
    Length,
    ExifHeader,
    ExifSuffix,
    Skip,
}

/// Why a JPEG stream gave no Exif data.
#[derive(Clone, Copy, Debug, PartialEq, Eq, Structural)]
pub enum JpegError {
    /// The stream starts with this marker, which is not the start of an
    /// image.
    Soi { marker: u16 },
    /// The APP1 segment does not start with `Exif` and two zero bytes.
    ExifHeader,
    /// A segment declares this length, which does not cover what was read
    /// of it.
    SegmentLength { length: u16 },
    /// The input refused a read or a skip.
    Io { step: JpegStep, cause: InputError },
}

impl JpegStep {
    /// What the decoder was doing at the step.
    pub open spec fn text(self) -> Seq<char> {
        match self {
            JpegStep::Header => "reading jpeg header"@,
            JpegStep::Marker => "reading jpeg field marker"@,
            JpegStep::Length => "reading jpeg field length"@,
            JpegStep::ExifHeader => "reading jpeg exif header"@,
            JpegStep::ExifSuffix => "reading jpeg exif header suffix"@,
            JpegStep::Skip => "fast-forward jpeg field"@,
        }
    }

    /// What the decoder was doing at the step.
    pub fn message(&self) -> (r: String)
        ensures
            r@ == self.text(),
    {
        match self {
            JpegStep::Header => String::from_str("reading jpeg header"),
            JpegStep::Marker => String::from_str("reading jpeg field marker"),
            JpegStep::Length => String::from_str("reading jpeg field length"),
            JpegStep::ExifHeader => String::from_str("reading jpeg exif header"),
            JpegStep::ExifSuffix => String::from_str("reading jpeg exif header suffix"),
            JpegStep::Skip => String::from_str("fast-forward jpeg field"),
        }
    }
}

impl JpegError {
    /// The failure that the error is reported as, on the file `file_name`.
    pub open spec fn failure(self, file_name: Seq<char>) -> FailureView {
        match self {
            JpegError::Soi { marker } => FailureView::File {
                file_name,
                description: "unexpected JPEG SOI: "@ + decimal(marker as nat),
                cause: Seq::empty(),
            },
            JpegError::ExifHeader => FailureView::File {
                file_name,
                description: "JPEG APP1 field does not have valid Exif header"@,
                cause: Seq::empty(),
            },
            JpegError::SegmentLength { length } => FailureView::File {
                file_name,
                description: "JPEG field is shorter than its header: "@ + decimal(length as nat),
                cause: Seq::empty(),
            },
            JpegError::Io { step, cause } => FailureView::File {
                file_name,
                description: step.text(),
                cause: caused_by(cause.text()),
            },
        }
    }

    /// The failure that the error is reported as, on the file `file_name`.
    pub fn to_failure(&self, file_name: &str) -> (r: Failure)
        ensures
            r@ == self.failure(file_name@),
    {
        let name = String::from_str(file_name);
        match *self {
            JpegError::Soi { marker } => Failure::file_failure(
                name,
                numbered("unexpected JPEG SOI: ", marker as u128),
            ),
            JpegError::ExifHeader => Failure::file_failure(
                name,
                String::from_str("JPEG APP1 field does not have valid Exif header"),
            ),
            JpegError::SegmentLength { length } => Failure::file_failure(
                name,
                numbered("JPEG field is shorter than its header: ", length as u128),
            ),
            JpegError::Io { step, cause } => Failure::file_failure_caused(
                name,
                step.message(),
                cause.message().as_str(),
            ),
        }
    }
}

/// The outcome of the search for the Exif data and the input as the
/// search leaves it.
pub struct Search {
    pub outcome: Result<InputView, JpegError>,
    pub rest: InputView,
}

/// What the search makes of an APP1 segment of the length `length`, the
/// cursor of `v` standing behind the length: the section of what follows
/// the Exif header.
pub open spec fn open_app1(v: InputView, length: u16) -> Search {
    match v.read_string(4) {
        Err(cause) => Search {
            outcome: Err(JpegError::Io { step: JpegStep::ExifHeader, cause }),
            rest: v,
        },
        Ok(word) => match v.advanced(4).read_u16(Endianness::Big) {
            Err(cause) => Search {
                outcome: Err(JpegError::Io { step: JpegStep::ExifSuffix, cause }),
                rest: v.advanced(4),
            },
            Ok(suffix) => Search {
                outcome: if word != "Exif"@ || suffix != EXIF_HEADER_SUFFIX {
                    Err(JpegError::ExifHeader)
                } else if length < 8 {
                    Err(JpegError::SegmentLength { length })
                } else {
                    Ok(v.advanced(6).section((length - 8) as nat))
                },
                rest: v.advanced(6),
            },
        },
    }
}

/// Goes through the segments from the cursor of `v` on, each a marker and
/// a length of two bytes each, the length counting itself, until the
/// first APP1 segment, and opens that.
pub open spec fn scan_segments(v: InputView) -> Search
    decreases v.limit - v.cursor,
{
    match v.read_u16(Endianness::Big) {
        Err(cause) => Search {
            outcome: Err(JpegError::Io { step: JpegStep::Marker, cause }),
            rest: v,
        },
        Ok(marker) => match v.advanced(2).read_u16(Endianness::Big) {
            Err(cause) => Search {
                outcome: Err(JpegError::Io { step: JpegStep::Length, cause }),
                rest: v.advanced(2),
            },
            Ok(length) => {
                let body = v.advanced(4);
                if marker == JPEG_APP1 {
                    open_app1(body, length)
                } else if length < 2 {
                    Search { outcome: Err(JpegError::SegmentLength { length }), rest: body }
                } else {
                    match body.ff((length - 2) as nat) {
                        Err(cause) => Search {
                            outcome: Err(JpegError::Io { step: JpegStep::Skip, cause }),
                            rest: body,
                        },
                        Ok(_) => scan_segments(body.advanced((length - 2) as nat)),
                    }
                }
            },
        },
    }
}

/// The search for the Exif data of the JPEG stream that starts at the
/// cursor of `v`: the stream must start with the marker of the start of an
/// image, and nothing further is read of one that does not.
pub open spec fn scan_for_app1(v: InputView) -> Search {
    match v.read_u16(Endianness::Big) {
        Err(cause) => Search {
            outcome: Err(JpegError::Io { step: JpegStep::Header, cause }),
            rest: v,
        },
        Ok(marker) => if marker != JPEG_SOI {
            Search { outcome: Err(JpegError::Soi { marker }), rest: v.advanced(2) }
        } else {
            scan_segments(v.advanced(2))
        },
    }
}

/// Whether `r` is the outcome `wanted`, a section being known by its view.
pub open spec fn is_exif_section(
    r: Result<Input, JpegError>,
    wanted: Result<InputView, JpegError>,
) -> bool {
    match wanted {
        Ok(section) => r is Ok && r->Ok_0@ == section,
        Err(e) => r is Err && r->Err_0 == e,
    }
}

/// Finds the Exif data of the JPEG stream that starts at the cursor of
/// `input` and returns a view of the TIFF stream that they are.
pub fn jpeg_scan_for_app1<'f>(input: &mut Input<'f>) -> (r: Result<Input<'f>, JpegError>)
    ensures
        is_exif_section(r, scan_for_app1(old(input)@).outcome),
        final(input)@ == scan_for_app1(old(input)@).rest,
{
    let jpeg_soi: u16 = match input.read_u16(&Endianness::Big) {
        Ok(marker) => marker,
        Err(cause) => {
            return Err(JpegError::Io { step: JpegStep::Header, cause });
        },
    };
    if jpeg_soi != JPEG_SOI {
        return Err(JpegError::Soi { marker: jpeg_soi });
    }
    let ghost goal = scan_segments(input@);
    loop
        invariant
            scan_segments(input@) == goal,
            goal == scan_for_app1(old(input)@),
        decreases input@.limit - input@.cursor,
    {
        let field_marker: u16 = match input.read_u16(&Endianness::Big) {
            Ok(marker) => marker,
            Err(cause) => {
                return Err(JpegError::Io { step: JpegStep::Marker, cause });
            },
        };
        let field_length: u16 = match input.read_u16(&Endianness::Big) {
            Ok(length) => length,
            Err(cause) => {
                return Err(JpegError::Io { step: JpegStep::Length, cause });
            },
        };
        if field_marker == JPEG_APP1 {
            let exif_header: String = match input.read_string(4) {
                Ok(word) => word,
                Err(cause) => {
                    return Err(JpegError::Io { step: JpegStep::ExifHeader, cause });
                },
            };
            let exif_header_suffix: u16 = match input.read_u16(&Endianness::Big) {
                Ok(suffix) => suffix,
                Err(cause) => {
                    return Err(JpegError::Io { step: JpegStep::ExifSuffix, cause });
                },
            };
            if !str_eq(exif_header.as_str(), "Exif") || exif_header_suffix != EXIF_HEADER_SUFFIX {
                return Err(JpegError::ExifHeader);
            }
            if field_length < 8 {
                return Err(JpegError::SegmentLength { length: field_length });
            }
            return Ok(input.section((field_length - 8) as u64));
        }
        if field_length < 2 {
            return Err(JpegError::SegmentLength { length: field_length });
        }
        match input.ff((field_length - 2) as u64) {
            Ok(_) => {},
            Err(cause) => {
                return Err(JpegError::Io { step: JpegStep::Skip, cause });
            },
        }
    }
}

/// What the decoder returns for the JPEG file that `v` views.
pub open spec fn jpeg_outcome(v: InputView) -> Result<Option<FileMetadataView>, FailureView> {
    match scan_for_app1(v).outcome {
        Err(e) => Err(e.failure(v.name)),
        Ok(exif) => match decode_tiff(exif).outcome {
            Ok(timestamp) => Ok(Some(tiff_metadata(v.name, v.ext, timestamp))),
            Err(fault) => Err(fault.failure(v.name)),
        },
    }
}

/// The search moves the cursor and nothing else.
pub proof fn lemma_scan_segments_moves_cursor_only(v: InputView)
    ensures
        scan_segments(v).rest.at(0) == v.at(0),
    decreases v.limit - v.cursor,
{
    match v.read_u16(Endianness::Big) {
        Err(_) => {},
        Ok(marker) => match v.advanced(2).read_u16(Endianness::Big) {
            Err(_) => {},
            Ok(length) => {
                let body = v.advanced(4);
                if marker != JPEG_APP1 && length >= 2 && body.ff((length - 2) as nat) is Ok {
                    lemma_scan_segments_moves_cursor_only(body.advanced((length - 2) as nat));
                }
            },
        },
    }
}

/// A stream that starts with another marker than the start of an image
/// fails on that marker: nothing behind the marker is read, and the
/// cursor is left behind it.
pub proof fn lemma_jpeg_needs_start_marker(v: InputView)
    requires
        v.read_u16(Endianness::Big) is Ok,
        v.read_u16(Endianness::Big)->Ok_0 != JPEG_SOI,
    ensures
        scan_for_app1(v) == (Search {
            outcome: Err(JpegError::Soi { marker: v.read_u16(Endianness::Big)->Ok_0 }),
            rest: v.advanced(2),
        }),
        jpeg_outcome(v) == Err::<Option<FileMetadataView>, FailureView>(
            (JpegError::Soi { marker: v.read_u16(Endianness::Big)->Ok_0 }).failure(v.name),
        ),
{
}

/// The creation time of a JPEG file: the earliest date of the TIFF stream
/// in its Exif data.
pub fn jpeg_extract_metadata_creation_timestamp(input: &mut Input) -> (r: Result<
    Option<FileMetadata>,
    Failure,
>)
    ensures
        outcome_view(r) == jpeg_outcome(old(input)@),
        final(input)@ == scan_for_app1(old(input)@).rest,
        r is Ok ==> r->Ok_0 is Some && is_timestamp(r->Ok_0->Some_0@.creation_timestamp),
{
    let found = jpeg_scan_for_app1(input);
    proof {
        if old(input)@.read_u16(Endianness::Big) is Ok {
            lemma_scan_segments_moves_cursor_only(old(input)@.advanced(2));
        }
        assert(input@.at(0) == old(input)@.at(0));
        assert(input@.name == input@.at(0).name);
        assert(input@.ext == input@.at(0).ext);
    }
    let mut exif_input = match found {
        Ok(exif_input) => exif_input,
        Err(e) => {
            return Err(e.to_failure(input.name()));
        },
    };
    match tiff_extract_metadata_creation_timestamp(&mut exif_input) {
        Ok(timestamp) => Ok(Some(new_tiff_metadata(input, timestamp))),
        Err(e) => Err(e.to_failure(input.name())),
    }
}

} // verus!
