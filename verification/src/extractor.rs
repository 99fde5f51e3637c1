//! Decoders for the supported containers and the reader they share.

use crate::FileMetadata;
use crate::FileMetadataView;
use crate::failures::Failure;
use crate::failures::FailureView;
use crate::text::ascii_lowercase;
use crate::text::extension;
use crate::text::extension_of;
use crate::text::is_lowercase_of;
use crate::timestamp::is_timestamp;
use self::cr3::canon_uuid;
use self::cr3::cr3_extract_metadata_creation_timestamp;
use self::cr3::cr3_outcome;
use self::input::Input;
use self::input::InputView;
use self::inputbox::InputBox;
use self::jpeg::jpeg_extract_metadata_creation_timestamp;
use self::jpeg::jpeg_outcome;
use self::mp4::mp4_extract_metadata_creation_timestamp;
use self::mp4::mp4_file_outcome;
use self::mp4::mvhd_creation_time;
use self::mp4::timestamp_pattern;
use self::mp4::unix_seconds;
use self::mp4::utc_calendar_text;
use self::quicktime::lemma_scan_moves_cursor_only;
use self::quicktime::scan_for_box;
use self::tiff::tiff_extract_metadata_creation_timestamp_file;
use self::tiff::tiff_file_outcome;
use vstd::prelude::*;
use vstd::string::StringExecFns;

pub mod cr3;
pub mod input;
pub mod inputbox;
pub mod jpeg;
pub mod mp4;
pub mod quicktime;
pub mod revisits;
pub mod tiff;

verus! {

/// Byte order of the integers in a stream.
#[derive(Clone, Copy, Debug, PartialEq, Eq, Structural)]
pub enum Endianness {
    Big,
    Little,
}

/// What a decoder returns, in contracts: the metadata of the file,
/// nothing for a file of no supported kind, or the failure.
pub open spec fn outcome_view(r: Result<Option<FileMetadata>, Failure>) -> Result<
    Option<FileMetadataView>,
    FailureView,
> {
    match r {
        Ok(Some(metadata)) => Ok(Some(metadata@)),
        Ok(None) => Ok(None),
        Err(failure) => Err(failure@),
    }
}

/// The containers that the extractor decodes.
#[derive(Clone, Copy, Debug, PartialEq, Eq, Structural)]
pub enum Format {
    /// A TIFF stream: Nikon NEF and Adobe DNG.
    Tiff,
    Mp4,
    /// Canon CR3.
    Cr3,
    Jpeg,
}

/// The format that goes with the extension `ext`, in small letters.
pub open spec fn format_of(ext: Seq<char>) -> Option<Format> {
    if ext == "nef"@ || ext == "dng"@ {
        Some(Format::Tiff)
    } else if ext == "mp4"@ {
        Some(Format::Mp4)
    } else if ext == "cr3"@ {
        Some(Format::Cr3)
    } else if ext == "jpg"@ || ext == "jpeg"@ {
        Some(Format::Jpeg)
    } else {
        None
    }
}

/// The extension of `file_name` in small letters; empty where the name
/// has none.
pub open spec fn lowercase_extension(file_name: Seq<char>) -> Seq<char> {
    match extension_of(file_name) {
        Some(ext) => ascii_lowercase(ext),
        None => Seq::empty(),
    }
}

/// The format that a file named `file_name` is decoded as, by its
/// extension, whatever the case of its letters.
pub open spec fn format_of_file(file_name: Seq<char>) -> Option<Format> {
    format_of(lowercase_extension(file_name))
}

/// The format that a file named `file_name` is decoded as, and its
/// extension in small letters; nothing for a file of no supported kind.
pub fn detect_format(file_name: &str) -> (r: Option<(Format, &'static str)>)
    ensures
        match format_of_file(file_name@) {
            Some(format) => r == Some((format, r->Some_0.1)) && r->Some_0.1@
                == lowercase_extension(file_name@),
            None => r is None,
        },
{
    let ext: &str = match extension(file_name) {
        Some(ext) => ext,
        None => {
            proof {
                lemma_extensions_are_not_empty();
            }
            return None;
        },
    };
    if is_lowercase_of(ext, "nef") {
        Some((Format::Tiff, "nef"))
    } else if is_lowercase_of(ext, "dng") {
        Some((Format::Tiff, "dng"))
    } else if is_lowercase_of(ext, "mp4") {
        Some((Format::Mp4, "mp4"))
    } else if is_lowercase_of(ext, "cr3") {
        Some((Format::Cr3, "cr3"))
    } else if is_lowercase_of(ext, "jpg") {
        Some((Format::Jpeg, "jpg"))
    } else if is_lowercase_of(ext, "jpeg") {
        Some((Format::Jpeg, "jpeg"))
    } else {
        None
    }
}

/// No supported extension is empty.
proof fn lemma_extensions_are_not_empty()
    ensures
        format_of(Seq::empty()) is None,
{
    reveal_strlit("nef");
    reveal_strlit("dng");
    reveal_strlit("mp4");
    reveal_strlit("cr3");
    reveal_strlit("jpg");
    reveal_strlit("jpeg");
    assert("nef"@.len() == 3 && "dng"@.len() == 3 && "mp4"@.len() == 3);
    assert("cr3"@.len() == 3 && "jpg"@.len() == 3 && "jpeg"@.len() == 4);
    assert(Seq::<char>::empty().len() == 0);
}

/// The view of the whole of a file named `name`, with the extension `ext`
/// and the contents `bytes`.
pub open spec fn whole_file(name: Seq<char>, ext: Seq<char>, bytes: Seq<u8>) -> InputView {
    InputView { name, ext, bytes, offset: 0, limit: bytes.len(), cursor: 0 }
}

/// What the extractor returns for the file `file_name` with the contents
/// `bytes`, where the calendar writes `formatted` for the moment at which
/// an MP4 file was created: nothing for a file of no supported kind, else
/// what the decoder of its format returns.
pub open spec fn extraction_outcome(
    file_name: Seq<char>,
    bytes: Seq<u8>,
    formatted: Option<Seq<char>>,
) -> Result<Option<FileMetadataView>, FailureView> {
    let v = whole_file(file_name, lowercase_extension(file_name), bytes);
    match format_of_file(file_name) {
        None => Ok(None),
        Some(Format::Tiff) => tiff_file_outcome(v),
        Some(Format::Mp4) => mp4_file_outcome(v, formatted),
        Some(Format::Cr3) => cr3_outcome(v),
        Some(Format::Jpeg) => jpeg_outcome(v),
    }
}

/// Every failure of the extractor is a failure on the file that was being
/// decoded.
pub proof fn lemma_failures_name_the_file(
    file_name: Seq<char>,
    bytes: Seq<u8>,
    formatted: Option<Seq<char>>,
)
    ensures
        extraction_outcome(file_name, bytes, formatted) is Err ==> extraction_outcome(
            file_name,
            bytes,
            formatted,
        )->Err_0 is File && extraction_outcome(file_name, bytes, formatted)->Err_0->File_file_name
            == file_name,
{
    let v = whole_file(file_name, lowercase_extension(file_name), bytes);
    lemma_scan_moves_cursor_only(v, "moov"@, None);
    let moov = scan_for_box(v, "moov"@, None).outcome;
    if moov is Ok {
        lemma_scan_moves_cursor_only(moov->Ok_0, "uuid"@, Some(canon_uuid()));
    }
}

/// What the calendar writes in UTC for the creation time of the MP4 file
/// that `v` views, where that time can be read and counted from 1970.
pub open spec fn utc_text_of(v: InputView) -> Option<Seq<char>> {
    match mvhd_creation_time(v) {
        Ok(timestamp) => match unix_seconds(timestamp) {
            Ok(seconds) => utc_calendar_text(seconds, timestamp_pattern()),
            Err(_) => None,
        },
        Err(_) => None,
    }
}

/// The creation time of the file `file_name` with the contents
/// `contents`, read from its metadata by the decoder that goes with its
/// extension. A file of no supported kind gives nothing, and its contents
/// are not looked at. `utc` has the timestamp of an MP4 file written in
/// UTC instead of the time zone of the machine.
///
/// For an MP4 file and the local time zone the result is
/// [`extraction_outcome`] for some text of the calendar; in every other
/// case it is that for the text that chrono writes in UTC.
pub fn extract_metadata_creation_timestamp(file_name: &str, contents: Vec<u8>, utc: bool) -> (r:
    Result<Option<FileMetadata>, Failure>)
    ensures
        exists|formatted: Option<Seq<char>>|
            outcome_view(r) == #[trigger] extraction_outcome(file_name@, contents@, formatted),
        utc || format_of_file(file_name@) != Some(Format::Mp4) ==> outcome_view(r)
            == extraction_outcome(
            file_name@,
            contents@,
            utc_text_of(whole_file(file_name@, lowercase_extension(file_name@), contents@)),
        ),
        r is Ok && r->Ok_0 is Some ==> is_timestamp(r->Ok_0->Some_0@.creation_timestamp),
        r is Ok ==> (r->Ok_0 is None <==> format_of_file(file_name@) is None),
{
    let (format, ext) = match detect_format(file_name) {
        Some(found) => found,
        None => {
            assert(outcome_view(Ok(None)) == extraction_outcome(file_name@, contents@, None));
            return Ok(None);
        },
    };
    let input_box = InputBox::create(String::from_str(file_name), String::from_str(ext), contents);
    let mut input = Input::create(&input_box);
    let ghost v = input@;
    assert(v == whole_file(file_name@, lowercase_extension(file_name@), contents@));
    match format {
        Format::Tiff => {
            let r = tiff_extract_metadata_creation_timestamp_file(&mut input);
            assert(outcome_view(r) == extraction_outcome(file_name@, contents@, None));
            r
        },
        Format::Mp4 => {
            let r = mp4_extract_metadata_creation_timestamp(&mut input, utc);
            proof {
                let formatted = choose|formatted: Option<Seq<char>>|
                    outcome_view(r) == #[trigger] mp4_file_outcome(v, formatted);
                assert(outcome_view(r) == extraction_outcome(file_name@, contents@, formatted));
            }
            r
        },
        Format::Cr3 => {
            let r = cr3_extract_metadata_creation_timestamp(&mut input);
            assert(outcome_view(r) == extraction_outcome(file_name@, contents@, None));
            r
        },
        Format::Jpeg => {
            let r = jpeg_extract_metadata_creation_timestamp(&mut input);
            assert(outcome_view(r) == extraction_outcome(file_name@, contents@, None));
            r
        },
    }
}

} // verus!
