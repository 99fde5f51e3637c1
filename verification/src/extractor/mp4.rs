//! The MP4 decoder: the creation time in the movie header, as a calendar
//! date in UTC or in the local time zone.

use crate::FileMetadata;
use crate::FileMetadataView;
use crate::failures::Failure;
use crate::failures::FailureView;
use crate::failures::caused_by;
use crate::text::decimal;
use crate::text::numbered;
use crate::text::text_view;
use crate::timestamp::is_canonical_timestamp;
use crate::timestamp::is_timestamp;
use super::Endianness;
use super::input::Input;
use super::input::InputError;
use super::input::InputView;
use super::outcome_view;
use super::quicktime::lemma_scan_moves_cursor_only;
use super::quicktime::scan_for_box;
use vstd::prelude::*;
use vstd::string::StringExecFns;

verus! {

/// The seconds from the start of 1904, where the time of an MP4 file
/// begins, to the start of 1970.
pub const MP4_EPOCH_OFFSET: u64 = 2082844800;

/// Why an MP4 file gave no timestamp.
#[derive(Clone, Copy, Debug, PartialEq, Eq, Structural)]
pub enum Mp4Error {
    /// The file holds no `moov` box.
    MoovNotFound(InputError),
    /// The `moov` box holds no `mvhd` box.
    MvhdNotFound(InputError),
    /// The version of the movie header could not be read.
    Version(InputError),
    /// The creation time could not be read.
    CreationTime(InputError),
    /// The modification time could not be read.
    ModificationTime(InputError),
    /// The movie header has a version other than 0 and 1.
    UnsupportedVersion(u32),
    /// The creation time, counted from 1970, is this number of seconds,
    /// which exceeds `i64`.
    TimestampOverflow(u64),
    /// The creation time, this number of seconds from 1904, has no
    /// calendar date with a year of four digits.
    NoCalendarDate(u64),
}

impl Mp4Error {
    /// What the failure says happened.
    pub open spec fn description(self) -> Seq<char> {
        match self {
            Mp4Error::MoovNotFound(_) => "moov box not found"@,
            Mp4Error::MvhdNotFound(_) => "mvhd box not found"@,
            Mp4Error::Version(_) => "failed to read mvhd version"@,
            Mp4Error::CreationTime(_) => "failed to read creation time"@,
            Mp4Error::ModificationTime(_) => "failed to read modification time"@,
            Mp4Error::UnsupportedVersion(version) => "unsupported mvhd version: "@ + decimal(
                version as nat,
            ),
            Mp4Error::TimestampOverflow(seconds) => "mp4 timestamp overflows i64: "@ + decimal(
                seconds as nat,
            ),
            Mp4Error::NoCalendarDate(timestamp) => "mp4 timestamp has no calendar date: "@
                + decimal(timestamp as nat),
        }
    }

    /// The error of the input behind the failure, if there is one.
    pub open spec fn cause(self) -> Option<InputError> {
        match self {
            Mp4Error::MoovNotFound(e) => Some(e),
            Mp4Error::MvhdNotFound(e) => Some(e),
            Mp4Error::Version(e) => Some(e),
            Mp4Error::CreationTime(e) => Some(e),
            Mp4Error::ModificationTime(e) => Some(e),
            _ => None,
        }
    }

    /// The failure that the error is reported as, on the file `file_name`.
    pub open spec fn failure(self, file_name: Seq<char>) -> FailureView {
        FailureView::File {
            file_name,
            description: self.description(),
            cause: match self.cause() {
                Some(e) => caused_by(e.text()),
                None => Seq::empty(),
            },
        }
    }

    /// The failure that the error is reported as, on the file `file_name`.
    pub fn to_failure(&self, file_name: &str) -> (r: Failure)
        ensures
            r@ == self.failure(file_name@),
    {
        let name = String::from_str(file_name);
        match *self {
            Mp4Error::MoovNotFound(e) => Failure::file_failure_caused(
                name,
                String::from_str("moov box not found"),
                e.message().as_str(),
            ),
            Mp4Error::MvhdNotFound(e) => Failure::file_failure_caused(
                name,
                String::from_str("mvhd box not found"),
                e.message().as_str(),
            ),
            Mp4Error::Version(e) => Failure::file_failure_caused(
                name,
                String::from_str("failed to read mvhd version"),
                e.message().as_str(),
            ),
            Mp4Error::CreationTime(e) => Failure::file_failure_caused(
                name,
                String::from_str("failed to read creation time"),
                e.message().as_str(),
            ),
            Mp4Error::ModificationTime(e) => Failure::file_failure_caused(
                name,
                String::from_str("failed to read modification time"),
                e.message().as_str(),
            ),
            Mp4Error::UnsupportedVersion(version) => Failure::file_failure(
                name,
                numbered("unsupported mvhd version: ", version as u128),
            ),
            Mp4Error::TimestampOverflow(seconds) => Failure::file_failure(
                name,
                numbered("mp4 timestamp overflows i64: ", seconds as u128),
            ),
            Mp4Error::NoCalendarDate(timestamp) => Failure::file_failure(
                name,
                numbered("mp4 timestamp has no calendar date: ", timestamp as u128),
            ),
        }
    }
}

/// The creation time in the movie header of the file that `v` views, in
/// seconds from 1904: the `mvhd` box in the `moov` box starts with four
/// bytes of which the first is the version, followed by creation and
/// modification time in four bytes each (version 0) or eight (version 1).
pub open spec fn mvhd_creation_time(v: InputView) -> Result<u64, Mp4Error> {
    match scan_for_box(v, "moov"@, None).outcome {
        Err(e) => Err(Mp4Error::MoovNotFound(e)),
        Ok(moov) => match scan_for_box(moov, "mvhd"@, None).outcome {
            Err(e) => Err(Mp4Error::MvhdNotFound(e)),
            Ok(mvhd) => match mvhd.read_u32(Endianness::Big) {
                Err(e) => Err(Mp4Error::Version(e)),
                Ok(version_and_flags) => {
                    let version = version_and_flags / 0x100_0000;
                    if version == 0 {
                        match mvhd.advanced(4).read_u32(Endianness::Big) {
                            Err(e) => Err(Mp4Error::CreationTime(e)),
                            Ok(created) => match mvhd.advanced(8).read_u32(Endianness::Big) {
                                Err(e) => Err(Mp4Error::ModificationTime(e)),
                                Ok(_) => Ok(created as u64),
                            },
                        }
                    } else if version == 1 {
                        match mvhd.advanced(4).read_u64(Endianness::Big) {
                            Err(e) => Err(Mp4Error::CreationTime(e)),
                            Ok(created) => match mvhd.advanced(12).read_u64(Endianness::Big) {
                                Err(e) => Err(Mp4Error::ModificationTime(e)),
                                Ok(_) => Ok(created),
                            },
                        }
                    } else {
                        Err(Mp4Error::UnsupportedVersion(version as u32))
                    }
                },
            },
        },
    }
}

/// Reads the creation time in the movie header, in seconds from 1904.
/// The cursor of `input` is left at the start of the payload of the `moov`
/// box, or where the search for that box ended.
pub fn read_mvhd_creation_time(input: &mut Input) -> (r: Result<u64, Mp4Error>)
    ensures
        r == mvhd_creation_time(old(input)@),
        final(input)@ == scan_for_box(old(input)@, "moov"@, None).rest,
{
    let mut moov_box = match input.quicktime_search_box("moov") {
        Ok(found) => found,
        Err(e) => {
            return Err(Mp4Error::MoovNotFound(e));
        },
    };
    let mut mvhd_box = match moov_box.quicktime_search_box("mvhd") {
        Ok(found) => found,
        Err(e) => {
            return Err(Mp4Error::MvhdNotFound(e));
        },
    };
    let mvhd_version_and_flags: u32 = match mvhd_box.read_u32(&Endianness::Big) {
        Ok(flags) => flags,
        Err(e) => {
            return Err(Mp4Error::Version(e));
        },
    };
    let mvhd_version: u32 = mvhd_version_and_flags / 0x100_0000;
    if mvhd_version == 0 {
        let creation_time: u32 = match mvhd_box.read_u32(&Endianness::Big) {
            Ok(time) => time,
            Err(e) => {
                return Err(Mp4Error::CreationTime(e));
            },
        };
        match mvhd_box.read_u32(&Endianness::Big) {
            Ok(_) => Ok(creation_time as u64),
            Err(e) => Err(Mp4Error::ModificationTime(e)),
        }
    } else if mvhd_version == 1 {
        let creation_time: u64 = match mvhd_box.read_u64(&Endianness::Big) {
            Ok(time) => time,
            Err(e) => {
                return Err(Mp4Error::CreationTime(e));
            },
        };
        match mvhd_box.read_u64(&Endianness::Big) {
            Ok(_) => Ok(creation_time),
            Err(e) => Err(Mp4Error::ModificationTime(e)),
        }
    } else {
        Err(Mp4Error::UnsupportedVersion(mvhd_version))
    }
}

/// The seconds from 1970 to the moment `timestamp` seconds after the start
/// of 1904, where they fit in an `i64`.
pub open spec fn unix_seconds(timestamp: u64) -> Result<i64, Mp4Error> {
    if timestamp - MP4_EPOCH_OFFSET > i64::MAX {
        Err(Mp4Error::TimestampOverflow((timestamp - MP4_EPOCH_OFFSET) as u64))
    } else {
        Ok((timestamp - MP4_EPOCH_OFFSET) as i64)
    }
}

/// Converts seconds from 1904 to seconds from 1970.
pub fn to_unix_seconds(timestamp: u64) -> (r: Result<i64, Mp4Error>)
    ensures
        r == unix_seconds(timestamp),
{
    if timestamp >= MP4_EPOCH_OFFSET {
        let seconds: u64 = timestamp - MP4_EPOCH_OFFSET;
        if seconds > i64::MAX as u64 {
            Err(Mp4Error::TimestampOverflow(seconds))
        } else {
            Ok(seconds as i64)
        }
    } else {
        Ok(-((MP4_EPOCH_OFFSET - timestamp) as i64))
    }
}

/// The strftime pattern of a canonical timestamp.
pub open spec fn timestamp_pattern() -> Seq<char> {
    "%Y%m%d-%H%M%S"@
}

/// The calendar date and time in UTC of the moment `seconds` after the
/// start of 1970, written by chrono after the strftime pattern `pattern`;
/// nothing where chrono has no date for the moment.
pub uninterp spec fn utc_calendar_text(seconds: i64, pattern: Seq<char>) -> Option<Seq<char>>;

/// Formats the moment `seconds` after the start of 1970 in UTC, with
/// chrono's `Utc.timestamp_opt(seconds, 0)`, `single()`, and `format`
/// with the pattern of a canonical timestamp. The result depends on the
/// two arguments alone; the contract gives it a name and says no more.
#[verifier::external_body]
fn format_utc(seconds: i64, pattern: &str) -> (r: Option<String>)
    requires
        pattern@ == timestamp_pattern(),
    ensures
        text_view(r) == utc_calendar_text(seconds, pattern@),
{
    match chrono::TimeZone::timestamp_opt(&chrono::Utc, seconds, 0).single() {
        Some(moment) => Some(moment.format(pattern).to_string()),
        None => None,
    }
}

/// Formats the moment `seconds` after the start of 1970 in the time zone
/// of the machine, with chrono's `Local.timestamp_opt(seconds, 0)`,
/// `single()`, and `format` with the pattern of a canonical timestamp.
/// The time zone is read from the environment, so nothing is claimed of
/// the result.
#[verifier::external_body]
fn format_local(seconds: i64, pattern: &str) -> (r: Option<String>)
    requires
        pattern@ == timestamp_pattern(),
{
    match chrono::TimeZone::timestamp_opt(&chrono::Local, seconds, 0).single() {
        Some(moment) => Some(moment.format(pattern).to_string()),
        None => None,
    }
}

/// The timestamp of an MP4 file whose creation time is `timestamp`
/// seconds after the start of 1904 and was formatted as `formatted`: that
/// text, where there is one and it is a canonical timestamp.
pub open spec fn checked_timestamp(formatted: Option<Seq<char>>, timestamp: u64) -> Result<
    Seq<char>,
    Mp4Error,
> {
    match formatted {
        Some(text) => if is_timestamp(text) {
            Ok(text)
        } else {
            Err(Mp4Error::NoCalendarDate(timestamp))
        },
        None => Err(Mp4Error::NoCalendarDate(timestamp)),
    }
}

/// The text in `r`, or its error.
pub open spec fn mp4_outcome(r: Result<String, Mp4Error>) -> Result<Seq<char>, Mp4Error> {
    match r {
        Ok(s) => Ok(s@),
        Err(e) => Err(e),
    }
}

/// Accepts the text that a calendar made of the creation time `timestamp`
/// where it is a canonical timestamp.
pub fn check_timestamp(formatted: Option<String>, timestamp: u64) -> (r: Result<String, Mp4Error>)
    ensures
        mp4_outcome(r) == checked_timestamp(text_view(formatted), timestamp),
{
    match formatted {
        Some(text) => if is_canonical_timestamp(text.as_str()) {
            Ok(text)
        } else {
            Err(Mp4Error::NoCalendarDate(timestamp))
        },
        None => Err(Mp4Error::NoCalendarDate(timestamp)),
    }
}

/// The metadata of the file that `v` views, created at `timestamp`.
pub open spec fn mp4_metadata(v: InputView, timestamp: Seq<char>) -> FileMetadataView {
    FileMetadataView { file_name: v.name, creation_timestamp: timestamp, extension: v.ext }
}

/// What the decoder returns for a file whose creation time is `timestamp`
/// seconds after the start of 1904, where the calendar writes `formatted`
/// for that moment.
pub open spec fn mp4_timestamp_outcome(
    v: InputView,
    timestamp: u64,
    formatted: Option<Seq<char>>,
) -> Result<Option<FileMetadataView>, FailureView> {
    match unix_seconds(timestamp) {
        Err(e) => Err(e.failure(v.name)),
        Ok(_) => match checked_timestamp(formatted, timestamp) {
            Err(e) => Err(e.failure(v.name)),
            Ok(text) => Ok(Some(mp4_metadata(v, text))),
        },
    }
}

/// The metadata of the file of `input`, whose creation time is `timestamp`
/// seconds after the start of 1904. The moment is written as a date in
/// UTC where `utc` is set, else in the time zone of the machine.
///
/// In UTC the result is the one that [`mp4_timestamp_outcome`] gives for
/// the text that chrono writes. In the local time zone the text depends
/// on the machine: the result is the one for some text.
pub fn format_mp4_timestamp(timestamp: u64, input: &Input, utc: bool) -> (r: Result<
    Option<FileMetadata>,
    Failure,
>)
    ensures
        exists|formatted: Option<Seq<char>>|
            outcome_view(r) == #[trigger] mp4_timestamp_outcome(input@, timestamp, formatted),
        utc && unix_seconds(timestamp) is Ok ==> outcome_view(r) == mp4_timestamp_outcome(
            input@,
            timestamp,
            utc_calendar_text(unix_seconds(timestamp)->Ok_0, timestamp_pattern()),
        ),
        r is Ok ==> r->Ok_0 is Some && is_timestamp(r->Ok_0->Some_0@.creation_timestamp),
{
    let seconds: i64 = match to_unix_seconds(timestamp) {
        Ok(seconds) => seconds,
        Err(e) => {
            let failure = e.to_failure(input.name());
            assert(outcome_view(Err(failure)) == mp4_timestamp_outcome(input@, timestamp, None));
            return Err(failure);
        },
    };
    let formatted: Option<String> = if utc {
        format_utc(seconds, "%Y%m%d-%H%M%S")
    } else {
        format_local(seconds, "%Y%m%d-%H%M%S")
    };
    let ghost written = text_view(formatted);
    match check_timestamp(formatted, timestamp) {
        Ok(text) => {
            let metadata = FileMetadata {
                file_name: String::from_str(input.name()),
                creation_timestamp: text,
                extension: String::from_str(input.ext()),
            };
            assert(outcome_view(Ok(Some(metadata))) == mp4_timestamp_outcome(
                input@,
                timestamp,
                written,
            ));
            Ok(Some(metadata))
        },
        Err(e) => {
            let failure = e.to_failure(input.name());
            assert(outcome_view(Err(failure)) == mp4_timestamp_outcome(
                input@,
                timestamp,
                written,
            ));
            Err(failure)
        },
    }
}

/// What the decoder returns for the file that `v` views, where the
/// calendar writes `formatted` for the moment of its creation.
pub open spec fn mp4_file_outcome(v: InputView, formatted: Option<Seq<char>>) -> Result<
    Option<FileMetadataView>,
    FailureView,
> {
    match mvhd_creation_time(v) {
        Err(e) => Err(e.failure(v.name)),
        Ok(timestamp) => mp4_timestamp_outcome(v, timestamp, formatted),
    }
}

/// The creation time of an MP4 file: reads the creation time in the movie
/// header and writes it as a canonical timestamp, in UTC where `utc` is
/// set and else in the time zone of the machine.
pub fn mp4_extract_metadata_creation_timestamp(input: &mut Input, utc: bool) -> (r: Result<
    Option<FileMetadata>,
    Failure,
>)
    ensures
        exists|formatted: Option<Seq<char>>|
            outcome_view(r) == #[trigger] mp4_file_outcome(old(input)@, formatted),
        utc && mvhd_creation_time(old(input)@) is Ok && unix_seconds(
            mvhd_creation_time(old(input)@)->Ok_0,
        ) is Ok ==> outcome_view(r) == mp4_file_outcome(
            old(input)@,
            utc_calendar_text(
                unix_seconds(mvhd_creation_time(old(input)@)->Ok_0)->Ok_0,
                timestamp_pattern(),
            ),
        ),
        mvhd_creation_time(old(input)@) is Err ==> outcome_view(r) == Err::<
            Option<FileMetadataView>,
            FailureView,
        >(mvhd_creation_time(old(input)@)->Err_0.failure(old(input)@.name)),
        r is Ok ==> r->Ok_0 is Some && is_timestamp(r->Ok_0->Some_0@.creation_timestamp),
        final(input)@ == scan_for_box(old(input)@, "moov"@, None).rest,
{
    let read = read_mvhd_creation_time(input);
    proof {
        lemma_scan_moves_cursor_only(old(input)@, "moov"@, None);
        assert(input@.name == input@.at(0).name);
        assert(input@.ext == input@.at(0).ext);
    }
    match read {
        Err(e) => {
            let failure = e.to_failure(input.name());
            assert(outcome_view(Err(failure)) == mp4_file_outcome(old(input)@, None));
            Err(failure)
        },
        Ok(creation_time) => {
            let r = format_mp4_timestamp(creation_time, input, utc);
            proof {
                let formatted = choose|formatted: Option<Seq<char>>|
                    outcome_view(r) == #[trigger] mp4_timestamp_outcome(
                        input@,
                        creation_time,
                        formatted,
                    );
                assert(outcome_view(r) == mp4_file_outcome(old(input)@, formatted));
            }
            r
        },
    }
}

} // verus!
