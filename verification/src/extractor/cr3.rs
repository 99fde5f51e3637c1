//! The decoder of Canon CR3 files: two TIFF streams in boxes inside a box
//! that Canon marks with a UUID of its own.

use crate::FileMetadata;
use crate::FileMetadataView;
use crate::failures::Failure;
use crate::failures::FailureView;
use crate::failures::caused_by;
use crate::text::str_less;
use crate::text::text_less;
use crate::text::text_view;
use crate::timestamp::is_timestamp;
use super::input::Input;
use super::input::InputError;
use super::input::InputView;
use super::outcome_view;
use super::quicktime::lemma_scan_moves_cursor_only;
use super::quicktime::scan_for_box;
use super::tiff::TiffError;
use super::tiff::TiffFault;
use super::tiff::decode_tiff;
use super::tiff::new_tiff_metadata;
use super::tiff::tiff_extract_metadata_creation_timestamp;
use super::tiff::tiff_metadata;
use vstd::prelude::*;
use vstd::string::StringExecFns;

verus! {

/// The UUID `85c0b687-820f-11e0-8111-f4ce462b6a48` of the box in which
/// Canon keeps its metadata, as the upper and the lower eight bytes.
pub open spec fn canon_uuid() -> (u64, u64) {
    (0x85c0_b687_820f_11e0, 0x8111_f4ce_462b_6a48)
}

/// The UUID of the box in which Canon keeps its metadata.
pub fn canon_box_uuid() -> (r: (u64, u64))
    ensures
        r == canon_uuid(),
{
    (0x85c0_b687_820f_11e0, 0x8111_f4ce_462b_6a48)
}

/// A failure on `file_name` that an error of the input caused.
pub open spec fn input_failure(
    file_name: Seq<char>,
    description: Seq<char>,
    cause: InputError,
) -> FailureView {
    FailureView::File { file_name, description, cause: caused_by(cause.text()) }
}

/// The timestamp of the TIFF stream in the box `box_name`, looked for
/// from the cursor of `v` on: nothing where the stream refers to no date.
pub open spec fn tiff_box_timestamp(v: InputView, box_name: Seq<char>) -> Result<
    Option<Seq<char>>,
    FailureView,
> {
    match scan_for_box(v, box_name, None).outcome {
        Err(e) => Err(input_failure(v.name, "failed to find box: "@ + box_name, e)),
        Ok(section) => match decode_tiff(section).outcome {
            Ok(timestamp) => Ok(Some(timestamp)),
            Err(TiffFault::NoDateTags) => Ok(None),
            Err(fault) => Err(fault.failure(v.name)),
        },
    }
}

/// The text in `r`, or the view of its failure.
pub open spec fn found_view(r: Result<Option<String>, Failure>) -> Result<
    Option<Seq<char>>,
    FailureView,
> {
    match r {
        Ok(found) => Ok(text_view(found)),
        Err(failure) => Err(failure@),
    }
}

/// Decodes the TIFF stream in the first box named `box_name` from the
/// cursor of `input` on. A stream that refers to no date gives nothing;
/// any other error of the decoder is a failure.
pub fn extract_timestamp_from_tiff_box(box_name: &str, input: &mut Input) -> (r: Result<
    Option<String>,
    Failure,
>)
    ensures
        found_view(r) == tiff_box_timestamp(old(input)@, box_name@),
        final(input)@ == scan_for_box(old(input)@, box_name@, None).rest,
        r is Ok && r->Ok_0 is Some ==> is_timestamp(r->Ok_0->Some_0@),
{
    let found = input.quicktime_search_box(box_name);
    proof {
        lemma_scan_moves_cursor_only(old(input)@, box_name@, None);
        assert(input@.name == input@.at(0).name);
    }
    let mut target_box = match found {
        Ok(target_box) => target_box,
        Err(e) => {
            let mut description = String::from_str("failed to find box: ");
            description.append(box_name);
            return Err(
                Failure::file_failure_caused(
                    String::from_str(input.name()),
                    description,
                    e.message().as_str(),
                ),
            );
        },
    };
    match tiff_extract_metadata_creation_timestamp(&mut target_box) {
        Ok(timestamp) => Ok(Some(timestamp)),
        Err(TiffError::NoDateTags) => Ok(None),
        Err(e) => Err(e.to_failure(input.name())),
    }
}

/// The earlier of two timestamps, where there are two; the one there is;
/// or nothing.
pub open spec fn earlier_timestamp(first: Option<Seq<char>>, second: Option<Seq<char>>) -> Option<
    Seq<char>,
> {
    match (first, second) {
        (None, _) => second,
        (Some(_), None) => first,
        (Some(a), Some(b)) => if text_less(a, b) {
            first
        } else {
            second
        },
    }
}

/// What the decoder returns for the CR3 file that `v` views: the earlier
/// of the timestamps of the boxes `CMT1` and `CMT2` inside Canon's box
/// inside the `moov` box.
pub open spec fn cr3_outcome(v: InputView) -> Result<Option<FileMetadataView>, FailureView> {
    match scan_for_box(v, "moov"@, None).outcome {
        Err(e) => Err(input_failure(v.name, "moov box not found"@, e)),
        Ok(moov) => match scan_for_box(moov, "uuid"@, Some(canon_uuid())).outcome {
            Err(e) => Err(input_failure(v.name, "canon box not found"@, e)),
            Ok(canon) => match tiff_box_timestamp(canon, "CMT1"@) {
                Err(failure) => Err(failure),
                Ok(first) => match tiff_box_timestamp(canon, "CMT2"@) {
                    Err(failure) => Err(failure),
                    Ok(second) => match earlier_timestamp(first, second) {
                        None => Err(
                            FailureView::File {
                                file_name: v.name,
                                description: "timestamps not found in CMT1 and CMT2 boxes"@,
                                cause: Seq::empty(),
                            },
                        ),
                        Some(timestamp) => Ok(Some(tiff_metadata(v.name, v.ext, timestamp))),
                    },
                },
            },
        },
    }
}

/// The decoder never answers that a CR3 file is of no supported kind, and
/// where Canon's box is found it goes by the two boxes in it: a file in
/// which only one of them refers to a date gets that date, and a file in
/// which neither does is a failure.
pub proof fn lemma_cr3_goes_by_both_boxes(v: InputView)
    ensures
        cr3_outcome(v) != Ok::<Option<FileMetadataView>, FailureView>(None),
        ({
            let moov = scan_for_box(v, "moov"@, None).outcome;
            let canon = scan_for_box(moov->Ok_0, "uuid"@, Some(canon_uuid())).outcome;
            let first = tiff_box_timestamp(canon->Ok_0, "CMT1"@);
            let second = tiff_box_timestamp(canon->Ok_0, "CMT2"@);
            moov is Ok && canon is Ok && first is Ok && second is Ok ==> {
                &&& first->Ok_0 is None && second->Ok_0 is Some ==> cr3_outcome(v) == Ok::<
                    Option<FileMetadataView>,
                    FailureView,
                >(Some(tiff_metadata(v.name, v.ext, second->Ok_0->Some_0)))
                &&& first->Ok_0 is Some && second->Ok_0 is None ==> cr3_outcome(v) == Ok::<
                    Option<FileMetadataView>,
                    FailureView,
                >(Some(tiff_metadata(v.name, v.ext, first->Ok_0->Some_0)))
                &&& first->Ok_0 is None && second->Ok_0 is None ==> cr3_outcome(v) is Err
            }
        }),
{
}

/// The creation time of a Canon CR3 file: the earlier of the timestamps
/// in the boxes `CMT1` and `CMT2`, or the one that is there. A file in
/// which neither box refers to a date is a failure.
pub fn cr3_extract_metadata_creation_timestamp(input: &mut Input) -> (r: Result<
    Option<FileMetadata>,
    Failure,
>)
    ensures
        outcome_view(r) == cr3_outcome(old(input)@),
        final(input)@ == scan_for_box(old(input)@, "moov"@, None).rest,
        r is Ok ==> r->Ok_0 is Some && is_timestamp(r->Ok_0->Some_0@.creation_timestamp),
{
    let found = input.quicktime_search_box("moov");
    proof {
        lemma_scan_moves_cursor_only(old(input)@, "moov"@, None);
        assert(input@.name == input@.at(0).name);
        assert(input@.ext == input@.at(0).ext);
    }
    let mut moov_box = match found {
        Ok(moov_box) => moov_box,
        Err(e) => {
            return Err(
                Failure::file_failure_caused(
                    String::from_str(input.name()),
                    String::from_str("moov box not found"),
                    e.message().as_str(),
                ),
            );
        },
    };
    let ghost moov = moov_box@;
    let mut canon_box = match moov_box.quicktime_search_uuid_box(canon_box_uuid()) {
        Ok(canon_box) => canon_box,
        Err(e) => {
            return Err(
                Failure::file_failure_caused(
                    String::from_str(input.name()),
                    String::from_str("canon box not found"),
                    e.message().as_str(),
                ),
            );
        },
    };
    let ghost canon = canon_box@;
    proof {
        lemma_scan_moves_cursor_only(moov, "uuid"@, Some(canon_uuid()));
        lemma_scan_moves_cursor_only(canon, "CMT1"@, None);
        assert(canon.name == input@.name);
    }
    let cmt1_timestamp = match extract_timestamp_from_tiff_box("CMT1", &mut canon_box) {
        Ok(found) => found,
        Err(failure) => {
            return Err(failure);
        },
    };
    match canon_box.seek(0) {
        Ok(_) => {},
        Err(e) => {
            return Err(
                Failure::file_failure_caused(
                    String::from_str(input.name()),
                    String::from_str("failed to rewind till canon box start"),
                    e.message().as_str(),
                ),
            );
        },
    }
    assert(canon_box@ == canon);
    let cmt2_timestamp = match extract_timestamp_from_tiff_box("CMT2", &mut canon_box) {
        Ok(found) => found,
        Err(failure) => {
            return Err(failure);
        },
    };
    let timestamp: Option<String> = match cmt1_timestamp {
        None => cmt2_timestamp,
        Some(first) => match cmt2_timestamp {
            None => Some(first),
            Some(second) => if str_less(first.as_str(), second.as_str()) {
                Some(first)
            } else {
                Some(second)
            },
        },
    };
    match timestamp {
        None => Err(
            Failure::file_failure(
                String::from_str(input.name()),
                String::from_str("timestamps not found in CMT1 and CMT2 boxes"),
            ),
        ),
        Some(timestamp) => Ok(Some(new_tiff_metadata(input, timestamp))),
    }
}

} // verus!
