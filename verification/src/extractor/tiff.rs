//! The TIFF decoder: walks the graph of image file directories of a TIFF
//! stream and returns the earliest of the creation dates it refers to.

use crate::FileMetadata;
use crate::FileMetadataView;
use crate::failures::Failure;
use crate::failures::FailureView;
use crate::text::ascii;
use crate::text::ascii_text;
use crate::text::decimal;
use crate::text::is_ascii_bytes;
use crate::text::lemma_ascii_encoding;
use crate::text::lemma_ascii_is_utf8;
use crate::text::lemma_bytes_less_asymmetric;
use crate::text::lemma_bytes_less_irreflexive;
use crate::text::numbered;
use crate::text::numbered_pair;
use crate::text::str_eq;
use crate::text::str_less;
use crate::text::text_less;
use crate::text::text_view;
use crate::timestamp::digit_byte;
use crate::timestamp::is_digit;
use crate::timestamp::is_timestamp;
use super::Endianness;
use super::input::Input;
use super::input::InputError;
use super::input::InputView;
use super::outcome_view;
use vstd::prelude::*;
use vstd::string::StringExecFns;
use vstd::string::StringSliceAdditionalSpecFns;
use vstd::utf8::encode_utf8;
use vstd::utf8::is_ascii_chars;
use vstd::utf8::is_ascii_chars_encode_utf8;

verus! {

/// The read during which the input failed.
#[derive(Clone, Copy, Debug, PartialEq, Eq, Structural)]
pub enum TiffStep {
    /// The two bytes of the byte order mark.
    Header,
    /// The magic number.
    Magic,
    /// The offset of the first directory.
    FirstIfd,
    /// The seek to the date at this offset.
    DateSeek(u32),
    /// The date at this offset.
    Date(u32),
    /// The seek to the directory at this offset.
    IfdSeek(u32),
    /// The field count of the directory at this offset.
    FieldCount(u32),
    /// The tag of the field with this index.
    FieldTag(u16),
    /// The type of the field with this index.
    FieldType(u16),
    /// The value count of the field with this index.
    FieldValues(u16),
    /// The value offset of the field with this index.
    FieldOffset(u16),
    /// The offset of the next directory.
    NextIfd,
}

/// Why a TIFF stream gave no date.
#[derive(Debug, PartialEq, Eq)]
pub enum TiffError {
    /// The input refused a read or a seek.
    Io { step: TiffStep, cause: InputError },
    /// The stream starts with neither `II` nor `MM`.
    InvalidHeader { header: String },
    /// The magic number is not 42.
    InvalidMagic { magic: u16 },
    /// A date tag whose type is not ASCII.
    DateTagType { tag: u16, field_type: u16 },
    /// A date tag whose value is not 20 bytes long.
    DateTagCount { tag: u16, count: u32 },
    /// An EXIF pointer whose type is not LONG.
    ExifPointerType { tag: u16, field_type: u16 },
    /// An EXIF pointer with more than one value.
    ExifPointerCount { tag: u16, count: u32 },
    /// No directory refers to a date.
    NoDateTags,
    /// The earliest date is not of the form `YYYY:MM:DD HH:MM:SS`.
    InvalidDate { text: String },
}

/// A [`TiffError`] in contracts.
pub enum TiffFault {
    Io { step: TiffStep, cause: InputError },
    InvalidHeader { header: Seq<char> },
    InvalidMagic { magic: u16 },
    DateTagType { tag: u16, field_type: u16 },
    DateTagCount { tag: u16, count: u32 },
    ExifPointerType { tag: u16, field_type: u16 },
    ExifPointerCount { tag: u16, count: u32 },
    NoDateTags,
    InvalidDate { text: Seq<char> },
}

impl View for TiffError {
    type V = TiffFault;

    open spec fn view(&self) -> TiffFault {
        match *self {
            TiffError::Io { step, cause } => TiffFault::Io { step, cause },
            TiffError::InvalidHeader { header } => TiffFault::InvalidHeader { header: header@ },
            TiffError::InvalidMagic { magic } => TiffFault::InvalidMagic { magic },
            TiffError::DateTagType { tag, field_type } => TiffFault::DateTagType {
                tag,
                field_type,
            },
            TiffError::DateTagCount { tag, count } => TiffFault::DateTagCount { tag, count },
            TiffError::ExifPointerType { tag, field_type } => TiffFault::ExifPointerType {
                tag,
                field_type,
            },
            TiffError::ExifPointerCount { tag, count } => TiffFault::ExifPointerCount {
                tag,
                count,
            },
            TiffError::NoDateTags => TiffFault::NoDateTags,
            TiffError::InvalidDate { text } => TiffFault::InvalidDate { text: text@ },
        }
    }
}

/// The text in `r`, or the view of its error.
pub open spec fn tiff_outcome(r: Result<String, TiffError>) -> Result<Seq<char>, TiffFault> {
    match r {
        Ok(s) => Ok(s@),
        Err(e) => Err(e@),
    }
}

/// `s` has the form of an EXIF date: `YYYY:MM:DD HH:MM:SS`, where the two
/// separators of the date may each be a colon or a dash.
pub open spec fn is_exif_date(s: Seq<char>) -> bool {
    &&& s.len() == 19
    &&& is_digit(s[0]) && is_digit(s[1]) && is_digit(s[2]) && is_digit(s[3])
    &&& (s[4] == ':' || s[4] == '-')
    &&& is_digit(s[5]) && is_digit(s[6])
    &&& (s[7] == ':' || s[7] == '-')
    &&& is_digit(s[8]) && is_digit(s[9])
    &&& s[10] == ' '
    &&& is_digit(s[11]) && is_digit(s[12])
    &&& s[13] == ':'
    &&& is_digit(s[14]) && is_digit(s[15])
    &&& s[16] == ':'
    &&& is_digit(s[17]) && is_digit(s[18])
}

/// The digits of the EXIF date `s`, with a dash between date and time.
pub open spec fn timestamp_of(s: Seq<char>) -> Seq<char> {
    seq![
        s[0],
        s[1],
        s[2],
        s[3],
        s[5],
        s[6],
        s[8],
        s[9],
        '-',
        s[11],
        s[12],
        s[14],
        s[15],
        s[17],
        s[18],
    ]
}

/// What [`match_and_format_exif_date`] makes of `s`.
pub open spec fn format_exif_date(s: Seq<char>) -> Result<Seq<char>, TiffFault> {
    if is_exif_date(s) {
        Ok(timestamp_of(s))
    } else {
        Err(TiffFault::InvalidDate { text: s })
    }
}

/// The timestamp of an EXIF date is canonical.
pub proof fn lemma_timestamp_of_exif_date(s: Seq<char>)
    requires
        is_exif_date(s),
    ensures
        is_timestamp(timestamp_of(s)),
{
}

/// Whether the nineteen bytes have the form of an EXIF date.
fn exif_date_bytes(b: &[u8]) -> (r: bool)
    requires
        b@.len() == 19,
    ensures
        r ==> is_ascii_bytes(b@) && is_exif_date(ascii(b@)),
        !r ==> !(is_ascii_bytes(b@) && is_exif_date(ascii(b@))),
{
    let shape: bool = digit_byte(b[0]) && digit_byte(b[1]) && digit_byte(b[2]) && digit_byte(b[3])
        && (b[4] == 58 || b[4] == 45) && digit_byte(b[5]) && digit_byte(b[6]) && (b[7] == 58
        || b[7] == 45) && digit_byte(b[8]) && digit_byte(b[9]) && b[10] == 32 && digit_byte(b[11])
        && digit_byte(b[12]) && b[13] == 58 && digit_byte(b[14]) && digit_byte(b[15]) && b[16]
        == 58 && digit_byte(b[17]) && digit_byte(b[18]);
    proof {
        let s = ascii(b@);
        assert(forall|i: int| 0 <= i < 19 ==> s[i] == b@[i] as char);
        if shape {
            assert(is_ascii_bytes(b@)) by {
                assert forall|i: int| 0 <= i < b@.len() implies #[trigger] b@[i] < 128 by {
                    assert(i == 4 || i == 7 || i == 10 || i == 13 || i == 16 || 48 <= b@[i] <= 57);
                }
            }
        }
    }
    shape
}

/// Checks that `exif_date` has the form `YYYY:MM:DD HH:MM:SS`, a dash being
/// accepted for each separator of the date, and rewrites it in place to
/// the canonical `YYYYMMDD-HHMMSS`, which it also returns. A text of any
/// other form is refused and left as it is.
pub fn match_and_format_exif_date(exif_date: &mut String) -> (r: Result<String, TiffError>)
    ensures
        tiff_outcome(r) == format_exif_date(old(exif_date)@),
        r is Ok ==> is_timestamp(r.unwrap()@),
        final(exif_date)@ == (if r is Ok { r.unwrap()@ } else { old(exif_date)@ }),
{
    let b = exif_date.as_str().as_bytes();
    let ghost s = exif_date@;
    proof {
        if is_exif_date(s) {
            assert(is_ascii_chars(s));
            is_ascii_chars_encode_utf8(s);
            assert(is_ascii_bytes(b@)) by {
                assert forall|i: int| 0 <= i < b@.len() implies #[trigger] b@[i] < 128 by {
                    assert(s[i] as u8 == encode_utf8(s)[i]);
                }
            }
            lemma_ascii_encoding(s);
        }
    }
    if b.len() != 19 || !exif_date_bytes(b) {
        return Err(TiffError::InvalidDate { text: exif_date.clone() });
    }
    proof {
        lemma_ascii_encoding(s);
    }
    let mut out: Vec<u8> = Vec::new();
    out.push(b[0]);
    out.push(b[1]);
    out.push(b[2]);
    out.push(b[3]);
    out.push(b[5]);
    out.push(b[6]);
    out.push(b[8]);
    out.push(b[9]);
    out.push(45);
    out.push(b[11]);
    out.push(b[12]);
    out.push(b[14]);
    out.push(b[15]);
    out.push(b[17]);
    out.push(b[18]);
    proof {
        assert(is_ascii_bytes(out@)) by {
            assert forall|i: int| 0 <= i < out@.len() implies #[trigger] out@[i] < 128 by {
                assert(forall|j: int| 0 <= j < 19 ==> b@[j] < 128);
            }
        }
        assert(ascii(out@) =~= timestamp_of(s));
        lemma_timestamp_of_exif_date(s);
    }
    let formatted = ascii_text(out);
    *exif_date = formatted.clone();
    Ok(formatted)
}

/// The offsets that a walk has still to visit, each list in the order of
/// discovery.
pub struct Pending {
    /// Offsets of directories.
    pub ifds: Seq<u32>,
    /// Offsets of date values.
    pub dates: Seq<u32>,
}

/// Where a walk stands: the outcome so far and the input as the walk
/// leaves it.
pub struct Walk<T> {
    pub outcome: Result<T, TiffFault>,
    pub rest: InputView,
}

/// The byte order that the header announces.
pub open spec fn byte_order(header: Seq<char>) -> Option<Endianness> {
    if header == "II"@ {
        Some(Endianness::Little)
    } else if header == "MM"@ {
        Some(Endianness::Big)
    } else {
        None
    }
}

/// One of DateTime, DateTimeOriginal and DateTimeDigitized.
pub open spec fn is_date_tag(tag: u16) -> bool {
    tag == 0x0132 || tag == 0x9003 || tag == 0x9004
}

/// The tag of the pointer to the EXIF directory.
pub const EXIF_IFD_POINTER: u16 = 0x8769;

/// What a field of a directory adds to the pending offsets, or why the
/// field is refused.
pub open spec fn field_effect(
    tag: u16,
    field_type: u16,
    count: u32,
    value: u32,
    pending: Pending,
) -> Result<Pending, TiffFault> {
    if is_date_tag(tag) {
        if field_type != 2 {
            Err(TiffFault::DateTagType { tag, field_type })
        } else if count != 20 {
            Err(TiffFault::DateTagCount { tag, count })
        } else {
            Ok(Pending { dates: pending.dates.push(value), ..pending })
        }
    } else if tag == EXIF_IFD_POINTER {
        if field_type != 4 {
            Err(TiffFault::ExifPointerType { tag, field_type })
        } else if count != 1 {
            Err(TiffFault::ExifPointerCount { tag, count })
        } else {
            Ok(Pending { ifds: pending.ifds.push(value), ..pending })
        }
    } else {
        Ok(pending)
    }
}

/// Reads the fields `index..count` of a directory, the cursor of `v`
/// standing at the field `index`.
pub open spec fn read_fields(
    v: InputView,
    bo: Endianness,
    index: nat,
    count: nat,
    pending: Pending,
) -> Walk<Pending>
    decreases count - index,
{
    if index >= count {
        Walk { outcome: Ok(pending), rest: v }
    } else {
        let i = index as u16;
        let v1 = v.advanced(2);
        let v2 = v.advanced(4);
        let v3 = v.advanced(8);
        let v4 = v.advanced(12);
        match v.read_u16(bo) {
            Err(cause) => Walk {
                outcome: Err(TiffFault::Io { step: TiffStep::FieldTag(i), cause }),
                rest: v,
            },
            Ok(tag) => match v1.read_u16(bo) {
                Err(cause) => Walk {
                    outcome: Err(TiffFault::Io { step: TiffStep::FieldType(i), cause }),
                    rest: v1,
                },
                Ok(field_type) => match v2.read_u32(bo) {
                    Err(cause) => Walk {
                        outcome: Err(TiffFault::Io { step: TiffStep::FieldValues(i), cause }),
                        rest: v2,
                    },
                    Ok(values) => match v3.read_u32(bo) {
                        Err(cause) => Walk {
                            outcome: Err(TiffFault::Io { step: TiffStep::FieldOffset(i), cause }),
                            rest: v3,
                        },
                        Ok(value) => match field_effect(tag, field_type, values, value, pending) {
                            Err(fault) => Walk { outcome: Err(fault), rest: v4 },
                            Ok(grown) => read_fields(v4, bo, index + 1, count, grown),
                        },
                    },
                },
            },
        }
    }
}

/// Reads the directory at `offset`: its field count, its fields, and the
/// offset of the next directory, which is pending unless it is zero.
pub open spec fn read_directory(
    v: InputView,
    bo: Endianness,
    offset: u32,
    pending: Pending,
) -> Walk<Pending> {
    let v0 = v.at(offset as nat);
    match v.seek(offset as nat) {
        Err(cause) => Walk {
            outcome: Err(TiffFault::Io { step: TiffStep::IfdSeek(offset), cause }),
            rest: v,
        },
        Ok(_) => match v0.read_u16(bo) {
            Err(cause) => Walk {
                outcome: Err(TiffFault::Io { step: TiffStep::FieldCount(offset), cause }),
                rest: v0,
            },
            Ok(count) => {
                let fields = read_fields(v0.advanced(2), bo, 0, count as nat, pending);
                match fields.outcome {
                    Err(fault) => fields,
                    Ok(grown) => match fields.rest.read_u32(bo) {
                        Err(cause) => Walk {
                            outcome: Err(TiffFault::Io { step: TiffStep::NextIfd, cause }),
                            rest: fields.rest,
                        },
                        Ok(next) => Walk {
                            outcome: Ok(
                                if next != 0 {
                                    Pending { ifds: grown.ifds.push(next), ..grown }
                                } else {
                                    grown
                                },
                            ),
                            rest: fields.rest.advanced(4),
                        },
                    },
                }
            },
        }
    }
}

/// Reads the nineteen bytes of the date at `offset`.
pub open spec fn read_date(v: InputView, offset: u32) -> Walk<Seq<char>> {
    let v0 = v.at(offset as nat);
    match v.seek(offset as nat) {
        Err(cause) => Walk {
            outcome: Err(TiffFault::Io { step: TiffStep::DateSeek(offset), cause }),
            rest: v,
        },
        Ok(_) => match v0.read_string(19) {
            Err(cause) => Walk {
                outcome: Err(TiffFault::Io { step: TiffStep::Date(offset), cause }),
                rest: v0,
            },
            Ok(text) => Walk { outcome: Ok(text), rest: v0.advanced(19) },
        },
    }
}

/// The index of the first occurrence of the smallest number in `s`.
pub open spec fn min_index(s: Seq<u32>) -> int
    decreases s.len(),
{
    if s.len() <= 1 {
        0
    } else {
        let m = min_index(s.drop_last());
        if s.last() < s[m] {
            s.len() - 1
        } else {
            m
        }
    }
}

/// `min_index` finds the smallest number, at its first occurrence.
pub proof fn lemma_min_index(s: Seq<u32>)
    requires
        s.len() > 0,
    ensures
        0 <= min_index(s) < s.len(),
        forall|j: int| 0 <= j < s.len() ==> s[min_index(s)] <= #[trigger] s[j],
        forall|j: int| 0 <= j < min_index(s) ==> s[min_index(s)] < #[trigger] s[j],
    decreases s.len(),
{
    if s.len() > 1 {
        lemma_min_index(s.drop_last());
        let m = min_index(s.drop_last());
        assert forall|j: int| 0 <= j < s.len() implies s[min_index(s)] <= #[trigger] s[j] by {
            if j < s.len() - 1 {
                assert(s.drop_last()[j] == s[j]);
            }
        }
        assert forall|j: int| 0 <= j < min_index(s) implies s[min_index(s)] < #[trigger] s[j] by {
            assert(s.drop_last()[j] == s[j]);
        }
    }
}

/// The earlier of the dates `best` and `found`, in the order of `str`.
pub open spec fn earlier(best: Option<Seq<char>>, found: Seq<char>) -> Option<Seq<char>> {
    match best {
        None => Some(found),
        Some(b) => if text_less(found, b) {
            Some(found)
        } else {
            best
        },
    }
}

/// The earliest date wins: `earlier` keeps one of the two dates, and
/// neither of them comes before the one it keeps.
pub proof fn lemma_earlier_is_the_minimum(best: Option<Seq<char>>, found: Seq<char>)
    ensures
        earlier(best, found) == Some(found) || earlier(best, found) == best,
        earlier(best, found) is Some,
        !text_less(found, earlier(best, found)->Some_0),
        best is Some ==> !text_less(best->Some_0, earlier(best, found)->Some_0),
{
    lemma_bytes_less_irreflexive(encode_utf8(found));
    if best is Some {
        lemma_bytes_less_irreflexive(encode_utf8(best->Some_0));
        if text_less(found, best->Some_0) {
            lemma_bytes_less_asymmetric(encode_utf8(found), encode_utf8(best->Some_0));
        }
    }
}

/// The offsets that no directory in `seen` lies at.
pub open spec fn unseen(seen: Seq<u32>) -> Set<int> {
    Set::new(|x: int| 0 <= x < 0x1_0000_0000 && !seen.contains(x as u32))
}

/// Whether the walk turns to a date next: there is one pending, and no
/// pending directory lies before it.
pub open spec fn date_is_next(pending: Pending) -> bool {
    pending.dates.len() > 0 && (pending.ifds.len() == 0 || pending.dates[min_index(pending.dates)]
        <= pending.ifds[min_index(pending.ifds)])
}

/// Reading a directory for the first time leaves fewer offsets unseen.
pub proof fn lemma_unseen_shrinks(seen: Seq<u32>, offset: u32)
    requires
        !seen.contains(offset),
    ensures
        unseen(seen).finite(),
        unseen(seen.push(offset)).len() < unseen(seen).len(),
{
    let all = Set::new(|x: int| 0 <= x < 0x1_0000_0000);
    vstd::set_lib::lemma_int_range(0, 0x1_0000_0000);
    assert(all =~= vstd::set_lib::set_int_range(0, 0x1_0000_0000));
    assert(unseen(seen).subset_of(all));
    vstd::set_lib::lemma_len_subset(unseen(seen), all);
    assert(unseen(seen.push(offset)) =~= unseen(seen).remove(offset as int)) by {
        assert forall|x: int| unseen(seen.push(offset)).contains(x) <==> unseen(seen).remove(
            offset as int,
        ).contains(x) by {
            if 0 <= x < 0x1_0000_0000 {
                let y = x as u32;
                if seen.push(offset).contains(y) {
                    let i = choose|i: int|
                        0 <= i < seen.push(offset).len() && seen.push(offset)[i] == y;
                    if i < seen.len() {
                        assert(seen[i] == y);
                    }
                }
                if seen.contains(y) {
                    let i = choose|i: int| 0 <= i < seen.len() && seen[i] == y;
                    assert(seen.push(offset)[i] == y);
                }
                if y == offset {
                    assert(seen.push(offset)[seen.len() as int] == y);
                }
            }
        }
    }
    assert(unseen(seen).contains(offset as int));
}

/// Visits the pending offsets, the smallest first and a date before a
/// directory at the same offset, until none is left, and returns the
/// earliest date found. A directory is read when its offset comes up for
/// the first time: reading it again would find the same fields.
pub open spec fn walk(
    v: InputView,
    bo: Endianness,
    pending: Pending,
    best: Option<Seq<char>>,
    seen: Seq<u32>,
) -> Walk<Option<Seq<char>>>
    decreases unseen(seen).len(), pending.ifds.len() + pending.dates.len(),
{
    if pending.ifds.len() == 0 && pending.dates.len() == 0 {
        Walk { outcome: Ok(best), rest: v }
    } else if date_is_next(pending) {
        proof {
            lemma_min_index(pending.dates);
        }
        let at = min_index(pending.dates);
        let left = Pending { dates: pending.dates.remove(at), ..pending };
        let date = read_date(v, pending.dates[at]);
        match date.outcome {
            Err(fault) => Walk { outcome: Err(fault), rest: date.rest },
            Ok(found) => walk(date.rest, bo, left, earlier(best, found), seen),
        }
    } else {
        proof {
            lemma_min_index(pending.ifds);
        }
        let at = min_index(pending.ifds);
        let offset = pending.ifds[at];
        let left = Pending { ifds: pending.ifds.remove(at), ..pending };
        if seen.contains(offset) {
            walk(v, bo, left, best, seen)
        } else {
            proof {
                lemma_unseen_shrinks(seen, offset);
            }
            let directory = read_directory(v, bo, offset, left);
            match directory.outcome {
                Err(fault) => Walk { outcome: Err(fault), rest: directory.rest },
                Ok(grown) => walk(directory.rest, bo, grown, best, seen.push(offset)),
            }
        }
    }
}

/// What the decoder makes of a TIFF stream that starts at the cursor of
/// `v`: the canonical timestamp of the earliest date, or the first fault.
pub open spec fn decode_tiff(v: InputView) -> Walk<Seq<char>> {
    let v1 = v.advanced(2);
    let v2 = v.advanced(4);
    let v3 = v.advanced(8);
    match v.read_string(2) {
        Err(cause) => Walk {
            outcome: Err(TiffFault::Io { step: TiffStep::Header, cause }),
            rest: v,
        },
        Ok(header) => match byte_order(header) {
            None => Walk { outcome: Err(TiffFault::InvalidHeader { header }), rest: v1 },
            Some(bo) => match v1.read_u16(bo) {
                Err(cause) => Walk {
                    outcome: Err(TiffFault::Io { step: TiffStep::Magic, cause }),
                    rest: v1,
                },
                Ok(magic) => if magic != 42 {
                    Walk { outcome: Err(TiffFault::InvalidMagic { magic }), rest: v2 }
                } else {
                    match v2.read_u32(bo) {
                        Err(cause) => Walk {
                            outcome: Err(TiffFault::Io { step: TiffStep::FirstIfd, cause }),
                            rest: v2,
                        },
                        Ok(first) => {
                            let found = walk(
                                v3,
                                bo,
                                Pending { ifds: seq![first], dates: seq![] },
                                None,
                                seq![],
                            );
                            match found.outcome {
                                Err(fault) => Walk { outcome: Err(fault), rest: found.rest },
                                Ok(None) => Walk {
                                    outcome: Err(TiffFault::NoDateTags),
                                    rest: found.rest,
                                },
                                Ok(Some(date)) => Walk {
                                    outcome: format_exif_date(date),
                                    rest: found.rest,
                                },
                            }
                        },
                    }
                },
            },
        },
    }
}

/// Takes the smallest number out of `list`, at its first occurrence.
fn take_smallest(list: &mut Vec<u32>) -> (r: u32)
    requires
        old(list)@.len() > 0,
    ensures
        r == old(list)@[min_index(old(list)@)],
        final(list)@ == old(list)@.remove(min_index(old(list)@)),
{
    let mut at: usize = 0;
    let mut i: usize = 1;
    while i < list.len()
        invariant
            1 <= i <= list@.len(),
            at == min_index(list@.take(i as int)),
            0 <= at < i,
        decreases list@.len() - i,
    {
        proof {
            assert(list@.take(i + 1).drop_last() =~= list@.take(i as int));
        }
        if list[i] < list[at] {
            at = i;
        }
        i += 1;
    }
    proof {
        assert(list@.take(i as int) =~= list@);
    }
    list.remove(at)
}

/// Whether `x` occurs in `list`.
fn occurs(list: &Vec<u32>, x: u32) -> (r: bool)
    ensures
        r == list@.contains(x),
{
    let mut i: usize = 0;
    while i < list.len()
        invariant
            i <= list@.len(),
            forall|j: int| 0 <= j < i ==> list@[j] != x,
        decreases list@.len() - i,
    {
        if list[i] == x {
            return true;
        }
        i += 1;
    }
    false
}

/// Reads the date at `offset`.
fn date_at(input: &mut Input, offset: u32) -> (r: Result<String, TiffError>)
    ensures
        tiff_outcome(r) == read_date(old(input)@, offset).outcome,
        final(input)@ == read_date(old(input)@, offset).rest,
{
    match input.seek(offset as u64) {
        Ok(_) => {},
        Err(cause) => {
            return Err(TiffError::Io { step: TiffStep::DateSeek(offset), cause });
        },
    }
    match input.read_string(19) {
        Ok(text) => Ok(text),
        Err(cause) => Err(TiffError::Io { step: TiffStep::Date(offset), cause }),
    }
}

/// Reads `fields` fields of a directory from the cursor on and adds the
/// offsets they refer to to the two lists.
fn fields_at(
    input: &mut Input,
    bo: &Endianness,
    fields: u16,
    ifds: &mut Vec<u32>,
    dates: &mut Vec<u32>,
) -> (r: Result<(), TiffError>)
    ensures
        final(input)@ == read_fields(
            old(input)@,
            *bo,
            0,
            fields as nat,
            Pending { ifds: old(ifds)@, dates: old(dates)@ },
        ).rest,
        match read_fields(
            old(input)@,
            *bo,
            0,
            fields as nat,
            Pending { ifds: old(ifds)@, dates: old(dates)@ },
        ).outcome {
            Ok(grown) => r is Ok && final(ifds)@ == grown.ifds && final(dates)@ == grown.dates,
            Err(fault) => r is Err && r->Err_0@ == fault,
        },
{
    let ghost goal = read_fields(
        input@,
        *bo,
        0,
        fields as nat,
        Pending { ifds: ifds@, dates: dates@ },
    );
    let mut i: u16 = 0;
    while i < fields
        invariant
            i <= fields,
            read_fields(input@, *bo, i as nat, fields as nat, Pending { ifds: ifds@, dates: dates@ })
                == goal,
            goal == read_fields(
                old(input)@,
                *bo,
                0,
                fields as nat,
                Pending { ifds: old(ifds)@, dates: old(dates)@ },
            ),
        decreases fields - i,
    {
        let field_tag: u16 = match input.read_u16(bo) {
            Ok(tag) => tag,
            Err(cause) => {
                return Err(TiffError::Io { step: TiffStep::FieldTag(i), cause });
            },
        };
        let field_type: u16 = match input.read_u16(bo) {
            Ok(field_type) => field_type,
            Err(cause) => {
                return Err(TiffError::Io { step: TiffStep::FieldType(i), cause });
            },
        };
        let field_count: u32 = match input.read_u32(bo) {
            Ok(count) => count,
            Err(cause) => {
                return Err(TiffError::Io { step: TiffStep::FieldValues(i), cause });
            },
        };
        let field_value_offset: u32 = match input.read_u32(bo) {
            Ok(value) => value,
            Err(cause) => {
                return Err(TiffError::Io { step: TiffStep::FieldOffset(i), cause });
            },
        };
        if field_tag == 0x0132 || field_tag == 0x9003 || field_tag == 0x9004 {
            if field_type != 2 {
                return Err(TiffError::DateTagType { tag: field_tag, field_type });
            }
            if field_count != 20 {
                return Err(TiffError::DateTagCount { tag: field_tag, count: field_count });
            }
            dates.push(field_value_offset);
        } else if field_tag == EXIF_IFD_POINTER {
            if field_type != 4 {
                return Err(TiffError::ExifPointerType { tag: field_tag, field_type });
            }
            if field_count != 1 {
                return Err(TiffError::ExifPointerCount { tag: field_tag, count: field_count });
            }
            ifds.push(field_value_offset);
        }
        i = i + 1;
    }
    Ok(())
}

/// Reads the directory at `offset` and adds the offsets it refers to to
/// the two lists.
fn directory_at(
    input: &mut Input,
    bo: &Endianness,
    offset: u32,
    ifds: &mut Vec<u32>,
    dates: &mut Vec<u32>,
) -> (r: Result<(), TiffError>)
    ensures
        final(input)@ == read_directory(
            old(input)@,
            *bo,
            offset,
            Pending { ifds: old(ifds)@, dates: old(dates)@ },
        ).rest,
        match read_directory(
            old(input)@,
            *bo,
            offset,
            Pending { ifds: old(ifds)@, dates: old(dates)@ },
        ).outcome {
            Ok(grown) => r is Ok && final(ifds)@ == grown.ifds && final(dates)@ == grown.dates,
            Err(fault) => r is Err && r->Err_0@ == fault,
        },
{
    match input.seek(offset as u64) {
        Ok(_) => {},
        Err(cause) => {
            return Err(TiffError::Io { step: TiffStep::IfdSeek(offset), cause });
        },
    }
    let fields: u16 = match input.read_u16(bo) {
        Ok(fields) => fields,
        Err(cause) => {
            return Err(TiffError::Io { step: TiffStep::FieldCount(offset), cause });
        },
    };
    match fields_at(input, bo, fields, ifds, dates) {
        Ok(_) => {},
        Err(e) => {
            return Err(e);
        },
    }
    let next_ifd_offset: u32 = match input.read_u32(bo) {
        Ok(next) => next,
        Err(cause) => {
            return Err(TiffError::Io { step: TiffStep::NextIfd, cause });
        },
    };
    if next_ifd_offset != 0 {
        ifds.push(next_ifd_offset);
    }
    Ok(())
}

/// Visits the directory at `first` and whatever it leads to, and returns
/// the earliest date found.
fn earliest_date(input: &mut Input, bo: &Endianness, first: u32) -> (r: Result<
    Option<String>,
    TiffError,
>)
    ensures
        final(input)@ == walk(
            old(input)@,
            *bo,
            Pending { ifds: seq![first], dates: seq![] },
            None,
            seq![],
        ).rest,
        match walk(
            old(input)@,
            *bo,
            Pending { ifds: seq![first], dates: seq![] },
            None,
            seq![],
        ).outcome {
            Ok(best) => r is Ok && text_view(r->Ok_0) == best,
            Err(fault) => r is Err && r->Err_0@ == fault,
        },
{
    let mut ifd_offsets: Vec<u32> = Vec::new();
    let mut date_tag_offsets: Vec<u32> = Vec::new();
    let mut seen: Vec<u32> = Vec::new();
    let mut earliest_creation_date: Option<String> = None;
    ifd_offsets.push(first);
    let ghost goal = walk(
        input@,
        *bo,
        Pending { ifds: seq![first], dates: seq![] },
        None,
        seq![],
    );
    proof {
        assert(ifd_offsets@ =~= seq![first]);
        assert(date_tag_offsets@ =~= seq![]);
        assert(seen@ =~= seq![]);
    }
    while ifd_offsets.len() > 0 || date_tag_offsets.len() > 0
        invariant
            walk(
                input@,
                *bo,
                Pending { ifds: ifd_offsets@, dates: date_tag_offsets@ },
                text_view(earliest_creation_date),
                seen@,
            ) == goal,
            goal == walk(
                old(input)@,
                *bo,
                Pending { ifds: seq![first], dates: seq![] },
                None,
                seq![],
            ),
        decreases unseen(seen@).len(), ifd_offsets@.len() + date_tag_offsets@.len(),
    {
        let date_next: bool = date_tag_offsets.len() > 0 && (ifd_offsets.len() == 0 || smallest(
            &date_tag_offsets,
        ) <= smallest(&ifd_offsets));
        if date_next {
            proof {
                lemma_min_index(date_tag_offsets@);
            }
            let next_date_offset: u32 = take_smallest(&mut date_tag_offsets);
            let date_tag: String = match date_at(input, next_date_offset) {
                Ok(text) => text,
                Err(e) => {
                    return Err(e);
                },
            };
            earliest_creation_date =
            match earliest_creation_date {
                None => Some(date_tag),
                Some(best) => if str_less(date_tag.as_str(), best.as_str()) {
                    Some(date_tag)
                } else {
                    Some(best)
                },
            };
        } else {
            proof {
                lemma_min_index(ifd_offsets@);
            }
            let next_ifd_offset: u32 = take_smallest(&mut ifd_offsets);
            if !occurs(&seen, next_ifd_offset) {
                proof {
                    lemma_unseen_shrinks(seen@, next_ifd_offset);
                }
                match directory_at(
                    input,
                    bo,
                    next_ifd_offset,
                    &mut ifd_offsets,
                    &mut date_tag_offsets,
                ) {
                    Ok(_) => {},
                    Err(e) => {
                        return Err(e);
                    },
                }
                seen.push(next_ifd_offset);
            }
        }
    }
    Ok(earliest_creation_date)
}

/// Decodes the TIFF stream that starts at the cursor of `input` and
/// returns the earliest of the dates that its directories refer to, as a
/// canonical timestamp `YYYYMMDD-HHMMSS`.
///
/// The directories form a graph of offsets. The decoder keeps the offsets
/// it has still to visit and always turns to the smallest, a date before
/// a directory at the same offset. A directory that comes up again is not
/// read a second time, so a cycle of directories ends the walk instead of
/// prolonging it; the module `revisits` proves that nothing else comes of
/// it.
pub fn tiff_extract_metadata_creation_timestamp(input: &mut Input) -> (r: Result<
    String,
    TiffError,
>)
    ensures
        tiff_outcome(r) == decode_tiff(old(input)@).outcome,
        final(input)@ == decode_tiff(old(input)@).rest,
        r is Ok ==> is_timestamp(r.unwrap()@),
{
    let header: String = match input.read_string(2) {
        Ok(header) => header,
        Err(cause) => {
            return Err(TiffError::Io { step: TiffStep::Header, cause });
        },
    };
    let endianness: Endianness = if str_eq(header.as_str(), "II") {
        Endianness::Little
    } else if str_eq(header.as_str(), "MM") {
        Endianness::Big
    } else {
        return Err(TiffError::InvalidHeader { header });
    };
    let tiff_magic: u16 = match input.read_u16(&endianness) {
        Ok(magic) => magic,
        Err(cause) => {
            return Err(TiffError::Io { step: TiffStep::Magic, cause });
        },
    };
    if tiff_magic != 42 {
        return Err(TiffError::InvalidMagic { magic: tiff_magic });
    }
    let first: u32 = match input.read_u32(&endianness) {
        Ok(first) => first,
        Err(cause) => {
            return Err(TiffError::Io { step: TiffStep::FirstIfd, cause });
        },
    };
    match earliest_date(input, &endianness, first) {
        Err(e) => Err(e),
        Ok(None) => Err(TiffError::NoDateTags),
        Ok(Some(date)) => {
            let mut date = date;
            match_and_format_exif_date(&mut date)
        },
    }
}

/// The smallest number in `list`.
fn smallest(list: &Vec<u32>) -> (r: u32)
    requires
        list@.len() > 0,
    ensures
        r == list@[min_index(list@)],
{
    let mut at: usize = 0;
    let mut i: usize = 1;
    while i < list.len()
        invariant
            1 <= i <= list@.len(),
            at == min_index(list@.take(i as int)),
            0 <= at < i,
        decreases list@.len() - i,
    {
        proof {
            assert(list@.take(i + 1).drop_last() =~= list@.take(i as int));
        }
        if list[i] < list[at] {
            at = i;
        }
        i += 1;
    }
    proof {
        assert(list@.take(i as int) =~= list@);
    }
    list[at]
}

/// `pending` with the offsets of `found` behind its own.
pub open spec fn with_found(pending: Pending, found: Pending) -> Pending {
    Pending { ifds: pending.ifds + found.ifds, dates: pending.dates + found.dates }
}

/// No offsets.
pub open spec fn nothing_pending() -> Pending {
    Pending { ifds: Seq::empty(), dates: Seq::empty() }
}

/// What the fields of a directory add to the pending offsets does not
/// depend on what is pending.
pub proof fn lemma_fields_read_alike(
    v: InputView,
    bo: Endianness,
    index: nat,
    count: nat,
    pending: Pending,
)
    ensures
        read_fields(v, bo, index, count, pending).rest == read_fields(
            v,
            bo,
            index,
            count,
            nothing_pending(),
        ).rest,
        read_fields(v, bo, index, count, pending).outcome == match read_fields(
            v,
            bo,
            index,
            count,
            nothing_pending(),
        ).outcome {
            Ok(found) => Ok(with_found(pending, found)),
            Err(fault) => Err(fault),
        },
    decreases count - index,
{
    let none = nothing_pending();
    if index >= count {
        assert(with_found(pending, none).ifds =~= pending.ifds);
        assert(with_found(pending, none).dates =~= pending.dates);
    } else {
        let v4 = v.advanced(12);
        match v.read_u16(bo) {
            Err(_) => {},
            Ok(tag) => match v.advanced(2).read_u16(bo) {
                Err(_) => {},
                Ok(field_type) => match v.advanced(4).read_u32(bo) {
                    Err(_) => {},
                    Ok(values) => match v.advanced(8).read_u32(bo) {
                        Err(_) => {},
                        Ok(value) => match field_effect(tag, field_type, values, value, pending) {
                            Err(_) => {},
                            Ok(grown) => {
                                let first = field_effect(tag, field_type, values, value, none)->Ok_0;
                                lemma_fields_read_alike(v4, bo, index + 1, count, grown);
                                lemma_fields_read_alike(v4, bo, index + 1, count, first);
                                match read_fields(v4, bo, index + 1, count, none).outcome {
                                    Err(_) => {},
                                    Ok(found) => {
                                        let a = with_found(grown, found);
                                        let b = with_found(pending, with_found(first, found));
                                        assert(a.ifds =~= b.ifds);
                                        assert(a.dates =~= b.dates);
                                    },
                                }
                            },
                        },
                    },
                },
            },
        }
    }
}

/// A directory reads the same every time: what comes of reading the
/// directory at `offset` depends neither on where the cursor stands nor on
/// what is pending, to which it adds the same offsets or gives the same
/// fault. This is why the walk reads no directory twice.
pub proof fn lemma_directory_reads_alike(
    v: InputView,
    cursor: nat,
    bo: Endianness,
    offset: u32,
    pending: Pending,
)
    ensures
        read_directory(v.at(cursor), bo, offset, pending).outcome == match read_directory(
            v,
            bo,
            offset,
            nothing_pending(),
        ).outcome {
            Ok(found) => Ok(with_found(pending, found)),
            Err(fault) => Err(fault),
        },
{
    let none = nothing_pending();
    let v0 = v.at(offset as nat);
    assert(v.at(cursor).at(offset as nat) == v0);
    if v.seek(offset as nat) is Ok && v0.read_u16(bo) is Ok {
        let count = v0.read_u16(bo)->Ok_0 as nat;
        lemma_fields_read_alike(v0.advanced(2), bo, 0, count, pending);
        let fields = read_fields(v0.advanced(2), bo, 0, count, none);
        if fields.outcome is Ok && fields.rest.read_u32(bo) is Ok {
            let found = fields.outcome->Ok_0;
            let next = fields.rest.read_u32(bo)->Ok_0;
            if next != 0 {
                let more = Pending { ifds: found.ifds.push(next), ..found };
                assert(with_found(pending, more).ifds =~= with_found(pending, found).ifds.push(
                    next,
                ));
            }
        }
    }
}

/// Reading fields moves the cursor and nothing else.
pub proof fn lemma_read_fields_moves_cursor_only(
    v: InputView,
    bo: Endianness,
    index: nat,
    count: nat,
    pending: Pending,
)
    ensures
        read_fields(v, bo, index, count, pending).rest.at(0) == v.at(0),
    decreases count - index,
{
    if index < count {
        let v4 = v.advanced(12);
        match v.read_u16(bo) {
            Err(_) => {},
            Ok(tag) => match v.advanced(2).read_u16(bo) {
                Err(_) => {},
                Ok(field_type) => match v.advanced(4).read_u32(bo) {
                    Err(_) => {},
                    Ok(values) => match v.advanced(8).read_u32(bo) {
                        Err(_) => {},
                        Ok(value) => match field_effect(tag, field_type, values, value, pending) {
                            Err(_) => {},
                            Ok(grown) => {
                                lemma_read_fields_moves_cursor_only(v4, bo, index + 1, count, grown);
                            },
                        },
                    },
                },
            },
        }
    }
}

/// A walk moves the cursor and nothing else.
pub proof fn lemma_walk_moves_cursor_only(
    v: InputView,
    bo: Endianness,
    pending: Pending,
    best: Option<Seq<char>>,
    seen: Seq<u32>,
)
    ensures
        walk(v, bo, pending, best, seen).rest.at(0) == v.at(0),
    decreases unseen(seen).len(), pending.ifds.len() + pending.dates.len(),
{
    if pending.ifds.len() == 0 && pending.dates.len() == 0 {
    } else if date_is_next(pending) {
        lemma_min_index(pending.dates);
        let at = min_index(pending.dates);
        let left = Pending { dates: pending.dates.remove(at), ..pending };
        let date = read_date(v, pending.dates[at]);
        match date.outcome {
            Err(_) => {},
            Ok(found) => {
                lemma_walk_moves_cursor_only(date.rest, bo, left, earlier(best, found), seen);
            },
        }
    } else {
        lemma_min_index(pending.ifds);
        let at = min_index(pending.ifds);
        let offset = pending.ifds[at];
        let left = Pending { ifds: pending.ifds.remove(at), ..pending };
        if seen.contains(offset) {
            lemma_walk_moves_cursor_only(v, bo, left, best, seen);
        } else {
            lemma_unseen_shrinks(seen, offset);
            let directory = read_directory(v, bo, offset, left);
            lemma_read_fields_moves_cursor_only(
                v.at(offset as nat).advanced(2),
                bo,
                0,
                v.at(offset as nat).read_u16(bo)->Ok_0 as nat,
                left,
            );
            match directory.outcome {
                Err(_) => {},
                Ok(grown) => {
                    lemma_walk_moves_cursor_only(directory.rest, bo, grown, best, seen.push(offset));
                },
            }
        }
    }
}

/// Decoding moves the cursor of the input and nothing else.
pub proof fn lemma_decode_tiff_moves_cursor_only(v: InputView)
    ensures
        decode_tiff(v).rest.at(0) == v.at(0),
{
    match v.read_string(2) {
        Err(_) => {},
        Ok(header) => match byte_order(header) {
            None => {},
            Some(bo) => match v.advanced(2).read_u16(bo) {
                Err(_) => {},
                Ok(magic) => match v.advanced(4).read_u32(bo) {
                    Err(_) => {},
                    Ok(first) => {
                        lemma_walk_moves_cursor_only(
                            v.advanced(8),
                            bo,
                            Pending { ifds: seq![first], dates: seq![] },
                            None,
                            seq![],
                        );
                    },
                },
            },
        },
    }
}

impl TiffStep {
    /// What the decoder was doing at the step.
    pub open spec fn text(self) -> Seq<char> {
        match self {
            TiffStep::Header => "TIFF failed to read endianness header"@,
            TiffStep::Magic => "TIFF failed to read magic number header"@,
            TiffStep::FirstIfd => "TIFF failed to read first IFD offset"@,
            TiffStep::DateSeek(offset) => "TIFF failed to fast-forward to next date tag offset: "@
                + decimal(offset as nat),
            TiffStep::Date(offset) => "TIFF failed to read date tag at offset: "@ + decimal(
                offset as nat,
            ),
            TiffStep::IfdSeek(offset) => "TIFF failed to fast-forward to next IFD offset: "@
                + decimal(offset as nat),
            TiffStep::FieldCount(offset) => "TIFF failed to read IFD field count at offset: "@
                + decimal(offset as nat),
            TiffStep::FieldTag(field) => "TIFF failed to read field tag for field: "@ + decimal(
                field as nat,
            ),
            TiffStep::FieldType(field) => "TIFF failed to read field type for field: "@ + decimal(
                field as nat,
            ),
            TiffStep::FieldValues(field) => "TIFF failed to read field count for field: "@
                + decimal(field as nat),
            TiffStep::FieldOffset(field) => "TIFF failed to read field value offset for field: "@
                + decimal(field as nat),
            TiffStep::NextIfd => "TIFF failed to read next IFD offset"@,
        }
    }

    /// What the decoder was doing at the step.
    pub fn message(&self) -> (r: String)
        ensures
            r@ == self.text(),
    {
        match *self {
            TiffStep::Header => String::from_str("TIFF failed to read endianness header"),
            TiffStep::Magic => String::from_str("TIFF failed to read magic number header"),
            TiffStep::FirstIfd => String::from_str("TIFF failed to read first IFD offset"),
            TiffStep::DateSeek(offset) => numbered(
                "TIFF failed to fast-forward to next date tag offset: ",
                offset as u128,
            ),
            TiffStep::Date(offset) => numbered(
                "TIFF failed to read date tag at offset: ",
                offset as u128,
            ),
            TiffStep::IfdSeek(offset) => numbered(
                "TIFF failed to fast-forward to next IFD offset: ",
                offset as u128,
            ),
            TiffStep::FieldCount(offset) => numbered(
                "TIFF failed to read IFD field count at offset: ",
                offset as u128,
            ),
            TiffStep::FieldTag(field) => numbered(
                "TIFF failed to read field tag for field: ",
                field as u128,
            ),
            TiffStep::FieldType(field) => numbered(
                "TIFF failed to read field type for field: ",
                field as u128,
            ),
            TiffStep::FieldValues(field) => numbered(
                "TIFF failed to read field count for field: ",
                field as u128,
            ),
            TiffStep::FieldOffset(field) => numbered(
                "TIFF failed to read field value offset for field: ",
                field as u128,
            ),
            TiffStep::NextIfd => String::from_str("TIFF failed to read next IFD offset"),
        }
    }
}

impl TiffFault {
    /// What the failure says happened.
    pub open spec fn description(self) -> Seq<char> {
        match self {
            TiffFault::Io { step, cause } => step.text(),
            TiffFault::InvalidHeader { header } => "invalid TIFF file header: "@ + header,
            TiffFault::InvalidMagic { magic } => "invalid TIFF magic number: "@ + decimal(
                magic as nat,
            ),
            TiffFault::DateTagType { tag, field_type } => "expected tag has unexpected type: "@
                + decimal(tag as nat) + " == "@ + decimal(field_type as nat),
            TiffFault::DateTagCount { tag, count } => "expected tag has unexpected count: "@
                + decimal(tag as nat) + " == "@ + decimal(count as nat),
            TiffFault::ExifPointerType {
                tag,
                field_type,
            } => "EXIF pointer tag has unexpected type: "@ + decimal(tag as nat) + " == "@
                + decimal(field_type as nat),
            TiffFault::ExifPointerCount { tag, count } => "EXIF pointer tag has unexpected size: "@
                + decimal(tag as nat) + " == "@ + decimal(count as nat),
            TiffFault::NoDateTags => "TIFF no date tags were found"@,
            TiffFault::InvalidDate { text } => "invalid exif date format: "@ + text,
        }
    }

    /// The words of the error of the input behind the failure; empty where
    /// there is none.
    pub open spec fn cause(self) -> Seq<char> {
        match self {
            TiffFault::Io { step, cause } => cause.text(),
            _ => Seq::empty(),
        }
    }

    /// The failure that the fault is reported as, on the file `file_name`.
    pub open spec fn failure(self, file_name: Seq<char>) -> FailureView {
        FailureView::File { file_name, description: self.description(), cause: self.cause() }
    }
}

impl TiffError {
    /// What the failure says happened.
    pub fn description(&self) -> (r: String)
        ensures
            r@ == self@.description(),
    {
        match self {
            TiffError::Io { step, cause } => step.message(),
            TiffError::InvalidHeader { header } => {
                let mut text = String::from_str("invalid TIFF file header: ");
                text.append(header.as_str());
                text
            },
            TiffError::InvalidMagic { magic } => numbered(
                "invalid TIFF magic number: ",
                *magic as u128,
            ),
            TiffError::DateTagType { tag, field_type } => numbered_pair(
                "expected tag has unexpected type: ",
                *tag as u128,
                " == ",
                *field_type as u128,
            ),
            TiffError::DateTagCount { tag, count } => numbered_pair(
                "expected tag has unexpected count: ",
                *tag as u128,
                " == ",
                *count as u128,
            ),
            TiffError::ExifPointerType { tag, field_type } => numbered_pair(
                "EXIF pointer tag has unexpected type: ",
                *tag as u128,
                " == ",
                *field_type as u128,
            ),
            TiffError::ExifPointerCount { tag, count } => numbered_pair(
                "EXIF pointer tag has unexpected size: ",
                *tag as u128,
                " == ",
                *count as u128,
            ),
            TiffError::NoDateTags => String::from_str("TIFF no date tags were found"),
            TiffError::InvalidDate { text } => {
                let mut message = String::from_str("invalid exif date format: ");
                message.append(text.as_str());
                message
            },
        }
    }

    /// The words of the error of the input behind the failure; empty where
    /// there is none.
    pub fn cause(&self) -> (r: String)
        ensures
            r@ == self@.cause(),
    {
        match self {
            TiffError::Io { step, cause } => cause.message(),
            _ => String::new(),
        }
    }

    /// The failure that the error is reported as, on the file `file_name`.
    pub fn to_failure(&self, file_name: &str) -> (r: Failure)
        ensures
            r@ == self@.failure(file_name@),
    {
        Failure::file_failure_strcause(
            String::from_str(file_name),
            self.description(),
            self.cause(),
        )
    }
}

/// The metadata of a file `file_name` with the extension `ext` whose TIFF
/// stream gave `timestamp`.
pub open spec fn tiff_metadata(
    file_name: Seq<char>,
    ext: Seq<char>,
    timestamp: Seq<char>,
) -> FileMetadataView {
    FileMetadataView { file_name, creation_timestamp: timestamp, extension: "."@ + ext }
}

/// The metadata of the file of `input`, whose TIFF stream gave `timestamp`.
pub fn new_tiff_metadata(input: &Input, timestamp: String) -> (r: FileMetadata)
    ensures
        r@ == tiff_metadata(input@.name, input@.ext, timestamp@),
{
    let mut extension = String::from_str(".");
    extension.append(input.ext());
    FileMetadata {
        file_name: String::from_str(input.name()),
        creation_timestamp: timestamp,
        extension,
    }
}

/// What [`tiff_extract_metadata_creation_timestamp_file`] returns for the
/// file that `v` views.
pub open spec fn tiff_file_outcome(v: InputView) -> Result<Option<FileMetadataView>, FailureView> {
    match decode_tiff(v).outcome {
        Ok(timestamp) => Ok(Some(tiff_metadata(v.name, v.ext, timestamp))),
        Err(fault) => Err(fault.failure(v.name)),
    }
}

/// The creation time of a file that is a TIFF stream from the cursor of
/// `input` on: the earliest of its dates as the file's metadata, or the
/// failure that the decoder's error is reported as.
pub fn tiff_extract_metadata_creation_timestamp_file(input: &mut Input) -> (r: Result<
    Option<FileMetadata>,
    Failure,
>)
    ensures
        outcome_view(r) == tiff_file_outcome(old(input)@),
        final(input)@ == decode_tiff(old(input)@).rest,
        r is Ok ==> r->Ok_0 is Some && is_timestamp(r->Ok_0->Some_0@.creation_timestamp),
{
    let decoded = tiff_extract_metadata_creation_timestamp(input);
    proof {
        lemma_decode_tiff_moves_cursor_only(old(input)@);
        assert(input@.name == input@.at(0).name);
        assert(input@.ext == input@.at(0).ext);
    }
    match decoded {
        Ok(timestamp) => Ok(Some(new_tiff_metadata(input, timestamp))),
        Err(e) => Err(e.to_failure(input.name())),
    }
}

} // verus!
