use timestampname::extractor::cr3::cr3_extract_metadata_creation_timestamp;
use timestampname::extractor::extract_metadata_creation_timestamp;
use timestampname::extractor::input::Input;
use timestampname::extractor::input::InputError;
use timestampname::extractor::inputbox::InputBox;
use timestampname::extractor::jpeg::jpeg_extract_metadata_creation_timestamp;
use timestampname::extractor::jpeg::jpeg_scan_for_app1;
use timestampname::extractor::jpeg::JpegError;
use timestampname::extractor::jpeg::JpegStep;
use timestampname::extractor::mp4::mp4_extract_metadata_creation_timestamp;
use timestampname::extractor::mp4::read_mvhd_creation_time;
use timestampname::extractor::mp4::Mp4Error;
use timestampname::extractor::tiff::tiff_extract_metadata_creation_timestamp;
use timestampname::extractor::tiff::tiff_extract_metadata_creation_timestamp_file;
use timestampname::extractor::tiff::TiffError;
use timestampname::extractor::tiff::TiffStep;
use timestampname::failures::Failure;
use timestampname::FileMetadata;

fn file(name: &str, ext: &str, bytes: Vec<u8>) -> InputBox {
    InputBox::create(name.to_string(), ext.to_string(), bytes)
}

fn boxed(kind: &str, payload: &[u8]) -> Vec<u8> {
    let mut out = ((payload.len() + 8) as u32).to_be_bytes().to_vec();
    out.extend_from_slice(kind.as_bytes());
    out.extend_from_slice(payload);
    out
}

fn large_boxed(kind: &str, payload: &[u8]) -> Vec<u8> {
    let mut out = 1u32.to_be_bytes().to_vec();
    out.extend_from_slice(kind.as_bytes());
    out.extend_from_slice(&((payload.len() + 16) as u64).to_be_bytes());
    out.extend_from_slice(payload);
    out
}

fn le_field(tag: u16, kind: u16, count: u32, value: u32) -> Vec<u8> {
    let mut out = tag.to_le_bytes().to_vec();
    out.extend_from_slice(&kind.to_le_bytes());
    out.extend_from_slice(&count.to_le_bytes());
    out.extend_from_slice(&value.to_le_bytes());
    out
}

/// A little-endian TIFF stream with one directory at offset 8 that holds
/// the given fields, followed by the given tail.
fn le_tiff(fields: &[Vec<u8>], next: u32, tail: &[u8]) -> Vec<u8> {
    let mut out = b"II".to_vec();
    out.extend_from_slice(&42u16.to_le_bytes());
    out.extend_from_slice(&8u32.to_le_bytes());
    out.extend_from_slice(&(fields.len() as u16).to_le_bytes());
    for f in fields {
        out.extend_from_slice(f);
    }
    out.extend_from_slice(&next.to_le_bytes());
    out.extend_from_slice(tail);
    out
}

fn tiff_with_date(date: &str) -> Vec<u8> {
    let mut tail = date.as_bytes().to_vec();
    tail.push(0);
    le_tiff(&[le_field(0x9003, 2, 20, 26)], 0, &tail)
}

fn tiff_without_dates() -> Vec<u8> {
    le_tiff(&[], 0, &[0])
}

fn canon_uuid_bytes() -> Vec<u8> {
    vec![
        0x85, 0xc0, 0xb6, 0x87, 0x82, 0x0f, 0x11, 0xe0, 0x81, 0x11, 0xf4, 0xce, 0x46, 0x2b, 0x6a,
        0x48,
    ]
}

fn cr3(cmt1: &[u8], cmt2: &[u8]) -> Vec<u8> {
    let mut canon = canon_uuid_bytes();
    canon.extend_from_slice(&boxed("CMT1", cmt1));
    canon.extend_from_slice(&boxed("CMT2", cmt2));
    canon.push(0);
    let mut moov = boxed("uuid", &canon);
    moov.push(0);
    let mut out = boxed("ftyp", b"crx isom");
    out.extend_from_slice(&boxed("moov", &moov));
    out.push(0);
    out
}

fn mvhd0(creation: u32) -> Vec<u8> {
    let mut payload = 0u32.to_be_bytes().to_vec();
    payload.extend_from_slice(&creation.to_be_bytes());
    payload.extend_from_slice(&creation.to_be_bytes());
    payload.extend_from_slice(&[0; 88]);
    boxed("mvhd", &payload)
}

fn mvhd1(creation: u64) -> Vec<u8> {
    let mut payload = 0x0100_0000u32.to_be_bytes().to_vec();
    payload.extend_from_slice(&creation.to_be_bytes());
    payload.extend_from_slice(&creation.to_be_bytes());
    payload.extend_from_slice(&[0; 92]);
    boxed("mvhd", &payload)
}

fn mp4(mvhd: &[u8]) -> Vec<u8> {
    let mut moov = mvhd.to_vec();
    moov.extend_from_slice(&boxed("trak", &[0; 4]));
    let mut out = boxed("ftyp", b"isom");
    out.extend_from_slice(&boxed("moov", &moov));
    out.extend_from_slice(&boxed("mdat", &[0; 16]));
    out
}

fn jpeg(exif: &[u8]) -> Vec<u8> {
    let mut out = vec![0xFF, 0xD8];
    out.extend_from_slice(&[0xFF, 0xE0, 0x00, 0x06, 1, 2, 3, 4]);
    out.extend_from_slice(&[0xFF, 0xE1]);
    out.extend_from_slice(&((exif.len() + 8) as u16).to_be_bytes());
    out.extend_from_slice(b"Exif\0\0");
    out.extend_from_slice(exif);
    out.extend_from_slice(&[0xFF, 0xD9]);
    out
}

fn metadata(name: &str, timestamp: &str, extension: &str) -> FileMetadata {
    FileMetadata {
        file_name: name.to_string(),
        creation_timestamp: timestamp.to_string(),
        extension: extension.to_string(),
    }
}

#[test]
fn box_scanner_finds_moov() {
    let mut bytes = boxed("moov", &[1, 2, 3, 4, 5, 6, 7, 8]);
    bytes.extend_from_slice(&boxed("free", &[]));
    let source = file("a.mp4", "mp4", bytes);
    let mut input = Input::create(&source);
    let found = input.quicktime_search_box("moov").unwrap();
    assert_eq!(found.offset(), 8);
    assert_eq!(found.limit(), 8);
    assert_eq!(found.cursor(), 0);
    assert_eq!(input.cursor(), 8);
}

#[test]
fn box_scanner_section_reads_payload() {
    let mut bytes = boxed("free", &[9, 9]);
    bytes.extend_from_slice(&boxed("moov", &[0, 0, 1, 2, 5, 6, 7, 8]));
    bytes.push(0);
    let source = file("a.mp4", "mp4", bytes);
    let mut input = Input::create(&source);
    let mut found = input.quicktime_search_box("moov").unwrap();
    assert_eq!(found.offset(), 18);
    assert_eq!(found.read_u32(&timestampname::extractor::Endianness::Big), Ok(258));
}

#[test]
fn box_scanner_misses_with_end_of_data() {
    let mut bytes = boxed("moov", &[1, 2, 3, 4, 5, 6, 7, 8]);
    bytes.extend_from_slice(&boxed("free", &[]));
    let source = file("a.mp4", "mp4", bytes);
    let mut input = Input::create(&source);
    let missed = input.quicktime_search_box("miss");
    assert_eq!(
        missed.err(),
        Some(InputError::Eof { requested: 4, position: 20, limit: 24 })
    );
}

#[test]
fn box_scanner_reads_large_boxes() {
    let mut bytes = large_boxed("skip", &[0; 5]);
    bytes.extend_from_slice(&large_boxed("moov", &[7; 9]));
    bytes.push(0);
    let source = file("a.mp4", "mp4", bytes);
    let mut input = Input::create(&source);
    let found = input.quicktime_search_box("moov").unwrap();
    assert_eq!(found.offset(), 21 + 16);
    assert_eq!(found.limit(), 9);
}

#[test]
fn box_scanner_refuses_a_box_shorter_than_its_header() {
    let mut bytes = 4u32.to_be_bytes().to_vec();
    bytes.extend_from_slice(b"free");
    bytes.extend_from_slice(&[0; 8]);
    let source = file("a.mp4", "mp4", bytes);
    let mut input = Input::create(&source);
    let r = input.quicktime_search_box("moov");
    assert_eq!(r.err(), Some(InputError::ShortBox { size: 4, header: 8 }));
}

#[test]
fn uuid_box_is_matched_by_its_uuid() {
    let mut other = vec![0x11; 16];
    other.extend_from_slice(&[1, 2, 3]);
    let mut canon = canon_uuid_bytes();
    canon.extend_from_slice(&[4, 5, 6, 7]);
    let mut bytes = boxed("uuid", &other);
    bytes.extend_from_slice(&boxed("uuid", &canon));
    bytes.push(0);
    let source = file("a.cr3", "cr3", bytes);
    let mut input = Input::create(&source);
    let found = input
        .quicktime_search_uuid_box((0x85c0_b687_820f_11e0, 0x8111_f4ce_462b_6a48))
        .unwrap();
    assert_eq!(found.offset(), 27 + 8 + 16);
    assert_eq!(found.limit(), 4);
}

#[test]
fn tiff_single_date() {
    let source = file("a.nef", "nef", tiff_with_date("2021:06:15 10:20:30"));
    let mut input = Input::create(&source);
    assert_eq!(
        tiff_extract_metadata_creation_timestamp(&mut input),
        Ok("20210615-102030".to_string())
    );
}

#[test]
fn tiff_earliest_date_wins() {
    let mut tail = b"2021:06:15 10:20:30\0".to_vec();
    tail.extend_from_slice(b"2021:06:15 10:20:29\0");
    let bytes = le_tiff(&[le_field(0x9003, 2, 20, 38), le_field(0x0132, 2, 20, 58)], 0, &tail);
    let source = file("a.nef", "nef", bytes);
    let mut input = Input::create(&source);
    assert_eq!(
        tiff_extract_metadata_creation_timestamp(&mut input),
        Ok("20210615-102029".to_string())
    );
}

#[test]
fn tiff_big_endian_with_exif_directory() {
    let mut bytes = b"MM".to_vec();
    bytes.extend_from_slice(&42u16.to_be_bytes());
    bytes.extend_from_slice(&8u32.to_be_bytes());
    // directory at 8: one EXIF pointer to the directory at 26
    bytes.extend_from_slice(&1u16.to_be_bytes());
    bytes.extend_from_slice(&0x8769u16.to_be_bytes());
    bytes.extend_from_slice(&4u16.to_be_bytes());
    bytes.extend_from_slice(&1u32.to_be_bytes());
    bytes.extend_from_slice(&26u32.to_be_bytes());
    bytes.extend_from_slice(&0u32.to_be_bytes());
    // directory at 26: DateTimeDigitized at 44
    bytes.extend_from_slice(&1u16.to_be_bytes());
    bytes.extend_from_slice(&0x9004u16.to_be_bytes());
    bytes.extend_from_slice(&2u16.to_be_bytes());
    bytes.extend_from_slice(&20u32.to_be_bytes());
    bytes.extend_from_slice(&44u32.to_be_bytes());
    bytes.extend_from_slice(&0u32.to_be_bytes());
    bytes.extend_from_slice(b"2019-01-02 03:04:05\0");
    let source = file("a.dng", "dng", bytes);
    let mut input = Input::create(&source);
    assert_eq!(
        tiff_extract_metadata_creation_timestamp(&mut input),
        Ok("20190102-030405".to_string())
    );
}

#[test]
fn tiff_cycle_of_directories_ends() {
    let mut tail = b"2021:06:15 10:20:30\0".to_vec();
    tail.push(0);
    let bytes = le_tiff(&[le_field(0x9003, 2, 20, 26)], 8, &tail);
    let source = file("a.nef", "nef", bytes);
    let mut input = Input::create(&source);
    assert_eq!(
        tiff_extract_metadata_creation_timestamp(&mut input),
        Ok("20210615-102030".to_string())
    );
}

#[test]
fn tiff_without_date_tags_fails() {
    let source = file("a.nef", "nef", tiff_without_dates());
    let mut input = Input::create(&source);
    assert_eq!(tiff_extract_metadata_creation_timestamp(&mut input), Err(TiffError::NoDateTags));
}

#[test]
fn tiff_invalid_header() {
    let source = file("a.nef", "nef", b"XX*\0\x08\0\0\0\0".to_vec());
    let mut input = Input::create(&source);
    assert_eq!(
        tiff_extract_metadata_creation_timestamp(&mut input),
        Err(TiffError::InvalidHeader { header: "XX".to_string() })
    );
}

#[test]
fn tiff_invalid_magic() {
    let source = file("a.nef", "nef", b"II+\0\x08\0\0\0\0".to_vec());
    let mut input = Input::create(&source);
    assert_eq!(
        tiff_extract_metadata_creation_timestamp(&mut input),
        Err(TiffError::InvalidMagic { magic: 43 })
    );
}

#[test]
fn tiff_date_tag_of_wrong_type_or_count() {
    let source = file("a.nef", "nef", le_tiff(&[le_field(0x0132, 3, 20, 26)], 0, &[0; 21]));
    let mut input = Input::create(&source);
    assert_eq!(
        tiff_extract_metadata_creation_timestamp(&mut input),
        Err(TiffError::DateTagType { tag: 0x0132, field_type: 3 })
    );
    let source = file("a.nef", "nef", le_tiff(&[le_field(0x9004, 2, 19, 26)], 0, &[0; 21]));
    let mut input = Input::create(&source);
    assert_eq!(
        tiff_extract_metadata_creation_timestamp(&mut input),
        Err(TiffError::DateTagCount { tag: 0x9004, count: 19 })
    );
}

#[test]
fn tiff_exif_pointer_of_wrong_type_or_count() {
    let source = file("a.nef", "nef", le_tiff(&[le_field(0x8769, 3, 1, 26)], 0, &[0; 21]));
    let mut input = Input::create(&source);
    assert_eq!(
        tiff_extract_metadata_creation_timestamp(&mut input),
        Err(TiffError::ExifPointerType { tag: 0x8769, field_type: 3 })
    );
    let source = file("a.nef", "nef", le_tiff(&[le_field(0x8769, 4, 2, 26)], 0, &[0; 21]));
    let mut input = Input::create(&source);
    assert_eq!(
        tiff_extract_metadata_creation_timestamp(&mut input),
        Err(TiffError::ExifPointerCount { tag: 0x8769, count: 2 })
    );
}

#[test]
fn tiff_date_offset_out_of_range() {
    let source = file("a.nef", "nef", le_tiff(&[le_field(0x9003, 2, 20, 500)], 0, &[0; 21]));
    let mut input = Input::create(&source);
    assert_eq!(
        tiff_extract_metadata_creation_timestamp(&mut input),
        Err(TiffError::Io {
            step: TiffStep::DateSeek(500),
            cause: InputError::SeekEof { position: 500, limit: 47 },
        })
    );
}

#[test]
fn tiff_invalid_date_text() {
    let source = file("a.nef", "nef", tiff_with_date("2021:06:15T10:20:30"));
    let mut input = Input::create(&source);
    assert_eq!(
        tiff_extract_metadata_creation_timestamp(&mut input),
        Err(TiffError::InvalidDate { text: "2021:06:15T10:20:30".to_string() })
    );
}

#[test]
fn tiff_file_metadata_and_failure() {
    let source = file("a.nef", "nef", tiff_with_date("2021:06:15 10:20:30"));
    let mut input = Input::create(&source);
    assert_eq!(
        tiff_extract_metadata_creation_timestamp_file(&mut input),
        Ok(Some(metadata("a.nef", "20210615-102030", ".nef")))
    );
    let source = file("b.nef", "nef", b"II+\0\x08\0\0\0\0".to_vec());
    let mut input = Input::create(&source);
    assert_eq!(
        tiff_extract_metadata_creation_timestamp_file(&mut input),
        Err(Failure::file_failure("b.nef".to_string(), "invalid TIFF magic number: 43".to_string()))
    );
    let source = file("c.nef", "nef", b"II".to_vec());
    let mut input = Input::create(&source);
    assert_eq!(
        tiff_extract_metadata_creation_timestamp_file(&mut input),
        Err(Failure::file_failure_strcause(
            "c.nef".to_string(),
            "TIFF failed to read endianness header".to_string(),
            "EOF: reading 2 bytes from 0, input length: 2".to_string()
        ))
    );
}

#[test]
fn mp4_version_0_in_utc() {
    let source = file("clip.mp4", "mp4", mp4(&mvhd0(2082844800 + 1000)));
    let mut input = Input::create(&source);
    assert_eq!(
        mp4_extract_metadata_creation_timestamp(&mut input, true),
        Ok(Some(metadata("clip.mp4", "19700101-001640", "mp4")))
    );
}

#[test]
fn mp4_version_0_in_local_time() {
    let source = file("clip.mp4", "mp4", mp4(&mvhd0(2082844800 + 1000)));
    let mut input = Input::create(&source);
    let local = chrono::TimeZone::timestamp_opt(&chrono::Local, 1000, 0)
        .single()
        .unwrap()
        .format("%Y%m%d-%H%M%S")
        .to_string();
    assert_eq!(
        mp4_extract_metadata_creation_timestamp(&mut input, false),
        Ok(Some(metadata("clip.mp4", &local, "mp4")))
    );
}

#[test]
fn mp4_version_1_in_utc() {
    let source = file("clip.mp4", "mp4", mp4(&mvhd1(2082844800 + 1_600_000_000)));
    let mut input = Input::create(&source);
    assert_eq!(
        mp4_extract_metadata_creation_timestamp(&mut input, true),
        Ok(Some(metadata("clip.mp4", "20200913-122640", "mp4")))
    );
}

#[test]
fn mp4_before_1970() {
    let source = file("clip.mp4", "mp4", mp4(&mvhd0(0)));
    let mut input = Input::create(&source);
    assert_eq!(
        mp4_extract_metadata_creation_timestamp(&mut input, true),
        Ok(Some(metadata("clip.mp4", "19040101-000000", "mp4")))
    );
}

#[test]
fn mp4_timestamp_overflow() {
    let source = file("clip.mp4", "mp4", mp4(&mvhd1(u64::MAX)));
    let mut input = Input::create(&source);
    assert_eq!(
        mp4_extract_metadata_creation_timestamp(&mut input, true),
        Err(Failure::file_failure(
            "clip.mp4".to_string(),
            "mp4 timestamp overflows i64: 18446744071626706815".to_string()
        ))
    );
}

#[test]
fn mp4_timestamp_without_calendar_date() {
    let source = file("clip.mp4", "mp4", mp4(&mvhd1(1 << 50)));
    let mut input = Input::create(&source);
    assert_eq!(
        mp4_extract_metadata_creation_timestamp(&mut input, true),
        Err(Failure::file_failure(
            "clip.mp4".to_string(),
            "mp4 timestamp has no calendar date: 1125899906842624".to_string()
        ))
    );
}

#[test]
fn mp4_year_of_five_digits() {
    let source = file("clip.mp4", "mp4", mp4(&mvhd1(1 << 38)));
    let mut input = Input::create(&source);
    assert_eq!(
        mp4_extract_metadata_creation_timestamp(&mut input, true),
        Err(Failure::file_failure(
            "clip.mp4".to_string(),
            "mp4 timestamp has no calendar date: 274877906944".to_string()
        ))
    );
}

#[test]
fn mp4_last_second_of_the_year_9999() {
    let source = file("clip.mp4", "mp4", mp4(&mvhd1(2082844800 + 253402300799)));
    let mut input = Input::create(&source);
    assert_eq!(
        mp4_extract_metadata_creation_timestamp(&mut input, true),
        Ok(Some(metadata("clip.mp4", "99991231-235959", "mp4")))
    );
}

#[test]
fn mp4_unsupported_version() {
    let mut payload = 0x0200_0000u32.to_be_bytes().to_vec();
    payload.extend_from_slice(&[0; 96]);
    let source = file("clip.mp4", "mp4", mp4(&boxed("mvhd", &payload)));
    let mut input = Input::create(&source);
    assert_eq!(read_mvhd_creation_time(&mut input), Err(Mp4Error::UnsupportedVersion(2)));
    let mut input = Input::create(&source);
    assert_eq!(
        mp4_extract_metadata_creation_timestamp(&mut input, true),
        Err(Failure::file_failure(
            "clip.mp4".to_string(),
            "unsupported mvhd version: 2".to_string()
        ))
    );
}

#[test]
fn mp4_without_moov() {
    let source = file("clip.mp4", "mp4", boxed("ftyp", b"isom"));
    let mut input = Input::create(&source);
    assert_eq!(
        mp4_extract_metadata_creation_timestamp(&mut input, true),
        Err(Failure::file_failure_caused(
            "clip.mp4".to_string(),
            "moov box not found".to_string(),
            "EOF: seeking position 12, input length: 12"
        ))
    );
}

#[test]
fn cr3_second_box_only() {
    let source = file(
        "a.cr3",
        "cr3",
        cr3(&tiff_without_dates(), &tiff_with_date("2020:02:03 04:05:06")),
    );
    let mut input = Input::create(&source);
    assert_eq!(
        cr3_extract_metadata_creation_timestamp(&mut input),
        Ok(Some(metadata("a.cr3", "20200203-040506", ".cr3")))
    );
}

#[test]
fn cr3_first_box_only() {
    let source = file(
        "a.cr3",
        "cr3",
        cr3(&tiff_with_date("2020:02:03 04:05:06"), &tiff_without_dates()),
    );
    let mut input = Input::create(&source);
    assert_eq!(
        cr3_extract_metadata_creation_timestamp(&mut input),
        Ok(Some(metadata("a.cr3", "20200203-040506", ".cr3")))
    );
}

#[test]
fn cr3_earlier_box_wins() {
    let source = file(
        "a.cr3",
        "cr3",
        cr3(&tiff_with_date("2020:02:03 04:05:07"), &tiff_with_date("2020:02:03 04:05:06")),
    );
    let mut input = Input::create(&source);
    assert_eq!(
        cr3_extract_metadata_creation_timestamp(&mut input),
        Ok(Some(metadata("a.cr3", "20200203-040506", ".cr3")))
    );
    let source = file(
        "a.cr3",
        "cr3",
        cr3(&tiff_with_date("2019:12:31 23:59:59"), &tiff_with_date("2020:02:03 04:05:06")),
    );
    let mut input = Input::create(&source);
    assert_eq!(
        cr3_extract_metadata_creation_timestamp(&mut input),
        Ok(Some(metadata("a.cr3", "20191231-235959", ".cr3")))
    );
}

#[test]
fn cr3_without_dates_fails() {
    let source = file("a.cr3", "cr3", cr3(&tiff_without_dates(), &tiff_without_dates()));
    let mut input = Input::create(&source);
    assert_eq!(
        cr3_extract_metadata_creation_timestamp(&mut input),
        Err(Failure::file_failure(
            "a.cr3".to_string(),
            "timestamps not found in CMT1 and CMT2 boxes".to_string()
        ))
    );
}

#[test]
fn cr3_broken_box_is_a_failure() {
    let source = file(
        "a.cr3",
        "cr3",
        cr3(b"II+\0\x08\0\0\0\0", &tiff_with_date("2020:02:03 04:05:06")),
    );
    let mut input = Input::create(&source);
    assert_eq!(
        cr3_extract_metadata_creation_timestamp(&mut input),
        Err(Failure::file_failure("a.cr3".to_string(), "invalid TIFF magic number: 43".to_string()))
    );
}

#[test]
fn jpeg_with_exif() {
    let source = file("a.jpg", "jpg", jpeg(&tiff_with_date("2021:06:15 10:20:30")));
    let mut input = Input::create(&source);
    assert_eq!(
        jpeg_extract_metadata_creation_timestamp(&mut input),
        Ok(Some(metadata("a.jpg", "20210615-102030", ".jpg")))
    );
}

#[test]
fn jpeg_exif_section_bounds() {
    let exif = tiff_with_date("2021:06:15 10:20:30");
    let source = file("a.jpg", "jpg", jpeg(&exif));
    let mut input = Input::create(&source);
    let section = jpeg_scan_for_app1(&mut input).unwrap();
    assert_eq!(section.offset(), 20);
    assert_eq!(section.limit(), exif.len() as u64);
    assert_eq!(input.cursor(), 20);
}

#[test]
fn jpeg_without_start_marker_fails_at_once() {
    let mut bytes = jpeg(&tiff_with_date("2021:06:15 10:20:30"));
    bytes[1] = 0xD9;
    let source = file("a.jpg", "jpg", bytes);
    let mut input = Input::create(&source);
    assert_eq!(jpeg_scan_for_app1(&mut input).err(), Some(JpegError::Soi { marker: 0xFFD9 }));
    assert_eq!(input.cursor(), 2);
    let mut input = Input::create(&source);
    assert_eq!(
        jpeg_extract_metadata_creation_timestamp(&mut input),
        Err(Failure::file_failure("a.jpg".to_string(), "unexpected JPEG SOI: 65497".to_string()))
    );
}

#[test]
fn jpeg_without_exif_header() {
    let mut bytes = vec![0xFF, 0xD8, 0xFF, 0xE1, 0x00, 0x10];
    bytes.extend_from_slice(b"JFIF\0\0");
    bytes.extend_from_slice(&[0; 16]);
    let source = file("a.jpg", "jpg", bytes);
    let mut input = Input::create(&source);
    assert_eq!(jpeg_scan_for_app1(&mut input).err(), Some(JpegError::ExifHeader));
}

#[test]
fn jpeg_segment_shorter_than_its_length_field() {
    let bytes = vec![0xFF, 0xD8, 0xFF, 0xE0, 0x00, 0x01, 0, 0, 0, 0];
    let source = file("a.jpg", "jpg", bytes);
    let mut input = Input::create(&source);
    assert_eq!(
        jpeg_scan_for_app1(&mut input).err(),
        Some(JpegError::SegmentLength { length: 1 })
    );
}

#[test]
fn jpeg_without_app1_runs_into_the_end() {
    let bytes = vec![0xFF, 0xD8, 0xFF, 0xE0, 0x00, 0x04, 1, 2, 0xFF, 0xD9];
    let source = file("a.jpg", "jpg", bytes);
    let mut input = Input::create(&source);
    assert_eq!(
        jpeg_scan_for_app1(&mut input).err(),
        Some(JpegError::Io {
            step: JpegStep::Marker,
            cause: InputError::Eof { requested: 2, position: 8, limit: 10 },
        })
    );
}

#[test]
fn dispatcher_by_extension() {
    let tiff = tiff_with_date("2021:06:15 10:20:30");
    assert_eq!(
        extract_metadata_creation_timestamp("IMG_1.NEF", tiff.clone(), false),
        Ok(Some(metadata("IMG_1.NEF", "20210615-102030", ".nef")))
    );
    assert_eq!(
        extract_metadata_creation_timestamp("img.dng", tiff.clone(), false),
        Ok(Some(metadata("img.dng", "20210615-102030", ".dng")))
    );
    assert_eq!(
        extract_metadata_creation_timestamp("img.Jpeg", jpeg(&tiff), false),
        Ok(Some(metadata("img.Jpeg", "20210615-102030", ".jpeg")))
    );
    assert_eq!(
        extract_metadata_creation_timestamp("img.jpg", jpeg(&tiff), true),
        Ok(Some(metadata("img.jpg", "20210615-102030", ".jpg")))
    );
    assert_eq!(
        extract_metadata_creation_timestamp("clip.MP4", mp4(&mvhd0(2082844800 + 1000)), true),
        Ok(Some(metadata("clip.MP4", "19700101-001640", "mp4")))
    );
    assert_eq!(
        extract_metadata_creation_timestamp(
            "raw.cr3",
            cr3(&tiff, &tiff_without_dates()),
            false
        ),
        Ok(Some(metadata("raw.cr3", "20210615-102030", ".cr3")))
    );
}

#[test]
fn dispatcher_skips_other_files() {
    assert_eq!(extract_metadata_creation_timestamp("notes.txt", vec![1, 2, 3], false), Ok(None));
    assert_eq!(extract_metadata_creation_timestamp("nef", vec![], false), Ok(None));
    assert_eq!(extract_metadata_creation_timestamp(".jpg", vec![], false), Ok(None));
    assert_eq!(extract_metadata_creation_timestamp("a.jpg.bak", vec![], false), Ok(None));
}

#[test]
fn dispatcher_reports_failures() {
    assert_eq!(
        extract_metadata_creation_timestamp("broken.jpg", vec![0, 0, 0], false),
        Err(Failure::file_failure("broken.jpg".to_string(), "unexpected JPEG SOI: 0".to_string()))
    );
}

#[test]
fn tiff_directory_referred_to_twice() {
    // directory at 8: EXIF pointer to 38, next directory at 38;
    // directory at 38: DateTimeOriginal at 56.
    let mut tail = Vec::new();
    tail.extend_from_slice(&1u16.to_le_bytes());
    tail.extend_from_slice(&le_field(0x9003, 2, 20, 56));
    tail.extend_from_slice(&0u32.to_le_bytes());
    tail.extend_from_slice(b"2021:06:15 10:20:30\0");
    let bytes = le_tiff(&[le_field(0x8769, 4, 1, 38), le_field(0x0100, 3, 1, 0)], 38, &tail);
    let source = file("a.nef", "nef", bytes);
    let mut input = Input::create(&source);
    assert_eq!(
        tiff_extract_metadata_creation_timestamp(&mut input),
        Ok("20210615-102030".to_string())
    );
}

#[test]
fn tiff_directories_that_point_back() {
    // directory at 8 leads to the one at 26, which leads back to 8 and
    // holds the date.
    let mut tail = Vec::new();
    tail.extend_from_slice(&2u16.to_le_bytes());
    tail.extend_from_slice(&le_field(0x8769, 4, 1, 8));
    tail.extend_from_slice(&le_field(0x0132, 2, 20, 56));
    tail.extend_from_slice(&8u32.to_le_bytes());
    tail.extend_from_slice(b"2001:02:03 04:05:06\0");
    let bytes = le_tiff(&[le_field(0x8769, 4, 1, 26)], 0, &tail);
    let source = file("a.nef", "nef", bytes);
    let mut input = Input::create(&source);
    assert_eq!(
        tiff_extract_metadata_creation_timestamp(&mut input),
        Ok("20010203-040506".to_string())
    );
}

#[test]
fn tiff_date_comes_before_directory_at_the_same_offset() {
    // the date tag and the next directory both point to 26, where
    // neither a date nor a directory can be read
    let mut tail = vec![0xff; 19];
    tail.push(0);
    let bytes = le_tiff(&[le_field(0x9003, 2, 20, 26)], 26, &tail);
    let source = file("a.nef", "nef", bytes);
    let mut input = Input::create(&source);
    assert_eq!(
        tiff_extract_metadata_creation_timestamp(&mut input),
        Err(TiffError::Io { step: TiffStep::Date(26), cause: InputError::InvalidText })
    );
}

#[test]
fn tiff_smallest_offset_first() {
    // the date at 58 cannot be read; the directory at 26 has a field of
    // the wrong type, and is visited first
    let mut tail = Vec::new();
    tail.extend_from_slice(&1u16.to_le_bytes());
    tail.extend_from_slice(&le_field(0x9003, 7, 20, 0));
    tail.extend_from_slice(&0u32.to_le_bytes());
    tail.extend_from_slice(&[0; 14]);
    tail.extend_from_slice(&[0xff; 20]);
    let bytes = le_tiff(&[le_field(0x0132, 2, 20, 58)], 26, &tail);
    let source = file("a.nef", "nef", bytes);
    let mut input = Input::create(&source);
    assert_eq!(
        tiff_extract_metadata_creation_timestamp(&mut input),
        Err(TiffError::DateTagType { tag: 0x9003, field_type: 7 })
    );
}

#[test]
fn tiff_errors_in_words() {
    let cause = InputError::Truncated;
    let texts = [
        (TiffStep::Header, "TIFF failed to read endianness header"),
        (TiffStep::Magic, "TIFF failed to read magic number header"),
        (TiffStep::FirstIfd, "TIFF failed to read first IFD offset"),
        (TiffStep::DateSeek(7), "TIFF failed to fast-forward to next date tag offset: 7"),
        (TiffStep::Date(7), "TIFF failed to read date tag at offset: 7"),
        (TiffStep::IfdSeek(8), "TIFF failed to fast-forward to next IFD offset: 8"),
        (TiffStep::FieldCount(8), "TIFF failed to read IFD field count at offset: 8"),
        (TiffStep::FieldTag(1), "TIFF failed to read field tag for field: 1"),
        (TiffStep::FieldType(2), "TIFF failed to read field type for field: 2"),
        (TiffStep::FieldValues(3), "TIFF failed to read field count for field: 3"),
        (TiffStep::FieldOffset(4), "TIFF failed to read field value offset for field: 4"),
        (TiffStep::NextIfd, "TIFF failed to read next IFD offset"),
    ];
    for (step, text) in texts {
        let error = TiffError::Io { step, cause };
        assert_eq!(error.description(), text);
        assert_eq!(error.cause(), "failed to fill whole buffer");
    }
    let texts = [
        (TiffError::InvalidHeader { header: "XY".to_string() }, "invalid TIFF file header: XY"),
        (TiffError::InvalidMagic { magic: 43 }, "invalid TIFF magic number: 43"),
        (
            TiffError::DateTagType { tag: 306, field_type: 3 },
            "expected tag has unexpected type: 306 == 3",
        ),
        (
            TiffError::DateTagCount { tag: 306, count: 19 },
            "expected tag has unexpected count: 306 == 19",
        ),
        (
            TiffError::ExifPointerType { tag: 34665, field_type: 3 },
            "EXIF pointer tag has unexpected type: 34665 == 3",
        ),
        (
            TiffError::ExifPointerCount { tag: 34665, count: 2 },
            "EXIF pointer tag has unexpected size: 34665 == 2",
        ),
        (TiffError::NoDateTags, "TIFF no date tags were found"),
        (
            TiffError::InvalidDate { text: "yesterday".to_string() },
            "invalid exif date format: yesterday",
        ),
    ];
    for (error, text) in texts {
        assert_eq!(error.description(), text);
        assert_eq!(error.cause(), "");
        assert_eq!(
            error.to_failure("a.nef"),
            Failure::file_failure("a.nef".to_string(), text.to_string())
        );
    }
}

#[test]
fn mp4_errors_of_the_header() {
    let source = file("clip.mp4", "mp4", boxed("moov", &boxed("trak", &[0; 8])));
    let mut input = Input::create(&source);
    assert_eq!(
        read_mvhd_creation_time(&mut input),
        Err(Mp4Error::MvhdNotFound(InputError::SeekEof { position: 16, limit: 16 }))
    );
    let source = file("clip.mp4", "mp4", mp4(&boxed("mvhd", &[0, 0, 0, 0])));
    let mut input = Input::create(&source);
    assert_eq!(
        read_mvhd_creation_time(&mut input),
        Err(Mp4Error::Version(InputError::Eof { requested: 4, position: 0, limit: 4 }))
    );
    let source = file("clip.mp4", "mp4", mp4(&boxed("mvhd", &[0, 0, 0, 0, 1, 2, 3, 4])));
    let mut input = Input::create(&source);
    assert_eq!(
        read_mvhd_creation_time(&mut input),
        Err(Mp4Error::CreationTime(InputError::Eof { requested: 4, position: 4, limit: 8 }))
    );
    let source = file("clip.mp4", "mp4", mp4(&boxed("mvhd", &[0, 0, 0, 0, 1, 2, 3, 4, 5, 6, 7, 8])));
    let mut input = Input::create(&source);
    assert_eq!(
        read_mvhd_creation_time(&mut input),
        Err(Mp4Error::ModificationTime(InputError::Eof { requested: 4, position: 8, limit: 12 }))
    );
    let source =
        file("clip.mp4", "mp4", mp4(&boxed("mvhd", &[0, 0, 0, 0, 1, 2, 3, 4, 5, 6, 7, 8, 9])));
    let mut input = Input::create(&source);
    assert_eq!(read_mvhd_creation_time(&mut input), Ok(0x0102_0304));
}

#[test]
fn mp4_errors_in_words() {
    let cause = InputError::Truncated;
    let texts = [
        (Mp4Error::MoovNotFound(cause), "moov box not found"),
        (Mp4Error::MvhdNotFound(cause), "mvhd box not found"),
        (Mp4Error::Version(cause), "failed to read mvhd version"),
        (Mp4Error::CreationTime(cause), "failed to read creation time"),
        (Mp4Error::ModificationTime(cause), "failed to read modification time"),
    ];
    for (error, text) in texts {
        assert_eq!(
            error.to_failure("clip.mp4"),
            Failure::file_failure_caused(
                "clip.mp4".to_string(),
                text.to_string(),
                "failed to fill whole buffer"
            )
        );
    }
}

#[test]
fn cr3_without_its_boxes() {
    let source = file("a.cr3", "cr3", boxed("ftyp", b"crx "));
    let mut input = Input::create(&source);
    assert_eq!(
        cr3_extract_metadata_creation_timestamp(&mut input),
        Err(Failure::file_failure_caused(
            "a.cr3".to_string(),
            "moov box not found".to_string(),
            "EOF: seeking position 12, input length: 12"
        ))
    );
    let mut moov = boxed("trak", &[0; 4]);
    moov.push(0);
    let mut bytes = boxed("moov", &moov);
    bytes.push(0);
    let source = file("a.cr3", "cr3", bytes);
    let mut input = Input::create(&source);
    assert_eq!(
        cr3_extract_metadata_creation_timestamp(&mut input),
        Err(Failure::file_failure_caused(
            "a.cr3".to_string(),
            "canon box not found".to_string(),
            "EOF: reading 4 bytes from 12, input length: 13"
        ))
    );
    let mut canon = canon_uuid_bytes();
    canon.extend_from_slice(&boxed("CMT2", &tiff_with_date("2020:02:03 04:05:06")));
    canon.push(0);
    let mut moov = boxed("uuid", &canon);
    moov.push(0);
    let mut bytes = boxed("moov", &moov);
    bytes.push(0);
    let source = file("a.cr3", "cr3", bytes);
    let mut input = Input::create(&source);
    assert_eq!(
        cr3_extract_metadata_creation_timestamp(&mut input),
        Err(Failure::file_failure_caused(
            "a.cr3".to_string(),
            "failed to find box: CMT1".to_string(),
            "EOF: reading 4 bytes from 54, input length: 55"
        ))
    );
}

#[test]
fn jpeg_errors_in_words() {
    let cause = InputError::Truncated;
    let texts = [
        (JpegStep::Header, "reading jpeg header"),
        (JpegStep::Marker, "reading jpeg field marker"),
        (JpegStep::Length, "reading jpeg field length"),
        (JpegStep::ExifHeader, "reading jpeg exif header"),
        (JpegStep::ExifSuffix, "reading jpeg exif header suffix"),
        (JpegStep::Skip, "fast-forward jpeg field"),
    ];
    for (step, text) in texts {
        assert_eq!(
            JpegError::Io { step, cause }.to_failure("a.jpg"),
            Failure::file_failure_caused(
                "a.jpg".to_string(),
                text.to_string(),
                "failed to fill whole buffer"
            )
        );
    }
    assert_eq!(
        JpegError::ExifHeader.to_failure("a.jpg"),
        Failure::file_failure(
            "a.jpg".to_string(),
            "JPEG APP1 field does not have valid Exif header".to_string()
        )
    );
    assert_eq!(
        JpegError::SegmentLength { length: 1 }.to_failure("a.jpg"),
        Failure::file_failure(
            "a.jpg".to_string(),
            "JPEG field is shorter than its header: 1".to_string()
        )
    );
}
