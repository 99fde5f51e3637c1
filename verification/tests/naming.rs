use std::cmp::Ordering;
use timestampname::collisions::verify_operation;
use timestampname::collisions::verify_operations;
use timestampname::extractor::detect_format;
use timestampname::extractor::tiff::match_and_format_exif_date;
use timestampname::extractor::tiff::TiffError;
use timestampname::extractor::Format;
use timestampname::failures::Failure;
use timestampname::renamer::compare_metadatas;
use timestampname::renamer::is_before;
use timestampname::renamer::prefix_width;
use timestampname::renamer::prepare_rename_operations;
use timestampname::text::decimal_text;
use timestampname::text::extension;
use timestampname::text::is_lowercase_of;
use timestampname::text::str_eq;
use timestampname::text::str_less;
use timestampname::text::zero_padded_text;
use timestampname::timestamp::is_canonical_timestamp;
use timestampname::CollectedMetadata;
use timestampname::CommandLineArguments;
use timestampname::FileMetadata;
use timestampname::RenameOperation;

fn md(name: &str, timestamp: &str) -> FileMetadata {
    FileMetadata {
        file_name: name.to_string(),
        creation_timestamp: timestamp.to_string(),
        extension: String::new(),
    }
}

fn op(from: &str, to: &str) -> RenameOperation {
    RenameOperation { from: from.to_string(), to: to.to_string() }
}

#[test]
fn exif_date_with_colons() {
    let mut date = "2021:06:15 10:20:30".to_string();
    assert_eq!(match_and_format_exif_date(&mut date), Ok("20210615-102030".to_string()));
    assert_eq!(date, "20210615-102030");
}

#[test]
fn exif_date_with_dashes() {
    let mut date = "2021-06-15 10:20:30".to_string();
    assert_eq!(match_and_format_exif_date(&mut date), Ok("20210615-102030".to_string()));
    let mut date = "2021:06-15 10:20:30".to_string();
    assert_eq!(match_and_format_exif_date(&mut date), Ok("20210615-102030".to_string()));
    let mut date = "2021-06:15 10:20:30".to_string();
    assert_eq!(match_and_format_exif_date(&mut date), Ok("20210615-102030".to_string()));
}

#[test]
fn exif_date_of_another_form_is_refused() {
    for text in [
        "",
        "2021",
        "2021:06:15 10:20:3",
        "2021:06:15 10:20:300",
        "2021:06:15 10-20-30",
        "2021:06:15_10:20:30",
        "2021/06/15 10:20:30",
        "2o21:06:15 10:20:30",
        "2021:06:15 10:20:3\u{e9}",
        "\u{662}021:06:15 10:20:30",
        "20210615-102030",
    ] {
        let mut date = text.to_string();
        assert_eq!(
            match_and_format_exif_date(&mut date),
            Err(TiffError::InvalidDate { text: text.to_string() })
        );
        assert_eq!(date, text);
    }
}

#[test]
fn canonical_timestamps() {
    assert!(is_canonical_timestamp("20210615-102030"));
    assert!(is_canonical_timestamp("00000000-000000"));
    assert!(!is_canonical_timestamp("20210615102030"));
    assert!(!is_canonical_timestamp("20210615-10203"));
    assert!(!is_canonical_timestamp("20210615-1020300"));
    assert!(!is_canonical_timestamp("+0210615-102030"));
    assert!(!is_canonical_timestamp("20210615 102030"));
    assert!(!is_canonical_timestamp("2021061\u{e9}-10203"));
}

#[test]
fn order_of_timestamps_is_the_order_of_moments() {
    let moments = [
        "19991231-235959",
        "20000101-000000",
        "20000101-000001",
        "20000101-000100",
        "20000101-010000",
        "20000102-000000",
        "20000201-000000",
        "20010101-000000",
    ];
    for i in 0..moments.len() {
        for j in 0..moments.len() {
            assert_eq!(str_less(moments[i], moments[j]), i < j);
        }
    }
}

#[test]
fn order_of_texts() {
    assert!(str_less("a", "b"));
    assert!(str_less("a", "ab"));
    assert!(str_less("", "a"));
    assert!(!str_less("a", "a"));
    assert!(!str_less("b", "a"));
    assert!(!str_less("ab", "a"));
    assert!(str_less("Z", "a"));
    assert!(str_less("z", "\u{e9}"));
    assert!(str_eq("abc", "abc"));
    assert!(!str_eq("abc", "abd"));
    assert!(!str_eq("abc", "ab"));
}

#[test]
fn numbers_in_decimal() {
    assert_eq!(decimal_text(0), "0");
    assert_eq!(decimal_text(7), "7");
    assert_eq!(decimal_text(10), "10");
    assert_eq!(decimal_text(65497), "65497");
    assert_eq!(decimal_text(u128::MAX), "340282366920938463463374607431768211455");
    assert_eq!(zero_padded_text(7, 3), "007");
    assert_eq!(zero_padded_text(42, 2), "42");
    assert_eq!(zero_padded_text(123, 2), "123");
    assert_eq!(zero_padded_text(0, 0), "0");
}

#[test]
fn extensions_of_file_names() {
    assert_eq!(extension("a.jpg"), Some("jpg"));
    assert_eq!(extension("a.tar.gz"), Some("gz"));
    assert_eq!(extension("a."), Some(""));
    assert_eq!(extension("a"), None);
    assert_eq!(extension(".hidden"), None);
    assert_eq!(extension(".hidden.txt"), Some("txt"));
    assert_eq!(extension(".."), None);
    assert_eq!(extension("..."), Some(""));
    assert_eq!(extension(""), None);
    assert_eq!(extension("\u{e9}t\u{e9}.JPG"), Some("JPG"));
    assert!(is_lowercase_of("JpEg", "jpeg"));
    assert!(!is_lowercase_of("jpeg", "JPEG"));
    assert!(!is_lowercase_of("jpg", "jpeg"));
}

#[test]
fn formats_by_extension() {
    assert_eq!(detect_format("a.nef"), Some((Format::Tiff, "nef")));
    assert_eq!(detect_format("a.DNG"), Some((Format::Tiff, "dng")));
    assert_eq!(detect_format("a.Mp4"), Some((Format::Mp4, "mp4")));
    assert_eq!(detect_format("a.cr3"), Some((Format::Cr3, "cr3")));
    assert_eq!(detect_format("a.JPG"), Some((Format::Jpeg, "jpg")));
    assert_eq!(detect_format("a.jpeg"), Some((Format::Jpeg, "jpeg")));
    assert_eq!(detect_format("a.png"), None);
    assert_eq!(detect_format("jpeg"), None);
    assert_eq!(detect_format("a.jpeg "), None);
}

#[test]
fn order_of_files() {
    let early = md("b.jpg", "20200101-000000");
    let late = md("a.jpg", "20200101-000001");
    assert_eq!(compare_metadatas(&early, &late), Ordering::Less);
    assert_eq!(compare_metadatas(&late, &early), Ordering::Greater);
    let short = md("z.jpg", "20200101-000000");
    let long = md("a(0).jpg", "20200101-000000");
    assert_eq!(compare_metadatas(&short, &long), Ordering::Less);
    assert_eq!(compare_metadatas(&long, &short), Ordering::Greater);
    let first = md("a.jpg", "20200101-000000");
    let second = md("b.jpg", "20200101-000000");
    assert_eq!(compare_metadatas(&first, &second), Ordering::Less);
    assert_eq!(compare_metadatas(&second, &first), Ordering::Greater);
    assert!(is_before(&first, &second));
    assert!(!is_before(&first, &first));
}

#[test]
fn width_of_the_prefix() {
    assert_eq!(prefix_width(0), 1);
    assert_eq!(prefix_width(9), 1);
    assert_eq!(prefix_width(10), 2);
    assert_eq!(prefix_width(99), 2);
    assert_eq!(prefix_width(100), 3);
    assert_eq!(prefix_width(999), 3);
    assert_eq!(prefix_width(1000), 4);
    assert_eq!(prefix_width(9999), 4);
    assert_eq!(prefix_width(10_000), 5);
    assert_eq!(prefix_width(99_999), 5);
}

#[test]
fn renamings_in_the_order_of_creation() {
    let items = vec![
        md("c.JPG", "20200101-000002"),
        md("IMG_20200101(0).jpg", "20200101-000001"),
        md("IMG_20200101.jpg", "20200101-000001"),
        md("b.mp4", "20191231-235959"),
        md("noext", "20200101-000001"),
    ];
    assert_eq!(
        prepare_rename_operations(items, false),
        Ok(vec![
            op("b.mp4", "1-20191231-235959.mp4"),
            op("noext", "2-20200101-000001"),
            op("IMG_20200101.jpg", "3-20200101-000001.jpg"),
            op("IMG_20200101(0).jpg", "4-20200101-000001.jpg"),
            op("c.JPG", "5-20200101-000002.JPG"),
        ])
    );
}

#[test]
fn renamings_without_prefix() {
    let items = vec![md("b.jpg", "20200101-000002"), md("a.nef", "20200101-000001")];
    assert_eq!(
        prepare_rename_operations(items, true),
        Ok(vec![op("a.nef", "20200101-000001.nef"), op("b.jpg", "20200101-000002.jpg")])
    );
    assert_eq!(prepare_rename_operations(Vec::new(), true), Ok(Vec::new()));
}

#[test]
fn renamings_with_leading_zeros() {
    let mut items = Vec::new();
    for i in 0..12 {
        items.push(md(&format!("f{:02}.jpg", 11 - i), &format!("20200101-0000{:02}", 11 - i)));
    }
    let operations = prepare_rename_operations(items, false).unwrap();
    assert_eq!(operations.len(), 12);
    assert_eq!(operations[0], op("f00.jpg", "01-20200101-000000.jpg"));
    assert_eq!(operations[8], op("f08.jpg", "09-20200101-000008.jpg"));
    assert_eq!(operations[9], op("f09.jpg", "10-20200101-000009.jpg"));
    assert_eq!(operations[11], op("f11.jpg", "12-20200101-000011.jpg"));
}

#[test]
fn renamings_that_collide() {
    let operations = vec![op("a.jpg", "x.jpg"), op("b.jpg", "y.jpg"), op("c.jpg", "x.jpg")];
    assert_eq!(
        verify_operations(&operations, &Vec::new()),
        Err(Failure::file_failure("x.jpg".to_string(), "Duplicate rename".to_string()))
    );
}

#[test]
fn renamings_onto_existing_files() {
    let operations = vec![op("a.jpg", "x.jpg"), op("y.jpg", "y.jpg"), op("c.jpg", "z.jpg")];
    let existing = vec!["y.jpg".to_string(), "z.jpg".to_string()];
    assert_eq!(
        verify_operations(&operations, &existing),
        Err(Failure::file_failure("z.jpg".to_string(), "File exists on file system".to_string()))
    );
    assert_eq!(verify_operations(&operations, &vec!["y.jpg".to_string()]), Ok(()));
    assert_eq!(verify_operations(&operations, &Vec::new()), Ok(()));
    assert_eq!(verify_operations(&Vec::new(), &existing), Ok(()));
}

#[test]
fn the_first_fault_is_reported() {
    let operations = vec![op("a.jpg", "x.jpg"), op("b.jpg", "x.jpg"), op("c.jpg", "x.jpg")];
    let existing = vec!["x.jpg".to_string()];
    assert_eq!(
        verify_operations(&operations, &existing),
        Err(Failure::file_failure("x.jpg".to_string(), "File exists on file system".to_string()))
    );
}

#[test]
fn one_renaming_at_a_time() {
    let operations = vec![op("a.jpg", "x.jpg"), op("b.jpg", "b.jpg"), op("c.jpg", "x.jpg")];
    assert_eq!(verify_operation(&operations, 0, false), Ok(()));
    assert_eq!(
        verify_operation(&operations, 0, true),
        Err(Failure::file_failure("x.jpg".to_string(), "File exists on file system".to_string()))
    );
    assert_eq!(verify_operation(&operations, 1, true), Ok(()));
    assert_eq!(
        verify_operation(&operations, 2, false),
        Err(Failure::file_failure("x.jpg".to_string(), "Duplicate rename".to_string()))
    );
    assert_eq!(verify_operation(&operations, 3, true), Ok(()));
}

#[test]
fn failures_as_shown() {
    assert_eq!(
        Failure::file_failure("a.jpg".to_string(), "broken".to_string()).message(),
        "\tFile: a.jpg\n\tDescription: broken"
    );
    assert_eq!(
        Failure::file_failure_caused("a.jpg".to_string(), "broken".to_string(), "EOF").message(),
        "\tFile: a.jpg\n\tDescription: broken\n\tCause: EOF"
    );
    assert_eq!(
        Failure::file_failure_strcause("a.jpg".to_string(), "broken".to_string(), "EOF".to_string())
            .message(),
        "\tFile: a.jpg\n\tDescription: brokenEOF"
    );
    assert_eq!(
        Failure::env_failure_caused("Get current working directory".to_string(), "denied")
            .message(),
        "\tOperation: Get current working directory\n\tCause: denied"
    );
}

#[test]
fn collected_metadata_knows_the_longest_name() {
    let mut collected = CollectedMetadata::new();
    assert!(collected.is_empty());
    assert_eq!(collected.longest_source_name(), 0);
    collected.add(None);
    assert!(collected.is_empty());
    collected.add(Some(md("abc.jpg", "20200101-000000")));
    assert_eq!(collected.longest_source_name(), 7);
    collected.add(None);
    collected.add(Some(md("\u{e9}t\u{e9}.jpeg", "20200101-000000")));
    collected.add(Some(md("a.jpg", "20200101-000000")));
    assert!(!collected.is_empty());
    assert_eq!(collected.items().len(), 3);
    assert_eq!(collected.items()[1].file_name, "\u{e9}t\u{e9}.jpeg");
    assert_eq!(collected.longest_source_name(), 10);
    assert_eq!(
        collected.into_items(),
        vec![
            md("abc.jpg", "20200101-000000"),
            md("\u{e9}t\u{e9}.jpeg", "20200101-000000"),
            md("a.jpg", "20200101-000000"),
        ]
    );
}

#[test]
fn switches_of_a_run() {
    let args = CommandLineArguments { dry_run: true, no_prefix: false, debug_output: false, utc: true };
    assert!(args.dry_run && args.utc && !args.no_prefix && !args.debug_output);
}
