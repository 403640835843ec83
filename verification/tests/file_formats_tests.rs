use sonde::file_formats::{bufr_valid_time, loader_order, FileFormat, FileLoader, LoadStep, MAX_YEAR, MIN_YEAR};
use sonde::ordering::ValidTime;

#[test]
fn default_loader_order() {
    assert_eq!(loader_order(None), vec![FileFormat::Bufkit, FileFormat::Bufr, FileFormat::WyomingHtml]);
    assert_eq!(loader_order(Some("buf")), vec![FileFormat::Bufkit, FileFormat::Bufr, FileFormat::WyomingHtml]);
    assert_eq!(loader_order(Some("BUFR")), vec![FileFormat::Bufkit, FileFormat::Bufr, FileFormat::WyomingHtml]);
}

#[test]
fn bufr_extension_tries_bufr_first() {
    assert_eq!(loader_order(Some("bufr")), vec![FileFormat::Bufr, FileFormat::Bufkit, FileFormat::WyomingHtml]);
}

#[test]
fn html_extension_tries_wyoming_first() {
    assert_eq!(loader_order(Some("html")), vec![FileFormat::WyomingHtml, FileFormat::Bufr, FileFormat::Bufkit]);
}

#[test]
fn first_successful_reader_wins() {
    let mut l = FileLoader::new(Some("bufr"));
    assert_eq!(l.next_step(), LoadStep::Try(FileFormat::Bufr));
    assert_eq!(l.report(false), LoadStep::Try(FileFormat::Bufkit));
    assert_eq!(l.report(true), LoadStep::Loaded(FileFormat::Bufkit));
    assert_eq!(l.next_step(), LoadStep::Loaded(FileFormat::Bufkit));
}

#[test]
fn first_reader_can_win_at_once() {
    let mut l = FileLoader::new(Some("html"));
    assert_eq!(l.next_step(), LoadStep::Try(FileFormat::WyomingHtml));
    assert_eq!(l.report(true), LoadStep::Loaded(FileFormat::WyomingHtml));
}

#[test]
fn no_matching_file_type_when_all_fail() {
    let mut l = FileLoader::new(None);
    assert_eq!(l.next_step(), LoadStep::Try(FileFormat::Bufkit));
    assert_eq!(l.report(false), LoadStep::Try(FileFormat::Bufr));
    assert_eq!(l.report(false), LoadStep::Try(FileFormat::WyomingHtml));
    assert_eq!(l.report(false), LoadStep::NoMatchingFileType);
    assert_eq!(l.next_step(), LoadStep::NoMatchingFileType);
}

#[test]
fn bufr_valid_time_of_complete_date() {
    assert_eq!(
        bufr_valid_time(Some(2020), Some(1), Some(1), Some(0)),
        Some(ValidTime { secs: 1_577_836_800, nanos: 0 })
    );
    assert_eq!(
        bufr_valid_time(Some(2017), Some(4), Some(1), Some(12)),
        Some(ValidTime { secs: 1_491_048_000, nanos: 0 })
    );
    assert_eq!(
        bufr_valid_time(Some(2020), Some(2), Some(29), Some(23)),
        Some(ValidTime { secs: 1_583_017_200, nanos: 0 })
    );
    assert_eq!(
        bufr_valid_time(Some(1969), Some(12), Some(31), Some(23)),
        Some(ValidTime { secs: -3600, nanos: 0 })
    );
}

#[test]
fn bufr_valid_time_needs_all_fields() {
    assert_eq!(bufr_valid_time(None, Some(1), Some(1), Some(0)), None);
    assert_eq!(bufr_valid_time(Some(2020), None, Some(1), Some(0)), None);
    assert_eq!(bufr_valid_time(Some(2020), Some(1), None, Some(0)), None);
    assert_eq!(bufr_valid_time(Some(2020), Some(1), Some(1), None), None);
}

#[test]
fn year_range() {
    assert_eq!(MIN_YEAR, -262143);
    assert_eq!(MAX_YEAR, 262142);
    assert_eq!(
        bufr_valid_time(Some(MAX_YEAR as i64), Some(12), Some(31), Some(23)),
        Some(ValidTime { secs: 8_210_266_873_200, nanos: 0 })
    );
    assert_eq!(
        bufr_valid_time(Some(MIN_YEAR as i64), Some(1), Some(1), Some(0)),
        Some(ValidTime { secs: -8_334_601_228_800, nanos: 0 })
    );
    // 1900 is not a leap year, 2000 is.
    assert_eq!(
        bufr_valid_time(Some(1900), Some(3), Some(1), Some(0)),
        Some(ValidTime { secs: -2_203_891_200, nanos: 0 })
    );
    assert_eq!(
        bufr_valid_time(Some(2000), Some(3), Some(1), Some(6)),
        Some(ValidTime { secs: 951_868_800 + 6 * 3600, nanos: 0 })
    );
}
