//! Reading dot-separated date texts into calendar days.
use vicky::format::{Date, Format};

fn d(year: u32, month: u32, day: u32) -> Date {
    Date { year, month, day }
}

#[test]
fn date_texts_parse_to_calendar_days() {
    assert_eq!(Format::string_to_date("1836.1.1"), Some(d(1836, 1, 1)));
    assert_eq!(Format::string_to_date("1444.11.11"), Some(d(1444, 11, 11)));
    assert_eq!(Format::string_to_date("9999.12.31"), Some(d(9999, 12, 31)));
}

#[test]
fn missing_segments_take_their_defaults() {
    assert_eq!(Format::string_to_date("1836"), Some(d(1836, 1, 1)));
    assert_eq!(Format::string_to_date("1836.7"), Some(d(1836, 7, 1)));
    assert_eq!(Format::string_to_date("1836.1.1.23.59.59"), Some(d(1836, 1, 1)));
}

#[test]
fn leap_years_decide_the_length_of_the_second_month() {
    assert_eq!(Format::string_to_date("2000.2.29"), Some(d(2000, 2, 29)));
    assert_eq!(Format::string_to_date("1996.2.29"), Some(d(1996, 2, 29)));
    assert_eq!(Format::string_to_date("1900.2.29"), None);
    assert_eq!(Format::string_to_date("1901.2.29"), None);
}

#[test]
fn out_of_range_parts_are_rejected() {
    assert_eq!(Format::string_to_date("1836.2.30"), None);
    assert_eq!(Format::string_to_date("1836.4.31"), None);
    assert_eq!(Format::string_to_date("1836.13.1"), None);
    assert_eq!(Format::string_to_date("1836.0.1"), None);
    assert_eq!(Format::string_to_date("1836.1.0"), None);
    assert_eq!(Format::string_to_date("0.1.1"), None);
    assert_eq!(Format::string_to_date("10000.1.1"), None);
    assert_eq!(Format::string_to_date("1836.1.1.24.0.0"), None);
    assert_eq!(Format::string_to_date("1836.1.1.0.60.0"), None);
    assert_eq!(Format::string_to_date("1836.1.1.0.0.60"), None);
}

#[test]
fn malformed_texts_are_rejected() {
    assert_eq!(Format::string_to_date(""), None);
    assert_eq!(Format::string_to_date("abc"), None);
    assert_eq!(Format::string_to_date("1836..1"), None);
    assert_eq!(Format::string_to_date("1836.1.1."), None);
    assert_eq!(Format::string_to_date("1836.1.1.0.0.0.0"), None);
    assert_eq!(Format::string_to_date("-1836.1.1"), None);
}
