use rofi_taskwarrior::document::Document;
use rofi_taskwarrior::error::Error;
use rofi_taskwarrior::timestamp::Timestamp;
use rofi_taskwarrior::{export_datetime, opt_export_datetime};

fn stamp(y: u16, mo: u8, d: u8, h: u8, mi: u8, s: u8) -> Timestamp {
    Timestamp::new(y, mo, d, h, mi, s).expect("a date and a time")
}

#[test]
fn parse_reads_the_fields() {
    assert_eq!(
        Timestamp::parse("20240229T235958Z"),
        Ok(Timestamp {
            year: 2024,
            month: 2,
            day: 29,
            hour: 23,
            minute: 59,
            second: 58
        })
    );
}

#[test]
fn format_writes_sixteen_characters() {
    assert_eq!(stamp(2024, 1, 2, 3, 4, 5).format(), "20240102T030405Z");
    assert_eq!(stamp(0, 1, 1, 0, 0, 0).format(), "00000101T000000Z");
    assert_eq!(stamp(9999, 12, 31, 23, 59, 59).format(), "99991231T235959Z");
}

#[test]
fn format_of_parse_gives_the_text_back() {
    for text in [
        "20240229T235958Z",
        "19700101T000000Z",
        "00000229T000000Z",
        "99991231T235959Z",
        "20161231T235960Z",
        "20000229T120000Z",
    ] {
        assert_eq!(Timestamp::parse(text).unwrap().format(), text);
    }
}

#[test]
fn parse_of_format_gives_the_timestamp_back() {
    let t = stamp(2031, 7, 9, 8, 0, 1);
    assert_eq!(Timestamp::parse(&t.format()), Ok(t));
}

#[test]
fn any_other_text_is_a_format_error() {
    for text in [
        "",
        "2024",
        "20240229T235958",
        "20240229T235958ZZ",
        "20240229 235958Z",
        "20240229t235958Z",
        "20240229T235958z",
        "2024-02-29T23:59:58Z",
        "2024022 T235958Z",
        "+0240229T235958Z",
        "20240229T2359 8Z",
        "\u{662}0240229T235958Z",
        "20240229T235958Z\n",
    ] {
        assert_eq!(Timestamp::parse(text), Err(Error::Format), "text {:?}", text);
    }
}

#[test]
fn a_day_that_the_calendar_lacks_is_a_format_error() {
    for text in [
        "20230229T000000Z",
        "19000229T000000Z",
        "20240230T000000Z",
        "20240431T000000Z",
        "20240001T000000Z",
        "20241301T000000Z",
        "20240100T000000Z",
        "20240132T000000Z",
    ] {
        assert_eq!(Timestamp::parse(text), Err(Error::Format), "text {:?}", text);
    }
}

#[test]
fn a_time_that_the_day_lacks_is_a_format_error() {
    for text in [
        "20240101T240000Z",
        "20240101T006000Z",
        "20240101T000061Z",
        "20240101T999999Z",
    ] {
        assert_eq!(Timestamp::parse(text), Err(Error::Format), "text {:?}", text);
    }
}

#[test]
fn new_refuses_what_is_no_date() {
    assert_eq!(Timestamp::new(2023, 2, 29, 0, 0, 0), None);
    assert_eq!(Timestamp::new(10000, 1, 1, 0, 0, 0), None);
    assert_eq!(Timestamp::new(2024, 1, 1, 24, 0, 0), None);
    assert!(Timestamp::new(2000, 2, 29, 0, 0, 0).is_some());
    assert_eq!(Timestamp::new(2100, 2, 29, 0, 0, 0), None);
}

#[test]
fn is_valid_follows_the_calendar() {
    let mut t = stamp(2024, 2, 29, 0, 0, 0);
    assert!(t.is_valid());
    t.year = 2023;
    assert!(!t.is_valid());
}

#[test]
fn from_unix_reads_the_calendar() {
    assert_eq!(Timestamp::from_unix(0), Some(stamp(1970, 1, 1, 0, 0, 0)));
    assert_eq!(
        Timestamp::from_unix(1_700_000_000),
        Some(stamp(2023, 11, 14, 22, 13, 20))
    );
    assert_eq!(
        Timestamp::from_unix(-1),
        Some(stamp(1969, 12, 31, 23, 59, 59))
    );
    assert_eq!(
        Timestamp::from_unix(951_782_400),
        Some(stamp(2000, 2, 29, 0, 0, 0))
    );
}

#[test]
fn from_unix_stays_within_four_digits_of_year() {
    assert_eq!(
        Timestamp::from_unix(253_402_300_799),
        Some(stamp(9999, 12, 31, 23, 59, 59))
    );
    assert_eq!(Timestamp::from_unix(253_402_300_800), None);
    assert_eq!(Timestamp::from_unix(-62_167_219_201), None);
    assert_eq!(Timestamp::from_unix(i64::MAX), None);
    assert_eq!(Timestamp::from_unix(i64::MIN), None);
}

#[test]
fn from_fields_checks_every_field() {
    assert_eq!(
        Timestamp::from_fields((2024, 2, 29, 1, 2, 3)),
        Some(stamp(2024, 2, 29, 1, 2, 3))
    );
    assert_eq!(Timestamp::from_fields((-1, 1, 1, 0, 0, 0)), None);
    assert_eq!(Timestamp::from_fields((2024, 256 + 1, 1, 0, 0, 0)), None);
    assert_eq!(Timestamp::from_fields((2024, 1, 1, 0, 0, 300)), None);
}

#[test]
fn field_is_written_as_text() {
    assert_eq!(
        export_datetime::serialize(&stamp(2024, 1, 2, 3, 4, 5)),
        Document::Text("20240102T030405Z".to_string())
    );
}

#[test]
fn field_is_read_from_text_only() {
    assert_eq!(
        export_datetime::deserialize(&Document::Text("20240102T030405Z".to_string())),
        Ok(stamp(2024, 1, 2, 3, 4, 5))
    );
    assert_eq!(
        export_datetime::deserialize(&Document::Null),
        Err(Error::Format)
    );
    assert_eq!(
        export_datetime::deserialize(&Document::Text("yesterday".to_string())),
        Err(Error::Format)
    );
    assert_eq!(
        export_datetime::deserialize(&Document::Bool(true)),
        Err(Error::Format)
    );
}

#[test]
fn missing_field_is_null() {
    assert_eq!(opt_export_datetime::serialize(&None), Document::Null);
    assert_eq!(
        opt_export_datetime::serialize(&Some(stamp(2024, 1, 2, 3, 4, 5))),
        Document::Text("20240102T030405Z".to_string())
    );
}

#[test]
fn null_is_a_missing_field() {
    assert_eq!(opt_export_datetime::deserialize(&Document::Null), Ok(None));
    assert_eq!(
        opt_export_datetime::deserialize(&Document::Text("20240102T030405Z".to_string())),
        Ok(Some(stamp(2024, 1, 2, 3, 4, 5)))
    );
    assert_eq!(
        opt_export_datetime::deserialize(&Document::Text("2024".to_string())),
        Err(Error::Format)
    );
    assert_eq!(
        opt_export_datetime::deserialize(&Document::List(Vec::new())),
        Err(Error::Format)
    );
}
