use coursebuilder::builder::{validate_time_mode, CourseBuilder};
use coursebuilder::csvio::parse_csv;
use coursebuilder::errors::{Error, RowIssue};
use coursebuilder::record::{parse_hms, parse_u16};
use coursebuilder::resolve::TimeMode;

fn builder(mode: TimeMode) -> CourseBuilder {
    CourseBuilder {
        name: "course".to_string(),
        description: None,
        author: "someone".to_string(),
        time_mode: mode,
        sport_type: "ride".to_string(),
        ftp: 150,
        accel_num: 1,
        accel_den: 1,
        scale_num: 1,
        scale_den: 1,
        raster: 30,
    }
}

fn record(time: &str, power: Option<u16>, text: Option<&str>) -> coursebuilder::record::Record {
    coursebuilder::record::Record {
        time: time.to_string(),
        power,
        text: text.map(|t| t.to_string()),
    }
}

#[test]
fn time_mode_is_validated() {
    assert_eq!(validate_time_mode("time"), Ok(TimeMode::Time));
    assert_eq!(validate_time_mode("duration"), Ok(TimeMode::Duration));
    assert_eq!(validate_time_mode("speed"), Err(Error::Config));
    assert_eq!(validate_time_mode(""), Err(Error::Config));
}

#[test]
fn hms_parses_strict_wall_clock_times() {
    assert_eq!(parse_hms("00:00:00"), Some(0));
    assert_eq!(parse_hms("01:02:03"), Some(3723));
    assert_eq!(parse_hms("23:59:59"), Some(86399));
    assert_eq!(parse_hms("24:00:00"), None);
    assert_eq!(parse_hms("00:60:00"), None);
    assert_eq!(parse_hms("00:00:60"), None);
    assert_eq!(parse_hms("0:00:00"), None);
    assert_eq!(parse_hms("00-00-00"), None);
    assert_eq!(parse_hms(""), None);
}

#[test]
fn power_field_parses_as_u16() {
    assert_eq!(parse_u16("0"), Some(0));
    assert_eq!(parse_u16("00150"), Some(150));
    assert_eq!(parse_u16("65535"), Some(65535));
    assert_eq!(parse_u16("65536"), None);
    assert_eq!(parse_u16("1000000"), None);
    assert_eq!(parse_u16(""), None);
    assert_eq!(parse_u16("12a"), None);
    assert_eq!(parse_u16("-3"), None);
}

#[test]
fn csv_rows_become_records() {
    let text = "time,power,text\n00:00:00,100,\n00:00:30,150,go\n";
    let records = parse_csv(text).unwrap();
    assert_eq!(records.len(), 2);
    assert_eq!(records[0].time, "00:00:00");
    assert_eq!(records[0].power, Some(100));
    assert_eq!(records[0].text, None);
    assert_eq!(records[1].time, "00:00:30");
    assert_eq!(records[1].power, Some(150));
    assert_eq!(records[1].text, Some("go".to_string()));
}

#[test]
fn quoted_csv_fields_are_unquoted() {
    let text = "time,power,text\n00:00:00,100,\"go hard, then rest\"\n";
    let records = parse_csv(text).unwrap();
    assert_eq!(records.len(), 1);
    assert_eq!(records[0].text, Some("go hard, then rest".to_string()));
}

#[test]
fn bad_power_field_is_reported_with_its_line() {
    let text = "time,power,text\n00:00:00,100,\n00:00:30,sprint,\n";
    assert_eq!(
        parse_csv(text),
        Err(Error::RowParse { line: 2, kind: RowIssue::BadPower })
    );
}

#[test]
fn two_field_rows_are_rejected() {
    let text = "time,power\n00:00:00,100\n";
    assert_eq!(
        parse_csv(text),
        Err(Error::RowParse { line: 1, kind: RowIssue::FieldCount })
    );
}

#[test]
fn ragged_rows_are_rejected() {
    let text = "time,power,text\n00:00:00,100\n";
    let r = parse_csv(text);
    assert!(matches!(r, Err(Error::RowParse { kind: RowIssue::FieldCount, .. })));
}

#[test]
fn bad_time_field_is_reported_with_its_line() {
    let b = builder(TimeMode::Time);
    let records = vec![record("00:00:00", Some(100), None), record("later", None, None)];
    assert_eq!(
        b.parse_records(&records),
        Err(Error::RowParse { line: 2, kind: RowIssue::BadTime })
    );
}

#[test]
fn absolute_times_must_not_decrease() {
    let b = builder(TimeMode::Time);
    let records = vec![record("00:01:00", Some(100), None), record("00:00:30", Some(100), None)];
    assert_eq!(
        b.parse_records(&records),
        Err(Error::Ordering { line: 2, got: 30, expected: 60 })
    );
}

#[test]
fn equal_absolute_times_are_accepted() {
    let b = builder(TimeMode::Time);
    let records = vec![record("00:00:30", Some(100), None), record("00:00:30", None, Some("x"))];
    let steps = b.parse_records(&records).unwrap();
    assert_eq!(steps[0].time, 30);
    assert_eq!(steps[1].time, 30);
}

#[test]
fn duration_mode_accumulates_prefix_sums() {
    let b = builder(TimeMode::Duration);
    let records = vec![
        record("00:00:10", Some(100), None),
        record("00:00:20", Some(100), None),
        record("00:00:30", Some(100), None),
    ];
    let steps = b.parse_records(&records).unwrap();
    assert_eq!(steps[0].time, 0);
    assert_eq!(steps[1].time, 10);
    assert_eq!(steps[2].time, 30);
}
