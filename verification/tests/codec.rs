use worklog::session::Session;
use worklog::app_state::SessionField;
use worklog::database_handler::{remove_empty_lines, DatabaseHandler};
use worklog::timestamp::{current_time, shift_seconds, timestamp_from_parts, Timestamp};

fn ts(year: u32, month: u32, day: u32, hour: u32, minute: u32, second: u32) -> Timestamp {
    Timestamp { year, month, day, hour, minute, second }
}

#[test]
fn serializes_canonical_line() {
    let s = Session::from(
        "write spec",
        "work",
        ts(2024, 3, 5, 10, 0, 0),
        Some(ts(2024, 3, 5, 11, 30, 45)),
    );
    assert_eq!(
        s.construct_db_string(';'),
        "05-03-2024;write spec;work;10:00:00;11:30:45;"
    );
}

#[test]
fn line_round_trips() {
    let s = Session::from(
        "fix parser",
        "code",
        ts(2023, 12, 31, 23, 0, 1),
        Some(ts(2023, 12, 31, 23, 59, 59)),
    );
    let line = s.construct_db_string(';');
    let back = worklog::session::parse_db_line(&line, ';').expect("canonical line must parse");
    assert!(back == s);
}

#[test]
fn parse_ignores_duration_suffix() {
    let line = "05-03-2024;write spec;work;10:00:00;11:30:45;01:30:45".to_string();
    let s = worklog::session::parse_db_line(&line, ';').expect("line with suffix must parse");
    assert_eq!(s.description, "write spec");
    assert_eq!(s.tag, "work");
    assert_eq!(s.start, ts(2024, 3, 5, 10, 0, 0));
    assert_eq!(s.end, Some(ts(2024, 3, 5, 11, 30, 45)));
}

#[test]
fn parse_rejects_corrupt_lines() {
    assert!(worklog::session::parse_db_line(&"garbage".to_string(), ';').is_none());
    assert!(worklog::session::parse_db_line(&"05-03-2024;a;b;10:00:00".to_string(), ';').is_none());
    assert!(
        worklog::session::parse_db_line(&"32-03-2024;a;b;10:00:00;11:00:00;".to_string(), ';')
            .is_none()
    );
    assert!(
        worklog::session::parse_db_line(&"29-02-2023;a;b;10:00:00;11:00:00;".to_string(), ';')
            .is_none()
    );
    assert!(
        worklog::session::parse_db_line(&"05-03-2024;a;b;24:00:00;11:00:00;".to_string(), ';')
            .is_none()
    );
}

#[test]
fn leap_day_parses() {
    let line = "29-02-2024;a;b;10:00:00;11:00:00;".to_string();
    let s = worklog::session::parse_db_line(&line, ';').expect("leap day is a valid date");
    assert_eq!(s.start.day, 29);
}

#[test]
fn display_strings() {
    let s = Session::from(
        "x",
        "y",
        ts(2024, 3, 5, 9, 5, 0),
        Some(ts(2024, 3, 5, 11, 35, 20)),
    );
    assert_eq!(s.get_date_string(), "05 Mar 24");
    assert_eq!(s.get_start_time_string(), "09:05:00");
    assert_eq!(s.get_end_time_string().unwrap(), "11:35:20");
    assert_eq!(s.get_duration_string().unwrap(), "02:30:20");
}

#[test]
fn duration_of_running_session_is_absent() {
    let s = Session::from("x", "y", ts(2024, 3, 5, 9, 0, 0), None);
    assert!(s.get_end_time_string().is_none());
    assert!(s.get_duration_string().is_none());
    assert!(s.is_running());
}

#[test]
fn duration_crosses_midnight() {
    let s = Session::from(
        "x",
        "y",
        ts(2024, 2, 28, 23, 0, 0),
        Some(ts(2024, 2, 29, 1, 30, 0)),
    );
    assert_eq!(s.get_duration_string().unwrap(), "02:30:00");
}

#[test]
fn negative_duration_is_signed() {
    let s = Session::from(
        "x",
        "y",
        ts(2024, 3, 5, 11, 0, 0),
        Some(ts(2024, 3, 5, 10, 30, 0)),
    );
    assert_eq!(s.get_duration_string().unwrap(), "-00:30:00");
}

#[test]
fn date_edit_shifts_start_and_end_by_the_same_span() {
    let mut s = Session::from(
        "x",
        "y",
        ts(2024, 1, 1, 23, 0, 0),
        Some(ts(2024, 1, 2, 1, 0, 0)),
    );
    s.set_field(&SessionField::Date(ts(2024, 1, 15, 23, 0, 0)));
    assert_eq!(s.start, ts(2024, 1, 15, 23, 0, 0));
    assert_eq!(s.end, Some(ts(2024, 1, 16, 1, 0, 0)));
}

#[test]
fn date_edit_preserves_duration_across_month_end() {
    let mut s = Session::from(
        "x",
        "y",
        ts(2024, 2, 28, 10, 0, 0),
        Some(ts(2024, 2, 28, 12, 15, 0)),
    );
    s.set_field(&SessionField::Date(ts(2024, 2, 29, 10, 0, 0)));
    assert_eq!(s.start, ts(2024, 2, 29, 10, 0, 0));
    assert_eq!(s.end, Some(ts(2024, 2, 29, 12, 15, 0)));
}

#[test]
fn description_edit_trims_and_rejects_blank() {
    let mut s = Session::from("old", "y", ts(2024, 3, 5, 9, 0, 0), None);
    s.set_field(&SessionField::Description("  new text  ".to_string()));
    assert_eq!(s.description, "new text");
    s.set_field(&SessionField::Description("   ".to_string()));
    assert_eq!(s.description, "new text");
    s.set_field(&SessionField::Tag("  z ".to_string()));
    assert_eq!(s.tag, "z");
    s.set_field(&SessionField::Tag("".to_string()));
    assert_eq!(s.tag, "z");
}


#[test]
fn date_edit_is_rejected_only_outside_the_representable_years() {
    let start = ts(9999, 12, 31, 22, 0, 0);
    let end = ts(9999, 12, 31, 23, 30, 0);
    let mut s = Session::from("x", "y", start, Some(end));
    // moving one hour later would push the end past year 9999: nothing changes
    s.set_field(&SessionField::Date(ts(9999, 12, 31, 23, 0, 0)));
    assert_eq!(s.start, start);
    assert_eq!(s.end, Some(end));
    // moving one day earlier stays representable and is applied
    s.set_field(&SessionField::Date(ts(9999, 12, 30, 22, 0, 0)));
    assert_eq!(s.start, ts(9999, 12, 30, 22, 0, 0));
    assert_eq!(s.end, Some(ts(9999, 12, 30, 23, 30, 0)));
}

#[test]
fn shift_succeeds_exactly_within_the_representable_years() {
    let last = ts(9999, 12, 31, 23, 59, 59);
    assert_eq!(shift_seconds(&last, 0), Some(last));
    assert!(shift_seconds(&last, 1).is_none());
    let first = ts(1, 1, 1, 0, 0, 0);
    assert_eq!(shift_seconds(&first, 0), Some(first));
    assert!(shift_seconds(&first, -1).is_none());
    assert_eq!(
        shift_seconds(&ts(9999, 12, 30, 23, 59, 59), 86400),
        Some(last)
    );
}

#[test]
fn clock_parts_pack_exactly_when_valid() {
    assert_eq!(
        timestamp_from_parts(2024, 3, 5, 10, 0, 0),
        Some(ts(2024, 3, 5, 10, 0, 0))
    );
    assert!(timestamp_from_parts(0, 3, 5, 10, 0, 0).is_none());
    assert!(timestamp_from_parts(10000, 3, 5, 10, 0, 0).is_none());
    assert!(timestamp_from_parts(-50, 3, 5, 10, 0, 0).is_none());
    assert!(timestamp_from_parts(2024, 13, 5, 10, 0, 0).is_none());
    assert!(timestamp_from_parts(2023, 2, 29, 10, 0, 0).is_none());
}

#[test]
fn compacting_without_blank_lines_is_a_no_op() {
    let lines = vec!["a".to_string(), "b".to_string(), "c".to_string()];
    let compacted = remove_empty_lines(&lines);
    assert_eq!(compacted, lines);
}

#[test]
fn compacting_strips_blank_lines() {
    let lines = vec![
        "".to_string(),
        "a".to_string(),
        "".to_string(),
        "b".to_string(),
        "".to_string(),
    ];
    assert_eq!(remove_empty_lines(&lines), vec!["a".to_string(), "b".to_string()]);
}

#[test]
fn handler_appends_and_deletes_lines() {
    let mut h = DatabaseHandler::new(vec![], vec!["work".to_string()]).unwrap();
    h.export_session(&"l1".to_string());
    h.export_session(&"l2".to_string());
    assert_eq!(h.session_lines().len(), 2);
    h.delete_session(0);
    assert_eq!(h.session_lines(), &vec!["l2".to_string()]);
    assert_eq!(h.tag_lines(), &vec!["work".to_string()]);
    h.export_tag(&"fun".to_string());
    assert_eq!(h.tag_lines(), &vec!["work".to_string(), "fun".to_string()]);
}

#[test]
fn clock_yields_a_well_formed_timestamp() {
    let t = current_time().expect("the clock's year fits the supported range");
    assert!(Timestamp::valid(t.year, t.month, t.day, t.hour, t.minute, t.second));
    assert!(t.year >= 2020);
}
