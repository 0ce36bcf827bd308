use on_exit_hook_waybar::task::compare_optional_timestamps;
use on_exit_hook_waybar::timestamp::format_due;
use on_exit_hook_waybar::timestamp::parse_due_date;

#[test]
fn main_test_parse_due_date_valid() {
    let due = "20241206T143002Z";
    let result = parse_due_date(due);
    assert!(result.is_ok());
    assert_eq!(
        format_due(result.unwrap(), 3600).unwrap(),
        "Fri, 24-12-06 15:30"
    );
}

#[test]
fn task_test_parse_due_date_valid() {
    let due = "20241206T143002Z";
    let result = parse_due_date(due);
    assert!(result.is_ok());
    assert_eq!(
        format_due(result.unwrap(), 3600).unwrap(),
        "Fri, 24-12-06 15:30"
    );
}

#[test]
fn test_parse_then_format_at_utc_keeps_fields() {
    let t = parse_due_date("20241206T143002Z").unwrap();
    assert_eq!(format_due(t, 0).unwrap(), "Fri, 24-12-06 14:30");
}

#[test]
fn test_format_rolls_over_midnight() {
    let t = parse_due_date("20241231T230000Z").unwrap();
    assert_eq!(format_due(t, 3600).unwrap(), "Wed, 25-01-01 00:00");
}

#[test]
fn test_parse_leap_day() {
    let t = parse_due_date("20240229T120000Z").unwrap();
    assert_eq!(format_due(t, 0).unwrap(), "Thu, 24-02-29 12:00");
}

#[test]
fn test_parse_rejects_short_input() {
    assert!(parse_due_date("20241206T14300").is_err());
    assert!(parse_due_date("").is_err());
}

#[test]
fn test_parse_rejects_bad_separators() {
    assert!(parse_due_date("20241206X143002Z").is_err());
    assert!(parse_due_date("20241206T143002X").is_err());
}

#[test]
fn test_parse_rejects_non_digits() {
    assert!(parse_due_date("2024120aT143002Z").is_err());
    assert!(parse_due_date("20241206T14300bZ").is_err());
}

#[test]
fn test_parse_rejects_impossible_dates() {
    assert!(parse_due_date("20241356T143002Z").is_err());
    assert!(parse_due_date("20230229T120000Z").is_err());
    assert!(parse_due_date("20241200T120000Z").is_err());
    assert!(parse_due_date("20241206T246002Z").is_err());
}

#[test]
fn test_format_refuses_shift_out_of_window() {
    let t = parse_due_date("00000101T000000Z").unwrap();
    assert!(format_due(t, -3600).is_none());
    assert!(format_due(t, 0).is_some());
}

#[test]
fn test_compare_optional_timestamps_absence_first() {
    assert_eq!(
        compare_optional_timestamps(None, Some("20241206T143002Z")),
        std::cmp::Ordering::Less
    );
    assert_eq!(
        compare_optional_timestamps(Some("20241206T143002Z"), None),
        std::cmp::Ordering::Greater
    );
    assert_eq!(
        compare_optional_timestamps(None, None),
        std::cmp::Ordering::Equal
    );
}

#[test]
fn test_compare_optional_timestamps_malformed_is_absent() {
    assert_eq!(
        compare_optional_timestamps(Some("not a timestamp"), Some("20241206T143002Z")),
        std::cmp::Ordering::Less
    );
    assert_eq!(
        compare_optional_timestamps(Some("not a timestamp"), None),
        std::cmp::Ordering::Equal
    );
}

#[test]
fn test_compare_optional_timestamps_by_instant() {
    assert_eq!(
        compare_optional_timestamps(Some("20241205T143002Z"), Some("20241206T143002Z")),
        std::cmp::Ordering::Less
    );
    assert_eq!(
        compare_optional_timestamps(Some("20241206T143002Z"), Some("20241206T143002Z")),
        std::cmp::Ordering::Equal
    );
    assert_eq!(
        compare_optional_timestamps(Some("20251206T143002Z"), Some("20241206T143002Z")),
        std::cmp::Ordering::Greater
    );
}
