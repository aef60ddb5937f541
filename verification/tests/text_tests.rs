use sdroxide_ui::clock::{elapsed_hms, fmt_age, hhmm_text, schedule_time, utc_hhmm};
use sdroxide_ui::text::{contains_ignore_ascii_case, csv, truncate};

#[test]
fn a_csv_field_is_quoted_only_when_it_has_to_be() {
    assert_eq!(csv("plain"), "plain");
    assert_eq!(csv("a,b"), "\"a,b\"");
    assert_eq!(csv("say \"hi\""), "\"say \"\"hi\"\"\"");
    assert_eq!(csv("two\nlines"), "\"two\nlines\"");
}

#[test]
fn a_carriage_return_or_an_empty_field_is_handled_too() {
    assert_eq!(csv("a\rb"), "\"a\rb\"");
    assert_eq!(csv(""), "");
    assert_eq!(csv("\""), "\"\"\"\"");
}

#[test]
fn a_running_contact_shows_a_clock_that_grows_a_field_at_the_hour() {
    assert_eq!(elapsed_hms(0), "0:00");
    assert_eq!(elapsed_hms(9), "0:09");
    assert_eq!(elapsed_hms(84), "1:24");
    assert_eq!(elapsed_hms(3599), "59:59");
    assert_eq!(elapsed_hms(3600), "1:00:00");
    assert_eq!(elapsed_hms(3661), "1:01:01");
}

#[test]
fn a_negative_duration_prints_as_rust_formats_it() {
    assert_eq!(elapsed_hms(-5), format!("{}:{:02}", -5i64 / 60 % 60, -5i64 % 60));
    assert_eq!(elapsed_hms(-3661), format!("{}:{:02}", -3661i64 / 60 % 60, -3661i64 % 60));
    assert_eq!(elapsed_hms(i64::MIN), {
        let s = i64::MIN;
        format!("{}:{:02}", (s / 60) % 60, s % 60)
    });
    assert_eq!(elapsed_hms(100 * 3600 + 5), "100:00:05");
}

#[test]
fn an_age_reads_in_seconds_minutes_then_hours() {
    assert_eq!(fmt_age(-10), "0 s");
    assert_eq!(fmt_age(12), "12 s");
    assert_eq!(fmt_age(89), "89 s");
    assert_eq!(fmt_age(90), "1 min");
    assert_eq!(fmt_age(240), "4 min");
    assert_eq!(fmt_age(5399), "89 min");
    assert_eq!(fmt_age(5400), "1 h");
    assert_eq!(fmt_age(7200), "2 h");
}

#[test]
fn a_schedule_time_prints_as_hours_and_minutes() {
    assert_eq!(hhmm_text(0), "00:00");
    assert_eq!(hhmm_text(905), "09:05");
    assert_eq!(hhmm_text(2359), "23:59");
    assert_eq!(hhmm_text(65535), "655:35");
}

#[test]
fn the_schedule_filters_at_now_or_at_the_chosen_time_today() {
    let now = 1_700_000_000i64; // 2023-11-14 22:13:20 UTC
    assert_eq!(schedule_time(now, true, 1200), now);
    assert_eq!(schedule_time(now, false, 1200), 1_699_963_200);
    assert_eq!(schedule_time(now, false, 0), 1_699_920_000);
    // Before the epoch the day still starts at midnight, not at the next one.
    assert_eq!(schedule_time(-1, false, 30), -86_400 + 30 * 60);
}

#[test]
fn a_timestamp_shows_its_utc_hour_and_minute() {
    assert_eq!(utc_hhmm(1_700_000_000), "22:13");
    assert_eq!(utc_hhmm(0), "00:00");
    assert_eq!(utc_hhmm(-60), "23:59");
}

#[test]
fn a_long_name_is_cut_with_an_ellipsis() {
    assert_eq!(truncate("BBC World Service", 30), "BBC World Service");
    assert_eq!(truncate("abcdef", 6), "abcdef");
    assert_eq!(truncate("abcdef", 4), "abc…");
    assert_eq!(truncate("abcdef", 1), "…");
    assert_eq!(truncate("abcdef", 0), "…");
    assert_eq!(truncate("ÄÖÜäöü", 3), "ÄÖ…");
}

#[test]
fn the_ascii_search_ignores_case_and_an_empty_needle_finds_nothing() {
    assert!(contains_ignore_ascii_case("AO-73", "o-7"));
    assert!(contains_ignore_ascii_case("iss", "ISS"));
    assert!(!contains_ignore_ascii_case("RS-44", "o-7"));
    assert!(!contains_ignore_ascii_case("ISS", ""));
    assert!(!contains_ignore_ascii_case("QO", "QO-100"));
}
