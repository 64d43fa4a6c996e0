use pwr_viewgen::markdown::timestamp::fmt;
use pwr_viewgen::markdown::timestamp::fmt_with;
use pwr_viewgen::markdown::timestamp::is_valid_style;
use pwr_viewgen::markdown::timestamp::TIMESTAMP_STYLES;

const SAT_JAN_1_2000: i64 = 946_684_800;
const LEAP_DAY_2024: i64 = 1_709_164_800;

#[test]
fn fixed_styles_format_en_us_in_utc() {
    let cases: &[(char, &str)] = &[
        ('t', "12:00 AM"),
        ('T', "12:00:00 AM"),
        ('d', "01/01/1970"),
        ('D', "January 1, 1970"),
        ('f', "January 1, 1970 12:00 AM"),
        ('F', "Thursday, January 1, 1970 12:00 AM"),
    ];
    for (style, expected) in cases {
        assert_eq!(&fmt_with(0, *style, 0), expected, "style {style}");
    }
}

#[test]
fn weekend_and_leap_day_anchor_formats() {
    assert_eq!(
        fmt_with(SAT_JAN_1_2000, 'F', 0),
        "Saturday, January 1, 2000 12:00 AM"
    );
    assert_eq!(fmt_with(SAT_JAN_1_2000, 'D', 0), "January 1, 2000");
    assert_eq!(fmt_with(LEAP_DAY_2024, 'd', 0), "02/29/2024");
    assert_eq!(fmt_with(LEAP_DAY_2024, 'D', 0), "February 29, 2024");
}

#[test]
fn unknown_style_falls_back_to_default_f() {
    assert_eq!(
        fmt_with(0, 'x', 0),
        fmt_with(0, 'f', 0),
        "unknown styles must render like f"
    );
}

#[test]
fn unrepresentable_instant_renders_empty() {
    assert_eq!(fmt_with(i64::MAX, 't', 0), "");
}

#[test]
fn relative_style_buckets_past_and_future() {
    let day: i64 = 86_400;
    let cases: &[(i64, i64, &str)] = &[
        (100, 100, "now"),
        (100, 130, "30 seconds ago"),
        (100, 190, "1 minute ago"),
        (100, 100 + 2 * 3600, "2 hours ago"),
        (100, 100 + 3 * day, "3 days ago"),
        (100, 100 + 45 * day, "1 month ago"),
        (100, 100 + 400 * day, "1 year ago"),
        (100, 70, "in 30 seconds"),
        (100, 40, "in 1 minute"),
        (100, 100 - 7200, "in 2 hours"),
    ];
    for (unix, now, expected) in cases {
        assert_eq!(&fmt_with(*unix, 'R', *now), expected, "unix {unix} now {now}");
    }
}

#[test]
fn style_set_matches_discord_documented_set() {
    for style in TIMESTAMP_STYLES.chars() {
        assert!(is_valid_style(style));
    }
    assert!(!is_valid_style('x'));
    assert!(!is_valid_style('r'), "lowercase r is not a style");
}

#[test]
fn relative_text_mirrors_past_and_future() {
    for d in [1i64, 59, 60, 3599, 86_400, 31_536_000 * 3] {
        let past = fmt_with(0, 'R', d);
        let future = fmt_with(0, 'R', -d);
        let core = past.strip_suffix(" ago").expect("past ends with ago");
        assert_eq!(future, format!("in {core}"));
        assert!(!core.starts_with("0 "), "amount is at least one: {core}");
    }
    assert_eq!(fmt_with(5, 'R', 5), "now");
}

#[test]
fn fmt_with_the_live_clock_formats_fixed_styles_alike() {
    assert_eq!(fmt(0, 'D'), "January 1, 1970");
    assert_eq!(fmt(i64::MAX, 'R'), "");
}

#[test]
fn relative_text_holds_at_the_ends_of_the_clock() {
    assert_eq!(fmt_with(0, 'R', i64::MAX), "292471208677 years ago");
    assert_eq!(fmt_with(0, 'R', i64::MIN), "in 292471208677 years");
    assert_eq!(fmt_with(-1, 'R', i64::MAX), "292471208677 years ago");
}

#[test]
fn relative_reads_both_ways() {
    use_relative();
}

fn use_relative() {
    for (a, b) in [(0i64, 90i64), (10, 86_400 * 40), (-5, 5)] {
        let future = pwr_viewgen::markdown::timestamp::relative(b, a);
        let past = pwr_viewgen::markdown::timestamp::relative(a, b);
        let core = past.strip_suffix(" ago").expect("past");
        assert_eq!(future, format!("in {core}"));
    }
}
