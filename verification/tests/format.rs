use timetracker::format::format_date;
use timetracker::format::format_datetime;
use timetracker::format::format_duration;
use timetracker::format::format_naive_time_no_seconds;
use timetracker::format::format_time;
use timetracker::format::format_time_no_seconds;
use timetracker::format::u64_to_string;
use timetracker::format::ColorMode;
use timetracker::format::color_mode_to_use_color;
use timetracker::format::DateTimeFields;
use timetracker::format::DateTimeFormat;
use timetracker::format::DurationFormat;
use timetracker::format::TimeBlockUnit;

const MINUTE: u64 = 60;

#[test]
fn test_format_duration_decimal_hours_round_down_1() {
    let duration_text = format_duration(1, DurationFormat::DecimalHours);
    assert_eq!(duration_text, "0.0");
}

#[test]
fn test_format_duration_decimal_hours_round_down_2() {
    let duration_text = format_duration(2 * MINUTE, DurationFormat::DecimalHours);
    assert_eq!(duration_text, "0.0");
}

#[test]
fn test_format_duration_decimal_hours_round_up_1() {
    let duration_text = format_duration(59 * MINUTE, DurationFormat::DecimalHours);
    assert_eq!(duration_text, "1.0");
}

#[test]
fn test_format_duration_decimal_hours_round_up_2() {
    let duration_text = format_duration(57 * MINUTE, DurationFormat::DecimalHours);
    assert_eq!(duration_text, "1.0");
}

#[test]
fn test_format_duration_hours_minutes_1() {
    let duration_text = format_duration(0, DurationFormat::HoursMinutes);
    assert_eq!(duration_text, "00h 00m");
}

#[test]
fn test_format_duration_hours_minutes_2() {
    let duration_text = format_duration(10 * MINUTE, DurationFormat::HoursMinutes);
    assert_eq!(duration_text, "00h 10m");
}

#[test]
fn test_format_duration_hours_minutes_3() {
    let duration_text = format_duration(61 * MINUTE, DurationFormat::HoursMinutes);
    assert_eq!(duration_text, "01h 01m");
}

#[test]
fn test_format_duration_hours_minutes_4() {
    let duration_text = format_duration(179 * MINUTE, DurationFormat::HoursMinutes);
    assert_eq!(duration_text, "02h 59m");
}

#[test]
fn test_format_duration_hours_mins_secs_1() {
    let duration_text = format_duration(0, DurationFormat::HoursMinutesSeconds);
    assert_eq!(duration_text, "00h 00m 00s");
}

#[test]
fn test_format_duration_hours_mins_secs_2() {
    let duration_text = format_duration(10 * MINUTE, DurationFormat::HoursMinutesSeconds);
    assert_eq!(duration_text, "00h 10m 00s");
}

#[test]
fn test_format_duration_hours_mins_secs_3() {
    let duration_text = format_duration(61 * MINUTE, DurationFormat::HoursMinutesSeconds);
    assert_eq!(duration_text, "01h 01m 00s");
}

#[test]
fn test_format_duration_hours_mins_secs_4() {
    let duration_text = format_duration(179 * MINUTE, DurationFormat::HoursMinutesSeconds);
    assert_eq!(duration_text, "02h 59m 00s");
}

fn example_datetime() -> DateTimeFields {
    DateTimeFields { year: 2016, month: 7, day: 8, hour: 9, minute: 10, second: 11 }
}

#[test]
fn test_format_date_iso_1() {
    let datetime_text = format_date(example_datetime(), DateTimeFormat::Iso);
    assert_eq!(datetime_text, "2016-07-08");
}

#[test]
fn test_format_date_month_day_year_usa_1() {
    let datetime_text = format_date(example_datetime(), DateTimeFormat::UsaMonthDayYear);
    assert_eq!(datetime_text, "07/08/2016");
}

#[test]
fn test_format_datetime_iso_1() {
    let datetime_text = format_datetime(example_datetime(), DateTimeFormat::Iso);
    assert_eq!(datetime_text, "2016-07-08 09:10:11");
}

#[test]
fn test_format_datetime_month_day_year_usa_1() {
    let datetime_text = format_datetime(example_datetime(), DateTimeFormat::UsaMonthDayYear);
    assert_eq!(datetime_text, "07/08/2016 09:10:11 AM");
}

#[test]
fn test_format_time_afternoon_usa() {
    let afternoon = DateTimeFields { year: 2016, month: 7, day: 8, hour: 13, minute: 5, second: 6 };
    assert_eq!(format_time(afternoon, DateTimeFormat::UsaMonthDayYear), "01:05:06 PM");
    assert_eq!(format_time(afternoon, DateTimeFormat::Iso), "13:05:06");
    assert_eq!(format_time_no_seconds(afternoon, DateTimeFormat::Iso), "13:05");
}

#[test]
fn test_format_naive_time_buckets() {
    assert_eq!(format_naive_time_no_seconds(0, DateTimeFormat::Iso), "00:00");
    assert_eq!(format_naive_time_no_seconds(65, DateTimeFormat::Iso), "01:05");
    assert_eq!(format_naive_time_no_seconds(780, DateTimeFormat::UsaMonthDayYear), "01:00 PM");
}

#[test]
fn test_u64_to_string_decimal() {
    assert_eq!(u64_to_string(0), "0");
    assert_eq!(u64_to_string(7), "7");
    assert_eq!(u64_to_string(40960), "40960");
}

#[test]
fn test_time_block_unit_minutes() {
    assert_eq!(TimeBlockUnit::FiveMinutes.as_minutes(), 5);
    assert_eq!(TimeBlockUnit::TenMinutes.as_minutes(), 10);
    assert_eq!(TimeBlockUnit::FifteenMinutes.as_minutes(), 15);
    assert_eq!(TimeBlockUnit::ThirtyMinutes.as_minutes(), 30);
    assert_eq!(TimeBlockUnit::SixtyMinutes.as_minutes(), 60);
}

#[test]
fn test_color_mode_resolution() {
    assert_eq!(color_mode_to_use_color(None, true, false), false);
    assert_eq!(color_mode_to_use_color(Some(ColorMode::Auto), true, false), true);
    assert_eq!(color_mode_to_use_color(Some(ColorMode::Always), false, false), true);
    assert_eq!(color_mode_to_use_color(Some(ColorMode::Never), true, true), false);
}

#[test]
fn test_enum_names() {
    assert_eq!(DateTimeFormat::Iso.name(), "Iso");
    assert_eq!(DurationFormat::HoursMinutes.name(), "HoursMinutes");
    assert_eq!(TimeBlockUnit::SixtyMinutes.name(), "SixtyMinutes");
}
