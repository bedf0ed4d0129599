//! Display formats for dates, times and durations, and the verified
//! text they produce: decimal rendering is written out digit by
//! digit, so every formatted string is pinned by its specification.
use vstd::prelude::*;

verus! {

/// The character of one decimal digit.
pub open spec fn digit_char(d: int) -> char {
    if d == 0 {
        '0'
    } else if d == 1 {
        '1'
    } else if d == 2 {
        '2'
    } else if d == 3 {
        '3'
    } else if d == 4 {
        '4'
    } else if d == 5 {
        '5'
    } else if d == 6 {
        '6'
    } else if d == 7 {
        '7'
    } else if d == 8 {
        '8'
    } else {
        '9'
    }
}

/// The decimal representation of a non-negative integer, without
/// leading zeros (a single `0` for zero).
pub open spec fn dec_str(n: int) -> Seq<char>
    decreases n,
{
    if n < 10 {
        seq![digit_char(n)]
    } else {
        dec_str(n / 10).push(digit_char(n % 10))
    }
}

/// The decimal representation padded with leading zeros to at least
/// two digits.
pub open spec fn pad2_str(n: int) -> Seq<char> {
    if n < 10 {
        seq![digit_char(0)] + dec_str(n)
    } else {
        dec_str(n)
    }
}

/// The decimal representation padded with leading zeros to at least
/// four digits.
pub open spec fn pad4_str(n: int) -> Seq<char> {
    if n < 10 {
        seq![digit_char(0), digit_char(0), digit_char(0)] + dec_str(n)
    } else if n < 100 {
        seq![digit_char(0), digit_char(0)] + dec_str(n)
    } else if n < 1000 {
        seq![digit_char(0)] + dec_str(n)
    } else {
        dec_str(n)
    }
}

/// One decimal digit as text.
fn digit_text(d: u64) -> (r: &'static str)
    requires
        d < 10,
    ensures
        r@ == seq![digit_char(d as int)],
{
    if d == 0 {
        proof {
            reveal_strlit("0");
        }
        "0"
    } else if d == 1 {
        proof {
            reveal_strlit("1");
        }
        "1"
    } else if d == 2 {
        proof {
            reveal_strlit("2");
        }
        "2"
    } else if d == 3 {
        proof {
            reveal_strlit("3");
        }
        "3"
    } else if d == 4 {
        proof {
            reveal_strlit("4");
        }
        "4"
    } else if d == 5 {
        proof {
            reveal_strlit("5");
        }
        "5"
    } else if d == 6 {
        proof {
            reveal_strlit("6");
        }
        "6"
    } else if d == 7 {
        proof {
            reveal_strlit("7");
        }
        "7"
    } else if d == 8 {
        proof {
            reveal_strlit("8");
        }
        "8"
    } else {
        proof {
            reveal_strlit("9");
        }
        "9"
    }
}

/// Renders a non-negative integer in decimal.
pub fn u64_to_string(n: u64) -> (r: String)
    ensures
        r@ == dec_str(n as int),
    decreases n,
{
    if n < 10 {
        let mut s = String::new();
        s.append(digit_text(n));
        proof {
            assert(s@ =~= seq![digit_char(n as int)]);
        }
        s
    } else {
        let mut s = u64_to_string(n / 10);
        s.append(digit_text(n % 10));
        s
    }
}

/// Renders a non-negative integer in decimal, zero-padded to at
/// least two digits.
pub fn u64_to_string_pad2(n: u64) -> (r: String)
    ensures
        r@ == pad2_str(n as int),
{
    if n < 10 {
        let mut s = String::new();
        s.append(digit_text(0));
        s.append(digit_text(n));
        proof {
            assert(s@ =~= pad2_str(n as int));
        }
        s
    } else {
        u64_to_string(n)
    }
}

/// Renders a non-negative integer in decimal, zero-padded to at
/// least four digits.
pub fn u64_to_string_pad4(n: u64) -> (r: String)
    ensures
        r@ == pad4_str(n as int),
{
    if n < 10 {
        let mut s = String::new();
        s.append(digit_text(0));
        s.append(digit_text(0));
        s.append(digit_text(0));
        s.append(digit_text(n));
        proof {
            assert(s@ =~= pad4_str(n as int));
        }
        s
    } else if n < 100 {
        let mut s = String::new();
        s.append(digit_text(0));
        s.append(digit_text(0));
        let t = u64_to_string(n);
        s.append(t.as_str());
        proof {
            assert(s@ =~= pad4_str(n as int));
        }
        s
    } else if n < 1000 {
        let mut s = String::new();
        s.append(digit_text(0));
        let t = u64_to_string(n);
        s.append(t.as_str());
        proof {
            assert(s@ =~= pad4_str(n as int));
        }
        s
    } else {
        u64_to_string(n)
    }
}


/// The formatting convention for dates and times.
#[derive(Debug, Copy, Clone, PartialEq, Eq, Structural)]
pub enum DateTimeFormat {
    /// Follows the ISO 8601 standard.
    Iso,
    /// Follows common date-time conventions in the USA.
    UsaMonthDayYear,
    /// Month/day/two-digit-year with a 24-hour clock.
    Locale,
}

impl DateTimeFormat {
    /// The name under which this format is configured.
    pub open spec fn name_spec(self) -> Seq<char> {
        match self {
            DateTimeFormat::Iso => "Iso"@,
            DateTimeFormat::UsaMonthDayYear => "UsaMonthDayYear"@,
            DateTimeFormat::Locale => "Locale"@,
        }
    }

    /// This format's configuration name.
    pub fn name(&self) -> (r: String)
        ensures
            r@ == self.name_spec(),
    {
        let mut s = String::new();
        match self {
            DateTimeFormat::Iso => s.append("Iso"),
            DateTimeFormat::UsaMonthDayYear => s.append("UsaMonthDayYear"),
            DateTimeFormat::Locale => s.append("Locale"),
        }
        s
    }
}

/// The formatting convention for durations.
#[derive(Debug, Copy, Clone, PartialEq, Eq, Structural)]
pub enum DurationFormat {
    /// Exact hours and minutes.
    HoursMinutes,
    /// Exact hours, minutes and seconds.
    HoursMinutesSeconds,
    /// Hours as a decimal number rounded to six-minute increments.
    DecimalHours,
}

impl DurationFormat {
    /// The name under which this format is configured.
    pub open spec fn name_spec(self) -> Seq<char> {
        match self {
            DurationFormat::HoursMinutes => "HoursMinutes"@,
            DurationFormat::HoursMinutesSeconds => "HoursMinutesSeconds"@,
            DurationFormat::DecimalHours => "DecimalHours"@,
        }
    }

    /// This format's configuration name.
    pub fn name(&self) -> (r: String)
        ensures
            r@ == self.name_spec(),
    {
        let mut s = String::new();
        match self {
            DurationFormat::HoursMinutes => s.append("HoursMinutes"),
            DurationFormat::HoursMinutesSeconds => s.append("HoursMinutesSeconds"),
            DurationFormat::DecimalHours => s.append("DecimalHours"),
        }
        s
    }
}

/// The span a report covers: one whole week, or each weekday apart.
#[derive(Debug, Copy, Clone, PartialEq, Eq, Structural)]
pub enum TimeScale {
    Week,
    Weekday,
}

impl TimeScale {
    /// The name under which this scale is configured.
    pub open spec fn name_spec(self) -> Seq<char> {
        match self {
            TimeScale::Week => "Week"@,
            TimeScale::Weekday => "Weekday"@,
        }
    }

    /// This scale's configuration name.
    pub fn name(&self) -> (r: String)
        ensures
            r@ == self.name_spec(),
    {
        let mut s = String::new();
        match self {
            TimeScale::Week => s.append("Week"),
            TimeScale::Weekday => s.append("Weekday"),
        }
        s
    }
}

/// The rounding granularity used to bucket times of day.
#[derive(Debug, Copy, Clone, PartialEq, Eq, Structural)]
pub enum TimeBlockUnit {
    FiveMinutes,
    TenMinutes,
    FifteenMinutes,
    ThirtyMinutes,
    SixtyMinutes,
}

impl TimeBlockUnit {
    /// This granularity in minutes.
    pub open spec fn as_minutes_spec(self) -> int {
        match self {
            TimeBlockUnit::FiveMinutes => 5,
            TimeBlockUnit::TenMinutes => 10,
            TimeBlockUnit::FifteenMinutes => 15,
            TimeBlockUnit::ThirtyMinutes => 30,
            TimeBlockUnit::SixtyMinutes => 60,
        }
    }

    /// This granularity in minutes.
    pub fn as_minutes(self) -> (r: u64)
        ensures
            r == self.as_minutes_spec(),
            0 < r <= 60,
            60u64 % r == 0,
    {
        match self {
            TimeBlockUnit::FiveMinutes => 5,
            TimeBlockUnit::TenMinutes => 10,
            TimeBlockUnit::FifteenMinutes => 15,
            TimeBlockUnit::ThirtyMinutes => 30,
            TimeBlockUnit::SixtyMinutes => 60,
        }
    }

    /// The name under which this granularity is configured.
    pub open spec fn name_spec(self) -> Seq<char> {
        match self {
            TimeBlockUnit::FiveMinutes => "FiveMinutes"@,
            TimeBlockUnit::TenMinutes => "TenMinutes"@,
            TimeBlockUnit::FifteenMinutes => "FifteenMinutes"@,
            TimeBlockUnit::ThirtyMinutes => "ThirtyMinutes"@,
            TimeBlockUnit::SixtyMinutes => "SixtyMinutes"@,
        }
    }

    /// This granularity's configuration name.
    pub fn name(&self) -> (r: String)
        ensures
            r@ == self.name_spec(),
    {
        let mut s = String::new();
        match self {
            TimeBlockUnit::FiveMinutes => s.append("FiveMinutes"),
            TimeBlockUnit::TenMinutes => s.append("TenMinutes"),
            TimeBlockUnit::FifteenMinutes => s.append("FifteenMinutes"),
            TimeBlockUnit::ThirtyMinutes => s.append("ThirtyMinutes"),
            TimeBlockUnit::SixtyMinutes => s.append("SixtyMinutes"),
        }
        s
    }
}

/// The kind of report to produce.
#[derive(Debug, Copy, Clone, PartialEq, Eq, Structural)]
pub enum PrintType {
    Summary,
    Activity,
    Variables,
    Software,
}

impl PrintType {
    /// The name under which this report kind is configured.
    pub open spec fn name_spec(self) -> Seq<char> {
        match self {
            PrintType::Summary => "Summary"@,
            PrintType::Activity => "Activity"@,
            PrintType::Variables => "Variables"@,
            PrintType::Software => "Software"@,
        }
    }

    /// This report kind's configuration name.
    pub fn name(&self) -> (r: String)
        ensures
            r@ == self.name_spec(),
    {
        let mut s = String::new();
        match self {
            PrintType::Summary => s.append("Summary"),
            PrintType::Activity => s.append("Activity"),
            PrintType::Variables => s.append("Variables"),
            PrintType::Software => s.append("Software"),
        }
        s
    }
}

/// Whether report output is coloured.
#[derive(Debug, Copy, Clone, PartialEq, Eq, Structural)]
pub enum ColorMode {
    Auto,
    Never,
    Always,
}

impl ColorMode {
    /// The name under which this mode is configured.
    pub open spec fn name_spec(self) -> Seq<char> {
        match self {
            ColorMode::Auto => "Auto"@,
            ColorMode::Never => "Never"@,
            ColorMode::Always => "Always"@,
        }
    }

    /// This mode's configuration name.
    pub fn name(&self) -> (r: String)
        ensures
            r@ == self.name_spec(),
    {
        let mut s = String::new();
        match self {
            ColorMode::Auto => s.append("Auto"),
            ColorMode::Never => s.append("Never"),
            ColorMode::Always => s.append("Always"),
        }
        s
    }
}

/// Resolves a colour mode to a yes/no decision: `Always` and `Never`
/// are themselves, `Auto` defers to `auto_value`, an unset mode to
/// `fallback_value`.
pub fn color_mode_to_use_color(color_mode: Option<ColorMode>, auto_value: bool, fallback_value: bool) -> (r:
    bool)
    ensures
        r == match color_mode {
            None => fallback_value,
            Some(ColorMode::Auto) => auto_value,
            Some(ColorMode::Always) => true,
            Some(ColorMode::Never) => false,
        },
{
    match color_mode {
        None => fallback_value,
        Some(ColorMode::Auto) => auto_value,
        Some(ColorMode::Always) => true,
        Some(ColorMode::Never) => false,
    }
}

/// The text of a duration of `secs` seconds under a format: exact
/// hours/minutes (`02h 59m`), exact hours/minutes/seconds
/// (`02h 59m 00s`), or decimal hours rounded to tenths, each tenth
/// being six minutes (`1.0`).
pub open spec fn format_duration_spec(secs: int, f: DurationFormat) -> Seq<char> {
    let hours = secs / 3600;
    let minutes = secs / 60;
    match f {
        DurationFormat::DecimalHours => {
            if hours == 0 && minutes == 0 {
                "0.0"@
            } else {
                let tenths = (minutes + 3) / 6;
                dec_str(tenths / 10) + "."@ + seq![digit_char(tenths % 10)]
            }
        },
        DurationFormat::HoursMinutes => {
            if hours == 0 && minutes == 0 {
                "00h 00m"@
            } else {
                pad2_str(hours) + "h "@ + pad2_str(minutes % 60) + "m"@
            }
        },
        DurationFormat::HoursMinutesSeconds => {
            if secs == 0 {
                "00h 00m 00s"@
            } else {
                pad2_str(hours) + "h "@ + pad2_str((secs / 60) % 60) + "m "@ + pad2_str(secs % 60)
                    + "s"@
            }
        },
    }
}

/// Formats a duration given in seconds.
pub fn format_duration(duration_seconds: u64, duration_format: DurationFormat) -> (r: String)
    ensures
        r@ == format_duration_spec(duration_seconds as int, duration_format),
{
    let hours = duration_seconds / 3600;
    let minutes = duration_seconds / 60;
    let seconds = duration_seconds;
    match duration_format {
        DurationFormat::DecimalHours => {
            if hours == 0 && minutes == 0 {
                let mut s = String::new();
                s.append("0.0");
                s
            } else {
                let tenths = (minutes + 3) / 6;
                let mut s = u64_to_string(tenths / 10);
                s.append(".");
                s.append(digit_text(tenths % 10));
                s
            }
        },
        DurationFormat::HoursMinutes => {
            if hours == 0 && minutes == 0 {
                let mut s = String::new();
                s.append("00h 00m");
                s
            } else {
                let mut s = u64_to_string_pad2(hours);
                s.append("h ");
                let m = u64_to_string_pad2(minutes % 60);
                s.append(m.as_str());
                s.append("m");
                s
            }
        },
        DurationFormat::HoursMinutesSeconds => {
            if seconds == 0 {
                let mut s = String::new();
                s.append("00h 00m 00s");
                s
            } else {
                let mut s = u64_to_string_pad2(hours);
                s.append("h ");
                let m = u64_to_string_pad2((seconds / 60) % 60);
                s.append(m.as_str());
                s.append("m ");
                let sec = u64_to_string_pad2(seconds % 60);
                s.append(sec.as_str());
                s.append("s");
                s
            }
        },
    }
}

/// One wall-clock instant broken into calendar and clock fields.
/// Conversions from UTC seconds to the wall clock are made by the
/// caller (they depend on the machine's time zone); the formatting
/// of the fields is verified here.
#[derive(Debug, Copy, Clone, PartialEq, Eq, Structural)]
pub struct DateTimeFields {
    pub year: u64,
    pub month: u64,
    pub day: u64,
    pub hour: u64,
    pub minute: u64,
    pub second: u64,
}

/// The 12-hour clock's rendering of an hour: 12 for 0 and 12, the
/// hour within its half-day otherwise.
pub open spec fn hour12(h: int) -> int {
    if h % 12 == 0 {
        12
    } else {
        h % 12
    }
}

/// `AM` before the 13th hour, `PM` from it on.
pub open spec fn meridiem(h: int) -> Seq<char> {
    if h % 24 < 12 {
        "AM"@
    } else {
        "PM"@
    }
}

/// The date's text: `2016-07-08` (ISO), `07/08/2016` (USA), or
/// `07/08/16` (locale-style short form).
pub open spec fn format_date_spec(dt: DateTimeFields, f: DateTimeFormat) -> Seq<char> {
    match f {
        DateTimeFormat::Iso => pad4_str(dt.year as int) + "-"@ + pad2_str(dt.month as int) + "-"@
            + pad2_str(dt.day as int),
        DateTimeFormat::UsaMonthDayYear => pad2_str(dt.month as int) + "/"@ + pad2_str(
            dt.day as int,
        ) + "/"@ + pad4_str(dt.year as int),
        DateTimeFormat::Locale => pad2_str(dt.month as int) + "/"@ + pad2_str(dt.day as int) + "/"@
            + pad2_str(dt.year as int % 100),
    }
}

/// Formats the date part of an instant.
pub fn format_date(datetime: DateTimeFields, datetime_format: DateTimeFormat) -> (r: String)
    ensures
        r@ == format_date_spec(datetime, datetime_format),
{
    match datetime_format {
        DateTimeFormat::Iso => {
            let mut s = u64_to_string_pad4(datetime.year);
            s.append("-");
            let mo = u64_to_string_pad2(datetime.month);
            s.append(mo.as_str());
            s.append("-");
            let d = u64_to_string_pad2(datetime.day);
            s.append(d.as_str());
            s
        },
        DateTimeFormat::UsaMonthDayYear => {
            let mut s = u64_to_string_pad2(datetime.month);
            s.append("/");
            let d = u64_to_string_pad2(datetime.day);
            s.append(d.as_str());
            s.append("/");
            let y = u64_to_string_pad4(datetime.year);
            s.append(y.as_str());
            s
        },
        DateTimeFormat::Locale => {
            let mut s = u64_to_string_pad2(datetime.month);
            s.append("/");
            let d = u64_to_string_pad2(datetime.day);
            s.append(d.as_str());
            s.append("/");
            let y = u64_to_string_pad2(datetime.year % 100);
            s.append(y.as_str());
            s
        },
    }
}

/// The clock's text with seconds: `09:10:11` (ISO and locale) or
/// `09:10:11 AM` (USA, 12-hour clock).
pub open spec fn format_time_spec(dt: DateTimeFields, f: DateTimeFormat) -> Seq<char> {
    match f {
        DateTimeFormat::Iso => pad2_str(dt.hour as int) + ":"@ + pad2_str(dt.minute as int) + ":"@
            + pad2_str(dt.second as int),
        DateTimeFormat::UsaMonthDayYear => pad2_str(hour12(dt.hour as int)) + ":"@ + pad2_str(
            dt.minute as int,
        ) + ":"@ + pad2_str(dt.second as int) + " "@ + meridiem(dt.hour as int),
        DateTimeFormat::Locale => pad2_str(dt.hour as int) + ":"@ + pad2_str(dt.minute as int)
            + ":"@ + pad2_str(dt.second as int),
    }
}

/// Formats the clock part of an instant, seconds included.
pub fn format_time(datetime: DateTimeFields, datetime_format: DateTimeFormat) -> (r: String)
    ensures
        r@ == format_time_spec(datetime, datetime_format),
{
    match datetime_format {
        DateTimeFormat::UsaMonthDayYear => {
            let h12: u64 = if datetime.hour % 12 == 0 {
                12
            } else {
                datetime.hour % 12
            };
            let mut s = u64_to_string_pad2(h12);
            s.append(":");
            let mi = u64_to_string_pad2(datetime.minute);
            s.append(mi.as_str());
            s.append(":");
            let sec = u64_to_string_pad2(datetime.second);
            s.append(sec.as_str());
            s.append(" ");
            if datetime.hour % 24 < 12 {
                s.append("AM");
            } else {
                s.append("PM");
            }
            s
        },
        _ => {
            let mut s = u64_to_string_pad2(datetime.hour);
            s.append(":");
            let mi = u64_to_string_pad2(datetime.minute);
            s.append(mi.as_str());
            s.append(":");
            let sec = u64_to_string_pad2(datetime.second);
            s.append(sec.as_str());
            s
        },
    }
}

/// The clock's text without seconds: `13:05` (ISO), `01:05 PM`
/// (USA), or the full `13:05:00` (locale-style form keeps seconds).
pub open spec fn format_time_no_seconds_spec(dt: DateTimeFields, f: DateTimeFormat) -> Seq<char> {
    match f {
        DateTimeFormat::Iso => pad2_str(dt.hour as int) + ":"@ + pad2_str(dt.minute as int),
        DateTimeFormat::UsaMonthDayYear => pad2_str(hour12(dt.hour as int)) + ":"@ + pad2_str(
            dt.minute as int,
        ) + " "@ + meridiem(dt.hour as int),
        DateTimeFormat::Locale => pad2_str(dt.hour as int) + ":"@ + pad2_str(dt.minute as int)
            + ":"@ + pad2_str(dt.second as int),
    }
}

/// Formats the clock part of an instant without seconds.
pub fn format_time_no_seconds(datetime: DateTimeFields, datetime_format: DateTimeFormat) -> (r:
    String)
    ensures
        r@ == format_time_no_seconds_spec(datetime, datetime_format),
{
    match datetime_format {
        DateTimeFormat::Iso => {
            let mut s = u64_to_string_pad2(datetime.hour);
            s.append(":");
            let mi = u64_to_string_pad2(datetime.minute);
            s.append(mi.as_str());
            s
        },
        DateTimeFormat::UsaMonthDayYear => {
            let h12: u64 = if datetime.hour % 12 == 0 {
                12
            } else {
                datetime.hour % 12
            };
            let mut s = u64_to_string_pad2(h12);
            s.append(":");
            let mi = u64_to_string_pad2(datetime.minute);
            s.append(mi.as_str());
            s.append(" ");
            if datetime.hour % 24 < 12 {
                s.append("AM");
            } else {
                s.append("PM");
            }
            s
        },
        DateTimeFormat::Locale => format_time(datetime, datetime_format),
    }
}

/// Formats a minute-resolution time of day (minutes since midnight),
/// as used for histogram bucket labels.
pub fn format_naive_time_no_seconds(time_of_day_minutes: u64, datetime_format: DateTimeFormat) -> (r:
    String)
    requires
        time_of_day_minutes < 1440,
    ensures
        r@ == format_time_no_seconds_spec(
            DateTimeFields {
                year: 0,
                month: 0,
                day: 0,
                hour: (time_of_day_minutes / 60) as u64,
                minute: (time_of_day_minutes % 60) as u64,
                second: 0,
            },
            datetime_format,
        ),
{
    let fields = DateTimeFields {
        year: 0,
        month: 0,
        day: 0,
        hour: time_of_day_minutes / 60,
        minute: time_of_day_minutes % 60,
        second: 0,
    };
    format_time_no_seconds(fields, datetime_format)
}

/// The full instant's text: date, a space, and the clock with
/// seconds (12-hour with `AM`/`PM` in the USA form).
pub open spec fn format_datetime_spec(dt: DateTimeFields, f: DateTimeFormat) -> Seq<char> {
    format_date_spec(dt, f) + " "@ + format_time_spec(dt, f)
}

/// Formats an instant: its date, then its clock time.
pub fn format_datetime(datetime: DateTimeFields, datetime_format: DateTimeFormat) -> (r: String)
    ensures
        r@ == format_datetime_spec(datetime, datetime_format),
{
    let mut s = format_date(datetime, datetime_format);
    s.append(" ");
    let t = format_time(datetime, datetime_format);
    s.append(t.as_str());
    s
}


} // verus!
