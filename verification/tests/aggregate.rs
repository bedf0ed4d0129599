use timetracker::aggregate::activity_histogram_of;
use timetracker::aggregate::get_map_keys_sorted;
use timetracker::aggregate::get_map_keys_sorted_general;
use timetracker::aggregate::get_map_keys_sorted_strings;
use timetracker::aggregate::round_to_time_block;
use timetracker::aggregate::utc_seconds_rounded;
use timetracker::aggregate::sum_entry_activity_duration;
use timetracker::aggregate::sum_entry_duration;
use timetracker::aggregate::sum_entry_executable_duration;
use timetracker::aggregate::sum_entry_variables_duration;
use timetracker::entries::Entry;
use timetracker::entries::EntryStatus;
use timetracker::entries::EntryVariablesList;
use timetracker::format::format_naive_time_no_seconds;
use timetracker::format::DateTimeFormat;
use timetracker::format::TimeBlockUnit;
use timetracker::variable::Variable;

#[test]
fn test_get_map_keys_sorted_strings() {
    // The empty "unknown" key is kept and sorted last.
    let map_keys = vec!["key".to_string(), "key2".to_string(), "".to_string()];
    let sorted_keys = get_map_keys_sorted_strings(&map_keys);
    assert_eq!(sorted_keys.len(), 3);
    assert_eq!(sorted_keys[0], "key");
    assert_eq!(sorted_keys[1], "key2");
    assert_eq!(sorted_keys[2], "");
}

#[test]
fn test_get_map_keys_sorted() {
    let map_keys = vec!["".to_string(), "key2".to_string(), "key".to_string()];
    let sorted_keys = get_map_keys_sorted(&map_keys);
    assert_eq!(sorted_keys.len(), 3);
    assert_eq!(sorted_keys[0], "key");
    assert_eq!(sorted_keys[1], "key2");
    assert_eq!(sorted_keys[2], "");
}

fn generate_sorted_times_of_day() -> Vec<u64> {
    // The times of day 01:00, 02:00, 11:00, 13:00, 15:00, 16:00 and
    // 23:00, fed in scrambled order.
    let map_keys = vec![780, 60, 1380, 120, 960, 660, 900];
    let sorted_keys = get_map_keys_sorted_general(&map_keys);
    assert_eq!(sorted_keys.len(), 7);
    sorted_keys
}

#[test]
fn test_get_map_keys_sorted_general_iso_format() {
    let sorted_keys = generate_sorted_times_of_day();

    let datetime_format = DateTimeFormat::Iso;
    assert_eq!(format_naive_time_no_seconds(sorted_keys[0], datetime_format), "01:00");
    assert_eq!(format_naive_time_no_seconds(sorted_keys[1], datetime_format), "02:00");
    assert_eq!(format_naive_time_no_seconds(sorted_keys[2], datetime_format), "11:00");
    assert_eq!(format_naive_time_no_seconds(sorted_keys[3], datetime_format), "13:00");
    assert_eq!(format_naive_time_no_seconds(sorted_keys[4], datetime_format), "15:00");
    assert_eq!(format_naive_time_no_seconds(sorted_keys[5], datetime_format), "16:00");
    assert_eq!(format_naive_time_no_seconds(sorted_keys[6], datetime_format), "23:00");
}

#[test]
fn test_get_map_keys_sorted_general_usa_format() {
    let sorted_keys = generate_sorted_times_of_day();

    let datetime_format = DateTimeFormat::UsaMonthDayYear;
    assert_eq!(format_naive_time_no_seconds(sorted_keys[0], datetime_format), "01:00 AM");
    assert_eq!(format_naive_time_no_seconds(sorted_keys[1], datetime_format), "02:00 AM");
    assert_eq!(format_naive_time_no_seconds(sorted_keys[2], datetime_format), "11:00 AM");
    assert_eq!(format_naive_time_no_seconds(sorted_keys[3], datetime_format), "01:00 PM");
    assert_eq!(format_naive_time_no_seconds(sorted_keys[4], datetime_format), "03:00 PM");
    assert_eq!(format_naive_time_no_seconds(sorted_keys[5], datetime_format), "04:00 PM");
    assert_eq!(format_naive_time_no_seconds(sorted_keys[6], datetime_format), "11:00 PM");
}

fn entry_with_executable(ts: u64, dur: u64, status: EntryStatus, exe: &str) -> Entry {
    let mut vars = EntryVariablesList::empty();
    vars.executable = Some(exe.to_string());
    Entry::new(ts, dur, status, vars)
}

#[test]
fn test_sum_entry_duration_by_status() {
    let entries = vec![
        entry_with_executable(100, 3, EntryStatus::Active, "bash"),
        entry_with_executable(103, 5, EntryStatus::Idle, "bash"),
        entry_with_executable(108, 7, EntryStatus::Active, "vim"),
    ];
    assert_eq!(sum_entry_duration(&entries, EntryStatus::Active), 10);
    assert_eq!(sum_entry_duration(&entries, EntryStatus::Idle), 5);
    assert_eq!(sum_entry_duration(&entries, EntryStatus::Uninitialized), 0);
}

#[test]
fn test_sum_entry_executable_duration_groups() {
    let entries = vec![
        entry_with_executable(100, 3, EntryStatus::Active, "bash"),
        entry_with_executable(103, 5, EntryStatus::Active, "vim"),
        entry_with_executable(108, 7, EntryStatus::Active, "bash"),
        entry_with_executable(115, 11, EntryStatus::Idle, "bash"),
    ];
    let groups = sum_entry_executable_duration(&entries, EntryStatus::Active);
    assert_eq!(groups.len(), 2);
    assert_eq!(groups[0].0, "bash");
    assert_eq!(groups[0].2, 10);
    assert_eq!(groups[1].0, "vim");
    assert_eq!(groups[1].2, 5);
}

#[test]
fn test_sum_entry_variables_duration_unknown_bucket() {
    let mut vars_known = EntryVariablesList::empty();
    vars_known.var1_name = Some("PWD".to_string());
    vars_known.var1_value = Some("/home".to_string());
    let mut vars_unknown = EntryVariablesList::empty();
    vars_unknown.var1_name = Some("USER".to_string());

    let entries = vec![
        Entry::new(100, 3, EntryStatus::Active, vars_known),
        Entry::new(103, 4, EntryStatus::Active, vars_unknown),
    ];
    let variables = vec![Variable::VariableName("PWD".to_string())];
    let groups = sum_entry_variables_duration(&entries, &variables, EntryStatus::Active);
    assert_eq!(groups.len(), 2);
    assert_eq!(groups[0].0, "/home");
    assert_eq!(groups[0].2, 3);
    // Entries whose selected values are all absent fall into the
    // "unknown" bucket under the empty key.
    assert_eq!(groups[1].0, "");
    assert_eq!(groups[1].2, 4);
}

#[test]
fn test_activity_histogram_fills_gap_buckets() {
    // Three entries covering the first quarter hour, with no
    // duration falling in the middle five-minute block: the gap is
    // materialized, so exactly three buckets come out.
    let entries = vec![
        entry_with_executable(1000, 60, EntryStatus::Active, "bash"),
        entry_with_executable(1060, 120, EntryStatus::Active, "bash"),
        entry_with_executable(1700, 60, EntryStatus::Active, "bash"),
    ];
    let times_of_day = vec![0, 2, 12];
    let hist = activity_histogram_of(
        &entries,
        &times_of_day,
        true,
        TimeBlockUnit::FiveMinutes,
        EntryStatus::Active,
    );
    assert_eq!(hist.len(), 3);
    let keys: Vec<u64> = hist.iter().map(|b| b.0).collect();
    let sorted = get_map_keys_sorted_general(&keys);
    assert_eq!(sorted, vec![0, 5, 10]);
    for (key, total) in &hist {
        match key {
            0 => assert_eq!(*total, 180),
            5 => assert_eq!(*total, 0),
            10 => assert_eq!(*total, 60),
            _ => panic!("unexpected bucket"),
        }
    }
}

#[test]
fn test_activity_histogram_clamps_to_block_width() {
    // A block of five minutes cannot hold more than 300 seconds.
    let entries = vec![entry_with_executable(1000, 4000, EntryStatus::Active, "bash")];
    let times_of_day = vec![7];
    let hist = activity_histogram_of(
        &entries,
        &times_of_day,
        false,
        TimeBlockUnit::FiveMinutes,
        EntryStatus::Active,
    );
    assert_eq!(hist.len(), 1);
    assert_eq!(hist[0].0, 5);
    assert_eq!(hist[0].1, 300);
}

#[test]
fn test_sum_entry_activity_duration_total() {
    // Whatever the machine's time zone, one active entry lands in
    // one block with its full (clamped) duration.
    let entries = vec![entry_with_executable(1000000, 60, EntryStatus::Active, "bash")];
    let hist = sum_entry_activity_duration(
        &entries,
        false,
        TimeBlockUnit::SixtyMinutes,
        EntryStatus::Active,
    );
    assert_eq!(hist.len(), 1);
    assert_eq!(hist[0].1, 60);
    assert!(hist[0].0 < 1440);
    assert_eq!(hist[0].0 % 60, 0);
}

#[test]
fn test_utc_seconds_rounded_yields_block_start() {
    // Whatever the machine's time zone, the bucket is a block start
    // within the day.
    let bucket = utc_seconds_rounded(1700000000, TimeBlockUnit::FifteenMinutes);
    assert!(bucket < 1440);
    assert_eq!(bucket % 15, 0);
}

#[test]
fn test_round_to_time_block() {
    assert_eq!(round_to_time_block(0, TimeBlockUnit::FiveMinutes), 0);
    assert_eq!(round_to_time_block(14, TimeBlockUnit::FiveMinutes), 10);
    assert_eq!(round_to_time_block(125, TimeBlockUnit::ThirtyMinutes), 120);
    assert_eq!(round_to_time_block(125, TimeBlockUnit::SixtyMinutes), 120);
}
