use timetracker::entries::Entry;
use timetracker::entries::EntryStatus;
use timetracker::entries::EntryVariablesList;
use timetracker::storage::Entries;
use timetracker::storage::Storage;
use timetracker::storage::StoreError;

fn entry(ts: u64, dur: u64, status: EntryStatus, exe: &str) -> Entry {
    let mut vars = EntryVariablesList::empty();
    vars.executable = Some(exe.to_string());
    vars.var1_name = Some("PWD".to_string());
    vars.var1_value = Some("/home".to_string());
    Entry::new(ts, dur, status, vars)
}

#[test]
fn test_round_trip_through_fresh_store() {
    // An already-compacted batch: no two consecutive entries can
    // merge (executables differ, ends are far apart).
    let batch = vec![
        entry(100, 3, EntryStatus::Active, "bash"),
        entry(110, 2, EntryStatus::Idle, "bash"),
        entry(120, 4, EntryStatus::Active, "vim"),
    ];

    let mut storage = Storage::new(1);
    storage.insert_entries(&batch);
    let plan = storage.write_entries().unwrap();
    assert_eq!(plan.updates.len(), 0);
    assert_eq!(plan.inserts.len(), 3);

    let read = storage.read_entries(99, 1000).unwrap();
    let rows = read.all_entries();
    assert_eq!(rows.len(), 3);
    for (i, row) in rows.iter().enumerate() {
        assert_eq!(row.utc_time_seconds, batch[i].utc_time_seconds);
        assert_eq!(row.duration_seconds, batch[i].duration_seconds);
        assert_eq!(row.status, batch[i].status);
        assert!(row.vars == batch[i].vars);
    }
    storage.close();
}

#[test]
fn test_second_write_extends_open_trailing_row() {
    let mut storage = Storage::new(1);
    storage.insert_entries(&vec![
        entry(100, 1, EntryStatus::Active, "bash"),
        entry(101, 1, EntryStatus::Active, "bash"),
    ]);
    let plan = storage.write_entries().unwrap();
    assert_eq!(plan.inserts.len(), 1);
    assert_eq!(plan.inserts[0].duration_seconds, 2);

    // The next batch continues seamlessly: the trailing row is
    // extended in place, nothing new is inserted.
    storage.insert_entries(&vec![entry(102, 1, EntryStatus::Active, "bash")]);
    let plan = storage.write_entries().unwrap();
    assert_eq!(plan.updates.len(), 1);
    assert_eq!(plan.inserts.len(), 0);
    assert_eq!(plan.updates[0].utc_time_seconds, 100);
    assert_eq!(plan.updates[0].duration_seconds, 3);

    let read = storage.read_entries(0, 1000).unwrap();
    assert_eq!(read.all_entries().len(), 1);
    assert_eq!(read.all_entries()[0].duration_seconds, 3);
}

#[test]
fn test_read_range_is_exclusive_on_both_ends() {
    let mut storage = Storage::new(1);
    storage.insert_entries(&vec![
        entry(100, 1, EntryStatus::Active, "bash"),
        entry(150, 1, EntryStatus::Idle, "bash"),
        entry(200, 1, EntryStatus::Active, "vim"),
    ]);
    storage.write_entries().unwrap();

    // Entries exactly on a boundary are dropped by design.
    let read = storage.read_entries(100, 200).unwrap();
    assert_eq!(read.all_entries().len(), 1);
    assert_eq!(read.all_entries()[0].utc_time_seconds, 150);
    assert_eq!(read.start_datetime(), 100);
    assert_eq!(read.end_datetime(), 200);
}

#[test]
fn test_write_rejects_uninitialized_sample() {
    let mut storage = Storage::new(1);
    storage.insert_entries(&vec![Entry::empty()]);
    let result = storage.write_entries();
    assert_eq!(result.unwrap_err(), StoreError::InvariantViolation);
}

#[test]
fn test_write_rejects_overflowing_durations() {
    let mut storage = Storage::new(1);
    storage.insert_entries(&vec![entry(u64::MAX, 1, EntryStatus::Active, "bash")]);
    let result = storage.write_entries();
    assert_eq!(result.unwrap_err(), StoreError::InvariantViolation);
}

#[test]
fn test_entries_builder_and_range_views() {
    let rows = vec![
        entry(100, 1, EntryStatus::Active, "bash"),
        entry(150, 1, EntryStatus::Active, "bash"),
        entry(300, 1, EntryStatus::Active, "bash"),
    ];
    let entries = Entries::builder()
        .start_datetime(50)
        .end_datetime(400)
        .entries(rows)
        .build();
    assert_eq!(entries.start_datetime(), 50);
    assert_eq!(entries.end_datetime(), 400);
    assert!(!entries.is_empty());

    // The trimmed sub-range keeps everything before the last entry
    // strictly inside the bounds.
    let slice = entries.datetime_range_entries(50, 200);
    assert_eq!(slice.len(), 1);
    assert_eq!(slice[0].utc_time_seconds, 100);
    assert!(!entries.is_datetime_range_empty(50, 200));
    assert!(entries.is_datetime_range_empty(500, 600));

    let empty = Entries::builder().build();
    assert!(empty.is_empty());
}

#[test]
fn test_status_codes_round_trip_and_reject_corrupt() {
    assert_eq!(EntryStatus::Uninitialized.to_code(), 0);
    assert_eq!(EntryStatus::Active.to_code(), 1);
    assert_eq!(EntryStatus::Idle.to_code(), 2);
    for status in [EntryStatus::Uninitialized, EntryStatus::Active, EntryStatus::Idle] {
        assert_eq!(EntryStatus::from_code(status.to_code()), Some(status));
    }
    // An unknown persisted code marks the row corrupt instead of
    // silently defaulting.
    assert_eq!(EntryStatus::from_code(3), None);
    assert_eq!(EntryStatus::from_code(-1), None);
}
