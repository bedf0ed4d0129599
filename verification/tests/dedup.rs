use timetracker::entries::deduplicate_entries;
use timetracker::entries::Entry;
use timetracker::entries::EntryStatus;
use timetracker::entries::EntryVariablesList;
use timetracker::entries::RecordRowStatus;

fn tracked_vars() -> EntryVariablesList {
    let mut vars = EntryVariablesList::empty();
    vars.executable = Some("bash".to_string());
    vars.var1_name = Some("project".to_string());
    vars.var2_name = Some("sequence".to_string());
    vars.var3_name = Some("shot".to_string());
    vars.var1_value = Some("project_value".to_string());
    vars.var2_value = Some("sequence_value".to_string());
    vars.var3_value = Some("shot_value".to_string());
    vars
}

#[test]
fn test_deduplication_all_same_from_scratch() {
    let vars = tracked_vars();

    let mut entries_dedup = Vec::<Entry>::new();
    let mut entry_row_statuses = Vec::<RecordRowStatus>::new();

    let last_entry = Entry::empty();

    let mut entries = Vec::<Entry>::new();
    entries.push(Entry::new(123456789, 1, EntryStatus::Active, vars.clone()));
    entries.push(Entry::new(123456790, 1, EntryStatus::Active, vars.clone()));
    entries.push(Entry::new(123456791, 1, EntryStatus::Active, vars.clone()));

    let record_interval_seconds = 1;
    deduplicate_entries(
        &last_entry,
        &entries,
        record_interval_seconds,
        &mut entries_dedup,
        &mut entry_row_statuses,
    );

    assert_eq!(entries_dedup.len(), 1);
    assert_eq!(entries_dedup[0].duration_seconds, 3);
    assert_eq!(entry_row_statuses.len(), 1);
    assert_eq!(entry_row_statuses[0], RecordRowStatus::New);
}

#[test]
fn test_deduplication_all_same_with_existing() {
    let vars = tracked_vars();

    let mut entries_dedup = Vec::<Entry>::new();
    let mut entry_row_statuses = Vec::<RecordRowStatus>::new();

    let last_entry = Entry::new(123456788, 1, EntryStatus::Active, vars.clone());

    let mut entries = Vec::<Entry>::new();
    entries.push(Entry::new(123456789, 1, EntryStatus::Active, vars.clone()));
    entries.push(Entry::new(123456790, 1, EntryStatus::Active, vars.clone()));
    entries.push(Entry::new(123456791, 1, EntryStatus::Active, vars.clone()));

    let record_interval_seconds = 1;
    deduplicate_entries(
        &last_entry,
        &entries,
        record_interval_seconds,
        &mut entries_dedup,
        &mut entry_row_statuses,
    );

    assert_eq!(entries_dedup.len(), 1);
    assert_eq!(entry_row_statuses.len(), 1);
    assert_eq!(entries_dedup[0].duration_seconds, 4);
    assert_eq!(entry_row_statuses[0], RecordRowStatus::Existing);
}

fn tracked_vars_suffixed(suffix: &str) -> EntryVariablesList {
    let mut vars = EntryVariablesList::empty();
    vars.executable = Some("bash".to_string());
    vars.var1_name = Some(format!("project{}", suffix));
    vars.var2_name = Some(format!("sequence{}", suffix));
    vars.var3_name = Some(format!("shot{}", suffix));
    vars.var1_value = Some(format!("project_value{}", suffix));
    vars.var2_value = Some(format!("sequence_value{}", suffix));
    vars.var3_value = Some(format!("shot_value{}", suffix));
    vars
}

#[test]
fn test_deduplication_some_same_from_scratch() {
    let vars_a = tracked_vars_suffixed("_a");
    let vars_b = tracked_vars_suffixed("_b");

    let mut entries_dedup = Vec::<Entry>::new();
    let mut entry_row_statuses = Vec::<RecordRowStatus>::new();

    let last_entry = Entry::empty();

    let mut entries = Vec::<Entry>::new();
    entries.push(Entry::new(123456789, 1, EntryStatus::Active, vars_a.clone()));
    entries.push(Entry::new(123456790, 1, EntryStatus::Active, vars_b.clone()));
    entries.push(Entry::new(123456791, 1, EntryStatus::Active, vars_b.clone()));

    let record_interval_seconds = 1;
    deduplicate_entries(
        &last_entry,
        &entries,
        record_interval_seconds,
        &mut entries_dedup,
        &mut entry_row_statuses,
    );

    assert_eq!(entries_dedup.len(), 2);
    assert_eq!(entries_dedup[0].duration_seconds, 1);
    assert_eq!(entries_dedup[1].duration_seconds, 2);
    assert_eq!(entry_row_statuses.len(), 2);
    assert_eq!(entry_row_statuses[0], RecordRowStatus::New);
    assert_eq!(entry_row_statuses[1], RecordRowStatus::New);
}

#[test]
fn test_deduplication_some_same_with_existing() {
    let vars_a = tracked_vars_suffixed("_a");
    let vars_b = tracked_vars_suffixed("_b");

    let mut entries_dedup = Vec::<Entry>::new();
    let mut entry_row_statuses = Vec::<RecordRowStatus>::new();

    let last_entry = Entry::new(123456788, 1, EntryStatus::Active, vars_a.clone());

    let mut entries = Vec::<Entry>::new();
    entries.push(Entry::new(123456789, 1, EntryStatus::Active, vars_a.clone()));
    entries.push(Entry::new(123456790, 1, EntryStatus::Active, vars_b.clone()));
    entries.push(Entry::new(123456791, 1, EntryStatus::Active, vars_b.clone()));

    let record_interval_seconds = 1;
    deduplicate_entries(
        &last_entry,
        &entries,
        record_interval_seconds,
        &mut entries_dedup,
        &mut entry_row_statuses,
    );

    assert_eq!(entries_dedup.len(), 2);
    assert_eq!(entry_row_statuses.len(), 2);
    assert_eq!(entries_dedup[0].duration_seconds, 2);
    assert_eq!(entries_dedup[1].duration_seconds, 2);
    assert_eq!(entry_row_statuses[0], RecordRowStatus::Existing);
    assert_eq!(entry_row_statuses[1], RecordRowStatus::New);
}

#[test]
fn test_deduplication_all_same_with_existing_and_long_timestamp() {
    let vars = tracked_vars();

    let mut entries_dedup = Vec::<Entry>::new();
    let mut entry_row_statuses = Vec::<RecordRowStatus>::new();

    let last_entry = Entry::new(123456788, 1, EntryStatus::Active, vars.clone());

    let mut entries = Vec::<Entry>::new();
    entries.push(Entry::new(123456799, 1, EntryStatus::Active, vars.clone()));
    entries.push(Entry::new(123456800, 1, EntryStatus::Active, vars.clone()));
    entries.push(Entry::new(123456801, 1, EntryStatus::Active, vars.clone()));

    let record_interval_seconds = 1;
    deduplicate_entries(
        &last_entry,
        &entries,
        record_interval_seconds,
        &mut entries_dedup,
        &mut entry_row_statuses,
    );

    assert_eq!(entries_dedup.len(), 2);
    assert_eq!(entry_row_statuses.len(), 2);
    assert_eq!(entries_dedup[0].duration_seconds, 1);
    assert_eq!(entries_dedup[1].duration_seconds, 3);
    assert_eq!(entry_row_statuses[0], RecordRowStatus::Existing);
    assert_eq!(entry_row_statuses[1], RecordRowStatus::New);
}

#[test]
fn test_scenario_uninitialized_merges_to_one_new_row() {
    let vars = tracked_vars();
    let last_entry = Entry::empty();
    let entries = vec![
        Entry::new(100, 1, EntryStatus::Active, vars.clone()),
        Entry::new(101, 1, EntryStatus::Active, vars.clone()),
        Entry::new(102, 1, EntryStatus::Active, vars.clone()),
    ];
    let mut dedup = Vec::new();
    let mut statuses = Vec::new();
    deduplicate_entries(&last_entry, &entries, 1, &mut dedup, &mut statuses);
    assert_eq!(dedup.len(), 1);
    assert_eq!(dedup[0].duration_seconds, 3);
    assert_eq!(dedup[0].utc_time_seconds, 100);
    assert_eq!(statuses, vec![RecordRowStatus::New]);
}

#[test]
fn test_scenario_existing_row_extends_to_one_existing_row() {
    let vars = tracked_vars();
    let last_entry = Entry::new(99, 1, EntryStatus::Active, vars.clone());
    let entries = vec![
        Entry::new(100, 1, EntryStatus::Active, vars.clone()),
        Entry::new(101, 1, EntryStatus::Active, vars.clone()),
        Entry::new(102, 1, EntryStatus::Active, vars.clone()),
    ];
    let mut dedup = Vec::new();
    let mut statuses = Vec::new();
    deduplicate_entries(&last_entry, &entries, 1, &mut dedup, &mut statuses);
    assert_eq!(dedup.len(), 1);
    assert_eq!(dedup[0].duration_seconds, 4);
    assert_eq!(dedup[0].utc_time_seconds, 99);
    assert_eq!(statuses, vec![RecordRowStatus::Existing]);
}

#[test]
fn test_scenario_different_executables_stay_apart() {
    let mut vars_a = EntryVariablesList::empty();
    vars_a.executable = Some("bash".to_string());
    let mut vars_b = EntryVariablesList::empty();
    vars_b.executable = Some("vim".to_string());

    let last_entry = Entry::empty();
    let entries = vec![
        Entry::new(100, 1, EntryStatus::Active, vars_a),
        Entry::new(101, 1, EntryStatus::Active, vars_b),
    ];
    let mut dedup = Vec::new();
    let mut statuses = Vec::new();
    deduplicate_entries(&last_entry, &entries, 1, &mut dedup, &mut statuses);
    assert_eq!(dedup.len(), 2);
    assert_eq!(statuses, vec![RecordRowStatus::New, RecordRowStatus::New]);
}

#[test]
fn test_compacted_output_passes_through_unchanged() {
    // No two of these can merge: ends are far apart and the variable
    // records differ.
    let vars_a = tracked_vars_suffixed("_a");
    let vars_b = tracked_vars_suffixed("_b");
    let compacted = vec![
        Entry::new(100, 3, EntryStatus::Active, vars_a.clone()),
        Entry::new(110, 2, EntryStatus::Active, vars_b.clone()),
        Entry::new(120, 1, EntryStatus::Idle, vars_b.clone()),
    ];

    let mut dedup = Vec::new();
    let mut statuses = Vec::new();
    deduplicate_entries(&Entry::empty(), &compacted, 1, &mut dedup, &mut statuses);
    assert_eq!(dedup.len(), 3);
    for (i, e) in dedup.iter().enumerate() {
        assert_eq!(e.utc_time_seconds, compacted[i].utc_time_seconds);
        assert_eq!(e.duration_seconds, compacted[i].duration_seconds);
    }
    assert_eq!(
        statuses,
        vec![RecordRowStatus::New, RecordRowStatus::New, RecordRowStatus::New]
    );
}

#[test]
fn test_compaction_conserves_total_duration() {
    let vars_a = tracked_vars_suffixed("_a");
    let vars_b = tracked_vars_suffixed("_b");
    let last_entry = Entry::new(90, 5, EntryStatus::Active, vars_a.clone());
    let entries = vec![
        Entry::new(95, 1, EntryStatus::Active, vars_a.clone()),
        Entry::new(96, 2, EntryStatus::Idle, vars_a.clone()),
        Entry::new(99, 7, EntryStatus::Active, vars_b.clone()),
        Entry::new(106, 1, EntryStatus::Active, vars_b.clone()),
    ];
    let input_total: u64 =
        last_entry.duration_seconds + entries.iter().map(|e| e.duration_seconds).sum::<u64>();

    let mut dedup = Vec::new();
    let mut statuses = Vec::new();
    deduplicate_entries(&last_entry, &entries, 1, &mut dedup, &mut statuses);
    let output_total: u64 = dedup.iter().map(|e| e.duration_seconds).sum();
    assert_eq!(output_total, input_total);
    assert_eq!(statuses.len(), dedup.len());
}

#[test]
fn test_higher_tolerance_keeps_full_merge() {
    let vars = tracked_vars();
    let entries = vec![
        Entry::new(100, 1, EntryStatus::Active, vars.clone()),
        Entry::new(101, 1, EntryStatus::Active, vars.clone()),
        Entry::new(102, 1, EntryStatus::Active, vars.clone()),
    ];

    // Everything merges into a single run at tolerance 1; a higher
    // tolerance yields the same single run.
    for tolerance in [1u64, 2, 5, 60] {
        let mut dedup = Vec::new();
        let mut statuses = Vec::new();
        deduplicate_entries(&Entry::empty(), &entries, tolerance, &mut dedup, &mut statuses);
        assert_eq!(dedup.len(), 1);
        assert_eq!(dedup[0].duration_seconds, 3);
    }
}

#[test]
fn test_first_row_existing_iff_real_last_entry() {
    let vars = tracked_vars();
    let entries = vec![Entry::new(200, 1, EntryStatus::Active, vars.clone())];

    let mut dedup = Vec::new();
    let mut statuses = Vec::new();
    deduplicate_entries(&Entry::empty(), &entries, 1, &mut dedup, &mut statuses);
    assert_eq!(statuses[0], RecordRowStatus::New);

    // Even a prior entry that cannot merge with the first sample is
    // emitted first, tagged Existing.
    let far_last = Entry::new(50, 1, EntryStatus::Idle, vars.clone());
    let mut dedup = Vec::new();
    let mut statuses = Vec::new();
    deduplicate_entries(&far_last, &entries, 1, &mut dedup, &mut statuses);
    assert_eq!(dedup.len(), 2);
    assert_eq!(statuses[0], RecordRowStatus::Existing);
    assert_eq!(statuses[1], RecordRowStatus::New);
}
