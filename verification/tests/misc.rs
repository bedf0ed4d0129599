use timetracker::dump::convert_to_csv_string_value;
use timetracker::dump::generate_csv_formated_lines;
use timetracker::entries::Entry;
use timetracker::entries::EntryStatus;
use timetracker::entries::EntryVariablesList;
use timetracker::format::DateTimeFormat;
use timetracker::format::DurationFormat;
use timetracker::format::PrintType;
use timetracker::format::TimeBlockUnit;
use timetracker::format::TimeScale;
use timetracker::paths::get_database_file_path;
use timetracker::paths::join_file_path;
use timetracker::print::combine_start_end_lines;
use timetracker::print::combine_start_mid_end_lines;
use timetracker::print::get_longest_string;
use timetracker::recorder::next_retry_wait_millis;
use timetracker::recorder::parse_loginuid_file_contents;
use timetracker::recorder::should_abort_write_attempts;
use timetracker::recorder::write_retry_budget_seconds;
use timetracker::recorder::ProcFileError;
use timetracker::settings::create_presets;
use timetracker::settings::new_default_preset_names;
use timetracker::settings::new_default_presets;
use timetracker::settings::override_preset_value;
use timetracker::settings::validate_core_settings;
use timetracker::settings::CommandMode;
use timetracker::settings::CoreSettings;
use timetracker::settings::EnvVarSettings;
use timetracker::settings::SettingsError;
use timetracker::storage::Entries;
use timetracker::format_short_executable_name;
use timetracker::strip_executable_name;
use timetracker::variable::combine_variable_names;
use timetracker::variable::combine_variable_values;
use timetracker::variable::multi_variable_values;
use timetracker::variable::option_string_to_string;
use timetracker::variable::Variable;

#[test]
fn test_strip_executable_name_cuts_arguments() {
    assert_eq!(
        strip_executable_name("/path/to/exe/exe_file --flag /path/to/file_path.jpg"),
        "/path/to/exe/exe_file"
    );
    assert_eq!(strip_executable_name("bash"), "bash");
    assert_eq!(strip_executable_name(""), "");
}

#[test]
fn test_format_short_executable_name_cuts_directories() {
    assert_eq!(
        format_short_executable_name("/path/to/exe/exe_file --flag /path/to/file_path.jpg"),
        "exe_file"
    );
    assert_eq!(format_short_executable_name("vim"), "vim");
    assert_eq!(format_short_executable_name("/usr/bin/vim"), "vim");
}

#[test]
fn test_join_file_path_rules() {
    assert_eq!(join_file_path("/home/user", ".timetracker.sqlite3"), "/home/user/.timetracker.sqlite3");
    assert_eq!(join_file_path("/home/user/", "data.sqlite3"), "/home/user/data.sqlite3");
    assert_eq!(join_file_path("", "data.sqlite3"), "data.sqlite3");
    assert_eq!(join_file_path("/home", "/absolute/override"), "/absolute/override");
}

#[test]
fn test_get_database_file_path_plain_directory() {
    let dir = "/tmp".to_string();
    let file_name = "tracker.sqlite3".to_string();
    assert_eq!(get_database_file_path(&dir, &file_name), Some("/tmp/tracker.sqlite3".to_string()));
}

#[test]
fn test_validate_core_settings_limits_variable_names() {
    let ok = CoreSettings {
        database_dir: "/tmp".to_string(),
        database_file_name: "db".to_string(),
        environment_variables: EnvVarSettings { names: vec!["PWD".to_string()] },
    };
    assert!(validate_core_settings(&ok).is_ok());

    let too_many = CoreSettings {
        database_dir: "/tmp".to_string(),
        database_file_name: "db".to_string(),
        environment_variables: EnvVarSettings {
            names: vec![
                "A".to_string(),
                "B".to_string(),
                "C".to_string(),
                "D".to_string(),
                "E".to_string(),
                "F".to_string(),
            ],
        },
    };
    assert_eq!(
        validate_core_settings(&too_many).unwrap_err(),
        SettingsError::TooManyEnvironmentVariables
    );
}

#[test]
fn test_parse_loginuid_contents() {
    assert_eq!(parse_loginuid_file_contents(&"1000".to_string()), Ok(1000));
    assert_eq!(parse_loginuid_file_contents(&" 42 \n".to_string()), Ok(42));
    assert_eq!(parse_loginuid_file_contents(&"1000\u{0}rest".to_string()), Ok(1000));
    assert_eq!(
        parse_loginuid_file_contents(&"".to_string()),
        Err(ProcFileError::InvalidUserId)
    );
    assert_eq!(
        parse_loginuid_file_contents(&"abc".to_string()),
        Err(ProcFileError::InvalidUserId)
    );
    assert_eq!(
        parse_loginuid_file_contents(&"99999999999999".to_string()),
        Err(ProcFileError::InvalidUserId)
    );
}

#[test]
fn test_write_retry_policy() {
    assert_eq!(write_retry_budget_seconds(1, 10), 8);
    assert!(!should_abort_write_attempts(1, 10, 3, 8));
    assert!(should_abort_write_attempts(10, 10, 3, 8));
    assert!(should_abort_write_attempts(1, 10, 9, 8));
    assert_eq!(next_retry_wait_millis(1), 3);
    assert_eq!(next_retry_wait_millis(9), 27);
}

#[test]
fn test_default_presets_and_names() {
    let names = new_default_preset_names();
    assert_eq!(
        names,
        vec![
            "summary_week".to_string(),
            "summary_weekdays".to_string(),
            "working_directory_week".to_string(),
            "software_week".to_string(),
        ]
    );
    let presets = new_default_presets();
    assert_eq!(presets.len(), 8);
    assert_eq!(presets[0].0, "summary_week");
    assert_eq!(presets[0].1.print_type, Some(PrintType::Summary));
    assert_eq!(presets[0].1.time_scale, Some(TimeScale::Week));
    assert_eq!(presets[4].0, "working_directory_week");
    assert_eq!(presets[4].1.variable_names, Some(vec!["PWD".to_string()]));
}

#[test]
fn test_command_mode_names() {
    assert_eq!(CommandMode::Print.name(), "print");
    assert_eq!(CommandMode::List.name(), "list");
}

#[test]
fn test_override_preset_value() {
    assert_eq!(override_preset_value(Some(3u8), Some(7u8)), Some(3));
    assert_eq!(override_preset_value(None, Some(7u8)), Some(7));
    assert_eq!(override_preset_value::<u8>(None, None), None);
}

#[test]
fn test_create_presets_merges_and_reports_missing() {
    let stored = new_default_presets();
    let display = vec!["summary_week".to_string(), "no_such_preset".to_string()];
    let env_names = vec!["PWD".to_string()];
    let (resolved, missing) = create_presets(
        TimeScale::Weekday,
        DateTimeFormat::Iso,
        DurationFormat::HoursMinutes,
        TimeBlockUnit::SixtyMinutes,
        60,
        &env_names,
        &display,
        &stored,
    )
    .unwrap();
    assert_eq!(resolved.len(), 2);
    // The stored preset fixes the kind and scale; the defaults fill
    // the rest.
    assert_eq!(resolved[0].print_type, Some(PrintType::Summary));
    assert_eq!(resolved[0].time_scale, Some(TimeScale::Week));
    assert_eq!(resolved[0].format_datetime, Some(DateTimeFormat::Iso));
    assert_eq!(resolved[0].bar_graph_character_num_width, Some(60));
    assert_eq!(resolved[0].variable_names, Some(vec!["PWD".to_string()]));
    // The unknown name resolves to the defaults alone, which fix no
    // report kind, and is reported back.
    assert_eq!(resolved[1].print_type, None);
    assert_eq!(resolved[1].time_scale, Some(TimeScale::Weekday));
    assert_eq!(missing, vec!["no_such_preset".to_string()]);
}

#[test]
fn test_combine_variable_names_and_values() {
    let variables = vec![
        Variable::Executable,
        Variable::VariableName("PWD".to_string()),
        Variable::VariableName("".to_string()),
    ];
    assert_eq!(combine_variable_names(&variables), "Executable PWD ");

    let mut vars = EntryVariablesList::empty();
    vars.executable = Some("bash".to_string());
    vars.var1_name = Some("PWD".to_string());
    vars.var1_value = Some("/home".to_string());
    let entry = Entry::new(100, 1, EntryStatus::Active, vars);
    assert_eq!(combine_variable_values(&entry, &variables), "bash /home ");
    assert_eq!(
        multi_variable_values(&entry, &variables),
        vec!["bash".to_string(), "/home".to_string()]
    );
}

#[test]
fn test_variable_lookup_reaches_fifth_slot() {
    let mut vars = EntryVariablesList::empty();
    vars.var5_name = Some("SHOT".to_string());
    vars.var5_value = Some("sh010".to_string());
    let entry = Entry::new(100, 1, EntryStatus::Active, vars);
    let variables = vec![Variable::VariableName("SHOT".to_string())];
    assert_eq!(combine_variable_values(&entry, &variables), "sh010");
    assert_eq!(multi_variable_values(&entry, &variables), vec!["sh010".to_string()]);
}

#[test]
fn test_option_string_to_string() {
    assert_eq!(option_string_to_string(&Some("x".to_string())), "x");
    assert_eq!(option_string_to_string(&None), "");
    assert_eq!(convert_to_csv_string_value(&None), "");
    assert_eq!(convert_to_csv_string_value(&Some("v".to_string())), "v");
}

#[test]
fn test_generate_csv_formated_lines_exact() {
    let mut vars = EntryVariablesList::empty();
    vars.executable = Some("bash".to_string());
    vars.var1_name = Some("PWD".to_string());
    vars.var1_value = Some("/home".to_string());
    let rows = vec![Entry::new(123, 4, EntryStatus::Active, vars)];
    let entries = Entries::builder().start_datetime(0).end_datetime(1000).entries(rows).build();
    let mut lines = Vec::new();
    generate_csv_formated_lines(&entries, &mut lines).unwrap();
    assert_eq!(lines.len(), 1);
    assert_eq!(lines[0], "123,4,Active,bash,PWD,/home,,,,,,,,");
}

#[test]
fn test_combine_start_end_lines_alignment() {
    let mut lines = Vec::new();
    let starts = vec!["ab".to_string(), "a".to_string()];
    let ends = vec!["x".to_string(), "y".to_string()];
    combine_start_end_lines(&mut lines, &starts, &ends, " | ");
    assert_eq!(lines, vec!["ab | x".to_string(), "a  | y".to_string()]);
    assert_eq!(get_longest_string(&starts), 2);
}

#[test]
fn test_combine_start_mid_end_lines_alignment() {
    let mut lines = Vec::new();
    let starts = vec!["s".to_string(), "ss".to_string()];
    let m1 = vec!["aa".to_string(), "b".to_string()];
    let m2 = vec!["c".to_string(), "c".to_string()];
    let m3 = vec!["".to_string(), "".to_string()];
    let m4 = vec!["".to_string(), "".to_string()];
    let m5 = vec!["d".to_string(), "dd".to_string()];
    let ends = vec!["e1".to_string(), "e2".to_string()];
    combine_start_mid_end_lines(&mut lines, &starts, &m1, &m2, &m3, &m4, &m5, &ends, " ", " | ");
    assert_eq!(lines.len(), 2);
    assert_eq!(lines[0], "s  aa c   d  | e1");
    assert_eq!(lines[1], "ss b  c   dd | e2");
}
