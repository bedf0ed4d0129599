//! Plain-value settings for the recorder and the report printers,
//! their validation, and the built-in report presets with the rules
//! that merge user presets over defaults.
use vstd::prelude::*;

use crate::format::DateTimeFormat;
use crate::format::DurationFormat;
use crate::format::PrintType;
use crate::format::TimeBlockUnit;
use crate::format::TimeScale;
use crate::storage::ENVIRONMENT_VARIABLE_NAMES_MAX_COUNT;

verus! {

/// How often the recorder samples what the user is doing, in seconds.
pub const RECORD_INTERVAL_SECONDS: u64 = 1;

/// How long the user must be idle, in seconds, before a sample is
/// recorded as idle.
pub const USER_IS_IDLE_LIMIT_SECONDS: u64 = 30;

/// The names of the environment variables the recorder tracks.
#[derive(Debug)]
pub struct EnvVarSettings {
    pub names: Vec<String>,
}

/// The core settings every tool shares: where the store lives and
/// which environment variables are tracked.
#[derive(Debug)]
pub struct CoreSettings {
    pub database_dir: String,
    pub database_file_name: String,
    pub environment_variables: EnvVarSettings,
}

/// Why a settings value was rejected.
#[derive(Debug, Copy, Clone, PartialEq, Eq, Structural)]
pub enum SettingsError {
    /// More environment variable names were configured than entries
    /// can hold.
    TooManyEnvironmentVariables,
}

/// Accepts the core settings exactly when the configured environment
/// variable names fit in an entry's variable record.
pub fn validate_core_settings(settings: &CoreSettings) -> (r: Result<(), SettingsError>)
    ensures
        r is Ok <==> settings.environment_variables.names@.len()
            <= ENVIRONMENT_VARIABLE_NAMES_MAX_COUNT,
        r is Err ==> r->Err_0 == SettingsError::TooManyEnvironmentVariables,
{
    if settings.environment_variables.names.len() > ENVIRONMENT_VARIABLE_NAMES_MAX_COUNT {
        Err(SettingsError::TooManyEnvironmentVariables)
    } else {
        Ok(())
    }
}

/// The mathematical value of one report preset.
pub ghost struct PresetView {
    pub print_type: Option<PrintType>,
    pub time_scale: Option<TimeScale>,
    pub format_datetime: Option<DateTimeFormat>,
    pub format_duration: Option<DurationFormat>,
    pub time_block_unit: Option<TimeBlockUnit>,
    pub bar_graph_character_num_width: Option<u8>,
    pub use_color: Option<bool>,
    pub variable_names: Option<Seq<Seq<char>>>,
}

/// One report preset: each field optional, unset fields filled from
/// the core defaults when the preset is resolved.
#[derive(Debug)]
pub struct PrintPresetSettings {
    pub print_type: Option<PrintType>,
    pub time_scale: Option<TimeScale>,
    pub format_datetime: Option<DateTimeFormat>,
    pub format_duration: Option<DurationFormat>,
    pub time_block_unit: Option<TimeBlockUnit>,
    pub bar_graph_character_num_width: Option<u8>,
    pub use_color: Option<bool>,
    pub variable_names: Option<Vec<String>>,
}

impl View for PrintPresetSettings {
    type V = PresetView;

    open spec fn view(&self) -> PresetView {
        PresetView {
            print_type: self.print_type,
            time_scale: self.time_scale,
            format_datetime: self.format_datetime,
            format_duration: self.format_duration,
            time_block_unit: self.time_block_unit,
            bar_graph_character_num_width: self.bar_graph_character_num_width,
            use_color: self.use_color,
            variable_names: self.variable_names.deep_view(),
        }
    }
}

impl PrintPresetSettings {
    /// Builds a preset from its fields.
    pub fn new(
        print_type: Option<PrintType>,
        time_scale: Option<TimeScale>,
        format_datetime: Option<DateTimeFormat>,
        format_duration: Option<DurationFormat>,
        time_block_unit: Option<TimeBlockUnit>,
        bar_graph_character_num_width: Option<u8>,
        use_color: Option<bool>,
        variable_names: Option<Vec<String>>,
    ) -> (r: PrintPresetSettings)
        ensures
            r@ == (PresetView {
                print_type,
                time_scale,
                format_datetime,
                format_duration,
                time_block_unit,
                bar_graph_character_num_width,
                use_color,
                variable_names: variable_names.deep_view(),
            }),
    {
        PrintPresetSettings {
            print_type,
            time_scale,
            format_datetime,
            format_duration,
            time_block_unit,
            bar_graph_character_num_width,
            use_color,
            variable_names,
        }
    }
}

/// Clones an optional list of names, keeping its contents.
fn clone_opt_names(a: &Option<Vec<String>>) -> (r: Option<Vec<String>>)
    ensures
        r.deep_view() == a.deep_view(),
{
    match a {
        None => None,
        Some(v) => {
            let mut out: Vec<String> = Vec::new();
            let mut i: usize = 0;
            proof {
                assert(out.deep_view() =~= v.deep_view().take(0));
            }
            while i < v.len()
                invariant
                    0 <= i <= v@.len(),
                    v.deep_view().len() == v@.len(),
                    forall|k: int|
                        0 <= k < v@.len() ==> #[trigger] v.deep_view()[k] == v@[k]@,
                    out.deep_view() == v.deep_view().take(i as int),
                decreases v@.len() - i,
            {
                let ghost before = out.deep_view();
                out.push(v[i].clone());
                proof {
                    assert(out.deep_view() =~= before.push(v.deep_view()[i as int]));
                    assert(v.deep_view().take(i + 1) =~= v.deep_view().take(i as int).push(
                        v.deep_view()[i as int],
                    ));
                }
                i = i + 1;
            }
            proof {
                assert(v.deep_view().take(v@.len() as int) =~= v.deep_view());
            }
            Some(out)
        },
    }
}

impl Clone for PrintPresetSettings {
    /// Clones the preset, keeping every field.
    fn clone(&self) -> (r: PrintPresetSettings)
        ensures
            r@ == self@,
    {
        PrintPresetSettings {
            print_type: self.print_type,
            time_scale: self.time_scale,
            format_datetime: self.format_datetime,
            format_duration: self.format_duration,
            time_block_unit: self.time_block_unit,
            bar_graph_character_num_width: self.bar_graph_character_num_width,
            use_color: self.use_color,
            variable_names: clone_opt_names(&self.variable_names),
        }
    }
}

/// The print settings after configuration loading: the defaults each
/// preset falls back to, and the presets by name, in a fixed order.
#[derive(Debug)]
pub struct PrintSettings {
    pub time_scale: TimeScale,
    pub format_datetime: DateTimeFormat,
    pub format_duration: DurationFormat,
    pub time_block_unit: TimeBlockUnit,
    pub bar_graph_character_num_width: u8,
    pub use_color: bool,
    pub display_presets: Vec<String>,
    pub presets: Vec<(String, PrintPresetSettings)>,
}

/// The names under which the configure tool stores its own files.
#[derive(Debug)]
pub struct ConfigureSettings {
    pub config_dir: String,
    pub config_file_name: String,
}

/// The preset names shown by default, in display order.
pub open spec fn default_preset_names_spec() -> Seq<Seq<char>> {
    seq!["summary_week"@, "summary_weekdays"@, "working_directory_week"@, "software_week"@]
}

/// The preset names shown by default.
pub fn new_default_preset_names() -> (r: Vec<String>)
    ensures
        r.deep_view() == default_preset_names_spec(),
{
    let mut out: Vec<String> = Vec::new();
    let mut s = String::new();
    s.append("summary_week");
    out.push(s);
    let mut s = String::new();
    s.append("summary_weekdays");
    out.push(s);
    let mut s = String::new();
    s.append("working_directory_week");
    out.push(s);
    let mut s = String::new();
    s.append("software_week");
    out.push(s);
    proof {
        assert(out.deep_view() =~= default_preset_names_spec());
    }
    out
}

/// A preset that only fixes the report kind and time scale.
pub open spec fn kind_scale_preset(pt: PrintType, ts: TimeScale) -> PresetView {
    PresetView {
        print_type: Some(pt),
        time_scale: Some(ts),
        format_datetime: None,
        format_duration: None,
        time_block_unit: None,
        bar_graph_character_num_width: None,
        use_color: None,
        variable_names: None,
    }
}

/// A preset that fixes the report kind, the time scale and the
/// variable names to group by.
pub open spec fn kind_scale_vars_preset(
    pt: PrintType,
    ts: TimeScale,
    names: Seq<Seq<char>>,
) -> PresetView {
    PresetView { variable_names: Some(names), ..kind_scale_preset(pt, ts) }
}

/// The built-in presets, by name: week and weekday variants of the
/// summary, activity, working-directory and software reports.
pub open spec fn default_presets_spec() -> Seq<(Seq<char>, PresetView)> {
    seq![
        ("summary_week"@, kind_scale_preset(PrintType::Summary, TimeScale::Week)),
        ("summary_weekdays"@, kind_scale_preset(PrintType::Summary, TimeScale::Weekday)),
        ("activity_week"@, kind_scale_preset(PrintType::Activity, TimeScale::Week)),
        ("activity_weekdays"@, kind_scale_preset(PrintType::Activity, TimeScale::Weekday)),
        (
            "working_directory_week"@,
            kind_scale_vars_preset(PrintType::Variables, TimeScale::Week, seq!["PWD"@]),
        ),
        (
            "working_directory_weekdays"@,
            kind_scale_vars_preset(PrintType::Variables, TimeScale::Weekday, seq!["PWD"@]),
        ),
        ("software_week"@, kind_scale_preset(PrintType::Software, TimeScale::Week)),
        ("software_weekdays"@, kind_scale_preset(PrintType::Software, TimeScale::Weekday)),
    ]
}

/// The views of a preset list.
pub open spec fn preset_list_views(s: Seq<(String, PrintPresetSettings)>) -> Seq<
    (Seq<char>, PresetView),
> {
    s.map_values(|p: (String, PrintPresetSettings)| (p.0@, p.1@))
}

/// One named kind-and-scale preset.
fn named_kind_scale_preset(name: &str, pt: PrintType, ts: TimeScale) -> (r: (
    String,
    PrintPresetSettings,
))
    ensures
        (r.0@, r.1@) == (name@, kind_scale_preset(pt, ts)),
{
    let mut s = String::new();
    s.append(name);
    (s, PrintPresetSettings::new(Some(pt), Some(ts), None, None, None, None, None, None))
}

/// The built-in presets, always available unless overridden by name.
pub fn new_default_presets() -> (r: Vec<(String, PrintPresetSettings)>)
    ensures
        preset_list_views(r@) == default_presets_spec(),
{
    let mut out: Vec<(String, PrintPresetSettings)> = Vec::new();
    out.push(named_kind_scale_preset("summary_week", PrintType::Summary, TimeScale::Week));
    out.push(named_kind_scale_preset("summary_weekdays", PrintType::Summary, TimeScale::Weekday));
    out.push(named_kind_scale_preset("activity_week", PrintType::Activity, TimeScale::Week));
    out.push(named_kind_scale_preset("activity_weekdays", PrintType::Activity, TimeScale::Weekday));

    let mut pwd_names: Vec<String> = Vec::new();
    let mut pwd = String::new();
    pwd.append("PWD");
    pwd_names.push(pwd);
    proof {
        assert(pwd_names.deep_view() =~= seq!["PWD"@]);
    }
    let mut name = String::new();
    name.append("working_directory_week");
    out.push(
        (
            name,
            PrintPresetSettings::new(
                Some(PrintType::Variables),
                Some(TimeScale::Week),
                None,
                None,
                None,
                None,
                None,
                Some(pwd_names),
            ),
        ),
    );

    let mut pwd_names: Vec<String> = Vec::new();
    let mut pwd = String::new();
    pwd.append("PWD");
    pwd_names.push(pwd);
    proof {
        assert(pwd_names.deep_view() =~= seq!["PWD"@]);
    }
    let mut name = String::new();
    name.append("working_directory_weekdays");
    out.push(
        (
            name,
            PrintPresetSettings::new(
                Some(PrintType::Variables),
                Some(TimeScale::Weekday),
                None,
                None,
                None,
                None,
                None,
                Some(pwd_names),
            ),
        ),
    );

    out.push(named_kind_scale_preset("software_week", PrintType::Software, TimeScale::Week));
    out.push(named_kind_scale_preset("software_weekdays", PrintType::Software, TimeScale::Weekday));
    proof {
        assert(preset_list_views(out@) =~= default_presets_spec());
    }
    out
}

/// Keeps the new value where it is set, the old one otherwise.
pub fn override_preset_value<T>(new_value: Option<T>, old_value: Option<T>) -> (r: Option<T>)
    ensures
        r == if new_value is Some {
            new_value
        } else {
            old_value
        },
{
    match new_value {
        Some(value) => Some(value),
        None => old_value,
    }
}


/// The first preset stored under `name`, if any.
pub open spec fn preset_lookup(
    presets: Seq<(Seq<char>, PresetView)>,
    name: Seq<char>,
) -> Option<PresetView>
    decreases presets.len(),
{
    if presets.len() == 0 {
        None
    } else if presets[0].0 == name {
        Some(presets[0].1)
    } else {
        preset_lookup(presets.skip(1), name)
    }
}

/// `preset_lookup` finds the first entry under the name, or nothing
/// when no entry carries it.
pub proof fn lemma_preset_lookup(presets: Seq<(Seq<char>, PresetView)>, name: Seq<char>, i: int)
    requires
        0 <= i <= presets.len(),
        forall|k: int| 0 <= k < i ==> #[trigger] presets[k].0 != name,
        i < presets.len() ==> presets[i].0 == name,
    ensures
        preset_lookup(presets, name) == if i < presets.len() {
            Some(presets[i].1)
        } else {
            None::<PresetView>
        },
    decreases i,
{
    if i == 0 {
    } else {
        assert(presets[0].0 != name);
        assert forall|k: int| 0 <= k < i - 1 implies #[trigger] presets.skip(1)[k].0 != name by {
            assert(presets.skip(1)[k] == presets[k + 1]);
        }
        assert(i - 1 < presets.skip(1).len() ==> presets.skip(1)[i - 1].0 == name);
        lemma_preset_lookup(presets.skip(1), name, i - 1);
    }
}

/// An option with the set value kept, the fallback taken otherwise.
pub open spec fn override_spec<T>(new_value: Option<T>, old_value: Option<T>) -> Option<T> {
    if new_value is Some {
        new_value
    } else {
        old_value
    }
}

/// A user preset resolved over the core defaults: each unset field
/// falls back to the core value, and the variable names are always
/// the configured environment variable names.
pub open spec fn merged_preset(p: PresetView, core: PresetView, env: Seq<Seq<char>>) -> PresetView {
    PresetView {
        print_type: override_spec(p.print_type, core.print_type),
        time_scale: override_spec(p.time_scale, core.time_scale),
        format_datetime: override_spec(p.format_datetime, core.format_datetime),
        format_duration: override_spec(p.format_duration, core.format_duration),
        time_block_unit: override_spec(p.time_block_unit, core.time_block_unit),
        bar_graph_character_num_width: override_spec(
            p.bar_graph_character_num_width,
            core.bar_graph_character_num_width,
        ),
        use_color: override_spec(p.use_color, core.use_color),
        variable_names: Some(env),
    }
}

/// The presets the display list resolves to, in its order: the named
/// preset merged over the core defaults, or the core defaults alone
/// for an unknown name.
pub open spec fn resolve_presets(
    names: Seq<Seq<char>>,
    presets: Seq<(Seq<char>, PresetView)>,
    core: PresetView,
    env: Seq<Seq<char>>,
) -> Seq<PresetView>
    decreases names.len(),
{
    if names.len() == 0 {
        Seq::empty()
    } else {
        resolve_presets(names.drop_last(), presets, core, env).push(
            match preset_lookup(presets, names.last()) {
                Some(p) => merged_preset(p, core, env),
                None => core,
            },
        )
    }
}

/// The display names for which no preset exists, in display order.
pub open spec fn missing_preset_names(
    names: Seq<Seq<char>>,
    presets: Seq<(Seq<char>, PresetView)>,
) -> Seq<Seq<char>>
    decreases names.len(),
{
    if names.len() == 0 {
        Seq::empty()
    } else {
        let rest = missing_preset_names(names.drop_last(), presets);
        if preset_lookup(presets, names.last()) is Some {
            rest
        } else {
            rest.push(names.last())
        }
    }
}

/// Clones a list of names, keeping its contents.
fn clone_names(names: &[String]) -> (r: Vec<String>)
    ensures
        r.deep_view() == names@.map_values(|n: String| n@),
{
    let ghost target = names@.map_values(|n: String| n@);
    let mut out: Vec<String> = Vec::new();
    let mut i: usize = 0;
    proof {
        assert(out.deep_view() =~= target.take(0));
    }
    while i < names.len()
        invariant
            0 <= i <= names@.len(),
            target == names@.map_values(|n: String| n@),
            target.len() == names@.len(),
            forall|k: int| 0 <= k < target.len() ==> #[trigger] target[k] == names@[k]@,
            out.deep_view() == target.take(i as int),
        decreases names@.len() - i,
    {
        let ghost before = out.deep_view();
        out.push(names[i].clone());
        proof {
            assert(out.deep_view() =~= before.push(target[i as int]));
            assert(target.take(i + 1) =~= target.take(i as int).push(target[i as int]));
        }
        i = i + 1;
    }
    proof {
        assert(target.take(target.len() as int) =~= target);
    }
    out
}

/// The first index of the preset stored under `name`, or the count.
fn find_preset_index(presets: &Vec<(String, PrintPresetSettings)>, name: &String) -> (j: usize)
    ensures
        0 <= j <= presets@.len(),
        preset_lookup(preset_list_views(presets@), name@) == if j < presets@.len() {
            Some(preset_list_views(presets@)[j as int].1)
        } else {
            None::<PresetView>
        },
        j < presets@.len() ==> preset_list_views(presets@)[j as int].0 == name@,
{
    let ghost pv = preset_list_views(presets@);
    let mut j: usize = 0;
    while j < presets.len()
        invariant
            0 <= j <= presets@.len(),
            pv == preset_list_views(presets@),
            pv.len() == presets@.len(),
            forall|k: int| 0 <= k < pv.len() ==> #[trigger] pv[k] == (
            presets@[k].0@,
            presets@[k].1@,
            ),
            forall|k: int| 0 <= k < j ==> #[trigger] pv[k].0 != name@,
        decreases presets@.len() - j,
    {
        if presets[j].0 == *name {
            proof {
                lemma_preset_lookup(pv, name@, j as int);
            }
            return j;
        }
        j = j + 1;
    }
    proof {
        lemma_preset_lookup(pv, name@, j as int);
    }
    j
}

/// Resolves the display list against the stored presets: each name
/// yields its preset merged over the core defaults (unknown names
/// yield the core defaults alone and are reported back), where the
/// core defaults fix everything but the report kind, which only a
/// stored preset can set.
pub fn create_presets(
    default_time_scale: TimeScale,
    default_format_datetime: DateTimeFormat,
    default_format_duration: DurationFormat,
    default_time_block_unit: TimeBlockUnit,
    default_bar_graph_character_num_width: u8,
    environment_variables_names: &[String],
    display_presets: &Vec<String>,
    print_presets: &Vec<(String, PrintPresetSettings)>,
) -> (r: Result<(Vec<PrintPresetSettings>, Vec<String>), SettingsError>)
    ensures
        r is Ok,
        ({
            let env = environment_variables_names@.map_values(|n: String| n@);
            let core = PresetView {
                print_type: None,
                time_scale: Some(default_time_scale),
                format_datetime: Some(default_format_datetime),
                format_duration: Some(default_format_duration),
                time_block_unit: Some(default_time_block_unit),
                bar_graph_character_num_width: Some(default_bar_graph_character_num_width),
                use_color: None,
                variable_names: Some(env),
            };
            let names = display_presets.deep_view();
            let stored = preset_list_views(print_presets@);
            &&& r->Ok_0.0@.map_values(|p: PrintPresetSettings| p@) == resolve_presets(
                names,
                stored,
                core,
                env,
            )
            &&& r->Ok_0.1.deep_view() == missing_preset_names(names, stored)
        }),
{
    let ghost env = environment_variables_names@.map_values(|n: String| n@);
    let core_preset = PrintPresetSettings::new(
        None,
        Some(default_time_scale),
        Some(default_format_datetime),
        Some(default_format_duration),
        Some(default_time_block_unit),
        Some(default_bar_graph_character_num_width),
        None,
        Some(clone_names(environment_variables_names)),
    );
    let ghost core = core_preset@;
    let ghost names = display_presets.deep_view();
    let ghost stored = preset_list_views(print_presets@);

    let mut missing: Vec<String> = Vec::new();
    let mut presets: Vec<PrintPresetSettings> = Vec::new();
    let mut i: usize = 0;
    proof {
        assert(presets@.map_values(|p: PrintPresetSettings| p@) =~= resolve_presets(
            names.take(0),
            stored,
            core,
            env,
        ));
        assert(missing.deep_view() =~= missing_preset_names(names.take(0), stored));
    }
    while i < display_presets.len()
        invariant
            0 <= i <= display_presets@.len(),
            env == environment_variables_names@.map_values(|n: String| n@),
            core == (PresetView {
                print_type: None,
                time_scale: Some(default_time_scale),
                format_datetime: Some(default_format_datetime),
                format_duration: Some(default_format_duration),
                time_block_unit: Some(default_time_block_unit),
                bar_graph_character_num_width: Some(default_bar_graph_character_num_width),
                use_color: None,
                variable_names: Some(env),
            }),
            core_preset@ == core,
            names == display_presets.deep_view(),
            names.len() == display_presets@.len(),
            forall|k: int| 0 <= k < names.len() ==> #[trigger] names[k] == display_presets@[k]@,
            stored == preset_list_views(print_presets@),
            presets@.map_values(|p: PrintPresetSettings| p@) == resolve_presets(
                names.take(i as int),
                stored,
                core,
                env,
            ),
            missing.deep_view() == missing_preset_names(names.take(i as int), stored),
        decreases display_presets@.len() - i,
    {
        proof {
            assert(names.take(i + 1).drop_last() =~= names.take(i as int));
            assert(names.take(i + 1).last() == names[i as int]);
        }
        let preset_name = &display_presets[i];
        let j = find_preset_index(print_presets, preset_name);
        let ghost presets_before = presets@.map_values(|p: PrintPresetSettings| p@);
        let ghost missing_before = missing.deep_view();
        if j < print_presets.len() {
            let value = &print_presets[j].1;
            let merged = PrintPresetSettings::new(
                override_preset_value(value.print_type, core_preset.print_type),
                override_preset_value(value.time_scale, core_preset.time_scale),
                override_preset_value(value.format_datetime, core_preset.format_datetime),
                override_preset_value(value.format_duration, core_preset.format_duration),
                override_preset_value(value.time_block_unit, core_preset.time_block_unit),
                override_preset_value(
                    value.bar_graph_character_num_width,
                    core_preset.bar_graph_character_num_width,
                ),
                override_preset_value(value.use_color, core_preset.use_color),
                Some(clone_names(environment_variables_names)),
            );
            proof {
                assert(stored[j as int].1 == print_presets@[j as int].1@);
                assert(merged@ == merged_preset(stored[j as int].1, core, env));
            }
            presets.push(merged);
            proof {
                assert(presets@.map_values(|p: PrintPresetSettings| p@) =~= presets_before.push(
                    merged_preset(stored[j as int].1, core, env),
                ));
            }
        } else {
            presets.push(core_preset.clone());
            proof {
                assert(presets@.map_values(|p: PrintPresetSettings| p@) =~= presets_before.push(
                    core,
                ));
            }
            missing.push(preset_name.clone());
            proof {
                assert(missing.deep_view() =~= missing_before.push(names[i as int]));
            }
        }
        i = i + 1;
    }
    proof {
        assert(names.take(names.len() as int) =~= names);
    }
    Ok((presets, missing))
}



/// Which mode the report tool runs in: printing reports, or listing
/// the available presets.
#[derive(Debug, Copy, Clone, PartialEq, Eq, Structural)]
pub enum CommandMode {
    Print,
    List,
}

impl CommandMode {
    /// The name under which this mode is selected.
    pub open spec fn name_spec(self) -> Seq<char> {
        match self {
            CommandMode::Print => "print"@,
            CommandMode::List => "list"@,
        }
    }

    /// This mode's selection name.
    pub fn name(&self) -> (r: String)
        ensures
            r@ == self.name_spec(),
    {
        let mut s = String::new();
        match self {
            CommandMode::Print => s.append("print"),
            CommandMode::List => s.append("list"),
        }
        s
    }
}

/// What the recorder tool is asked to do: start recording (possibly
/// terminating an already-running recorder first), or stop the one
/// that runs.
#[derive(Debug, Copy, Clone, PartialEq, Eq, Structural)]
pub enum CommandModes {
    Start { terminate_existing_processes: bool },
    Stop,
}


} // verus!
