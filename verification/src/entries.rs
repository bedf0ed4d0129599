//! The entry data model: one recorded interval of presence/context,
//! its variable record, and the compaction (deduplication) algorithm
//! that merges adjacent equal samples into runs.
use vstd::prelude::*;

verus! {

/// Whether a compacted row extends the open trailing row already in
/// storage (`Existing`, updated in place) or is new (`New`, inserted).
#[derive(Debug, Clone, PartialEq, Eq, Structural)]
pub enum RecordRowStatus {
    New,
    Existing,
}

/// The presence state of one recorded interval. `Uninitialized` is a
/// sentinel meaning "no prior entry exists"; it is never persisted.
#[derive(Debug, Copy, Clone, PartialEq, Eq, Structural)]
pub enum EntryStatus {
    Uninitialized,
    Active,
    Idle,
}

impl EntryStatus {
    /// The fixed integer code under which this status is persisted.
    pub open spec fn spec_code(self) -> i64 {
        match self {
            EntryStatus::Uninitialized => 0,
            EntryStatus::Active => 1,
            EntryStatus::Idle => 2,
        }
    }

    /// Maps a status to its persistent integer code.
    pub fn to_code(self) -> (r: i64)
        ensures
            r == self.spec_code(),
    {
        match self {
            EntryStatus::Uninitialized => 0,
            EntryStatus::Active => 1,
            EntryStatus::Idle => 2,
        }
    }

    /// This status's display name.
    pub open spec fn name_spec(self) -> Seq<char> {
        match self {
            EntryStatus::Uninitialized => "Uninitialized"@,
            EntryStatus::Active => "Active"@,
            EntryStatus::Idle => "Idle"@,
        }
    }

    /// This status's display name.
    pub fn name(&self) -> (r: String)
        ensures
            r@ == self.name_spec(),
    {
        let mut s = String::new();
        match self {
            EntryStatus::Uninitialized => s.append("Uninitialized"),
            EntryStatus::Active => s.append("Active"),
            EntryStatus::Idle => s.append("Idle"),
        }
        s
    }

    /// Decodes a persistent integer code; an unknown code yields `None`,
    /// so corrupt rows are rejected rather than silently defaulted.
    pub fn from_code(code: i64) -> (r: Option<EntryStatus>)
        ensures
            r is Some <==> (code == 0 || code == 1 || code == 2),
            r is Some ==> r->0.spec_code() == code,
    {
        if code == 0 {
            Some(EntryStatus::Uninitialized)
        } else if code == 1 {
            Some(EntryStatus::Active)
        } else if code == 2 {
            Some(EntryStatus::Idle)
        } else {
            None
        }
    }
}

/// The mathematical value of a variable record: each field as an
/// optional character sequence.
pub ghost struct VarsView {
    pub executable: Option<Seq<char>>,
    pub var1_name: Option<Seq<char>>,
    pub var2_name: Option<Seq<char>>,
    pub var3_name: Option<Seq<char>>,
    pub var4_name: Option<Seq<char>>,
    pub var5_name: Option<Seq<char>>,
    pub var1_value: Option<Seq<char>>,
    pub var2_value: Option<Seq<char>>,
    pub var3_value: Option<Seq<char>>,
    pub var4_value: Option<Seq<char>>,
    pub var5_value: Option<Seq<char>>,
}

/// Up to five named context variables plus an optional foreground
/// executable name; an absent field means "not tracked this tick".
#[derive(Debug)]
pub struct EntryVariablesList {
    pub executable: Option<String>,
    pub var1_name: Option<String>,
    pub var2_name: Option<String>,
    pub var3_name: Option<String>,
    pub var4_name: Option<String>,
    pub var5_name: Option<String>,
    pub var1_value: Option<String>,
    pub var2_value: Option<String>,
    pub var3_value: Option<String>,
    pub var4_value: Option<String>,
    pub var5_value: Option<String>,
}

impl View for EntryVariablesList {
    type V = VarsView;

    open spec fn view(&self) -> VarsView {
        VarsView {
            executable: self.executable.deep_view(),
            var1_name: self.var1_name.deep_view(),
            var2_name: self.var2_name.deep_view(),
            var3_name: self.var3_name.deep_view(),
            var4_name: self.var4_name.deep_view(),
            var5_name: self.var5_name.deep_view(),
            var1_value: self.var1_value.deep_view(),
            var2_value: self.var2_value.deep_view(),
            var3_value: self.var3_value.deep_view(),
            var4_value: self.var4_value.deep_view(),
            var5_value: self.var5_value.deep_view(),
        }
    }
}

/// Tests two optional strings for equality of their contents,
/// absence included.
pub fn opt_string_eq(a: &Option<String>, b: &Option<String>) -> (r: bool)
    ensures
        r == (a.deep_view() == b.deep_view()),
{
    match (a, b) {
        (None, None) => true,
        (Some(x), Some(y)) => *x == *y,
        _ => false,
    }
}

/// Clones an optional string, keeping its contents.
pub fn clone_opt_string(a: &Option<String>) -> (r: Option<String>)
    ensures
        r.deep_view() == a.deep_view(),
{
    match a {
        None => None,
        Some(s) => Some(s.clone()),
    }
}

impl PartialEq for EntryVariablesList {
    /// Field-wise equality, absent fields included.
    fn eq(&self, other: &EntryVariablesList) -> (r: bool) {
        opt_string_eq(&self.executable, &other.executable)
            && opt_string_eq(&self.var1_name, &other.var1_name)
            && opt_string_eq(&self.var2_name, &other.var2_name)
            && opt_string_eq(&self.var3_name, &other.var3_name)
            && opt_string_eq(&self.var4_name, &other.var4_name)
            && opt_string_eq(&self.var5_name, &other.var5_name)
            && opt_string_eq(&self.var1_value, &other.var1_value)
            && opt_string_eq(&self.var2_value, &other.var2_value)
            && opt_string_eq(&self.var3_value, &other.var3_value)
            && opt_string_eq(&self.var4_value, &other.var4_value)
            && opt_string_eq(&self.var5_value, &other.var5_value)
    }
}

impl vstd::std_specs::cmp::PartialEqSpecImpl for EntryVariablesList {
    open spec fn obeys_eq_spec() -> bool {
        true
    }

    open spec fn eq_spec(&self, other: &EntryVariablesList) -> bool {
        self@ == other@
    }
}

impl Eq for EntryVariablesList {

}

impl Clone for EntryVariablesList {
    /// Clones the record, keeping every field's contents.
    fn clone(&self) -> (r: EntryVariablesList)
        ensures
            r@ == self@,
    {
        EntryVariablesList {
            executable: clone_opt_string(&self.executable),
            var1_name: clone_opt_string(&self.var1_name),
            var2_name: clone_opt_string(&self.var2_name),
            var3_name: clone_opt_string(&self.var3_name),
            var4_name: clone_opt_string(&self.var4_name),
            var5_name: clone_opt_string(&self.var5_name),
            var1_value: clone_opt_string(&self.var1_value),
            var2_value: clone_opt_string(&self.var2_value),
            var3_value: clone_opt_string(&self.var3_value),
            var4_value: clone_opt_string(&self.var4_value),
            var5_value: clone_opt_string(&self.var5_value),
        }
    }
}

/// The first value paired with `name` in `env`, if any.
pub open spec fn env_lookup(env: Seq<(Seq<char>, Seq<char>)>, name: Seq<char>) -> Option<
    Seq<char>,
>
    decreases env.len(),
{
    if env.len() == 0 {
        None
    } else if env[0].0 == name {
        Some(env[0].1)
    } else {
        env_lookup(env.skip(1), name)
    }
}

/// What one variable's value becomes after a refresh from the
/// environment: the looked-up value when the variable is named and
/// present, absent otherwise.
pub open spec fn refreshed_value(
    name: Option<Seq<char>>,
    env: Seq<(Seq<char>, Seq<char>)>,
) -> Option<Seq<char>> {
    match name {
        Some(n) => env_lookup(env, n),
        None => None,
    }
}

/// Replaces `variable_value` with the value that `environ_vars` holds
/// under `variable_name`, or clears it when the name is absent or
/// unset.
pub fn set_variable_from_environ_vars(
    variable_name: &Option<String>,
    variable_value: &mut Option<String>,
    environ_vars: &Vec<(String, String)>,
)
    ensures
        final(variable_value).deep_view() == refreshed_value(
            variable_name.deep_view(),
            environ_vars.deep_view(),
        ),
{
    match variable_name {
        Some(name) => {
            let mut i: usize = 0;
            let ghost env = environ_vars.deep_view();
            proof {
                assert(env.skip(0) =~= env);
            }
            while i < environ_vars.len()
                invariant
                    0 <= i <= environ_vars.len(),
                    variable_name.deep_view() == Some(name@),
                    env == environ_vars.deep_view(),
                    env.len() == environ_vars.len(),
                    forall|j: int| 0 <= j < env.len() ==> #[trigger] env[j] == (
                    environ_vars@[j].0@,
                    environ_vars@[j].1@,
                    ),
                    env_lookup(env, name@) == env_lookup(env.skip(i as int), name@),
                decreases environ_vars.len() - i,
            {
                if environ_vars[i].0 == *name {
                    proof {
                        assert(env.skip(i as int)[0] == env[i as int]);
                        assert(env.skip(i as int)[0].0 == name@);
                        assert(env_lookup(env, name@) == Some(env[i as int].1));
                    }
                    *variable_value = Some(environ_vars[i].1.clone());
                    return ;
                }
                proof {
                    assert(env.skip(i as int).len() > 0);
                    assert(env.skip(i as int)[0] == env[i as int]);
                    assert(env.skip(i as int)[0].0 != name@);
                    assert(env_lookup(env.skip(i as int), name@) == env_lookup(
                        env.skip(i as int).skip(1),
                        name@,
                    ));
                    assert(env.skip(i as int).skip(1) =~= env.skip(i + 1));
                }
                i = i + 1;
            }
            proof {
                assert(env.skip(i as int).len() == 0);
                assert(env_lookup(env, name@) is None);
            }
            *variable_value = None;
        },
        None => {
            *variable_value = None;
        },
    }
}


impl EntryVariablesList {
    /// Builds a variable record from each field's value.
    pub fn new(
        executable: Option<String>,
        var1_name: Option<String>,
        var2_name: Option<String>,
        var3_name: Option<String>,
        var4_name: Option<String>,
        var5_name: Option<String>,
        var1_value: Option<String>,
        var2_value: Option<String>,
        var3_value: Option<String>,
        var4_value: Option<String>,
        var5_value: Option<String>,
    ) -> (r: EntryVariablesList)
        ensures
            r@.executable == executable.deep_view(),
            r@.var1_name == var1_name.deep_view(),
            r@.var2_name == var2_name.deep_view(),
            r@.var3_name == var3_name.deep_view(),
            r@.var4_name == var4_name.deep_view(),
            r@.var5_name == var5_name.deep_view(),
            r@.var1_value == var1_value.deep_view(),
            r@.var2_value == var2_value.deep_view(),
            r@.var3_value == var3_value.deep_view(),
            r@.var4_value == var4_value.deep_view(),
            r@.var5_value == var5_value.deep_view(),
    {
        EntryVariablesList {
            executable,
            var1_name,
            var2_name,
            var3_name,
            var4_name,
            var5_name,
            var1_value,
            var2_value,
            var3_value,
            var4_value,
            var5_value,
        }
    }

    /// The record with every field absent.
    pub fn empty() -> (r: EntryVariablesList)
        ensures
            r@ == empty_vars(),
    {
        EntryVariablesList {
            executable: None,
            var1_name: None,
            var2_name: None,
            var3_name: None,
            var4_name: None,
            var5_name: None,
            var1_value: None,
            var2_value: None,
            var3_value: None,
            var4_value: None,
            var5_value: None,
        }
    }

    /// Refreshes every variable value from `environ_vars`: each value
    /// becomes the environment's value under its variable's name, or
    /// absent where the name is absent or unset. Names and the
    /// executable are untouched.
    pub fn replace_with_environ_vars(&mut self, environ_vars: &Vec<(String, String)>)
        ensures
            final(self)@ == refreshed_vars(old(self)@, environ_vars.deep_view()),
    {
        set_variable_from_environ_vars(&self.var1_name, &mut self.var1_value, environ_vars);
        set_variable_from_environ_vars(&self.var2_name, &mut self.var2_value, environ_vars);
        set_variable_from_environ_vars(&self.var3_name, &mut self.var3_value, environ_vars);
        set_variable_from_environ_vars(&self.var4_name, &mut self.var4_value, environ_vars);
        set_variable_from_environ_vars(&self.var5_name, &mut self.var5_value, environ_vars);
    }
}

/// The view of the record with every field absent.
pub open spec fn empty_vars() -> VarsView {
    VarsView {
        executable: None,
        var1_name: None,
        var2_name: None,
        var3_name: None,
        var4_name: None,
        var5_name: None,
        var1_value: None,
        var2_value: None,
        var3_value: None,
        var4_value: None,
        var5_value: None,
    }
}

/// A variable record after a refresh from the environment: names kept,
/// each value re-read under its name.
pub open spec fn refreshed_vars(v: VarsView, env: Seq<(Seq<char>, Seq<char>)>) -> VarsView {
    VarsView {
        var1_value: refreshed_value(v.var1_name, env),
        var2_value: refreshed_value(v.var2_name, env),
        var3_value: refreshed_value(v.var3_name, env),
        var4_value: refreshed_value(v.var4_name, env),
        var5_value: refreshed_value(v.var5_name, env),
        ..v
    }
}

/// The mathematical value of one entry: timestamp and duration as
/// unbounded integers, with status and variable record.
pub ghost struct EntryView {
    pub utc_time_seconds: int,
    pub duration_seconds: int,
    pub status: EntryStatus,
    pub vars: VarsView,
}

/// One recorded interval: `duration_seconds` seconds of `status`
/// starting at `utc_time_seconds` (UTC), under a constant variable
/// record.
#[derive(Debug)]
pub struct Entry {
    pub utc_time_seconds: u64,
    pub duration_seconds: u64,
    pub status: EntryStatus,
    pub vars: EntryVariablesList,
}

impl View for Entry {
    type V = EntryView;

    open spec fn view(&self) -> EntryView {
        EntryView {
            utc_time_seconds: self.utc_time_seconds as int,
            duration_seconds: self.duration_seconds as int,
            status: self.status,
            vars: self.vars@,
        }
    }
}

impl Clone for Entry {
    /// Clones the entry, keeping every field.
    fn clone(&self) -> (r: Entry)
        ensures
            r@ == self@,
    {
        Entry {
            utc_time_seconds: self.utc_time_seconds,
            duration_seconds: self.duration_seconds,
            status: self.status,
            vars: self.vars.clone(),
        }
    }
}

impl Entry {
    /// Builds an entry from its fields.
    pub fn new(
        utc_time_seconds: u64,
        duration_seconds: u64,
        status: EntryStatus,
        vars: EntryVariablesList,
    ) -> (r: Entry)
        ensures
            r@.utc_time_seconds == utc_time_seconds,
            r@.duration_seconds == duration_seconds,
            r@.status == status,
            r@.vars == vars@,
    {
        Entry { utc_time_seconds, duration_seconds, status, vars }
    }

    /// The sentinel entry meaning "no prior entry exists": zero
    /// timestamp and duration, `Uninitialized` status, empty record.
    pub fn empty() -> (r: Entry)
        ensures
            r@.utc_time_seconds == 0,
            r@.duration_seconds == 0,
            r@.status == EntryStatus::Uninitialized,
            r@.vars == empty_vars(),
    {
        Entry {
            utc_time_seconds: 0u64,
            duration_seconds: 0u64,
            status: EntryStatus::Uninitialized,
            vars: EntryVariablesList::empty(),
        }
    }
}



/// The views of a sequence of entries.
pub open spec fn views_of(s: Seq<Entry>) -> Seq<EntryView> {
    s.map_values(|e: Entry| e@)
}

/// The instant one entry's run ends: its timestamp plus its duration.
pub open spec fn entry_end(e: EntryView) -> int {
    e.utc_time_seconds + e.duration_seconds
}

/// The absolute value of an integer.
pub open spec fn abs_int(a: int) -> int {
    if a >= 0 {
        a
    } else {
        -a
    }
}

/// Whether sample `e` may be merged into the open run `run`: the run
/// is real, their end instants differ by at most `tol` seconds (ties
/// favour merging), and status and variable record agree exactly.
pub open spec fn can_merge_spec(run: EntryView, e: EntryView, tol: int) -> bool {
    &&& run.status != EntryStatus::Uninitialized
    &&& abs_int(entry_end(run) - entry_end(e)) <= tol
    &&& run.status == e.status
    &&& run.vars == e.vars
}

/// The open run after absorbing a sample: only its duration grows.
pub open spec fn merge_into(run: EntryView, e: EntryView) -> EntryView {
    EntryView { duration_seconds: run.duration_seconds + e.duration_seconds, ..run }
}

/// One compaction step: the sample is merged into the trailing run
/// when permitted, and opens a new run otherwise.
pub open spec fn compact_step(acc: Seq<EntryView>, e: EntryView, tol: int) -> Seq<EntryView> {
    if acc.len() > 0 && can_merge_spec(acc.last(), e, tol) {
        acc.update(acc.len() - 1, merge_into(acc.last(), e))
    } else {
        acc.push(e)
    }
}

/// Compaction of a sample sequence, one step per sample, starting
/// from the already-emitted runs `acc`.
pub open spec fn compact_seq(acc: Seq<EntryView>, samples: Seq<EntryView>, tol: int) -> Seq<
    EntryView,
>
    decreases samples.len(),
{
    if samples.len() == 0 {
        acc
    } else {
        compact_seq(compact_step(acc, samples[0], tol), samples.skip(1), tol)
    }
}

/// The runs that compaction starts from: the prior entry when it is
/// real, nothing when it is the `Uninitialized` sentinel.
pub open spec fn dedup_init(last: EntryView) -> Seq<EntryView> {
    if last.status != EntryStatus::Uninitialized {
        seq![last]
    } else {
        Seq::empty()
    }
}

/// The compacted entries that `deduplicate_entries` emits for a prior
/// entry, a sample sequence, and a merge tolerance.
pub open spec fn dedup_model(last: EntryView, samples: Seq<EntryView>, tol: int) -> Seq<
    EntryView,
> {
    compact_seq(dedup_init(last), samples, tol)
}

/// The row statuses that accompany `n` compacted entries: the first
/// is `Existing` exactly when a real prior entry was supplied, every
/// other one is `New`.
pub open spec fn statuses_model(head_real: bool, n: int) -> Seq<RecordRowStatus> {
    Seq::new(n as nat, |k: int| if k == 0 && head_real {
        RecordRowStatus::Existing
    } else {
        RecordRowStatus::New
    })
}

/// The total duration of a sequence of entries.
pub open spec fn sum_durs(s: Seq<EntryView>) -> int
    decreases s.len(),
{
    if s.len() == 0 {
        0
    } else {
        s[0].duration_seconds + sum_durs(s.skip(1))
    }
}

/// Appending an entry adds its duration to the total.
pub proof fn lemma_sum_push(s: Seq<EntryView>, e: EntryView)
    ensures
        sum_durs(s.push(e)) == sum_durs(s) + e.duration_seconds,
    decreases s.len(),
{
    if s.len() == 0 {
        assert(s.push(e)[0] == e);
        assert(s.push(e).skip(1) =~= Seq::<EntryView>::empty());
        assert(sum_durs(s.push(e)) == e.duration_seconds + sum_durs(Seq::<EntryView>::empty()));
    } else {
        assert(s.push(e)[0] == s[0]);
        assert(s.push(e).skip(1) =~= s.skip(1).push(e));
        lemma_sum_push(s.skip(1), e);
        assert(sum_durs(s.push(e)) == s[0].duration_seconds + sum_durs(s.skip(1).push(e)));
    }
}

/// Replacing the last entry changes the total by the durations' difference.
pub proof fn lemma_sum_update_last(s: Seq<EntryView>, v: EntryView)
    requires
        s.len() > 0,
    ensures
        sum_durs(s.update(s.len() - 1, v)) == sum_durs(s) - s.last().duration_seconds
            + v.duration_seconds,
    decreases s.len(),
{
    if s.len() == 1 {
        assert(s.update(0, v)[0] == v);
        assert(s.update(0, v).skip(1) =~= Seq::<EntryView>::empty());
        assert(s.skip(1) =~= Seq::<EntryView>::empty());
        assert(sum_durs(s.update(0, v)) == v.duration_seconds + sum_durs(
            Seq::<EntryView>::empty(),
        ));
    } else {
        let t = s.update(s.len() - 1, v);
        assert(t[0] == s[0]);
        assert(t.skip(1) =~= s.skip(1).update(s.skip(1).len() - 1, v));
        lemma_sum_update_last(s.skip(1), v);
        assert(s.skip(1).last() == s.last());
        assert(sum_durs(t) == t[0].duration_seconds + sum_durs(t.skip(1)));
        assert(sum_durs(s) == s[0].duration_seconds + sum_durs(s.skip(1)));
    }
}

/// With no negative durations, the last entry's duration is at most the total.
pub proof fn lemma_last_le_sum(s: Seq<EntryView>)
    requires
        s.len() > 0,
        forall|k: int| 0 <= k < s.len() ==> #[trigger] s[k].duration_seconds >= 0,
    ensures
        s.last().duration_seconds <= sum_durs(s),
    decreases s.len(),
{
    if s.len() == 1 {
        assert(s.skip(1) =~= Seq::<EntryView>::empty());
        assert(sum_durs(s) == s[0].duration_seconds + sum_durs(Seq::<EntryView>::empty()));
    } else {
        assert(forall|k: int|
            0 <= k < s.skip(1).len() ==> #[trigger] s.skip(1)[k].duration_seconds
                == s[k + 1].duration_seconds);
        lemma_last_le_sum(s.skip(1));
        assert(s.skip(1).last() == s.last());
        assert(s[0].duration_seconds >= 0);
        assert(sum_durs(s) == s[0].duration_seconds + sum_durs(s.skip(1)));
    }
}

/// Processing one more sample is one more compaction step.
pub proof fn lemma_compact_seq_push(acc: Seq<EntryView>, s: Seq<EntryView>, e: EntryView, tol: int)
    ensures
        compact_seq(acc, s.push(e), tol) == compact_step(compact_seq(acc, s, tol), e, tol),
    decreases s.len(),
{
    if s.len() == 0 {
        assert(s.push(e)[0] == e);
        assert(s.push(e).skip(1) =~= Seq::<EntryView>::empty());
        assert(compact_seq(acc, s.push(e), tol) == compact_seq(
            compact_step(acc, e, tol),
            Seq::<EntryView>::empty(),
            tol,
        ));
        assert(compact_seq(acc, s, tol) == acc);
    } else {
        assert(s.push(e)[0] == s[0]);
        assert(s.push(e).skip(1) =~= s.skip(1).push(e));
        lemma_compact_seq_push(compact_step(acc, s[0], tol), s.skip(1), e, tol);
        assert(compact_seq(acc, s.push(e), tol) == compact_seq(
            compact_step(acc, s[0], tol),
            s.skip(1).push(e),
            tol,
        ));
    }
}

/// Duration conservation over the steps: compaction neither gains
/// nor loses recorded time.
pub proof fn lemma_compact_seq_sum(acc: Seq<EntryView>, samples: Seq<EntryView>, tol: int)
    ensures
        sum_durs(compact_seq(acc, samples, tol)) == sum_durs(acc) + sum_durs(samples),
    decreases samples.len(),
{
    if samples.len() == 0 {
    } else {
        let stepped = compact_step(acc, samples[0], tol);
        if acc.len() > 0 && can_merge_spec(acc.last(), samples[0], tol) {
            lemma_sum_update_last(acc, merge_into(acc.last(), samples[0]));
        } else {
            lemma_sum_push(acc, samples[0]);
        }
        lemma_compact_seq_sum(stepped, samples.skip(1), tol);
    }
}

/// Duration conservation: the total duration of the compacted output
/// equals the prior entry's duration (when one was supplied) plus the
/// total duration of the samples.
pub proof fn lemma_dedup_duration_conservation(last: EntryView, samples: Seq<EntryView>, tol: int)
    ensures
        sum_durs(dedup_model(last, samples, tol)) == (if last.status
            != EntryStatus::Uninitialized {
            last.duration_seconds
        } else {
            0
        }) + sum_durs(samples),
{
    lemma_compact_seq_sum(dedup_init(last), samples, tol);
    assert(sum_durs(Seq::<EntryView>::empty()) == 0);
    if last.status != EntryStatus::Uninitialized {
        let init = dedup_init(last);
        assert(init[0] == last);
        assert(init.skip(1) =~= Seq::<EntryView>::empty());
        assert(sum_durs(init) == last.duration_seconds + sum_durs(Seq::<EntryView>::empty()));
    }
}

proof fn lemma_compact_seq_stable(c: Seq<EntryView>, k: int, tol: int)
    requires
        0 <= k <= c.len(),
        forall|i: int| 0 <= i < c.len() - 1 ==> !can_merge_spec(c[i], #[trigger] c[i + 1], tol),
    ensures
        compact_seq(c.take(k), c.skip(k), tol) == c,
    decreases c.len() - k,
{
    if k == c.len() {
        assert(c.take(k) =~= c);
        assert(c.skip(k) =~= Seq::<EntryView>::empty());
    } else {
        let acc = c.take(k);
        let e = c.skip(k)[0];
        assert(e == c[k]);
        if k > 0 {
            assert(acc.last() == c[k - 1]);
            assert(!can_merge_spec(c[k - 1], c[(k - 1) + 1], tol));
        }
        assert(compact_step(acc, e, tol) == acc.push(e));
        assert(acc.push(e) =~= c.take(k + 1));
        assert(c.skip(k).skip(1) =~= c.skip(k + 1));
        lemma_compact_seq_stable(c, k + 1, tol);
    }
}

/// Merge idempotence for a fresh store: a sequence in which no two
/// consecutive entries may merge (none is further mergeable) passes
/// through compaction unchanged when no prior entry is supplied.
pub proof fn lemma_compact_idempotent_fresh(c: Seq<EntryView>, last: EntryView, tol: int)
    requires
        last.status == EntryStatus::Uninitialized,
        forall|i: int| 0 <= i < c.len() - 1 ==> !can_merge_spec(c[i], #[trigger] c[i + 1], tol),
    ensures
        dedup_model(last, c, tol) == c,
{
    assert(c.take(0) =~= Seq::<EntryView>::empty());
    assert(c.skip(0) =~= c);
    lemma_compact_seq_stable(c, 0, tol);
}

/// Merge idempotence against the store's own trailing row: a sequence
/// in which no two consecutive entries may merge is reproduced
/// unchanged when its first entry is supplied as the prior entry and
/// the rest as the samples.
pub proof fn lemma_compact_idempotent(c: Seq<EntryView>, tol: int)
    requires
        c.len() > 0,
        c[0].status != EntryStatus::Uninitialized,
        forall|i: int| 0 <= i < c.len() - 1 ==> !can_merge_spec(c[i], #[trigger] c[i + 1], tol),
    ensures
        dedup_model(c[0], c.skip(1), tol) == c,
{
    assert(dedup_init(c[0]) =~= c.take(1));
    lemma_compact_seq_stable(c, 1, tol);
}



/// Total durations of a prefix grow by the entry at its edge.
pub proof fn lemma_sum_take_succ(s: Seq<EntryView>, i: int)
    requires
        0 <= i < s.len(),
    ensures
        sum_durs(s.take(i + 1)) == sum_durs(s.take(i)) + s[i].duration_seconds,
{
    assert(s.take(i + 1) =~= s.take(i).push(s[i]));
    lemma_sum_push(s.take(i), s[i]);
}

/// With no negative durations, a prefix's total is at most the whole total.
pub proof fn lemma_sum_take_le(s: Seq<EntryView>, i: int)
    requires
        0 <= i <= s.len(),
        forall|k: int| 0 <= k < s.len() ==> #[trigger] s[k].duration_seconds >= 0,
    ensures
        sum_durs(s.take(i)) <= sum_durs(s),
    decreases s.len() - i,
{
    if i == s.len() {
        assert(s.take(i) =~= s);
    } else {
        lemma_sum_take_succ(s, i);
        lemma_sum_take_le(s, i + 1);
    }
}

/// With no negative durations, the total is not negative.
pub proof fn lemma_sum_nonneg(s: Seq<EntryView>)
    requires
        forall|k: int| 0 <= k < s.len() ==> #[trigger] s[k].duration_seconds >= 0,
    ensures
        sum_durs(s) >= 0,
    decreases s.len(),
{
    if s.len() > 0 {
        assert(forall|k: int|
            0 <= k < s.skip(1).len() ==> #[trigger] s.skip(1)[k].duration_seconds == s[k
                + 1].duration_seconds);
        lemma_sum_nonneg(s.skip(1));
    }
}

/// The absolute difference of two second counts.
fn abs_diff_seconds(a: u64, b: u64) -> (r: u64)
    ensures
        r == abs_int(a - b),
{
    if a >= b {
        a - b
    } else {
        b - a
    }
}

/// Room for the compaction's arithmetic: every timestamp in play,
/// increased by the total duration in play, still fits in a `u64`.
pub open spec fn dedup_fits(last: EntryView, samples: Seq<EntryView>) -> bool {
    let budget = last.duration_seconds + sum_durs(samples);
    &&& last.utc_time_seconds + budget <= u64::MAX
    &&& forall|i: int|
        0 <= i < samples.len() ==> #[trigger] samples[i].utc_time_seconds + budget <= u64::MAX
}

/// Compacts `entries` into minimal runs and appends them to
/// `entries_dedup`, with one row status each in `entry_row_statuses`.
///
/// `last_entry` is the most recent persisted entry (or the
/// `Uninitialized` sentinel when the store is fresh); when real, it
/// heads the output tagged `Existing`, open for duration extension,
/// and every other emitted run is tagged `New`. A sample is merged
/// into the open run exactly when the run is real and shares the
/// sample's status and variables, and the two end instants differ by
/// at most `record_interval_seconds` (ties merge).
pub fn deduplicate_entries(
    last_entry: &Entry,
    entries: &Vec<Entry>,
    record_interval_seconds: u64,
    entries_dedup: &mut Vec<Entry>,
    entry_row_statuses: &mut Vec<RecordRowStatus>,
)
    requires
        old(entries_dedup)@.len() == 0,
        old(entry_row_statuses)@.len() == 0,
        dedup_fits(last_entry@, views_of(entries@)),
    ensures
        views_of(final(entries_dedup)@) == dedup_model(
            last_entry@,
            views_of(entries@),
            record_interval_seconds as int,
        ),
        final(entry_row_statuses)@ == statuses_model(
            last_entry@.status != EntryStatus::Uninitialized,
            final(entries_dedup)@.len() as int,
        ),
{
    let ghost samples = views_of(entries@);
    let ghost tol = record_interval_seconds as int;
    let ghost init = dedup_init(last_entry@);
    let ghost head_real = last_entry@.status != EntryStatus::Uninitialized;
    let ghost budget = last_entry@.duration_seconds + sum_durs(samples);

    let mut run: Entry = last_entry.clone();
    let mut run_status: RecordRowStatus = RecordRowStatus::Existing;
    let mut have_run: bool = match run.status {
        EntryStatus::Uninitialized => false,
        _ => true,
    };
    let ghost mut model = init;

    proof {
        assert forall|k: int|
            0 <= k < samples.len() implies #[trigger] samples[k].duration_seconds >= 0 && samples[
            k
        ].utc_time_seconds >= 0 by {
            assert(samples[k] == entries@[k]@);
        }
        assert(samples.take(0) =~= Seq::<EntryView>::empty());
        assert(sum_durs(Seq::<EntryView>::empty()) == 0);
        assert(statuses_model(head_real, 0) =~= Seq::<RecordRowStatus>::empty());
        if head_real {
            assert(init[0] == last_entry@);
            assert(init.skip(1) =~= Seq::<EntryView>::empty());
            assert(sum_durs(init) == last_entry@.duration_seconds + sum_durs(
                Seq::<EntryView>::empty(),
            ));
            assert(views_of(entries_dedup@).push(run@) =~= model);
        }
    }

    let mut i: usize = 0;
    while i < entries.len()
        invariant
            0 <= i <= entries.len(),
            samples == views_of(entries@),
            samples.len() == entries@.len(),
            forall|k: int| 0 <= k < samples.len() ==> #[trigger] samples[k] == entries@[k]@,
            forall|k: int|
                0 <= k < samples.len() ==> #[trigger] samples[k].duration_seconds >= 0 && samples[
                    k
                ].utc_time_seconds >= 0,
            tol == record_interval_seconds as int,
            init == dedup_init(last_entry@),
            head_real == (last_entry@.status != EntryStatus::Uninitialized),
            budget == last_entry@.duration_seconds + sum_durs(samples),
            sum_durs(init) == if head_real {
                last_entry@.duration_seconds
            } else {
                0
            },
            dedup_fits(last_entry@, samples),
            model == compact_seq(init, samples.take(i as int), tol),
            sum_durs(model) == sum_durs(init) + sum_durs(samples.take(i as int)),
            forall|k: int| 0 <= k < model.len() ==> #[trigger] model[k].duration_seconds >= 0,
            forall|k: int|
                0 <= k < model.len() ==> #[trigger] model[k].utc_time_seconds >= 0 && model[
                    k
                ].utc_time_seconds + budget <= u64::MAX,
            have_run <==> model.len() > 0,
            head_real ==> have_run,
            have_run ==> views_of(entries_dedup@).push(run@) == model,
            !have_run ==> entries_dedup@.len() == 0,
            entry_row_statuses@.len() == entries_dedup@.len(),
            entry_row_statuses@ == statuses_model(head_real, entries_dedup@.len() as int),
            have_run ==> run_status == (if entries_dedup@.len() == 0 && head_real {
                RecordRowStatus::Existing
            } else {
                RecordRowStatus::New
            }),
        decreases entries.len() - i,
    {
        let e = &entries[i];
        proof {
            assert(samples[i as int] == entries@[i as int]@);
            assert(samples.take(i + 1) =~= samples.take(i as int).push(samples[i as int]));
            lemma_compact_seq_push(init, samples.take(i as int), samples[i as int], tol);
            lemma_sum_push(samples.take(i as int), samples[i as int]);
            lemma_sum_take_le(samples, i + 1);
            lemma_sum_take_succ(samples, i as int);
        }
        if have_run {
            proof {
                assert(model.last() == run@);
                lemma_last_le_sum(model);
                lemma_sum_take_le(samples, i as int);
                assert forall|k: int|
                    0 <= k < samples.take(i as int).len() implies #[trigger] samples.take(
                    i as int,
                )[k].duration_seconds >= 0 by {
                    assert(samples.take(i as int)[k] == samples[k]);
                }
                lemma_sum_nonneg(samples.take(i as int));
                assert(run@.duration_seconds <= sum_durs(model));
                assert(run@.utc_time_seconds + run@.duration_seconds <= u64::MAX);
                assert(e@ == samples[i as int]);
                assert(samples[i as int].utc_time_seconds + budget <= u64::MAX);
                assert(samples[i as int].duration_seconds <= sum_durs(samples.take(i + 1)));
                assert(e@.utc_time_seconds + e@.duration_seconds <= u64::MAX);
            }
            let run_end = run.utc_time_seconds + run.duration_seconds;
            let e_end = e.utc_time_seconds + e.duration_seconds;
            let gap = abs_diff_seconds(run_end, e_end);
            let mergeable = match run.status {
                EntryStatus::Uninitialized => false,
                _ => gap <= record_interval_seconds && run.status == e.status && run.vars
                    == e.vars,
            };
            if mergeable {
                proof {
                    assert(can_merge_spec(model.last(), samples[i as int], tol));
                    lemma_sum_update_last(model, merge_into(model.last(), samples[i as int]));
                    model = compact_step(model, samples[i as int], tol);
                }
                run.duration_seconds = run.duration_seconds + e.duration_seconds;
                proof {
                    assert(views_of(entries_dedup@).push(run@) =~= model);
                }
            } else {
                proof {
                    assert(!can_merge_spec(model.last(), samples[i as int], tol));
                    lemma_sum_push(model, samples[i as int]);
                    model = compact_step(model, samples[i as int], tol);
                }
                let ghost prev_out = entries_dedup@;
                let ghost prev_status = run_status;
                entries_dedup.push(run);
                entry_row_statuses.push(run_status);
                run = e.clone();
                run_status = RecordRowStatus::New;
                proof {
                    assert(views_of(entries_dedup@) =~= views_of(prev_out).push(model[model.len()
                        - 2]));
                    assert(views_of(entries_dedup@).push(run@) =~= model);
                    assert(entry_row_statuses@ =~= statuses_model(
                        head_real,
                        entries_dedup@.len() as int,
                    ));
                }
            }
        } else {
            proof {
                assert(model.len() == 0);
                lemma_sum_push(model, samples[i as int]);
                model = compact_step(model, samples[i as int], tol);
            }
            run = e.clone();
            run_status = RecordRowStatus::New;
            have_run = true;
            proof {
                assert(views_of(entries_dedup@).push(run@) =~= model);
            }
        }
        i = i + 1;
    }
    proof {
        assert(samples.take(entries@.len() as int) =~= samples);
    }
    if have_run {
        entries_dedup.push(run);
        entry_row_statuses.push(run_status);
        proof {
            assert(views_of(entries_dedup@) =~= model);
            assert(entry_row_statuses@ =~= statuses_model(head_real, entries_dedup@.len() as int));
        }
    } else {
        proof {
            assert(views_of(entries_dedup@) =~= model);
            assert(entry_row_statuses@ =~= statuses_model(head_real, entries_dedup@.len() as int));
        }
    }
}



/// Compaction never emits fewer runs than it starts with.
pub proof fn lemma_compact_len_nondecreasing(acc: Seq<EntryView>, s: Seq<EntryView>, tol: int)
    ensures
        compact_seq(acc, s, tol).len() >= acc.len(),
    decreases s.len(),
{
    if s.len() > 0 {
        lemma_compact_len_nondecreasing(compact_step(acc, s[0], tol), s.skip(1), tol);
    }
}

proof fn lemma_full_merge_same(acc: Seq<EntryView>, s: Seq<EntryView>, tol1: int, tol2: int)
    requires
        acc.len() >= 1,
        tol1 <= tol2,
        compact_seq(acc, s, tol1).len() == acc.len(),
    ensures
        compact_seq(acc, s, tol2) == compact_seq(acc, s, tol1),
    decreases s.len(),
{
    if s.len() > 0 {
        if can_merge_spec(acc.last(), s[0], tol1) {
            assert(can_merge_spec(acc.last(), s[0], tol2));
            let stepped = compact_step(acc, s[0], tol1);
            assert(compact_step(acc, s[0], tol2) == stepped);
            lemma_full_merge_same(stepped, s.skip(1), tol1, tol2);
        } else {
            lemma_compact_len_nondecreasing(acc.push(s[0]), s.skip(1), tol1);
            assert(false);
        }
    }
}

/// Tolerance monotonicity where the lower tolerance already merges
/// everything into a single run: any higher tolerance yields that
/// same output, so it cannot emit more rows. (A higher tolerance can
/// emit more rows than a lower one for some inputs, because an early
/// extra merge shifts the open run's end instant and can break later
/// merges; this lemma covers the inputs where no split occurs.)
pub proof fn lemma_tolerance_monotonic_single_run(
    last: EntryView,
    samples: Seq<EntryView>,
    tol1: int,
    tol2: int,
)
    requires
        tol1 <= tol2,
        dedup_model(last, samples, tol1).len() <= 1,
    ensures
        dedup_model(last, samples, tol2) == dedup_model(last, samples, tol1),
{
    let init = dedup_init(last);
    if init.len() == 0 {
        if samples.len() == 0 {
        } else {
            assert(compact_step(init, samples[0], tol1) == init.push(samples[0]));
            assert(compact_step(init, samples[0], tol2) == init.push(samples[0]));
            let acc1 = init.push(samples[0]);
            lemma_compact_len_nondecreasing(acc1, samples.skip(1), tol1);
            lemma_full_merge_same(acc1, samples.skip(1), tol1, tol2);
        }
    } else {
        lemma_compact_len_nondecreasing(init, samples, tol1);
        lemma_full_merge_same(init, samples, tol1, tol2);
    }
}



/// Compaction introduces no `Uninitialized` entry: every output run
/// carries the status of an input.
pub proof fn lemma_compact_no_uninit(acc: Seq<EntryView>, s: Seq<EntryView>, tol: int)
    requires
        forall|k: int| 0 <= k < acc.len() ==> #[trigger] acc[k].status != EntryStatus::Uninitialized,
        forall|k: int| 0 <= k < s.len() ==> #[trigger] s[k].status != EntryStatus::Uninitialized,
    ensures
        forall|k: int|
            0 <= k < compact_seq(acc, s, tol).len() ==> #[trigger] compact_seq(acc, s, tol)[k].status
                != EntryStatus::Uninitialized,
    decreases s.len(),
{
    if s.len() > 0 {
        let stepped = compact_step(acc, s[0], tol);
        assert forall|k: int|
            0 <= k < stepped.len() implies #[trigger] stepped[k].status
            != EntryStatus::Uninitialized by {
            if acc.len() > 0 && can_merge_spec(acc.last(), s[0], tol) {
                if k < acc.len() - 1 {
                    assert(stepped[k] == acc[k]);
                }
            } else {
                if k < acc.len() {
                    assert(stepped[k] == acc[k]);
                }
            }
        }
        assert(forall|k: int|
            0 <= k < s.skip(1).len() ==> #[trigger] s.skip(1)[k].status == s[k + 1].status);
        lemma_compact_no_uninit(stepped, s.skip(1), tol);
    }
}



/// Row-status correctness: the first emitted row is `Existing`
/// exactly when a real prior entry was supplied, and every other row
/// is `New`.
pub proof fn lemma_row_status_correctness(head_real: bool, n: int)
    requires
        n > 0,
    ensures
        statuses_model(head_real, n)[0] == RecordRowStatus::Existing <==> head_real,
        forall|i: int|
            1 <= i < n ==> #[trigger] statuses_model(head_real, n)[i] == RecordRowStatus::New,
{
}


} // verus!
