//! Selection of variable values out of entries for grouped reports:
//! which named variable (or the executable) to read, and how the
//! selected values combine into a stable grouping key.
use vstd::prelude::*;

use crate::entries::Entry;
use crate::entries::VarsView;

verus! {

/// The mathematical value of a selector.
pub ghost enum VariableKind {
    Executable,
    VariableName(Seq<char>),
}

/// What to read from an entry: its foreground executable, or the
/// value of the context variable with the given name.
#[derive(Debug)]
pub enum Variable {
    Executable,
    VariableName(String),
}

impl View for Variable {
    type V = VariableKind;

    open spec fn view(&self) -> VariableKind {
        match self {
            Variable::Executable => VariableKind::Executable,
            Variable::VariableName(n) => VariableKind::VariableName(n@),
        }
    }
}

impl Clone for Variable {
    /// Clones the selector, keeping its name.
    fn clone(&self) -> (r: Variable)
        ensures
            r@ == self@,
    {
        match self {
            Variable::Executable => Variable::Executable,
            Variable::VariableName(n) => Variable::VariableName(n.clone()),
        }
    }
}

/// The text of an optional string: its contents, or empty when
/// absent.
pub open spec fn opt_text(o: Option<Seq<char>>) -> Seq<char> {
    match o {
        Some(s) => s,
        None => Seq::empty(),
    }
}

/// Extracts an optional string's contents, with the empty string for
/// an absent value.
pub fn option_string_to_string(value: &Option<String>) -> (r: String)
    ensures
        r@ == opt_text(value.deep_view()),
{
    match value {
        Some(v) => v.clone(),
        None => String::new(),
    }
}

/// A selector's display name: `Executable`, or the variable's own
/// name.
pub open spec fn variable_name_text(v: VariableKind) -> Seq<char> {
    match v {
        VariableKind::Executable => "Executable"@,
        VariableKind::VariableName(n) => n,
    }
}

/// The value a selector reads from a variable record: the executable
/// name, or the value of the first of the five slots whose name
/// (absent read as empty) equals the selector's name, or empty when
/// no slot matches.
pub open spec fn variable_value_text(vars: VarsView, v: VariableKind) -> Seq<char> {
    match v {
        VariableKind::Executable => opt_text(vars.executable),
        VariableKind::VariableName(n) => {
            if n == opt_text(vars.var1_name) {
                opt_text(vars.var1_value)
            } else if n == opt_text(vars.var2_name) {
                opt_text(vars.var2_value)
            } else if n == opt_text(vars.var3_name) {
                opt_text(vars.var3_value)
            } else if n == opt_text(vars.var4_name) {
                opt_text(vars.var4_value)
            } else if n == opt_text(vars.var5_name) {
                opt_text(vars.var5_value)
            } else {
                Seq::empty()
            }
        },
    }
}

/// The non-empty texts of `items` from position `i` on, joined in
/// order, a single space after each text that does not sit in the
/// final position.
pub open spec fn join_texts_from(items: Seq<Seq<char>>, i: int) -> Seq<char>
    decreases items.len() - i,
{
    if i < 0 || i >= items.len() {
        Seq::empty()
    } else {
        let rest = join_texts_from(items, i + 1);
        if items[i].len() == 0 {
            rest
        } else if i != items.len() - 1 {
            items[i] + " "@ + rest
        } else {
            items[i] + rest
        }
    }
}

/// The selectors' display names as texts.
pub open spec fn name_texts(vars: Seq<VariableKind>) -> Seq<Seq<char>> {
    vars.map_values(|v: VariableKind| variable_name_text(v))
}

/// The values the selectors read from one record, as texts.
pub open spec fn value_texts(rec: VarsView, vars: Seq<VariableKind>) -> Seq<Seq<char>> {
    vars.map_values(|v: VariableKind| variable_value_text(rec, v))
}

/// The views of a selector slice.
pub open spec fn variable_views(s: Seq<Variable>) -> Seq<VariableKind> {
    s.map_values(|v: Variable| v@)
}

/// Joins the selectors' display names into one heading, non-empty
/// names separated by single spaces.
pub fn combine_variable_names(variables: &[Variable]) -> (r: String)
    ensures
        r@ == join_texts_from(name_texts(variable_views(variables@)), 0),
{
    let ghost texts = name_texts(variable_views(variables@));
    let n = variables.len();
    let mut key = String::new();
    let mut i: usize = n;
    while i > 0
        invariant
            0 <= i <= n,
            n == variables@.len(),
            texts == name_texts(variable_views(variables@)),
            texts.len() == n,
            forall|k: int|
                0 <= k < n ==> #[trigger] texts[k] == variable_name_text(variables@[k]@),
            key@ == join_texts_from(texts, i as int),
        decreases i,
    {
        i = i - 1;
        let var_name: String = match &variables[i] {
            Variable::Executable => {
                let mut s = String::new();
                s.append("Executable");
                s
            },
            Variable::VariableName(name) => name.clone(),
        };
        if !var_name.as_str().is_empty() {
            let mut piece = var_name;
            if i != n - 1 {
                piece.append(" ");
            }
            piece.append(key.as_str());
            key = piece;
        }
    }
    key
}

/// Joins the values the selectors read from one entry's record into
/// that entry's grouping key: non-empty values in selector order,
/// separated by single spaces. Entries whose selected values are all
/// absent get the empty key.
pub fn combine_variable_values(entry: &Entry, variables: &[Variable]) -> (r: String)
    ensures
        r@ == join_texts_from(value_texts(entry@.vars, variable_views(variables@)), 0),
{
    let ghost texts = value_texts(entry@.vars, variable_views(variables@));
    let n = variables.len();
    let mut key = String::new();
    let mut i: usize = n;
    while i > 0
        invariant
            0 <= i <= n,
            n == variables@.len(),
            texts == value_texts(entry@.vars, variable_views(variables@)),
            texts.len() == n,
            forall|k: int|
                0 <= k < n ==> #[trigger] texts[k] == variable_value_text(
                    entry@.vars,
                    variables@[k]@,
                ),
            key@ == join_texts_from(texts, i as int),
        decreases i,
    {
        i = i - 1;
        let var_value = read_variable_value(entry, &variables[i]);
        if !var_value.as_str().is_empty() {
            let mut piece = var_value;
            if i != n - 1 {
                piece.append(" ");
            }
            piece.append(key.as_str());
            key = piece;
        }
    }
    key
}

/// Reads one selector's value from an entry's record.
pub fn read_variable_value(entry: &Entry, variable: &Variable) -> (r: String)
    ensures
        r@ == variable_value_text(entry@.vars, variable@),
{
    match variable {
        Variable::Executable => option_string_to_string(&entry.vars.executable),
        Variable::VariableName(var_name) => {
            let var1_name = option_string_to_string(&entry.vars.var1_name);
            let var2_name = option_string_to_string(&entry.vars.var2_name);
            let var3_name = option_string_to_string(&entry.vars.var3_name);
            let var4_name = option_string_to_string(&entry.vars.var4_name);
            let var5_name = option_string_to_string(&entry.vars.var5_name);
            if *var_name == var1_name {
                option_string_to_string(&entry.vars.var1_value)
            } else if *var_name == var2_name {
                option_string_to_string(&entry.vars.var2_value)
            } else if *var_name == var3_name {
                option_string_to_string(&entry.vars.var3_value)
            } else if *var_name == var4_name {
                option_string_to_string(&entry.vars.var4_value)
            } else if *var_name == var5_name {
                option_string_to_string(&entry.vars.var5_value)
            } else {
                String::new()
            }
        },
    }
}

/// The non-empty value texts in selector order.
pub open spec fn nonempty_values_from(items: Seq<Seq<char>>, i: int) -> Seq<Seq<char>>
    decreases items.len() - i,
{
    if i < 0 || i >= items.len() {
        Seq::empty()
    } else {
        let rest = nonempty_values_from(items, i + 1);
        if items[i].len() == 0 {
            rest
        } else {
            seq![items[i]] + rest
        }
    }
}

/// The values the selectors read from one entry, kept separate (for
/// column display), absent values dropped.
pub fn multi_variable_values(entry: &Entry, variables: &[Variable]) -> (r: Vec<String>)
    ensures
        r.deep_view() == nonempty_values_from(
            value_texts(entry@.vars, variable_views(variables@)),
            0,
        ),
{
    let ghost texts = value_texts(entry@.vars, variable_views(variables@));
    let n = variables.len();
    let mut out: Vec<String> = Vec::new();
    proof {
        assert(out.deep_view() =~= Seq::<Seq<char>>::empty());
    }
    let mut idx: usize = n;
    while idx > 0
        invariant
            0 <= idx <= n,
            n == variables@.len(),
            texts == value_texts(entry@.vars, variable_views(variables@)),
            texts.len() == n,
            forall|k: int|
                0 <= k < n ==> #[trigger] texts[k] == variable_value_text(
                    entry@.vars,
                    variables@[k]@,
                ),
            out.deep_view() == nonempty_values_from(texts, idx as int),
        decreases idx,
    {
        idx = idx - 1;
        let var_value = read_variable_value(entry, &variables[idx]);
        if !var_value.as_str().is_empty() {
            let ghost before = out.deep_view();
            let mut fresh: Vec<String> = Vec::new();
            fresh.push(var_value);
            let mut rest = out;
            fresh.append(&mut rest);
            out = fresh;
            proof {
                assert(out.deep_view() =~= seq![texts[idx as int]] + before);
            }
        }
    }
    out
}

} // verus!
