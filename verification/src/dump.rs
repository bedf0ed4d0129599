//! Plain-text export of stored entries: one comma-separated line per
//! entry, fields in table order, absent strings left empty.
use vstd::prelude::*;

use crate::entries::EntryView;
use crate::format::dec_str;
use crate::format::u64_to_string;
use crate::storage::Entries;
use crate::storage::StoreError;
use crate::variable::opt_text;
use crate::variable::option_string_to_string;

verus! {

/// An optional string's text for an export field: its contents, or
/// empty when absent.
pub fn convert_to_csv_string_value(entry_var_name: &Option<String>) -> (r: String)
    ensures
        r@ == opt_text(entry_var_name.deep_view()),
{
    option_string_to_string(entry_var_name)
}

/// The comma-separated line one entry exports to: timestamp,
/// duration, status name, executable, then each variable name/value
/// pair in slot order.
pub open spec fn csv_line_spec(e: EntryView) -> Seq<char> {
    dec_str(e.utc_time_seconds) + ","@ + dec_str(e.duration_seconds) + ","@ + e.status.name_spec()
        + ","@ + opt_text(e.vars.executable) + ","@ + opt_text(e.vars.var1_name) + ","@ + opt_text(
        e.vars.var1_value,
    ) + ","@ + opt_text(e.vars.var2_name) + ","@ + opt_text(e.vars.var2_value) + ","@ + opt_text(
        e.vars.var3_name,
    ) + ","@ + opt_text(e.vars.var3_value) + ","@ + opt_text(e.vars.var4_name) + ","@ + opt_text(
        e.vars.var4_value,
    ) + ","@ + opt_text(e.vars.var5_name) + ","@ + opt_text(e.vars.var5_value)
}

/// Appends one comma-separated line per entry of the result, in
/// order.
pub fn generate_csv_formated_lines(entries: &Entries, lines: &mut Vec<String>) -> (r: Result<
    (),
    StoreError,
>)
    ensures
        r is Ok,
        final(lines).deep_view() == old(lines).deep_view() + Seq::new(
            entries@.entries.len(),
            |i: int| csv_line_spec(entries@.entries[i]),
        ),
{
    let ghost rows = entries@.entries;
    let ghost target = Seq::new(rows.len(), |i: int| csv_line_spec(rows[i]));
    let all = entries.all_entries();
    let mut i: usize = 0;
    proof {
        assert(old(lines).deep_view() + target.take(0) =~= old(lines).deep_view());
    }
    while i < all.len()
        invariant
            0 <= i <= all@.len(),
            rows == entries@.entries,
            rows == crate::entries::views_of(all@),
            rows.len() == all@.len(),
            forall|k: int| 0 <= k < rows.len() ==> #[trigger] rows[k] == all@[k]@,
            target == Seq::new(rows.len(), |k: int| csv_line_spec(rows[k])),
            lines.deep_view() == old(lines).deep_view() + target.take(i as int),
        decreases all@.len() - i,
    {
        let e = &all[i];
        let mut line = u64_to_string(e.utc_time_seconds);
        line.append(",");
        let part = u64_to_string(e.duration_seconds);
        line.append(part.as_str());
        line.append(",");
        let part = e.status.name();
        line.append(part.as_str());
        line.append(",");
        let part = convert_to_csv_string_value(&e.vars.executable);
        line.append(part.as_str());
        line.append(",");
        let part = convert_to_csv_string_value(&e.vars.var1_name);
        line.append(part.as_str());
        line.append(",");
        let part = convert_to_csv_string_value(&e.vars.var1_value);
        line.append(part.as_str());
        line.append(",");
        let part = convert_to_csv_string_value(&e.vars.var2_name);
        line.append(part.as_str());
        line.append(",");
        let part = convert_to_csv_string_value(&e.vars.var2_value);
        line.append(part.as_str());
        line.append(",");
        let part = convert_to_csv_string_value(&e.vars.var3_name);
        line.append(part.as_str());
        line.append(",");
        let part = convert_to_csv_string_value(&e.vars.var3_value);
        line.append(part.as_str());
        line.append(",");
        let part = convert_to_csv_string_value(&e.vars.var4_name);
        line.append(part.as_str());
        line.append(",");
        let part = convert_to_csv_string_value(&e.vars.var4_value);
        line.append(part.as_str());
        line.append(",");
        let part = convert_to_csv_string_value(&e.vars.var5_name);
        line.append(part.as_str());
        line.append(",");
        let part = convert_to_csv_string_value(&e.vars.var5_value);
        line.append(part.as_str());
        let ghost before = lines.deep_view();
        proof {
            assert(line@ =~= target[i as int]);
        }
        lines.push(line);
        proof {
            assert(lines.deep_view() =~= before.push(target[i as int]));
            assert(old(lines).deep_view() + target.take(i + 1) =~= before.push(target[i as int]));
        }
        i = i + 1;
    }
    proof {
        assert(target.take(rows.len() as int) =~= target);
    }
    Ok(())
}

} // verus!
