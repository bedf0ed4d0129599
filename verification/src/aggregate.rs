//! Aggregation of range-filtered entries: duration sums, grouping by
//! selected variables, time-of-day histograms, and the deterministic
//! key orders used for display.
use vstd::prelude::*;

use crate::entries::Entry;
use crate::entries::EntryStatus;
use crate::entries::EntryView;
use crate::entries::views_of;
use crate::format::TimeBlockUnit;
use crate::variable::join_texts_from;
use crate::variable::nonempty_values_from;
use crate::variable::value_texts;
use crate::variable::variable_views;
use crate::variable::Variable;
use crate::variable::VariableKind;
use crate::entries::VarsView;
use vstd::pervasive::VecAdditionalExecFns;
use chrono::Timelike;

verus! {

/// Relies on chrono's conversion of a UTC timestamp to the machine's
/// local time zone: the wall-clock hour and minute of the given
/// instant, midnight for an instant outside chrono's representable
/// range. The result depends on the machine's time zone, so nothing
/// more than the clock's bounds is promised of it.
#[verifier::external_body]
fn local_hour_minute(utc_time_seconds: u64) -> (r: (u64, u64))
    ensures
        r.0 < 24,
        r.1 < 60,
{
    let seconds = i64::try_from(utc_time_seconds).unwrap_or(0);
    match chrono::DateTime::<chrono::Utc>::from_timestamp(seconds, 0) {
        Some(datetime) => {
            let local = datetime.with_timezone(&chrono::Local);
            (local.hour() as u64, local.minute() as u64)
        },
        None => (0, 0),
    }
}

/// The local wall-clock minute of the day of an instant: its local
/// hour times 60 plus its local minute.
fn local_minutes_of_day(utc_time_seconds: u64) -> (r: u64)
    ensures
        r < 1440,
{
    let (hour, minute) = local_hour_minute(utc_time_seconds);
    hour * 60 + minute
}

/// The start of the time block a minute of the day falls in.
pub open spec fn block_start(time_of_day_minutes: int, increment_minutes: int) -> int {
    time_of_day_minutes - time_of_day_minutes % increment_minutes
}

/// Rounds a minute of the day down to its time-block boundary.
pub fn round_to_time_block(time_of_day_minutes: u64, time_block_unit: TimeBlockUnit) -> (r: u64)
    requires
        time_of_day_minutes < 1440,
    ensures
        r == block_start(time_of_day_minutes as int, time_block_unit.as_minutes_spec()),
        r <= time_of_day_minutes,
        r as int % time_block_unit.as_minutes_spec() == 0,
{
    let increment_minutes = time_block_unit.as_minutes();
    time_of_day_minutes - time_of_day_minutes % increment_minutes
}

/// The local-time histogram bucket of an instant: its local minute of
/// the day rounded down to the time-block boundary. The bucket
/// depends on the machine's time zone; it is always a block start
/// within the day.
pub fn utc_seconds_rounded(utc_time_seconds: u64, time_block_unit: TimeBlockUnit) -> (r: u64)
    ensures
        r < 1440,
        r as int % time_block_unit.as_minutes_spec() == 0,
{
    let tod = local_minutes_of_day(utc_time_seconds);
    round_to_time_block(tod, time_block_unit)
}

/// Lowers `value_min` to `value_previous` when that is smaller.
pub fn add_min(value_min: &mut u64, value_previous: u64)
    ensures
        *final(value_min) == if value_previous < *old(value_min) {
            value_previous
        } else {
            *old(value_min)
        },
{
    if value_previous < *value_min {
        *value_min = value_previous;
    }
}

/// Raises `value_max` to `value_next` when that is larger.
pub fn add_max(value_max: &mut u64, value_next: u64)
    ensures
        *final(value_max) == if value_next > *old(value_max) {
            value_next
        } else {
            *old(value_max)
        },
{
    if value_next > *value_max {
        *value_max = value_next;
    }
}

/// The total duration of the entries with the given status.
pub open spec fn sum_status_durs(s: Seq<EntryView>, st: EntryStatus) -> int
    decreases s.len(),
{
    if s.len() == 0 {
        0
    } else {
        sum_status_durs(s.drop_last(), st) + if s.last().status == st {
            s.last().duration_seconds
        } else {
            0
        }
    }
}

/// With no negative durations, a prefix's status total is at most the
/// whole status total.
pub proof fn lemma_sum_status_take_le(s: Seq<EntryView>, i: int, st: EntryStatus)
    requires
        0 <= i <= s.len(),
        forall|k: int| 0 <= k < s.len() ==> #[trigger] s[k].duration_seconds >= 0,
    ensures
        sum_status_durs(s.take(i), st) <= sum_status_durs(s, st),
    decreases s.len() - i,
{
    if i == s.len() {
        assert(s.take(i) =~= s);
    } else {
        assert(s.take(i + 1).drop_last() =~= s.take(i));
        assert(s.take(i + 1).last() == s[i]);
        lemma_sum_status_take_le(s, i + 1, st);
    }
}

/// Sums the durations of the entries with the given status.
pub fn sum_entry_duration(entries: &[Entry], only_status: EntryStatus) -> (r: u64)
    requires
        sum_status_durs(views_of(entries@), only_status) <= u64::MAX,
    ensures
        r == sum_status_durs(views_of(entries@), only_status),
{
    let ghost s = views_of(entries@);
    proof {
        assert forall|k: int| 0 <= k < s.len() implies #[trigger] s[k].duration_seconds >= 0 by {
            assert(s[k] == entries@[k]@);
        }
        assert(s.take(0) =~= Seq::<EntryView>::empty());
    }
    let mut total: u64 = 0;
    let mut i: usize = 0;
    while i < entries.len()
        invariant
            0 <= i <= entries.len(),
            s == views_of(entries@),
            s.len() == entries@.len(),
            forall|k: int| 0 <= k < s.len() ==> #[trigger] s[k] == entries@[k]@,
            forall|k: int| 0 <= k < s.len() ==> #[trigger] s[k].duration_seconds >= 0,
            sum_status_durs(s, only_status) <= u64::MAX,
            total == sum_status_durs(s.take(i as int), only_status),
        decreases entries.len() - i,
    {
        proof {
            assert(s.take(i + 1).drop_last() =~= s.take(i as int));
            assert(s.take(i + 1).last() == s[i as int]);
            lemma_sum_status_take_le(s, i + 1, only_status);
        }
        let e = &entries[i];
        let matches_status = match (e.status, only_status) {
            (EntryStatus::Active, EntryStatus::Active) => true,
            (EntryStatus::Idle, EntryStatus::Idle) => true,
            (EntryStatus::Uninitialized, EntryStatus::Uninitialized) => true,
            _ => false,
        };
        if matches_status {
            total = total + e.duration_seconds;
        }
        i = i + 1;
    }
    proof {
        assert(s.take(entries@.len() as int) =~= s);
    }
    total
}

/// Lexicographic order on character sequences, by code point.
pub open spec fn lex_le(a: Seq<char>, b: Seq<char>) -> bool
    decreases a.len(),
{
    if a.len() == 0 {
        true
    } else if b.len() == 0 {
        false
    } else if (a[0] as int) < (b[0] as int) {
        true
    } else if a[0] == b[0] {
        lex_le(a.skip(1), b.skip(1))
    } else {
        false
    }
}

/// Lexicographic order is total: of two sequences, one is less than
/// or equal to the other.
pub proof fn lemma_lex_le_total(a: Seq<char>, b: Seq<char>)
    ensures
        lex_le(a, b) || lex_le(b, a),
    decreases a.len(),
{
    if a.len() > 0 && b.len() > 0 && a[0] == b[0] {
        lemma_lex_le_total(a.skip(1), b.skip(1));
    }
}

/// Lexicographic order is transitive.
pub proof fn lemma_lex_le_trans(a: Seq<char>, b: Seq<char>, c: Seq<char>)
    requires
        lex_le(a, b),
        lex_le(b, c),
    ensures
        lex_le(a, c),
    decreases a.len(),
{
    if a.len() > 0 && b.len() > 0 && c.len() > 0 && a[0] == b[0] && b[0] == c[0] {
        lemma_lex_le_trans(a.skip(1), b.skip(1), c.skip(1));
    }
}

/// Compares two strings lexicographically by code point.
pub fn string_lex_le(a: &String, b: &String) -> (r: bool)
    ensures
        r == lex_le(a@, b@),
{
    let a_len = a.as_str().unicode_len();
    let b_len = b.as_str().unicode_len();
    let mut i: usize = 0;
    proof {
        assert(a@.skip(0) =~= a@);
        assert(b@.skip(0) =~= b@);
    }
    loop
        invariant
            0 <= i,
            i <= a_len,
            i <= b_len,
            a_len == a@.len(),
            b_len == b@.len(),
            lex_le(a@, b@) == lex_le(a@.skip(i as int), b@.skip(i as int)),
        decreases a_len - i,
    {
        if i == a_len {
            proof {
                assert(a@.skip(i as int).len() == 0);
            }
            return true;
        }
        if i == b_len {
            proof {
                assert(b@.skip(i as int).len() == 0);
                assert(a@.skip(i as int).len() > 0);
            }
            return false;
        }
        let ca = a.as_str().get_char(i);
        let cb = b.as_str().get_char(i);
        proof {
            assert(a@.skip(i as int)[0] == a@[i as int]);
            assert(b@.skip(i as int)[0] == b@[i as int]);
            assert(a@.skip(i as int).skip(1) =~= a@.skip(i + 1));
            assert(b@.skip(i as int).skip(1) =~= b@.skip(i + 1));
        }
        if (ca as u32) < (cb as u32) {
            return true;
        }
        if ca != cb {
            return false;
        }
        i = i + 1;
    }
}

/// Inserting an element anywhere adds it to the sequence's multiset.
proof fn lemma_insert_to_multiset<A>(s: Seq<A>, pos: int, x: A)
    requires
        0 <= pos <= s.len(),
    ensures
        s.insert(pos, x).to_multiset() == s.to_multiset().insert(x),
{
    broadcast use vstd::seq_lib::group_to_multiset_ensures;

    let left = s.subrange(0, pos);
    let right = s.subrange(pos, s.len() as int);
    vstd::seq_lib::lemma_multiset_commutative(left.push(x), right);
    vstd::seq_lib::lemma_multiset_commutative(left, right);
    assert(left + right =~= s);
    assert(left.push(x).to_multiset() =~= left.to_multiset().insert(x));
    assert(s.insert(pos, x).to_multiset() =~= s.to_multiset().insert(x));
}

/// Whether a sequence of strings is sorted lexicographically.
pub open spec fn lex_sorted(s: Seq<Seq<char>>) -> bool {
    forall|i: int, j: int| 0 <= i < j < s.len() ==> lex_le(#[trigger] s[i], #[trigger] s[j])
}

/// Sorts strings lexicographically by code point: the result is a
/// sorted rearrangement of the input.
pub fn sort_strings(values: &Vec<String>) -> (r: Vec<String>)
    ensures
        lex_sorted(r.deep_view()),
        r.deep_view().to_multiset() == values.deep_view().to_multiset(),
{
    let ghost input = values.deep_view();
    let mut out: Vec<String> = Vec::new();
    let mut i: usize = 0;
    proof {
        broadcast use vstd::seq_lib::group_to_multiset_ensures;

        assert(out.deep_view() =~= Seq::<Seq<char>>::empty());
        assert(input.take(0) =~= Seq::<Seq<char>>::empty());
        assert(out.deep_view().to_multiset() =~= input.take(0).to_multiset());
    }
    while i < values.len()
        invariant
            0 <= i <= values.len(),
            input == values.deep_view(),
            input.len() == values@.len(),
            forall|k: int| 0 <= k < input.len() ==> #[trigger] input[k] == values@[k]@,
            lex_sorted(out.deep_view()),
            out.deep_view().to_multiset() == input.take(i as int).to_multiset(),
        decreases values.len() - i,
    {
        let x = values[i].clone();
        let pos = find_insert_position(&out, &x);
        let ghost before = out.deep_view();
        proof {
            broadcast use vstd::seq_lib::group_to_multiset_ensures;

            lemma_insert_to_multiset(before, pos as int, x@);
            assert(input.take(i + 1).drop_last() =~= input.take(i as int));
            assert(input.take(i + 1).last() == input[i as int]);
            assert(input.take(i + 1) =~= input.take(i as int).push(input[i as int]));
        }
        out.insert(pos, x);
        proof {
            let after = out.deep_view();
            assert(after =~= before.insert(pos as int, x@));
            assert forall|i2: int, j2: int| 0 <= i2 < j2 < after.len() implies lex_le(
                #[trigger] after[i2],
                #[trigger] after[j2],
            ) by {
                before.insert_ensures(pos as int, x@);
                if i2 == pos {
                    if j2 > pos {
                        lemma_lex_le_total(x@, before[pos as int]);
                        if j2 - 1 > pos {
                            lemma_lex_le_trans(x@, before[pos as int], before[j2 - 1]);
                        }
                    }
                }
            }
        }
        i = i + 1;
    }
    proof {
        assert(input.take(input.len() as int) =~= input);
    }
    out
}

/// The position before the first element that `x` precedes: every
/// earlier element is at most `x`, and the element at the position
/// (when there is one) is strictly after `x`.
fn find_insert_position(out: &Vec<String>, x: &String) -> (pos: usize)
    ensures
        0 <= pos <= out@.len(),
        forall|k: int| 0 <= k < pos ==> lex_le(#[trigger] out.deep_view()[k], x@),
        pos < out@.len() ==> !lex_le(out.deep_view()[pos as int], x@),
{
    let mut pos: usize = 0;
    while pos < out.len()
        invariant
            0 <= pos <= out@.len(),
            forall|k: int| 0 <= k < pos ==> lex_le(#[trigger] out.deep_view()[k], x@),
        decreases out@.len() - pos,
    {
        if !string_lex_le(&out[pos], x) {
            proof {
                assert(out.deep_view()[pos as int] == out@[pos as int]@);
            }
            return pos;
        }
        proof {
            assert(out.deep_view()[pos as int] == out@[pos as int]@);
        }
        pos = pos + 1;
    }
    pos
}


/// Whether a sequence of numbers is sorted ascending.
pub open spec fn nums_sorted(s: Seq<u64>) -> bool {
    forall|i: int, j: int| 0 <= i < j < s.len() ==> #[trigger] s[i] <= #[trigger] s[j]
}

/// Sorts numeric map keys ascending: the result is a sorted
/// rearrangement of the input.
pub fn get_map_keys_sorted_general(map_keys: &Vec<u64>) -> (r: Vec<u64>)
    ensures
        nums_sorted(r@),
        r@.to_multiset() == map_keys@.to_multiset(),
{
    let ghost input = map_keys@;
    let mut out: Vec<u64> = Vec::new();
    let mut i: usize = 0;
    proof {
        broadcast use vstd::seq_lib::group_to_multiset_ensures;

        assert(input.take(0) =~= Seq::<u64>::empty());
        assert(out@.to_multiset() =~= input.take(0).to_multiset());
    }
    while i < map_keys.len()
        invariant
            0 <= i <= map_keys.len(),
            input == map_keys@,
            nums_sorted(out@),
            out@.to_multiset() == input.take(i as int).to_multiset(),
        decreases map_keys.len() - i,
    {
        let x = map_keys[i];
        let pos = find_insert_position_u64(&out, x);
        proof {
            broadcast use vstd::seq_lib::group_to_multiset_ensures;

            lemma_insert_to_multiset(out@, pos as int, x);
            assert(input.take(i + 1).drop_last() =~= input.take(i as int));
            assert(input.take(i + 1).last() == input[i as int]);
            assert(input.take(i + 1) =~= input.take(i as int).push(input[i as int]));
        }
        let ghost before = out@;
        out.insert(pos, x);
        proof {
            assert(out@ =~= before.insert(pos as int, x));
            assert forall|i2: int, j2: int| 0 <= i2 < j2 < out@.len() implies #[trigger] out@[i2]
                <= #[trigger] out@[j2] by {
                before.insert_ensures(pos as int, x);
            }
        }
        i = i + 1;
    }
    proof {
        assert(input.take(input.len() as int) =~= input);
    }
    out
}

/// The position before the first element larger than `x`: every
/// earlier element is at most `x`, and the element at the position
/// (when there is one) is strictly larger.
fn find_insert_position_u64(out: &Vec<u64>, x: u64) -> (pos: usize)
    ensures
        0 <= pos <= out@.len(),
        forall|k: int| 0 <= k < pos ==> #[trigger] out@[k] <= x,
        pos < out@.len() ==> out@[pos as int] > x,
{
    let mut pos: usize = 0;
    while pos < out.len()
        invariant
            0 <= pos <= out@.len(),
            forall|k: int| 0 <= k < pos ==> #[trigger] out@[k] <= x,
        decreases out@.len() - pos,
    {
        if out[pos] > x {
            return pos;
        }
        pos = pos + 1;
    }
    pos
}

/// The non-empty texts of a sequence, in order.
pub open spec fn nonempty_texts(s: Seq<Seq<char>>) -> Seq<Seq<char>>
    decreases s.len(),
{
    if s.len() == 0 {
        Seq::empty()
    } else {
        let rest = nonempty_texts(s.drop_last());
        if s.last().len() != 0 {
            rest.push(s.last())
        } else {
            rest
        }
    }
}

/// The empty texts of a sequence.
pub open spec fn empty_texts(s: Seq<Seq<char>>) -> Seq<Seq<char>>
    decreases s.len(),
{
    if s.len() == 0 {
        Seq::empty()
    } else {
        let rest = empty_texts(s.drop_last());
        if s.last().len() == 0 {
            rest.push(s.last())
        } else {
            rest
        }
    }
}

/// Splitting a sequence into its non-empty and empty texts loses
/// nothing: together they carry the sequence's multiset.
proof fn lemma_split_texts_multiset(s: Seq<Seq<char>>)
    ensures
        nonempty_texts(s).to_multiset().add(empty_texts(s).to_multiset()) == s.to_multiset(),
    decreases s.len(),
{
    broadcast use vstd::seq_lib::group_to_multiset_ensures;

    if s.len() == 0 {
        assert(nonempty_texts(s).to_multiset().add(empty_texts(s).to_multiset())
            =~= s.to_multiset());
    } else {
        lemma_split_texts_multiset(s.drop_last());
        assert(s =~= s.drop_last().push(s.last()));
        assert(s.to_multiset() =~= s.drop_last().to_multiset().insert(s.last()));
        assert(nonempty_texts(s).to_multiset().add(empty_texts(s).to_multiset())
            =~= s.to_multiset());
    }
}

/// The display order of grouping keys: lexicographic, with the empty
/// ("unknown") key after every named key.
pub open spec fn display_key_le(a: Seq<char>, b: Seq<char>) -> bool {
    if a.len() == 0 {
        b.len() == 0
    } else if b.len() == 0 {
        true
    } else {
        lex_le(a, b)
    }
}

/// Sorts string map keys for display: lexicographically, with the
/// empty ("unknown") key placed last. The result is a rearrangement
/// of the input.
pub fn get_map_keys_sorted_strings(map_keys: &Vec<String>) -> (r: Vec<String>)
    ensures
        r.deep_view().to_multiset() == map_keys.deep_view().to_multiset(),
        forall|i: int, j: int|
            0 <= i < j < r.deep_view().len() ==> display_key_le(
                #[trigger] r.deep_view()[i],
                #[trigger] r.deep_view()[j],
            ),
{
    let ghost input = map_keys.deep_view();
    let mut kept: Vec<String> = Vec::new();
    let mut empties: Vec<String> = Vec::new();
    let mut i: usize = 0;
    proof {
        assert(kept.deep_view() =~= Seq::<Seq<char>>::empty());
        assert(empties.deep_view() =~= Seq::<Seq<char>>::empty());
        assert(input.take(0) =~= Seq::<Seq<char>>::empty());
        assert(kept.deep_view() =~= nonempty_texts(input.take(0)));
        assert(empties.deep_view() =~= empty_texts(input.take(0)));
    }
    while i < map_keys.len()
        invariant
            0 <= i <= map_keys.len(),
            input == map_keys.deep_view(),
            input.len() == map_keys@.len(),
            forall|k: int| 0 <= k < input.len() ==> #[trigger] input[k] == map_keys@[k]@,
            kept.deep_view() == nonempty_texts(input.take(i as int)),
            empties.deep_view() == empty_texts(input.take(i as int)),
            forall|k: int|
                0 <= k < kept.deep_view().len() ==> #[trigger] kept.deep_view()[k].len() != 0,
            forall|k: int|
                0 <= k < empties.deep_view().len() ==> #[trigger] empties.deep_view()[k].len()
                    == 0,
        decreases map_keys.len() - i,
    {
        proof {
            assert(input.take(i + 1).drop_last() =~= input.take(i as int));
            assert(input.take(i + 1).last() == input[i as int]);
        }
        if !map_keys[i].as_str().is_empty() {
            let ghost before = kept.deep_view();
            kept.push(map_keys[i].clone());
            proof {
                assert(kept.deep_view() =~= before.push(input[i as int]));
            }
        } else {
            let ghost before = empties.deep_view();
            empties.push(map_keys[i].clone());
            proof {
                assert(empties.deep_view() =~= before.push(input[i as int]));
            }
        }
        i = i + 1;
    }
    proof {
        assert(input.take(input.len() as int) =~= input);
    }
    let mut result = sort_strings(&kept);
    let ghost sorted_part = result.deep_view();
    let ghost empty_part = empties.deep_view();
    proof {
        broadcast use vstd::seq_lib::group_to_multiset_ensures;

        lemma_split_texts_multiset(input);
        assert forall|k: int| 0 <= k < sorted_part.len() implies #[trigger] sorted_part[k].len()
            != 0 by {
            assert(sorted_part.contains(sorted_part[k]));
            assert(sorted_part.to_multiset().count(sorted_part[k]) > 0);
            assert(kept.deep_view().to_multiset().count(sorted_part[k]) > 0);
            assert(kept.deep_view().contains(sorted_part[k]));
        }
        vstd::seq_lib::lemma_multiset_commutative(sorted_part, empty_part);
    }
    result.append(&mut empties);
    proof {
        assert(result.deep_view() =~= sorted_part + empty_part);
        assert((sorted_part + empty_part).to_multiset() =~= input.to_multiset());
        assert forall|i2: int, j2: int|
            0 <= i2 < j2 < result.deep_view().len() implies display_key_le(
            #[trigger] result.deep_view()[i2],
            #[trigger] result.deep_view()[j2],
        ) by {
            let dv = result.deep_view();
            if j2 < sorted_part.len() {
                assert(dv[i2] == sorted_part[i2]);
                assert(dv[j2] == sorted_part[j2]);
            } else if i2 < sorted_part.len() {
                assert(dv[i2] == sorted_part[i2]);
                assert(dv[j2] == empty_part[j2 - sorted_part.len()]);
            } else {
                assert(dv[i2] == empty_part[i2 - sorted_part.len()]);
                assert(dv[j2] == empty_part[j2 - sorted_part.len()]);
            }
        }
    }
    result
}

/// Sorts string map keys for display, the empty key last; the short
/// name used by older report code.
pub fn get_map_keys_sorted(map_keys: &Vec<String>) -> (r: Vec<String>)
    ensures
        r.deep_view().to_multiset() == map_keys.deep_view().to_multiset(),
        forall|i: int, j: int|
            0 <= i < j < r.deep_view().len() ==> display_key_le(
                #[trigger] r.deep_view()[i],
                #[trigger] r.deep_view()[j],
            ),
{
    get_map_keys_sorted_strings(map_keys)
}



/// The grouping key one entry's record yields for the selectors.
pub open spec fn group_key(rec: VarsView, vars: Seq<VariableKind>) -> Seq<char> {
    join_texts_from(value_texts(rec, vars), 0)
}

/// The display values one entry's record yields for the selectors.
pub open spec fn group_vals(rec: VarsView, vars: Seq<VariableKind>) -> Seq<Seq<char>> {
    nonempty_values_from(value_texts(rec, vars), 0)
}

/// The first index holding the key, or the length when absent.
pub open spec fn find_group(
    groups: Seq<(Seq<char>, Seq<Seq<char>>, int)>,
    key: Seq<char>,
) -> int
    decreases groups.len(),
{
    if groups.len() == 0 {
        0
    } else if groups[0].0 == key {
        0
    } else {
        1 + find_group(groups.skip(1), key)
    }
}

/// `find_group` returns the position of the first match, or the
/// length when there is none.
pub proof fn lemma_find_group(
    groups: Seq<(Seq<char>, Seq<Seq<char>>, int)>,
    key: Seq<char>,
    i: int,
)
    requires
        0 <= i <= groups.len(),
        forall|k: int| 0 <= k < i ==> #[trigger] groups[k].0 != key,
        i < groups.len() ==> groups[i].0 == key,
    ensures
        find_group(groups, key) == i,
    decreases i,
{
    if i == 0 {
    } else {
        assert(groups[0].0 != key);
        assert forall|k: int| 0 <= k < i - 1 implies #[trigger] groups.skip(1)[k].0 != key by {
            assert(groups.skip(1)[k] == groups[k + 1]);
        }
        assert(i - 1 < groups.skip(1).len() ==> groups.skip(1)[i - 1].0 == key);
        lemma_find_group(groups.skip(1), key, i - 1);
    }
}

/// One grouping step: the entry's duration is added to its key's
/// group, whose display values are refreshed from this entry; an
/// unseen key opens a new group at the end.
pub open spec fn group_upsert(
    groups: Seq<(Seq<char>, Seq<Seq<char>>, int)>,
    key: Seq<char>,
    vals: Seq<Seq<char>>,
    dur: int,
) -> Seq<(Seq<char>, Seq<Seq<char>>, int)> {
    let j = find_group(groups, key);
    if j < groups.len() {
        groups.update(j, (key, vals, groups[j].2 + dur))
    } else {
        groups.push((key, vals, dur))
    }
}

/// The groups that the entries with the given status form under the
/// selectors, in order of first appearance of each key.
pub open spec fn groups_spec(
    s: Seq<EntryView>,
    vars: Seq<VariableKind>,
    st: EntryStatus,
) -> Seq<(Seq<char>, Seq<Seq<char>>, int)>
    decreases s.len(),
{
    if s.len() == 0 {
        Seq::empty()
    } else {
        let acc = groups_spec(s.drop_last(), vars, st);
        let e = s.last();
        if e.status != st {
            acc
        } else {
            group_upsert(acc, group_key(e.vars, vars), group_vals(e.vars, vars), e.duration_seconds)
        }
    }
}

/// The total duration over all groups.
pub open spec fn sum_group_totals(groups: Seq<(Seq<char>, Seq<Seq<char>>, int)>) -> int
    decreases groups.len(),
{
    if groups.len() == 0 {
        0
    } else {
        sum_group_totals(groups.drop_last()) + groups.last().2
    }
}

proof fn lemma_sum_totals_update(
    groups: Seq<(Seq<char>, Seq<Seq<char>>, int)>,
    j: int,
    v: (Seq<char>, Seq<Seq<char>>, int),
)
    requires
        0 <= j < groups.len(),
    ensures
        sum_group_totals(groups.update(j, v)) == sum_group_totals(groups) - groups[j].2 + v.2,
    decreases groups.len(),
{
    if j == groups.len() - 1 {
        assert(groups.update(j, v).drop_last() =~= groups.drop_last());
        assert(groups.update(j, v).last() == v);
    } else {
        assert(groups.update(j, v).drop_last() =~= groups.drop_last().update(j, v));
        assert(groups.update(j, v).last() == groups.last());
        lemma_sum_totals_update(groups.drop_last(), j, v);
    }
}

proof fn lemma_sum_totals_push(
    groups: Seq<(Seq<char>, Seq<Seq<char>>, int)>,
    v: (Seq<char>, Seq<Seq<char>>, int),
)
    ensures
        sum_group_totals(groups.push(v)) == sum_group_totals(groups) + v.2,
{
    assert(groups.push(v).drop_last() =~= groups);
    assert(groups.push(v).last() == v);
}

proof fn lemma_group_le_sum(groups: Seq<(Seq<char>, Seq<Seq<char>>, int)>, j: int)
    requires
        0 <= j < groups.len(),
        forall|k: int| 0 <= k < groups.len() ==> #[trigger] groups[k].2 >= 0,
    ensures
        groups[j].2 <= sum_group_totals(groups),
    decreases groups.len(),
{
    assert forall|k: int|
        0 <= k < groups.drop_last().len() implies #[trigger] groups.drop_last()[k].2 >= 0 by {
        assert(groups.drop_last()[k] == groups[k]);
    }
    if j == groups.len() - 1 {
        lemma_sum_totals_nonneg(groups.drop_last());
    } else {
        assert(groups.drop_last()[j] == groups[j]);
        assert(groups.last().2 >= 0);
        lemma_group_le_sum(groups.drop_last(), j);
    }
}

proof fn lemma_sum_totals_nonneg(groups: Seq<(Seq<char>, Seq<Seq<char>>, int)>)
    requires
        forall|k: int| 0 <= k < groups.len() ==> #[trigger] groups[k].2 >= 0,
    ensures
        sum_group_totals(groups) >= 0,
    decreases groups.len(),
{
    if groups.len() > 0 {
        lemma_sum_totals_nonneg(groups.drop_last());
    }
}

/// The views of a vector of groups.
pub open spec fn group_views(s: Seq<(String, Vec<String>, u64)>) -> Seq<
    (Seq<char>, Seq<Seq<char>>, int),
> {
    s.map_values(|g: (String, Vec<String>, u64)| (g.0@, g.1.deep_view(), g.2 as int))
}

/// The first group index holding `key`, or the group count.
fn find_group_index(groups: &Vec<(String, Vec<String>, u64)>, key: &String) -> (j: usize)
    ensures
        0 <= j <= groups@.len(),
        j as int == find_group(group_views(groups@), key@),
        j < groups@.len() ==> group_views(groups@)[j as int].0 == key@,
{
    let ghost gv = group_views(groups@);
    let mut j: usize = 0;
    while j < groups.len()
        invariant
            0 <= j <= groups@.len(),
            gv == group_views(groups@),
            gv.len() == groups@.len(),
            forall|k: int| 0 <= k < gv.len() ==> #[trigger] gv[k].0 == groups@[k].0@,
            forall|k: int| 0 <= k < j ==> #[trigger] gv[k].0 != key@,
        decreases groups@.len() - j,
    {
        if groups[j].0 == *key {
            proof {
                lemma_find_group(gv, key@, j as int);
            }
            return j;
        }
        j = j + 1;
    }
    proof {
        lemma_find_group(gv, key@, j as int);
    }
    j
}

/// Groups the entries with the given status by the key their
/// selected variable values form, summing durations per group; a
/// group's display values are those of its most recent entry, and
/// entries whose selected values are all absent share the empty key.
/// Groups come in order of first appearance of their key.
pub fn sum_entry_variables_duration(
    entries: &[Entry],
    variables: &[Variable],
    only_status: EntryStatus,
) -> (r: Vec<(String, Vec<String>, u64)>)
    requires
        sum_status_durs(views_of(entries@), only_status) <= u64::MAX,
    ensures
        group_views(r@) == groups_spec(
            views_of(entries@),
            variable_views(variables@),
            only_status,
        ),
{
    let ghost s = views_of(entries@);
    let ghost vars = variable_views(variables@);
    proof {
        assert forall|k: int| 0 <= k < s.len() implies #[trigger] s[k].duration_seconds >= 0 by {
            assert(s[k] == entries@[k]@);
        }
        assert(s.take(0) =~= Seq::<EntryView>::empty());
    }
    let mut groups: Vec<(String, Vec<String>, u64)> = Vec::new();
    let mut i: usize = 0;
    proof {
        assert(group_views(groups@) =~= Seq::<(Seq<char>, Seq<Seq<char>>, int)>::empty());
    }
    while i < entries.len()
        invariant
            0 <= i <= entries.len(),
            s == views_of(entries@),
            vars == variable_views(variables@),
            s.len() == entries@.len(),
            forall|k: int| 0 <= k < s.len() ==> #[trigger] s[k] == entries@[k]@,
            forall|k: int| 0 <= k < s.len() ==> #[trigger] s[k].duration_seconds >= 0,
            sum_status_durs(s, only_status) <= u64::MAX,
            group_views(groups@) == groups_spec(s.take(i as int), vars, only_status),
            sum_group_totals(group_views(groups@)) == sum_status_durs(s.take(i as int), only_status),
            forall|k: int|
                0 <= k < group_views(groups@).len() ==> #[trigger] group_views(groups@)[k].2 >= 0,
        decreases entries.len() - i,
    {
        proof {
            assert(s.take(i + 1).drop_last() =~= s.take(i as int));
            assert(s.take(i + 1).last() == s[i as int]);
            lemma_sum_status_take_le(s, i + 1, only_status);
        }
        let e = &entries[i];
        let matches_status = match (e.status, only_status) {
            (EntryStatus::Active, EntryStatus::Active) => true,
            (EntryStatus::Idle, EntryStatus::Idle) => true,
            (EntryStatus::Uninitialized, EntryStatus::Uninitialized) => true,
            _ => false,
        };
        if matches_status {
            let key = crate::variable::combine_variable_values(e, variables);
            let vals = crate::variable::multi_variable_values(e, variables);
            let ghost gv = group_views(groups@);
            let j = find_group_index(&groups, &key);
            if j < groups.len() {
                let total = groups[j].2;
                proof {
                    lemma_group_le_sum(gv, j as int);
                    lemma_sum_totals_update(
                        gv,
                        j as int,
                        (key@, vals.deep_view(), gv[j as int].2 + e@.duration_seconds),
                    );
                }
                let added = total + e.duration_seconds;
                groups.set(j, (key, vals, added));
                proof {
                    assert(group_views(groups@) =~= gv.update(
                        j as int,
                        (key@, vals.deep_view(), gv[j as int].2 + s[i as int].duration_seconds),
                    ));
                }
            } else {
                proof {
                    lemma_sum_totals_push(
                        gv,
                        (key@, vals.deep_view(), s[i as int].duration_seconds),
                    );
                }
                groups.push((key, vals, e.duration_seconds));
                proof {
                    assert(group_views(groups@) =~= gv.push(
                        (key@, vals.deep_view(), s[i as int].duration_seconds),
                    ));
                }
            }
        }
        i = i + 1;
    }
    proof {
        assert(s.take(entries@.len() as int) =~= s);
    }
    groups
}

/// Groups the entries with the given status by executable name,
/// summing durations per executable.
pub fn sum_entry_executable_duration(entries: &[Entry], only_status: EntryStatus) -> (r: Vec<
    (String, Vec<String>, u64),
>)
    requires
        sum_status_durs(views_of(entries@), only_status) <= u64::MAX,
    ensures
        group_views(r@) == groups_spec(
            views_of(entries@),
            seq![VariableKind::Executable],
            only_status,
        ),
{
    let mut variables: Vec<Variable> = Vec::new();
    variables.push(Variable::Executable);
    proof {
        assert(variable_views(variables@) =~= seq![VariableKind::Executable]);
    }
    sum_entry_variables_duration(entries, variables.as_slice(), only_status)
}



/// The first index holding the bucket key, or the length.
pub open spec fn find_bucket(hist: Seq<(int, int)>, key: int) -> int
    decreases hist.len(),
{
    if hist.len() == 0 {
        0
    } else if hist[0].0 == key {
        0
    } else {
        1 + find_bucket(hist.skip(1), key)
    }
}

/// `find_bucket` returns the position of the first match, or the
/// length when there is none.
pub proof fn lemma_find_bucket(hist: Seq<(int, int)>, key: int, i: int)
    requires
        0 <= i <= hist.len(),
        forall|k: int| 0 <= k < i ==> #[trigger] hist[k].0 != key,
        i < hist.len() ==> hist[i].0 == key,
    ensures
        find_bucket(hist, key) == i,
    decreases i,
{
    if i > 0 {
        assert(hist[0].0 != key);
        assert forall|k: int| 0 <= k < i - 1 implies #[trigger] hist.skip(1)[k].0 != key by {
            assert(hist.skip(1)[k] == hist[k + 1]);
        }
        assert(i - 1 < hist.skip(1).len() ==> hist.skip(1)[i - 1].0 == key);
        lemma_find_bucket(hist.skip(1), key, i - 1);
    }
}

/// A key that occurs somewhere is found before the end.
pub proof fn lemma_find_bucket_found(hist: Seq<(int, int)>, key: int, j: int)
    requires
        0 <= j < hist.len(),
        hist[j].0 == key,
    ensures
        find_bucket(hist, key) < hist.len(),
    decreases j,
{
    if hist[0].0 == key {
    } else {
        assert(j != 0);
        assert(hist.skip(1)[j - 1] == hist[j]);
        lemma_find_bucket_found(hist.skip(1), key, j - 1);
    }
}

/// Whether the histogram already holds the bucket.
pub open spec fn has_bucket(hist: Seq<(int, int)>, key: int) -> bool {
    find_bucket(hist, key) < hist.len()
}

/// One accumulation step: the duration is added to the bucket, which
/// is opened with it when unseen.
pub open spec fn bucket_upsert(hist: Seq<(int, int)>, key: int, dur: int) -> Seq<(int, int)> {
    let j = find_bucket(hist, key);
    if j < hist.len() {
        hist.update(j, (key, hist[j].1 + dur))
    } else {
        hist.push((key, dur))
    }
}

/// The bucket totals after the first `i` entries: each matching
/// entry's duration accumulated into the time block its local minute
/// of day falls in. Buckets come in order of first appearance.
pub open spec fn hist_acc(
    s: Seq<EntryView>,
    tods: Seq<u64>,
    i: int,
    inc: int,
    st: EntryStatus,
) -> Seq<(int, int)>
    decreases i,
{
    if i <= 0 {
        Seq::empty()
    } else {
        let acc = hist_acc(s, tods, i - 1, inc, st);
        if s[i - 1].status != st {
            acc
        } else {
            bucket_upsert(acc, block_start(tods[i - 1] as int, inc), s[i - 1].duration_seconds)
        }
    }
}

/// Every bucket clamped to the block's own width: a bucket cannot
/// report more seconds than it physically holds.
pub open spec fn clamp_hist(hist: Seq<(int, int)>, cap: int) -> Seq<(int, int)> {
    hist.map_values(
        |b: (int, int)|
            (
                b.0,
                if b.1 > cap {
                    cap
                } else {
                    b.1
                },
            ),
    )
}

/// The smallest bucket key.
pub open spec fn min_bucket_key(hist: Seq<(int, int)>) -> int
    decreases hist.len(),
{
    if hist.len() <= 1 {
        if hist.len() == 1 {
            hist[0].0
        } else {
            0
        }
    } else {
        let rest = min_bucket_key(hist.drop_last());
        if hist.last().0 < rest {
            hist.last().0
        } else {
            rest
        }
    }
}

/// The largest bucket key.
pub open spec fn max_bucket_key(hist: Seq<(int, int)>) -> int
    decreases hist.len(),
{
    if hist.len() <= 1 {
        if hist.len() == 1 {
            hist[0].0
        } else {
            0
        }
    } else {
        let rest = max_bucket_key(hist.drop_last());
        if hist.last().0 > rest {
            hist.last().0
        } else {
            rest
        }
    }
}

/// The zero-duration buckets that fill the gaps: one for every block
/// start from `b` up to `maxb` that the histogram does not hold.
pub open spec fn gap_buckets(hist: Seq<(int, int)>, b: int, maxb: int, inc: int) -> Seq<
    (int, int),
>
    decreases maxb + inc - b,
{
    if inc <= 0 || b > maxb {
        Seq::empty()
    } else {
        let rest = gap_buckets(hist, b + inc, maxb, inc);
        if has_bucket(hist, b) {
            rest
        } else {
            seq![(b, 0int)] + rest
        }
    }
}

/// The histogram of the entries with the given status: duration per
/// time block of the local minute of day, clamped to the block
/// width, and — when `fill` is set — followed by a zero bucket for
/// every block between the earliest and latest observed bucket that
/// saw no duration.
pub open spec fn histogram_spec(
    s: Seq<EntryView>,
    tods: Seq<u64>,
    inc: int,
    fill: bool,
    st: EntryStatus,
) -> Seq<(int, int)> {
    let acc = hist_acc(s, tods, s.len() as int, inc, st);
    let clamped = clamp_hist(acc, inc * 60);
    if fill && clamped.len() > 0 {
        clamped + gap_buckets(
            clamped,
            min_bucket_key(clamped),
            max_bucket_key(clamped),
            inc,
        )
    } else {
        clamped
    }
}

/// The total duration over all buckets.
pub open spec fn sum_bucket_totals(hist: Seq<(int, int)>) -> int
    decreases hist.len(),
{
    if hist.len() == 0 {
        0
    } else {
        sum_bucket_totals(hist.drop_last()) + hist.last().1
    }
}

proof fn lemma_sum_buckets_update(hist: Seq<(int, int)>, j: int, v: (int, int))
    requires
        0 <= j < hist.len(),
    ensures
        sum_bucket_totals(hist.update(j, v)) == sum_bucket_totals(hist) - hist[j].1 + v.1,
    decreases hist.len(),
{
    if j == hist.len() - 1 {
        assert(hist.update(j, v).drop_last() =~= hist.drop_last());
        assert(hist.update(j, v).last() == v);
    } else {
        assert(hist.update(j, v).drop_last() =~= hist.drop_last().update(j, v));
        assert(hist.update(j, v).last() == hist.last());
        lemma_sum_buckets_update(hist.drop_last(), j, v);
    }
}

proof fn lemma_sum_buckets_push(hist: Seq<(int, int)>, v: (int, int))
    ensures
        sum_bucket_totals(hist.push(v)) == sum_bucket_totals(hist) + v.1,
{
    assert(hist.push(v).drop_last() =~= hist);
    assert(hist.push(v).last() == v);
}

proof fn lemma_sum_buckets_nonneg(hist: Seq<(int, int)>)
    requires
        forall|k: int| 0 <= k < hist.len() ==> #[trigger] hist[k].1 >= 0,
    ensures
        sum_bucket_totals(hist) >= 0,
    decreases hist.len(),
{
    if hist.len() > 0 {
        lemma_sum_buckets_nonneg(hist.drop_last());
    }
}

proof fn lemma_bucket_le_sum(hist: Seq<(int, int)>, j: int)
    requires
        0 <= j < hist.len(),
        forall|k: int| 0 <= k < hist.len() ==> #[trigger] hist[k].1 >= 0,
    ensures
        hist[j].1 <= sum_bucket_totals(hist),
    decreases hist.len(),
{
    assert forall|k: int|
        0 <= k < hist.drop_last().len() implies #[trigger] hist.drop_last()[k].1 >= 0 by {
        assert(hist.drop_last()[k] == hist[k]);
    }
    if j == hist.len() - 1 {
        lemma_sum_buckets_nonneg(hist.drop_last());
    } else {
        assert(hist.drop_last()[j] == hist[j]);
        assert(hist.last().1 >= 0);
        lemma_bucket_le_sum(hist.drop_last(), j);
    }
}

/// The views of a vector of buckets.
pub open spec fn bucket_views(s: Seq<(u64, u64)>) -> Seq<(int, int)> {
    s.map_values(|b: (u64, u64)| (b.0 as int, b.1 as int))
}

/// The first bucket index holding `key`, or the bucket count.
fn find_bucket_index(hist: &Vec<(u64, u64)>, key: u64) -> (j: usize)
    ensures
        0 <= j <= hist@.len(),
        j as int == find_bucket(bucket_views(hist@), key as int),
        j < hist@.len() ==> bucket_views(hist@)[j as int].0 == key as int,
{
    let ghost hv = bucket_views(hist@);
    let mut j: usize = 0;
    while j < hist.len()
        invariant
            0 <= j <= hist@.len(),
            hv == bucket_views(hist@),
            hv.len() == hist@.len(),
            forall|k: int| 0 <= k < hv.len() ==> #[trigger] hv[k].0 == hist@[k].0 as int,
            forall|k: int| 0 <= k < j ==> #[trigger] hv[k].0 != key as int,
        decreases hist@.len() - j,
    {
        if hist[j].0 == key {
            proof {
                lemma_find_bucket(hv, key as int, j as int);
            }
            return j;
        }
        j = j + 1;
    }
    proof {
        lemma_find_bucket(hv, key as int, j as int);
    }
    j
}

/// Builds the activity histogram from the entries and their local
/// minutes of day (one per entry, as the machine's time zone gave
/// them): duration per time block for the entries with the given
/// status, clamped to the block width, with gap blocks materialized
/// at zero when `fill_datetimes_gaps` is set.
pub fn activity_histogram_of(
    entries: &[Entry],
    times_of_day: &Vec<u64>,
    fill_datetimes_gaps: bool,
    time_block_unit: TimeBlockUnit,
    only_status: EntryStatus,
) -> (r: Vec<(u64, u64)>)
    requires
        times_of_day@.len() == entries@.len(),
        forall|k: int| 0 <= k < times_of_day@.len() ==> #[trigger] times_of_day@[k] < 1440,
        sum_status_durs(views_of(entries@), only_status) <= u64::MAX,
    ensures
        bucket_views(r@) == histogram_spec(
            views_of(entries@),
            times_of_day@,
            time_block_unit.as_minutes_spec(),
            fill_datetimes_gaps,
            only_status,
        ),
{
    let ghost s = views_of(entries@);
    let ghost tods = times_of_day@;
    let ghost inc_spec = time_block_unit.as_minutes_spec();
    let increment_minutes = time_block_unit.as_minutes();
    proof {
        assert forall|k: int| 0 <= k < s.len() implies #[trigger] s[k].duration_seconds >= 0 by {
            assert(s[k] == entries@[k]@);
        }
        assert(s.take(0) =~= Seq::<EntryView>::empty());
    }
    let mut hist: Vec<(u64, u64)> = Vec::new();
    let mut i: usize = 0;
    proof {
        assert(bucket_views(hist@) =~= Seq::<(int, int)>::empty());
    }
    while i < entries.len()
        invariant
            0 <= i <= entries.len(),
            s == views_of(entries@),
            tods == times_of_day@,
            inc_spec == time_block_unit.as_minutes_spec(),
            increment_minutes == inc_spec,
            0 < increment_minutes <= 60,
            s.len() == entries@.len(),
            tods.len() == s.len(),
            forall|k: int| 0 <= k < s.len() ==> #[trigger] s[k] == entries@[k]@,
            forall|k: int| 0 <= k < s.len() ==> #[trigger] s[k].duration_seconds >= 0,
            forall|k: int| 0 <= k < tods.len() ==> #[trigger] tods[k] < 1440,
            sum_status_durs(s, only_status) <= u64::MAX,
            bucket_views(hist@) == hist_acc(s, tods, i as int, inc_spec, only_status),
            sum_bucket_totals(bucket_views(hist@)) == sum_status_durs(
                s.take(i as int),
                only_status,
            ),
            forall|k: int|
                0 <= k < bucket_views(hist@).len() ==> #[trigger] bucket_views(hist@)[k].1 >= 0,
            forall|k: int|
                0 <= k < bucket_views(hist@).len() ==> 0 <= #[trigger] bucket_views(hist@)[k].0
                    < 1440,
        decreases entries.len() - i,
    {
        proof {
            assert(s.take(i + 1).drop_last() =~= s.take(i as int));
            assert(s.take(i + 1).last() == s[i as int]);
            lemma_sum_status_take_le(s, i + 1, only_status);
        }
        let e = &entries[i];
        let matches_status = match (e.status, only_status) {
            (EntryStatus::Active, EntryStatus::Active) => true,
            (EntryStatus::Idle, EntryStatus::Idle) => true,
            (EntryStatus::Uninitialized, EntryStatus::Uninitialized) => true,
            _ => false,
        };
        if matches_status {
            let key = round_to_time_block(times_of_day[i], time_block_unit);
            let ghost hv = bucket_views(hist@);
            let j = find_bucket_index(&hist, key);
            if j < hist.len() {
                let total = hist[j].1;
                proof {
                    lemma_bucket_le_sum(hv, j as int);
                    lemma_sum_buckets_update(
                        hv,
                        j as int,
                        (key as int, hv[j as int].1 + s[i as int].duration_seconds),
                    );
                }
                let added = total + e.duration_seconds;
                hist.set(j, (key, added));
                proof {
                    assert(bucket_views(hist@) =~= hv.update(
                        j as int,
                        (key as int, hv[j as int].1 + s[i as int].duration_seconds),
                    ));
                }
            } else {
                proof {
                    lemma_sum_buckets_push(hv, (key as int, s[i as int].duration_seconds));
                }
                hist.push((key, e.duration_seconds));
                proof {
                    assert(bucket_views(hist@) =~= hv.push(
                        (key as int, s[i as int].duration_seconds),
                    ));
                }
            }
        }
        i = i + 1;
    }
    proof {
        assert(s.take(s.len() as int) =~= s);
    }
    let ghost acc = bucket_views(hist@);

    // Clamp every bucket to the block's own width in seconds.
    let cap = increment_minutes * 60;
    let mut j: usize = 0;
    while j < hist.len()
        invariant
            0 <= j <= hist@.len(),
            cap == inc_spec * 60,
            acc.len() == hist@.len(),
            forall|k: int| 0 <= k < acc.len() ==> #[trigger] acc[k].1 >= 0,
            forall|k: int| 0 <= k < acc.len() ==> 0 <= #[trigger] acc[k].0 < 1440,
            forall|k: int|
                j <= k < acc.len() ==> #[trigger] bucket_views(hist@)[k] == acc[k],
            forall|k: int|
                0 <= k < j ==> #[trigger] bucket_views(hist@)[k] == (
                acc[k].0,
                if acc[k].1 > cap {
                    cap as int
                } else {
                    acc[k].1
                },
            ),
        decreases hist@.len() - j,
    {
        let ghost hv = bucket_views(hist@);
        if hist[j].1 > cap {
            let key = hist[j].0;
            proof {
                assert(hv[j as int] == acc[j as int]);
                assert(hv[j as int] == (hist@[j as int].0 as int, hist@[j as int].1 as int));
            }
            hist.set(j, (key, cap));
            proof {
                assert(bucket_views(hist@) =~= hv.update(j as int, (key as int, cap as int)));
                assert(bucket_views(hist@)[j as int] == (acc[j as int].0, cap as int));
                assert(acc[j as int].1 > cap);
            }
        } else {
            proof {
                assert(hv[j as int] == acc[j as int]);
                assert(hv[j as int] == (hist@[j as int].0 as int, hist@[j as int].1 as int));
                assert(acc[j as int].1 <= cap);
            }
        }
        j = j + 1;
    }
    proof {
        assert(bucket_views(hist@) =~= clamp_hist(acc, inc_spec * 60));
    }
    let ghost clamped = clamp_hist(acc, inc_spec * 60);

    if fill_datetimes_gaps && hist.len() > 0 {
        // Find the earliest and latest observed buckets.
        let mut min_key: u64 = hist[0].0;
        let mut max_key: u64 = hist[0].0;
        let mut j: usize = 1;
        proof {
            assert forall|k: int| 0 <= k < clamped.len() implies #[trigger] clamped[k] == (
                hist@[k].0 as int,
                hist@[k].1 as int,
            ) by {
                assert(bucket_views(hist@)[k] == (hist@[k].0 as int, hist@[k].1 as int));
            }
            assert forall|k: int| 0 <= k < clamped.len() implies 0 <= #[trigger] clamped[k].0
                < 1440 by {
                assert(clamped[k] == (acc[k].0, clamped[k].1));
            }
            assert(clamped.take(1).len() == 1);
            assert(clamped.take(1)[0] == clamped[0]);
            assert(min_bucket_key(clamped.take(1)) == clamped[0].0);
            assert(max_bucket_key(clamped.take(1)) == clamped[0].0);
        }
        while j < hist.len()
            invariant
                1 <= j <= hist@.len(),
                clamped == bucket_views(hist@),
                clamped.len() == hist@.len(),
                forall|k: int|
                    0 <= k < clamped.len() ==> #[trigger] clamped[k].0 == hist@[k].0 as int,
                forall|k: int| 0 <= k < clamped.len() ==> 0 <= #[trigger] clamped[k].0 < 1440,
                min_key as int == min_bucket_key(clamped.take(j as int)),
                max_key as int == max_bucket_key(clamped.take(j as int)),
                min_key < 1440,
                max_key < 1440,
            decreases hist@.len() - j,
        {
            proof {
                assert(clamped.take(j + 1).drop_last() =~= clamped.take(j as int));
                assert(clamped.take(j + 1).last() == clamped[j as int]);
            }
            let key = hist[j].0;
            if key < min_key {
                min_key = key;
            }
            if key > max_key {
                max_key = key;
            }
            j = j + 1;
        }
        proof {
            assert(clamped.take(clamped.len() as int) =~= clamped);
        }

        // Materialize every absent block between them at zero.
        let base_len = hist.len();
        let ghost full_gaps = gap_buckets(clamped, min_key as int, max_key as int, inc_spec);
        let ghost mut emitted: Seq<(int, int)> = Seq::empty();
        let mut b: u64 = min_key;
        proof {
            assert(bucket_views(hist@) =~= clamped + emitted);
            assert(full_gaps =~= emitted + gap_buckets(
                clamped,
                b as int,
                max_key as int,
                inc_spec,
            ));
        }
        while b <= max_key
            invariant
                inc_spec == time_block_unit.as_minutes_spec(),
                increment_minutes == inc_spec,
                0 < increment_minutes <= 60,
                max_key < 1440,
                base_len == clamped.len(),
                base_len <= hist@.len(),
                clamped == clamp_hist(acc, inc_spec * 60),
                bucket_views(hist@) == clamped + emitted,
                forall|k: int| 0 <= k < clamped.len() ==> #[trigger] clamped[k] == (
                hist@[k].0 as int,
                hist@[k].1 as int,
                ),
                full_gaps == gap_buckets(clamped, min_key as int, max_key as int, inc_spec),
                full_gaps == emitted + gap_buckets(clamped, b as int, max_key as int, inc_spec),
            decreases max_key + increment_minutes - b,
        {
            let ghost hv = bucket_views(hist@);
            let mut present = false;
            let mut j: usize = 0;
            while j < base_len
                invariant
                    0 <= j <= base_len,
                    base_len == clamped.len(),
                    base_len <= hist@.len(),
                    bucket_views(hist@) == clamped + emitted,
                    forall|k: int| 0 <= k < clamped.len() ==> #[trigger] clamped[k] == (
                    hist@[k].0 as int,
                    hist@[k].1 as int,
                    ),
                    present ==> has_bucket(clamped, b as int),
                    !present ==> forall|k: int| 0 <= k < j ==> #[trigger] clamped[k].0 != b as int,
                decreases base_len - j,
            {
                if hist[j].0 == b {
                    proof {
                        assert(clamped[j as int].0 == b as int);
                        lemma_find_bucket_found(clamped, b as int, j as int);
                    }
                    present = true;
                    j = base_len;
                } else {
                    proof {
                        assert(clamped[j as int].0 != b as int);
                    }
                    j = j + 1;
                }
            }
            proof {
                if !present {
                    lemma_find_bucket(clamped, b as int, clamped.len() as int);
                    assert(!has_bucket(clamped, b as int));
                }
            }
            if !present {
                hist.push((b, 0));
                proof {
                    assert(bucket_views(hist@) =~= hv.push((b as int, 0int)));
                    emitted = emitted.push((b as int, 0));
                    assert(bucket_views(hist@) =~= clamped + emitted);
                    assert(emitted + gap_buckets(clamped, b + inc_spec, max_key as int, inc_spec)
                        =~= emitted.drop_last() + (seq![(b as int, 0int)] + gap_buckets(
                        clamped,
                        b + inc_spec,
                        max_key as int,
                        inc_spec,
                    )));
                }
            }
            b = b + increment_minutes;
        }
        proof {
            assert(gap_buckets(clamped, b as int, max_key as int, inc_spec) =~= Seq::<
                (int, int),
            >::empty());
            assert(full_gaps =~= emitted);
            assert(bucket_views(hist@) =~= clamped + full_gaps);
        }
    }
    hist
}



/// Builds the activity histogram of the entries with the given
/// status, converting each entry's timestamp to the machine's local
/// time zone. Whatever minutes of day that conversion yields, the
/// result is exactly their histogram: clamped per-block totals, gap
/// blocks at zero when `fill_datetimes_gaps` is set.
pub fn sum_entry_activity_duration(
    entries: &[Entry],
    fill_datetimes_gaps: bool,
    time_block_unit: TimeBlockUnit,
    only_status: EntryStatus,
) -> (r: Vec<(u64, u64)>)
    requires
        sum_status_durs(views_of(entries@), only_status) <= u64::MAX,
    ensures
        exists|tods: Seq<u64>|
            tods.len() == entries@.len() && (forall|k: int| 0 <= k < tods.len() ==> tods[k] < 1440)
                && bucket_views(r@) == #[trigger] histogram_spec(
                views_of(entries@),
                tods,
                time_block_unit.as_minutes_spec(),
                fill_datetimes_gaps,
                only_status,
            ),
{
    let mut times_of_day: Vec<u64> = Vec::new();
    let mut i: usize = 0;
    while i < entries.len()
        invariant
            0 <= i <= entries.len(),
            times_of_day@.len() == i,
            forall|k: int| 0 <= k < times_of_day@.len() ==> #[trigger] times_of_day@[k] < 1440,
        decreases entries.len() - i,
    {
        times_of_day.push(local_minutes_of_day(entries[i].utc_time_seconds));
        i = i + 1;
    }
    let r = activity_histogram_of(
        entries,
        &times_of_day,
        fill_datetimes_gaps,
        time_block_unit,
        only_status,
    );
    proof {
        assert(bucket_views(r@) == histogram_spec(
            views_of(entries@),
            times_of_day@,
            time_block_unit.as_minutes_spec(),
            fill_datetimes_gaps,
            only_status,
        ));
    }
    r
}


} // verus!
