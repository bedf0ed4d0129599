//! Column layout for report lines: aligning line starts, middle
//! columns and line ends with space padding, exactly as specified.
use vstd::prelude::*;

verus! {

/// `n` spaces.
pub open spec fn pad_spaces(n: int) -> Seq<char> {
    Seq::new(n as nat, |i: int| ' ')
}

/// The longest text's length, 0 for an empty list.
pub open spec fn max_text_len(items: Seq<Seq<char>>) -> int
    decreases items.len(),
{
    if items.len() == 0 {
        0
    } else {
        let rest = max_text_len(items.drop_last());
        if items.last().len() > rest {
            items.last().len() as int
        } else {
            rest
        }
    }
}

/// The texts of a list of strings.
pub open spec fn texts_of(s: Seq<String>) -> Seq<Seq<char>> {
    s.map_values(|t: String| t@)
}

/// `n` spaces as a string.
fn spaces(n: usize) -> (r: String)
    ensures
        r@ == pad_spaces(n as int),
{
    let mut s = String::new();
    let mut i: usize = 0;
    proof {
        reveal_strlit(" ");
        assert(s@ =~= pad_spaces(0));
    }
    while i < n
        invariant
            0 <= i <= n,
            s@ == pad_spaces(i as int),
        decreases n - i,
    {
        s.append(" ");
        proof {
            reveal_strlit(" ");
            assert(" "@ =~= seq![' ']);
            assert(s@ =~= pad_spaces(i + 1));
        }
        i = i + 1;
    }
    s
}

/// The length of the longest string, in characters.
pub fn get_longest_string(values: &[String]) -> (r: usize)
    ensures
        r == max_text_len(texts_of(values@)),
{
    let ghost texts = texts_of(values@);
    let mut max_width: usize = 0;
    let mut i: usize = 0;
    proof {
        assert(texts.take(0) =~= Seq::<Seq<char>>::empty());
    }
    while i < values.len()
        invariant
            0 <= i <= values@.len(),
            texts == texts_of(values@),
            texts.len() == values@.len(),
            forall|k: int| 0 <= k < texts.len() ==> #[trigger] texts[k] == values@[k]@,
            max_width as int == max_text_len(texts.take(i as int)),
        decreases values@.len() - i,
    {
        proof {
            assert(texts.take(i + 1).drop_last() =~= texts.take(i as int));
            assert(texts.take(i + 1).last() == texts[i as int]);
        }
        let w = values[i].as_str().unicode_len();
        if w > max_width {
            max_width = w;
        }
        i = i + 1;
    }
    proof {
        assert(texts.take(texts.len() as int) =~= texts);
    }
    max_width
}

/// One aligned two-column line: the start, spaces up to the longest
/// start, the separator, and the end.
pub open spec fn aligned_pair_line(
    start: Seq<char>,
    end: Seq<char>,
    max_start: int,
    middle: Seq<char>,
) -> Seq<char> {
    start + pad_spaces(max_start - start.len()) + middle + end
}

/// Appends one aligned line per start/end pair: each start is padded
/// with spaces to the longest start's width, then the separator and
/// the end follow. Pairing stops at the shorter list.
pub fn combine_start_end_lines(
    lines: &mut Vec<String>,
    lines_start: &[String],
    lines_end: &[String],
    middle_string: &str,
)
    ensures
        final(lines).deep_view() == old(lines).deep_view() + Seq::new(
            (if lines_start@.len() <= lines_end@.len() {
                lines_start@.len()
            } else {
                lines_end@.len()
            }) as nat,
            |i: int|
                aligned_pair_line(
                    texts_of(lines_start@)[i],
                    texts_of(lines_end@)[i],
                    max_text_len(texts_of(lines_start@)),
                    middle_string@,
                ),
    ),
{
    let ghost starts = texts_of(lines_start@);
    let ghost ends = texts_of(lines_end@);
    let ghost maxs = max_text_len(starts);
    let line_start_max_width = get_longest_string(lines_start);
    let n = if lines_start.len() <= lines_end.len() {
        lines_start.len()
    } else {
        lines_end.len()
    };
    let ghost target = Seq::new(
        n as nat,
        |i: int| aligned_pair_line(starts[i], ends[i], maxs, middle_string@),
    );
    let mut i: usize = 0;
    proof {
        assert(old(lines).deep_view() + target.take(0) =~= old(lines).deep_view());
        assert forall|k: int| 0 <= k < starts.len() implies #[trigger] starts[k]
            == lines_start@[k]@ by {}
        assert forall|k: int| 0 <= k < ends.len() implies #[trigger] ends[k] == lines_end@[k]@ by {}
        assert forall|k: int| 0 <= k < starts.len() implies #[trigger] starts[k].len()
            <= maxs by {
            lemma_max_text_len_bound(starts, k);
        }
    }
    while i < n
        invariant
            0 <= i <= n,
            n == if lines_start@.len() <= lines_end@.len() {
                lines_start@.len()
            } else {
                lines_end@.len()
            },
            starts == texts_of(lines_start@),
            ends == texts_of(lines_end@),
            maxs == max_text_len(starts),
            starts.len() == lines_start@.len(),
            ends.len() == lines_end@.len(),
            forall|k: int| 0 <= k < starts.len() ==> #[trigger] starts[k] == lines_start@[k]@,
            forall|k: int| 0 <= k < ends.len() ==> #[trigger] ends[k] == lines_end@[k]@,
            forall|k: int| 0 <= k < starts.len() ==> #[trigger] starts[k].len() <= maxs,
            line_start_max_width as int == maxs,
            target == Seq::new(
                n as nat,
                |k: int| aligned_pair_line(starts[k], ends[k], maxs, middle_string@),
            ),
            lines.deep_view() == old(lines).deep_view() + target.take(i as int),
        decreases n - i,
    {
        let start_item = &lines_start[i];
        let start_width = start_item.as_str().unicode_len();
        proof {
            assert(starts[i as int].len() <= maxs);
        }
        let mut line = start_item.clone();
        let pad = spaces(line_start_max_width - start_width);
        line.append(pad.as_str());
        line.append(middle_string);
        line.append(lines_end[i].as_str());
        let ghost before = lines.deep_view();
        proof {
            assert(line@ =~= target[i as int]);
        }
        lines.push(line);
        proof {
            assert(lines.deep_view() =~= before.push(target[i as int]));
            assert(old(lines).deep_view() + target.take(i + 1) =~= before.push(target[i as int]));
        }
        i = i + 1;
    }
    proof {
        assert(target.take(n as int) =~= target);
    }
}

/// Every text is at most the longest text's length.
pub proof fn lemma_max_text_len_bound(items: Seq<Seq<char>>, k: int)
    requires
        0 <= k < items.len(),
    ensures
        items[k].len() <= max_text_len(items),
    decreases items.len(),
{
    if k == items.len() - 1 {
        lemma_max_text_len_nonneg(items.drop_last());
    } else {
        assert(items.drop_last()[k] == items[k]);
        lemma_max_text_len_bound(items.drop_last(), k);
    }
}

/// The longest length is never negative.
pub proof fn lemma_max_text_len_nonneg(items: Seq<Seq<char>>)
    ensures
        max_text_len(items) >= 0,
    decreases items.len(),
{
    if items.len() > 0 {
        lemma_max_text_len_nonneg(items.drop_last());
    }
}

/// One aligned seven-column line: the start and the five middle
/// columns each padded to their column's width and closed by a
/// separator (the last middle column by `end_sep`), then the end.
pub open spec fn aligned_columns_line(
    start: Seq<char>,
    m1: Seq<char>,
    m2: Seq<char>,
    m3: Seq<char>,
    m4: Seq<char>,
    m5: Seq<char>,
    end: Seq<char>,
    w0: int,
    w1: int,
    w2: int,
    w3: int,
    w4: int,
    w5: int,
    mid_sep: Seq<char>,
    end_sep: Seq<char>,
) -> Seq<char> {
    start + pad_spaces(w0 - start.len()) + mid_sep + m1 + pad_spaces(w1 - m1.len()) + mid_sep + m2
        + pad_spaces(w2 - m2.len()) + mid_sep + m3 + pad_spaces(w3 - m3.len()) + mid_sep + m4
        + pad_spaces(w4 - m4.len()) + mid_sep + m5 + pad_spaces(w5 - m5.len()) + end_sep + end
}

/// Appends one aligned seven-column line per row: the start column
/// and five middle columns are each padded to their column's longest
/// width; `middle_string` closes the first six columns except the
/// last middle one, which `end_string` closes before the line end.
pub fn combine_start_mid_end_lines(
    lines: &mut Vec<String>,
    lines_start: &[String],
    lines_mid1: &[String],
    lines_mid2: &[String],
    lines_mid3: &[String],
    lines_mid4: &[String],
    lines_mid5: &[String],
    lines_end: &[String],
    middle_string: &str,
    end_string: &str,
)
    requires
        lines_mid1@.len() == lines_start@.len(),
        lines_mid2@.len() == lines_start@.len(),
        lines_mid3@.len() == lines_start@.len(),
        lines_mid4@.len() == lines_start@.len(),
        lines_mid5@.len() == lines_start@.len(),
        lines_end@.len() == lines_start@.len(),
    ensures
        final(lines).deep_view() == old(lines).deep_view() + Seq::new(
            lines_start@.len(),
            |i: int|
                aligned_columns_line(
                    texts_of(lines_start@)[i],
                    texts_of(lines_mid1@)[i],
                    texts_of(lines_mid2@)[i],
                    texts_of(lines_mid3@)[i],
                    texts_of(lines_mid4@)[i],
                    texts_of(lines_mid5@)[i],
                    texts_of(lines_end@)[i],
                    max_text_len(texts_of(lines_start@)),
                    max_text_len(texts_of(lines_mid1@)),
                    max_text_len(texts_of(lines_mid2@)),
                    max_text_len(texts_of(lines_mid3@)),
                    max_text_len(texts_of(lines_mid4@)),
                    max_text_len(texts_of(lines_mid5@)),
                    middle_string@,
                    end_string@,
                ),
    ),
{
    let ghost starts = texts_of(lines_start@);
    let ghost m1s = texts_of(lines_mid1@);
    let ghost m2s = texts_of(lines_mid2@);
    let ghost m3s = texts_of(lines_mid3@);
    let ghost m4s = texts_of(lines_mid4@);
    let ghost m5s = texts_of(lines_mid5@);
    let ghost ends = texts_of(lines_end@);
    let w0 = get_longest_string(lines_start);
    let w1 = get_longest_string(lines_mid1);
    let w2 = get_longest_string(lines_mid2);
    let w3 = get_longest_string(lines_mid3);
    let w4 = get_longest_string(lines_mid4);
    let w5 = get_longest_string(lines_mid5);
    let n = lines_start.len();
    let ghost target = Seq::new(
        lines_start@.len(),
        |i: int|
            aligned_columns_line(
                starts[i],
                m1s[i],
                m2s[i],
                m3s[i],
                m4s[i],
                m5s[i],
                ends[i],
                max_text_len(starts),
                max_text_len(m1s),
                max_text_len(m2s),
                max_text_len(m3s),
                max_text_len(m4s),
                max_text_len(m5s),
                middle_string@,
                end_string@,
            ),
    );
    let mut i: usize = 0;
    proof {
        assert(old(lines).deep_view() + target.take(0) =~= old(lines).deep_view());
        assert forall|k: int| 0 <= k < starts.len() implies #[trigger] starts[k].len()
            <= max_text_len(starts) by {
            lemma_max_text_len_bound(starts, k);
        }
        assert forall|k: int| 0 <= k < m1s.len() implies #[trigger] m1s[k].len() <= max_text_len(
            m1s,
        ) by {
            lemma_max_text_len_bound(m1s, k);
        }
        assert forall|k: int| 0 <= k < m2s.len() implies #[trigger] m2s[k].len() <= max_text_len(
            m2s,
        ) by {
            lemma_max_text_len_bound(m2s, k);
        }
        assert forall|k: int| 0 <= k < m3s.len() implies #[trigger] m3s[k].len() <= max_text_len(
            m3s,
        ) by {
            lemma_max_text_len_bound(m3s, k);
        }
        assert forall|k: int| 0 <= k < m4s.len() implies #[trigger] m4s[k].len() <= max_text_len(
            m4s,
        ) by {
            lemma_max_text_len_bound(m4s, k);
        }
        assert forall|k: int| 0 <= k < m5s.len() implies #[trigger] m5s[k].len() <= max_text_len(
            m5s,
        ) by {
            lemma_max_text_len_bound(m5s, k);
        }
    }
    while i < n
        invariant
            0 <= i <= n,
            n == lines_start@.len(),
            starts == texts_of(lines_start@),
            m1s == texts_of(lines_mid1@),
            m2s == texts_of(lines_mid2@),
            m3s == texts_of(lines_mid3@),
            m4s == texts_of(lines_mid4@),
            m5s == texts_of(lines_mid5@),
            ends == texts_of(lines_end@),
            starts.len() == n && m1s.len() == n && m2s.len() == n && m3s.len() == n && m4s.len()
                == n && m5s.len() == n && ends.len() == n,
            w0 as int == max_text_len(starts),
            w1 as int == max_text_len(m1s),
            w2 as int == max_text_len(m2s),
            w3 as int == max_text_len(m3s),
            w4 as int == max_text_len(m4s),
            w5 as int == max_text_len(m5s),
            forall|k: int| 0 <= k < n ==> #[trigger] starts[k] == lines_start@[k]@,
            forall|k: int| 0 <= k < n ==> #[trigger] m1s[k] == lines_mid1@[k]@,
            forall|k: int| 0 <= k < n ==> #[trigger] m2s[k] == lines_mid2@[k]@,
            forall|k: int| 0 <= k < n ==> #[trigger] m3s[k] == lines_mid3@[k]@,
            forall|k: int| 0 <= k < n ==> #[trigger] m4s[k] == lines_mid4@[k]@,
            forall|k: int| 0 <= k < n ==> #[trigger] m5s[k] == lines_mid5@[k]@,
            forall|k: int| 0 <= k < n ==> #[trigger] ends[k] == lines_end@[k]@,
            forall|k: int| 0 <= k < n ==> #[trigger] starts[k].len() <= w0,
            forall|k: int| 0 <= k < n ==> #[trigger] m1s[k].len() <= w1,
            forall|k: int| 0 <= k < n ==> #[trigger] m2s[k].len() <= w2,
            forall|k: int| 0 <= k < n ==> #[trigger] m3s[k].len() <= w3,
            forall|k: int| 0 <= k < n ==> #[trigger] m4s[k].len() <= w4,
            forall|k: int| 0 <= k < n ==> #[trigger] m5s[k].len() <= w5,
            target == Seq::new(
                n as nat,
                |k: int|
                    aligned_columns_line(
                        starts[k],
                        m1s[k],
                        m2s[k],
                        m3s[k],
                        m4s[k],
                        m5s[k],
                        ends[k],
                        w0 as int,
                        w1 as int,
                        w2 as int,
                        w3 as int,
                        w4 as int,
                        w5 as int,
                        middle_string@,
                        end_string@,
                    ),
            ),
            lines.deep_view() == old(lines).deep_view() + target.take(i as int),
        decreases n - i,
    {
        proof {
            assert(starts[i as int].len() <= w0);
            assert(m1s[i as int].len() <= w1);
            assert(m2s[i as int].len() <= w2);
            assert(m3s[i as int].len() <= w3);
            assert(m4s[i as int].len() <= w4);
            assert(m5s[i as int].len() <= w5);
        }
        let mut line = lines_start[i].clone();
        let pad = spaces(w0 - lines_start[i].as_str().unicode_len());
        line.append(pad.as_str());
        line.append(middle_string);
        line.append(lines_mid1[i].as_str());
        let pad = spaces(w1 - lines_mid1[i].as_str().unicode_len());
        line.append(pad.as_str());
        line.append(middle_string);
        line.append(lines_mid2[i].as_str());
        let pad = spaces(w2 - lines_mid2[i].as_str().unicode_len());
        line.append(pad.as_str());
        line.append(middle_string);
        line.append(lines_mid3[i].as_str());
        let pad = spaces(w3 - lines_mid3[i].as_str().unicode_len());
        line.append(pad.as_str());
        line.append(middle_string);
        line.append(lines_mid4[i].as_str());
        let pad = spaces(w4 - lines_mid4[i].as_str().unicode_len());
        line.append(pad.as_str());
        line.append(middle_string);
        line.append(lines_mid5[i].as_str());
        let pad = spaces(w5 - lines_mid5[i].as_str().unicode_len());
        line.append(pad.as_str());
        line.append(end_string);
        line.append(lines_end[i].as_str());
        let ghost before = lines.deep_view();
        proof {
            assert(line@ =~= target[i as int]);
        }
        lines.push(line);
        proof {
            assert(lines.deep_view() =~= before.push(target[i as int]));
            assert(old(lines).deep_view() + target.take(i + 1) =~= before.push(target[i as int]));
        }
        i = i + 1;
    }
    proof {
        assert(target.take(n as int) =~= target);
    }
}

} // verus!
