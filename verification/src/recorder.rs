//! The recorder's pure decisions: parsing the owning user id out of
//! a process's login-uid file, and the retry policy the writer
//! thread follows when the store is contended.
use vstd::prelude::*;

verus! {

/// Why a process file's contents were rejected.
#[derive(Debug, Copy, Clone, PartialEq, Eq, Structural)]
pub enum ProcFileError {
    /// The field does not hold a decimal user id.
    InvalidUserId,
}

/// Whether a character is an ASCII whitespace character.
pub open spec fn is_space_char(c: char) -> bool {
    c == ' ' || c == '\t' || c == '\n' || c == '\r'
}

/// Whether a character is a decimal digit.
pub open spec fn is_dec_digit(c: char) -> bool {
    '0' as int <= c as int <= '9' as int
}

/// A digit character's value.
pub open spec fn digit_value(c: char) -> int {
    c as int - '0' as int
}

/// The sequence with its leading whitespace removed.
pub open spec fn trim_start_spec(s: Seq<char>) -> Seq<char>
    decreases s.len(),
{
    if s.len() > 0 && is_space_char(s[0]) {
        trim_start_spec(s.skip(1))
    } else {
        s
    }
}

/// The sequence with its trailing whitespace removed.
pub open spec fn trim_end_spec(s: Seq<char>) -> Seq<char>
    decreases s.len(),
{
    if s.len() > 0 && is_space_char(s.last()) {
        trim_end_spec(s.drop_last())
    } else {
        s
    }
}

/// The sequence with whitespace removed from both ends.
pub open spec fn trim_spec(s: Seq<char>) -> Seq<char> {
    trim_end_spec(trim_start_spec(s))
}

/// The value of a digit sequence read as a decimal number.
pub open spec fn dec_value(s: Seq<char>) -> int
    decreases s.len(),
{
    if s.len() == 0 {
        0
    } else {
        dec_value(s.drop_last()) * 10 + digit_value(s.last())
    }
}

/// Whether every character is a decimal digit.
pub open spec fn all_digits(s: Seq<char>) -> bool {
    forall|k: int| 0 <= k < s.len() ==> is_dec_digit(#[trigger] s[k])
}

/// The digits after an optional leading plus sign.
pub open spec fn unsigned_body(s: Seq<char>) -> Seq<char> {
    if s.len() > 0 && s[0] == '+' {
        s.skip(1)
    } else {
        s
    }
}

/// Whether a text reads as a decimal `u32`: at least one digit after
/// an optional leading `+`, with a value in range.
pub open spec fn is_u32_text(s: Seq<char>) -> bool {
    let body = unsigned_body(s);
    body.len() > 0 && all_digits(body) && dec_value(body) <= u32::MAX
}

/// A digit sequence's value never shrinks as digits are appended.
proof fn lemma_dec_value_take_le(s: Seq<char>, i: int)
    requires
        0 <= i <= s.len(),
        all_digits(s),
    ensures
        dec_value(s.take(i)) <= dec_value(s),
        dec_value(s.take(i)) >= 0,
    decreases s.len() - i,
{
    if i == s.len() {
        assert(s.take(i) =~= s);
        lemma_dec_value_nonneg(s);
    } else {
        assert(s.take(i + 1).drop_last() =~= s.take(i));
        assert(s.take(i + 1).last() == s[i]);
        lemma_dec_value_take_le(s, i + 1);
    }
}

proof fn lemma_dec_value_nonneg(s: Seq<char>)
    requires
        all_digits(s),
    ensures
        dec_value(s) >= 0,
    decreases s.len(),
{
    if s.len() > 0 {
        assert forall|k: int| 0 <= k < s.drop_last().len() implies is_dec_digit(
            #[trigger] s.drop_last()[k],
        ) by {
            assert(s.drop_last()[k] == s[k]);
        }
        lemma_dec_value_nonneg(s.drop_last());
    }
}

/// Parses a decimal `u32`, accepting an optional leading `+`:
/// `Some` exactly when the text reads as one.
pub fn parse_u32_text(s: &str) -> (r: Option<u32>)
    ensures
        r is Some <==> is_u32_text(s@),
        r is Some ==> r->0 == dec_value(unsigned_body(s@)),
{
    let len = s.unicode_len();
    let mut start: usize = 0;
    if len > 0 && s.get_char(0) == '+' {
        start = 1;
    }
    let ghost body = unsigned_body(s@);
    proof {
        if start == 1 {
            assert(body =~= s@.skip(1));
        } else {
            assert(body =~= s@);
        }
    }
    if start == len {
        return None;
    }
    let mut value: u64 = 0;
    let mut i: usize = start;
    proof {
        assert(body.take(0) =~= Seq::<char>::empty());
    }
    while i < len
        invariant
            start <= i <= len,
            start <= 1,
            len == s@.len(),
            start < len,
            body == unsigned_body(s@),
            body.len() == len - start,
            forall|k: int| 0 <= k < body.len() ==> #[trigger] body[k] == s@[k + start],
            forall|k: int| 0 <= k < i - start ==> is_dec_digit(#[trigger] body[k]),
            value <= u32::MAX,
            value as int == dec_value(body.take(i - start)),
        decreases len - i,
    {
        let c = s.get_char(i);
        let code = c as u32;
        if code < 48 || code > 57 {
            proof {
                assert(body[i - start] == s@[i as int]);
                assert(!is_dec_digit(body[i - start]));
            }
            return None;
        }
        let d = (code - 48) as u64;
        proof {
            assert(body.take(i - start + 1).drop_last() =~= body.take(i - start));
            assert(body.take(i - start + 1).last() == body[i - start]);
            assert(digit_value(body[i - start]) == d);
        }
        let next = value * 10 + d;
        if next > 0xFFFF_FFFF {
            proof {
                if all_digits(body) {
                    lemma_dec_value_take_le(body, i - start + 1);
                }
            }
            return None;
        }
        value = next;
        i = i + 1;
    }
    proof {
        assert(body.take(len - start) =~= body);
    }
    Some(value as u32)
}

/// The text up to, but not including, the first NUL character, or
/// the whole text when it holds none.
pub open spec fn first_nul_field(s: Seq<char>) -> Seq<char> {
    match s.index_of_first('\u{0}') {
        Some(i) => s.take(i),
        None => s,
    }
}

/// Whether a character is ASCII whitespace.
fn space_char(c: char) -> (r: bool)
    ensures
        r == is_space_char(c),
{
    c == ' ' || c == '\t' || c == '\n' || c == '\r'
}

/// Trims ASCII whitespace from both ends of a text.
pub fn trim_text(s: &str) -> (r: &str)
    ensures
        r@ == trim_spec(s@),
{
    let len = s.unicode_len();
    let mut a: usize = 0;
    proof {
        assert(s@.skip(0) =~= s@);
    }
    while a < len && space_char(s.get_char(a))
        invariant
            0 <= a <= len,
            len == s@.len(),
            trim_start_spec(s@) == trim_start_spec(s@.skip(a as int)),
        decreases len - a,
    {
        proof {
            assert(s@.skip(a as int)[0] == s@[a as int]);
            assert(s@.skip(a as int).skip(1) =~= s@.skip(a + 1));
        }
        a = a + 1;
    }
    proof {
        if a < len {
            assert(s@.skip(a as int)[0] == s@[a as int]);
        }
        assert(trim_start_spec(s@) == s@.skip(a as int));
    }
    let mut b: usize = len;
    proof {
        let part = s@.skip(a as int);
        assert(part.take(part.len() as int) =~= part);
    }
    while b > a && space_char(s.get_char(b - 1))
        invariant
            a <= b <= len,
            len == s@.len(),
            trim_start_spec(s@) == s@.skip(a as int),
            trim_end_spec(s@.skip(a as int)) == trim_end_spec(s@.skip(a as int).take(b - a)),
        decreases b,
    {
        proof {
            let part = s@.skip(a as int);
            assert(part.take(b - a).last() == s@[b - 1]);
            assert(part.take(b - a).drop_last() =~= part.take(b - a - 1));
        }
        b = b - 1;
    }
    proof {
        let part = s@.skip(a as int);
        if b > a {
            assert(part.take(b - a).last() == s@[b - 1]);
        }
        assert(trim_end_spec(part) == part.take(b - a));
        assert(part.take(b - a) =~= s@.subrange(a as int, b as int));
    }
    s.substring_char(a, b)
}

/// Parses the owning user id out of a login-uid file's contents:
/// the first NUL-separated field, trimmed, read as a decimal `u32`.
/// Anything else is rejected as malformed.
pub fn parse_loginuid_file_contents(file_content: &String) -> (r: Result<u32, ProcFileError>)
    ensures
        r is Ok <==> is_u32_text(trim_spec(first_nul_field(file_content@))),
        r is Ok ==> r->Ok_0 == dec_value(
            unsigned_body(trim_spec(first_nul_field(file_content@))),
        ),
        r is Err ==> r->Err_0 == ProcFileError::InvalidUserId,
{
    let s = file_content.as_str();
    let len = s.unicode_len();
    let mut i: usize = 0;
    while i < len && s.get_char(i) != '\u{0}'
        invariant
            0 <= i <= len,
            len == s@.len(),
            forall|j: int| 0 <= j < i ==> s@[j] != '\u{0}',
        decreases len - i,
    {
        i = i + 1;
    }
    let field_end = i;
    proof {
        s@.index_of_first_ensures('\u{0}');
        if field_end == len {
            assert(s@.take(len as int) =~= s@);
        } else {
            assert(s@[field_end as int] == '\u{0}');
        }
        assert(s@.subrange(0, field_end as int) =~= s@.take(field_end as int));
        assert(s@.subrange(0, field_end as int) == first_nul_field(s@));
    }
    let field = s.substring_char(0, field_end);
    let trimmed = trim_text(field);
    match parse_u32_text(trimmed) {
        Some(v) => Ok(v),
        None => Err(ProcFileError::InvalidUserId),
    }
}

/// Parses the owning user id out of a login-uid file's contents; the
/// guarded name used by the recorder's process scan.
pub fn _parse_loginuid_file_contents(file_content: &String) -> (r: Result<u32, ProcFileError>)
    ensures
        r is Ok <==> is_u32_text(trim_spec(first_nul_field(file_content@))),
        r is Ok ==> r->Ok_0 == dec_value(
            unsigned_body(trim_spec(first_nul_field(file_content@))),
        ),
        r is Err ==> r->Err_0 == ProcFileError::InvalidUserId,
{
    parse_loginuid_file_contents(file_content)
}

/// The wall-clock budget for one round of write retries: four fifths
/// of the time until the next flush, so the retries stop before the
/// next round begins.
pub fn write_retry_budget_seconds(record_interval_seconds: u64, entry_buffer_max_count: u64) -> (r:
    u64)
    requires
        record_interval_seconds * entry_buffer_max_count * 4 <= u64::MAX,
    ensures
        r == (record_interval_seconds * entry_buffer_max_count * 4) / 5,
{
    record_interval_seconds * entry_buffer_max_count * 4 / 5
}

/// Whether the writer must give up after a failed attempt: the
/// attempt ceiling is reached, or the wall-clock budget is spent.
/// Giving up is fatal by design — losing data silently is worse
/// than stopping.
pub fn should_abort_write_attempts(
    attempt_number: u64,
    total_allowed_attempts: u64,
    elapsed_seconds: u64,
    budget_seconds: u64,
) -> (r: bool)
    ensures
        r == (attempt_number >= total_allowed_attempts || elapsed_seconds > budget_seconds),
{
    attempt_number >= total_allowed_attempts || elapsed_seconds > budget_seconds
}

/// The exponential backoff step: each failed attempt triples the
/// wait before the next one.
pub fn next_retry_wait_millis(wait_millis: u64) -> (r: u64)
    requires
        wait_millis * 3 <= u64::MAX,
    ensures
        r == wait_millis * 3,
{
    wait_millis + wait_millis * 2
}

} // verus!
