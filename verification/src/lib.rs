//! Activity-tracking core: sample compaction, a verified model of the
//! persistent record store, and time-bucketed aggregation of recorded
//! activity intervals.
use vstd::prelude::*;

pub mod aggregate;
pub mod dump;
pub mod entries;
pub mod format;
pub mod paths;
pub mod print;
pub mod recorder;
pub mod settings;
pub mod storage;
pub mod variable;

verus! {

/// The characters of `s` up to (but not including) the first space,
/// or all of `s` when it holds no space.
pub open spec fn strip_name_spec(s: Seq<char>) -> Seq<char> {
    match s.index_of_first(' ') {
        Some(i) => s.take(i),
        None => s,
    }
}

/// What is left of `strip_name_spec(s)` after its last `/`:
/// the bare executable file name, without directories or arguments.
pub open spec fn short_name_spec(s: Seq<char>) -> Seq<char> {
    let stripped = strip_name_spec(s);
    match stripped.index_of_last('/') {
        Some(i) => stripped.skip(i + 1),
        None => stripped,
    }
}

/// Removes command-line arguments from a sampled command name,
/// keeping only the leading executable path.
pub fn strip_executable_name(name: &str) -> (r: &str)
    ensures
        r@ == strip_name_spec(name@),
{
    let len = name.unicode_len();
    let mut i: usize = 0;
    while i < len
        invariant
            0 <= i <= len,
            len == name@.len(),
            forall|j: int| 0 <= j < i ==> name@[j] != ' ',
        decreases len - i,
    {
        if name.get_char(i) == ' ' {
            proof {
                name@.index_of_first_ensures(' ');
            }
            return name.substring_char(0, i);
        }
        i = i + 1;
    }
    proof {
        name@.index_of_first_ensures(' ');
        assert(name@.take(len as int) =~= name@);
    }
    name.substring_char(0, len)
}

/// Reduces a sampled command name to the bare executable file name:
/// arguments are cut at the first space, directories at the last `/`.
pub fn format_short_executable_name(name: &str) -> (r: &str)
    ensures
        r@ == short_name_spec(name@),
{
    let stripped = strip_executable_name(name);
    let len = stripped.unicode_len();
    let mut i: usize = len;
    while i > 0
        invariant
            0 <= i <= len,
            len == stripped@.len(),
            stripped@ == strip_name_spec(name@),
            forall|j: int| i <= j < len ==> stripped@[j] != '/',
        decreases i,
    {
        i = i - 1;
        if stripped.get_char(i) == '/' {
            proof {
                assert(stripped@[i as int] == '/');
                assert(stripped@.contains('/'));
                stripped@.index_of_last_ensures('/');
                let k = stripped@.index_of_last('/')->Some_0;
                assert(!(k < i) && !(i < k)) by {
                    if k < i {
                        assert(stripped@[i as int] != '/');
                    }
                    if i < k {
                        assert(stripped@[k] != '/');
                    }
                }
                assert(stripped@.skip(i + 1) =~= stripped@.subrange(i + 1, len as int));
            }
            return stripped.substring_char(i + 1, len);
        }
    }
    proof {
        stripped@.index_of_last_ensures('/');
        assert(stripped@.skip(0) =~= stripped@);
    }
    stripped.substring_char(0, len)
}

} // verus!
