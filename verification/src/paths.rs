//! Construction of the store's file path from configured directory
//! and file name: shell expansion is delegated to the system (it
//! reads the environment), the joining of the parts is verified.
use vstd::prelude::*;

verus! {

/// Whether shell expansion leaves a path untouched: it holds no
/// variable reference and does not start with a tilde.
pub open spec fn expansion_free(s: Seq<char>) -> bool {
    &&& forall|k: int| 0 <= k < s.len() ==> #[trigger] s[k] != '$'
    &&& (s.len() > 0 ==> s[0] != '~')
}

/// Relies on shellexpand::full: expands `~` and `$VAR` references in
/// a path using the environment, `None` where a referenced variable
/// is unset. A path with neither passes through unchanged; beyond
/// that the result depends on the environment, so nothing more is
/// promised of it.
#[verifier::external_body]
fn expand_path(path: &str) -> (r: Option<String>)
    ensures
        expansion_free(path@) ==> r is Some && r->0@ == path@,
{
    match shellexpand::full(path) {
        Ok(expanded) => Some(expanded.into_owned()),
        Err(_) => None,
    }
}

/// A directory and a file name joined as paths join: an absolute
/// file name stands alone, an empty directory contributes nothing,
/// and a single `/` separates the parts otherwise.
pub open spec fn join_path_spec(dir: Seq<char>, name: Seq<char>) -> Seq<char> {
    if name.len() > 0 && name[0] == '/' {
        name
    } else if dir.len() == 0 {
        name
    } else if dir.last() == '/' {
        dir + name
    } else {
        dir + "/"@ + name
    }
}

/// Joins a directory and a file name into one path.
pub fn join_file_path(dir: &str, name: &str) -> (r: String)
    ensures
        r@ == join_path_spec(dir@, name@),
{
    let name_len = name.unicode_len();
    if name_len > 0 && name.get_char(0) == '/' {
        let mut s = String::new();
        s.append(name);
        proof {
            assert(s@ =~= name@);
        }
        return s;
    }
    let dir_len = dir.unicode_len();
    if dir_len == 0 {
        let mut s = String::new();
        s.append(name);
        proof {
            assert(s@ =~= name@);
        }
        return s;
    }
    let mut s = String::new();
    s.append(dir);
    if dir.get_char(dir_len - 1) != '/' {
        s.append("/");
    }
    s.append(name);
    s
}

/// Builds the path of `file_name` under the user's directory, the
/// directory shell-expanded first; `None` when no directory is given
/// or the expansion fails.
pub fn construct_file_path(user_dir_path: &Option<String>, file_name: &str) -> (r: Option<String>)
    ensures
        user_dir_path is None ==> r is None,
        (user_dir_path is Some && expansion_free(user_dir_path->0@)) ==> (r is Some && r->0@
            == join_path_spec(user_dir_path->0@, file_name@)),
{
    match user_dir_path {
        Some(value) => {
            match expand_path(value.as_str()) {
                Some(expanded) => Some(join_file_path(expanded.as_str(), file_name)),
                None => None,
            }
        },
        None => None,
    }
}

/// The full path of the store's file: the configured directory,
/// shell-expanded, joined with the configured file name; `None` when
/// the expansion fails.
pub fn get_database_file_path(database_dir: &String, database_file_name: &String) -> (r: Option<
    String,
>)
    ensures
        expansion_free(database_dir@) ==> (r is Some && r->0@ == join_path_spec(
            database_dir@,
            database_file_name@,
        )),
{
    match expand_path(database_dir.as_str()) {
        Some(expanded) => Some(join_file_path(expanded.as_str(), database_file_name.as_str())),
        None => None,
    }
}

} // verus!
