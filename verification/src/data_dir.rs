//! Locations under the user data directory.
use vstd::prelude::*;
use crate::text::concat;

verus! {

/// Name of the application data directory.
pub const APP_DIR: &'static str = ".aipowerlink";

/// `dir` joined with a relative `name` (a separator is added unless `dir` is
/// empty or already ends with one).
pub open spec fn join(dir: Seq<char>, name: Seq<char>) -> Seq<char> {
    if dir.len() == 0 {
        name
    } else if dir.last() == '/' {
        dir + name
    } else {
        dir + seq!['/'] + name
    }
}

/// Joins a relative path component.
pub fn join_path(dir: &str, name: &str) -> (r: String)
    ensures
        r@ == join(dir@, name@),
{
    let n = crate::text::char_count(dir);
    if n == 0 {
        return name.to_owned();
    }
    let last = dir.get_char(n - 1);
    if last == '/' {
        concat(dir, name)
    } else {
        let d = concat(dir, "/");
        proof {
            reveal_strlit("/");
        }
        let r = concat(d.as_str(), name);
        assert(r@ =~= dir@ + seq!['/'] + name@);
        r
    }
}

/// Directory of user roles.
pub fn roles_dir(data_dir: &str) -> (r: String)
    ensures
        r@ == join(data_dir@, "roles"@),
{
    join_path(data_dir, "roles")
}

/// Path of the configuration database.
pub fn db_path(data_dir: &str) -> (r: String)
    ensures
        r@ == join(data_dir@, "aipowerlink.db"@),
{
    join_path(data_dir, "aipowerlink.db")
}

} // verus!
