//! File-system paths, held as text.
use vstd::prelude::*;

verus! {

/// The text of the path that `PathBuf::push` makes of the directory `dir`
/// and the entry `name`. How the two are joined is the platform's path
/// syntax, which is not restated here.
pub uninterp spec fn joined_path(dir: Seq<char>, name: Seq<char>) -> Seq<char>;

/// `PathBuf::push`: the path `dir` extended by `name`. The two are valid
/// UTF-8, so their join is too and reads back unchanged.
#[verifier::external_body]
pub fn join_path(dir: &str, name: &str) -> (r: String)
    ensures
        r@ == joined_path(dir@, name@),
{
    let mut path = std::path::PathBuf::from(dir);
    path.push(name);
    path.to_string_lossy().into_owned()
}

} // verus!
