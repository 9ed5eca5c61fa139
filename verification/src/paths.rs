//! Paths: joining, and the user's data directory.
use vstd::prelude::*;

verus! {

/// What `std::path::Path::join` gives on Unix: an absolute `name` (one
/// starting with `/`) replaces the base; otherwise `name` is appended, with
/// a `/` between them when the base is non-empty and does not already end
/// in one.
pub open spec fn path_join(base: Seq<char>, name: Seq<char>) -> Seq<char> {
    if name.len() > 0 && name[0] == '/' {
        name
    } else if base.len() == 0 || base.last() == '/' {
        base + name
    } else {
        base + seq!['/'] + name
    }
}

/// Appending to a non-empty relative or absolute name appends to the
/// joined path.
pub proof fn lemma_join_then_append(base: Seq<char>, name: Seq<char>, suffix: Seq<char>)
    requires
        name.len() > 0,
    ensures
        path_join(base, name + suffix) == path_join(base, name) + suffix,
{
    assert((name + suffix)[0] == name[0]);
    assert(base + (name + suffix) =~= (base + name) + suffix);
    assert(base + seq!['/'] + (name + suffix) =~= (base + seq!['/'] + name) + suffix);
}

/// `std::path::Path::new(base).join(name)`, converted back to a `String`
/// (lossless, both parts being valid strings). Claimed: the result is
/// `path_join(base, name)`, the rule std documents for `PathBuf::push` on
/// Unix.
#[verifier::external_body]
pub(crate) fn join_path(base: &str, name: &str) -> (r: String)
    ensures
        r@ == path_join(base@, name@),
{
    std::path::Path::new(base).join(name).to_string_lossy().into_owned()
}

/// `dirs::data_dir()` (`$XDG_DATA_HOME`, else `$HOME/.local/share` on
/// Linux), as a `String`. It reads the environment, so nothing is claimed
/// of the result.
#[verifier::external_body]
pub(crate) fn data_dir() -> (r: Option<String>) {
    dirs::data_dir().map(|p| p.to_string_lossy().into_owned())
}

} // verus!
