//! Glob patterns, matched by `globset`.

use vstd::prelude::*;
use crate::text;

verus! {

/// Why `globset` does not accept a pattern; `None` for one that it accepts.
pub uninterp spec fn glob_error(pattern: Seq<char>) -> Option<Seq<char>>;

/// Whether a path matches a pattern that `globset` accepts.
pub uninterp spec fn glob_matches(pattern: Seq<char>, path: Seq<char>) -> bool;

/// Calls `globset::Glob::new` and `GlobSetBuilder::build` once, with the pattern
/// as the only one of the set, and `GlobSet::is_match` for each path. Claims that
/// whether and why a pattern is refused depends on the pattern alone, and whether
/// a path matches on the pattern and the path. (On a platform whose paths are
/// divided by backslashes, a backslash is taken otherwise than on others.)
#[verifier::external_body]
fn match_all(pattern: &str, paths: &Vec<String>) -> (r: Result<Vec<bool>, String>)
    ensures
        match r {
            Ok(hits) => glob_error(pattern@) is None && hits@.len() == paths@.len() && forall|i: int|
                0 <= i < paths@.len() ==> #[trigger] hits@[i] == glob_matches(
                    pattern@,
                    paths@[i]@,
                ),
            Err(e) => glob_error(pattern@) == Some(e@),
        },
{
    let glob = globset::Glob::new(pattern).map_err(|e| e.to_string())?;
    let set = globset::GlobSetBuilder::new().add(glob).build().map_err(|e| e.to_string())?;
    Ok(paths.iter().map(|path| set.is_match(path)).collect())
}

/// Which of the paths match the pattern; why the pattern is refused, if it is.
pub fn matching(pattern: &str, paths: &Vec<String>) -> (r: Result<Vec<bool>, String>)
    ensures
        match r {
            Ok(hits) => glob_error(pattern@) is None && hits@ == Seq::new(
                paths@.len(),
                |i: int| glob_matches(pattern@, text::views(paths@)[i]),
            ),
            Err(e) => glob_error(pattern@) == Some(e@),
        },
{
    match match_all(pattern, paths) {
        Ok(hits) => {
            assert(hits@ =~= Seq::new(
                paths@.len(),
                |i: int| glob_matches(pattern@, text::views(paths@)[i]),
            ));
            Ok(hits)
        },
        Err(e) => Err(e),
    }
}

/// Why the pattern is refused, if it is.
pub fn check_pattern(pattern: &str) -> (r: Option<String>)
    ensures
        text::opt_view(r) == glob_error(pattern@),
{
    let paths: Vec<String> = Vec::new();
    match match_all(pattern, &paths) {
        Ok(_) => None,
        Err(e) => Some(e),
    }
}

} // verus!
