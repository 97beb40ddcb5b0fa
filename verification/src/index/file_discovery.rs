//! File discovery: the tools that list files, and what they are told.

use vstd::prelude::*;
use crate::error::CanopyError;
use crate::globs;
use crate::globs::matching;
use crate::strings;
use crate::strings::{concat, concat3, contains_char, lines};
use crate::text;
use crate::text::{extend_strings, len_bytes};

verus! {

broadcast use {vstd::string::group_string_axioms, vstd::seq::group_seq_axioms};

/// The tool that lists files.
#[derive(Debug, Clone, Copy, PartialEq, Eq, Structural)]
pub enum FileDiscovery {
    Fd,
    Ripgrep,
    Ignore,
}

impl FileDiscovery {
    /// The best tool of those that are there: `fd`, then `rg`, then the library.
    pub fn choose_backend(has_fd: bool, has_rg: bool) -> (r: FileDiscovery)
        ensures
            r == (if has_fd {
                FileDiscovery::Fd
            } else if has_rg {
                FileDiscovery::Ripgrep
            } else {
                FileDiscovery::Ignore
            }),
    {
        if has_fd {
            FileDiscovery::Fd
        } else if has_rg {
            FileDiscovery::Ripgrep
        } else {
            FileDiscovery::Ignore
        }
    }

    /// The name of the tool.
    pub open spec fn tool_name(self) -> Seq<char> {
        match self {
            FileDiscovery::Fd => "fd"@,
            FileDiscovery::Ripgrep => "ripgrep"@,
            FileDiscovery::Ignore => "ignore-crate"@,
        }
    }

    /// The name of the tool.
    pub fn name(&self) -> (r: &'static str)
        ensures
            r@ == self.tool_name(),
    {
        match self {
            FileDiscovery::Fd => "fd",
            FileDiscovery::Ripgrep => "ripgrep",
            FileDiscovery::Ignore => "ignore-crate",
        }
    }
}

// ---------------------------------------------------------------------------
// Arguments
// ---------------------------------------------------------------------------

/// The exclusions of `fd`.
pub open spec fn fd_exclusions(patterns: Seq<Seq<char>>) -> Seq<Seq<char>>
    decreases patterns.len(),
{
    if patterns.len() == 0 {
        Seq::empty()
    } else {
        fd_exclusions(patterns.drop_last()) + seq!["--exclude"@, patterns.last()]
    }
}

/// The exclusions of `rg`.
pub open spec fn rg_exclusions(patterns: Seq<Seq<char>>) -> Seq<Seq<char>>
    decreases patterns.len(),
{
    if patterns.len() == 0 {
        Seq::empty()
    } else {
        rg_exclusions(patterns.drop_last()) + seq![
            "--glob"@,
            "!"@ + patterns.last(),
            "--glob"@,
            "!"@ + patterns.last() + "/**"@,
        ]
    }
}

/// The arguments of `fd`: hidden files too, whole paths, and the exclusions. The
/// directory to search follows.
pub fn fd_arguments(glob: &str, patterns: &Vec<String>) -> (r: Vec<String>)
    ensures
        text::views(r@) == seq!["--type"@, "f"@, "--hidden"@, "--glob"@, "-p"@, glob@]
            + fd_exclusions(text::views(patterns@)),
{
    let ghost first = seq!["--type"@, "f"@, "--hidden"@, "--glob"@, "-p"@, glob@];
    let ghost all = text::views(patterns@);
    let mut args: Vec<String> = vec![
        "--type".to_owned(),
        "f".to_owned(),
        "--hidden".to_owned(),
        "--glob".to_owned(),
        "-p".to_owned(),
        glob.to_owned(),
    ];
    let mut i: usize = 0;
    assert(text::views(args@) =~= first + fd_exclusions(all.take(0)));
    while i < patterns.len()
        invariant
            i <= patterns@.len(),
            all == text::views(patterns@),
            text::views(args@) == first + fd_exclusions(all.take(i as int)),
        decreases patterns@.len() - i,
    {
        let ghost before = text::views(args@);
        args.push("--exclude".to_owned());
        args.push(patterns[i].clone());
        proof {
            assert(all.take(i + 1).drop_last() =~= all.take(i as int));
            assert(all.take(i + 1).last() == patterns@[i as int]@);
            assert(text::views(args@) =~= before + seq!["--exclude"@, patterns@[i as int]@]);
            assert(text::views(args@) =~= first + fd_exclusions(all.take(i + 1)));
        }
        i = i + 1;
    }
    assert(all.take(patterns@.len() as int) =~= all);
    args
}

/// The arguments of `rg`: hidden files too, and the exclusions. The directory to
/// search follows.
pub fn rg_arguments(glob: &str, patterns: &Vec<String>) -> (r: Vec<String>)
    ensures
        text::views(r@) == seq!["--files"@, "--hidden"@, "--glob"@, glob@] + rg_exclusions(
            text::views(patterns@),
        ),
{
    let ghost first = seq!["--files"@, "--hidden"@, "--glob"@, glob@];
    let ghost all = text::views(patterns@);
    let mut args: Vec<String> = vec![
        "--files".to_owned(),
        "--hidden".to_owned(),
        "--glob".to_owned(),
        glob.to_owned(),
    ];
    let mut i: usize = 0;
    assert(text::views(args@) =~= first + rg_exclusions(all.take(0)));
    while i < patterns.len()
        invariant
            i <= patterns@.len(),
            all == text::views(patterns@),
            text::views(args@) == first + rg_exclusions(all.take(i as int)),
        decreases patterns@.len() - i,
    {
        let ghost before = text::views(args@);
        let pattern: &str = patterns[i].as_str();
        args.push("--glob".to_owned());
        args.push(concat("!", pattern));
        args.push("--glob".to_owned());
        args.push(concat3("!", pattern, "/**"));
        proof {
            assert(all.take(i + 1).drop_last() =~= all.take(i as int));
            assert(all.take(i + 1).last() == pattern@);
            assert(text::views(args@) =~= before + seq![
                "--glob"@,
                "!"@ + pattern@,
                "--glob"@,
                "!"@ + pattern@ + "/**"@,
            ]);
            assert(text::views(args@) =~= first + rg_exclusions(all.take(i + 1)));
        }
        i = i + 1;
    }
    assert(all.take(patterns@.len() as int) =~= all);
    args
}

/// The lines of a text that are not empty.
pub open spec fn filled_lines(all: Seq<Seq<char>>) -> Seq<Seq<char>>
    decreases all.len(),
{
    if all.len() == 0 {
        Seq::empty()
    } else if all.last().len() == 0 {
        filled_lines(all.drop_last())
    } else {
        filled_lines(all.drop_last()).push(all.last())
    }
}

/// The files that a tool printed, one in each line.
pub fn listed_files(stdout: &str) -> (r: Vec<String>)
    ensures
        text::views(r@) == filled_lines(strings::lines_spec(stdout@)),
{
    let found: Vec<String> = lines(stdout);
    let ghost all = strings::lines_spec(stdout@);
    let mut files: Vec<String> = Vec::new();
    let mut i: usize = 0;
    assert(text::views(files@) =~= filled_lines(all.take(0)));
    while i < found.len()
        invariant
            i <= found@.len(),
            all == text::views(found@),
            text::views(files@) == filled_lines(all.take(i as int)),
        decreases found@.len() - i,
    {
        proof {
            assert(all.take(i + 1).drop_last() =~= all.take(i as int));
            assert(all.take(i + 1).last() == found@[i as int]@);
            text::lemma_views_push(files@, found@[i as int]);
        }
        if !found[i].as_str().is_empty() {
            files.push(found[i].clone());
        }
        i = i + 1;
    }
    assert(all.take(found@.len() as int) =~= all);
    files
}

// ---------------------------------------------------------------------------
// The library
// ---------------------------------------------------------------------------

/// The globs of an ignore pattern: what it names, wherever that stands, and all
/// that is in it.
pub open spec fn ignore_globs(pattern: Seq<char>) -> Seq<Seq<char>> {
    seq![
        if pattern.contains('*') || pattern.contains('?') {
            pattern
        } else {
            "**/"@ + pattern
        },
        "**/"@ + pattern + "/**"@,
    ]
}

/// The globs of ignore patterns.
pub open spec fn all_ignore_globs(patterns: Seq<Seq<char>>) -> Seq<Seq<char>>
    decreases patterns.len(),
{
    if patterns.len() == 0 {
        Seq::empty()
    } else {
        all_ignore_globs(patterns.drop_last()) + ignore_globs(patterns.last())
    }
}

/// The globs of ignore patterns.
pub fn ignore_glob_list(patterns: &Vec<String>) -> (r: Vec<String>)
    ensures
        text::views(r@) == all_ignore_globs(text::views(patterns@)),
{
    let ghost all = text::views(patterns@);
    let mut list: Vec<String> = Vec::new();
    let mut i: usize = 0;
    assert(text::views(list@) =~= all_ignore_globs(all.take(0)));
    while i < patterns.len()
        invariant
            i <= patterns@.len(),
            all == text::views(patterns@),
            text::views(list@) == all_ignore_globs(all.take(i as int)),
        decreases patterns@.len() - i,
    {
        let ghost before = text::views(list@);
        let pattern: &str = patterns[i].as_str();
        if contains_char(pattern, '*') || contains_char(pattern, '?') {
            list.push(pattern.to_owned());
        } else {
            list.push(concat("**/", pattern));
        }
        list.push(concat3("**/", pattern, "/**"));
        proof {
            assert(all.take(i + 1).drop_last() =~= all.take(i as int));
            assert(all.take(i + 1).last() == pattern@);
            assert(text::views(list@) =~= before + ignore_globs(pattern@));
        }
        i = i + 1;
    }
    assert(all.take(patterns@.len() as int) =~= all);
    list
}

/// Whether a path matches one of the globs. A glob that is refused matches
/// nothing.
pub open spec fn is_ignored(path: Seq<char>, ignored: Seq<Seq<char>>) -> bool {
    exists|i: int|
        0 <= i < ignored.len() && globs::glob_error(#[trigger] ignored[i]) is None
            && globs::glob_matches(ignored[i], path)
}

/// Whether a walk lists a file: it matches the glob and is not ignored.
pub open spec fn is_listed(path: Seq<char>, glob: Seq<char>, ignored: Seq<Seq<char>>) -> bool {
    !is_ignored(path, ignored) && globs::glob_matches(glob, path)
}

/// Which files a walk lists, by their paths within the repository; an error
/// where the glob is refused.
pub fn listed_by_walk(paths: &Vec<String>, glob: &str, patterns: &Vec<String>) -> (r: Result<
    Vec<bool>,
    CanopyError,
>)
    ensures
        match r {
            Ok(hits) => globs::glob_error(glob@) is None && hits@ == Seq::new(
                paths@.len(),
                |i: int|
                    is_listed(
                        paths@[i]@,
                        glob@,
                        all_ignore_globs(text::views(patterns@)),
                    ),
            ),
            Err(e) => e matches CanopyError::GlobPattern(why) && globs::glob_error(glob@) == Some(
                why@,
            ),
        },
{
    let wanted: Vec<bool> = match matching(glob, paths) {
        Ok(hits) => hits,
        Err(e) => {
            return Err(CanopyError::GlobPattern(e));
        },
    };
    let ignored: Vec<String> = ignore_glob_list(patterns);
    let ghost all = all_ignore_globs(text::views(patterns@));
    let n: usize = paths.len();
    let mut hits: Vec<bool> = wanted;
    let ghost first = hits@;
    let mut k: usize = 0;
    proof {
        assert forall|i: int| 0 <= i < n implies #[trigger] hits@[i] == (!is_ignored(
            paths@[i]@,
            all.take(0),
        ) && globs::glob_matches(glob@, paths@[i]@)) by {
            assert(text::views(paths@)[i] == paths@[i]@);
        }
    }
    while k < ignored.len()
        invariant
            k <= ignored@.len(),
            n == paths@.len(),
            hits@.len() == n,
            all == text::views(ignored@),
            forall|i: int|
                0 <= i < n ==> #[trigger] hits@[i] == is_listed(
                    paths@[i]@,
                    glob@,
                    all.take(k as int),
                ),
        decreases ignored@.len() - k,
    {
        let ghost seen = all.take(k as int);
        let ghost now = all.take(k + 1);
        let ghost before = hits@;
        let pattern: &str = ignored[k].as_str();
        assert(all[k as int] == pattern@);
        let found: Option<Vec<bool>> = match matching(pattern, paths) {
            Ok(found) => Some(found),
            Err(_) => None,
        };
        match &found {
            Some(found) => {
                hits = without_hits(&hits, found);
            },
            None => {},
        }
        proof {
            assert forall|i: int| 0 <= i < n implies #[trigger] hits@[i] == is_listed(
                paths@[i]@,
                glob@,
                now,
            ) by {
                let path = paths@[i]@;
                assert(text::views(paths@)[i] == path);
                assert(before[i] == is_listed(path, glob@, seen));
                assert(now[k as int] == pattern@);
                if is_ignored(path, seen) {
                    let j = choose|j: int|
                        0 <= j < seen.len() && globs::glob_error(#[trigger] seen[j]) is None
                            && globs::glob_matches(seen[j], path);
                    assert(now[j] == seen[j]);
                }
                if is_ignored(path, now) {
                    let j = choose|j: int|
                        0 <= j < now.len() && globs::glob_error(#[trigger] now[j]) is None
                            && globs::glob_matches(now[j], path);
                    if j < k {
                        assert(seen[j] == now[j]);
                    }
                }
            }
        }
        k = k + 1;
    }
    proof {
        assert(all.take(ignored@.len() as int) =~= all);
        assert(hits@ =~= Seq::new(paths@.len(), |i: int| is_listed(paths@[i]@, glob@, all)));
    }
    Ok(hits)
}

fn without_hits(hits: &Vec<bool>, others: &Vec<bool>) -> (r: Vec<bool>)
    requires
        hits@.len() == others@.len(),
    ensures
        r@ == Seq::new(hits@.len(), |i: int| hits@[i] && !others@[i]),
{
    let ghost all = Seq::new(hits@.len(), |i: int| hits@[i] && !others@[i]);
    let mut list: Vec<bool> = Vec::new();
    let mut i: usize = 0;
    while i < hits.len()
        invariant
            i <= hits@.len(),
            hits@.len() == others@.len(),
            all == Seq::new(hits@.len(), |i: int| hits@[i] && !others@[i]),
            list@ == all.take(i as int),
        decreases hits@.len() - i,
    {
        list.push(hits[i] && !others[i]);
        assert(list@ =~= all.take(i + 1));
        i = i + 1;
    }
    assert(all.take(hits@.len() as int) =~= all);
    list
}

} // verus!
