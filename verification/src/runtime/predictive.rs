//! Indexing by prediction before a query.

use vstd::prelude::*;
use vstd::hash_map::StringHashMap;
use crate::predict::{LARGE_REPO_THRESHOLD, MAX_PREDICTIVE_FILES};
use crate::runtime::feedback::PendingPredictive;
use crate::text;

verus! {

broadcast use {
    vstd::string::group_string_axioms,
    vstd::seq::group_seq_axioms,
    vstd::map::group_map_axioms,
};

/// What to index before a query.
#[derive(Debug, Clone, Copy, PartialEq, Eq, Structural)]
pub enum IndexPlan {
    /// Nothing: the repository is indexed.
    Nothing,
    /// All of it.
    Everything,
    /// What the query points to.
    Predicted,
}

/// What to index before a query. Where nothing is indexed yet, the number of
/// files counts that indexing everything would take in.
pub fn plan_index(files_indexed: usize, files_walked: usize) -> (r: IndexPlan)
    ensures
        r == (if files_indexed == 0 && files_walked <= LARGE_REPO_THRESHOLD {
            IndexPlan::Everything
        } else if files_indexed == 0 || files_indexed > LARGE_REPO_THRESHOLD {
            IndexPlan::Predicted
        } else {
            IndexPlan::Nothing
        }),
{
    let large: bool = if files_indexed == 0 {
        files_walked > LARGE_REPO_THRESHOLD
    } else {
        files_indexed > LARGE_REPO_THRESHOLD
    };
    if files_indexed == 0 && !large {
        IndexPlan::Everything
    } else if large {
        IndexPlan::Predicted
    } else {
        IndexPlan::Nothing
    }
}

/// The files by glob, after the files of another glob: a file stays with the
/// first glob that it matches.
pub open spec fn with_files(
    known: Map<Seq<char>, Seq<char>>,
    files: Seq<Seq<char>>,
    glob: Seq<char>,
) -> Map<Seq<char>, Seq<char>>
    decreases files.len(),
{
    if files.len() == 0 {
        known
    } else {
        let before = with_files(known, files.drop_last(), glob);
        if before.dom().contains(files.last()) {
            before
        } else {
            before.insert(files.last(), glob)
        }
    }
}

/// The globs of files, by their views.
pub open spec fn glob_views(m: Map<Seq<char>, String>) -> Map<Seq<char>, Seq<char>> {
    Map::new(|k: Seq<char>| m.dom().contains(k), |k: Seq<char>| m[k]@)
}

/// A predictive pass under way. The caller walks and indexes the glob that
/// [`PredictiveRun::next`] names and hands in what came of it, until none is
/// left.
pub struct PredictiveRun {
    pub globs: Vec<String>,
    /// How many of the globs are done.
    pub done: usize,
    pub files_indexed: usize,
    pub file_to_glob: StringHashMap<String>,
}

impl PredictiveRun {
    /// The pass goes on with the next glob, unless enough files are indexed.
    pub open spec fn goes_on(self) -> bool {
        self.done < self.globs@.len() && self.files_indexed < MAX_PREDICTIVE_FILES
    }

    pub fn start(globs: Vec<String>) -> (r: PredictiveRun)
        ensures
            r.globs == globs,
            r.done == 0,
            r.files_indexed == 0,
            glob_views(r.file_to_glob@) == Map::<Seq<char>, Seq<char>>::empty(),
    {
        let file_to_glob: StringHashMap<String> = StringHashMap::new();
        assert(glob_views(file_to_glob@) =~= Map::<Seq<char>, Seq<char>>::empty());
        PredictiveRun { globs, done: 0, files_indexed: 0, file_to_glob }
    }

    /// The glob to index next.
    pub fn next(&self) -> (r: Option<&String>)
        ensures
            match r {
                Some(glob) => self.goes_on() && *glob == self.globs@[self.done as int],
                None => !self.goes_on(),
            },
    {
        if self.done < self.globs.len() && self.files_indexed < MAX_PREDICTIVE_FILES {
            Some(&self.globs[self.done])
        } else {
            None
        }
    }

    /// Takes in what came of a glob: the files that it matches and how many were
    /// indexed, each if that succeeded.
    pub fn record(&mut self, files: &Option<Vec<String>>, indexed: Option<usize>)
        requires
            old(self).goes_on(),
            old(self).files_indexed + (match indexed {
                Some(n) => n as nat,
                None => 0,
            }) <= usize::MAX,
        ensures
            final(self).globs == old(self).globs,
            final(self).done == old(self).done + 1,
            final(self).files_indexed == old(self).files_indexed + (match indexed {
                Some(n) => n as nat,
                None => 0,
            }),
            glob_views(final(self).file_to_glob@) == (match *files {
                Some(list) => with_files(
                    glob_views(old(self).file_to_glob@),
                    text::views(list@),
                    old(self).globs@[old(self).done as int]@,
                ),
                None => glob_views(old(self).file_to_glob@),
            }),
    {
        assert(self.done < self.globs.len());
        match files {
            Some(list) => {
                let ghost start = glob_views(self.file_to_glob@);
                let ghost all = text::views(list@);
                let ghost glob = self.globs@[self.done as int]@;
                let mut i: usize = 0;
                assert(all.take(0) =~= Seq::<Seq<char>>::empty());
                while i < list.len()
                    invariant
                        i <= list@.len(),
                        all == text::views(list@),
                        self.globs == old(self).globs,
                        self.done == old(self).done,
                        self.done < self.globs@.len(),
                        self.files_indexed == old(self).files_indexed,
                        glob == self.globs@[self.done as int]@,
                        glob_views(self.file_to_glob@) == with_files(
                            start,
                            all.take(i as int),
                            glob,
                        ),
                    decreases list@.len() - i,
                {
                    proof {
                        assert(all.take(i + 1).drop_last() =~= all.take(i as int));
                        assert(all.take(i + 1).last() == list@[i as int]@);
                    }
                    let ghost before = self.file_to_glob@;
                    if !self.file_to_glob.contains_key(list[i].as_str()) {
                        let value: String = self.globs[self.done].clone();
                        self.file_to_glob.insert(list[i].clone(), value);
                        assert(glob_views(self.file_to_glob@) =~= glob_views(before).insert(
                            list@[i as int]@,
                            glob,
                        ));
                    }
                    i = i + 1;
                }
                assert(all.take(list@.len() as int) =~= all);
            },
            None => {},
        }
        match indexed {
            Some(n) => {
                self.files_indexed = self.files_indexed + n;
            },
            None => {},
        }
        self.done = self.done + 1;
    }

    /// What is remembered of the pass until the query.
    pub fn finish(self) -> (r: PendingPredictive)
        ensures
            r.predicted_globs == self.globs,
            r.files_indexed == self.files_indexed,
            r.file_to_glob == self.file_to_glob,
    {
        PendingPredictive {
            predicted_globs: self.globs,
            files_indexed: self.files_indexed,
            file_to_glob: self.file_to_glob,
        }
    }
}

/// A file stays with the first glob that it matched.
pub proof fn law_first_glob_stays(
    known: Map<Seq<char>, Seq<char>>,
    files: Seq<Seq<char>>,
    glob: Seq<char>,
    file: Seq<char>,
)
    requires
        known.dom().contains(file),
    ensures
        with_files(known, files, glob).dom().contains(file),
        with_files(known, files, glob)[file] == known[file],
    decreases files.len(),
{
    if files.len() > 0 {
        law_first_glob_stays(known, files.drop_last(), glob, file);
    }
}

/// The entry points, which are indexed where a predictive pass found no file.
pub fn entry_point_globs(files_indexed: usize) -> (r: Vec<String>)
    ensures
        text::views(r@) == (if files_indexed == 0 {
            seq!["**/main.*"@, "**/index.*"@, "**/app.*"@]
        } else {
            Seq::empty()
        }),
{
    let mut globs: Vec<String> = Vec::new();
    if files_indexed == 0 {
        globs.push("**/main.*".to_owned());
        globs.push("**/index.*".to_owned());
        globs.push("**/app.*".to_owned());
        assert(text::views(globs@) =~= seq!["**/main.*"@, "**/index.*"@, "**/app.*"@]);
    } else {
        assert(text::views(globs@) =~= Seq::empty());
    }
    globs
}

} // verus!
