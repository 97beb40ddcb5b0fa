//! Query dispatch: the results of the service with the local index over them.

use vstd::prelude::*;
use vstd::hash_map::StringHashMap;
use crate::capped_map::CappedState;
use crate::handle::{HandleSource, HandleView};
use crate::merge;
use crate::merge::merge_results;
use crate::provenance;
use crate::provenance::{ProvenanceTracker, TrackerState};
use crate::query::execute;
use crate::query::QueryResult;
use crate::runtime::feedback;
use crate::runtime::feedback::record_provenance_for_result;
use crate::text;

verus! {

broadcast use {
    vstd::string::group_string_axioms,
    vstd::seq::group_seq_axioms,
    vstd::map::group_map_axioms,
};

/// What to do with the local index beside a query of the service.
#[derive(Debug, Clone, Copy, PartialEq, Eq, Structural)]
pub struct OverlayPlan {
    /// Rebuild it over the dirty files first.
    pub rebuild: bool,
    /// Query it too.
    pub query_local: bool,
}

/// What to do with the local index beside a query of the service: nothing while
/// no file is dirty.
pub fn plan_overlay(is_clean: bool, needs_rebuild: bool) -> (r: OverlayPlan)
    ensures
        r.rebuild == (!is_clean && needs_rebuild),
        r.query_local == !is_clean,
{
    OverlayPlan { rebuild: !is_clean && needs_rebuild, query_local: !is_clean }
}

/// The generation in which each repository was seen last.
pub struct Generations {
    pub known: StringHashMap<u64>,
}

impl Generations {
    pub fn new() -> (r: Generations)
        ensures
            r.known@ == Map::<Seq<char>, u64>::empty(),
    {
        Generations { known: StringHashMap::new() }
    }
}

/// The generation of a result: that of its first handle.
pub open spec fn result_generation(handles: Seq<HandleView>) -> Option<u64> {
    if handles.len() > 0 {
        handles[0].generation
    } else {
        None
    }
}

/// What a tracker holds after a repository was seen in a generation: nothing of
/// the repository where the generation is another than before.
pub open spec fn after_generation(
    s: TrackerState,
    known: Map<Seq<char>, u64>,
    repo_id: Seq<char>,
    generation: Option<u64>,
) -> TrackerState {
    match generation {
        Some(g) => if known.dom().contains(repo_id) && known[repo_id] != g {
            TrackerState {
                provenance: CappedState {
                    pairs: provenance::of_other_repos(s.provenance.pairs, repo_id),
                    ..s.provenance
                },
                ..s
            }
        } else {
            s
        },
        None => s,
    }
}

/// The generations that are known after a repository was seen in one.
pub open spec fn known_after(
    known: Map<Seq<char>, u64>,
    repo_id: Seq<char>,
    generation: Option<u64>,
) -> Map<Seq<char>, u64> {
    match generation {
        Some(g) => known.insert(repo_id, g),
        None => known,
    }
}

/// Takes in the generation of a repository. Where it is another than before,
/// what was recorded of the repository is forgotten.
pub fn track_generation(
    tracker: &mut ProvenanceTracker,
    generations: &mut Generations,
    repo_id: &str,
    generation: Option<u64>,
)
    requires
        old(tracker).state().inv(),
    ensures
        final(tracker).state().inv(),
        final(tracker).state() == after_generation(
            old(tracker).state(),
            old(generations).known@,
            repo_id@,
            generation,
        ),
        final(generations).known@ == known_after(old(generations).known@, repo_id@, generation),
{
    match generation {
        Some(g) => {
            let changed: bool = match generations.known.get(repo_id) {
                Some(before) => *before != g,
                None => false,
            };
            generations.known.insert(repo_id.to_owned(), g);
            if changed {
                tracker.invalidate_repo(repo_id);
            }
        },
        None => {},
    }
}

/// The tokens of what a client returns for a query of the service.
pub open spec fn answer_tokens(
    service: QueryResult,
    local: Option<QueryResult>,
    dirty: Seq<Seq<char>>,
) -> nat {
    match local {
        Some(l) => execute::token_sum(
            text::views(l.handles@) + merge::clean_handles(text::views(service.handles@), dirty),
        ),
        None => 0,
    }
}

/// What a client returns for a query of the service, given what the local index
/// found where files are dirty. It records where the handles came from, and
/// takes in the generation of the repository in between.
pub fn answer_query(
    tracker: &mut ProvenanceTracker,
    generations: &mut Generations,
    repo_key: &str,
    repo_id: &str,
    service: QueryResult,
    local: Option<QueryResult>,
    dirty_paths: &Vec<String>,
) -> (r: QueryResult)
    requires
        old(tracker).state().inv(),
        answer_tokens(service, local, text::views(dirty_paths@)) <= usize::MAX,
    ensures
        final(tracker).state().inv(),
        final(generations).known@ == known_after(
            old(generations).known@,
            repo_id@,
            result_generation(text::views(service.handles@)),
        ),
        exists|recorded: TrackerState| #[trigger]
            feedback::is_recorded(
                recorded,
                old(tracker).state(),
                repo_key@,
                text::views(service.handles@),
                HandleSource::Service,
                result_generation(text::views(service.handles@)),
                Some(repo_id@),
            ) && ({
                let seen = after_generation(
                    recorded,
                    old(generations).known@,
                    repo_id@,
                    result_generation(text::views(service.handles@)),
                );
                match local {
                    Some(l) => feedback::is_recorded(
                        final(tracker).state(),
                        seen,
                        repo_key@,
                        text::views(l.handles@),
                        HandleSource::Local,
                        None,
                        None,
                    ),
                    None => final(tracker).state() == seen,
                }
            }),
        match local {
            Some(l) => merge::is_merged(
                r,
                l,
                service,
                merge::clean_handles(text::views(service.handles@), text::views(dirty_paths@)),
                merge::merged_refs(
                    merge::opt_refs(l.ref_handles),
                    merge::opt_refs(service.ref_handles),
                    text::views(dirty_paths@),
                ),
            ),
            None => r == service,
        },
{
    let generation: Option<u64> = if service.handles.len() > 0 {
        service.handles[0].generation
    } else {
        None
    };
    assert(text::views(service.handles@).len() == service.handles@.len());
    assert(generation == result_generation(text::views(service.handles@)));
    let id: Option<String> = Some(repo_id.to_owned());
    record_provenance_for_result(
        tracker,
        repo_key,
        &service,
        HandleSource::Service,
        generation,
        &id,
    );
    track_generation(tracker, generations, repo_id, generation);
    match local {
        Some(l) => {
            let none: Option<String> = None;
            record_provenance_for_result(
                tracker,
                repo_key,
                &l,
                HandleSource::Local,
                None,
                &none,
            );
            merge_results(l, service, dirty_paths)
        },
        None => service,
    }
}

/// Once a repository is seen in another generation, nothing that was recorded of
/// it before counts.
pub proof fn law_generation_change_forgets(
    s: TrackerState,
    known: Map<Seq<char>, u64>,
    repo_id: Seq<char>,
    generation: u64,
    entry: (provenance::HandleKey, provenance::HandleProvenance),
)
    requires
        known.dom().contains(repo_id),
        known[repo_id] != generation,
        after_generation(s, known, repo_id, Some(generation)).provenance.pairs.contains(entry),
    ensures
        !provenance::is_of_repo(entry.1, repo_id),
        s.provenance.pairs.contains(entry),
{
    provenance::law_invalidate_repo(s.provenance.pairs, repo_id, entry);
}

/// The generation of a repository that was seen last is the one that is known. Seen again,
/// nothing is forgotten; nor is anything where none is seen, or for the first time.
pub proof fn law_same_generation_keeps(
    s: TrackerState,
    known: Map<Seq<char>, u64>,
    repo_id: Seq<char>,
    other: Seq<char>,
    generation: u64,
)
    ensures
        ({
            let after = known_after(known, repo_id, Some(generation));
            &&& after.dom().contains(repo_id) && after[repo_id] == generation
            &&& other != repo_id ==> (after.dom().contains(other) <==> known.dom().contains(other))
                && (known.dom().contains(other) ==> after[other] == known[other])
            &&& after_generation(s, after, repo_id, Some(generation)) == s
            &&& known_after(known, repo_id, None) == known
            &&& after_generation(s, known, repo_id, None) == s
            &&& !known.dom().contains(repo_id) ==> after_generation(
                s,
                known,
                repo_id,
                Some(generation),
            ) == s
        }),
{
}

} // verus!
