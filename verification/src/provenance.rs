//! Handle provenance: where handles came from, so that requests to expand them
//! go to the right place. It is kept as far as the caps allow; entries can be
//! missing.

use vstd::prelude::*;
use crate::capped_map;
use crate::capped_map::{CappedMap, CappedSet, CappedState};
use crate::document::NodeType;
use crate::handle::HandleSource;
use crate::text::str_eq;

verus! {

broadcast use {vstd::string::group_string_axioms, vstd::seq::group_seq_axioms};

/// Cap on provenance entries.
pub const PROVENANCE_CAP: usize = 10_000;

/// Cap on recently expanded handles.
pub const RECENT_EXPANDED_CAP: usize = 10_000;

/// Cap on query events of handles.
pub const RECENT_QUERY_EVENT_CAP: usize = 10_000;

/// Where a handle came from.
#[derive(Debug)]
pub struct HandleProvenance {
    pub source: HandleSource,
    pub generation: Option<u64>,
    pub repo_id: Option<String>,
    pub file_path: String,
    pub node_type: NodeType,
    pub token_count: usize,
}

impl Clone for HandleProvenance {
    fn clone(&self) -> (r: HandleProvenance)
        ensures
            r == *self,
    {
        HandleProvenance {
            source: self.source,
            generation: self.generation,
            repo_id: self.repo_id.clone(),
            file_path: self.file_path.clone(),
            node_type: self.node_type,
            token_count: self.token_count,
        }
    }
}

/// A repository's path and a handle's ID.
pub type HandleKey = (Seq<char>, Seq<char>);

/// What a tracker holds.
pub struct TrackerState {
    pub provenance: CappedState<HandleKey, HandleProvenance>,
    pub events: CappedState<HandleKey, i64>,
    pub expanded: CappedState<HandleKey, ()>,
}

impl TrackerState {
    pub open spec fn inv(self) -> bool {
        &&& self.provenance.inv() && self.provenance.cap == PROVENANCE_CAP
        &&& self.events.inv() && self.events.cap == RECENT_QUERY_EVENT_CAP
        &&& self.expanded.inv() && self.expanded.cap == RECENT_EXPANDED_CAP
    }
}

/// Whether a handle came from the repository with the given ID.
pub open spec fn is_of_repo(p: HandleProvenance, repo_id: Seq<char>) -> bool {
    p.repo_id matches Some(id) && id@ == repo_id
}

/// The entries of other repositories than the one with the given ID.
pub open spec fn of_other_repos(
    pairs: Seq<(HandleKey, HandleProvenance)>,
    repo_id: Seq<char>,
) -> Seq<(HandleKey, HandleProvenance)>
    decreases pairs.len(),
{
    if pairs.len() == 0 {
        Seq::empty()
    } else if is_of_repo(pairs.last().1, repo_id) {
        of_other_repos(pairs.drop_last(), repo_id)
    } else {
        of_other_repos(pairs.drop_last(), repo_id).push(pairs.last())
    }
}

/// Tracks handle provenance, expanded handles and the query events of handles.
pub struct ProvenanceTracker {
    provenance: CappedMap<(String, String), HandleProvenance>,
    recent_query_events: CappedMap<(String, String), i64>,
    recently_expanded: CappedSet<(String, String)>,
}

impl Default for ProvenanceTracker {
    fn default() -> (r: ProvenanceTracker)
        ensures
            r.state().inv(),
            r.state().provenance.pairs.len() == 0,
            r.state().events.pairs.len() == 0,
            r.state().expanded.pairs.len() == 0,
    {
        ProvenanceTracker::new()
    }
}

impl ProvenanceTracker {
    /// What the tracker holds.
    pub closed spec fn state(self) -> TrackerState {
        TrackerState {
            provenance: self.provenance.state(),
            events: self.recent_query_events.state(),
            expanded: self.recently_expanded.state(),
        }
    }

    pub fn new() -> (r: ProvenanceTracker)
        ensures
            r.state().inv(),
            r.state().provenance.pairs.len() == 0,
            r.state().events.pairs.len() == 0,
            r.state().expanded.pairs.len() == 0,
    {
        ProvenanceTracker {
            provenance: CappedMap::new(PROVENANCE_CAP),
            recent_query_events: CappedMap::new(RECENT_QUERY_EVENT_CAP),
            recently_expanded: CappedSet::new(RECENT_EXPANDED_CAP),
        }
    }

    /// Records where a handle came from.
    pub fn record(&mut self, repo_key: &str, handle_id: &str, provenance: HandleProvenance)
        requires
            old(self).state().inv(),
        ensures
            final(self).state().inv(),
            final(self).state() == (TrackerState {
                provenance: old(self).state().provenance.insert(
                    (repo_key@, handle_id@),
                    provenance,
                ),
                ..old(self).state()
            }),
    {
        let key: (String, String) = (repo_key.to_owned(), handle_id.to_owned());
        let _ = self.provenance.insert(key, provenance);
    }

    /// Where a handle came from.
    pub fn get(&self, repo_key: &str, handle_id: &str) -> (r: Option<&HandleProvenance>)
        requires
            self.state().inv(),
        ensures
            match r {
                Some(p) => capped_map::value_of(
                    self.state().provenance.pairs,
                    (repo_key@, handle_id@),
                ) == Some(*p),
                None => capped_map::value_of(
                    self.state().provenance.pairs,
                    (repo_key@, handle_id@),
                ) is None,
            },
    {
        self.provenance.get(&(repo_key.to_owned(), handle_id.to_owned()))
    }

    /// Of how many handles it is known where they came from.
    pub fn len(&self) -> (r: usize)
        ensures
            r == self.state().provenance.pairs.len(),
    {
        self.provenance.len()
    }

    /// Records the query event that produced a handle.
    pub fn record_query_event(&mut self, repo_key: &str, handle_id: &str, event_id: i64)
        requires
            old(self).state().inv(),
        ensures
            final(self).state().inv(),
            final(self).state() == (TrackerState {
                events: old(self).state().events.insert((repo_key@, handle_id@), event_id),
                ..old(self).state()
            }),
    {
        let key: (String, String) = (repo_key.to_owned(), handle_id.to_owned());
        let _ = self.recent_query_events.insert(key, event_id);
    }

    /// The query event that produced a handle.
    pub fn query_event_id(&self, repo_key: &str, handle_id: &str) -> (r: Option<i64>)
        requires
            self.state().inv(),
        ensures
            r == capped_map::value_of(self.state().events.pairs, (repo_key@, handle_id@)),
    {
        match self.recent_query_events.get(&(repo_key.to_owned(), handle_id.to_owned())) {
            Some(id) => Some(*id),
            None => None,
        }
    }

    /// Marks a handle as recently expanded.
    pub fn mark_expanded(&mut self, repo_key: &str, handle_id: &str)
        requires
            old(self).state().inv(),
        ensures
            final(self).state().inv(),
            final(self).state() == (TrackerState {
                expanded: old(self).state().expanded.insert((repo_key@, handle_id@), ()),
                ..old(self).state()
            }),
    {
        let key: (String, String) = (repo_key.to_owned(), handle_id.to_owned());
        let _ = self.recently_expanded.insert(key);
    }

    /// Whether a handle was recently expanded.
    pub fn was_recently_expanded(&self, repo_key: &str, handle_id: &str) -> (r: bool)
        requires
            self.state().inv(),
        ensures
            r == capped_map::has_key(self.state().expanded.pairs, (repo_key@, handle_id@)),
    {
        self.recently_expanded.contains(&(repo_key.to_owned(), handle_id.to_owned()))
    }

    /// Forgets where the handles of a repository came from.
    pub fn invalidate_repo(&mut self, repo_id: &str)
        requires
            old(self).state().inv(),
        ensures
            final(self).state().inv(),
            final(self).state() == (TrackerState {
                provenance: CappedState {
                    pairs: of_other_repos(old(self).state().provenance.pairs, repo_id@),
                    ..old(self).state().provenance
                },
                ..old(self).state()
            }),
    {
        let ghost before = self.provenance.state().pairs;
        let stays = |_key: &(String, String), p: &mut HandleProvenance| -> (r: bool)
            ensures
                r == !is_of_repo(*old(p), repo_id@),
                *final(p) == *old(p),
            {
                match &p.repo_id {
                    Some(id) => !str_eq(id.as_str(), repo_id),
                    None => true,
                }
            };
        self.provenance.retain(stays);
        proof {
            let after = self.provenance.state().pairs;
            let (keep, left) = choose|keep: Seq<bool>, left: Seq<HandleProvenance>| #[trigger]
                capped_map::kept_by(keep, left, before, after) && forall|i: int| #[trigger]
                    capped_map::is_decided(keep, i) ==> exists|k: &(String, String), v: &mut HandleProvenance|
                     #[trigger]
                        call_ensures(stays, (k, v), keep[i]) && k@ == before[i].0 && *v
                            == before[i].1 && *final(v) == left[i];
            assert forall|i: int| 0 <= i < keep.len() implies #[trigger] keep[i] == !is_of_repo(
                before[i].1,
                repo_id@,
            ) && left[i] == before[i].1 by {
                assert(capped_map::is_decided(keep, i));
                let (k, v) = choose|k: &(String, String), v: &mut HandleProvenance| #[trigger]
                    call_ensures(stays, (k, v), keep[i]) && k@ == before[i].0 && *v == before[i].1
                        && *final(v) == left[i];
                assert(call_ensures(stays, (k, v), keep[i]));
            }
            lemma_kept_others(keep, left, before, repo_id@);
        }
    }
}

proof fn lemma_kept_others(
    keep: Seq<bool>,
    left: Seq<HandleProvenance>,
    pairs: Seq<(HandleKey, HandleProvenance)>,
    repo_id: Seq<char>,
)
    requires
        keep.len() <= pairs.len(),
        left.len() == keep.len(),
        forall|i: int|
            0 <= i < keep.len() ==> #[trigger] keep[i] == !is_of_repo(pairs[i].1, repo_id)
                && left[i] == pairs[i].1,
    ensures
        capped_map::kept_pairs(keep, left, pairs) == of_other_repos(
            pairs.take(keep.len() as int),
            repo_id,
        ),
        keep.len() == pairs.len() ==> capped_map::kept_pairs(keep, left, pairs) == of_other_repos(
            pairs,
            repo_id,
        ),
    decreases keep.len(),
{
    if keep.len() > 0 {
        let n = keep.len() as int;
        lemma_kept_others(keep.drop_last(), left.drop_last(), pairs, repo_id);
        assert(pairs.take(n).drop_last() =~= pairs.take(n - 1));
        assert(keep[n - 1] == !is_of_repo(pairs[n - 1].1, repo_id));
    }
    if keep.len() == pairs.len() {
        assert(pairs.take(keep.len() as int) =~= pairs);
    }
}

/// What was recorded last for a handle is what is found for it.
pub proof fn law_record_get(s: TrackerState, key: HandleKey, p: HandleProvenance)
    requires
        s.inv(),
    ensures
        capped_map::value_of(s.provenance.insert(key, p).pairs, key) == Some(p),
{
    capped_map::law_insert_get(s.provenance, key, p);
}

/// After a repository's handles are forgotten, none of them is found, and the
/// others are as before.
pub proof fn law_invalidate_repo(
    pairs: Seq<(HandleKey, HandleProvenance)>,
    repo_id: Seq<char>,
    entry: (HandleKey, HandleProvenance),
)
    ensures
        of_other_repos(pairs, repo_id).contains(entry) <==> pairs.contains(entry) && !is_of_repo(
            entry.1,
            repo_id,
        ),
    decreases pairs.len(),
{
    if pairs.len() > 0 {
        let before = pairs.drop_last();
        law_invalidate_repo(before, repo_id, entry);
        let rest = of_other_repos(before, repo_id);
        let all = of_other_repos(pairs, repo_id);
        if pairs.contains(entry) {
            let i = choose|i: int| 0 <= i < pairs.len() && pairs[i] == entry;
            if i < before.len() {
                assert(before[i] == entry);
            }
        }
        if before.contains(entry) {
            let i = choose|i: int| 0 <= i < before.len() && before[i] == entry;
            assert(pairs[i] == entry);
        }
        assert(pairs[pairs.len() - 1] == pairs.last());
        if !is_of_repo(pairs.last().1, repo_id) {
            assert(all =~= rest.push(pairs.last()));
            assert(all[all.len() - 1] == pairs.last());
            if rest.contains(entry) {
                let i = choose|i: int| 0 <= i < rest.len() && rest[i] == entry;
                assert(all[i] == entry);
            }
            if all.contains(entry) {
                let i = choose|i: int| 0 <= i < all.len() && all[i] == entry;
                if i < rest.len() {
                    assert(rest[i] == entry);
                }
            }
        }
    }
}

/// What is known of the handles of a repository goes, and what is known of all others
/// stays, in its order.
pub proof fn law_other_repos_stay(pairs: Seq<(HandleKey, HandleProvenance)>, repo_id: Seq<char>)
    ensures
        of_other_repos(pairs, repo_id) == pairs.filter(
            |p: (HandleKey, HandleProvenance)| p.1.repo_id is None || p.1.repo_id->0@ != repo_id,
        ),
    decreases pairs.len(),
{
    reveal(Seq::filter);
    if pairs.len() > 0 {
        law_other_repos_stay(pairs.drop_last(), repo_id);
    }
}

} // verus!
