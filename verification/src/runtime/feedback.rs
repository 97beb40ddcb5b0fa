//! What is remembered of queries and expansions.

use vstd::prelude::*;
use vstd::hash_map::StringHashMap;
use crate::capped_map;
use crate::document::NodeType;
use crate::feedback::{
    ExpandEvent, ExpandEventView, QueryEvent, QueryHandle, QueryHandleView,
};
use crate::handle;
use crate::handle::{Handle, HandleSource, HandleView};
use crate::index::ExpandedHandleDetail;
use crate::parse::bpe;
use crate::parse::bpe::estimate_tokens;
use crate::provenance::{HandleProvenance, ProvenanceTracker, TrackerState};
use crate::query::QueryResult;
use crate::runtime::expand;
use crate::text;
use crate::text::extend_strings;

verus! {

broadcast use {
    vstd::string::group_string_axioms,
    vstd::seq::group_seq_axioms,
    vstd::map::group_map_axioms,
};

// ---------------------------------------------------------------------------
// Queries
// ---------------------------------------------------------------------------

/// What predictive indexing did before a query.
pub struct PendingPredictive {
    pub predicted_globs: Vec<String>,
    pub files_indexed: usize,
    /// For each file, the first predicted glob that it matches.
    pub file_to_glob: StringHashMap<String>,
}

/// Whether this is the event of a query.
pub open spec fn is_query_event(
    r: QueryEvent,
    query_text: Seq<char>,
    pending: Option<PendingPredictive>,
    result: QueryResult,
) -> bool {
    &&& r.query_text@ == query_text
    &&& r.handles_returned == result.handles@.len()
    &&& r.total_tokens == result.total_tokens
    &&& match pending {
        Some(p) => {
            &&& r.files_indexed == p.files_indexed
            &&& match r.predicted_globs {
                Some(globs) => p.predicted_globs@.len() > 0 && text::views(globs@) == text::views(
                    p.predicted_globs@,
                ),
                None => p.predicted_globs@.len() == 0,
            }
        },
        None => r.files_indexed == 0 && r.predicted_globs is None,
    }
}

/// The event of a query.
pub fn query_event(query_text: &str, pending: &Option<PendingPredictive>, result: &QueryResult) -> (r:
    QueryEvent)
    ensures
        is_query_event(r, query_text@, *pending, *result),
{
    let (predicted_globs, files_indexed): (Option<Vec<String>>, usize) = match pending {
        Some(p) => {
            if p.predicted_globs.len() > 0 {
                let mut globs: Vec<String> = Vec::new();
                extend_strings(&mut globs, &p.predicted_globs);
                assert(text::views(globs@) =~= text::views(p.predicted_globs@));
                (Some(globs), p.files_indexed)
            } else {
                (None, p.files_indexed)
            }
        },
        None => (None, 0),
    };
    QueryEvent {
        query_text: query_text.to_owned(),
        predicted_globs,
        files_indexed,
        handles_returned: result.handles.len(),
        total_tokens: result.total_tokens,
    }
}

/// The glob by which a file was indexed, if predictive indexing did so.
pub open spec fn glob_of(pending: Option<PendingPredictive>, path: Seq<char>) -> Option<Seq<char>> {
    match pending {
        Some(p) => if p.file_to_glob@.dom().contains(path) {
            Some(p.file_to_glob@[path]@)
        } else {
            None
        },
        None => None,
    }
}

/// The handles that a query returned, each with the glob by which its file was
/// indexed.
pub fn query_handles(result: &QueryResult, pending: &Option<PendingPredictive>) -> (r: Vec<
    QueryHandle,
>)
    ensures
        r@.len() == result.handles@.len(),
        forall|i: int|
            0 <= i < r@.len() ==> (#[trigger] r@[i])@ == QueryHandleView::of(
                result.handles@[i]@,
                glob_of(*pending, result.handles@[i]@.file_path),
            ),
{
    let mut list: Vec<QueryHandle> = Vec::new();
    let mut i: usize = 0;
    while i < result.handles.len()
        invariant
            i <= result.handles@.len(),
            list@.len() == i,
            forall|k: int|
                0 <= k < i ==> (#[trigger] list@[k])@ == QueryHandleView::of(
                    result.handles@[k]@,
                    glob_of(*pending, result.handles@[k]@.file_path),
                ),
        decreases result.handles@.len() - i,
    {
        let found: Option<String> = match pending {
            Some(p) => match p.file_to_glob.get(result.handles[i].file_path.as_str()) {
                Some(glob) => Some(glob.clone()),
                None => None,
            },
            None => None,
        };
        list.push(QueryHandle::from_handle(&result.handles[i], found));
        i = i + 1;
    }
    list
}

/// The events of the handles that a query expanded itself.
pub open spec fn auto_events(handles: Seq<HandleView>, query_event_id: i64) -> Seq<ExpandEventView>
    decreases handles.len(),
{
    if handles.len() == 0 {
        Seq::empty()
    } else {
        let before = auto_events(handles.drop_last(), query_event_id);
        let h = handles.last();
        if h.content is Some {
            before.push(
                ExpandEventView {
                    query_event_id: Some(query_event_id),
                    handle_id: handle::shown_id(h.id),
                    file_path: h.file_path,
                    node_type: h.node_type,
                    token_count: h.token_count,
                    auto_expanded: true,
                },
            )
        } else {
            before
        }
    }
}

/// The events of the handles that a query expanded itself.
pub fn auto_expand_events(result: &QueryResult, query_event_id: i64) -> (r: Vec<ExpandEvent>)
    ensures
        text::views(r@) == auto_events(text::views(result.handles@), query_event_id),
{
    let ghost all = text::views(result.handles@);
    let mut events: Vec<ExpandEvent> = Vec::new();
    let mut i: usize = 0;
    assert(text::views(events@) =~= auto_events(all.take(0), query_event_id));
    while i < result.handles.len()
        invariant
            i <= result.handles@.len(),
            all == text::views(result.handles@),
            text::views(events@) == auto_events(all.take(i as int), query_event_id),
        decreases result.handles@.len() - i,
    {
        let h: &Handle = &result.handles[i];
        proof {
            assert(all.take(i + 1).drop_last() =~= all.take(i as int));
            assert(all.take(i + 1).last() == h@);
        }
        if h.content.is_some() {
            let event: ExpandEvent = ExpandEvent {
                query_event_id: Some(query_event_id),
                handle_id: h.id.to_string(),
                file_path: h.file_path.clone(),
                node_type: h.node_type,
                token_count: h.token_count,
                auto_expanded: true,
            };
            proof {
                text::lemma_views_push(events@, event);
            }
            events.push(event);
        }
        i = i + 1;
    }
    assert(all.take(result.handles@.len() as int) =~= all);
    events
}

/// What a tracker holds after the event of a query that returned the handles.
pub open spec fn with_query_events(
    s: TrackerState,
    repo_key: Seq<char>,
    handles: Seq<HandleView>,
    event_id: i64,
) -> TrackerState
    decreases handles.len(),
{
    if handles.len() == 0 {
        s
    } else {
        let before = with_query_events(s, repo_key, handles.drop_last(), event_id);
        TrackerState {
            events: before.events.insert(
                (repo_key, handle::shown_id(handles.last().id)),
                event_id,
            ),
            ..before
        }
    }
}

/// Remembers which query returned the handles.
pub fn remember_query_event(
    tracker: &mut ProvenanceTracker,
    repo_key: &str,
    result: &QueryResult,
    event_id: i64,
)
    requires
        old(tracker).state().inv(),
    ensures
        final(tracker).state().inv(),
        final(tracker).state() == with_query_events(
            old(tracker).state(),
            repo_key@,
            text::views(result.handles@),
            event_id,
        ),
{
    let ghost all = text::views(result.handles@);
    let ghost start = tracker.state();
    let mut i: usize = 0;
    assert(all.take(0) =~= Seq::<HandleView>::empty());
    while i < result.handles.len()
        invariant
            i <= result.handles@.len(),
            all == text::views(result.handles@),
            tracker.state().inv(),
            tracker.state() == with_query_events(start, repo_key@, all.take(i as int), event_id),
        decreases result.handles@.len() - i,
    {
        proof {
            assert(all.take(i + 1).drop_last() =~= all.take(i as int));
            assert(all.take(i + 1).last() == result.handles@[i as int]@);
        }
        let id: String = result.handles[i].id.to_string();
        tracker.record_query_event(repo_key, id.as_str(), event_id);
        i = i + 1;
    }
    assert(all.take(result.handles@.len() as int) =~= all);
}

// ---------------------------------------------------------------------------
// Provenance
// ---------------------------------------------------------------------------

/// Where a handle of a result came from.
pub open spec fn is_provenance(
    p: HandleProvenance,
    h: HandleView,
    source: HandleSource,
    generation: Option<u64>,
    repo_id: Option<Seq<char>>,
) -> bool {
    &&& p.source == source
    &&& p.generation == (if generation is Some {
        generation
    } else {
        h.generation
    })
    &&& text::opt_view(p.repo_id) == repo_id
    &&& p.file_path@ == h.file_path
    &&& p.node_type == h.node_type
    &&& p.token_count == h.token_count
}

/// What a tracker holds after the given provenances of handles were recorded.
pub open spec fn with_provenances(
    s: TrackerState,
    repo_key: Seq<char>,
    handles: Seq<HandleView>,
    provenances: Seq<HandleProvenance>,
) -> TrackerState
    decreases handles.len(),
{
    if handles.len() == 0 {
        s
    } else {
        let before = with_provenances(s, repo_key, handles.drop_last(), provenances.drop_last());
        TrackerState {
            provenance: before.provenance.insert(
                (repo_key, handle::shown_id(handles.last().id)),
                provenances.last(),
            ),
            ..before
        }
    }
}

/// Whether each of the provenances is that of its handle.
pub open spec fn are_provenances(
    provenances: Seq<HandleProvenance>,
    handles: Seq<HandleView>,
    source: HandleSource,
    generation: Option<u64>,
    repo_id: Option<Seq<char>>,
) -> bool {
    &&& provenances.len() == handles.len()
    &&& forall|i: int|
        0 <= i < handles.len() ==> is_provenance(
            #[trigger] provenances[i],
            handles[i],
            source,
            generation,
            repo_id,
        )
}

/// Whether this is what a tracker holds after the handles of a result were
/// recorded.
pub open spec fn is_recorded(
    end: TrackerState,
    start: TrackerState,
    repo_key: Seq<char>,
    handles: Seq<HandleView>,
    source: HandleSource,
    generation: Option<u64>,
    repo_id: Option<Seq<char>>,
) -> bool {
    exists|ps: Seq<HandleProvenance>| #[trigger]
        are_provenances(ps, handles, source, generation, repo_id) && end == with_provenances(
            start,
            repo_key,
            handles,
            ps,
        )
}

/// Records where the handles of a result came from.
pub fn record_provenance_for_result(
    tracker: &mut ProvenanceTracker,
    repo_key: &str,
    result: &QueryResult,
    source: HandleSource,
    generation: Option<u64>,
    repo_id: &Option<String>,
)
    requires
        old(tracker).state().inv(),
    ensures
        final(tracker).state().inv(),
        is_recorded(
            final(tracker).state(),
            old(tracker).state(),
            repo_key@,
            text::views(result.handles@),
            source,
            generation,
            text::opt_view(*repo_id),
        ),
{
    let ghost all = text::views(result.handles@);
    let ghost start = tracker.state();
    let ghost mut ps: Seq<HandleProvenance> = Seq::empty();
    let ghost repo = text::opt_view(*repo_id);
    let mut i: usize = 0;
    assert(all.take(0) =~= Seq::<HandleView>::empty());
    while i < result.handles.len()
        invariant
            i <= result.handles@.len(),
            all == text::views(result.handles@),
            repo == text::opt_view(*repo_id),
            tracker.state().inv(),
            are_provenances(ps, all.take(i as int), source, generation, repo),
            tracker.state() == with_provenances(start, repo_key@, all.take(i as int), ps),
        decreases result.handles@.len() - i,
    {
        let h: &Handle = &result.handles[i];
        let p: HandleProvenance = HandleProvenance {
            source,
            generation: if generation.is_some() {
                generation
            } else {
                h.generation
            },
            repo_id: repo_id.clone(),
            file_path: h.file_path.clone(),
            node_type: h.node_type,
            token_count: h.token_count,
        };
        let id: String = h.id.to_string();
        proof {
            assert(all.take(i + 1).drop_last() =~= all.take(i as int));
            assert(all.take(i + 1).last() == h@);
            assert(is_provenance(p, h@, source, generation, repo));
            assert(ps.push(p).drop_last() =~= ps);
            let next = ps.push(p);
            assert forall|k: int| 0 <= k < all.take(i + 1).len() implies is_provenance(
                #[trigger] next[k],
                all.take(i + 1)[k],
                source,
                generation,
                repo,
            ) by {
                if k < i {
                    assert(next[k] == ps[k]);
                    assert(all.take(i + 1)[k] == all.take(i as int)[k]);
                }
            }
            ps = next;
        }
        tracker.record(repo_key, id.as_str(), p);
        i = i + 1;
    }
    assert(all.take(result.handles@.len() as int) =~= all);
}

/// A handle of an evidence pack.
#[derive(Debug)]
pub struct EvidenceHandle {
    /// As it is shown.
    pub id: String,
    pub file_path: String,
    pub node_type: NodeType,
    pub token_count: usize,
    pub source: HandleSource,
    pub generation: Option<u64>,
}

/// Whether this is where a handle of an evidence pack came from. Only the
/// service's handles are of the service's repository.
pub open spec fn is_evidence_provenance(
    p: HandleProvenance,
    h: EvidenceHandle,
    service_repo_id: Option<Seq<char>>,
) -> bool {
    &&& p.source == h.source
    &&& p.generation == h.generation
    &&& text::opt_view(p.repo_id) == (if h.source == HandleSource::Service {
        service_repo_id
    } else {
        None
    })
    &&& p.file_path@ == h.file_path@
    &&& p.node_type == h.node_type
    &&& p.token_count == h.token_count
}

/// What a tracker holds after the given provenances of an evidence pack's handles
/// were recorded.
pub open spec fn with_evidence(
    s: TrackerState,
    repo_key: Seq<char>,
    handles: Seq<EvidenceHandle>,
    provenances: Seq<HandleProvenance>,
) -> TrackerState
    decreases handles.len(),
{
    if handles.len() == 0 {
        s
    } else {
        let before = with_evidence(s, repo_key, handles.drop_last(), provenances.drop_last());
        TrackerState {
            provenance: before.provenance.insert(
                (repo_key, handles.last().id@),
                provenances.last(),
            ),
            ..before
        }
    }
}

/// Whether each of the provenances is that of its handle of an evidence pack.
pub open spec fn are_evidence_provenances(
    provenances: Seq<HandleProvenance>,
    handles: Seq<EvidenceHandle>,
    service_repo_id: Option<Seq<char>>,
) -> bool {
    &&& provenances.len() == handles.len()
    &&& forall|i: int|
        0 <= i < handles.len() ==> is_evidence_provenance(
            #[trigger] provenances[i],
            handles[i],
            service_repo_id,
        )
}

/// Records where the handles of an evidence pack came from.
pub fn record_provenance_for_evidence_pack(
    tracker: &mut ProvenanceTracker,
    repo_key: &str,
    handles: &Vec<EvidenceHandle>,
    service_repo_id: &Option<String>,
)
    requires
        old(tracker).state().inv(),
    ensures
        final(tracker).state().inv(),
        exists|ps: Seq<HandleProvenance>| #[trigger]
            are_evidence_provenances(ps, handles@, text::opt_view(*service_repo_id))
                && final(tracker).state() == with_evidence(
                old(tracker).state(),
                repo_key@,
                handles@,
                ps,
            ),
{
    let ghost start = tracker.state();
    let ghost mut ps: Seq<HandleProvenance> = Seq::empty();
    let ghost repo = text::opt_view(*service_repo_id);
    let mut i: usize = 0;
    assert(handles@.take(0) =~= Seq::<EvidenceHandle>::empty());
    while i < handles.len()
        invariant
            i <= handles@.len(),
            repo == text::opt_view(*service_repo_id),
            tracker.state().inv(),
            are_evidence_provenances(ps, handles@.take(i as int), repo),
            tracker.state() == with_evidence(start, repo_key@, handles@.take(i as int), ps),
        decreases handles@.len() - i,
    {
        let h: &EvidenceHandle = &handles[i];
        let p: HandleProvenance = HandleProvenance {
            source: h.source,
            generation: h.generation,
            repo_id: match h.source {
                HandleSource::Service => service_repo_id.clone(),
                HandleSource::Local => None,
            },
            file_path: h.file_path.clone(),
            node_type: h.node_type,
            token_count: h.token_count,
        };
        proof {
            let now = handles@.take(i + 1);
            assert(now.drop_last() =~= handles@.take(i as int));
            assert(now.last() == *h);
            assert(is_evidence_provenance(p, *h, repo));
            assert(ps.push(p).drop_last() =~= ps);
            let next = ps.push(p);
            assert forall|k: int| 0 <= k < now.len() implies is_evidence_provenance(
                #[trigger] next[k],
                now[k],
                repo,
            ) by {
                if k < i {
                    assert(next[k] == ps[k]);
                    assert(now[k] == handles@.take(i as int)[k]);
                }
            }
            ps = next;
        }
        tracker.record(repo_key, h.id.as_str(), p);
        i = i + 1;
    }
    assert(handles@.take(handles@.len() as int) =~= handles@);
}

// ---------------------------------------------------------------------------
// Expansions
// ---------------------------------------------------------------------------

/// What a tracker holds after the handles were expanded.
pub open spec fn with_expanded(
    s: TrackerState,
    repo_key: Seq<char>,
    contents: Seq<expand::Expanded>,
) -> TrackerState
    decreases contents.len(),
{
    if contents.len() == 0 {
        s
    } else {
        let before = with_expanded(s, repo_key, contents.drop_last());
        TrackerState {
            expanded: before.expanded.insert((repo_key, contents.last().0), ()),
            ..before
        }
    }
}

/// Remembers that the handles were expanded.
pub fn record_recently_expanded(
    tracker: &mut ProvenanceTracker,
    repo_key: &str,
    contents: &Vec<(String, String)>,
)
    requires
        old(tracker).state().inv(),
    ensures
        final(tracker).state().inv(),
        final(tracker).state() == with_expanded(
            old(tracker).state(),
            repo_key@,
            text::views(contents@),
        ),
{
    let ghost all = text::views(contents@);
    let ghost start = tracker.state();
    let mut i: usize = 0;
    assert(all.take(0) =~= Seq::<expand::Expanded>::empty());
    while i < contents.len()
        invariant
            i <= contents@.len(),
            all == text::views(contents@),
            tracker.state().inv(),
            tracker.state() == with_expanded(start, repo_key@, all.take(i as int)),
        decreases contents@.len() - i,
    {
        proof {
            assert(all.take(i + 1).drop_last() =~= all.take(i as int));
            assert(all.take(i + 1).last() == contents@[i as int]@);
        }
        tracker.mark_expanded(repo_key, contents[i].0.as_str());
        i = i + 1;
    }
    assert(all.take(contents@.len() as int) =~= all);
}

/// The contents of the handles that came from the local index.
pub open spec fn from_local(
    s: TrackerState,
    repo_key: Seq<char>,
    contents: Seq<expand::Expanded>,
) -> Seq<expand::Expanded>
    decreases contents.len(),
{
    if contents.len() == 0 {
        Seq::empty()
    } else {
        let before = from_local(s, repo_key, contents.drop_last());
        match expand::origin(s, repo_key, contents.last().0) {
            Some(p) if p.source == HandleSource::Local => before.push(contents.last()),
            _ => before,
        }
    }
}

/// The contents whose expansion is recorded here: with a service, which records
/// the rest itself, those of the handles that came from the local index.
pub fn recorded_contents(
    tracker: &ProvenanceTracker,
    repo_key: &str,
    contents: &Vec<(String, String)>,
    service_mode: bool,
) -> (r: Vec<(String, String)>)
    requires
        tracker.state().inv(),
    ensures
        text::views(r@) == (if service_mode {
            from_local(tracker.state(), repo_key@, text::views(contents@))
        } else {
            text::views(contents@)
        }),
{
    let ghost all = text::views(contents@);
    let ghost s = tracker.state();
    let mut list: Vec<(String, String)> = Vec::new();
    let mut i: usize = 0;
    proof {
        assert(text::views(list@) =~= all.take(0));
        assert(text::views(list@) =~= from_local(s, repo_key@, all.take(0)));
    }
    while i < contents.len()
        invariant
            i <= contents@.len(),
            all == text::views(contents@),
            s == tracker.state(),
            s.inv(),
            text::views(list@) == (if service_mode {
                from_local(s, repo_key@, all.take(i as int))
            } else {
                all.take(i as int)
            }),
        decreases contents@.len() - i,
    {
        let keep: bool = if service_mode {
            match tracker.get(repo_key, contents[i].0.as_str()) {
                Some(p) => match p.source {
                    HandleSource::Local => true,
                    HandleSource::Service => false,
                },
                None => false,
            }
        } else {
            true
        };
        proof {
            assert(all.take(i + 1).drop_last() =~= all.take(i as int));
            assert(all.take(i + 1).last() == contents@[i as int]@);
            assert(all.take(i + 1) =~= all.take(i as int).push(contents@[i as int]@));
            text::lemma_views_push(list@, contents@[i as int]);
        }
        if keep {
            list.push((contents[i].0.clone(), contents[i].1.clone()));
            assert(text::views(list@).last() == contents@[i as int]@);
        }
        i = i + 1;
    }
    assert(all.take(contents@.len() as int) =~= all);
    list
}

/// The handles of unknown provenance among those that were expanded.
pub open spec fn without_origin(
    s: TrackerState,
    repo_key: Seq<char>,
    contents: Seq<expand::Expanded>,
) -> Seq<Seq<char>> {
    expand::unknown_ids(s, repo_key, Seq::new(contents.len(), |i: int| contents[i].0))
}

/// The handles of unknown provenance among those that were expanded. Their
/// details are looked for in the local index.
pub fn missing_handle_ids(
    tracker: &ProvenanceTracker,
    repo_key: &str,
    contents: &Vec<(String, String)>,
) -> (r: Vec<String>)
    requires
        tracker.state().inv(),
    ensures
        text::views(r@) == without_origin(tracker.state(), repo_key@, text::views(contents@)),
{
    let ghost pairs = text::views(contents@);
    let ghost all = Seq::new(pairs.len(), |i: int| pairs[i].0);
    let ghost s = tracker.state();
    let mut list: Vec<String> = Vec::new();
    let mut i: usize = 0;
    assert(text::views(list@) =~= expand::unknown_ids(s, repo_key@, all.take(0)));
    while i < contents.len()
        invariant
            i <= contents@.len(),
            pairs == text::views(contents@),
            all == Seq::new(pairs.len(), |i: int| pairs[i].0),
            s == tracker.state(),
            s.inv(),
            text::views(list@) == expand::unknown_ids(s, repo_key@, all.take(i as int)),
        decreases contents@.len() - i,
    {
        proof {
            assert(all.take(i + 1).drop_last() =~= all.take(i as int));
            assert(all.take(i + 1).last() == contents@[i as int].0@);
            text::lemma_views_push(list@, contents@[i as int].0);
        }
        if tracker.get(repo_key, contents[i].0.as_str()).is_none() {
            list.push(contents[i].0.clone());
        }
        i = i + 1;
    }
    assert(all.take(contents@.len() as int) =~= all);
    list
}

/// Where a handle stands and how large it is.
#[derive(Debug)]
pub struct HandleMetadata {
    pub file_path: String,
    pub node_type: NodeType,
    pub token_count: usize,
}

/// Whether this is what is known of a handle: what its provenance says, else
/// what the local index says, else what its content shows.
pub open spec fn is_metadata(
    r: HandleMetadata,
    s: TrackerState,
    repo_key: Seq<char>,
    handle_id: Seq<char>,
    content: Seq<char>,
    details: Map<Seq<char>, HandleMetadata>,
) -> bool {
    match expand::origin(s, repo_key, handle_id) {
        Some(p) => {
            &&& r.file_path@ == p.file_path@
            &&& r.node_type == p.node_type
            &&& r.token_count == p.token_count
        },
        None => if details.dom().contains(handle_id) {
            &&& r.file_path@ == details[handle_id].file_path@
            &&& r.node_type == details[handle_id].node_type
            &&& r.token_count == details[handle_id].token_count
        } else {
            &&& r.file_path@ == "<unknown>"@
            &&& r.node_type == NodeType::Chunk
            &&& r.token_count == bpe::tokens(content)
        },
    }
}

/// What is known of a handle: what its provenance says, else what the local
/// index says, else what its content shows.
pub fn resolve_handle_metadata(
    tracker: &ProvenanceTracker,
    repo_key: &str,
    handle_id: &str,
    content: &str,
    details: &StringHashMap<HandleMetadata>,
) -> (r: HandleMetadata)
    requires
        tracker.state().inv(),
    ensures
        is_metadata(r, tracker.state(), repo_key@, handle_id@, content@, details@),
{
    match tracker.get(repo_key, handle_id) {
        Some(p) => HandleMetadata {
            file_path: p.file_path.clone(),
            node_type: p.node_type,
            token_count: p.token_count,
        },
        None => match details.get(handle_id) {
            Some(d) => HandleMetadata {
                file_path: d.file_path.clone(),
                node_type: d.node_type,
                token_count: d.token_count,
            },
            None => HandleMetadata {
                file_path: "<unknown>".to_owned(),
                node_type: NodeType::Chunk,
                token_count: estimate_tokens(content),
            },
        },
    }
}

/// Whether this is the event of an expansion that a caller asked for.
pub open spec fn is_expand_event(
    e: ExpandEvent,
    s: TrackerState,
    repo_key: Seq<char>,
    expanded: expand::Expanded,
    details: Map<Seq<char>, HandleMetadata>,
) -> bool {
    &&& e.handle_id@ == expanded.0
    &&& e.query_event_id == capped_map::value_of(s.events.pairs, (repo_key, expanded.0))
    &&& !e.auto_expanded
    &&& exists|m: HandleMetadata| #[trigger]
        is_metadata(m, s, repo_key, expanded.0, expanded.1, details) && e.file_path@ == m.file_path@
            && e.node_type == m.node_type && e.token_count == m.token_count
}

/// The events of expansions that a caller asked for.
pub fn expand_events(
    tracker: &ProvenanceTracker,
    repo_key: &str,
    contents: &Vec<(String, String)>,
    details: &StringHashMap<HandleMetadata>,
) -> (r: Vec<ExpandEvent>)
    requires
        tracker.state().inv(),
    ensures
        r@.len() == contents@.len(),
        forall|i: int|
            0 <= i < r@.len() ==> is_expand_event(
                #[trigger] r@[i],
                tracker.state(),
                repo_key@,
                contents@[i]@,
                details@,
            ),
{
    let mut events: Vec<ExpandEvent> = Vec::new();
    let mut i: usize = 0;
    while i < contents.len()
        invariant
            i <= contents@.len(),
            events@.len() == i,
            tracker.state().inv(),
            forall|k: int|
                0 <= k < i ==> is_expand_event(
                    #[trigger] events@[k],
                    tracker.state(),
                    repo_key@,
                    contents@[k]@,
                    details@,
                ),
        decreases contents@.len() - i,
    {
        let id: &String = &contents[i].0;
        let m: HandleMetadata = resolve_handle_metadata(
            tracker,
            repo_key,
            id.as_str(),
            contents[i].1.as_str(),
            details,
        );
        let event: ExpandEvent = ExpandEvent {
            query_event_id: tracker.query_event_id(repo_key, id.as_str()),
            handle_id: id.clone(),
            file_path: m.file_path.clone(),
            node_type: m.node_type,
            token_count: m.token_count,
            auto_expanded: false,
        };
        assert(is_metadata(
            m,
            tracker.state(),
            repo_key@,
            contents@[i as int]@.0,
            contents@[i as int]@.1,
            details@,
        ));
        events.push(event);
        i = i + 1;
    }
    events
}

/// What the details of a handle say of it.
pub open spec fn metadata_of(d: ExpandedHandleDetail) -> HandleMetadata {
    HandleMetadata { file_path: d.file_path, node_type: d.node_type, token_count: d.token_count }
}

/// What is known after details were taken in, one after the other.
pub open spec fn with_details(
    known: Map<Seq<char>, HandleMetadata>,
    details: Seq<ExpandedHandleDetail>,
) -> Map<Seq<char>, HandleMetadata>
    decreases details.len(),
{
    if details.len() == 0 {
        known
    } else {
        with_details(known, details.drop_last()).insert(
            details.last().handle_id@,
            metadata_of(details.last()),
        )
    }
}

/// Details to ask the local index for.
#[derive(Debug)]
pub enum DetailTask {
    /// Of several handles, together.
    Batch(Vec<String>),
    /// Of one handle.
    One(String),
}

/// The view of a [`DetailTask`].
pub enum DetailTaskView {
    Batch(Seq<Seq<char>>),
    One(Seq<char>),
}

impl View for DetailTask {
    type V = DetailTaskView;

    open spec fn view(&self) -> DetailTaskView {
        match *self {
            DetailTask::Batch(ids) => DetailTaskView::Batch(text::views(ids@)),
            DetailTask::One(id) => DetailTaskView::One(id@),
        }
    }
}

/// One task for each handle.
pub open spec fn detail_ones(ids: Seq<Seq<char>>) -> Seq<DetailTaskView> {
    Seq::new(ids.len(), |i: int| DetailTaskView::One(ids[i]))
}

/// The search for details of handles: all together, and one by one where that
/// fails.
pub struct DetailRun {
    pub tasks: Vec<DetailTask>,
    pub details: StringHashMap<HandleMetadata>,
}

impl DetailRun {
    /// Starts a search for details of the given handles.
    pub fn start(ids: Vec<String>) -> (r: DetailRun)
        ensures
            r.details@ == Map::<Seq<char>, HandleMetadata>::empty(),
            text::views(r.tasks@) == (if ids@.len() == 0 {
                Seq::empty()
            } else {
                seq![DetailTaskView::Batch(text::views(ids@))]
            }),
    {
        let mut tasks: Vec<DetailTask> = Vec::new();
        let ghost given = text::views(ids@);
        if ids.len() > 0 {
            tasks.push(DetailTask::Batch(ids));
            assert(text::views(tasks@) =~= seq![DetailTaskView::Batch(given)]);
        } else {
            assert(text::views(tasks@) =~= Seq::empty());
        }
        DetailRun { tasks, details: StringHashMap::new() }
    }

    /// Takes in what came of the first task: details, or `None` where it failed.
    pub fn answer(&mut self, reply: Option<Vec<ExpandedHandleDetail>>)
        requires
            old(self).tasks@.len() > 0,
        ensures
            match (old(self).tasks@[0]@, reply) {
                (DetailTaskView::Batch(ids), Some(found)) => {
                    &&& final(self).details@ == with_details(old(self).details@, found@)
                    &&& text::views(final(self).tasks@) == text::views(
                        old(self).tasks@,
                    ).drop_first()
                },
                (DetailTaskView::Batch(ids), None) => {
                    &&& final(self).details@ == old(self).details@
                    &&& text::views(final(self).tasks@) == detail_ones(ids) + text::views(
                        old(self).tasks@,
                    ).drop_first()
                },
                (DetailTaskView::One(_), reply) => {
                    &&& final(self).details@ == (match reply {
                        Some(found) if found@.len() > 0 => old(self).details@.insert(
                            found@.last().handle_id@,
                            metadata_of(found@.last()),
                        ),
                        _ => old(self).details@,
                    })
                    &&& text::views(final(self).tasks@) == text::views(
                        old(self).tasks@,
                    ).drop_first()
                },
            },
    {
        let ghost before = text::views(self.tasks@);
        let task: DetailTask = self.tasks.remove(0);
        assert(text::views(self.tasks@) =~= before.drop_first());
        match (task, reply) {
            (DetailTask::Batch(_), Some(found)) => {
                self.add_details(&found);
            },
            (DetailTask::Batch(ids), None) => {
                let mut tasks: Vec<DetailTask> = one_by_one(&ids);
                proof {
                    text::lemma_views_add(tasks@, self.tasks@);
                }
                tasks.append(&mut self.tasks);
                self.tasks = tasks;
            },
            (DetailTask::One(_), Some(found)) => {
                if found.len() > 0 {
                    let last: &ExpandedHandleDetail = &found[found.len() - 1];
                    self.details.insert(
                        last.handle_id.clone(),
                        HandleMetadata {
                            file_path: last.file_path.clone(),
                            node_type: last.node_type,
                            token_count: last.token_count,
                        },
                    );
                }
            },
            (DetailTask::One(_), None) => {},
        }
    }

    fn add_details(&mut self, found: &Vec<ExpandedHandleDetail>)
        ensures
            final(self).details@ == with_details(old(self).details@, found@),
            final(self).tasks == old(self).tasks,
    {
        let ghost start = self.details@;
        let mut i: usize = 0;
        assert(found@.take(0) =~= Seq::<ExpandedHandleDetail>::empty());
        while i < found.len()
            invariant
                i <= found@.len(),
                self.tasks == old(self).tasks,
                self.details@ == with_details(start, found@.take(i as int)),
            decreases found@.len() - i,
        {
            let d: &ExpandedHandleDetail = &found[i];
            proof {
                assert(found@.take(i + 1).drop_last() =~= found@.take(i as int));
                assert(found@.take(i + 1).last() == *d);
            }
            self.details.insert(
                d.handle_id.clone(),
                HandleMetadata {
                    file_path: d.file_path.clone(),
                    node_type: d.node_type,
                    token_count: d.token_count,
                },
            );
            i = i + 1;
        }
        assert(found@.take(found@.len() as int) =~= found@);
    }
}

fn one_by_one(ids: &Vec<String>) -> (r: Vec<DetailTask>)
    ensures
        text::views(r@) == detail_ones(text::views(ids@)),
{
    let mut tasks: Vec<DetailTask> = Vec::new();
    let ghost all = detail_ones(text::views(ids@));
    let mut i: usize = 0;
    assert(text::views(tasks@) =~= all.take(0));
    while i < ids.len()
        invariant
            i <= ids@.len(),
            all == detail_ones(text::views(ids@)),
            text::views(tasks@) == all.take(i as int),
        decreases ids@.len() - i,
    {
        let task: DetailTask = DetailTask::One(ids[i].clone());
        proof {
            text::lemma_views_push(tasks@, task);
            assert(all.take(i + 1) =~= all.take(i as int).push(task@));
        }
        tasks.push(task);
        i = i + 1;
    }
    assert(all.take(ids@.len() as int) =~= all);
    tasks
}

} // verus!
