//! What a session makes later of what it has seen: of the handles of a query when they
//! are expanded, and of the text of a query when it finds nothing.

use vstd::prelude::*;
use crate::capped_map;
use crate::feedback::{ExpandEvent, ExpandEventView, QueryEvent, QueryHandleView};
use crate::handle;
use crate::handle::{HandleSource, HandleView};
use crate::provenance;
use crate::provenance::TrackerState;
use crate::query::{MatchMode, QueryParamsView, QueryResult};
use crate::index::ExpandedHandleDetail;
use crate::runtime;
use crate::runtime::expand;
use crate::runtime::expand::{ReplyView, RunView, ServiceHandleView, TaskView};
use crate::runtime::feedback;
use crate::runtime::feedback::{EvidenceHandle, HandleMetadata, PendingPredictive};
use crate::runtime::predictive;
use crate::text;

verus! {

broadcast use vstd::seq::group_seq_axioms;

/// The name that a handle is called by.
pub open spec fn called(h: HandleView) -> Seq<char> {
    seq!['h'] + h.id
}

proof fn lemma_called(h: HandleView)
    ensures
        handle::shown_id(h.id) == called(h),
{
    reveal_strlit("h");
    assert("h"@ =~= seq!['h']);
}

// ---------------------------------------------------------------------------
// Handles that were recorded
// ---------------------------------------------------------------------------

proof fn lemma_recorded_inv(
    s: TrackerState,
    repo_key: Seq<char>,
    handles: Seq<HandleView>,
    ps: Seq<provenance::HandleProvenance>,
)
    requires
        s.inv(),
        ps.len() == handles.len(),
    ensures
        feedback::with_provenances(s, repo_key, handles, ps).inv(),
    decreases handles.len(),
{
    if handles.len() > 0 {
        lemma_recorded_inv(s, repo_key, handles.drop_last(), ps.drop_last());
        let before = feedback::with_provenances(s, repo_key, handles.drop_last(), ps.drop_last());
        capped_map::law_len_within_cap(
            before.provenance,
            (repo_key, handle::shown_id(handles.last().id)),
            ps.last(),
        );
    }
}

/// A handle that was recorded last is known by its name, with where it came from, its
/// generation and its repository. A generation that is given goes before its own.
pub proof fn law_recorded_known(
    end: TrackerState,
    start: TrackerState,
    repo_key: Seq<char>,
    handles: Seq<HandleView>,
    source: HandleSource,
    generation: Option<u64>,
    repo_id: Option<Seq<char>>,
)
    requires
        start.inv(),
        handles.len() > 0,
        feedback::is_recorded(end, start, repo_key, handles, source, generation, repo_id),
    ensures
        expand::origin(end, repo_key, called(handles.last())) matches Some(p) && {
            let h = handles.last();
            &&& p.source == source
            &&& p.generation == if generation is Some {
                generation
            } else {
                h.generation
            }
            &&& text::opt_view(p.repo_id) == repo_id
            &&& p.file_path@ == h.file_path && p.node_type == h.node_type && p.token_count
                == h.token_count
        },
        end.events == start.events && end.expanded == start.expanded,
{
    let h = handles.last();
    lemma_called(h);
    let ps = choose|ps: Seq<provenance::HandleProvenance>| #[trigger]
        feedback::are_provenances(ps, handles, source, generation, repo_id) && end
            == feedback::with_provenances(start, repo_key, handles, ps);
    assert(feedback::is_provenance(ps[handles.len() - 1], h, source, generation, repo_id));
    let before = feedback::with_provenances(
        start,
        repo_key,
        handles.drop_last(),
        ps.drop_last(),
    );
    lemma_recorded_inv(start, repo_key, handles.drop_last(), ps.drop_last());
    capped_map::law_insert_get(before.provenance, (repo_key, called(h)), ps.last());
    lemma_provenances_only(start, repo_key, handles, ps);
}

proof fn lemma_provenances_only(
    s: TrackerState,
    repo_key: Seq<char>,
    handles: Seq<HandleView>,
    ps: Seq<provenance::HandleProvenance>,
)
    ensures
        feedback::with_provenances(s, repo_key, handles, ps).events == s.events,
        feedback::with_provenances(s, repo_key, handles, ps).expanded == s.expanded,
    decreases handles.len(),
{
    if handles.len() > 0 {
        lemma_provenances_only(s, repo_key, handles.drop_last(), ps.drop_last());
    }
}

/// A handle that was recorded last is expanded where it came from: a local one here, and
/// one of the service there, with its generation and its repository.
pub proof fn law_expanded_where_found(
    end: TrackerState,
    start: TrackerState,
    repo_key: Seq<char>,
    handles: Seq<HandleView>,
    source: HandleSource,
    generation: Option<u64>,
    repo_id: Option<Seq<char>>,
)
    requires
        start.inv(),
        handles.len() > 0,
        feedback::is_recorded(end, start, repo_key, handles, source, generation, repo_id),
    ensures
        ({
            let id = called(handles.last());
            let plan = expand::planned(end, repo_key, seq![id]);
            &&& plan.tasks == match source {
                HandleSource::Local => seq![TaskView::LocalBatch(seq![id])],
                HandleSource::Service => seq![
                    TaskView::ServiceResolve(
                        seq![
                            ServiceHandleView {
                                id,
                                generation: if generation is Some {
                                    generation
                                } else {
                                    handles.last().generation
                                },
                                repo_id,
                            },
                        ],
                    ),
                ],
            }
            &&& plan.contents.len() == 0 && plan.failed_ids.len() == 0
        }),
{
    law_recorded_known(end, start, repo_key, handles, source, generation, repo_id);
    let id = called(handles.last());
    lemma_plan_one(end, repo_key, id);
}

proof fn lemma_plan_one(s: TrackerState, repo_key: Seq<char>, id: Seq<char>)
    ensures
        expand::planned(s, repo_key, seq![id]).tasks == match expand::origin(s, repo_key, id) {
            Some(p) => match p.source {
                HandleSource::Local => seq![TaskView::LocalBatch(seq![id])],
                HandleSource::Service => seq![
                    TaskView::ServiceResolve(
                        seq![
                            ServiceHandleView {
                                id,
                                generation: p.generation,
                                repo_id: text::opt_view(p.repo_id),
                            },
                        ],
                    ),
                ],
            },
            None => seq![TaskView::UnknownLocal(id)],
        },
{
    let one = seq![id];
    let none = Seq::<Seq<char>>::empty();
    assert(one.drop_last() =~= none);
    assert(one.last() == id);
    reveal_with_fuel(crate::strings::distinct_spec, 2);
    reveal_with_fuel(expand::local_ids, 2);
    reveal_with_fuel(expand::service_handles, 2);
    reveal_with_fuel(expand::unknown_ids, 2);
    assert(crate::strings::distinct_spec(one) =~= one);
    let tasks = expand::planned(s, repo_key, one).tasks;
    match expand::origin(s, repo_key, id) {
        Some(p) => {
            if p.source == HandleSource::Local {
                assert(expand::local_ids(s, repo_key, one) =~= one);
                assert(tasks =~= seq![TaskView::LocalBatch(seq![id])]);
            } else {
                assert(expand::service_handles(s, repo_key, one) =~= seq![
                    ServiceHandleView {
                        id,
                        generation: p.generation,
                        repo_id: text::opt_view(p.repo_id),
                    },
                ]);
                assert(tasks.len() == 1);
                assert(tasks =~= seq![tasks[0]]);
            }
        },
        None => {
            assert(expand::unknown_ids(s, repo_key, one) =~= one);
            assert(tasks =~= seq![TaskView::UnknownLocal(id)]);
        },
    }
}

/// A handle of which nothing is known is looked for here first.
pub proof fn law_unknown_looked_for_here(s: TrackerState, repo_key: Seq<char>, id: Seq<char>)
    requires
        !capped_map::has_key(s.provenance.pairs, (repo_key, id)),
    ensures
        expand::planned(s, repo_key, seq![id]).tasks == seq![TaskView::UnknownLocal(id)],
{
    lemma_plan_one(s, repo_key, id);
}

/// What is counted of the expansion of a handle that was recorded last is what was
/// recorded of it.
pub proof fn law_expansion_counted(
    end: TrackerState,
    start: TrackerState,
    repo_key: Seq<char>,
    handles: Seq<HandleView>,
    source: HandleSource,
    generation: Option<u64>,
    repo_id: Option<Seq<char>>,
    e: ExpandEvent,
    content: Seq<char>,
    details: Map<Seq<char>, HandleMetadata>,
)
    requires
        start.inv(),
        handles.len() > 0,
        feedback::is_recorded(end, start, repo_key, handles, source, generation, repo_id),
        feedback::is_expand_event(e, end, repo_key, (called(handles.last()), content), details),
    ensures
        e.handle_id@ == called(handles.last()),
        e.file_path@ == handles.last().file_path,
        e.node_type == handles.last().node_type,
        e.token_count == handles.last().token_count,
        !e.auto_expanded,
{
    law_recorded_known(end, start, repo_key, handles, source, generation, repo_id);
}

/// An expansion of the handle that a query returned last is counted to that query.
pub proof fn law_expansion_of_query(
    s: TrackerState,
    repo_key: Seq<char>,
    handles: Seq<HandleView>,
    event_id: i64,
    e: ExpandEvent,
    content: Seq<char>,
    details: Map<Seq<char>, HandleMetadata>,
)
    requires
        s.inv(),
        handles.len() > 0,
        feedback::is_expand_event(
            e,
            feedback::with_query_events(s, repo_key, handles, event_id),
            repo_key,
            (called(handles.last()), content),
            details,
        ),
    ensures
        e.query_event_id == Some(event_id),
{
    let h = handles.last();
    lemma_called(h);
    lemma_events_inv(s, repo_key, handles.drop_last(), event_id);
    let before = feedback::with_query_events(s, repo_key, handles.drop_last(), event_id);
    capped_map::law_insert_get(before.events, (repo_key, called(h)), event_id);
}

proof fn lemma_events_inv(
    s: TrackerState,
    repo_key: Seq<char>,
    handles: Seq<HandleView>,
    event_id: i64,
)
    requires
        s.inv(),
    ensures
        feedback::with_query_events(s, repo_key, handles, event_id).inv(),
    decreases handles.len(),
{
    if handles.len() > 0 {
        lemma_events_inv(s, repo_key, handles.drop_last(), event_id);
        let before = feedback::with_query_events(s, repo_key, handles.drop_last(), event_id);
        capped_map::law_len_within_cap(
            before.events,
            (repo_key, handle::shown_id(handles.last().id)),
            event_id,
        );
    }
}

/// The handle that was expanded last is remembered as expanded, and nothing else that is
/// known changes.
pub proof fn law_expanded_remembered(
    s: TrackerState,
    repo_key: Seq<char>,
    contents: Seq<expand::Expanded>,
)
    requires
        s.inv(),
    ensures
        ({
            let end = feedback::with_expanded(s, repo_key, contents);
            &&& end.inv() && end.provenance == s.provenance && end.events == s.events
            &&& contents.len() > 0 ==> capped_map::has_key(
                end.expanded.pairs,
                (repo_key, contents.last().0),
            )
        }),
    decreases contents.len(),
{
    if contents.len() > 0 {
        law_expanded_remembered(s, repo_key, contents.drop_last());
        let before = feedback::with_expanded(s, repo_key, contents.drop_last());
        let key = (repo_key, contents.last().0);
        capped_map::law_len_within_cap(before.expanded, key, ());
        capped_map::law_insert_get(before.expanded, key, ());
    }
}

/// A query that expands its handles itself counts an expansion for each that has
/// content, in their order.
pub proof fn law_auto_expansions(handles: Seq<HandleView>, query_event_id: i64)
    ensures
        ({
            let events = feedback::auto_events(handles, query_event_id);
            let expanded = handles.filter(|h: HandleView| h.content is Some);
            &&& events.len() == expanded.len()
            &&& forall|k: int|
                0 <= k < events.len() ==> is_auto_event(
                    #[trigger] events[k],
                    expanded[k],
                    query_event_id,
                )
        }),
    decreases handles.len(),
{
    reveal(Seq::filter);
    if handles.len() > 0 {
        let rest = handles.drop_last();
        law_auto_expansions(rest, query_event_id);
        lemma_called(handles.last());
        let test = |h: HandleView| h.content is Some;
        assert(handles.filter(test) == if test(handles.last()) {
            rest.filter(test).push(handles.last())
        } else {
            rest.filter(test)
        });
        let before = feedback::auto_events(rest, query_event_id);
        let events = feedback::auto_events(handles, query_event_id);
        assert forall|k: int| 0 <= k < events.len() implies is_auto_event(
            #[trigger] events[k],
            handles.filter(test)[k],
            query_event_id,
        ) by {
            if k < before.len() {
                assert(is_auto_event(before[k], rest.filter(test)[k], query_event_id));
            }
        }
    }
}

/// Whether an expansion is that of a handle by the query that returned it.
pub open spec fn is_auto_event(e: ExpandEventView, h: HandleView, query_event_id: i64) -> bool {
    &&& e.query_event_id == Some(query_event_id) && e.auto_expanded
    &&& e.handle_id == called(h) && e.file_path == h.file_path
    &&& e.node_type == h.node_type && e.token_count == h.token_count
}

// ---------------------------------------------------------------------------
// Expanding
// ---------------------------------------------------------------------------

/// The handles of a plan are parted by where they came from, each part in its order.
pub proof fn law_parted_by_origin(s: TrackerState, repo_key: Seq<char>, ids: Seq<Seq<char>>)
    ensures
        expand::local_ids(s, repo_key, ids) == ids.filter(
            |id: Seq<char>|
                expand::origin(s, repo_key, id) is Some && expand::origin(s, repo_key, id)->0.source
                    == HandleSource::Local,
        ),
        expand::ids_of(expand::service_handles(s, repo_key, ids)) == ids.filter(
            |id: Seq<char>|
                expand::origin(s, repo_key, id) is Some && expand::origin(s, repo_key, id)->0.source
                    == HandleSource::Service,
        ),
        expand::unknown_ids(s, repo_key, ids) == ids.filter(
            |id: Seq<char>| expand::origin(s, repo_key, id) is None,
        ),
    decreases ids.len(),
{
    reveal(Seq::filter);
    if ids.len() > 0 {
        let rest = ids.drop_last();
        law_parted_by_origin(s, repo_key, rest);
        let theirs = |id: Seq<char>|
            expand::origin(s, repo_key, id) is Some && expand::origin(s, repo_key, id)->0.source
                == HandleSource::Service;
        let before = expand::service_handles(s, repo_key, rest);
        let all = expand::service_handles(s, repo_key, ids);
        if theirs(ids.last()) {
            assert(all.drop_last() =~= before);
            assert(expand::ids_of(all) =~= expand::ids_of(before).push(ids.last()));
        }
    } else {
        assert(expand::ids_of(Seq::empty()) =~= Seq::<Seq<char>>::empty());
    }
}

/// What follows a reply. A batch that fails is asked for one by one, in order, each
/// handle with its generation: here those from here, and of the service each from its own
/// repository, or from the one that was asked where it has none. Where the service does
/// not know the repository, it is found anew and each handle is asked from that. A handle
/// of which nothing is known is asked from the service once it is not found here, its
/// repository is found and that is ready.
pub proof fn law_reply_leads_on(
    repo: Seq<char>,
    found: Seq<char>,
    hs: Seq<ServiceHandleView>,
    ids: Seq<Seq<char>>,
    id: Seq<char>,
    i: int,
    reply: ReplyView,
)
    ensures
        ({
            let next = expand::follow_up(TaskView::LocalBatch(ids), reply);
            if reply is Contents {
                next.len() == 0
            } else {
                next.len() == ids.len() && (0 <= i < ids.len() ==> next[i] == TaskView::LocalOne(
                    ids[i],
                ))
            }
        }),
        reply == (ReplyView::Failed { repo_not_found: false }) ==> {
            let next = expand::follow_up(TaskView::ServiceBatch(repo, hs), reply);
            &&& next.len() == hs.len()
            &&& 0 <= i < hs.len() ==> (next[i] matches TaskView::ServiceOne(from, name, generation)
                && name == hs[i].id && generation == hs[i].generation && (hs[i].repo_id is None
                ==> from == repo) && (hs[i].repo_id is Some ==> from == hs[i].repo_id->0))
        },
        reply == (ReplyView::Failed { repo_not_found: true }) ==> expand::follow_up(
            TaskView::ServiceBatch(repo, hs),
            reply,
        ) == seq![TaskView::ServiceRefresh(hs)],
        reply == ReplyView::Repo(found) ==> {
            let next = expand::follow_up(TaskView::ServiceRefresh(hs), reply);
            &&& next.len() == hs.len()
            &&& 0 <= i < hs.len() ==> next[i] == TaskView::ServiceOne(
                found,
                hs[i].id,
                hs[i].generation,
            )
            &&& expand::follow_up(TaskView::ServiceResolve(hs), reply) == seq![
                TaskView::ServiceBatch(found, hs),
            ]
            &&& expand::follow_up(TaskView::UnknownResolve(id), reply) == seq![
                TaskView::UnknownReady(id, found),
            ]
        },
        reply is Failed ==> expand::follow_up(TaskView::UnknownLocal(id), reply) == seq![
            TaskView::UnknownResolve(id),
        ],
        reply is Contents ==> expand::follow_up(TaskView::UnknownLocal(id), reply).len() == 0
            && expand::follow_up(TaskView::ServiceBatch(repo, hs), reply).len() == 0,
        reply is Ready ==> expand::follow_up(TaskView::UnknownReady(id, repo), reply) == seq![
            TaskView::ServiceOne(repo, id, None),
        ],
{
}

/// A failed task that leads to no other loses all its handles, and one that leads to
/// others or is answered loses none.
pub proof fn law_lost_or_led_on(task: TaskView, reply: ReplyView)
    requires
        reply is Failed,
    ensures
        expand::lost(task, reply) == if expand::follow_up(task, reply).len() == 0
            && !(task is LocalBatch || task is ServiceBatch) {
            expand::task_ids(task)
        } else {
            Seq::empty()
        },
{
}

// ---------------------------------------------------------------------------
// Suggestions
// ---------------------------------------------------------------------------

/// The handles that were expanded, and those that were not, keep their order.
pub proof fn law_expanded_parted(
    s: TrackerState,
    repo_key: Seq<char>,
    ids: Seq<Seq<char>>,
    expanded: bool,
)
    ensures
        runtime::expanded_part(s, repo_key, ids, expanded) == ids.filter(
            |id: Seq<char>| capped_map::has_key(s.expanded.pairs, (repo_key, id)) == expanded,
        ),
    decreases ids.len(),
{
    reveal(Seq::filter);
    if ids.len() > 0 {
        law_expanded_parted(s, repo_key, ids.drop_last(), expanded);
    }
}

/// Of a suggestion, the handles that were not expanded come first, in their order, and
/// those that were follow in theirs, where there are both.
pub proof fn law_suggestion_parted(
    s: TrackerState,
    repo_key: Seq<char>,
    suggestion: Seq<Seq<char>>,
    handle_ids: Seq<Seq<char>>,
)
    requires
        suggestion.filter(
            |id: Seq<char>| capped_map::has_key(s.expanded.pairs, (repo_key, id)) == false,
        ).len() > 0,
    ensures
        ({
            let fresh = suggestion.filter(
                |id: Seq<char>| capped_map::has_key(s.expanded.pairs, (repo_key, id)) == false,
            );
            let known = suggestion.filter(
                |id: Seq<char>| capped_map::has_key(s.expanded.pairs, (repo_key, id)) == true,
            );
            let r = runtime::reordered(s, repo_key, suggestion, handle_ids);
            &&& r.len() <= fresh.len() + known.len()
            &&& forall|k: int|
                0 <= k < r.len() ==> #[trigger] r[k] == if k < fresh.len() {
                    fresh[k]
                } else {
                    known[k - fresh.len()]
                }
        }),
{
    law_expanded_parted(s, repo_key, suggestion, false);
    law_expanded_parted(s, repo_key, suggestion, true);
}

// ---------------------------------------------------------------------------
// The text of a query
// ---------------------------------------------------------------------------

/// The text of a query has each of its parameters that is text, and no other.
pub proof fn law_text_of_params(p: QueryParamsView, s: Seq<char>)
    ensures
        runtime::text_parts(p).contains(s) <==> {
            ||| p.pattern == Some(s)
            ||| p.patterns is Some && p.patterns->0.contains(s)
            ||| p.symbol == Some(s)
            ||| p.section == Some(s)
            ||| p.parent == Some(s)
            ||| p.glob == Some(s)
        },
{
    let list = match p.patterns {
        Some(list) => list,
        None => Seq::empty(),
    };
    let a = runtime::opt_item(p.pattern);
    let c = runtime::opt_item(p.symbol);
    let d = runtime::opt_item(p.section);
    let e = runtime::opt_item(p.parent);
    let f = runtime::opt_item(p.glob);
    lemma_item(p.pattern, s);
    lemma_item(p.symbol, s);
    lemma_item(p.section, s);
    lemma_item(p.parent, s);
    lemma_item(p.glob, s);
    lemma_either(a, list, s);
    lemma_either(a + list, c, s);
    lemma_either(a + list + c, d, s);
    lemma_either(a + list + c + d, e, s);
    lemma_either(a + list + c + d + e, f, s);
}

proof fn lemma_item(item: Option<Seq<char>>, s: Seq<char>)
    ensures
        runtime::opt_item(item).contains(s) <==> item == Some(s),
{
    if item == Some(s) {
        assert(runtime::opt_item(item)[0] == s);
    }
}

proof fn lemma_either(a: Seq<Seq<char>>, b: Seq<Seq<char>>, s: Seq<char>)
    ensures
        (a + b).contains(s) <==> a.contains(s) || b.contains(s),
{
    if a.contains(s) {
        let k = a.index_of(s);
        assert((a + b)[k] == s);
    }
    if b.contains(s) {
        let k = b.index_of(s);
        assert((a + b)[a.len() + k] == s);
    }
    if (a + b).contains(s) {
        let k = (a + b).index_of(s);
        if k < a.len() {
            assert(a[k] == s);
        } else {
            assert(b[k - a.len()] == s);
        }
    }
}

/// Whether a character can stand in a term: a letter, a digit or an underscore.
pub open spec fn in_term(c: char) -> bool {
    text::char_is_alphanumeric(c) || c == '_'
}

/// A text of which every character can stand in a term is one term.
pub proof fn law_one_term(s: Seq<char>)
    requires
        s.len() > 0,
        forall|i: int| 0 <= i < s.len() ==> in_term(#[trigger] s[i]),
    ensures
        runtime::terms_spec(s) == seq![s],
{
    lemma_term_len(s, s.len() as int);
    assert(s.take(s.len() as int) =~= s);
    assert(s.skip(s.len() as int) =~= Seq::<char>::empty());
    assert(runtime::terms_spec(Seq::<char>::empty()) =~= Seq::<Seq<char>>::empty());
    assert(in_term(s[0]));
    assert(runtime::terms_spec(s) =~= seq![s]);
}

proof fn lemma_term_len(s: Seq<char>, n: int)
    requires
        0 <= n <= s.len(),
        forall|i: int| 0 <= i < n ==> in_term(#[trigger] s[i]),
        n < s.len() ==> !in_term(s[n]),
    ensures
        runtime::term_len(s) == n,
    decreases n,
{
    if n > 0 {
        let rest = s.drop_first();
        assert(in_term(s[0]));
        assert forall|i: int| 0 <= i < n - 1 implies in_term(#[trigger] rest[i]) by {
            assert(in_term(s[i + 1]));
        }
        lemma_term_len(rest, n - 1);
    }
}

/// A character that stands in no term parts the terms before it from those after it.
pub proof fn law_terms_parted(a: Seq<char>, c: char, b: Seq<char>)
    requires
        !in_term(c),
    ensures
        runtime::terms_spec(a.push(c) + b) == runtime::terms_spec(a) + runtime::terms_spec(b),
    decreases a.len(),
{
    let s = a.push(c) + b;
    let none = Seq::<Seq<char>>::empty();
    if a.len() == 0 {
        assert(s[0] == c);
        assert(s.drop_first() =~= b);
        assert(runtime::terms_spec(a) =~= none);
        assert(none + runtime::terms_spec(b) =~= runtime::terms_spec(b));
    } else if !in_term(a[0]) {
        assert(s[0] == a[0]);
        assert(s.drop_first() =~= a.drop_first().push(c) + b);
        law_terms_parted(a.drop_first(), c, b);
    } else {
        let n = lemma_run(a);
        lemma_term_len(a, n);
        assert forall|i: int| 0 <= i < n implies in_term(#[trigger] s[i]) by {
            assert(s[i] == a[i]);
        }
        assert(!in_term(s[n])) by {
            if n < a.len() {
                assert(s[n] == a[n]);
            } else {
                assert(s[n] == c);
            }
        }
        lemma_term_len(s, n);
        assert(n > 0);
        assert(s.take(n) =~= a.take(n));
        assert(s.skip(n) =~= a.skip(n).push(c) + b);
        law_terms_parted(a.skip(n), c, b);
        assert(s[0] == a[0]);
        assert(seq![a.take(n)] + (runtime::terms_spec(a.skip(n)) + runtime::terms_spec(b))
            =~= (seq![a.take(n)] + runtime::terms_spec(a.skip(n))) + runtime::terms_spec(b));
    }
}

/// The length of the longest start of a text whose characters can stand in a term.
proof fn lemma_run(s: Seq<char>) -> (n: int)
    ensures
        0 <= n <= s.len(),
        forall|i: int| 0 <= i < n ==> in_term(#[trigger] s[i]),
        n < s.len() ==> !in_term(s[n]),
        s.len() > 0 && in_term(s[0]) ==> n > 0,
    decreases s.len(),
{
    if s.len() == 0 || !in_term(s[0]) {
        0
    } else {
        let rest = s.drop_first();
        let m = lemma_run(rest);
        assert forall|i: int| 0 <= i < m + 1 implies in_term(#[trigger] s[i]) by {
            if i > 0 {
                assert(rest[i - 1] == s[i]);
            }
        }
        if m < rest.len() {
            assert(rest[m] == s[m + 1]);
        }
        m + 1
    }
}

/// A query is tried again by its terms where it looks for one pattern and nothing else,
/// and that has more than one term; any of them may then match, in the same files and
/// with the same limits.
pub proof fn law_tried_by_terms(p: QueryParamsView, terms: Seq<Seq<char>>)
    ensures
        ({
            let again = runtime::fallback_params(p, terms);
            &&& again is Some <==> p.pattern is Some && p.patterns is None && p.symbol is None
                && p.section is None && p.parent is None && terms.len() >= 2
            &&& again matches Some(q) ==> {
                &&& q.pattern is None && q.patterns == Some(terms) && q.match_mode == MatchMode::Any
                &&& q == QueryParamsView {
                    pattern: q.pattern,
                    patterns: q.patterns,
                    match_mode: q.match_mode,
                    ..p
                }
            }
        }),
{
}

// ---------------------------------------------------------------------------
// Predicted files
// ---------------------------------------------------------------------------

/// The files that a glob brings are known from then on, a new one by that glob, and no
/// other file comes to be known.
pub proof fn law_files_known(
    known: Map<Seq<char>, Seq<char>>,
    files: Seq<Seq<char>>,
    glob: Seq<char>,
    file: Seq<char>,
)
    ensures
        ({
            let after = predictive::with_files(known, files, glob);
            &&& after.dom().contains(file) <==> known.dom().contains(file) || files.contains(file)
            &&& !known.dom().contains(file) && files.contains(file) ==> after[file] == glob
        }),
    decreases files.len(),
{
    if files.len() > 0 {
        let rest = files.drop_last();
        law_files_known(known, rest, glob, file);
        assert(files.contains(file) <==> rest.contains(file) || files.last() == file) by {
            if files.contains(file) {
                let k = files.index_of(file);
                if k < rest.len() {
                    assert(rest[k] == file);
                }
            }
            if rest.contains(file) {
                let k = rest.index_of(file);
                assert(files[k] == file);
            }
            if files.last() == file {
                assert(files[files.len() - 1] == file);
            }
        }
    }
}

// ---------------------------------------------------------------------------
// Evidence
// ---------------------------------------------------------------------------

proof fn lemma_evidence_inv(
    s: TrackerState,
    repo_key: Seq<char>,
    handles: Seq<EvidenceHandle>,
    ps: Seq<provenance::HandleProvenance>,
)
    requires
        s.inv(),
        ps.len() == handles.len(),
    ensures
        feedback::with_evidence(s, repo_key, handles, ps).inv(),
    decreases handles.len(),
{
    if handles.len() > 0 {
        lemma_evidence_inv(s, repo_key, handles.drop_last(), ps.drop_last());
        let before = feedback::with_evidence(s, repo_key, handles.drop_last(), ps.drop_last());
        capped_map::law_len_within_cap(
            before.provenance,
            (repo_key, handles.last().id@),
            ps.last(),
        );
    }
}

/// A piece of evidence that was recorded last is expanded where it came from. One of the
/// service is asked from the repository that the service knows; a local one has none.
pub proof fn law_evidence_expanded(
    s: TrackerState,
    repo_key: Seq<char>,
    handles: Seq<EvidenceHandle>,
    ps: Seq<provenance::HandleProvenance>,
    service_repo_id: Option<Seq<char>>,
)
    requires
        s.inv(),
        handles.len() > 0,
        feedback::are_evidence_provenances(ps, handles, service_repo_id),
    ensures
        ({
            let h = handles.last();
            let end = feedback::with_evidence(s, repo_key, handles, ps);
            &&& expand::planned(end, repo_key, seq![h.id@]).tasks == match h.source {
                HandleSource::Local => seq![TaskView::LocalBatch(seq![h.id@])],
                HandleSource::Service => seq![
                    TaskView::ServiceResolve(
                        seq![
                            ServiceHandleView {
                                id: h.id@,
                                generation: h.generation,
                                repo_id: service_repo_id,
                            },
                        ],
                    ),
                ],
            }
            &&& expand::origin(end, repo_key, h.id@) matches Some(p) && p.file_path@ == h.file_path@
                && p.node_type == h.node_type && p.token_count == h.token_count
        }),
{
    let h = handles.last();
    let end = feedback::with_evidence(s, repo_key, handles, ps);
    let before = feedback::with_evidence(s, repo_key, handles.drop_last(), ps.drop_last());
    assert(feedback::is_evidence_provenance(ps[handles.len() - 1], h, service_repo_id));
    lemma_evidence_inv(s, repo_key, handles.drop_last(), ps.drop_last());
    capped_map::law_insert_get(before.provenance, (repo_key, h.id@), ps.last());
    lemma_plan_one(end, repo_key, h.id@);
}

// ---------------------------------------------------------------------------
// What expansion brings
// ---------------------------------------------------------------------------

/// The contents that a reply brings follow those that there were, where contents were
/// asked for; no other reply brings any.
pub proof fn law_contents_grow(run: RunView, reply: ReplyView)
    requires
        run.tasks.len() > 0,
    ensures
        ({
            let after = expand::after_reply(run, reply);
            let task = run.tasks[0];
            let asked = task is LocalBatch || task is LocalOne || task is ServiceBatch
                || task is ServiceOne || task is UnknownLocal;
            &&& asked && reply is Contents ==> after.contents == run.contents + reply->Contents_0
            &&& !(asked && reply is Contents) ==> after.contents == run.contents
        }),
{
    assert(run.contents + Seq::<expand::Expanded>::empty() =~= run.contents);
}

/// The contents that count as local are those of handles that came from here, in their
/// order.
pub proof fn law_contents_from_here(
    s: TrackerState,
    repo_key: Seq<char>,
    contents: Seq<expand::Expanded>,
)
    ensures
        feedback::from_local(s, repo_key, contents) == contents.filter(
            |c: expand::Expanded|
                expand::origin(s, repo_key, c.0) is Some && expand::origin(
                    s,
                    repo_key,
                    c.0,
                )->0.source == HandleSource::Local,
        ),
    decreases contents.len(),
{
    reveal(Seq::filter);
    if contents.len() > 0 {
        law_contents_from_here(s, repo_key, contents.drop_last());
    }
}

/// Details are known by the handle that they are of, the last ones of a handle.
pub proof fn law_details_known(
    known: Map<Seq<char>, HandleMetadata>,
    details: Seq<ExpandedHandleDetail>,
    i: int,
)
    requires
        0 <= i < details.len(),
        forall|j: int|
            i < j < details.len() ==> (#[trigger] details[j]).handle_id@ != details[i].handle_id@,
    ensures
        ({
            let after = feedback::with_details(known, details);
            let id = details[i].handle_id@;
            &&& after.dom().contains(id)
            &&& after[id].file_path == details[i].file_path && after[id].node_type
                == details[i].node_type && after[id].token_count == details[i].token_count
        }),
    decreases details.len(),
{
    if i < details.len() - 1 {
        let rest = details.drop_last();
        assert forall|j: int| i < j < rest.len() implies (#[trigger] rest[j]).handle_id@
            != rest[i].handle_id@ by {
            assert(details[j].handle_id@ != details[i].handle_id@);
        }
        law_details_known(known, rest, i);
        assert(details[details.len() - 1].handle_id@ != details[i].handle_id@);
    }
}

/// What is counted of a handle that a query returned is what it is, under its name.
pub proof fn law_returned_counted(h: HandleView, glob: Option<Seq<char>>)
    ensures
        ({
            let counted = QueryHandleView::of(h, glob);
            &&& counted.handle_id == called(h) && counted.file_path == h.file_path
            &&& counted.node_type == h.node_type && counted.token_count == h.token_count
            &&& counted.first_match_glob == glob
        }),
{
    lemma_called(h);
}

/// What is counted of a query is how many handles and tokens it returned, and what was
/// predicted and indexed for it, where anything was.
pub proof fn law_query_counted(
    r: QueryEvent,
    query_text: Seq<char>,
    pending: Option<PendingPredictive>,
    result: QueryResult,
)
    requires
        feedback::is_query_event(r, query_text, pending, result),
    ensures
        r.query_text@ == query_text,
        r.handles_returned == result.handles@.len(),
        r.total_tokens == result.total_tokens,
        r.files_indexed == if pending is Some {
            pending->0.files_indexed
        } else {
            0
        },
        r.predicted_globs is Some <==> pending is Some && pending->0.predicted_globs@.len() > 0,
        r.predicted_globs is Some ==> text::views(r.predicted_globs->0@) == text::views(
            pending->0.predicted_globs@,
        ),
{
}

/// A handle is counted to the glob that its file was indexed by, where it was by any.
pub proof fn law_counted_to_glob(pending: Option<PendingPredictive>, path: Seq<char>)
    ensures
        feedback::glob_of(pending, path) is Some <==> pending is Some
            && pending->0.file_to_glob@.dom().contains(path),
        feedback::glob_of(pending, path) is Some ==> feedback::glob_of(pending, path)->0
            == pending->0.file_to_glob@[path]@,
{
}

} // verus!
