//! What a client decides: where a query goes, how handles are expanded, what is
//! remembered of them.

use vstd::prelude::*;
use crate::capped_map;
use crate::error::CanopyError;
use crate::index::IndexStats;
use crate::protocol::ReindexResponse;
use crate::provenance::{ProvenanceTracker, TrackerState};
use crate::query::{MatchMode, QueryOptions, QueryParams, QueryParamsView};
use crate::strings;
use crate::strings::{distinct_strings, join, to_lowercase};
use crate::text;
use crate::text::{extend_strings, from_chars, is_alphanumeric, to_chars};

pub mod dispatch;
pub mod expand;
pub mod feedback;
pub mod predictive;
pub mod recall;

verus! {

broadcast use {vstd::string::group_string_axioms, vstd::seq::group_seq_axioms};

/// For how many seconds a client waits until a repository is ready.
pub const ENSURE_READY_TIMEOUT: u64 = 300;

/// Indexing policy without a service.
#[derive(Debug, Clone, Copy, PartialEq, Eq, Structural)]
pub enum StandalonePolicy {
    /// Index everything.
    FullIndex,
    /// Query what is indexed.
    QueryOnly,
    /// The caller indexes by prediction before it queries.
    Predictive,
}

/// A query: parameters, or an expression, which only the local index answers.
#[derive(Debug)]
pub enum QueryInput {
    Params(QueryParams),
    Dsl(String, QueryOptions),
}

/// Result of an indexing operation.
#[derive(Debug)]
pub enum IndexResult {
    Local(IndexStats),
    Service(ReindexResponse),
}

/// Where a query goes.
#[derive(Debug, Clone, Copy, PartialEq, Eq, Structural)]
pub enum Route {
    Service,
    Standalone,
    /// To the local index, though there is a service: an expression.
    PastService,
}

/// Where a query goes: to the service if there is one, unless it is an
/// expression.
pub fn route(service_mode: bool, input: &QueryInput) -> (r: Route)
    ensures
        r == (if !service_mode {
            Route::Standalone
        } else if input is Dsl {
            Route::PastService
        } else {
            Route::Service
        }),
{
    if !service_mode {
        Route::Standalone
    } else {
        match input {
            QueryInput::Dsl(_, _) => Route::PastService,
            QueryInput::Params(_) => Route::Service,
        }
    }
}

/// What only a service can answer fails without one.
pub fn require_service(service_mode: bool) -> (r: Result<(), CanopyError>)
    ensures
        service_mode ==> r is Ok,
        !service_mode ==> r == Result::<(), CanopyError>::Err(CanopyError::NoServiceConfigured),
{
    if service_mode {
        Ok(())
    } else {
        Err(CanopyError::NoServiceConfigured)
    }
}

// ---------------------------------------------------------------------------
// The text of a query
// ---------------------------------------------------------------------------

/// An optional item as a list.
pub open spec fn opt_item(item: Option<Seq<char>>) -> Seq<Seq<char>> {
    match item {
        Some(s) => seq![s],
        None => Seq::empty(),
    }
}

/// What the parameters look for.
pub open spec fn text_parts(p: QueryParamsView) -> Seq<Seq<char>> {
    opt_item(p.pattern) + (match p.patterns {
        Some(list) => list,
        None => Seq::empty(),
    }) + opt_item(p.symbol) + opt_item(p.section) + opt_item(p.parent) + opt_item(p.glob)
}

fn push_opt(parts: &mut Vec<String>, item: &Option<String>)
    ensures
        text::views(final(parts)@) == text::views(old(parts)@) + opt_item(text::opt_view(*item)),
{
    match item {
        Some(s) => {
            proof {
                text::lemma_views_push(parts@, *s);
                assert(text::views(parts@).push(s@) =~= text::views(parts@) + seq![s@]);
            }
            parts.push(s.clone());
        },
        None => {
            assert(text::views(parts@) =~= text::views(parts@) + Seq::empty());
        },
    }
}

/// What the parameters look for, with spaces between.
pub fn query_params_text(params: &QueryParams) -> (r: String)
    ensures
        r@ == strings::join_spec(text_parts(params@), " "@),
{
    let mut parts: Vec<String> = Vec::new();
    push_opt(&mut parts, &params.pattern);
    match &params.patterns {
        Some(list) => {
            extend_strings(&mut parts, list);
        },
        None => {},
    }
    push_opt(&mut parts, &params.symbol);
    push_opt(&mut parts, &params.section);
    push_opt(&mut parts, &params.parent);
    push_opt(&mut parts, &params.glob);
    assert(text::views(parts@) =~= text_parts(params@));
    join(&parts, " ")
}

/// The text of a query: the expression, or what the parameters look for.
pub fn query_input_text(input: &QueryInput) -> (r: String)
    ensures
        r@ == (match *input {
            QueryInput::Dsl(dsl, _) => dsl@,
            QueryInput::Params(params) => strings::join_spec(text_parts(params@), " "@),
        }),
{
    match input {
        QueryInput::Dsl(dsl, _) => dsl.clone(),
        QueryInput::Params(params) => query_params_text(params),
    }
}

// ---------------------------------------------------------------------------
// The terms of a pattern
// ---------------------------------------------------------------------------

/// Whether a character belongs to a term.
pub open spec fn is_term_char(c: char) -> bool {
    text::char_is_alphanumeric(c) || c == '_'
}

/// The number of leading characters that belong to a term.
pub open spec fn term_len(s: Seq<char>) -> nat
    decreases s.len(),
{
    if s.len() == 0 || !is_term_char(s[0]) {
        0
    } else {
        1 + term_len(s.drop_first())
    }
}

proof fn lemma_term_len(s: Seq<char>)
    ensures
        term_len(s) <= s.len(),
        s.len() > 0 && is_term_char(s[0]) ==> term_len(s) > 0,
    decreases s.len(),
{
    if s.len() > 0 && is_term_char(s[0]) {
        lemma_term_len(s.drop_first());
    }
}

/// The maximal runs of characters that belong to a term.
pub open spec fn terms_spec(s: Seq<char>) -> Seq<Seq<char>>
    decreases s.len(),
    via terms_spec_decreases
{
    if s.len() == 0 {
        Seq::empty()
    } else if !is_term_char(s[0]) {
        terms_spec(s.drop_first())
    } else {
        seq![s.take(term_len(s) as int)] + terms_spec(s.skip(term_len(s) as int))
    }
}

#[via_fn]
proof fn terms_spec_decreases(s: Seq<char>) {
    lemma_term_len(s);
}

/// The terms of a text in lower case, each where it first stands.
pub fn split_terms_lower(lower: &str) -> (r: Vec<String>)
    ensures
        text::views(r@) == strings::distinct_spec(terms_spec(lower@)),
{
    let chars: Vec<char> = to_chars(lower);
    let n: usize = chars.len();
    let mut terms: Vec<String> = Vec::new();
    let mut i: usize = 0;
    assert(chars@.skip(0) =~= lower@);
    assert(text::views(terms@) + terms_spec(lower@) =~= terms_spec(lower@));
    while i < n
        invariant
            i <= n == chars@.len(),
            text::views(terms@) + terms_spec(chars@.skip(i as int)) == terms_spec(lower@),
        decreases n - i,
    {
        let ghost rest = chars@.skip(i as int);
        let mut end: usize = i;
        assert(chars@.skip(i as int) =~= rest.skip(0));
        while end < n && (is_alphanumeric(chars[end]) || chars[end] == '_')
            invariant
                i <= end <= n == chars@.len(),
                rest == chars@.skip(i as int),
                term_len(rest) == (end - i) + term_len(chars@.skip(end as int)),
            decreases n - end,
        {
            assert(chars@.skip(end as int).drop_first() =~= chars@.skip(end + 1));
            end = end + 1;
        }
        proof {
            lemma_term_len(rest);
            assert(rest[0] == chars@[i as int]);
            assert(end < n ==> chars@.skip(end as int)[0] == chars@[end as int]);
            assert(term_len(chars@.skip(end as int)) == 0);
        }
        if end == i {
            assert(rest.drop_first() =~= chars@.skip(i + 1));
            i = i + 1;
        } else {
            let term: String = from_chars(&chars, i, end);
            proof {
                assert(term@ =~= rest.take(end - i));
                assert(rest.skip(end - i) =~= chars@.skip(end as int));
                text::lemma_views_push(terms@, term);
                let after = terms_spec(chars@.skip(end as int));
                assert(text::views(terms@).push(term@) + after =~= text::views(terms@) + (seq![
                    term@,
                ] + after));
            }
            terms.push(term);
            i = end;
        }
    }
    proof {
        assert(terms_spec(chars@.skip(n as int)) =~= Seq::empty());
        assert(text::views(terms@) =~= terms_spec(lower@));
    }
    distinct_strings(&terms)
}

/// The terms of a text, in lower case, each where it first stands.
pub fn split_terms(text: &str) -> (r: Vec<String>)
    ensures
        text::views(r@) == strings::distinct_spec(terms_spec(strings::lowercase(text@))),
{
    let lower: String = to_lowercase(text);
    split_terms_lower(lower.as_str())
}

/// The parameters that look for any of the terms of a pattern, in place of the
/// pattern: only where the pattern is all that is looked for, and has more than
/// one term.
pub open spec fn fallback_params(p: QueryParamsView, terms: Seq<Seq<char>>) -> Option<
    QueryParamsView,
> {
    if p.patterns is Some || p.symbol is Some || p.section is Some || p.parent is Some
        || p.pattern is None || terms.len() <= 1 {
        None
    } else {
        Some(
            QueryParamsView {
                pattern: None,
                patterns: Some(terms),
                match_mode: MatchMode::Any,
                ..p
            },
        )
    }
}

/// The parameters that look for any of the given terms, in place of the pattern.
pub fn fallback_with_terms(params: &QueryParams, terms: Vec<String>) -> (r: Option<QueryParams>)
    ensures
        text::opt_view(r) == fallback_params(params@, text::views(terms@)),
{
    assert(text::views(terms@).len() == terms@.len());
    if params.patterns.is_some() || params.symbol.is_some() || params.section.is_some()
        || params.parent.is_some() || params.pattern.is_none() || terms.len() <= 1 {
        return None;
    }
    let mut fallback: QueryParams = params.clone();
    fallback.pattern = None;
    fallback.patterns = Some(terms);
    fallback.match_mode = MatchMode::Any;
    Some(fallback)
}

/// The parameters that look for any of the terms of the pattern, in place of the
/// pattern.
pub fn pattern_fallback_params(params: &QueryParams) -> (r: Option<QueryParams>)
    ensures
        text::opt_view(r) == (match params@.pattern {
            Some(pattern) => fallback_params(
                params@,
                strings::distinct_spec(terms_spec(strings::lowercase(pattern))),
            ),
            None => None,
        }),
{
    match &params.pattern {
        Some(pattern) => {
            let terms: Vec<String> = split_terms(pattern.as_str());
            fallback_with_terms(params, terms)
        },
        None => None,
    }
}

// ---------------------------------------------------------------------------
// Evidence
// ---------------------------------------------------------------------------

/// How many handles an evidence pack holds, in all and of a file: what was asked
/// for, brought into the range that is allowed.
pub fn evidence_limits(max_handles: usize, max_per_file: usize) -> (r: (usize, usize))
    ensures
        1 <= r.0 <= 64,
        1 <= r.1 <= 8,
        1 <= max_handles <= 64 ==> r.0 == max_handles,
        1 <= max_per_file <= 8 ==> r.1 == max_per_file,
        max_handles == 0 ==> r.0 == 1,
        max_handles > 64 ==> r.0 == 64,
        max_per_file == 0 ==> r.1 == 1,
        max_per_file > 8 ==> r.1 == 8,
{
    let handles: usize = if max_handles < 1 {
        1
    } else if max_handles > 64 {
        64
    } else {
        max_handles
    };
    let per_file: usize = if max_per_file < 1 {
        1
    } else if max_per_file > 8 {
        8
    } else {
        max_per_file
    };
    (handles, per_file)
}

/// Whether the service makes an evidence pack: where there is one, unless the
/// query is an expression.
pub fn packs_at_service(service_mode: bool, input: &QueryInput) -> (r: bool)
    ensures
        r == (service_mode && *input is Params),
{
    match route(service_mode, input) {
        Route::Service => true,
        Route::Standalone | Route::PastService => false,
    }
}

/// The parameters that are asked for once the first evidence pack is made: those
/// of the fallback, if there are any and the pack selected nothing.
pub fn next_pack_params(selected: usize, fallback: Option<QueryParams>) -> (r: Option<QueryParams>)
    ensures
        r == (if selected == 0 {
            fallback
        } else {
            None
        }),
{
    if selected == 0 {
        fallback
    } else {
        None
    }
}

/// The evidence pack that is returned of two: that of the fallback, if it
/// selected something.
pub fn choose_pack<P>(first: P, fallback: P, fallback_selected: usize) -> (r: P)
    ensures
        r == (if fallback_selected > 0 {
            fallback
        } else {
            first
        }),
{
    if fallback_selected > 0 {
        fallback
    } else {
        first
    }
}

/// The handles of a list that were expanded recently, or those that were not.
pub open spec fn expanded_part(
    s: TrackerState,
    repo_key: Seq<char>,
    ids: Seq<Seq<char>>,
    expanded: bool,
) -> Seq<Seq<char>>
    decreases ids.len(),
{
    if ids.len() == 0 {
        Seq::empty()
    } else {
        let before = expanded_part(s, repo_key, ids.drop_last(), expanded);
        if capped_map::has_key(s.expanded.pairs, (repo_key, ids.last())) == expanded {
            before.push(ids.last())
        } else {
            before
        }
    }
}

/// The first `n` items of a list.
pub open spec fn first_items(items: Seq<Seq<char>>, n: nat) -> Seq<Seq<char>> {
    if items.len() <= n {
        items
    } else {
        items.take(n as int)
    }
}

/// The handles to suggest: those of the suggestion that were not expanded
/// recently; where there are none, others of the pack that were not.
pub open spec fn fresh_ids(
    s: TrackerState,
    repo_key: Seq<char>,
    suggestion: Seq<Seq<char>>,
    handle_ids: Seq<Seq<char>>,
) -> Seq<Seq<char>> {
    let own = expanded_part(s, repo_key, suggestion, false);
    if own.len() > 0 {
        own
    } else {
        first_items(
            strings::distinct_spec(expanded_part(s, repo_key, handle_ids, false)),
            suggestion.len(),
        )
    }
}

/// A suggestion with what was expanded recently moved to its end, or replaced by
/// other handles of the pack; its length stays.
pub open spec fn reordered(
    s: TrackerState,
    repo_key: Seq<char>,
    suggestion: Seq<Seq<char>>,
    handle_ids: Seq<Seq<char>>,
) -> Seq<Seq<char>> {
    let fresh = fresh_ids(s, repo_key, suggestion, handle_ids);
    if fresh.len() == 0 {
        suggestion
    } else {
        first_items(
            fresh + expanded_part(s, repo_key, suggestion, true),
            suggestion.len(),
        )
    }
}

fn select_expanded(
    tracker: &ProvenanceTracker,
    repo_key: &str,
    ids: &Vec<String>,
    expanded: bool,
) -> (r: Vec<String>)
    requires
        tracker.state().inv(),
    ensures
        text::views(r@) == expanded_part(
            tracker.state(),
            repo_key@,
            text::views(ids@),
            expanded,
        ),
{
    let ghost all = text::views(ids@);
    let ghost s = tracker.state();
    let mut list: Vec<String> = Vec::new();
    let mut i: usize = 0;
    assert(text::views(list@) =~= expanded_part(s, repo_key@, all.take(0), expanded));
    while i < ids.len()
        invariant
            i <= ids@.len(),
            all == text::views(ids@),
            s == tracker.state(),
            s.inv(),
            text::views(list@) == expanded_part(s, repo_key@, all.take(i as int), expanded),
        decreases ids@.len() - i,
    {
        proof {
            assert(all.take(i + 1).drop_last() =~= all.take(i as int));
            assert(all.take(i + 1).last() == ids@[i as int]@);
            text::lemma_views_push(list@, ids@[i as int]);
        }
        if tracker.was_recently_expanded(repo_key, ids[i].as_str()) == expanded {
            list.push(ids[i].clone());
        }
        i = i + 1;
    }
    assert(all.take(ids@.len() as int) =~= all);
    list
}

fn keep_first(list: Vec<String>, n: usize) -> (r: Vec<String>)
    ensures
        text::views(r@) == first_items(text::views(list@), n as nat),
{
    let mut list: Vec<String> = list;
    let ghost before = list@;
    if list.len() > n {
        list.truncate(n);
        assert(text::views(list@) =~= text::views(before).take(n as int));
    }
    list
}

/// Moves what was expanded recently to the end of a suggestion, or replaces it
/// by other handles of the pack.
pub fn rewrite_expand_suggestions(
    tracker: &ProvenanceTracker,
    repo_key: &str,
    suggestion: Vec<String>,
    handle_ids: &Vec<String>,
) -> (r: Vec<String>)
    requires
        tracker.state().inv(),
    ensures
        text::views(r@) == reordered(
            tracker.state(),
            repo_key@,
            text::views(suggestion@),
            text::views(handle_ids@),
        ),
{
    let n: usize = suggestion.len();
    assert(text::views(suggestion@).len() == n);
    let mut fresh: Vec<String> = select_expanded(tracker, repo_key, &suggestion, false);
    assert(text::views(fresh@).len() == fresh@.len());
    if fresh.len() == 0 {
        let others: Vec<String> = select_expanded(tracker, repo_key, handle_ids, false);
        fresh = keep_first(distinct_strings(&others), n);
    }
    assert(text::views(fresh@).len() == fresh@.len());
    if fresh.len() == 0 {
        return suggestion;
    }
    let repeated: Vec<String> = select_expanded(tracker, repo_key, &suggestion, true);
    extend_strings(&mut fresh, &repeated);
    keep_first(fresh, n)
}

proof fn lemma_expanded_parts(s: TrackerState, repo_key: Seq<char>, ids: Seq<Seq<char>>)
    ensures
        expanded_part(s, repo_key, ids, true).len() + expanded_part(s, repo_key, ids, false).len()
            == ids.len(),
    decreases ids.len(),
{
    if ids.len() > 0 {
        lemma_expanded_parts(s, repo_key, ids.drop_last());
    }
}

/// A rewritten suggestion is as long as it was.
pub proof fn law_suggestion_length(
    s: TrackerState,
    repo_key: Seq<char>,
    suggestion: Seq<Seq<char>>,
    handle_ids: Seq<Seq<char>>,
)
    ensures
        reordered(s, repo_key, suggestion, handle_ids).len() == suggestion.len(),
{
    lemma_expanded_parts(s, repo_key, suggestion);
}

/// A rewritten suggestion begins with a handle that was not expanded recently,
/// where the suggestion or the pack has one.
pub proof fn law_suggestion_fresh_first(
    s: TrackerState,
    repo_key: Seq<char>,
    suggestion: Seq<Seq<char>>,
    handle_ids: Seq<Seq<char>>,
)
    requires
        suggestion.len() > 0,
        expanded_part(s, repo_key, suggestion, false).len() > 0 || expanded_part(
            s,
            repo_key,
            handle_ids,
            false,
        ).len() > 0,
    ensures
        !capped_map::has_key(
            s.expanded.pairs,
            (repo_key, reordered(s, repo_key, suggestion, handle_ids)[0]),
        ),
{
    let own = expanded_part(s, repo_key, suggestion, false);
    let others = expanded_part(s, repo_key, handle_ids, false);
    let fresh = fresh_ids(s, repo_key, suggestion, handle_ids);
    let all = reordered(s, repo_key, suggestion, handle_ids);
    lemma_expanded_parts(s, repo_key, suggestion);
    if own.len() > 0 {
        lemma_not_expanded(s, repo_key, suggestion);
    } else {
        let unique = strings::distinct_spec(others);
        strings::lemma_distinct(others);
        assert(others.contains(others[0]));
        assert(unique.contains(others[0]));
        assert(unique.len() > 0);
        assert(unique.contains(unique[0]));
        lemma_not_expanded(s, repo_key, handle_ids);
        let k = choose|k: int| 0 <= k < others.len() && others[k] == unique[0];
        assert(fresh[0] == others[k]);
    }
    assert(fresh.len() > 0);
    assert(all[0] == fresh[0]);
}

proof fn lemma_not_expanded(s: TrackerState, repo_key: Seq<char>, ids: Seq<Seq<char>>)
    ensures
        forall|i: int|
            0 <= i < expanded_part(s, repo_key, ids, false).len() ==> !capped_map::has_key(
                s.expanded.pairs,
                (repo_key, #[trigger] expanded_part(s, repo_key, ids, false)[i]),
            ),
    decreases ids.len(),
{
    if ids.len() > 0 {
        lemma_not_expanded(s, repo_key, ids.drop_last());
        let before = expanded_part(s, repo_key, ids.drop_last(), false);
        let all = expanded_part(s, repo_key, ids, false);
        assert forall|i: int| 0 <= i < all.len() implies !capped_map::has_key(
            s.expanded.pairs,
            (repo_key, #[trigger] all[i]),
        ) by {
            if i < before.len() {
                assert(all[i] == before[i]);
            }
        }
    }
}

} // verus!
