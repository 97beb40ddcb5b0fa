//! Query execution: the searches that a query makes, and the result that their
//! answers make.

use vstd::prelude::*;
use crate::error::CanopyError;
use crate::globs;
use crate::globs::matching;
use crate::handle;
use crate::handle::{Handle, HandleView, RefHandle, RefHandleView};
use crate::parse::bpe;
use crate::parse::bpe::estimate_tokens;
use crate::query;
use crate::query::{Query, QueryModel, QueryOptions, QueryResult};
use crate::strings;
use crate::strings::decimal_string;
use crate::text;
use crate::text::str_eq;

verus! {

broadcast use {vstd::string::group_string_axioms, vstd::seq::group_seq_axioms};

// ---------------------------------------------------------------------------
// Searches
// ---------------------------------------------------------------------------

/// A search of the index.
#[derive(Debug)]
pub enum SearchRequest {
    Sections { heading: String, limit: usize },
    Text { pattern: String, limit: usize },
    File { path: String },
    Code { symbol: String, limit: usize },
    Children { parent: String, limit: usize },
    ChildrenNamed { parent: String, symbol: String, limit: usize },
    Definitions { symbol: String, limit: usize },
    ReferenceSources { symbol: String, limit: usize },
    InFiles { glob: String, pattern: String, limit: usize },
}

/// The view of a [`SearchRequest`].
pub enum SearchRequestView {
    Sections { heading: Seq<char>, limit: usize },
    Text { pattern: Seq<char>, limit: usize },
    File { path: Seq<char> },
    Code { symbol: Seq<char>, limit: usize },
    Children { parent: Seq<char>, limit: usize },
    ChildrenNamed { parent: Seq<char>, symbol: Seq<char>, limit: usize },
    Definitions { symbol: Seq<char>, limit: usize },
    ReferenceSources { symbol: Seq<char>, limit: usize },
    InFiles { glob: Seq<char>, pattern: Seq<char>, limit: usize },
}

impl View for SearchRequest {
    type V = SearchRequestView;

    open spec fn view(&self) -> SearchRequestView {
        match *self {
            SearchRequest::Sections { heading, limit } => SearchRequestView::Sections {
                heading: heading@,
                limit,
            },
            SearchRequest::Text { pattern, limit } => SearchRequestView::Text {
                pattern: pattern@,
                limit,
            },
            SearchRequest::File { path } => SearchRequestView::File { path: path@ },
            SearchRequest::Code { symbol, limit } => SearchRequestView::Code {
                symbol: symbol@,
                limit,
            },
            SearchRequest::Children { parent, limit } => SearchRequestView::Children {
                parent: parent@,
                limit,
            },
            SearchRequest::ChildrenNamed { parent, symbol, limit } =>
            SearchRequestView::ChildrenNamed { parent: parent@, symbol: symbol@, limit },
            SearchRequest::Definitions { symbol, limit } => SearchRequestView::Definitions {
                symbol: symbol@,
                limit,
            },
            SearchRequest::ReferenceSources { symbol, limit } =>
            SearchRequestView::ReferenceSources { symbol: symbol@, limit },
            SearchRequest::InFiles { glob, pattern, limit } => SearchRequestView::InFiles {
                glob: glob@,
                pattern: pattern@,
                limit,
            },
        }
    }
}

/// The single search that a query stands for, unless it is made of others.
pub open spec fn leaf_request(q: QueryModel, limit: usize) -> Option<SearchRequestView> {
    match q {
        QueryModel::Section(heading) => Some(SearchRequestView::Sections { heading, limit }),
        QueryModel::Grep(pattern) => Some(SearchRequestView::Text { pattern, limit }),
        QueryModel::File(path) => Some(SearchRequestView::File { path }),
        QueryModel::Code(symbol) => Some(SearchRequestView::Code { symbol, limit }),
        QueryModel::Children(parent) => Some(SearchRequestView::Children { parent, limit }),
        QueryModel::ChildrenNamed(parent, symbol) => Some(
            SearchRequestView::ChildrenNamed { parent, symbol, limit },
        ),
        QueryModel::Definition(symbol) => Some(SearchRequestView::Definitions { symbol, limit }),
        QueryModel::References(symbol) => Some(
            SearchRequestView::ReferenceSources { symbol, limit },
        ),
        QueryModel::InFile(glob, sub) => match *sub {
            QueryModel::Grep(pattern) => Some(SearchRequestView::InFiles { glob, pattern, limit }),
            _ => None,
        },
        _ => None,
    }
}

/// Twice a limit.
pub open spec fn doubled(limit: usize) -> usize {
    (limit * 2) as usize
}

/// Whether no limit that the query hands down to its parts is too large for a
/// machine word.
pub open spec fn limits_fit(q: QueryModel, limit: usize) -> bool
    decreases q, 0nat,
{
    if leaf_request(q, limit) is Some {
        true
    } else {
        match q {
            QueryModel::InFile(_, sub) => limit * 2 <= usize::MAX && limits_fit(
                *sub,
                doubled(limit),
            ),
            QueryModel::Union(qs) => limits_fit_all(qs, limit, qs.len()),
            QueryModel::Intersect(qs) => qs.len() > 0 ==> limit * 2 <= usize::MAX
                && limits_fit_all(qs, doubled(limit), qs.len()),
            QueryModel::Limit(n, sub) => limits_fit(*sub, n),
            _ => true,
        }
    }
}

/// The same of the first `n` queries.
pub open spec fn limits_fit_all(qs: Seq<QueryModel>, limit: usize, n: nat) -> bool
    decreases qs, n,
{
    if n == 0 || n > qs.len() {
        true
    } else {
        limits_fit_all(qs, limit, (n - 1) as nat) && limits_fit(qs[n - 1], limit)
    }
}

proof fn lemma_limits_fit_all(qs: Seq<QueryModel>, limit: usize, n: nat, i: int)
    requires
        limits_fit_all(qs, limit, n),
        0 <= i < n <= qs.len(),
    ensures
        limits_fit(qs[i], limit),
    decreases n,
{
    if i < n - 1 {
        lemma_limits_fit_all(qs, limit, (n - 1) as nat, i);
    }
}

/// The searches that a query makes, in order.
pub open spec fn requests(q: QueryModel, limit: usize) -> Seq<SearchRequestView>
    decreases q, 0nat,
{
    match leaf_request(q, limit) {
        Some(request) => seq![request],
        None => match q {
            QueryModel::InFile(_, sub) => requests(*sub, doubled(limit)),
            QueryModel::Union(qs) => requests_of_all(qs, limit, qs.len()),
            QueryModel::Intersect(qs) => requests_of_all(qs, doubled(limit), qs.len()),
            QueryModel::Limit(n, sub) => requests(*sub, n),
            _ => Seq::empty(),
        },
    }
}

/// The searches that the first `n` queries make, in order.
pub open spec fn requests_of_all(qs: Seq<QueryModel>, limit: usize, n: nat) -> Seq<
    SearchRequestView,
>
    decreases qs, n,
{
    if n == 0 || n > qs.len() {
        Seq::empty()
    } else {
        requests_of_all(qs, limit, (n - 1) as nat) + requests(qs[n - 1], limit)
    }
}

fn leaf(q: &Query, limit: usize) -> (r: Option<SearchRequest>)
    ensures
        text::opt_view(r) == leaf_request(q.model(), limit),
{
    proof {
        reveal_with_fuel(Query::model, 2);
    }
    match q {
        Query::Section(heading) => Some(
            SearchRequest::Sections { heading: heading.clone(), limit },
        ),
        Query::Grep(pattern) => Some(SearchRequest::Text { pattern: pattern.clone(), limit }),
        Query::File(path) => Some(SearchRequest::File { path: path.clone() }),
        Query::Code(symbol) => Some(SearchRequest::Code { symbol: symbol.clone(), limit }),
        Query::Children(parent) => Some(
            SearchRequest::Children { parent: parent.clone(), limit },
        ),
        Query::ChildrenNamed(parent, symbol) => Some(
            SearchRequest::ChildrenNamed {
                parent: parent.clone(),
                symbol: symbol.clone(),
                limit,
            },
        ),
        Query::Definition(symbol) => Some(
            SearchRequest::Definitions { symbol: symbol.clone(), limit },
        ),
        Query::References(symbol) => Some(
            SearchRequest::ReferenceSources { symbol: symbol.clone(), limit },
        ),
        Query::InFile(glob, sub) => match &**sub {
            Query::Grep(pattern) => Some(
                SearchRequest::InFiles { glob: glob.clone(), pattern: pattern.clone(), limit },
            ),
            _ => None,
        },
        _ => None,
    }
}

/// Appends the searches that a query makes.
fn push_requests(q: &Query, limit: usize, list: &mut Vec<SearchRequest>)
    requires
        limits_fit(q.model(), limit),
    ensures
        text::views(final(list)@) == text::views(old(list)@) + requests(q.model(), limit),
    decreases *q,
{
    match leaf(q, limit) {
        Some(request) => {
            proof {
                text::lemma_views_push(list@, request);
                assert(text::views(list@).push(request@) =~= text::views(list@) + seq![request@]);
            }
            list.push(request);
            return ;
        },
        None => {},
    }
    match q {
        Query::InFile(_, sub) => {
            push_requests(&**sub, limit * 2, list);
        },
        Query::Union(qs) => {
            proof {
                query::lemma_models(*qs);
            }
            push_requests_of_all(qs, limit, list);
        },
        Query::Intersect(qs) => {
            proof {
                query::lemma_models(*qs);
            }
            if qs.len() > 0 {
                push_requests_of_all(qs, limit * 2, list);
            } else {
                assert(requests_of_all(query::models(qs@), doubled(limit), 0).len() == 0);
                assert(text::views(list@) + Seq::<SearchRequestView>::empty() =~= text::views(
                    list@,
                ));
            }
        },
        Query::Limit(n, sub) => {
            push_requests(&**sub, *n, list);
        },
        _ => {},
    }
}

fn push_requests_of_all(qs: &Vec<Query>, limit: usize, list: &mut Vec<SearchRequest>)
    requires
        limits_fit_all(query::models(qs@), limit, qs@.len()),
    ensures
        text::views(final(list)@) == text::views(old(list)@) + requests_of_all(
            query::models(qs@),
            limit,
            qs@.len(),
        ),
    decreases *qs,
{
    let ghost start = text::views(list@);
    let ghost all = query::models(qs@);
    let mut i: usize = 0;
    assert(start + requests_of_all(all, limit, 0) =~= start);
    while i < qs.len()
        invariant
            i <= qs@.len(),
            all == query::models(qs@),
            limits_fit_all(all, limit, qs@.len()),
            text::views(list@) == start + requests_of_all(all, limit, i as nat),
        decreases qs@.len() - i,
    {
        let ghost before = requests_of_all(all, limit, i as nat);
        proof {
            lemma_limits_fit_all(all, limit, qs@.len(), i as int);
        }
        push_requests(&qs[i], limit, list);
        assert(start + before + requests(all[i as int], limit) =~= start + (before + requests(
            all[i as int],
            limit,
        )));
        i = i + 1;
    }
}

/// The searches that a query makes, in order.
pub fn search_requests(q: &Query, limit: usize) -> (r: Vec<SearchRequest>)
    requires
        limits_fit(q.model(), limit),
    ensures
        text::views(r@) == requests(q.model(), limit),
{
    let mut list: Vec<SearchRequest> = Vec::new();
    push_requests(q, limit, &mut list);
    assert(text::views(list@) =~= requests(q.model(), limit));
    list
}

/// Whether no limit that the query hands down to its parts is too large for a
/// machine word.
pub fn check_limits(q: &Query, limit: usize) -> (r: bool)
    ensures
        r == limits_fit(q.model(), limit),
    decreases *q,
{
    match leaf(q, limit) {
        Some(_) => {
            return true;
        },
        None => {},
    }
    match q {
        Query::InFile(_, sub) => limit <= usize::MAX / 2 && check_limits(&**sub, limit * 2),
        Query::Union(qs) => {
            proof {
                query::lemma_models(*qs);
            }
            check_limits_of_all(qs, limit)
        },
        Query::Intersect(qs) => {
            proof {
                query::lemma_models(*qs);
            }
            if qs.len() == 0 {
                true
            } else {
                limit <= usize::MAX / 2 && check_limits_of_all(qs, limit * 2)
            }
        },
        Query::Limit(n, sub) => check_limits(&**sub, *n),
        _ => true,
    }
}

fn check_limits_of_all(qs: &Vec<Query>, limit: usize) -> (r: bool)
    ensures
        r == limits_fit_all(query::models(qs@), limit, qs@.len()),
    decreases *qs,
{
    let ghost all = query::models(qs@);
    let mut i: usize = 0;
    while i < qs.len()
        invariant
            i <= qs@.len(),
            all == query::models(qs@),
            limits_fit_all(all, limit, i as nat),
        decreases qs@.len() - i,
    {
        if !check_limits(&qs[i], limit) {
            proof {
                if limits_fit_all(all, limit, qs@.len()) {
                    lemma_limits_fit_all(all, limit, qs@.len(), i as int);
                }
            }
            return false;
        }
        i = i + 1;
    }
    true
}

// ---------------------------------------------------------------------------
// Results
// ---------------------------------------------------------------------------

/// What the answers so far make of a query.
pub enum Outcome {
    Handles(Seq<HandleView>),
    /// A glob in the query is refused.
    BadGlob(Seq<char>),
    /// A search has no answer.
    Unanswered,
}

/// The first `n` items, or all.
pub open spec fn first<T>(items: Seq<T>, n: int) -> Seq<T> {
    if n < items.len() {
        items.take(n)
    } else {
        items
    }
}

/// The handles in the files that match a glob.
pub open spec fn in_files(handles: Seq<HandleView>, glob: Seq<char>) -> Seq<HandleView>
    decreases handles.len(),
{
    if handles.len() == 0 {
        Seq::empty()
    } else {
        let rest = in_files(handles.drop_last(), glob);
        if globs::glob_matches(glob, handles.last().file_path) {
            rest.push(handles.last())
        } else {
            rest
        }
    }
}

/// Whether a handle with the given ID is among these.
pub open spec fn has_id(handles: Seq<HandleView>, id: Seq<char>) -> bool {
    exists|i: int| 0 <= i < handles.len() && (#[trigger] handles[i]).id == id
}

/// `kept` with each handle of `more` whose ID is not there yet.
pub open spec fn add_new(kept: Seq<HandleView>, more: Seq<HandleView>) -> Seq<HandleView>
    decreases more.len(),
{
    if more.len() == 0 {
        kept
    } else {
        let rest = add_new(kept, more.drop_last());
        if has_id(rest, more.last().id) {
            rest
        } else {
            rest.push(more.last())
        }
    }
}

/// The handles whose ID is among those of `others` too.
pub open spec fn also_in(handles: Seq<HandleView>, others: Seq<HandleView>) -> Seq<HandleView>
    decreases handles.len(),
{
    if handles.len() == 0 {
        Seq::empty()
    } else {
        let rest = also_in(handles.drop_last(), others);
        if has_id(others, handles.last().id) {
            rest.push(handles.last())
        } else {
            rest
        }
    }
}

/// The number of searches that a query makes.
pub open spec fn leaves(q: QueryModel) -> nat
    decreases q, 0nat,
{
    match q {
        QueryModel::InFile(_, sub) => if *sub is Grep {
            1
        } else {
            leaves(*sub)
        },
        QueryModel::Union(qs) => leaves_of_all(qs, qs.len()),
        QueryModel::Intersect(qs) => leaves_of_all(qs, qs.len()),
        QueryModel::Limit(_, sub) => leaves(*sub),
        _ => 1,
    }
}

/// The number of searches that the first `n` queries make.
pub open spec fn leaves_of_all(qs: Seq<QueryModel>, n: nat) -> nat
    decreases qs, n,
{
    if n == 0 || n > qs.len() {
        0
    } else {
        leaves_of_all(qs, (n - 1) as nat) + leaves(qs[n - 1])
    }
}

/// What the answers make of a query. The searches of the query are those from
/// number `from` on, and `answers` holds the handles that each search found.
pub open spec fn eval(
    q: QueryModel,
    limit: usize,
    answers: Seq<Seq<HandleView>>,
    from: int,
) -> Outcome
    decreases q, 0nat,
{
    if leaf_request(q, limit) is Some {
        if 0 <= from < answers.len() {
            Outcome::Handles(answers[from])
        } else {
            Outcome::Unanswered
        }
    } else {
        match q {
            QueryModel::InFile(glob, sub) => match eval(*sub, doubled(limit), answers, from) {
                Outcome::Handles(found) => match globs::glob_error(glob) {
                    Some(e) => Outcome::BadGlob(e),
                    None => Outcome::Handles(first(in_files(found, glob), limit as int)),
                },
                other => other,
            },
            QueryModel::Union(qs) => match eval_union(qs, limit, answers, from, qs.len()) {
                Outcome::Handles(found) => Outcome::Handles(first(found, limit as int)),
                other => other,
            },
            QueryModel::Intersect(qs) => if qs.len() == 0 {
                Outcome::Handles(Seq::empty())
            } else {
                match eval_intersect(qs, doubled(limit), answers, from, qs.len()) {
                    Outcome::Handles(found) => Outcome::Handles(first(found, limit as int)),
                    other => other,
                }
            },
            QueryModel::Limit(n, sub) => match eval(*sub, n, answers, from) {
                Outcome::Handles(found) => Outcome::Handles(first(found, n as int)),
                other => other,
            },
            _ => Outcome::Unanswered,
        }
    }
}

/// The handles of the first `n` queries, each ID once.
pub open spec fn eval_union(
    qs: Seq<QueryModel>,
    limit: usize,
    answers: Seq<Seq<HandleView>>,
    from: int,
    n: nat,
) -> Outcome
    decreases qs, n,
{
    if n == 0 || n > qs.len() {
        Outcome::Handles(Seq::empty())
    } else {
        match eval_union(qs, limit, answers, from, (n - 1) as nat) {
            Outcome::Handles(kept) => match eval(
                qs[n - 1],
                limit,
                answers,
                from + leaves_of_all(qs, (n - 1) as nat),
            ) {
                Outcome::Handles(found) => Outcome::Handles(add_new(kept, found)),
                other => other,
            },
            other => other,
        }
    }
}

/// The handles of the first query whose ID each of the first `n` queries finds.
pub open spec fn eval_intersect(
    qs: Seq<QueryModel>,
    limit: usize,
    answers: Seq<Seq<HandleView>>,
    from: int,
    n: nat,
) -> Outcome
    decreases qs, n,
{
    if n == 0 || n > qs.len() {
        Outcome::Handles(Seq::empty())
    } else if n == 1 {
        eval(qs[0], limit, answers, from)
    } else {
        match eval_intersect(qs, limit, answers, from, (n - 1) as nat) {
            Outcome::Handles(kept) => match eval(
                qs[n - 1],
                limit,
                answers,
                from + leaves_of_all(qs, (n - 1) as nat),
            ) {
                Outcome::Handles(found) => Outcome::Handles(also_in(kept, found)),
                other => other,
            },
            other => other,
        }
    }
}

/// Why a query has no handles.
pub enum Failure {
    BadGlob(String),
    Unanswered,
}

/// Whether an outcome is the one expected.
pub open spec fn is_outcome(r: Result<Vec<Handle>, Failure>, expected: Outcome) -> bool {
    match r {
        Ok(handles) => expected == Outcome::Handles(text::views(handles@)),
        Err(Failure::BadGlob(e)) => expected == Outcome::BadGlob(e@),
        Err(Failure::Unanswered) => expected == Outcome::Unanswered,
    }
}

/// The views of the answers.
pub open spec fn answer_views(answers: Seq<Vec<Handle>>) -> Seq<Seq<HandleView>> {
    Seq::new(answers.len(), |i: int| text::views(answers[i]@))
}

/// Whether a handle with the given ID is among these.
pub fn contains_id(handles: &Vec<Handle>, id: &str) -> (r: bool)
    ensures
        r == has_id(text::views(handles@), id@),
{
    let ghost all = text::views(handles@);
    let mut i: usize = 0;
    while i < handles.len()
        invariant
            i <= handles@.len(),
            all == text::views(handles@),
            forall|k: int| 0 <= k < i ==> (#[trigger] all[k]).id != id@,
        decreases handles@.len() - i,
    {
        if str_eq(handles[i].id.raw(), id) {
            assert(all[i as int].id == id@);
            return true;
        }
        i = i + 1;
    }
    false
}

/// Adds each handle of `more` whose ID is not there yet.
fn push_new(kept: &mut Vec<Handle>, more: &Vec<Handle>)
    ensures
        text::views(final(kept)@) == add_new(text::views(old(kept)@), text::views(more@)),
{
    let ghost start = text::views(kept@);
    let ghost all = text::views(more@);
    let mut i: usize = 0;
    assert(all.take(0) =~= Seq::<HandleView>::empty());
    while i < more.len()
        invariant
            i <= more@.len(),
            all == text::views(more@),
            text::views(kept@) == add_new(start, all.take(i as int)),
        decreases more@.len() - i,
    {
        proof {
            assert(all.take(i + 1).drop_last() =~= all.take(i as int));
            assert(all.take(i + 1).last() == more@[i as int]@);
        }
        if !contains_id(kept, more[i].id.raw()) {
            proof {
                text::lemma_views_push(kept@, more@[i as int]);
            }
            kept.push(more[i].clone());
        }
        i = i + 1;
    }
    assert(all.take(more@.len() as int) =~= all);
}

/// The handles whose ID is among those of `others` too.
fn keep_shared(handles: &Vec<Handle>, others: &Vec<Handle>) -> (r: Vec<Handle>)
    ensures
        text::views(r@) == also_in(text::views(handles@), text::views(others@)),
{
    let ghost all = text::views(handles@);
    let mut kept: Vec<Handle> = Vec::new();
    let mut i: usize = 0;
    assert(all.take(0) =~= Seq::<HandleView>::empty());
    assert(text::views(kept@) =~= Seq::<HandleView>::empty());
    while i < handles.len()
        invariant
            i <= handles@.len(),
            all == text::views(handles@),
            text::views(kept@) == also_in(all.take(i as int), text::views(others@)),
        decreases handles@.len() - i,
    {
        proof {
            assert(all.take(i + 1).drop_last() =~= all.take(i as int));
            assert(all.take(i + 1).last() == handles@[i as int]@);
        }
        if contains_id(others, handles[i].id.raw()) {
            proof {
                text::lemma_views_push(kept@, handles@[i as int]);
            }
            kept.push(handles[i].clone());
        }
        i = i + 1;
    }
    assert(all.take(handles@.len() as int) =~= all);
    kept
}

/// The handles in the files that match a glob; why the glob is refused, if it
/// is.
pub fn filter_by_glob(handles: &Vec<Handle>, glob: &str) -> (r: Result<Vec<Handle>, String>)
    ensures
        match r {
            Ok(kept) => globs::glob_error(glob@) is None && text::views(kept@) == in_files(
                text::views(handles@),
                glob@,
            ),
            Err(e) => globs::glob_error(glob@) == Some(e@),
        },
{
    let ghost all = text::views(handles@);
    let mut paths: Vec<String> = Vec::new();
    let mut i: usize = 0;
    while i < handles.len()
        invariant
            i <= handles@.len(),
            paths@.len() == i,
            forall|k: int| 0 <= k < i ==> (#[trigger] paths@[k])@ == handles@[k].file_path@,
        decreases handles@.len() - i,
    {
        paths.push(handles[i].file_path.clone());
        i = i + 1;
    }
    let hits: Vec<bool> = match matching(glob, &paths) {
        Ok(hits) => hits,
        Err(e) => {
            return Err(e);
        },
    };
    let mut kept: Vec<Handle> = Vec::new();
    let mut j: usize = 0;
    assert(all.take(0) =~= Seq::<HandleView>::empty());
    assert(text::views(kept@) =~= Seq::<HandleView>::empty());
    while j < handles.len()
        invariant
            j <= handles@.len(),
            hits@.len() == handles@.len(),
            all == text::views(handles@),
            forall|k: int|
                0 <= k < handles@.len() ==> #[trigger] hits@[k] == globs::glob_matches(
                    glob@,
                    handles@[k].file_path@,
                ),
            text::views(kept@) == in_files(all.take(j as int), glob@),
        decreases handles@.len() - j,
    {
        proof {
            assert(all.take(j + 1).drop_last() =~= all.take(j as int));
            assert(all.take(j + 1).last() == handles@[j as int]@);
        }
        if hits[j] {
            proof {
                text::lemma_views_push(kept@, handles@[j as int]);
            }
            kept.push(handles[j].clone());
        }
        j = j + 1;
    }
    assert(all.take(handles@.len() as int) =~= all);
    Ok(kept)
}

/// The first `n` handles, or all.
fn take_first(handles: Vec<Handle>, n: usize) -> (r: Vec<Handle>)
    ensures
        text::views(r@) == first(text::views(handles@), n as int),
{
    if n >= handles.len() {
        return handles;
    }
    let ghost all = text::views(handles@);
    let mut kept: Vec<Handle> = Vec::new();
    let mut i: usize = 0;
    assert(text::views(kept@) =~= all.take(0));
    while i < n
        invariant
            i <= n < handles@.len(),
            all == text::views(handles@),
            text::views(kept@) == all.take(i as int),
        decreases n - i,
    {
        proof {
            text::lemma_views_push(kept@, handles@[i as int]);
            assert(all.take(i + 1) =~= all.take(i as int).push(handles@[i as int]@));
        }
        kept.push(handles[i].clone());
        i = i + 1;
    }
    kept
}

fn copy_handles(handles: &Vec<Handle>) -> (r: Vec<Handle>)
    ensures
        text::views(r@) == text::views(handles@),
{
    let ghost all = text::views(handles@);
    let mut copy: Vec<Handle> = Vec::new();
    let mut i: usize = 0;
    assert(text::views(copy@) =~= all.take(0));
    while i < handles.len()
        invariant
            i <= handles@.len(),
            all == text::views(handles@),
            text::views(copy@) == all.take(i as int),
        decreases handles@.len() - i,
    {
        proof {
            text::lemma_views_push(copy@, handles@[i as int]);
            assert(all.take(i + 1) =~= all.take(i as int).push(handles@[i as int]@));
        }
        copy.push(handles[i].clone());
        i = i + 1;
    }
    assert(all.take(handles@.len() as int) =~= all);
    copy
}

/// What the answers make of a query whose searches are those from number
/// `*next` on. Afterwards `*next` is the number of the search after them, if
/// there are handles.
fn evaluate(q: &Query, limit: usize, answers: &Vec<Vec<Handle>>, next: &mut usize) -> (r: Result<
    Vec<Handle>,
    Failure,
>)
    requires
        limits_fit(q.model(), limit),
        *old(next) <= answers@.len(),
    ensures
        is_outcome(r, eval(q.model(), limit, answer_views(answers@), *old(next) as int)),
        r is Ok ==> *final(next) == *old(next) + leaves(q.model()) && *final(next)
            <= answers@.len(),
    decreases *q, 1nat,
{
    let ghost from = *next as int;
    let ghost found = answer_views(answers@);
    match leaf(q, limit) {
        Some(_) => {
            if *next < answers.len() {
                let copy: Vec<Handle> = copy_handles(&answers[*next]);
                *next = *next + 1;
                return Ok(copy);
            } else {
                return Err(Failure::Unanswered);
            }
        },
        None => {},
    }
    match q {
        Query::InFile(glob, sub) => {
            let handles: Vec<Handle> = match evaluate(&**sub, limit * 2, answers, next) {
                Ok(handles) => handles,
                Err(e) => {
                    return Err(e);
                },
            };
            match filter_by_glob(&handles, glob.as_str()) {
                Ok(kept) => Ok(take_first(kept, limit)),
                Err(e) => Err(Failure::BadGlob(e)),
            }
        },
        Query::Union(qs) => {
            proof {
                query::lemma_models(*qs);
            }
            match evaluate_union(qs, limit, answers, next) {
                Ok(kept) => Ok(take_first(kept, limit)),
                Err(e) => Err(e),
            }
        },
        Query::Intersect(qs) => {
            proof {
                query::lemma_models(*qs);
            }
            if qs.len() == 0 {
                let none: Vec<Handle> = Vec::new();
                assert(text::views(none@) =~= Seq::<HandleView>::empty());
                assert(leaves_of_all(query::models(qs@), 0) == 0);
                return Ok(none);
            }
            match evaluate_intersect(qs, limit * 2, answers, next) {
                Ok(kept) => Ok(take_first(kept, limit)),
                Err(e) => Err(e),
            }
        },
        Query::Limit(n, sub) => match evaluate(&**sub, *n, answers, next) {
            Ok(handles) => Ok(take_first(handles, *n)),
            Err(e) => Err(e),
        },
        _ => Err(Failure::Unanswered),
    }
}

fn evaluate_union(
    qs: &Vec<Query>,
    limit: usize,
    answers: &Vec<Vec<Handle>>,
    next: &mut usize,
) -> (r: Result<Vec<Handle>, Failure>)
    requires
        limits_fit_all(query::models(qs@), limit, qs@.len()),
        *old(next) <= answers@.len(),
    ensures
        is_outcome(
            r,
            eval_union(
                query::models(qs@),
                limit,
                answer_views(answers@),
                *old(next) as int,
                qs@.len(),
            ),
        ),
        r is Ok ==> *final(next) == *old(next) + leaves_of_all(query::models(qs@), qs@.len())
            && *final(next) <= answers@.len(),
    decreases *qs, 0nat,
{
    let ghost all = query::models(qs@);
    let ghost found = answer_views(answers@);
    let ghost from = *next as int;
    let mut kept: Vec<Handle> = Vec::new();
    let mut i: usize = 0;
    assert(text::views(kept@) =~= Seq::<HandleView>::empty());
    while i < qs.len()
        invariant
            i <= qs@.len(),
            all == query::models(qs@),
            found == answer_views(answers@),
            from == *old(next),
            *next == from + leaves_of_all(all, i as nat),
            *next <= answers@.len(),
            limits_fit_all(all, limit, qs@.len()),
            eval_union(all, limit, found, from, i as nat) == Outcome::Handles(text::views(kept@)),
        decreases qs@.len() - i,
    {
        proof {
            lemma_limits_fit_all(all, limit, qs@.len(), i as int);
        }
        let step: Result<Vec<Handle>, Failure> = evaluate(&qs[i], limit, answers, next);
        let ghost now = eval_union(all, limit, found, from, (i + 1) as nat);
        match step {
            Ok(handles) => {
                push_new(&mut kept, &handles);
                assert(now == Outcome::Handles(text::views(kept@)));
            },
            Err(e) => {
                proof {
                    assert(is_outcome(Err(e), now));
                    lemma_union_stops(all, limit, found, from, (i + 1) as nat, all.len());
                }
                return Err(e);
            },
        }
        i = i + 1;
    }
    Ok(kept)
}

fn evaluate_intersect(
    qs: &Vec<Query>,
    limit: usize,
    answers: &Vec<Vec<Handle>>,
    next: &mut usize,
) -> (r: Result<Vec<Handle>, Failure>)
    requires
        qs@.len() > 0,
        limits_fit_all(query::models(qs@), limit, qs@.len()),
        *old(next) <= answers@.len(),
    ensures
        is_outcome(
            r,
            eval_intersect(
                query::models(qs@),
                limit,
                answer_views(answers@),
                *old(next) as int,
                qs@.len(),
            ),
        ),
        r is Ok ==> *final(next) == *old(next) + leaves_of_all(query::models(qs@), qs@.len())
            && *final(next) <= answers@.len(),
    decreases *qs, 0nat,
{
    let ghost all = query::models(qs@);
    let ghost found = answer_views(answers@);
    let ghost from = *next as int;
    proof {
        lemma_limits_fit_all(all, limit, qs@.len(), 0);
        reveal_with_fuel(leaves_of_all, 2);
    }
    let mut kept: Vec<Handle> = match evaluate(&qs[0], limit, answers, next) {
        Ok(handles) => handles,
        Err(e) => {
            proof {
                assert(is_outcome(Err(e), eval_intersect(all, limit, found, from, 1)));
                lemma_intersect_stops(all, limit, found, from, 1, all.len());
            }
            return Err(e);
        },
    };
    let mut i: usize = 1;
    while i < qs.len()
        invariant
            1 <= i <= qs@.len(),
            all == query::models(qs@),
            found == answer_views(answers@),
            from == *old(next),
            *next == from + leaves_of_all(all, i as nat),
            *next <= answers@.len(),
            limits_fit_all(all, limit, qs@.len()),
            eval_intersect(all, limit, found, from, i as nat) == Outcome::Handles(
                text::views(kept@),
            ),
        decreases qs@.len() - i,
    {
        proof {
            lemma_limits_fit_all(all, limit, qs@.len(), i as int);
        }
        let step: Result<Vec<Handle>, Failure> = evaluate(&qs[i], limit, answers, next);
        let ghost now = eval_intersect(all, limit, found, from, (i + 1) as nat);
        match step {
            Ok(handles) => {
                kept = keep_shared(&kept, &handles);
                assert(now == Outcome::Handles(text::views(kept@)));
            },
            Err(e) => {
                proof {
                    assert(is_outcome(Err(e), now));
                    lemma_intersect_stops(all, limit, found, from, (i + 1) as nat, all.len());
                }
                return Err(e);
            },
        }
        i = i + 1;
    }
    Ok(kept)
}

/// A union fails as soon as one of its queries does.
proof fn lemma_union_stops(
    qs: Seq<QueryModel>,
    limit: usize,
    answers: Seq<Seq<HandleView>>,
    from: int,
    i: nat,
    n: nat,
)
    requires
        i <= n <= qs.len(),
        !(eval_union(qs, limit, answers, from, i) is Handles),
    ensures
        eval_union(qs, limit, answers, from, n) == eval_union(qs, limit, answers, from, i),
    decreases n - i,
{
    if i < n {
        lemma_union_stops(qs, limit, answers, from, i, (n - 1) as nat);
    }
}

/// An intersection fails as soon as one of its queries does.
proof fn lemma_intersect_stops(
    qs: Seq<QueryModel>,
    limit: usize,
    answers: Seq<Seq<HandleView>>,
    from: int,
    i: nat,
    n: nat,
)
    requires
        1 <= i <= n <= qs.len(),
        !(eval_intersect(qs, limit, answers, from, i) is Handles),
    ensures
        eval_intersect(qs, limit, answers, from, n) == eval_intersect(qs, limit, answers, from, i),
    decreases n - i,
{
    if i < n {
        lemma_intersect_stops(qs, limit, answers, from, i, (n - 1) as nat);
    }
}

/// The handles of a query, given what its searches found: `answers` in the
/// order of [`search_requests`], and the error of the search after the last
/// answer, if one failed.
pub fn execute_query_internal(
    q: &Query,
    limit: usize,
    answers: &Vec<Vec<Handle>>,
    failure: CanopyError,
) -> (r: Result<Vec<Handle>, CanopyError>)
    requires
        limits_fit(q.model(), limit),
    ensures
        match eval(q.model(), limit, answer_views(answers@), 0) {
            Outcome::Handles(handles) => r matches Ok(v) && text::views(v@) == handles,
            Outcome::BadGlob(e) => r matches Err(CanopyError::GlobPattern(m)) && m@ == e,
            Outcome::Unanswered => r == Err::<Vec<Handle>, CanopyError>(failure),
        },
{
    let mut next: usize = 0;
    match evaluate(q, limit, answers, &mut next) {
        Ok(handles) => Ok(handles),
        Err(Failure::BadGlob(e)) => Err(CanopyError::GlobPattern(e)),
        Err(Failure::Unanswered) => Err(failure),
    }
}

// ---------------------------------------------------------------------------
// Properties of results
// ---------------------------------------------------------------------------

/// No two handles have the same ID.
pub open spec fn distinct_ids(handles: Seq<HandleView>) -> bool {
    forall|i: int, j: int|
        0 <= i < j < handles.len() ==> (#[trigger] handles[i]).id != (#[trigger] handles[j]).id
}

proof fn lemma_add_new(kept: Seq<HandleView>, more: Seq<HandleView>)
    ensures
        distinct_ids(kept) ==> distinct_ids(add_new(kept, more)),
        kept.len() <= add_new(kept, more).len(),
        forall|id: Seq<char>|
            #[trigger] has_id(add_new(kept, more), id) <==> has_id(kept, id) || has_id(more, id),
    decreases more.len(),
{
    if more.len() > 0 {
        let before = more.drop_last();
        let rest = add_new(kept, before);
        lemma_add_new(kept, before);
        assert forall|id: Seq<char>| #[trigger] has_id(more, id) <==> has_id(before, id)
            || more.last().id == id by {
            if has_id(more, id) {
                let i = choose|i: int| 0 <= i < more.len() && (#[trigger] more[i]).id == id;
                if i < before.len() {
                    assert(before[i].id == id);
                }
            }
            if has_id(before, id) {
                let i = choose|i: int| 0 <= i < before.len() && (#[trigger] before[i]).id == id;
                assert(more[i].id == id);
            }
            if more.last().id == id {
                assert(more[more.len() - 1].id == id);
            }
        }
        if !has_id(rest, more.last().id) {
            let longer = rest.push(more.last());
            assert forall|id: Seq<char>| #[trigger] has_id(longer, id) <==> has_id(rest, id)
                || more.last().id == id by {
                if has_id(longer, id) {
                    let i = choose|i: int| 0 <= i < longer.len() && (#[trigger] longer[i]).id == id;
                    if i < rest.len() {
                        assert(rest[i].id == id);
                    }
                }
                if has_id(rest, id) {
                    let i = choose|i: int| 0 <= i < rest.len() && (#[trigger] rest[i]).id == id;
                    assert(longer[i].id == id);
                }
                if more.last().id == id {
                    assert(longer[longer.len() - 1].id == id);
                }
            }
        }
    }
}

proof fn lemma_union_distinct(
    qs: Seq<QueryModel>,
    limit: usize,
    answers: Seq<Seq<HandleView>>,
    from: int,
    n: nat,
)
    ensures
        eval_union(qs, limit, answers, from, n) matches Outcome::Handles(found) ==> distinct_ids(
            found,
        ),
    decreases n,
{
    if n > 0 && n <= qs.len() {
        lemma_union_distinct(qs, limit, answers, from, (n - 1) as nat);
        match (
            eval_union(qs, limit, answers, from, (n - 1) as nat),
            eval(qs[n - 1], limit, answers, from + leaves_of_all(qs, (n - 1) as nat)),
        ) {
            (Outcome::Handles(kept), Outcome::Handles(found)) => {
                lemma_add_new(kept, found);
            },
            _ => {},
        }
    }
}

/// A union lists no handle twice.
pub proof fn law_union_distinct(
    qs: Seq<QueryModel>,
    limit: usize,
    answers: Seq<Seq<HandleView>>,
    from: int,
)
    ensures
        eval(QueryModel::Union(qs), limit, answers, from) matches Outcome::Handles(found)
            ==> distinct_ids(found),
{
    lemma_union_distinct(qs, limit, answers, from, qs.len());
}

/// What the `i`th query of a list finds.
pub open spec fn operand(
    qs: Seq<QueryModel>,
    limit: usize,
    answers: Seq<Seq<HandleView>>,
    from: int,
    i: int,
) -> Outcome {
    eval(qs[i], limit, answers, from + leaves_of_all(qs, i as nat))
}

proof fn lemma_union_members(
    qs: Seq<QueryModel>,
    limit: usize,
    answers: Seq<Seq<HandleView>>,
    from: int,
    n: nat,
    id: Seq<char>,
)
    requires
        n <= qs.len(),
    ensures
        eval_union(qs, limit, answers, from, n) matches Outcome::Handles(found) ==> (has_id(
            found,
            id,
        ) <==> exists|i: int|
            0 <= i < n && (#[trigger] operand(qs, limit, answers, from, i) matches Outcome::Handles(
                part,
            ) && has_id(part, id))),
    decreases n,
{
    if n > 0 {
        lemma_union_members(qs, limit, answers, from, (n - 1) as nat, id);
        match (
            eval_union(qs, limit, answers, from, (n - 1) as nat),
            operand(qs, limit, answers, from, n - 1),
        ) {
            (Outcome::Handles(kept), Outcome::Handles(part)) => {
                lemma_add_new(kept, part);
                if has_id(part, id) {
                    assert(operand(qs, limit, answers, from, n - 1) matches Outcome::Handles(p)
                        && has_id(p, id));
                }
            },
            _ => {},
        }
    }
}

/// Without a limit that cuts it, a union lists a handle exactly if one of its
/// queries finds it.
pub proof fn law_union_members(
    qs: Seq<QueryModel>,
    limit: usize,
    answers: Seq<Seq<HandleView>>,
    from: int,
    id: Seq<char>,
)
    ensures
        eval(QueryModel::Union(qs), limit, answers, from) matches Outcome::Handles(found) ==> (
        found.len() < limit ==> (has_id(found, id) <==> exists|i: int|
            0 <= i < qs.len() && (#[trigger] operand(
                qs,
                limit,
                answers,
                from,
                i,
            ) matches Outcome::Handles(part) && has_id(part, id)))),
{
    lemma_union_members(qs, limit, answers, from, qs.len(), id);
}

proof fn lemma_also_in(handles: Seq<HandleView>, others: Seq<HandleView>)
    ensures
        forall|i: int|
            0 <= i < also_in(handles, others).len() ==> has_id(
                others,
                (#[trigger] also_in(handles, others)[i]).id,
            ) && handles.contains(also_in(handles, others)[i]),
    decreases handles.len(),
{
    if handles.len() > 0 {
        let before = handles.drop_last();
        lemma_also_in(before, others);
        let rest = also_in(before, others);
        let all = also_in(handles, others);
        assert forall|i: int| 0 <= i < all.len() implies has_id(others, (#[trigger] all[i]).id)
            && handles.contains(all[i]) by {
            if i < rest.len() {
                assert(all[i] == rest[i]);
                let k = choose|k: int| 0 <= k < before.len() && before[k] == rest[i];
                assert(handles[k] == rest[i]);
            } else {
                assert(handles[handles.len() - 1] == all[i]);
            }
        }
    }
}

proof fn lemma_intersect_members(
    qs: Seq<QueryModel>,
    limit: usize,
    answers: Seq<Seq<HandleView>>,
    from: int,
    n: nat,
    i: int,
    k: int,
)
    requires
        0 <= i < n <= qs.len(),
    ensures
        eval_intersect(qs, limit, answers, from, n) matches Outcome::Handles(found) ==> (0 <= k
            < found.len() ==> (operand(qs, limit, answers, from, i) matches Outcome::Handles(part)
            && has_id(part, found[k].id))),
    decreases n,
{
    if n == 1 {
        match eval_intersect(qs, limit, answers, from, 1) {
            Outcome::Handles(found) => {
                if 0 <= k < found.len() {
                    assert(found[k].id == found[k].id);
                    assert(has_id(found, found[k].id));
                }
            },
            _ => {},
        }
    } else {
        match (
            eval_intersect(qs, limit, answers, from, (n - 1) as nat),
            operand(qs, limit, answers, from, n - 1),
        ) {
            (Outcome::Handles(kept), Outcome::Handles(part)) => {
                lemma_also_in(kept, part);
                let found = also_in(kept, part);
                if 0 <= k < found.len() {
                    assert(kept.contains(found[k]));
                    let j = choose|j: int| 0 <= j < kept.len() && kept[j] == found[k];
                    if i < n - 1 {
                        lemma_intersect_members(qs, limit, answers, from, (n - 1) as nat, i, j);
                    }
                }
            },
            _ => {},
        }
    }
}

/// Every handle of an intersection is one that each of its queries finds.
pub proof fn law_intersect_members(
    qs: Seq<QueryModel>,
    limit: usize,
    answers: Seq<Seq<HandleView>>,
    from: int,
    i: int,
    k: int,
)
    requires
        0 <= i < qs.len(),
    ensures
        eval(QueryModel::Intersect(qs), limit, answers, from) matches Outcome::Handles(found) ==> (0
            <= k < found.len() ==> (operand(
            qs,
            doubled(limit),
            answers,
            from,
            i,
        ) matches Outcome::Handles(part) && has_id(part, found[k].id))),
{
    lemma_intersect_members(qs, doubled(limit), answers, from, qs.len(), i, k);
}

/// A query that is made of others finds no more handles than its limit.
pub proof fn law_limit_respected(
    q: QueryModel,
    limit: usize,
    answers: Seq<Seq<HandleView>>,
    from: int,
)
    requires
        leaf_request(q, limit) is None,
    ensures
        eval(q, limit, answers, from) matches Outcome::Handles(found) ==> found.len() <= (match q {
            QueryModel::Limit(n, _) => n,
            _ => limit,
        }),
{
}

/// A query makes as many searches as it has leaves.
pub proof fn law_request_count(q: QueryModel, limit: usize)
    ensures
        requests(q, limit).len() == leaves(q),
    decreases q, 0nat,
{
    if leaf_request(q, limit) is None {
        match q {
            QueryModel::InFile(_, sub) => {
                law_request_count(*sub, doubled(limit));
            },
            QueryModel::Union(qs) => {
                lemma_request_counts(qs, limit, qs.len());
            },
            QueryModel::Intersect(qs) => {
                lemma_request_counts(qs, doubled(limit), qs.len());
            },
            QueryModel::Limit(n, sub) => {
                law_request_count(*sub, n);
            },
            _ => {},
        }
    }
}

pub proof fn lemma_request_counts(qs: Seq<QueryModel>, limit: usize, n: nat)
    ensures
        requests_of_all(qs, limit, n).len() == leaves_of_all(qs, n),
    decreases qs, n,
{
    if n > 0 && n <= qs.len() {
        lemma_request_counts(qs, limit, (n - 1) as nat);
        law_request_count(qs[n - 1], limit);
    }
}

// ---------------------------------------------------------------------------
// The result of a query
// ---------------------------------------------------------------------------

/// The number of tokens of all the handles.
pub open spec fn token_sum(handles: Seq<HandleView>) -> nat
    decreases handles.len(),
{
    if handles.len() == 0 {
        0
    } else {
        token_sum(handles.drop_last()) + handles.last().token_count as nat
    }
}

proof fn lemma_token_sum_mono(handles: Seq<HandleView>, k: int)
    requires
        0 <= k <= handles.len(),
    ensures
        token_sum(handles.take(k)) <= token_sum(handles),
    decreases handles.len() - k,
{
    if k < handles.len() {
        lemma_token_sum_mono(handles, k + 1);
        assert(handles.take(k + 1).drop_last() =~= handles.take(k));
    } else {
        assert(handles.take(k) =~= handles);
    }
}

/// The number of tokens of all the handles; `None` where it is too large for a
/// machine word.
pub fn sum_tokens(handles: &Vec<Handle>) -> (r: Option<usize>)
    ensures
        match r {
            Some(n) => n == token_sum(text::views(handles@)),
            None => token_sum(text::views(handles@)) > usize::MAX,
        },
{
    let ghost all = text::views(handles@);
    let mut sum: usize = 0;
    let mut i: usize = 0;
    assert(all.take(0) =~= Seq::<HandleView>::empty());
    while i < handles.len()
        invariant
            i <= handles@.len(),
            all == text::views(handles@),
            sum == token_sum(all.take(i as int)),
        decreases handles@.len() - i,
    {
        proof {
            assert(all.take(i + 1).drop_last() =~= all.take(i as int));
            lemma_token_sum_mono(all, i + 1);
        }
        if handles[i].token_count > usize::MAX - sum {
            return None;
        }
        sum = sum + handles[i].token_count;
        i = i + 1;
    }
    assert(all.take(handles@.len() as int) =~= all);
    Some(sum)
}

/// The number of results that a query asks for.
pub open spec fn effective_limit(limit: Option<usize>, default_limit: usize) -> usize {
    match limit {
        Some(n) => n,
        None => default_limit,
    }
}

/// The number of results that a query asks for.
pub fn result_limit(options: &QueryOptions, default_limit: usize) -> (r: usize)
    ensures
        r == effective_limit(options.limit, default_limit),
{
    match options.limit {
        Some(n) => n,
        None => default_limit,
    }
}

/// What a query asks of the index, and how many results it may have.
#[derive(Debug)]
pub enum QueryPlan {
    /// The references to a symbol.
    References { symbol: String, search_limit: usize, limit: usize },
    /// The searches that the query makes.
    Searches { requests: Vec<SearchRequest>, search_limit: usize, limit: usize },
}

/// Whether no limit that the query hands down is too large for a machine word.
/// A search may bring twice as many results as are returned, so that it shows
/// whether there are more.
pub open spec fn plan_fits(q: QueryModel, options: QueryOptions, default_limit: usize) -> bool {
    let limit = effective_limit(options.limit, default_limit);
    2 * limit <= usize::MAX && limits_fit(q, (2 * limit) as usize)
}

/// Whether no limit that the query hands down is too large for a machine word.
pub fn check_plan(q: &Query, options: &QueryOptions, default_limit: usize) -> (r: bool)
    ensures
        r == plan_fits(q.model(), *options, default_limit),
{
    let limit: usize = result_limit(options, default_limit);
    limit <= usize::MAX / 2 && check_limits(q, limit * 2)
}

/// What a query asks of the index.
pub fn plan_query(q: &Query, options: &QueryOptions, default_limit: usize) -> (r: QueryPlan)
    requires
        plan_fits(q.model(), *options, default_limit),
    ensures
        match r {
            QueryPlan::References { symbol, search_limit, limit } => {
                &&& q.model() == QueryModel::References(symbol@)
                &&& limit == effective_limit(options.limit, default_limit)
                &&& search_limit == 2 * limit
            },
            QueryPlan::Searches { requests: list, search_limit, limit } => {
                &&& !(q.model() is References)
                &&& limit == effective_limit(options.limit, default_limit)
                &&& search_limit == 2 * limit
                &&& text::views(list@) == requests(q.model(), search_limit)
            },
        },
{
    let limit: usize = result_limit(options, default_limit);
    let search_limit: usize = limit * 2;
    proof {
        reveal_with_fuel(Query::model, 2);
    }
    match q {
        Query::References(symbol) => QueryPlan::References {
            symbol: symbol.clone(),
            search_limit,
            limit,
        },
        _ => QueryPlan::Searches { requests: search_requests(q, search_limit), search_limit, limit },
    }
}

/// Whether handles are to be expanded.
#[derive(Debug)]
pub enum Expansion {
    /// No budget asks for it.
    NotAsked,
    /// The budget is too small; this says so.
    Exceeded(String),
    /// The handles with these IDs are to be expanded.
    Wanted(Vec<String>),
}

/// What is said where the budget is too small.
pub open spec fn exceeded_note(total_tokens: nat, budget: nat) -> Seq<char> {
    "Results ("@ + strings::decimal(total_tokens) + " tokens) exceed expand_budget ("@
        + strings::decimal(budget)
        + "). Use canopy_expand to retrieve specific handles."@
}

/// The IDs of handles as they are shown.
pub open spec fn shown_ids(handles: Seq<HandleView>) -> Seq<Seq<char>> {
    Seq::new(handles.len(), |i: int| handle::shown_id(handles[i].id))
}

/// Whether handles with `total_tokens` tokens are to be expanded: where there is
/// a budget above zero and it suffices.
pub open spec fn is_expansion(
    r: Expansion,
    handles: Seq<HandleView>,
    total_tokens: nat,
    budget: Option<usize>,
) -> bool {
    let limit = match budget {
        Some(n) => n as nat,
        None => 0,
    };
    match r {
        Expansion::NotAsked => limit == 0,
        Expansion::Exceeded(note) => limit > 0 && total_tokens > limit && note@ == exceeded_note(
            total_tokens,
            limit,
        ),
        Expansion::Wanted(ids) => limit > 0 && total_tokens <= limit && text::views(ids@)
            == shown_ids(handles),
    }
}

fn list_ids(handles: &Vec<Handle>) -> (r: Vec<String>)
    ensures
        text::views(r@) == shown_ids(text::views(handles@)),
{
    let ghost all = text::views(handles@);
    let mut ids: Vec<String> = Vec::new();
    let mut i: usize = 0;
    assert(text::views(ids@) =~= shown_ids(all).take(0));
    while i < handles.len()
        invariant
            i <= handles@.len(),
            all == text::views(handles@),
            text::views(ids@) == shown_ids(all).take(i as int),
        decreases handles@.len() - i,
    {
        let id: String = handles[i].id.to_string();
        proof {
            text::lemma_views_push(ids@, id);
            assert(shown_ids(all).take(i + 1) =~= shown_ids(all).take(i as int).push(id@));
        }
        ids.push(id);
        i = i + 1;
    }
    assert(shown_ids(all).take(handles@.len() as int) =~= shown_ids(all));
    ids
}

/// Whether the handles are to be expanded.
pub fn plan_expansion(handles: &Vec<Handle>, total_tokens: usize, budget: Option<usize>) -> (r:
    Expansion)
    ensures
        is_expansion(r, text::views(handles@), total_tokens as nat, budget),
{
    let limit: usize = match budget {
        Some(n) => n,
        None => 0,
    };
    if limit == 0 {
        Expansion::NotAsked
    } else if total_tokens <= limit {
        Expansion::Wanted(list_ids(handles))
    } else {
        let mut note: String = "Results (".to_owned();
        note.append(decimal_string(total_tokens as u64).as_str());
        note.append(" tokens) exceed expand_budget (");
        note.append(decimal_string(limit as u64).as_str());
        note.append("). Use canopy_expand to retrieve specific handles.");
        Expansion::Exceeded(note)
    }
}

/// The content listed for an ID; of several the last.
pub open spec fn content_of(contents: Seq<(Seq<char>, Seq<char>)>, id: Seq<char>) -> Option<
    Seq<char>,
>
    decreases contents.len(),
{
    if contents.len() == 0 {
        None
    } else if contents.last().0 == id {
        Some(contents.last().1)
    } else {
        content_of(contents.drop_last(), id)
    }
}

/// A handle with the content that is listed for it, if any.
pub open spec fn filled(h: HandleView, contents: Seq<(Seq<char>, Seq<char>)>) -> HandleView {
    match content_of(contents, handle::shown_id(h.id)) {
        Some(content) => HandleView { content: Some(content), ..h },
        None => h,
    }
}

/// The handles with the contents that are listed for them.
pub open spec fn all_filled(
    handles: Seq<HandleView>,
    contents: Seq<(Seq<char>, Seq<char>)>,
) -> Seq<HandleView> {
    Seq::new(handles.len(), |i: int| filled(handles[i], contents))
}

fn find_content(contents: &Vec<(String, String)>, id: &str) -> (r: Option<String>)
    ensures
        text::opt_view(r) == content_of(text::views(contents@), id@),
{
    let ghost all = text::views(contents@);
    let mut i: usize = contents.len();
    assert(all.take(i as int) =~= all);
    while i > 0
        invariant
            i <= contents@.len(),
            all == text::views(contents@),
            content_of(all, id@) == content_of(all.take(i as int), id@),
        decreases i,
    {
        proof {
            assert(all.take(i as int).drop_last() =~= all.take(i - 1));
            assert(all.take(i as int).last() == contents@[i - 1]@);
        }
        if str_eq(contents[i - 1].0.as_str(), id) {
            return Some(contents[i - 1].1.clone());
        }
        i = i - 1;
    }
    None
}

/// Gives the handles the contents that are listed for them.
pub fn fill_contents(handles: &Vec<Handle>, contents: &Vec<(String, String)>) -> (r: Vec<Handle>)
    ensures
        text::views(r@) == all_filled(text::views(handles@), text::views(contents@)),
{
    let ghost all = text::views(handles@);
    let ghost listed = text::views(contents@);
    let mut result: Vec<Handle> = Vec::new();
    let mut i: usize = 0;
    assert(text::views(result@) =~= all_filled(all, listed).take(0));
    while i < handles.len()
        invariant
            i <= handles@.len(),
            all == text::views(handles@),
            listed == text::views(contents@),
            text::views(result@) == all_filled(all, listed).take(i as int),
        decreases handles@.len() - i,
    {
        let mut h: Handle = handles[i].clone();
        match find_content(contents, h.id.to_string().as_str()) {
            Some(content) => {
                h.content = Some(content);
            },
            None => {},
        }
        proof {
            text::lemma_views_push(result@, h);
            assert(h@ == filled(all[i as int], listed));
            assert(all_filled(all, listed).take(i + 1) =~= all_filled(all, listed).take(
                i as int,
            ).push(h@));
        }
        result.push(h);
        i = i + 1;
    }
    assert(all_filled(all, listed).take(handles@.len() as int) =~= all_filled(all, listed));
    result
}

/// The handles that a query returns, of those that it found.
pub fn select_handles(found: Vec<Handle>, limit: usize) -> (r: Vec<Handle>)
    ensures
        text::views(r@) == first(text::views(found@), limit as int),
{
    take_first(found, limit)
}

/// The view of a list of contents.
pub open spec fn opt_contents(contents: Option<Vec<(String, String)>>) -> Option<
    Seq<(Seq<char>, Seq<char>)>,
> {
    match contents {
        Some(list) => Some(text::views(list@)),
        None => None,
    }
}

/// Whether this is the result of a query that found `found`. The contents are
/// those of the handles that were to be expanded, or `None` where that failed.
pub open spec fn is_query_result(
    r: QueryResult,
    found: Seq<HandleView>,
    limit: usize,
    budget: Option<usize>,
    contents: Option<Seq<(Seq<char>, Seq<char>)>>,
) -> bool {
    let selected = first(found, limit as int);
    let total = token_sum(selected);
    let asked = match budget {
        Some(n) => n as nat,
        None => 0,
    };
    &&& r.ref_handles is None
    &&& r.total_matches == found.len()
    &&& r.truncated == (found.len() > limit)
    &&& r.total_tokens == total
    &&& r.auto_expanded == (asked > 0 && total <= asked && contents is Some)
    &&& text::opt_view(r.expand_note) == (if asked == 0 {
        None
    } else if total > asked {
        Some(exceeded_note(total, asked))
    } else if contents is None {
        Some("Failed to expand handles"@)
    } else {
        None
    })
    &&& text::views(r.handles@) == (if r.auto_expanded {
        all_filled(selected, contents->0)
    } else {
        selected
    })
}

/// The result of a query that found `found`, given the contents of the handles
/// that [`plan_expansion`] wants expanded, or `None` where that failed.
pub fn finish_query(
    found: Vec<Handle>,
    limit: usize,
    budget: Option<usize>,
    contents: Option<Vec<(String, String)>>,
) -> (r: QueryResult)
    requires
        token_sum(first(text::views(found@), limit as int)) <= usize::MAX,
    ensures
        is_query_result(r, text::views(found@), limit, budget, opt_contents(contents)),
{
    let total_matches: usize = found.len();
    assert(text::views(found@).len() == found@.len());
    let handles: Vec<Handle> = take_first(found, limit);
    let total_tokens: usize = match sum_tokens(&handles) {
        Some(n) => n,
        None => 0,
    };
    let (handles, auto_expanded, expand_note): (Vec<Handle>, bool, Option<String>) =
        match plan_expansion(&handles, total_tokens, budget) {
        Expansion::NotAsked => (handles, false, None),
        Expansion::Exceeded(note) => (handles, false, Some(note)),
        Expansion::Wanted(_) => match contents {
            Some(list) => (fill_contents(&handles, &list), true, None),
            None => (handles, false, Some("Failed to expand handles".to_owned())),
        },
    };
    QueryResult {
        handles,
        ref_handles: None,
        total_tokens,
        truncated: total_matches > limit,
        total_matches,
        auto_expanded,
        expand_note,
    }
}

/// A query returns at most as many handles as its limit allows, and expands
/// them only where their tokens fit within the budget.
pub proof fn law_result_bounds(
    r: QueryResult,
    found: Seq<HandleView>,
    limit: usize,
    budget: Option<usize>,
    contents: Option<Seq<(Seq<char>, Seq<char>)>>,
)
    requires
        is_query_result(r, found, limit, budget, contents),
    ensures
        r.handles@.len() <= limit,
        r.truncated ==> r.handles@.len() == limit,
        r.auto_expanded ==> budget is Some && r.total_tokens <= budget->0,
        r.auto_expanded ==> r.expand_note is None,
{
    assert(text::views(r.handles@).len() == r.handles@.len());
}

/// The number of tokens of the previews of all the references.
pub open spec fn preview_tokens(refs: Seq<RefHandleView>) -> nat
    decreases refs.len(),
{
    if refs.len() == 0 {
        0
    } else {
        preview_tokens(refs.drop_last()) + bpe::tokens(refs.last().preview)
    }
}

proof fn lemma_preview_tokens_mono(refs: Seq<RefHandleView>, k: int)
    requires
        0 <= k <= refs.len(),
    ensures
        preview_tokens(refs.take(k)) <= preview_tokens(refs),
    decreases refs.len() - k,
{
    if k < refs.len() {
        lemma_preview_tokens_mono(refs, k + 1);
        assert(refs.take(k + 1).drop_last() =~= refs.take(k));
    } else {
        assert(refs.take(k) =~= refs);
    }
}

/// Whether this is the result of a query for references that found `found`.
pub open spec fn is_reference_result(
    r: QueryResult,
    found: Seq<RefHandleView>,
    limit: usize,
) -> bool {
    let selected = first(found, limit as int);
    &&& r.handles@.len() == 0
    &&& r.ref_handles is Some && text::views(r.ref_handles->0@) == selected
    &&& r.total_tokens == preview_tokens(selected)
    &&& r.truncated == (found.len() > limit)
    &&& r.total_matches == found.len()
    &&& !r.auto_expanded
    &&& r.expand_note is None
}

/// The first `n` references, or all.
fn take_first_refs(refs: Vec<RefHandle>, n: usize) -> (r: Vec<RefHandle>)
    ensures
        text::views(r@) == first(text::views(refs@), n as int),
{
    if n >= refs.len() {
        return refs;
    }
    let ghost all = text::views(refs@);
    let mut kept: Vec<RefHandle> = Vec::new();
    let mut i: usize = 0;
    assert(text::views(kept@) =~= all.take(0));
    while i < n
        invariant
            i <= n < refs@.len(),
            all == text::views(refs@),
            text::views(kept@) == all.take(i as int),
        decreases n - i,
    {
        proof {
            text::lemma_views_push(kept@, refs@[i as int]);
            assert(all.take(i + 1) =~= all.take(i as int).push(refs@[i as int]@));
        }
        kept.push(refs[i].clone());
        i = i + 1;
    }
    kept
}

/// The number of tokens of the previews; `None` where it is too large for a
/// machine word.
pub fn sum_preview_tokens(refs: &Vec<RefHandle>, limit: usize) -> (r: Option<usize>)
    ensures
        match r {
            Some(n) => n == preview_tokens(first(text::views(refs@), limit as int)),
            None => preview_tokens(first(text::views(refs@), limit as int)) > usize::MAX,
        },
{
    let ghost all = text::views(refs@);
    let n: usize = if limit < refs.len() {
        limit
    } else {
        refs.len()
    };
    let ghost selected = first(all, limit as int);
    let mut sum: usize = 0;
    let mut i: usize = 0;
    assert(selected.take(0) =~= Seq::<RefHandleView>::empty());
    while i < n
        invariant
            i <= n <= refs@.len(),
            n == selected.len(),
            all == text::views(refs@),
            selected == first(all, limit as int),
            sum == preview_tokens(selected.take(i as int)),
        decreases n - i,
    {
        let count: usize = estimate_tokens(refs[i].preview.as_str());
        proof {
            assert(selected.take(i + 1).drop_last() =~= selected.take(i as int));
            assert(selected.take(i + 1).last() == refs@[i as int]@);
            lemma_preview_tokens_mono(selected, i + 1);
        }
        if count > usize::MAX - sum {
            return None;
        }
        sum = sum + count;
        i = i + 1;
    }
    assert(selected.take(n as int) =~= selected);
    Some(sum)
}

/// The result of a query for references that found `found`.
pub fn reference_result(found: Vec<RefHandle>, limit: usize) -> (r: QueryResult)
    requires
        preview_tokens(first(text::views(found@), limit as int)) <= usize::MAX,
    ensures
        is_reference_result(r, text::views(found@), limit),
{
    let total_matches: usize = found.len();
    assert(text::views(found@).len() == found@.len());
    let total_tokens: usize = match sum_preview_tokens(&found, limit) {
        Some(n) => n,
        None => 0,
    };
    QueryResult {
        handles: Vec::new(),
        ref_handles: Some(take_first_refs(found, limit)),
        total_tokens,
        truncated: total_matches > limit,
        total_matches,
        auto_expanded: false,
        expand_note: None,
    }
}

/// The result of a query for references that found `found`; `None` where the
/// number of tokens is too large for a machine word.
pub fn try_reference_result(found: Vec<RefHandle>, limit: usize) -> (r: Option<QueryResult>)
    ensures
        r is Some <==> preview_tokens(first(text::views(found@), limit as int)) <= usize::MAX,
        r matches Some(result) ==> is_reference_result(result, text::views(found@), limit),
{
    match sum_preview_tokens(&found, limit) {
        Some(_) => Some(reference_result(found, limit)),
        None => None,
    }
}

} // verus!
