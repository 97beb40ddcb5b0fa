//! What queries find: how the handles of a query come from those of its parts, and
//! which searches the parameters of a query stand for.

use vstd::prelude::*;
use crate::globs;
use crate::handle::{HandleView, RefHandleView};
use crate::parse::bpe;
use crate::query;
use crate::query::execute;
use crate::query::execute::{Outcome, SearchRequestView};
use crate::query::{MatchMode, QueryKind, QueryModel, QueryParamsView, QueryResult};
use crate::text;

verus! {

broadcast use vstd::seq::group_seq_axioms;

// ---------------------------------------------------------------------------
// Handles
// ---------------------------------------------------------------------------

/// Whether these are the first of a list, as many as a limit allows.
pub open spec fn is_first_of<T>(found: Seq<T>, all: Seq<T>, limit: int) -> bool {
    &&& found.len() == if all.len() < limit {
        all.len() as int
    } else {
        limit
    }
    &&& forall|k: int| 0 <= k < found.len() ==> #[trigger] found[k] == all[k]
}

/// A query of one search finds what the search is answered.
pub proof fn law_answer_found(
    q: QueryModel,
    limit: usize,
    answers: Seq<Seq<HandleView>>,
    from: int,
)
    requires
        0 <= from < answers.len(),
        q is Section || q is Grep || q is File || q is Code || q is Children || q is ChildrenNamed
            || q is Definition || q is References || (q matches QueryModel::InFile(_, sub)
            && *sub is Grep),
    ensures
        execute::requests(q, limit).len() == 1,
        execute::eval(q, limit, answers, from) == Outcome::Handles(answers[from]),
{
}

/// A query in files finds the first handles of the query within it whose files match
/// the glob; the query within it may find twice as many.
pub proof fn law_in_file_found(
    glob: Seq<char>,
    sub: QueryModel,
    limit: usize,
    answers: Seq<Seq<HandleView>>,
    from: int,
    part: Seq<HandleView>,
)
    requires
        !(sub is Grep),
        2 * limit <= usize::MAX,
        execute::eval(sub, (2 * limit) as usize, answers, from) == Outcome::Handles(part),
    ensures
        match (
            globs::glob_error(glob),
            execute::eval(QueryModel::InFile(glob, Box::new(sub)), limit, answers, from),
        ) {
            (Some(why), outcome) => outcome == Outcome::BadGlob(why),
            (None, outcome) => outcome matches Outcome::Handles(found) && is_first_of(
                found,
                part.filter(|h: HandleView| globs::glob_matches(glob, h.file_path)),
                limit as int,
            ),
        },
{
    let test = |h: HandleView| globs::glob_matches(glob, h.file_path);
    lemma_in_files(part, glob, test);
    assert(execute::doubled(limit) == (2 * limit) as usize);
}

proof fn lemma_in_files(part: Seq<HandleView>, glob: Seq<char>, test: spec_fn(HandleView) -> bool)
    requires
        forall|h: HandleView| #[trigger] test(h) <==> globs::glob_matches(glob, h.file_path),
    ensures
        execute::in_files(part, glob) == part.filter(test),
    decreases part.len(),
{
    reveal(Seq::filter);
    if part.len() > 0 {
        lemma_in_files(part.drop_last(), glob, test);
    }
}

/// A query with a limit of its own finds the first handles of the query within it.
pub proof fn law_limit_found(
    n: usize,
    sub: QueryModel,
    limit: usize,
    answers: Seq<Seq<HandleView>>,
    from: int,
    part: Seq<HandleView>,
)
    requires
        execute::eval(sub, n, answers, from) == Outcome::Handles(part),
    ensures
        execute::eval(QueryModel::Limit(n, Box::new(sub)), limit, answers, from) matches Outcome::Handles(
            found,
        ) && is_first_of(found, part, n as int),
{
}

/// Whether these are what the queries of a list find, each with its own answers.
pub open spec fn are_parts(
    qs: Seq<QueryModel>,
    limit: usize,
    answers: Seq<Seq<HandleView>>,
    from: int,
    parts: Seq<Seq<HandleView>>,
) -> bool {
    &&& parts.len() == qs.len()
    &&& forall|i: int|
        0 <= i < qs.len() ==> execute::operand(qs, limit, answers, from, i) == Outcome::Handles(
            #[trigger] parts[i],
        )
}

/// Whether every list from the second up to the `n`th has a handle with an ID.
pub open spec fn in_all(parts: Seq<Seq<HandleView>>, n: int, id: Seq<char>) -> bool {
    forall|i: int| 1 <= i < n ==> has_handle(#[trigger] parts[i], id)
}

/// Whether a list has a handle with an ID.
pub open spec fn has_handle(handles: Seq<HandleView>, id: Seq<char>) -> bool {
    exists|k: int| 0 <= k < handles.len() && (#[trigger] handles[k]).id == id
}

proof fn lemma_also_in(
    handles: Seq<HandleView>,
    others: Seq<HandleView>,
    test: spec_fn(HandleView) -> bool,
)
    requires
        forall|h: HandleView| #[trigger] test(h) <==> has_handle(others, h.id),
    ensures
        execute::also_in(handles, others) == handles.filter(test),
    decreases handles.len(),
{
    reveal(Seq::filter);
    if handles.len() > 0 {
        lemma_also_in(handles.drop_last(), others, test);
        assert(execute::has_id(others, handles.last().id) == has_handle(others, handles.last().id));
    }
}

proof fn lemma_filter_twice(
    handles: Seq<HandleView>,
    a: spec_fn(HandleView) -> bool,
    b: spec_fn(HandleView) -> bool,
    both: spec_fn(HandleView) -> bool,
)
    requires
        forall|h: HandleView| #[trigger] both(h) <==> a(h) && b(h),
    ensures
        handles.filter(a).filter(b) == handles.filter(both),
    decreases handles.len(),
{
    reveal(Seq::filter);
    if handles.len() > 0 {
        let rest = handles.drop_last();
        lemma_filter_twice(rest, a, b, both);
        if a(handles.last()) {
            let more = rest.filter(a).push(handles.last());
            assert(more.drop_last() =~= rest.filter(a));
            assert(handles.filter(a) == more);
        }
    }
}

proof fn lemma_intersect_parts(
    qs: Seq<QueryModel>,
    limit: usize,
    answers: Seq<Seq<HandleView>>,
    from: int,
    parts: Seq<Seq<HandleView>>,
    n: nat,
    test: spec_fn(HandleView) -> bool,
)
    requires
        are_parts(qs, limit, answers, from, parts),
        1 <= n <= qs.len(),
        forall|h: HandleView| #[trigger] test(h) <==> in_all(parts, n as int, h.id),
    ensures
        execute::eval_intersect(qs, limit, answers, from, n) == Outcome::Handles(
            parts[0].filter(test),
        ),
    decreases n,
{
    if n == 1 {
        assert(execute::leaves_of_all(qs, 0) == 0);
        assert(execute::operand(qs, limit, answers, from, 0) == Outcome::Handles(parts[0]));
        lemma_filter_all(parts[0], test);
    } else {
        let before = |h: HandleView| in_all(parts, n - 1, h.id);
        let last = |h: HandleView| has_handle(parts[n - 1], h.id);
        lemma_intersect_parts(qs, limit, answers, from, parts, (n - 1) as nat, before);
        assert(execute::operand(qs, limit, answers, from, n - 1) == Outcome::Handles(parts[n - 1]));
        lemma_also_in(parts[0].filter(before), parts[n - 1], last);
        assert forall|h: HandleView| #[trigger] test(h) <==> before(h) && last(h) by {
            if before(h) && last(h) {
                assert forall|i: int| 1 <= i < n implies has_handle(#[trigger] parts[i], h.id) by {
                    if i < n - 1 {
                        assert(has_handle(parts[i], h.id));
                    }
                }
            }
            if test(h) {
                assert(has_handle(parts[n - 1], h.id));
            }
        }
        lemma_filter_twice(parts[0], before, last, test);
    }
}

proof fn lemma_filter_all(handles: Seq<HandleView>, test: spec_fn(HandleView) -> bool)
    requires
        forall|h: HandleView| #[trigger] test(h),
    ensures
        handles.filter(test) == handles,
    decreases handles.len(),
{
    reveal(Seq::filter);
    if handles.len() > 0 {
        lemma_filter_all(handles.drop_last(), test);
        assert(handles.drop_last().push(handles.last()) =~= handles);
        assert(test(handles.last()));
    }
}

/// An intersection finds the first of those handles of its first query that all its
/// other queries find too, in their order; its queries may find twice as many.
pub proof fn law_intersect_found(
    qs: Seq<QueryModel>,
    limit: usize,
    answers: Seq<Seq<HandleView>>,
    from: int,
    parts: Seq<Seq<HandleView>>,
)
    requires
        qs.len() > 0,
        2 * limit <= usize::MAX,
        are_parts(qs, (2 * limit) as usize, answers, from, parts),
    ensures
        execute::eval(QueryModel::Intersect(qs), limit, answers, from) matches Outcome::Handles(
            found,
        ) && is_first_of(
            found,
            parts[0].filter(|h: HandleView| in_all(parts, qs.len() as int, h.id)),
            limit as int,
        ),
{
    let test = |h: HandleView| in_all(parts, qs.len() as int, h.id);
    lemma_intersect_parts(qs, (2 * limit) as usize, answers, from, parts, qs.len(), test);
}

/// Lists one after the other.
pub open spec fn flat(parts: Seq<Seq<HandleView>>) -> Seq<HandleView>
    decreases parts.len(),
{
    if parts.len() == 0 {
        Seq::empty()
    } else {
        flat(parts.drop_last()) + parts.last()
    }
}

/// Whether the handle at `i` is the first of a list with its ID.
pub open spec fn is_new(all: Seq<HandleView>, i: int) -> bool {
    forall|j: int| 0 <= j < i ==> (#[trigger] all[j]).id != all[i].id
}

/// Whether the kept handles are those at `at` in a list: each that is the first with its
/// ID, in their order, and no other.
pub open spec fn keeps_first(all: Seq<HandleView>, kept: Seq<HandleView>, at: Seq<int>) -> bool {
    &&& kept.len() == at.len()
    &&& forall|k: int|
        0 <= k < at.len() ==> 0 <= #[trigger] at[k] < all.len() && kept[k] == all[at[k]] && is_new(
            all,
            at[k],
        )
    &&& forall|k: int, l: int| 0 <= k < l < at.len() ==> #[trigger] at[k] < #[trigger] at[l]
    &&& forall|i: int| 0 <= i < all.len() && #[trigger] is_new(all, i) ==> at.contains(i)
}

proof fn lemma_add_new(
    all: Seq<HandleView>,
    kept: Seq<HandleView>,
    at: Seq<int>,
    more: Seq<HandleView>,
) -> (r: Seq<int>)
    requires
        keeps_first(all, kept, at),
    ensures
        keeps_first(all + more, execute::add_new(kept, more), r),
    decreases more.len(),
{
    if more.len() == 0 {
        assert(all + more =~= all);
        at
    } else {
        let rest = more.drop_last();
        let h = more.last();
        let before = lemma_add_new(all, kept, at, rest);
        let some = all + rest;
        let longer = all + more;
        let n = some.len() as int;
        assert(longer =~= some.push(h));
        let held = execute::add_new(kept, rest);
        assert forall|i: int| 0 <= i < n implies (#[trigger] is_new(longer, i) <==> is_new(
            some,
            i,
        )) by {
            assert(longer[i] == some[i]);
            if is_new(some, i) {
                assert forall|j: int| 0 <= j < i implies (#[trigger] longer[j]).id
                    != longer[i].id by {
                    assert(some[j].id != some[i].id);
                }
            }
            if is_new(longer, i) {
                assert forall|j: int| 0 <= j < i implies (#[trigger] some[j]).id != some[i].id by {
                    assert(longer[j].id != longer[i].id);
                }
            }
        }
        assert(is_new(longer, n) <==> !execute::has_id(held, h.id)) by {
            if execute::has_id(held, h.id) {
                let k = choose|k: int| 0 <= k < held.len() && (#[trigger] held[k]).id == h.id;
                assert(held[k] == some[before[k]]);
                assert(longer[before[k]].id == longer[n].id);
            }
            if !is_new(longer, n) {
                let j = choose|j: int| 0 <= j < n && (#[trigger] longer[j]).id == longer[n].id;
                let first = lemma_first_with(some, j);
                assert(before.contains(first));
                let k = before.index_of(first);
                assert(held[k].id == h.id);
            }
        }
        if execute::has_id(held, h.id) {
            assert forall|i: int| 0 <= i < longer.len() && #[trigger] is_new(
                longer,
                i,
            ) implies before.contains(i) by {
                assert(i < n);
                assert(is_new(some, i));
            }
            before
        } else {
            let r = before.push(n);
            assert forall|i: int| 0 <= i < longer.len() && #[trigger] is_new(
                longer,
                i,
            ) implies r.contains(i) by {
                if i < n {
                    assert(is_new(some, i));
                    let k = before.index_of(i);
                    assert(r[k] == i);
                } else {
                    assert(r[before.len() as int] == i);
                }
            }
            assert forall|k: int| 0 <= k < r.len() implies 0 <= #[trigger] r[k] < longer.len()
                && held.push(h)[k] == longer[r[k]] && is_new(longer, r[k]) by {
                if k < before.len() {
                    assert(r[k] == before[k]);
                    assert(is_new(some, before[k]));
                }
            }
            r
        }
    }
}

/// A handle with an ID has a first one with it before or at it.
proof fn lemma_first_with(all: Seq<HandleView>, j: int) -> (i: int)
    requires
        0 <= j < all.len(),
    ensures
        0 <= i <= j,
        all[i].id == all[j].id,
        is_new(all, i),
    decreases j,
{
    if is_new(all, j) {
        j
    } else {
        let k = choose|k: int| 0 <= k < j && (#[trigger] all[k]).id == all[j].id;
        lemma_first_with(all, k)
    }
}

proof fn lemma_union_parts(
    qs: Seq<QueryModel>,
    limit: usize,
    answers: Seq<Seq<HandleView>>,
    from: int,
    parts: Seq<Seq<HandleView>>,
    n: nat,
) -> (at: Seq<int>)
    requires
        are_parts(qs, limit, answers, from, parts),
        n <= qs.len(),
    ensures
        execute::eval_union(qs, limit, answers, from, n) matches Outcome::Handles(kept)
            && keeps_first(flat(parts.take(n as int)), kept, at),
    decreases n,
{
    if n == 0 {
        let none = Seq::<int>::empty();
        assert(keeps_first(flat(parts.take(0)), Seq::empty(), none));
        none
    } else {
        let before = lemma_union_parts(qs, limit, answers, from, parts, (n - 1) as nat);
        assert(execute::operand(qs, limit, answers, from, n - 1) == Outcome::Handles(parts[n - 1]));
        assert(parts.take(n as int).drop_last() =~= parts.take(n - 1));
        assert(parts.take(n as int).last() == parts[n - 1]);
        match execute::eval_union(qs, limit, answers, from, (n - 1) as nat) {
            Outcome::Handles(kept) => lemma_add_new(
                flat(parts.take(n - 1)),
                kept,
                before,
                parts[n - 1],
            ),
            _ => before,
        }
    }
}

/// A union finds the first of the handles of all its queries, one query after the
/// other: of handles with one ID the one that comes first, in their order.
pub proof fn law_union_found(
    qs: Seq<QueryModel>,
    limit: usize,
    answers: Seq<Seq<HandleView>>,
    from: int,
    parts: Seq<Seq<HandleView>>,
)
    requires
        are_parts(qs, limit, answers, from, parts),
    ensures
        exists|kept: Seq<HandleView>, at: Seq<int>| #[trigger]
            keeps_first(flat(parts), kept, at) && (execute::eval(
                QueryModel::Union(qs),
                limit,
                answers,
                from,
            ) matches Outcome::Handles(found) && is_first_of(found, kept, limit as int)),
{
    let at = lemma_union_parts(qs, limit, answers, from, parts, qs.len());
    assert(parts.take(parts.len() as int) =~= parts);
    match execute::eval_union(qs, limit, answers, from, qs.len()) {
        Outcome::Handles(kept) => {
            assert(keeps_first(flat(parts), kept, at));
        },
        _ => {},
    }
}

/// The searches of the queries of a union or an intersection follow each other, those of
/// each query from where its answers are looked for. Those of an intersection ask for
/// twice as many.
pub proof fn law_searches_in_order(qs: Seq<QueryModel>, limit: usize, i: int)
    requires
        0 <= i < qs.len(),
        2 * limit <= usize::MAX,
    ensures
        ({
            let at = execute::leaves_of_all(qs, i as nat) as int;
            let union = execute::requests(QueryModel::Union(qs), limit);
            let shared = execute::requests(QueryModel::Intersect(qs), limit);
            let own = execute::requests(qs[i], limit);
            let twice = execute::requests(qs[i], (2 * limit) as usize);
            &&& 0 <= at && at + own.len() <= union.len() && union.subrange(at, at + own.len()) == own
            &&& at + twice.len() <= shared.len() && shared.subrange(at, at + twice.len()) == twice
        }),
{
    lemma_requests_at(qs, limit, qs.len(), i);
    lemma_requests_at(qs, (2 * limit) as usize, qs.len(), i);
}

proof fn lemma_requests_at(qs: Seq<QueryModel>, limit: usize, n: nat, i: int)
    requires
        0 <= i < n <= qs.len(),
    ensures
        ({
            let at = execute::leaves_of_all(qs, i as nat) as int;
            let all = execute::requests_of_all(qs, limit, n);
            let own = execute::requests(qs[i], limit);
            0 <= at && at + own.len() <= all.len() && all.subrange(at, at + own.len()) == own
        }),
    decreases n,
{
    let at = execute::leaves_of_all(qs, i as nat) as int;
    let all = execute::requests_of_all(qs, limit, n);
    let before = execute::requests_of_all(qs, limit, (n - 1) as nat);
    let own = execute::requests(qs[i], limit);
    let last = execute::requests(qs[n - 1], limit);
    assert(all == before + last);
    if i < n - 1 {
        lemma_requests_at(qs, limit, (n - 1) as nat, i);
        assert(all.subrange(at, at + own.len()) =~= before.subrange(at, at + own.len()));
    } else {
        execute::lemma_request_counts(qs, limit, (n - 1) as nat);
        assert(all.subrange(at, at + own.len()) =~= own);
    }
}

// ---------------------------------------------------------------------------
// Results
// ---------------------------------------------------------------------------

/// The tokens of handles add up.
pub proof fn law_tokens_add(a: Seq<HandleView>, b: Seq<HandleView>)
    ensures
        execute::token_sum(a + b) == execute::token_sum(a) + execute::token_sum(b),
        a.len() == 1 ==> execute::token_sum(a) == a[0].token_count,
        a.len() == 0 ==> execute::token_sum(a) == 0,
    decreases b.len(),
{
    reveal_with_fuel(execute::token_sum, 2);
    if b.len() == 0 {
        assert(a + b =~= a);
    } else {
        law_tokens_add(a, b.drop_last());
        assert((a + b).drop_last() =~= a + b.drop_last());
        assert((a + b).last() == b.last());
    }
}

/// The result of a query shows the first handles found, as they are but for their
/// content, and says how many there were. A handle has content where the result was
/// expanded and the content of its ID is given.
pub proof fn law_result_shows(
    r: QueryResult,
    found: Seq<HandleView>,
    limit: usize,
    budget: Option<usize>,
    contents: Option<Seq<(Seq<char>, Seq<char>)>>,
    k: int,
    content: Seq<char>,
)
    requires
        execute::is_query_result(r, found, limit, budget, contents),
    ensures
        r.total_matches == found.len(),
        r.truncated <==> r.handles@.len() < found.len(),
        r.handles@.len() == if found.len() < limit {
            found.len() as int
        } else {
            limit as int
        },
        0 <= k < r.handles@.len() ==> {
            let h = r.handles@[k]@;
            &&& h == HandleView { content: h.content, ..found[k] }
            &&& !r.auto_expanded ==> h.content == found[k].content
            &&& r.auto_expanded && is_only_content(
                contents->0,
                seq!['h'] + found[k].id,
                content,
            ) ==> h.content == Some(content)
        },
{
    reveal_strlit("h");
    assert("h"@ =~= seq!['h']);
    if 0 <= k < r.handles@.len() {
        assert(text::views(r.handles@)[k] == r.handles@[k]@);
        if r.auto_expanded && is_only_content(contents->0, seq!['h'] + found[k].id, content) {
            lemma_content_of(contents->0, seq!['h'] + found[k].id, content);
        }
    }
}

/// Whether a content is given for an ID, and no other is.
pub open spec fn is_only_content(
    contents: Seq<(Seq<char>, Seq<char>)>,
    id: Seq<char>,
    content: Seq<char>,
) -> bool {
    &&& contents.contains((id, content))
    &&& forall|i: int|
        0 <= i < contents.len() && (#[trigger] contents[i]).0 == id ==> contents[i].1 == content
}

proof fn lemma_content_of(
    contents: Seq<(Seq<char>, Seq<char>)>,
    id: Seq<char>,
    content: Seq<char>,
)
    requires
        is_only_content(contents, id, content),
    ensures
        execute::content_of(contents, id) == Some(content),
    decreases contents.len(),
{
    let k = contents.index_of((id, content));
    assert(contents[k].0 == id);
    if contents.last().0 == id {
        assert(contents[contents.len() - 1].0 == id);
    } else {
        let rest = contents.drop_last();
        assert(rest[k] == (id, content));
        assert(rest.contains((id, content)));
        assert forall|i: int| 0 <= i < rest.len() && (#[trigger] rest[i]).0 == id implies rest[i].1
            == content by {
            assert(contents[i].0 == id);
        }
        lemma_content_of(rest, id, content);
    }
}

// ---------------------------------------------------------------------------
// Parameters
// ---------------------------------------------------------------------------

/// The parameters of a query with nothing but what it looks for.
pub open spec fn is_bare(p: QueryParamsView) -> bool {
    p.glob is None && p.limit is None
}

/// What the parameters of a query look for. A kind of symbol goes before all else; then
/// a parent, a symbol, a section, a pattern and a list of patterns, each where those
/// before it are not given.
pub proof fn law_params_look_for(p: QueryParamsView, limit: usize)
    requires
        is_bare(p),
    ensures
        ({
            let q = query::params_query(p);
            &&& p.kind == QueryKind::Reference && p.symbol is Some ==> q == Ok::<_, Seq<char>>(
                QueryModel::References(p.symbol->0),
            )
            &&& p.kind == QueryKind::Definition && p.symbol is Some && p.parent is None ==> q
                == Ok::<_, Seq<char>>(QueryModel::Definition(p.symbol->0))
            &&& p.kind != QueryKind::Reference && p.symbol is Some && p.parent is Some ==> q
                == Ok::<_, Seq<char>>(QueryModel::ChildrenNamed(p.parent->0, p.symbol->0))
            &&& p.kind == QueryKind::Any && p.symbol is Some && p.parent is None ==> q == Ok::<
                _,
                Seq<char>,
            >(QueryModel::Code(p.symbol->0))
            &&& p.kind == QueryKind::Any && p.symbol is None ==> {
                &&& p.parent is Some ==> q == Ok::<_, Seq<char>>(QueryModel::Children(p.parent->0))
                &&& p.parent is None && p.section is Some ==> q == Ok::<_, Seq<char>>(
                    QueryModel::Section(p.section->0),
                )
                &&& p.parent is None && p.section is None && p.pattern is Some ==> q == Ok::<
                    _,
                    Seq<char>,
                >(QueryModel::Grep(p.pattern->0))
            }
            &&& q is Err <==> p.symbol is None && (p.kind != QueryKind::Any || p.parent is None
                && p.section is None && p.pattern is None && (p.patterns is None
                || p.patterns->0.len() == 0))
        }),
{
}

/// A list of patterns has each of them searched for, in their order. What is found is
/// what all of them find where all must match, and what any of them finds elsewhere.
pub proof fn law_patterns_searched(p: QueryParamsView, limit: usize, i: int)
    requires
        is_bare(p),
        p.kind == QueryKind::Any && p.symbol is None && p.parent is None && p.section is None
            && p.pattern is None,
        p.patterns matches Some(patterns) && 0 <= i < patterns.len(),
        2 * limit <= usize::MAX,
    ensures
        query::params_query(p) matches Ok(q) && {
            let patterns = p.patterns->0;
            let asked = execute::requests(q, limit);
            &&& asked.len() == patterns.len()
            &&& match p.match_mode {
                MatchMode::Any => q is Union && asked[i] == (SearchRequestView::Text {
                    pattern: patterns[i],
                    limit,
                }),
                MatchMode::All => q is Intersect && asked[i] == (SearchRequestView::Text {
                    pattern: patterns[i],
                    limit: (2 * limit) as usize,
                }),
            }
        },
{
    let patterns = p.patterns->0;
    let greps = Seq::new(patterns.len(), |i: int| QueryModel::Grep(patterns[i]));
    lemma_greps(greps, patterns, limit, greps.len());
    lemma_greps(greps, patterns, (2 * limit) as usize, greps.len());
}

proof fn lemma_greps(greps: Seq<QueryModel>, patterns: Seq<Seq<char>>, limit: usize, n: nat)
    requires
        greps.len() == patterns.len(),
        n <= greps.len(),
        forall|i: int| 0 <= i < greps.len() ==> #[trigger] greps[i] == QueryModel::Grep(patterns[i]),
    ensures
        execute::requests_of_all(greps, limit, n).len() == n,
        forall|i: int|
            0 <= i < n ==> #[trigger] execute::requests_of_all(greps, limit, n)[i] == (
            SearchRequestView::Text { pattern: patterns[i], limit }),
    decreases n,
{
    if n > 0 {
        lemma_greps(greps, patterns, limit, (n - 1) as nat);
        assert(greps[n - 1] == QueryModel::Grep(patterns[n - 1]));
        reveal_with_fuel(execute::requests, 2);
        reveal_with_fuel(execute::requests_of_all, 2);
        assert(execute::requests(greps[n - 1], limit) =~= seq![
            SearchRequestView::Text { pattern: patterns[n - 1], limit },
        ]);
    }
}

/// A glob narrows the query that the parameters stand for without it, and a limit bounds
/// the query that they stand for without the limit.
pub proof fn law_params_narrow(p: QueryParamsView)
    ensures
        p.glob is Some && p.limit is None ==> match query::params_query(
            (QueryParamsView { glob: None, ..p }),
        ) {
            Ok(q) => query::params_query(p) == Ok::<_, Seq<char>>(
                QueryModel::InFile(p.glob->0, Box::new(q)),
            ),
            Err(why) => query::params_query(p) == Err::<QueryModel, _>(why),
        },
        p.limit matches Some(n) ==> match query::params_query(
            (QueryParamsView { limit: None, ..p }),
        ) {
            Ok(q) => query::params_query(p) == Ok::<_, Seq<char>>(QueryModel::Limit(n, Box::new(q))),
            Err(why) => query::params_query(p) == Err::<QueryModel, _>(why),
        },
{
}

/// A result is expanded where a budget is given that its tokens keep to, and the contents
/// could be had. It has a note where a budget is given and it is not expanded.
pub proof fn law_expanded_within_budget(
    r: QueryResult,
    found: Seq<HandleView>,
    limit: usize,
    budget: Option<usize>,
    contents: Option<Seq<(Seq<char>, Seq<char>)>>,
)
    requires
        execute::is_query_result(r, found, limit, budget, contents),
    ensures
        ({
            let asked = budget is Some && budget->0 > 0;
            &&& r.auto_expanded <==> asked && r.total_tokens <= budget->0 && contents is Some
            &&& r.expand_note is Some <==> asked && !r.auto_expanded
        }),
{
}

/// The tokens of references are those of their previews, and add up.
pub proof fn law_preview_tokens_add(a: Seq<RefHandleView>, b: Seq<RefHandleView>)
    ensures
        execute::preview_tokens(a + b) == execute::preview_tokens(a) + execute::preview_tokens(b),
        a.len() == 1 ==> execute::preview_tokens(a) == bpe::tokens(a[0].preview),
        a.len() == 0 ==> execute::preview_tokens(a) == 0,
    decreases b.len(),
{
    reveal_with_fuel(execute::preview_tokens, 2);
    if b.len() == 0 {
        assert(a + b =~= a);
    } else {
        law_preview_tokens_add(a, b.drop_last());
        assert((a + b).drop_last() =~= a + b.drop_last());
        assert((a + b).last() == b.last());
    }
}

/// The result of a search for references shows the first of them, and counts them all.
pub proof fn law_references_shown(r: QueryResult, found: Seq<RefHandleView>, limit: usize)
    requires
        execute::is_reference_result(r, found, limit),
    ensures
        r.ref_handles is Some && is_first_of(
            text::views(r.ref_handles->0@),
            found,
            limit as int,
        ),
        r.total_matches == found.len(),
        r.truncated <==> r.ref_handles->0@.len() < found.len(),
        r.handles@.len() == 0 && !r.auto_expanded,
        r.total_tokens == execute::preview_tokens(text::views(r.ref_handles->0@)),
{
    assert(text::views(r.ref_handles->0@).len() == r.ref_handles->0@.len());
}

/// A limit that is given goes before the one that is set.
pub proof fn law_given_limit_first(n: usize, default_limit: usize)
    ensures
        execute::effective_limit(Some(n), default_limit) == n,
        execute::effective_limit(None, default_limit) == default_limit,
{
}

} // verus!
