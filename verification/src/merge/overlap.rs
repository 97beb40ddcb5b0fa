//! Merging that keeps the service's handles of a dirty file where no local
//! handle overlaps them.

use vstd::prelude::*;
use crate::handle::{Handle, HandleView, RefHandle, RefHandleView};
use crate::merge;
use crate::merge::{assemble, copy_refs};
use crate::query::execute;
use crate::query::QueryResult;
use crate::strings::list_contains;
use crate::text;
use crate::text::str_eq;

verus! {

broadcast use {vstd::string::group_string_axioms, vstd::seq::group_seq_axioms};

/// Whether two line ranges have a line in common.
pub open spec fn overlapping(a: (usize, usize), b: (usize, usize)) -> bool {
    a.0 <= b.1 && b.0 <= a.1
}

/// Whether two line ranges have a line in common.
pub fn ranges_overlap(a: (usize, usize), b: (usize, usize)) -> (r: bool)
    ensures
        r == overlapping(a, b),
{
    a.0 <= b.1 && b.0 <= a.1
}

/// Two ranges overlap exactly where some line is in both.
pub proof fn law_overlap_shares_line(a: (usize, usize), b: (usize, usize))
    requires
        a.0 <= a.1,
        b.0 <= b.1,
    ensures
        overlapping(a, b) <==> exists|line: int|
            a.0 <= line <= a.1 && #[trigger] in_range(line, b),
        overlapping(a, b) == overlapping(b, a),
{
    if overlapping(a, b) {
        let line = if a.0 >= b.0 {
            a.0 as int
        } else {
            b.0 as int
        };
        assert(in_range(line, b));
    }
}

/// Whether a line is in a range.
pub open spec fn in_range(line: int, range: (usize, usize)) -> bool {
    range.0 <= line <= range.1
}

/// Whether a local handle overlaps the handle in its file.
pub open spec fn is_covered(local: Seq<HandleView>, h: HandleView) -> bool {
    exists|i: int|
        0 <= i < local.len() && (#[trigger] local[i]).file_path == h.file_path && overlapping(
            local[i].line_range,
            h.line_range,
        )
}

/// The service handles that stay: those of clean files, and of dirty files those
/// that no local handle overlaps.
pub open spec fn uncovered(
    local: Seq<HandleView>,
    service: Seq<HandleView>,
    dirty: Seq<Seq<char>>,
) -> Seq<HandleView>
    decreases service.len(),
{
    if service.len() == 0 {
        Seq::empty()
    } else {
        let before = uncovered(local, service.drop_last(), dirty);
        let h = service.last();
        if dirty.contains(h.file_path) && is_covered(local, h) {
            before
        } else {
            before.push(h)
        }
    }
}

/// Local references, then those of the service.
pub open spec fn joined_refs(
    local: Option<Seq<RefHandleView>>,
    service: Option<Seq<RefHandleView>>,
) -> Option<Seq<RefHandleView>> {
    match (local, service) {
        (Some(l), Some(s)) => Some(l + s),
        (Some(l), None) => Some(l),
        (None, s) => s,
    }
}

fn covered(local: &Vec<Handle>, h: &Handle) -> (r: bool)
    ensures
        r == is_covered(text::views(local@), h@),
{
    let ghost all = text::views(local@);
    let mut i: usize = 0;
    while i < local.len()
        invariant
            i <= local@.len(),
            all == text::views(local@),
            forall|k: int|
                0 <= k < i ==> !((#[trigger] all[k]).file_path == h@.file_path && overlapping(
                    all[k].line_range,
                    h@.line_range,
                )),
        decreases local@.len() - i,
    {
        assert(all[i as int] == local@[i as int]@);
        if str_eq(local[i].file_path.as_str(), h.file_path.as_str()) && ranges_overlap(
            local[i].line_range,
            h.line_range,
        ) {
            return true;
        }
        i = i + 1;
    }
    false
}

fn keep_uncovered(local: &Vec<Handle>, service: &Vec<Handle>, dirty_paths: &Vec<String>) -> (r: Vec<
    Handle,
>)
    ensures
        text::views(r@) == uncovered(
            text::views(local@),
            text::views(service@),
            text::views(dirty_paths@),
        ),
{
    let ghost all = text::views(service@);
    let ghost own = text::views(local@);
    let ghost dirty = text::views(dirty_paths@);
    let mut kept: Vec<Handle> = Vec::new();
    let mut i: usize = 0;
    assert(text::views(kept@) =~= uncovered(own, all.take(0), dirty));
    while i < service.len()
        invariant
            i <= service@.len(),
            all == text::views(service@),
            own == text::views(local@),
            dirty == text::views(dirty_paths@),
            text::views(kept@) == uncovered(own, all.take(i as int), dirty),
        decreases service@.len() - i,
    {
        proof {
            assert(all.take(i + 1).drop_last() =~= all.take(i as int));
            assert(all.take(i + 1).last() == service@[i as int]@);
            text::lemma_views_push(kept@, service@[i as int]);
        }
        if !(list_contains(dirty_paths, service[i].file_path.as_str()) && covered(
            local,
            &service[i],
        )) {
            kept.push(service[i].clone());
        }
        i = i + 1;
    }
    assert(all.take(service@.len() as int) =~= all);
    kept
}

fn merge_ref_handles(local: &Option<Vec<RefHandle>>, service: &Option<Vec<RefHandle>>) -> (r:
    Option<Vec<RefHandle>>)
    ensures
        merge::opt_refs(r) == joined_refs(merge::opt_refs(*local), merge::opt_refs(*service)),
{
    match (local, service) {
        (Some(l), Some(s)) => {
            let mut list: Vec<RefHandle> = copy_refs(l);
            let mut more: Vec<RefHandle> = copy_refs(s);
            proof {
                text::lemma_views_add(list@, more@);
            }
            list.append(&mut more);
            Some(list)
        },
        (Some(l), None) => Some(copy_refs(l)),
        (None, Some(s)) => Some(copy_refs(s)),
        (None, None) => None,
    }
}

/// Merges local and service query results. All local handles come first. A
/// service handle of a dirty file stays only where no local handle overlaps it.
pub fn merge_results(local: QueryResult, service: QueryResult, dirty_paths: &Vec<String>) -> (r:
    QueryResult)
    requires
        execute::token_sum(
            text::views(local.handles@) + uncovered(
                text::views(local.handles@),
                text::views(service.handles@),
                text::views(dirty_paths@),
            ),
        ) <= usize::MAX,
    ensures
        merge::is_merged(
            r,
            local,
            service,
            uncovered(
                text::views(local.handles@),
                text::views(service.handles@),
                text::views(dirty_paths@),
            ),
            joined_refs(merge::opt_refs(local.ref_handles), merge::opt_refs(service.ref_handles)),
        ),
{
    let kept: Vec<Handle> = keep_uncovered(&local.handles, &service.handles, dirty_paths);
    let ref_handles: Option<Vec<RefHandle>> = merge_ref_handles(
        &local.ref_handles,
        &service.ref_handles,
    );
    assemble(local, service, kept, ref_handles)
}

/// Exactly the service handles that are of clean files or overlapped by no local
/// handle stay.
pub proof fn law_uncovered_members(
    local: Seq<HandleView>,
    service: Seq<HandleView>,
    dirty: Seq<Seq<char>>,
    h: HandleView,
)
    ensures
        uncovered(local, service, dirty).contains(h) <==> service.contains(h) && !(dirty.contains(
            h.file_path,
        ) && is_covered(local, h)),
    decreases service.len(),
{
    if service.len() > 0 {
        let rest = service.drop_last();
        law_uncovered_members(local, rest, dirty, h);
        let before = uncovered(local, rest, dirty);
        let all = uncovered(local, service, dirty);
        assert(service[service.len() - 1] == service.last());
        if service.contains(h) {
            let k = choose|k: int| 0 <= k < service.len() && service[k] == h;
            assert(k < rest.len() ==> rest[k] == h);
        }
        if rest.contains(h) {
            let k = choose|k: int| 0 <= k < rest.len() && rest[k] == h;
            assert(service[k] == h);
        }
        let last = service.last();
        if !(dirty.contains(last.file_path) && is_covered(local, last)) {
            assert(all[all.len() - 1] == last);
            if before.contains(h) {
                let k = choose|k: int| 0 <= k < before.len() && before[k] == h;
                assert(all[k] == h);
            }
            if all.contains(h) {
                let k = choose|k: int| 0 <= k < all.len() && all[k] == h;
                assert(k < before.len() ==> before[k] == h);
            }
        }
    }
}

/// The handles of the service that stay are all but those that a local handle covers in a
/// file with changes, in their order.
pub proof fn law_uncovered_in_order(
    local: Seq<HandleView>,
    service: Seq<HandleView>,
    dirty: Seq<Seq<char>>,
)
    ensures
        uncovered(local, service, dirty) == service.filter(
            |h: HandleView|
                !dirty.contains(h.file_path) || forall|i: int|
                    0 <= i < local.len() ==> (#[trigger] local[i]).file_path != h.file_path
                        || local[i].line_range.1 < h.line_range.0 || h.line_range.1
                        < local[i].line_range.0,
        ),
    decreases service.len(),
{
    reveal(Seq::filter);
    if service.len() > 0 {
        law_uncovered_in_order(local, service.drop_last(), dirty);
        let h = service.last();
        if dirty.contains(h.file_path) && is_covered(local, h) {
            let i = choose|i: int|
                0 <= i < local.len() && (#[trigger] local[i]).file_path == h.file_path
                    && overlapping(local[i].line_range, h.line_range);
            assert(local[i].file_path == h.file_path);
        }
    }
}

/// Joined references are the local ones, then those of the service; there are none at all
/// where neither has any.
pub proof fn law_joined_refs(
    local: Option<Seq<RefHandleView>>,
    service: Option<Seq<RefHandleView>>,
)
    ensures
        joined_refs(local, service) is None <==> local is None && service is None,
        joined_refs(local, service) matches Some(refs) ==> refs == (if local is Some {
            local->0
        } else {
            Seq::empty()
        }) + (if service is Some {
            service->0
        } else {
            Seq::empty()
        }),
{
    if local is Some {
        assert(local->0 + Seq::<RefHandleView>::empty() =~= local->0);
    }
    if service is Some {
        assert(Seq::<RefHandleView>::empty() + service->0 =~= service->0);
    }
}

} // verus!
