//! Merging of local and service query results.

use vstd::prelude::*;
use crate::handle::{Handle, HandleView, RefHandle, RefHandleView};
use crate::query::execute;
use crate::query::meaning;
use crate::query::execute::sum_tokens;
use crate::query::QueryResult;
use crate::strings::list_contains;
use crate::text;

pub mod overlap;

verus! {

broadcast use {vstd::string::group_string_axioms, vstd::seq::group_seq_axioms};

/// The handles whose file is not dirty.
pub open spec fn clean_handles(handles: Seq<HandleView>, dirty: Seq<Seq<char>>) -> Seq<HandleView>
    decreases handles.len(),
{
    if handles.len() == 0 {
        Seq::empty()
    } else {
        let before = clean_handles(handles.drop_last(), dirty);
        if dirty.contains(handles.last().file_path) {
            before
        } else {
            before.push(handles.last())
        }
    }
}

/// The references whose file is not dirty.
pub open spec fn clean_refs(refs: Seq<RefHandleView>, dirty: Seq<Seq<char>>) -> Seq<RefHandleView>
    decreases refs.len(),
{
    if refs.len() == 0 {
        Seq::empty()
    } else {
        let before = clean_refs(refs.drop_last(), dirty);
        if dirty.contains(refs.last().file_path) {
            before
        } else {
            before.push(refs.last())
        }
    }
}

/// The views of optional references.
pub open spec fn opt_refs(refs: Option<Vec<RefHandle>>) -> Option<Seq<RefHandleView>> {
    match refs {
        Some(list) => Some(text::views(list@)),
        None => None,
    }
}

/// Local references, then those of the service whose file is not dirty. Without
/// local references, and with none left of the service's, there is no list.
pub open spec fn merged_refs(
    local: Option<Seq<RefHandleView>>,
    service: Option<Seq<RefHandleView>>,
    dirty: Seq<Seq<char>>,
) -> Option<Seq<RefHandleView>> {
    match (local, service) {
        (Some(l), Some(s)) => Some(l + clean_refs(s, dirty)),
        (Some(l), None) => Some(l),
        (None, Some(s)) => if clean_refs(s, dirty).len() == 0 {
            None
        } else {
            Some(clean_refs(s, dirty))
        },
        (None, None) => None,
    }
}

/// Whether this merges two results, given the service handles that stay and the
/// references.
pub open spec fn is_merged(
    r: QueryResult,
    local: QueryResult,
    service: QueryResult,
    kept: Seq<HandleView>,
    refs: Option<Seq<RefHandleView>>,
) -> bool {
    let handles = text::views(local.handles@) + kept;
    &&& text::views(r.handles@) == handles
    &&& opt_refs(r.ref_handles) == refs
    &&& r.total_tokens == execute::token_sum(handles)
    &&& r.total_matches == handles.len()
    &&& r.truncated == (local.truncated || service.truncated)
    &&& r.auto_expanded == (local.auto_expanded || service.auto_expanded)
    &&& text::opt_view(r.expand_note) == (if local.expand_note is Some {
        text::opt_view(local.expand_note)
    } else {
        text::opt_view(service.expand_note)
    })
}

/// Puts a merged result together.
pub(crate) fn assemble(
    local: QueryResult,
    service: QueryResult,
    kept: Vec<Handle>,
    ref_handles: Option<Vec<RefHandle>>,
) -> (r: QueryResult)
    requires
        execute::token_sum(text::views(local.handles@) + text::views(kept@)) <= usize::MAX,
    ensures
        is_merged(r, local, service, text::views(kept@), opt_refs(ref_handles)),
{
    let mut kept: Vec<Handle> = kept;
    let mut handles: Vec<Handle> = local.handles;
    proof {
        text::lemma_views_add(handles@, kept@);
    }
    handles.append(&mut kept);
    let total_tokens: usize = match sum_tokens(&handles) {
        Some(n) => n,
        None => 0,
    };
    let total_matches: usize = handles.len();
    QueryResult {
        handles,
        ref_handles,
        total_tokens,
        truncated: local.truncated || service.truncated,
        total_matches,
        auto_expanded: local.auto_expanded || service.auto_expanded,
        expand_note: match local.expand_note {
            Some(note) => Some(note),
            None => service.expand_note,
        },
    }
}

fn keep_clean_handles(handles: &Vec<Handle>, dirty_paths: &Vec<String>) -> (r: Vec<Handle>)
    ensures
        text::views(r@) == clean_handles(text::views(handles@), text::views(dirty_paths@)),
{
    let ghost all = text::views(handles@);
    let ghost dirty = text::views(dirty_paths@);
    let mut kept: Vec<Handle> = Vec::new();
    let mut i: usize = 0;
    assert(text::views(kept@) =~= clean_handles(all.take(0), dirty));
    while i < handles.len()
        invariant
            i <= handles@.len(),
            all == text::views(handles@),
            dirty == text::views(dirty_paths@),
            text::views(kept@) == clean_handles(all.take(i as int), dirty),
        decreases handles@.len() - i,
    {
        proof {
            assert(all.take(i + 1).drop_last() =~= all.take(i as int));
            assert(all.take(i + 1).last() == handles@[i as int]@);
            text::lemma_views_push(kept@, handles@[i as int]);
        }
        if !list_contains(dirty_paths, handles[i].file_path.as_str()) {
            kept.push(handles[i].clone());
        }
        i = i + 1;
    }
    assert(all.take(handles@.len() as int) =~= all);
    kept
}

fn keep_clean_refs(refs: &Vec<RefHandle>, dirty_paths: &Vec<String>) -> (r: Vec<RefHandle>)
    ensures
        text::views(r@) == clean_refs(text::views(refs@), text::views(dirty_paths@)),
{
    let ghost all = text::views(refs@);
    let ghost dirty = text::views(dirty_paths@);
    let mut kept: Vec<RefHandle> = Vec::new();
    let mut i: usize = 0;
    assert(text::views(kept@) =~= clean_refs(all.take(0), dirty));
    while i < refs.len()
        invariant
            i <= refs@.len(),
            all == text::views(refs@),
            dirty == text::views(dirty_paths@),
            text::views(kept@) == clean_refs(all.take(i as int), dirty),
        decreases refs@.len() - i,
    {
        proof {
            assert(all.take(i + 1).drop_last() =~= all.take(i as int));
            assert(all.take(i + 1).last() == refs@[i as int]@);
            text::lemma_views_push(kept@, refs@[i as int]);
        }
        if !list_contains(dirty_paths, refs[i].file_path.as_str()) {
            kept.push(refs[i].clone());
        }
        i = i + 1;
    }
    assert(all.take(refs@.len() as int) =~= all);
    kept
}

fn merge_ref_handles(
    local: &Option<Vec<RefHandle>>,
    service: &Option<Vec<RefHandle>>,
    dirty_paths: &Vec<String>,
) -> (r: Option<Vec<RefHandle>>)
    ensures
        opt_refs(r) == merged_refs(
            opt_refs(*local),
            opt_refs(*service),
            text::views(dirty_paths@),
        ),
{
    match (local, service) {
        (Some(l), Some(s)) => {
            let mut list: Vec<RefHandle> = copy_refs(l);
            let mut more: Vec<RefHandle> = keep_clean_refs(s, dirty_paths);
            proof {
                text::lemma_views_add(list@, more@);
            }
            list.append(&mut more);
            Some(list)
        },
        (Some(l), None) => Some(copy_refs(l)),
        (None, Some(s)) => {
            let kept: Vec<RefHandle> = keep_clean_refs(s, dirty_paths);
            assert(text::views(kept@).len() == kept@.len());
            if kept.len() == 0 {
                None
            } else {
                Some(kept)
            }
        },
        (None, None) => None,
    }
}

/// Copies references.
pub(crate) fn copy_refs(refs: &Vec<RefHandle>) -> (r: Vec<RefHandle>)
    ensures
        text::views(r@) == text::views(refs@),
{
    let mut list: Vec<RefHandle> = Vec::new();
    let mut i: usize = 0;
    while i < refs.len()
        invariant
            i <= refs@.len(),
            list@ == refs@.take(i as int),
        decreases refs@.len() - i,
    {
        list.push(refs[i].clone());
        assert(list@ =~= refs@.take(i + 1));
        i = i + 1;
    }
    assert(list@ =~= refs@);
    list
}

/// Merges local and service query results. All local handles come first. A
/// service handle stays only where its file is not dirty: when lines shift,
/// every handle that the service has for the file can be stale.
pub fn merge_results(local: QueryResult, service: QueryResult, dirty_paths: &Vec<String>) -> (r:
    QueryResult)
    requires
        execute::token_sum(
            text::views(local.handles@) + clean_handles(
                text::views(service.handles@),
                text::views(dirty_paths@),
            ),
        ) <= usize::MAX,
    ensures
        is_merged(
            r,
            local,
            service,
            clean_handles(text::views(service.handles@), text::views(dirty_paths@)),
            merged_refs(
                opt_refs(local.ref_handles),
                opt_refs(service.ref_handles),
                text::views(dirty_paths@),
            ),
        ),
{
    let kept: Vec<Handle> = keep_clean_handles(&service.handles, dirty_paths);
    let ref_handles: Option<Vec<RefHandle>> = merge_ref_handles(
        &local.ref_handles,
        &service.ref_handles,
        dirty_paths,
    );
    assemble(local, service, kept, ref_handles)
}

/// Exactly the service handles of clean files stay.
pub proof fn law_clean_members(handles: Seq<HandleView>, dirty: Seq<Seq<char>>, h: HandleView)
    ensures
        clean_handles(handles, dirty).contains(h) <==> handles.contains(h) && !dirty.contains(
            h.file_path,
        ),
    decreases handles.len(),
{
    if handles.len() > 0 {
        let rest = handles.drop_last();
        law_clean_members(rest, dirty, h);
        let before = clean_handles(rest, dirty);
        let all = clean_handles(handles, dirty);
        assert(handles[handles.len() - 1] == handles.last());
        if handles.contains(h) {
            let k = choose|k: int| 0 <= k < handles.len() && handles[k] == h;
            assert(k < rest.len() ==> rest[k] == h);
        }
        if rest.contains(h) {
            let k = choose|k: int| 0 <= k < rest.len() && rest[k] == h;
            assert(handles[k] == h);
        }
        if !dirty.contains(handles.last().file_path) {
            assert(all[all.len() - 1] == handles.last());
            if before.contains(h) {
                let k = choose|k: int| 0 <= k < before.len() && before[k] == h;
                assert(all[k] == h);
            }
            if all.contains(h) {
                let k = choose|k: int| 0 <= k < all.len() && all[k] == h;
                assert(k < before.len() ==> before[k] == h);
            }
        }
    }
}

/// What a merged result says of a dirty file comes from the local index alone.
pub proof fn law_dirty_files_local(
    r: QueryResult,
    local: QueryResult,
    service: QueryResult,
    dirty: Seq<Seq<char>>,
    refs: Option<Seq<RefHandleView>>,
    i: int,
)
    requires
        is_merged(r, local, service, clean_handles(text::views(service.handles@), dirty), refs),
        0 <= i < r.handles@.len(),
        dirty.contains(r.handles@[i]@.file_path),
    ensures
        i < local.handles@.len(),
        r.handles@[i]@ == local.handles@[i]@,
{
    let l = text::views(local.handles@);
    let kept = clean_handles(text::views(service.handles@), dirty);
    let all = text::views(r.handles@);
    assert(all[i] == r.handles@[i]@);
    if i >= l.len() {
        assert(kept[i - l.len()] == all[i]);
        law_clean_members(text::views(service.handles@), dirty, all[i]);
        assert(kept.contains(all[i]));
    } else {
        assert(all[i] == l[i]);
    }
}

/// Without dirty files every handle of the service stays, in its order.
pub proof fn law_clean_repo_keeps_all(handles: Seq<HandleView>)
    ensures
        clean_handles(handles, Seq::empty()) == handles,
    decreases handles.len(),
{
    if handles.len() > 0 {
        law_clean_repo_keeps_all(handles.drop_last());
        assert(handles.drop_last().push(handles.last()) =~= handles);
    } else {
        assert(clean_handles(handles, Seq::empty()) =~= handles);
    }
}

/// The references that stay are those in files without changes, in their order.
pub proof fn law_clean_refs(refs: Seq<RefHandleView>, dirty: Seq<Seq<char>>)
    ensures
        clean_refs(refs, dirty) == refs.filter(|r: RefHandleView| !dirty.contains(r.file_path)),
    decreases refs.len(),
{
    reveal(Seq::filter);
    if refs.len() > 0 {
        law_clean_refs(refs.drop_last(), dirty);
    }
}

/// The handles that stay are those in files without changes, in their order.
pub proof fn law_clean_handles(handles: Seq<HandleView>, dirty: Seq<Seq<char>>)
    ensures
        clean_handles(handles, dirty) == handles.filter(
            |h: HandleView| !dirty.contains(h.file_path),
        ),
    decreases handles.len(),
{
    reveal(Seq::filter);
    if handles.len() > 0 {
        law_clean_handles(handles.drop_last(), dirty);
    }
}

/// Merged references are the local ones, then those of the service in files without
/// changes. There are none at all where neither has any.
pub proof fn law_merged_refs(
    local: Option<Seq<RefHandleView>>,
    service: Option<Seq<RefHandleView>>,
    dirty: Seq<Seq<char>>,
)
    ensures
        ({
            let ours = if local is Some {
                local->0
            } else {
                Seq::empty()
            };
            let theirs = if service is Some {
                service->0.filter(|r: RefHandleView| !dirty.contains(r.file_path))
            } else {
                Seq::empty()
            };
            match merged_refs(local, service, dirty) {
                Some(refs) => refs == ours + theirs,
                None => local is None && theirs.len() == 0,
            }
        }),
{
    if service is Some {
        law_clean_refs(service->0, dirty);
    }
    match (local, service) {
        (Some(l), None) => {
            assert(l + Seq::<RefHandleView>::empty() =~= l);
        },
        (None, Some(s)) => {
            assert(Seq::<RefHandleView>::empty() + clean_refs(s, dirty) =~= clean_refs(s, dirty));
        },
        _ => {},
    }
}

/// A merged result has the local handles first, then the kept ones of the service, and
/// counts them all; it is cut short or expanded where one of the two was.
pub proof fn law_merged_counts(
    r: QueryResult,
    local: QueryResult,
    service: QueryResult,
    kept: Seq<HandleView>,
    refs: Option<Seq<RefHandleView>>,
    i: int,
)
    requires
        is_merged(r, local, service, kept, refs),
    ensures
        r.handles@.len() == local.handles@.len() + kept.len(),
        r.total_matches == r.handles@.len(),
        0 <= i < local.handles@.len() ==> r.handles@[i]@ == local.handles@[i]@,
        0 <= i < kept.len() ==> r.handles@[local.handles@.len() + i]@ == kept[i],
        r.total_tokens == execute::token_sum(text::views(local.handles@)) + execute::token_sum(kept),
        r.truncated <==> local.truncated || service.truncated,
        r.auto_expanded <==> local.auto_expanded || service.auto_expanded,
        local.expand_note is Some ==> text::opt_view(r.expand_note) == text::opt_view(
            local.expand_note,
        ),
        local.expand_note is None ==> text::opt_view(r.expand_note) == text::opt_view(
            service.expand_note,
        ),
{
    let ours = text::views(local.handles@);
    let all = text::views(r.handles@);
    meaning::law_tokens_add(ours, kept);
    if 0 <= i < local.handles@.len() {
        assert(all[i] == ours[i]);
    }
    if 0 <= i < kept.len() {
        assert(all[ours.len() + i] == kept[i]);
    }
}

} // verus!
