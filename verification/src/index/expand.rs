//! Expansion of handles from the index, the age of the index, and what leaves
//! it.

use vstd::prelude::*;
use vstd::utf8::*;
use crate::document;
use crate::document::{DocumentNodeView, NodeType, Span};
use crate::error::CanopyError;
use crate::globs;
use crate::globs::matching;
use crate::handle;
use crate::handle::HandleId;
use crate::hashing;
use crate::hashing::{is_digest, sha256};
use crate::index::pipeline;
use crate::index::search;
use crate::index::search::count_from_db;
use crate::index::{ExpandedHandleDetail, IndexStatus, SCHEMA_VERSION};
use crate::strings;
use crate::strings::{concat, signed_decimal_string};
use crate::text;
use crate::text::{len_bytes, slice_bytes};

verus! {

broadcast use {vstd::string::group_string_axioms, vstd::seq::group_seq_axioms};

/// What the database has of a handle.
#[derive(Debug)]
pub struct ExpandRow {
    pub path: String,
    pub start: i64,
    pub end: i64,
    pub node_type: i64,
    pub token_count: i64,
    pub content_hash: Vec<u8>,
}

/// What the database has of a handle; an error where it has nothing.
pub fn found_row(handle_id: &HandleId, row: Option<ExpandRow>) -> (r: Result<
    ExpandRow,
    CanopyError,
>)
    ensures
        match row {
            Some(found) => r == Result::<ExpandRow, CanopyError>::Ok(found),
            None => r matches Err(CanopyError::HandleNotFound(id)) && id@ == handle::shown_id(
                handle_id@,
            ),
        },
{
    match row {
        Some(found) => Ok(found),
        None => Err(CanopyError::HandleNotFound(handle_id.to_string())),
    }
}

/// The bytes of a source that a row names: those past its end are left out.
pub open spec fn row_span(row: ExpandRow, source: Seq<char>) -> Span {
    Span {
        start: search::from_db(row.start),
        end: if search::from_db(row.end) <= text::byte_len(source) {
            search::from_db(row.end)
        } else {
            text::byte_len(source) as usize
        },
    }
}

/// Whether a source is that which was indexed.
pub open spec fn is_current(row: ExpandRow, source: Seq<char>) -> bool {
    row.content_hash@ == hashing::sha256_digest(encode_utf8(source))
}

/// The node type of a row.
pub open spec fn row_type(code: i64) -> NodeType {
    match NodeType::of_code((code as u8) as int) {
        Some(t) => t,
        None => NodeType::Chunk,
    }
}

/// Whether these are the details of a handle.
pub open spec fn is_detail(
    d: ExpandedHandleDetail,
    handle_id: Seq<char>,
    row: ExpandRow,
    source: Seq<char>,
) -> bool {
    let span = row_span(row, source);
    &&& d.handle_id@ == handle::shown_id(handle_id)
    &&& d.file_path@ == row.path@
    &&& d.node_type == row_type(row.node_type)
    &&& d.token_count == search::from_db(row.token_count)
    &&& d.content@ == text::byte_slice(source, span.start as int, span.end as int)
}

/// The details of a handle, given what the database has of it and its file's
/// source; an error where the file is not that which was indexed.
pub fn expand_row(handle_id: &HandleId, row: ExpandRow, source: &str) -> (r: Result<
    ExpandedHandleDetail,
    CanopyError,
>)
    requires
        is_current(row, source@) ==> document::span_fits(source@, row_span(row, source@)),
    ensures
        match r {
            Ok(d) => is_current(row, source@) && is_detail(d, handle_id@, row, source@),
            Err(e) => !is_current(row, source@) && (e matches CanopyError::StaleIndex { path }
                && path@ == row.path@),
        },
{
    let digest: [u8; 32] = sha256(source.as_bytes());
    if !is_digest(&row.content_hash, &digest) {
        return Err(CanopyError::StaleIndex { path: row.path });
    }
    let len: usize = len_bytes(source);
    let start: usize = count_from_db(row.start);
    let stored_end: usize = count_from_db(row.end);
    let end: usize = if stored_end <= len {
        stored_end
    } else {
        len
    };
    let content: String = slice_bytes(source, start, end).to_owned();
    let node_type: NodeType = match NodeType::from_int(
        #[verifier::truncate]
        (row.node_type as u8),
    ) {
        Some(t) => t,
        None => NodeType::Chunk,
    };
    Ok(
        ExpandedHandleDetail {
            handle_id: handle_id.to_string(),
            file_path: row.path,
            node_type,
            token_count: count_from_db(row.token_count),
            content,
        },
    )
}

/// Whether a handle can be expanded: its ID is well formed, the database has a
/// row of it, and its file is that which was indexed.
pub open spec fn is_expandable(id: Seq<char>, row: Option<ExpandRow>, source: Seq<char>) -> bool {
    &&& handle::all_hex(handle::without_prefix(id))
    &&& row matches Some(found) && is_current(found, source)
}

/// Whether this is the error of a handle that cannot be expanded.
pub open spec fn is_expand_error(
    e: CanopyError,
    id: Seq<char>,
    row: Option<ExpandRow>,
    source: Seq<char>,
) -> bool {
    let raw = handle::without_prefix(id);
    if !handle::all_hex(raw) {
        e matches CanopyError::InvalidHandle(m) && m@ == "Invalid handle ID: "@ + raw
    } else {
        match row {
            None => e matches CanopyError::HandleNotFound(m) && m@ == handle::shown_id(raw),
            Some(found) => !is_current(found, source) && (e matches CanopyError::StaleIndex { path }
                && path@ == found.path@),
        }
    }
}

/// Whether this comes of the expansion of a handle, given what the database has
/// of it and its file's source.
pub open spec fn is_expansion(
    r: Result<ExpandedHandleDetail, CanopyError>,
    id: Seq<char>,
    row: Option<ExpandRow>,
    source: Seq<char>,
) -> bool {
    match r {
        Ok(d) => is_expandable(id, row, source) && is_detail(
            d,
            handle::without_prefix(id),
            row->0,
            source,
        ),
        Err(e) => !is_expandable(id, row, source) && is_expand_error(e, id, row, source),
    }
}

/// Expands a handle, given what the database has of it and its file's source. An
/// ID that is malformed, one that the database does not have, and a file that is
/// not that which was indexed are errors, in this order.
pub fn expand_handle(id: &str, row: Option<ExpandRow>, source: &str) -> (r: Result<
    ExpandedHandleDetail,
    CanopyError,
>)
    requires
        row matches Some(found) ==> is_current(found, source@) ==> document::span_fits(
            source@,
            row_span(found, source@),
        ),
    ensures
        is_expansion(r, id@, row, source@),
{
    let handle_id: HandleId = match HandleId::parse(id) {
        Ok(handle_id) => handle_id,
        Err(e) => {
            return Err(e);
        },
    };
    match found_row(&handle_id, row) {
        Ok(found) => expand_row(&handle_id, found, source),
        Err(e) => Err(e),
    }
}

/// Whether this is a list of results as a whole: all of them, or the error of the
/// first that failed.
pub open spec fn is_collected(
    r: Result<Vec<ExpandedHandleDetail>, CanopyError>,
    results: Seq<Result<ExpandedHandleDetail, CanopyError>>,
) -> bool {
    match r {
        Ok(list) => {
            &&& list@.len() == results.len()
            &&& forall|i: int|
                0 <= i < results.len() ==> #[trigger] results[i] == Result::<
                    ExpandedHandleDetail,
                    CanopyError,
                >::Ok(list@[i])
        },
        Err(e) => exists|i: int|
            0 <= i < results.len() && #[trigger] results[i] == Result::<
                ExpandedHandleDetail,
                CanopyError,
            >::Err(e) && forall|j: int| 0 <= j < i ==> #[trigger] results[j] is Ok,
    }
}

/// The details of handles, or the error of the first that could not be expanded.
pub fn collect_details(results: Vec<Result<ExpandedHandleDetail, CanopyError>>) -> (r: Result<
    Vec<ExpandedHandleDetail>,
    CanopyError,
>)
    ensures
        is_collected(r, results@),
{
    let ghost all = results@;
    let mut rest: Vec<Result<ExpandedHandleDetail, CanopyError>> = results;
    let mut list: Vec<ExpandedHandleDetail> = Vec::new();
    let n: usize = rest.len();
    let mut i: usize = 0;
    assert(rest@ =~= all.skip(0));
    while i < n
        invariant
            i <= n == all.len(),
            all == results@,
            rest@ == all.skip(i as int),
            list@.len() == i,
            forall|k: int|
                0 <= k < i ==> #[trigger] all[k] == Result::<ExpandedHandleDetail, CanopyError>::Ok(
                    list@[k],
                ),
        decreases n - i,
    {
        let result: Result<ExpandedHandleDetail, CanopyError> = rest.remove(0);
        assert(result == all[i as int]);
        assert(rest@ =~= all.skip(i + 1));
        match result {
            Ok(detail) => {
                list.push(detail);
            },
            Err(e) => {
                assert(all[i as int] == Result::<ExpandedHandleDetail, CanopyError>::Err(e));
                return Err(e);
            },
        }
        i = i + 1;
    }
    Ok(list)
}

/// A list of handles is expanded whole or not at all: there are details, one for
/// each handle and in the same order, exactly where every handle can be expanded.
/// Else the first that cannot be decides the error. It does not matter what comes
/// after that one.
pub proof fn law_expand_all_or_nothing(
    ids: Seq<Seq<char>>,
    rows: Seq<Option<ExpandRow>>,
    sources: Seq<Seq<char>>,
    results: Seq<Result<ExpandedHandleDetail, CanopyError>>,
    r: Result<Vec<ExpandedHandleDetail>, CanopyError>,
)
    requires
        results.len() <= ids.len(),
        results.len() < ids.len() ==> results.len() > 0 && results.last() is Err,
        forall|i: int|
            0 <= i < results.len() ==> is_expansion(
                #[trigger] results[i],
                ids[i],
                rows[i],
                sources[i],
            ),
        is_collected(r, results),
    ensures
        r is Ok <==> forall|i: int|
            0 <= i < ids.len() ==> is_expandable(#[trigger] ids[i], rows[i], sources[i]),
        r matches Ok(list) ==> list@.len() == ids.len() && forall|i: int|
            0 <= i < ids.len() ==> is_detail(
                #[trigger] list@[i],
                handle::without_prefix(ids[i]),
                rows[i]->0,
                sources[i],
            ),
        r matches Err(e) ==> exists|i: int|
            0 <= i < ids.len() && !is_expandable(#[trigger] ids[i], rows[i], sources[i])
                && is_expand_error(e, ids[i], rows[i], sources[i]) && forall|j: int|
                0 <= j < i ==> is_expandable(#[trigger] ids[j], rows[j], sources[j]),
{
    match r {
        Ok(list) => {
            if results.len() > 0 {
                assert(results[results.len() - 1] is Ok);
            }
            assert(results.len() == ids.len());
            assert forall|i: int| 0 <= i < ids.len() implies is_expandable(
                #[trigger] ids[i],
                rows[i],
                sources[i],
            ) by {
                assert(is_expansion(results[i], ids[i], rows[i], sources[i]));
            }
            assert forall|i: int| 0 <= i < ids.len() implies is_detail(
                #[trigger] list@[i],
                handle::without_prefix(ids[i]),
                rows[i]->0,
                sources[i],
            ) by {
                assert(is_expansion(results[i], ids[i], rows[i], sources[i]));
            }
        },
        Err(e) => {
            let i = choose|i: int|
                0 <= i < results.len() && #[trigger] results[i] == Result::<
                    ExpandedHandleDetail,
                    CanopyError,
                >::Err(e) && forall|j: int| 0 <= j < i ==> #[trigger] results[j] is Ok;
            assert(is_expansion(results[i], ids[i], rows[i], sources[i]));
            assert(!is_expandable(ids[i], rows[i], sources[i]));
            assert forall|j: int| 0 <= j < i implies is_expandable(
                #[trigger] ids[j],
                rows[j],
                sources[j],
            ) by {
                assert(results[j] is Ok);
                assert(is_expansion(results[j], ids[j], rows[j], sources[j]));
            }
        },
    }
}

/// What is read back of a node that was indexed: where its file has not changed,
/// the content that was indexed.
pub proof fn law_expand_reads_back(
    path: Seq<char>,
    source: Seq<char>,
    node: DocumentNodeView,
    preview_bytes: usize,
    row: ExpandRow,
    d: ExpandedHandleDetail,
)
    requires
        document::span_fits(source, node.span),
        node.span.end <= i64::MAX,
        row.start == node.span.start,
        row.end == node.span.end,
        is_detail(d, pipeline::node_row(path, source, node, preview_bytes).handle_id, row, source),
    ensures
        d.content@ == pipeline::node_row(path, source, node, preview_bytes).content,
        d.handle_id@ == handle::shown_id(handle::raw_id(path, node.node_type, node.span)),
{
}

// ---------------------------------------------------------------------------
// Status
// ---------------------------------------------------------------------------

/// How long ago something was, in the largest unit that fits.
pub open spec fn age_spec(seconds: i64) -> Seq<char> {
    if seconds < 60 {
        strings::signed_decimal(seconds as int) + " seconds ago"@
    } else if seconds < 3600 {
        strings::signed_decimal(seconds as int / 60) + " minutes ago"@
    } else if seconds < 86400 {
        strings::signed_decimal(seconds as int / 3600) + " hours ago"@
    } else {
        strings::signed_decimal(seconds as int / 86400) + " days ago"@
    }
}

/// How long ago something was, in the largest unit that fits.
pub fn age_text(seconds: i64) -> (r: String)
    ensures
        r@ == age_spec(seconds),
{
    if seconds < 60 {
        concat(signed_decimal_string(seconds).as_str(), " seconds ago")
    } else if seconds < 3600 {
        concat(signed_decimal_string(seconds / 60).as_str(), " minutes ago")
    } else if seconds < 86400 {
        concat(signed_decimal_string(seconds / 3600).as_str(), " hours ago")
    } else {
        concat(signed_decimal_string(seconds / 86400).as_str(), " days ago")
    }
}

/// The status of an index, from what the database counts.
pub fn index_status(
    files: i64,
    tokens: i64,
    index_size_bytes: u64,
    last_indexed: Option<i64>,
    now: i64,
) -> (r: IndexStatus)
    requires
        last_indexed matches Some(t) ==> i64::MIN <= now - t <= i64::MAX,
    ensures
        r.files_indexed == search::from_db(files),
        r.total_tokens == search::from_db(tokens),
        r.schema_version == SCHEMA_VERSION,
        r.index_size_bytes == index_size_bytes,
        text::opt_view(r.last_indexed) == (match last_indexed {
            Some(t) => Some(age_spec((now - t) as i64)),
            None => None,
        }),
{
    IndexStatus {
        files_indexed: count_from_db(files),
        total_tokens: count_from_db(tokens),
        schema_version: SCHEMA_VERSION,
        index_size_bytes,
        last_indexed: match last_indexed {
            Some(t) => Some(age_text(now - t)),
            None => None,
        },
    }
}

// ---------------------------------------------------------------------------
// Invalidation
// ---------------------------------------------------------------------------

/// A file of the index: its number and its path.
pub type IndexedFile = (i64, Seq<char>);

/// The files that match a glob.
pub open spec fn invalidated(files: Seq<IndexedFile>, glob: Seq<char>) -> Seq<IndexedFile>
    decreases files.len(),
{
    if files.len() == 0 {
        Seq::empty()
    } else {
        let before = invalidated(files.drop_last(), glob);
        if globs::glob_matches(glob, files.last().1) {
            before.push(files.last())
        } else {
            before
        }
    }
}

/// The files that leave the index: those that match a glob; an error where the
/// glob is refused.
pub fn files_to_invalidate(files: &Vec<(i64, String)>, glob: &str) -> (r: Result<
    Vec<(i64, String)>,
    CanopyError,
>)
    ensures
        match r {
            Ok(list) => globs::glob_error(glob@) is None && text::views(list@) == invalidated(
                text::views(files@),
                glob@,
            ),
            Err(e) => e matches CanopyError::GlobPattern(why) && globs::glob_error(glob@) == Some(
                why@,
            ),
        },
{
    let ghost all = text::views(files@);
    let mut paths: Vec<String> = Vec::new();
    let mut i: usize = 0;
    while i < files.len()
        invariant
            i <= files@.len(),
            paths@.len() == i,
            forall|k: int| 0 <= k < i ==> (#[trigger] paths@[k])@ == files@[k].1@,
        decreases files@.len() - i,
    {
        paths.push(files[i].1.clone());
        i = i + 1;
    }
    let hits: Vec<bool> = match matching(glob, &paths) {
        Ok(hits) => hits,
        Err(e) => {
            return Err(CanopyError::GlobPattern(e));
        },
    };
    let mut list: Vec<(i64, String)> = Vec::new();
    let mut j: usize = 0;
    assert(text::views(list@) =~= invalidated(all.take(0), glob@));
    while j < files.len()
        invariant
            j <= files@.len(),
            all == text::views(files@),
            hits@.len() == files@.len(),
            forall|k: int|
                0 <= k < files@.len() ==> #[trigger] hits@[k] == globs::glob_matches(
                    glob@,
                    files@[k].1@,
                ),
            text::views(list@) == invalidated(all.take(j as int), glob@),
        decreases files@.len() - j,
    {
        proof {
            assert(all.take(j + 1).drop_last() =~= all.take(j as int));
            assert(all.take(j + 1).last() == files@[j as int]@);
        }
        if hits[j] {
            let item: (i64, String) = (files[j].0, files[j].1.clone());
            proof {
                text::lemma_views_push(list@, item);
            }
            list.push(item);
        }
        j = j + 1;
    }
    assert(all.take(files@.len() as int) =~= all);
    Ok(list)
}

/// What is read of a row starts where the row says and ends where it says, or with the
/// text where that is shorter.
pub proof fn law_read_within_text(row: ExpandRow, source: Seq<char>)
    requires
        row.start >= 0 && row.end >= 0,
        row.start <= usize::MAX && row.end <= usize::MAX,
        text::byte_len(source) <= usize::MAX,
    ensures
        row_span(row, source).start == row.start,
        row_span(row, source).end <= text::byte_len(source),
        row_span(row, source).end == row.end || row_span(row, source).end == text::byte_len(source)
            && text::byte_len(source) < row.end,
{
}

/// The name of a handle without the letter before it.
pub open spec fn bare_id(id: Seq<char>) -> Seq<char> {
    if id.len() > 0 && id[0] == 'h' {
        id.drop_first()
    } else {
        id
    }
}

/// Whether a text is hexadecimal digits.
pub open spec fn is_hex(s: Seq<char>) -> bool {
    forall|i: int| 0 <= i < s.len() ==> text::is_hex_digit(#[trigger] s[i])
}

/// A handle is expanded where its name is one, it is known and its file has not changed
/// since; where not, it says which of these fails, in this order.
pub proof fn law_expansion_refused(
    r: Result<ExpandedHandleDetail, CanopyError>,
    id: Seq<char>,
    row: Option<ExpandRow>,
    source: Seq<char>,
)
    requires
        is_expansion(r, id, row, source),
    ensures
        ({
            let raw = bare_id(id);
            let named = is_hex(raw);
            let current = row is Some && row->0.content_hash@ == hashing::sha256_digest(
                encode_utf8(source),
            );
            &&& r is Ok <==> named && current
            &&& r matches Ok(d) ==> d.handle_id@ == seq!['h'] + raw && d.file_path@ == row->0.path@
                && d.token_count == search::from_db(row->0.token_count)
            &&& !named ==> r is Err && r->Err_0 is InvalidHandle
            &&& named && row is None ==> (r matches Err(CanopyError::HandleNotFound(m)) && m@
                == seq!['h'] + raw)
            &&& named && row is Some && !current ==> (r matches Err(
                CanopyError::StaleIndex { path },
            ) && path@ == row->0.path@)
        }),
{
    reveal_strlit("h");
    assert("h"@ =~= seq!['h']);
    assert(bare_id(id) == handle::without_prefix(id));
    assert(is_hex(bare_id(id)) == handle::all_hex(bare_id(id)));
}

/// What is read of a node has the type that the row was stored with.
pub proof fn law_expand_keeps_type(
    d: ExpandedHandleDetail,
    id: Seq<char>,
    row: ExpandRow,
    source: Seq<char>,
    node_type: NodeType,
)
    requires
        is_detail(d, id, row, source),
        row.node_type == node_type.code(),
    ensures
        d.node_type == node_type,
        d.file_path@ == row.path@,
        row.token_count >= 0 && row.token_count <= usize::MAX ==> d.token_count == row.token_count,
{
    let byte = row.node_type as u8;
    assert(byte == node_type.code());
}

} // verus!
