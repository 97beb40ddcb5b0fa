//! Query and expand signals, as they are kept for ranking.

use vstd::prelude::*;
use crate::document::NodeType;
use crate::handle;
use crate::handle::Handle;
use crate::text;

verus! {

broadcast use {vstd::string::group_string_axioms, vstd::seq::group_seq_axioms};

/// For how many seconds node-type priors are kept before they are read anew.
pub const NODE_TYPE_PRIOR_CACHE_TTL: u64 = 3600;

/// For how many days events are kept.
pub const RETENTION_DAYS: i64 = 30;

/// How many query events are kept.
pub const QUERY_EVENTS_CAP: i64 = 10_000;

/// How many expand events are kept.
pub const EXPAND_EVENTS_CAP: i64 = 50_000;

/// How many of the predicted globs count toward the hit rate.
pub const TOP_K_GLOBS: usize = 5;

/// A query and what it returned.
#[derive(Debug)]
pub struct QueryEvent {
    pub query_text: String,
    pub predicted_globs: Option<Vec<String>>,
    pub files_indexed: usize,
    pub handles_returned: usize,
    pub total_tokens: usize,
}

/// A handle that a query returned.
#[derive(Debug)]
pub struct QueryHandle {
    pub handle_id: String,
    pub file_path: String,
    pub node_type: NodeType,
    pub token_count: usize,
    /// The predicted glob by which the file was indexed.
    pub first_match_glob: Option<String>,
}

/// The view of a [`QueryHandle`].
pub struct QueryHandleView {
    pub handle_id: Seq<char>,
    pub file_path: Seq<char>,
    pub node_type: NodeType,
    pub token_count: usize,
    pub first_match_glob: Option<Seq<char>>,
}

impl View for QueryHandle {
    type V = QueryHandleView;

    open spec fn view(&self) -> QueryHandleView {
        QueryHandleView {
            handle_id: self.handle_id@,
            file_path: self.file_path@,
            node_type: self.node_type,
            token_count: self.token_count,
            first_match_glob: text::opt_view(self.first_match_glob),
        }
    }
}

impl QueryHandleView {
    /// A handle with the glob by which its file was indexed.
    pub open spec fn of(h: handle::HandleView, glob: Option<Seq<char>>) -> QueryHandleView {
        QueryHandleView {
            handle_id: handle::shown_id(h.id),
            file_path: h.file_path,
            node_type: h.node_type,
            token_count: h.token_count,
            first_match_glob: glob,
        }
    }
}

impl QueryHandle {
    /// A handle with the glob by which its file was indexed.
    pub fn from_handle(handle: &Handle, first_match_glob: Option<String>) -> (r: QueryHandle)
        ensures
            r@ == QueryHandleView::of(handle@, text::opt_view(first_match_glob)),
    {
        QueryHandle {
            handle_id: handle.id.to_string(),
            file_path: handle.file_path.clone(),
            node_type: handle.node_type,
            token_count: handle.token_count,
            first_match_glob,
        }
    }
}

/// The expansion of a handle.
#[derive(Debug)]
pub struct ExpandEvent {
    /// The query that returned the handle.
    pub query_event_id: Option<i64>,
    pub handle_id: String,
    pub file_path: String,
    pub node_type: NodeType,
    pub token_count: usize,
    /// Whether the query itself expanded the handle.
    pub auto_expanded: bool,
}

/// The view of an [`ExpandEvent`].
pub struct ExpandEventView {
    pub query_event_id: Option<i64>,
    pub handle_id: Seq<char>,
    pub file_path: Seq<char>,
    pub node_type: NodeType,
    pub token_count: usize,
    pub auto_expanded: bool,
}

impl View for ExpandEvent {
    type V = ExpandEventView;

    open spec fn view(&self) -> ExpandEventView {
        ExpandEventView {
            query_event_id: self.query_event_id,
            handle_id: self.handle_id@,
            file_path: self.file_path@,
            node_type: self.node_type,
            token_count: self.token_count,
            auto_expanded: self.auto_expanded,
        }
    }
}

/// The time before which events are dropped.
pub fn retention_cutoff(now: i64) -> (r: i64)
    requires
        now >= i64::MIN + 2_592_000,
    ensures
        r == now - RETENTION_DAYS * 86_400,
{
    now - RETENTION_DAYS * 86_400
}

/// How many of the oldest events are dropped, so that no more than the cap
/// stay.
pub fn excess_events(count: i64, cap: i64) -> (r: i64)
    requires
        cap >= 0,
        count >= 0,
    ensures
        count - r <= cap,
        r == 0 || count - r == cap,
        r >= 0,
{
    if count > cap {
        count - cap
    } else {
        0
    }
}

} // verus!
