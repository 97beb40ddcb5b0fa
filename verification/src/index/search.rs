//! Searches of the index: what the database is asked, and what is made of its
//! rows.

use vstd::prelude::*;
use crate::document::{NodeType, RefType, Span};
use crate::error::CanopyError;
use crate::globs;
use crate::globs::{check_pattern, matching};
use crate::handle;
use crate::handle::{
    generate_preview, Handle, HandleId, HandleSource, HandleView, RefHandle, RefHandleView,
};
use crate::index::symbol_cache::{CacheState, SymbolCache, SymbolCacheEntry};
use crate::query::execute;
use crate::query::QueryModel;
use crate::query::execute::{filter_by_glob, select_handles, SearchRequest, SearchRequestView};
use crate::strings;
use crate::strings::{concat3, lines, to_lowercase};
use crate::text;
use crate::text::{len_bytes, to_chars};

verus! {

broadcast use {vstd::string::group_string_axioms, vstd::seq::group_seq_axioms};

// ---------------------------------------------------------------------------
// Texts for the database
// ---------------------------------------------------------------------------

/// Whether a character means something in a full-text query.
pub open spec fn is_fts5_special(c: char) -> bool {
    c == '"' || c == '(' || c == ')' || c == '-' || c == '*' || c == '<' || c == '>'
}

/// Whether a text has a character that means something in a full-text query.
pub open spec fn has_fts5_special(s: Seq<char>) -> bool {
    exists|i: int| 0 <= i < s.len() && is_fts5_special(#[trigger] s[i])
}

/// A text with every double quote doubled.
pub open spec fn doubled_quotes(s: Seq<char>) -> Seq<char>
    decreases s.len(),
{
    if s.len() == 0 {
        Seq::empty()
    } else if s.last() == '"' {
        doubled_quotes(s.drop_last()).push('"').push('"')
    } else {
        doubled_quotes(s.drop_last()).push(s.last())
    }
}

/// A full-text query that looks for a text: in quotes where a character of the
/// text would mean something else.
pub open spec fn escaped_query(s: Seq<char>) -> Seq<char> {
    if has_fts5_special(s) {
        seq!['"'] + doubled_quotes(s) + seq!['"']
    } else {
        s
    }
}

/// A full-text query that looks for a text.
pub fn escape_fts5_query(query: &str) -> (r: String)
    ensures
        r@ == escaped_query(query@),
{
    let chars: Vec<char> = to_chars(query);
    let n: usize = chars.len();
    let mut special: bool = false;
    let mut i: usize = 0;
    while i < n
        invariant
            i <= n == chars@.len(),
            chars@ == query@,
            special ==> has_fts5_special(query@),
            !special ==> forall|k: int| 0 <= k < i ==> !is_fts5_special(#[trigger] query@[k]),
        decreases n - i,
    {
        let c: char = chars[i];
        if c == '"' || c == '(' || c == ')' || c == '-' || c == '*' || c == '<' || c == '>' {
            assert(is_fts5_special(query@[i as int]));
            special = true;
        }
        i = i + 1;
    }
    if !special {
        return query.to_owned();
    }
    let mut quoted: String = String::new();
    quoted.push('"');
    let mut k: usize = 0;
    assert(quoted@ =~= seq!['"'] + doubled_quotes(query@.take(0)));
    while k < n
        invariant
            k <= n == chars@.len(),
            chars@ == query@,
            quoted@ == seq!['"'] + doubled_quotes(query@.take(k as int)),
        decreases n - k,
    {
        let c: char = chars[k];
        proof {
            assert(query@.take(k + 1).drop_last() =~= query@.take(k as int));
            assert(query@.take(k + 1).last() == c);
        }
        if c == '"' {
            quoted.push('"');
        }
        quoted.push(c);
        assert(quoted@ =~= seq!['"'] + doubled_quotes(query@.take(k + 1)));
        k = k + 1;
    }
    quoted.push('"');
    assert(query@.take(n as int) =~= query@);
    assert(quoted@ =~= seq!['"'] + doubled_quotes(query@) + seq!['"']);
    quoted
}

/// The pattern that matches every text with the given one in it.
pub fn like_pattern(lower: &str) -> (r: String)
    ensures
        r@ == "%"@ + lower@ + "%"@,
{
    concat3("%", lower, "%")
}

/// The codes of the node types that are symbols of code.
pub fn code_type_params() -> (r: [i32; 4])
    ensures
        r@ == seq![
            NodeType::Function.code() as i32,
            NodeType::Class.code() as i32,
            NodeType::Struct.code() as i32,
            NodeType::Method.code() as i32,
        ],
{
    let r: [i32; 4] = [
        NodeType::Function.as_int() as i32,
        NodeType::Class.as_int() as i32,
        NodeType::Struct.as_int() as i32,
        NodeType::Method.as_int() as i32,
    ];
    assert(r@ =~= seq![
        NodeType::Function.code() as i32,
        NodeType::Class.code() as i32,
        NodeType::Struct.code() as i32,
        NodeType::Method.code() as i32,
    ]);
    r
}

/// What the database is asked.
#[derive(Debug)]
pub enum DbSearch {
    /// Nodes whose content matches a full-text query.
    Content { query: String, limit: i64 },
    /// Nodes of a type whose heading in lower case matches a pattern.
    Headings { node_type: i32, pattern: String, limit: i64 },
    /// Symbols of a name in lower case.
    Symbol { name_lower: String, limit: i64 },
    /// Symbols whose name matches a full-text query.
    SymbolText { query: String, limit: i64 },
    /// Nodes with the given parent.
    Children { parent_lower: String, limit: i64 },
    /// Nodes with the given parent and name.
    ChildrenNamed { parent_lower: String, name_lower: String, limit: i64 },
    /// Nodes with a reference to the given name.
    ReferenceSources { name_lower: String, limit: i64 },
    /// All files, of which those stay that match a glob.
    Files { glob: String },
    /// Nodes whose content matches a full-text query, of which the first stay
    /// whose file matches a glob.
    ContentInFiles { glob: String, query: String, keep: usize },
}

/// The view of a [`DbSearch`].
pub enum DbSearchView {
    Content { query: Seq<char>, limit: i64 },
    Headings { node_type: i32, pattern: Seq<char>, limit: i64 },
    Symbol { name_lower: Seq<char>, limit: i64 },
    SymbolText { query: Seq<char>, limit: i64 },
    Children { parent_lower: Seq<char>, limit: i64 },
    ChildrenNamed { parent_lower: Seq<char>, name_lower: Seq<char>, limit: i64 },
    ReferenceSources { name_lower: Seq<char>, limit: i64 },
    Files { glob: Seq<char> },
    ContentInFiles { glob: Seq<char>, query: Seq<char>, keep: usize },
}

impl View for DbSearch {
    type V = DbSearchView;

    open spec fn view(&self) -> DbSearchView {
        match *self {
            DbSearch::Content { query, limit } => DbSearchView::Content { query: query@, limit },
            DbSearch::Headings { node_type, pattern, limit } => DbSearchView::Headings {
                node_type,
                pattern: pattern@,
                limit,
            },
            DbSearch::Symbol { name_lower, limit } => DbSearchView::Symbol {
                name_lower: name_lower@,
                limit,
            },
            DbSearch::SymbolText { query, limit } => DbSearchView::SymbolText {
                query: query@,
                limit,
            },
            DbSearch::Children { parent_lower, limit } => DbSearchView::Children {
                parent_lower: parent_lower@,
                limit,
            },
            DbSearch::ChildrenNamed { parent_lower, name_lower, limit } =>
            DbSearchView::ChildrenNamed {
                parent_lower: parent_lower@,
                name_lower: name_lower@,
                limit,
            },
            DbSearch::ReferenceSources { name_lower, limit } => DbSearchView::ReferenceSources {
                name_lower: name_lower@,
                limit,
            },
            DbSearch::Files { glob } => DbSearchView::Files { glob: glob@ },
            DbSearch::ContentInFiles { glob, query, keep } => DbSearchView::ContentInFiles {
                glob: glob@,
                query: query@,
                keep,
            },
        }
    }
}

/// What the database is asked on account of a search. A search for code asks for
/// the exact name first.
pub open spec fn database_search_spec(request: SearchRequestView) -> DbSearchView {
    match request {
        SearchRequestView::Sections { heading, limit } => DbSearchView::Headings {
            node_type: NodeType::Section.code() as i32,
            pattern: "%"@ + strings::lowercase(heading) + "%"@,
            limit: limit as i64,
        },
        SearchRequestView::Text { pattern, limit } => DbSearchView::Content {
            query: escaped_query(pattern),
            limit: limit as i64,
        },
        SearchRequestView::File { path } => DbSearchView::Files { glob: path },
        SearchRequestView::Code { symbol, limit } => DbSearchView::Symbol {
            name_lower: strings::lowercase(symbol),
            limit: limit as i64,
        },
        SearchRequestView::Definitions { symbol, limit } => DbSearchView::Symbol {
            name_lower: strings::lowercase(symbol),
            limit: limit as i64,
        },
        SearchRequestView::Children { parent, limit } => DbSearchView::Children {
            parent_lower: strings::lowercase(parent),
            limit: limit as i64,
        },
        SearchRequestView::ChildrenNamed { parent, symbol, limit } => DbSearchView::ChildrenNamed {
            parent_lower: strings::lowercase(parent),
            name_lower: strings::lowercase(symbol),
            limit: limit as i64,
        },
        SearchRequestView::ReferenceSources { symbol, limit } => DbSearchView::ReferenceSources {
            name_lower: strings::lowercase(symbol),
            limit: limit as i64,
        },
        SearchRequestView::InFiles { glob, pattern, limit } => DbSearchView::ContentInFiles {
            glob,
            query: escaped_query(pattern),
            keep: limit,
        },
    }
}

/// What the database is asked on account of a search.
pub fn database_search(request: &SearchRequest) -> (r: DbSearch)
    ensures
        r@ == database_search_spec(request@),
{
    match request {
        SearchRequest::Sections { heading, limit } => {
            let lower: String = to_lowercase(heading.as_str());
            DbSearch::Headings {
                node_type: NodeType::Section.as_int() as i32,
                pattern: like_pattern(lower.as_str()),
                limit: #[verifier::truncate]
                (*limit as i64),
            }
        },
        SearchRequest::Text { pattern, limit } => DbSearch::Content {
            query: escape_fts5_query(pattern.as_str()),
            limit: #[verifier::truncate]
            (*limit as i64),
        },
        SearchRequest::File { path } => DbSearch::Files { glob: path.clone() },
        SearchRequest::Code { symbol, limit } => DbSearch::Symbol {
            name_lower: to_lowercase(symbol.as_str()),
            limit: #[verifier::truncate]
            (*limit as i64),
        },
        SearchRequest::Definitions { symbol, limit } => DbSearch::Symbol {
            name_lower: to_lowercase(symbol.as_str()),
            limit: #[verifier::truncate]
            (*limit as i64),
        },
        SearchRequest::Children { parent, limit } => DbSearch::Children {
            parent_lower: to_lowercase(parent.as_str()),
            limit: #[verifier::truncate]
            (*limit as i64),
        },
        SearchRequest::ChildrenNamed { parent, symbol, limit } => DbSearch::ChildrenNamed {
            parent_lower: to_lowercase(parent.as_str()),
            name_lower: to_lowercase(symbol.as_str()),
            limit: #[verifier::truncate]
            (*limit as i64),
        },
        SearchRequest::ReferenceSources { symbol, limit } => DbSearch::ReferenceSources {
            name_lower: to_lowercase(symbol.as_str()),
            limit: #[verifier::truncate]
            (*limit as i64),
        },
        SearchRequest::InFiles { glob, pattern, limit } => DbSearch::ContentInFiles {
            glob: glob.clone(),
            query: escape_fts5_query(pattern.as_str()),
            keep: *limit,
        },
    }
}

/// What the database is asked next, if the exact name brought nothing.
pub open spec fn next_search_spec(request: SearchRequestView, found: usize) -> Option<DbSearchView> {
    match request {
        SearchRequestView::Code { symbol, limit } => if found == 0 {
            Some(DbSearchView::SymbolText { query: escaped_query(symbol), limit: limit as i64 })
        } else {
            None
        },
        _ => None,
    }
}

/// What the database is asked next, if the exact name brought nothing: a search
/// for code goes on with the text of names, another is at its end.
pub fn next_search(request: &SearchRequest, found: usize) -> (r: Option<DbSearch>)
    ensures
        text::opt_view(r) == next_search_spec(request@, found),
{
    match request {
        SearchRequest::Code { symbol, limit } => {
            if found == 0 {
                Some(
                    DbSearch::SymbolText {
                        query: escape_fts5_query(symbol.as_str()),
                        limit: #[verifier::truncate]
                        (*limit as i64),
                    },
                )
            } else {
                None
            }
        },
        _ => None,
    }
}

/// What the database is asked on account of a search for the references to a
/// symbol: its name in lower case, and how many references are wanted.
pub fn reference_search(symbol: &str, limit: usize) -> (r: (String, i64))
    ensures
        r.0@ == strings::lowercase(symbol@),
        r.1 == limit as i64,
{
    (to_lowercase(symbol), #[verifier::truncate]
    (limit as i64))
}

// ---------------------------------------------------------------------------
// Handles from rows
// ---------------------------------------------------------------------------

/// A node as the database holds it.
#[derive(Debug)]
pub struct HandleRow {
    pub handle_id: String,
    pub path: String,
    pub node_type: i32,
    pub start_byte: i64,
    pub end_byte: i64,
    pub line_start: i64,
    pub line_end: i64,
    pub token_count: i64,
    pub preview: Option<String>,
}

/// A count from the database, where it can be negative.
pub open spec fn from_db(n: i64) -> usize {
    if n < 0 {
        0
    } else {
        n as usize
    }
}

/// A count from the database, where it can be negative.
pub fn count_from_db(n: i64) -> (r: usize)
    ensures
        r == from_db(n),
{
    if n < 0 {
        0
    } else {
        #[verifier::truncate]
        (n as usize)
    }
}

/// The preview of a row, which can lack one.
pub open spec fn row_preview(preview: Option<String>) -> Seq<char> {
    match preview {
        Some(s) => s@,
        None => "..."@,
    }
}

/// The node type of a code from the database.
pub open spec fn type_or(code: i32, other: NodeType) -> NodeType {
    match NodeType::of_code((code as u8) as int) {
        Some(t) => t,
        None => other,
    }
}

fn node_type_or(code: i32, other: NodeType) -> (r: NodeType)
    ensures
        r == type_or(code, other),
{
    match NodeType::from_int(
        #[verifier::truncate]
        (code as u8),
    ) {
        Some(t) => t,
        None => other,
    }
}

/// The handle of a row.
pub open spec fn row_handle(row: HandleRow) -> HandleView {
    HandleView {
        id: row.handle_id@,
        file_path: row.path@,
        node_type: type_or(row.node_type, NodeType::Chunk),
        span: Span { start: from_db(row.start_byte), end: from_db(row.end_byte) },
        line_range: (from_db(row.line_start), from_db(row.line_end)),
        token_count: from_db(row.token_count),
        preview: row_preview(row.preview),
        content: None,
        source: HandleSource::Local,
        commit_sha: None,
        generation: None,
    }
}

/// The handle of a row.
pub fn handle_from_row(row: HandleRow) -> (r: Handle)
    ensures
        r@ == row_handle(row),
{
    Handle {
        id: HandleId::from_raw(row.handle_id),
        file_path: row.path,
        node_type: node_type_or(row.node_type, NodeType::Chunk),
        span: Span { start: count_from_db(row.start_byte), end: count_from_db(row.end_byte) },
        line_range: (count_from_db(row.line_start), count_from_db(row.line_end)),
        token_count: count_from_db(row.token_count),
        preview: match row.preview {
            Some(s) => s,
            None => "...".to_owned(),
        },
        content: None,
        source: HandleSource::Local,
        commit_sha: None,
        generation: None,
    }
}

/// The handle of a symbol.
pub open spec fn entry_handle(e: SymbolCacheEntry) -> HandleView {
    HandleView {
        id: e.handle_id@,
        file_path: e.file_path@,
        node_type: type_or(e.node_type, NodeType::Function),
        span: Span { start: e.start_byte, end: e.end_byte },
        line_range: (e.line_start, e.line_end),
        token_count: e.token_count,
        preview: e.preview@,
        content: None,
        source: HandleSource::Local,
        commit_sha: None,
        generation: None,
    }
}

/// The handle of a symbol.
pub fn handle_from_cache_entry(e: &SymbolCacheEntry) -> (r: Handle)
    ensures
        r@ == entry_handle(*e),
{
    Handle {
        id: HandleId::from_raw(e.handle_id.clone()),
        file_path: e.file_path.clone(),
        node_type: node_type_or(e.node_type, NodeType::Function),
        span: Span { start: e.start_byte, end: e.end_byte },
        line_range: (e.line_start, e.line_end),
        token_count: e.token_count,
        preview: e.preview.clone(),
        content: None,
        source: HandleSource::Local,
        commit_sha: None,
        generation: None,
    }
}

/// Whether a symbol is that of a row.
pub open spec fn is_entry_of_row(e: SymbolCacheEntry, row: HandleRow) -> bool {
    &&& e.handle_id@ == row.handle_id@
    &&& e.file_path@ == row.path@
    &&& e.node_type == row.node_type
    &&& e.start_byte == row.start_byte as usize
    &&& e.end_byte == row.end_byte as usize
    &&& e.line_start == row.line_start as usize
    &&& e.line_end == row.line_end as usize
    &&& e.token_count == row.token_count as usize
    &&& e.preview@ == row_preview(row.preview)
}

/// A symbol as the database holds it, under its name in lower case.
pub fn cache_entry_from_row(row: HandleRow) -> (r: SymbolCacheEntry)
    ensures
        is_entry_of_row(r, row),
{
    SymbolCacheEntry {
        handle_id: row.handle_id,
        file_path: row.path,
        node_type: row.node_type,
        start_byte: #[verifier::truncate]
        (row.start_byte as usize),
        end_byte: #[verifier::truncate]
        (row.end_byte as usize),
        line_start: #[verifier::truncate]
        (row.line_start as usize),
        line_end: #[verifier::truncate]
        (row.line_end as usize),
        token_count: #[verifier::truncate]
        (row.token_count as usize),
        preview: match row.preview {
            Some(s) => s,
            None => "...".to_owned(),
        },
    }
}

/// A reference as the database holds it.
#[derive(Debug)]
pub struct RefRow {
    pub path: String,
    pub span_start: i64,
    pub span_end: i64,
    pub line_start: i64,
    pub line_end: i64,
    pub name: String,
    pub qualifier: Option<String>,
    pub ref_type: String,
    pub source_handle_id: Option<String>,
    pub preview: Option<String>,
}

/// The reference of a row.
pub open spec fn row_ref(row: RefRow) -> RefHandleView {
    RefHandleView {
        file_path: row.path@,
        span: Span { start: from_db(row.span_start), end: from_db(row.span_end) },
        line_range: (from_db(row.line_start), from_db(row.line_end)),
        name: row.name@,
        qualifier: text::opt_view(row.qualifier),
        ref_type: match RefType::of_name(row.ref_type@) {
            Some(t) => t,
            None => RefType::Call,
        },
        source_handle: text::opt_view(row.source_handle_id),
        preview: row_preview(row.preview),
    }
}

/// The reference of a row.
pub fn ref_handle_from_row(row: RefRow) -> (r: RefHandle)
    ensures
        r@ == row_ref(row),
{
    let ref_type: RefType = match RefType::parse(row.ref_type.as_str()) {
        Some(t) => t,
        None => RefType::Call,
    };
    RefHandle {
        file_path: row.path,
        span: Span { start: count_from_db(row.span_start), end: count_from_db(row.span_end) },
        line_range: (count_from_db(row.line_start), count_from_db(row.line_end)),
        name: row.name,
        qualifier: row.qualifier,
        ref_type,
        source_handle: match row.source_handle_id {
            Some(id) => Some(HandleId::from_raw(id)),
            None => None,
        },
        preview: match row.preview {
            Some(s) => s,
            None => "...".to_owned(),
        },
    }
}

// ---------------------------------------------------------------------------
// Symbols in memory
// ---------------------------------------------------------------------------

/// The handles of the first symbols of a name.
pub open spec fn first_symbols(entries: Seq<SymbolCacheEntry>, limit: usize) -> Seq<HandleView> {
    execute::first(Seq::new(entries.len(), |i: int| entry_handle(entries[i])), limit as int)
}

/// The first symbols of a name in lower case, if the cache has any. Without one
/// the database is asked.
pub fn cached_symbols_lower(cache: &SymbolCache, name_lower: &str, limit: usize) -> (r: Option<
    Vec<Handle>,
>)
    requires
        cache.inv(),
    ensures
        match r {
            Some(handles) => handles@.len() > 0 && text::views(handles@) == first_symbols(
                cache.state().symbols(name_lower@),
                limit,
            ),
            None => first_symbols(cache.state().symbols(name_lower@), limit).len() == 0,
        },
{
    match cache.get(name_lower) {
        Some(entries) => {
            let ghost all = Seq::new(entries@.len(), |i: int| entry_handle(entries@[i]));
            let mut handles: Vec<Handle> = Vec::new();
            let mut i: usize = 0;
            assert(text::views(handles@) =~= all.take(0));
            while i < entries.len() && i < limit
                invariant
                    i <= entries@.len(),
                    i <= limit,
                    all == Seq::new(entries@.len(), |i: int| entry_handle(entries@[i])),
                    text::views(handles@) == all.take(i as int),
                decreases entries@.len() - i,
            {
                let h: Handle = handle_from_cache_entry(&entries[i]);
                proof {
                    text::lemma_views_push(handles@, h);
                    assert(all.take(i + 1) =~= all.take(i as int).push(h@));
                }
                handles.push(h);
                i = i + 1;
            }
            assert(text::views(handles@).len() == handles@.len());
            assert(text::views(handles@) =~= execute::first(all, limit as int));
            if handles.len() > 0 {
                Some(handles)
            } else {
                None
            }
        },
        None => None,
    }
}

/// The first symbols of a name, if the cache has any.
pub fn cached_symbols(cache: &SymbolCache, symbol: &str, limit: usize) -> (r: Option<Vec<Handle>>)
    requires
        cache.inv(),
    ensures
        match r {
            Some(handles) => handles@.len() > 0 && text::views(handles@) == first_symbols(
                cache.state().symbols(strings::lowercase(symbol@)),
                limit,
            ),
            None => first_symbols(
                cache.state().symbols(strings::lowercase(symbol@)),
                limit,
            ).len() == 0,
        },
{
    let name_lower: String = to_lowercase(symbol);
    cached_symbols_lower(cache, name_lower.as_str(), limit)
}

/// What the cache has for a search: the first symbols of a name for a search for
/// code or for definitions, nothing for another.
pub open spec fn cached_spec(cache: CacheState, request: SearchRequestView) -> Seq<HandleView> {
    match request {
        SearchRequestView::Code { symbol, limit } => first_symbols(
            cache.symbols(strings::lowercase(symbol)),
            limit,
        ),
        SearchRequestView::Definitions { symbol, limit } => first_symbols(
            cache.symbols(strings::lowercase(symbol)),
            limit,
        ),
        _ => Seq::empty(),
    }
}

/// The glob that a search goes by, if it does.
pub open spec fn request_glob(request: SearchRequestView) -> Option<Seq<char>> {
    match request {
        SearchRequestView::File { path } => Some(path),
        SearchRequestView::InFiles { glob, .. } => Some(glob),
        _ => None,
    }
}

/// Why a search is refused, if it is: for its glob.
pub open spec fn request_error(request: SearchRequestView) -> Option<Seq<char>> {
    match request_glob(request) {
        Some(glob) => globs::glob_error(glob),
        None => None,
    }
}

/// How a search starts.
#[derive(Debug)]
pub enum SearchStep {
    /// The cache has what is looked for.
    Found(Vec<Handle>),
    /// The database is asked.
    Ask(DbSearch),
    /// The search is refused.
    Refused(CanopyError),
}

/// How a search starts: the cache is asked before the database, and a glob is
/// tried before either.
pub fn first_search(cache: &SymbolCache, request: &SearchRequest) -> (r: SearchStep)
    requires
        cache.inv(),
    ensures
        match r {
            SearchStep::Found(handles) => {
                &&& request_error(request@) is None
                &&& handles@.len() > 0
                &&& text::views(handles@) == cached_spec(cache.state(), request@)
            },
            SearchStep::Ask(search) => {
                &&& request_error(request@) is None
                &&& cached_spec(cache.state(), request@).len() == 0
                &&& search@ == database_search_spec(request@)
            },
            SearchStep::Refused(e) => e matches CanopyError::GlobPattern(why) && request_error(
                request@,
            ) == Some(why@),
        },
{
    let refused: Option<String> = match request {
        SearchRequest::File { path } => check_pattern(path.as_str()),
        SearchRequest::InFiles { glob, .. } => check_pattern(glob.as_str()),
        _ => None,
    };
    match refused {
        Some(why) => {
            return SearchStep::Refused(CanopyError::GlobPattern(why));
        },
        None => {},
    }
    let cached: Option<Vec<Handle>> = match request {
        SearchRequest::Code { symbol, limit } => cached_symbols(cache, symbol.as_str(), *limit),
        SearchRequest::Definitions { symbol, limit } => cached_symbols(
            cache,
            symbol.as_str(),
            *limit,
        ),
        _ => None,
    };
    match cached {
        Some(handles) => SearchStep::Found(handles),
        None => SearchStep::Ask(database_search(request)),
    }
}

// ---------------------------------------------------------------------------
// Files
// ---------------------------------------------------------------------------

/// A file of the index, and its number of tokens.
pub type FileCount = (Seq<char>, i64);

/// The files that match a glob.
pub open spec fn matching_files(files: Seq<FileCount>, glob: Seq<char>) -> Seq<(Seq<char>, usize)>
    decreases files.len(),
{
    if files.len() == 0 {
        Seq::empty()
    } else {
        let before = matching_files(files.drop_last(), glob);
        if globs::glob_matches(glob, files.last().0) {
            before.push((files.last().0, from_db(files.last().1)))
        } else {
            before
        }
    }
}

/// The files that match a glob, with their numbers of tokens; an error where the
/// glob is refused.
pub fn select_files(files: &Vec<(String, i64)>, glob: &str) -> (r: Result<
    Vec<(String, usize)>,
    CanopyError,
>)
    ensures
        match r {
            Ok(list) => globs::glob_error(glob@) is None && text::views(list@) == matching_files(
                text::views(files@),
                glob@,
            ),
            Err(e) => e matches CanopyError::GlobPattern(why) && globs::glob_error(glob@) == Some(
                why@,
            ),
        },
{
    let ghost all = text::views(files@);
    let mut paths: Vec<String> = Vec::new();
    let mut i: usize = 0;
    while i < files.len()
        invariant
            i <= files@.len(),
            paths@.len() == i,
            forall|k: int| 0 <= k < i ==> (#[trigger] paths@[k])@ == files@[k].0@,
        decreases files@.len() - i,
    {
        paths.push(files[i].0.clone());
        i = i + 1;
    }
    let hits: Vec<bool> = match matching(glob, &paths) {
        Ok(hits) => hits,
        Err(e) => {
            return Err(CanopyError::GlobPattern(e));
        },
    };
    let mut list: Vec<(String, usize)> = Vec::new();
    let mut j: usize = 0;
    assert(text::views(list@) =~= matching_files(all.take(0), glob@));
    while j < files.len()
        invariant
            j <= files@.len(),
            all == text::views(files@),
            hits@.len() == files@.len(),
            forall|k: int|
                0 <= k < files@.len() ==> #[trigger] hits@[k] == globs::glob_matches(
                    glob@,
                    files@[k].0@,
                ),
            text::views(list@) == matching_files(all.take(j as int), glob@),
        decreases files@.len() - j,
    {
        proof {
            assert(all.take(j + 1).drop_last() =~= all.take(j as int));
            assert(all.take(j + 1).last() == files@[j as int]@);
        }
        if hits[j] {
            let item: (String, usize) = (files[j].0.clone(), count_from_db(files[j].1));
            proof {
                text::lemma_views_push(list@, item);
            }
            list.push(item);
        }
        j = j + 1;
    }
    assert(all.take(files@.len() as int) =~= all);
    Ok(list)
}

/// The handle of a whole file.
pub open spec fn whole_file(
    path: Seq<char>,
    token_count: usize,
    source: Seq<char>,
    preview_bytes: usize,
) -> HandleView {
    let span = Span { start: 0, end: text::byte_len(source) as usize };
    let count = strings::lines_spec(source).len();
    HandleView {
        id: handle::raw_id(path, NodeType::Chunk, span),
        file_path: path,
        node_type: NodeType::Chunk,
        span,
        line_range: (
            1,
            if count == 0 {
                1
            } else {
                count as usize
            },
        ),
        token_count,
        preview: handle::preview_spec(source, span, preview_bytes as int),
        content: None,
        source: HandleSource::Local,
        commit_sha: None,
        generation: None,
    }
}

/// The handle of a whole file.
pub fn file_handle(path: &str, token_count: usize, source: &str, preview_bytes: usize) -> (r: Handle)
    ensures
        r@ == whole_file(path@, token_count, source@, preview_bytes),
{
    let found: Vec<String> = lines(source);
    assert(text::views(found@).len() == found@.len());
    let line_count: usize = if found.len() == 0 {
        1
    } else {
        found.len()
    };
    let span: Span = Span { start: 0, end: len_bytes(source) };
    let preview: String = generate_preview(source, &span, preview_bytes);
    Handle {
        id: HandleId::new(path, NodeType::Chunk, &span),
        file_path: path.to_owned(),
        node_type: NodeType::Chunk,
        span,
        line_range: (1, line_count),
        token_count,
        preview,
        content: None,
        source: HandleSource::Local,
        commit_sha: None,
        generation: None,
    }
}

/// The first of the handles that a text search found whose file matches a glob;
/// an error where the glob is refused.
pub fn search_in_files(found: &Vec<Handle>, glob: &str, limit: usize) -> (r: Result<
    Vec<Handle>,
    CanopyError,
>)
    ensures
        match r {
            Ok(handles) => globs::glob_error(glob@) is None && text::views(handles@)
                == execute::first(execute::in_files(text::views(found@), glob@), limit as int),
            Err(e) => e matches CanopyError::GlobPattern(why) && globs::glob_error(glob@) == Some(
                why@,
            ),
        },
{
    match filter_by_glob(found, glob) {
        Ok(kept) => Ok(select_handles(kept, limit)),
        Err(e) => Err(CanopyError::GlobPattern(e)),
    }
}

// ---------------------------------------------------------------------------
// Laws
// ---------------------------------------------------------------------------

/// A text with every two double quotes made one, read from its end.
pub open spec fn undoubled(s: Seq<char>) -> Seq<char>
    decreases s.len(),
{
    if s.len() == 0 {
        Seq::empty()
    } else if s.len() >= 2 && s.last() == '"' {
        undoubled(s.take(s.len() - 2)).push('"')
    } else {
        undoubled(s.drop_last()).push(s.last())
    }
}

/// The text that a full-text query looks for: what stands between its quotes, or the
/// query itself.
pub open spec fn looked_for(query: Seq<char>) -> Seq<char> {
    if query.len() >= 2 && query[0] == '"' {
        undoubled(query.subrange(1, query.len() - 1))
    } else {
        query
    }
}

proof fn lemma_undoubled(s: Seq<char>)
    ensures
        undoubled(doubled_quotes(s)) == s,
    decreases s.len(),
{
    if s.len() > 0 {
        let rest = doubled_quotes(s.drop_last());
        lemma_undoubled(s.drop_last());
        assert(s.drop_last().push(s.last()) =~= s);
        if s.last() == '"' {
            assert(doubled_quotes(s).take(doubled_quotes(s).len() - 2) =~= rest);
        } else {
            assert(doubled_quotes(s).drop_last() =~= rest);
        }
    }
}

/// A full-text query looks for the text that it was made for, and stands in quotes
/// exactly where a character of the text would mean something else.
pub proof fn law_query_reads_back(s: Seq<char>)
    ensures
        looked_for(escaped_query(s)) == s,
        (s.contains('"') || s.contains('(') || s.contains(')') || s.contains('-') || s.contains('*')
            || s.contains('<') || s.contains('>')) <==> escaped_query(s) != s,
        escaped_query(s) != s ==> escaped_query(s).len() >= 2 && escaped_query(s)[0] == '"'
            && escaped_query(s).last() == '"',
{
    let q = escaped_query(s);
    if has_fts5_special(s) {
        let i = choose|i: int| 0 <= i < s.len() && is_fts5_special(#[trigger] s[i]);
        assert(s.contains(s[i]));
        lemma_undoubled(s);
        lemma_doubled_len(s);
        assert(q.subrange(1, q.len() - 1) =~= doubled_quotes(s));
        assert(q.len() > s.len());
    } else {
        assert forall|c: char| #[trigger] s.contains(c) implies !is_fts5_special(c) by {
            let k = s.index_of(c);
            assert(s[k] == c);
        }
        if s.len() > 0 {
            assert(s.contains(s[0]));
        }
    }
}

proof fn lemma_doubled_len(s: Seq<char>)
    ensures
        doubled_quotes(s).len() >= s.len(),
    decreases s.len(),
{
    if s.len() > 0 {
        lemma_doubled_len(s.drop_last());
    }
}

/// Whether a number of rows to ask for is a limit.
pub open spec fn asks_for(rows: i64, limit: usize) -> bool {
    limit <= i64::MAX ==> rows == limit
}

/// What a query of one part has the database look for. A search in files goes by
/// the glob of the query and looks for its pattern; a search for a file goes by its
/// path; names are looked for in lower case, and a heading anywhere in one; no more
/// is asked for than is wanted.
pub proof fn law_query_asks(q: QueryModel, limit: usize)
    ensures
        match q {
            QueryModel::InFile(glob, sub) => *sub matches QueryModel::Grep(pattern) ==> {
                let asked = execute::requests(q, limit);
                &&& asked.len() == 1
                &&& request_error(asked[0]) == globs::glob_error(glob)
                &&& database_search_spec(asked[0]) matches DbSearchView::ContentInFiles {
                    glob: g,
                    query,
                    keep,
                } && g == glob && looked_for(query) == pattern && keep == limit
            },
            QueryModel::File(path) => {
                let asked = execute::requests(q, limit);
                &&& asked.len() == 1
                &&& request_error(asked[0]) == globs::glob_error(path)
                &&& database_search_spec(asked[0]) == (DbSearchView::Files { glob: path })
            },
            QueryModel::Grep(pattern) => {
                let asked = execute::requests(q, limit);
                &&& asked.len() == 1 && request_error(asked[0]) is None
                &&& database_search_spec(asked[0]) matches DbSearchView::Content {
                    query,
                    limit: rows,
                } && looked_for(query) == pattern && asks_for(rows, limit)
            },
            QueryModel::Section(heading) => {
                let asked = execute::requests(q, limit);
                &&& asked.len() == 1 && request_error(asked[0]) is None
                &&& database_search_spec(asked[0]) matches DbSearchView::Headings {
                    node_type,
                    pattern,
                    limit: rows,
                } && NodeType::of_code(node_type as int) == Some(NodeType::Section) && pattern
                    == seq!['%'] + strings::lowercase(heading) + seq!['%'] && asks_for(rows, limit)
            },
            QueryModel::Code(symbol) | QueryModel::Definition(symbol) => {
                let asked = execute::requests(q, limit);
                &&& asked.len() == 1 && request_error(asked[0]) is None
                &&& database_search_spec(asked[0]) matches DbSearchView::Symbol {
                    name_lower,
                    limit: rows,
                } && name_lower == strings::lowercase(symbol) && asks_for(rows, limit)
            },
            QueryModel::Children(parent) => {
                let asked = execute::requests(q, limit);
                &&& asked.len() == 1 && request_error(asked[0]) is None
                &&& database_search_spec(asked[0]) matches DbSearchView::Children {
                    parent_lower,
                    limit: rows,
                } && parent_lower == strings::lowercase(parent) && asks_for(rows, limit)
            },
            QueryModel::ChildrenNamed(parent, symbol) => {
                let asked = execute::requests(q, limit);
                &&& asked.len() == 1 && request_error(asked[0]) is None
                &&& database_search_spec(asked[0]) matches DbSearchView::ChildrenNamed {
                    parent_lower,
                    name_lower,
                    limit: rows,
                } && parent_lower == strings::lowercase(parent) && name_lower == strings::lowercase(
                    symbol,
                ) && asks_for(rows, limit)
            },
            QueryModel::References(symbol) => {
                let asked = execute::requests(q, limit);
                &&& asked.len() == 1 && request_error(asked[0]) is None
                &&& database_search_spec(asked[0]) matches DbSearchView::ReferenceSources {
                    name_lower,
                    limit: rows,
                } && name_lower == strings::lowercase(symbol) && asks_for(rows, limit)
            },
            _ => true,
        },
{
    reveal_strlit("%");
    assert("%"@ =~= seq!['%']);
    match q {
        QueryModel::InFile(glob, sub) => {
            if let QueryModel::Grep(pattern) = *sub {
                law_query_reads_back(pattern);
            }
        },
        QueryModel::Grep(pattern) => {
            law_query_reads_back(pattern);
        },
        _ => {},
    }
}

/// What an in-file search answers with: the first of the handles found, in their
/// order, whose file matches the glob, as many as are wanted.
pub proof fn law_in_files_selected(found: Seq<HandleView>, glob: Seq<char>, limit: usize)
    ensures
        ({
            let matching = found.filter(|h: HandleView| globs::glob_matches(glob, h.file_path));
            let answer = execute::first(execute::in_files(found, glob), limit as int);
            &&& answer.len() == if matching.len() < limit {
                matching.len() as int
            } else {
                limit as int
            }
            &&& forall|k: int| 0 <= k < answer.len() ==> #[trigger] answer[k] == matching[k]
            &&& forall|k: int|
                0 <= k < answer.len() ==> globs::glob_matches(
                    glob,
                    (#[trigger] answer[k]).file_path,
                )
        }),
{
    let test = |h: HandleView| globs::glob_matches(glob, h.file_path);
    lemma_in_files_filter(found, glob, test);
    let answer = execute::first(execute::in_files(found, glob), limit as int);
    assert forall|k: int| 0 <= k < answer.len() implies globs::glob_matches(
        glob,
        (#[trigger] answer[k]).file_path,
    ) by {
        assert(answer[k] == found.filter(test)[k]);
        found.lemma_filter_pred(test, k);
    }
}

proof fn lemma_in_files_filter(
    found: Seq<HandleView>,
    glob: Seq<char>,
    test: spec_fn(HandleView) -> bool,
)
    requires
        forall|h: HandleView| #[trigger] test(h) <==> globs::glob_matches(glob, h.file_path),
    ensures
        execute::in_files(found, glob) == found.filter(test),
    decreases found.len(),
{
    reveal(Seq::filter);
    if found.len() > 0 {
        lemma_in_files_filter(found.drop_last(), glob, test);
    }
}

/// The files that are selected are those that match the glob, each with its number
/// of tokens, in their order.
pub proof fn law_files_selected(files: Seq<FileCount>, glob: Seq<char>)
    ensures
        ({
            let matching = files.filter(|f: FileCount| globs::glob_matches(glob, f.0));
            let selected = matching_files(files, glob);
            &&& selected.len() == matching.len()
            &&& forall|k: int|
                0 <= k < selected.len() ==> (#[trigger] selected[k]).0 == matching[k].0
                    && selected[k].1 == if matching[k].1 < 0 {
                    0
                } else {
                    matching[k].1 as usize
                }
        }),
    decreases files.len(),
{
    reveal(Seq::filter);
    let test = |f: FileCount| globs::glob_matches(glob, f.0);
    if files.len() > 0 {
        law_files_selected(files.drop_last(), glob);
        assert(files.filter(test) == if test(files.last()) {
            files.drop_last().filter(test).push(files.last())
        } else {
            files.drop_last().filter(test)
        });
    }
}

/// A search for code that finds no symbol of the name goes on with names that the symbol
/// is a part of; no other search goes on.
pub proof fn law_search_goes_on(request: SearchRequestView, found: usize)
    ensures
        next_search_spec(request, found) is Some <==> request is Code && found == 0,
        request matches SearchRequestView::Code { symbol, limit } ==> (next_search_spec(
            request,
            found,
        ) matches Some(next) ==> (next matches DbSearchView::SymbolText { query, limit: rows }
            && looked_for(query) == symbol && asks_for(rows, limit))),
{
    if let SearchRequestView::Code { symbol, limit } = request {
        law_query_reads_back(symbol);
    }
}

/// The symbol of a row gives the handle that the row gives, where the row is one that
/// can be stored.
pub proof fn law_entry_and_row_agree(e: SymbolCacheEntry, row: HandleRow)
    requires
        is_entry_of_row(e, row),
        row.start_byte >= 0 && row.end_byte >= 0 && row.line_start >= 0 && row.line_end >= 0
            && row.token_count >= 0,
        NodeType::of_code((row.node_type as u8) as int) is Some,
    ensures
        entry_handle(e) == row_handle(row),
{
}

} // verus!
