//! Queries: the syntax tree, the parameters, the parser and the executor.

use vstd::prelude::*;
use crate::error::CanopyError;
use crate::handle::{Handle, RefHandle};
use crate::text;

pub mod execute;
pub mod meaning;
pub mod parser;
pub mod written;

verus! {

broadcast use {vstd::string::group_string_axioms, vstd::seq::group_seq_axioms};

/// Query syntax tree.
#[derive(Debug)]
pub enum Query {
    /// `(section "heading")`: fuzzy match on section headings.
    Section(String),
    /// `(grep "pattern")`: full-text search.
    Grep(String),
    /// `(file "path")`: entire file as handle.
    File(String),
    /// `(code "symbol")`: symbol search.
    Code(String),
    /// `(in-file "glob" query)`: search within specific files.
    InFile(String, Box<Query>),
    /// `(union q1 q2 ...)`: combine results.
    Union(Vec<Query>),
    /// `(intersect q1 q2 ...)`: intersection of results.
    Intersect(Vec<Query>),
    /// `(limit N query)`: limit results.
    Limit(usize, Box<Query>),
    /// `(children "parent")`: all children of a parent symbol.
    Children(String),
    /// `(children-named "parent" "symbol")`: named children of a parent.
    ChildrenNamed(String, String),
    /// `(definition "symbol")`: exact match symbol definition.
    Definition(String),
    /// `(references "symbol")`: references to a symbol.
    References(String),
}

/// The model of a [`Query`].
pub enum QueryModel {
    Section(Seq<char>),
    Grep(Seq<char>),
    File(Seq<char>),
    Code(Seq<char>),
    InFile(Seq<char>, Box<QueryModel>),
    Union(Seq<QueryModel>),
    Intersect(Seq<QueryModel>),
    Limit(usize, Box<QueryModel>),
    Children(Seq<char>),
    ChildrenNamed(Seq<char>, Seq<char>),
    Definition(Seq<char>),
    References(Seq<char>),
}

impl Query {
    /// The query with its texts and lists as sequences.
    pub open spec fn model(self) -> QueryModel
        decreases self,
    {
        match self {
            Query::Section(s) => QueryModel::Section(s@),
            Query::Grep(s) => QueryModel::Grep(s@),
            Query::File(s) => QueryModel::File(s@),
            Query::Code(s) => QueryModel::Code(s@),
            Query::InFile(glob, q) => QueryModel::InFile(glob@, Box::new(q.model())),
            Query::Union(qs) => QueryModel::Union(
                Seq::new(
                    qs@.len(),
                    |i: int|
                        if 0 <= i < qs@.len() {
                            qs@[i].model()
                        } else {
                            arbitrary()
                        },
                ),
            ),
            Query::Intersect(qs) => QueryModel::Intersect(
                Seq::new(
                    qs@.len(),
                    |i: int|
                        if 0 <= i < qs@.len() {
                            qs@[i].model()
                        } else {
                            arbitrary()
                        },
                ),
            ),
            Query::Limit(n, q) => QueryModel::Limit(n, Box::new(q.model())),
            Query::Children(s) => QueryModel::Children(s@),
            Query::ChildrenNamed(p, s) => QueryModel::ChildrenNamed(p@, s@),
            Query::Definition(s) => QueryModel::Definition(s@),
            Query::References(s) => QueryModel::References(s@),
        }
    }
}

/// The models of a list of queries.
pub open spec fn models(qs: Seq<Query>) -> Seq<QueryModel> {
    Seq::new(qs.len(), |i: int| qs[i].model())
}

/// A list of queries is modelled item by item.
pub proof fn lemma_models(qs: Vec<Query>)
    ensures
        Query::Union(qs).model() == QueryModel::Union(models(qs@)),
        Query::Intersect(qs).model() == QueryModel::Intersect(models(qs@)),
{
    assert(Query::Union(qs).model()->Union_0 =~= models(qs@));
    assert(Query::Intersect(qs).model()->Intersect_0 =~= models(qs@));
}

pub proof fn lemma_models_push(qs: Seq<Query>, q: Query)
    ensures
        models(qs.push(q)) == models(qs).push(q.model()),
{
    assert(models(qs.push(q)) =~= models(qs).push(q.model()));
}

/// Match mode for multi-pattern queries.
#[derive(Debug, Clone, Copy, PartialEq, Eq, Structural)]
pub enum MatchMode {
    /// Union: match any of the patterns.
    Any,
    /// Intersect: match all of the patterns.
    All,
}

impl Default for MatchMode {
    fn default() -> (r: MatchMode)
        ensures
            r == MatchMode::Any,
    {
        MatchMode::Any
    }
}

/// Query kind for filtering results.
#[derive(Debug, Clone, Copy, PartialEq, Eq, Structural)]
pub enum QueryKind {
    /// Match any.
    Any,
    /// Only match definitions.
    Definition,
    /// Only match references (calls, imports, type usages).
    Reference,
}

impl Default for QueryKind {
    fn default() -> (r: QueryKind)
        ensures
            r == QueryKind::Any,
    {
        QueryKind::Any
    }
}

/// Query parameters, in place of a query expression.
#[derive(Debug)]
pub struct QueryParams {
    /// Text pattern to search for.
    pub pattern: Option<String>,
    /// Multiple text patterns to search for.
    pub patterns: Option<Vec<String>>,
    /// Code symbol to search for (function, class, struct, method).
    pub symbol: Option<String>,
    /// Section heading to search for.
    pub section: Option<String>,
    /// Parent symbol to filter by (such as the class name for methods).
    pub parent: Option<String>,
    /// Definition, reference, or any.
    pub kind: QueryKind,
    /// File path glob pattern to filter results.
    pub glob: Option<String>,
    /// Match mode for multi-pattern queries.
    pub match_mode: MatchMode,
    /// Maximum number of results.
    pub limit: Option<usize>,
    /// Expand results if their tokens fit within this budget.
    pub expand_budget: Option<usize>,
}

/// The view of [`QueryParams`].
pub struct QueryParamsView {
    pub pattern: Option<Seq<char>>,
    pub patterns: Option<Seq<Seq<char>>>,
    pub symbol: Option<Seq<char>>,
    pub section: Option<Seq<char>>,
    pub parent: Option<Seq<char>>,
    pub kind: QueryKind,
    pub glob: Option<Seq<char>>,
    pub match_mode: MatchMode,
    pub limit: Option<usize>,
    pub expand_budget: Option<usize>,
}

/// The view of an optional list of strings.
pub open spec fn opt_list(list: Option<Vec<String>>) -> Option<Seq<Seq<char>>> {
    match list {
        Some(items) => Some(text::views(items@)),
        None => None,
    }
}

impl View for QueryParams {
    type V = QueryParamsView;

    open spec fn view(&self) -> QueryParamsView {
        QueryParamsView {
            pattern: text::opt_view(self.pattern),
            patterns: opt_list(self.patterns),
            symbol: text::opt_view(self.symbol),
            section: text::opt_view(self.section),
            parent: text::opt_view(self.parent),
            kind: self.kind,
            glob: text::opt_view(self.glob),
            match_mode: self.match_mode,
            limit: self.limit,
            expand_budget: self.expand_budget,
        }
    }
}

impl QueryParamsView {
    /// No parameter is given.
    pub open spec fn none() -> QueryParamsView {
        QueryParamsView {
            pattern: None,
            patterns: None,
            symbol: None,
            section: None,
            parent: None,
            kind: QueryKind::Any,
            glob: None,
            match_mode: MatchMode::Any,
            limit: None,
            expand_budget: None,
        }
    }
}

/// What the parameters ask for, without the glob and the limit: the query, or
/// why they make none.
pub open spec fn base_query(p: QueryParamsView) -> Result<QueryModel, Seq<char>> {
    match (p.kind, p.symbol) {
        (QueryKind::Definition, Some(symbol)) => match p.parent {
            Some(parent) => Ok(QueryModel::ChildrenNamed(parent, symbol)),
            None => Ok(QueryModel::Definition(symbol)),
        },
        (QueryKind::Reference, Some(symbol)) => Ok(QueryModel::References(symbol)),
        (QueryKind::Any, symbol) => match (p.parent, symbol) {
            (Some(parent), Some(symbol)) => Ok(QueryModel::ChildrenNamed(parent, symbol)),
            (Some(parent), None) => Ok(QueryModel::Children(parent)),
            (None, Some(symbol)) => Ok(QueryModel::Code(symbol)),
            (None, None) => match (p.section, p.pattern, p.patterns) {
                (Some(section), _, _) => Ok(QueryModel::Section(section)),
                (None, Some(pattern), _) => Ok(QueryModel::Grep(pattern)),
                (None, None, Some(patterns)) => {
                    let greps = Seq::new(
                        patterns.len(),
                        |i: int| QueryModel::Grep(patterns[i]),
                    );
                    if patterns.len() == 0 {
                        Err("Empty patterns array"@)
                    } else if p.match_mode == MatchMode::Any {
                        Ok(QueryModel::Union(greps))
                    } else {
                        Ok(QueryModel::Intersect(greps))
                    }
                },
                (None, None, None) => Err(
                    "Must specify pattern, patterns, symbol, section, or parent"@,
                ),
            },
        },
        (_, None) => Err("kind parameter requires symbol to be specified"@),
    }
}

/// A query within the files of a glob, if there is one.
pub open spec fn with_glob(q: QueryModel, glob: Option<Seq<char>>) -> QueryModel {
    match glob {
        Some(glob) => QueryModel::InFile(glob, Box::new(q)),
        None => q,
    }
}

/// A query with a limit, if there is one.
pub open spec fn with_limit(q: QueryModel, limit: Option<usize>) -> QueryModel {
    match limit {
        Some(n) => QueryModel::Limit(n, Box::new(q)),
        None => q,
    }
}

/// The query that the parameters stand for, or why they stand for none.
pub open spec fn params_query(p: QueryParamsView) -> Result<QueryModel, Seq<char>> {
    match base_query(p) {
        Ok(q) => Ok(with_limit(with_glob(q, p.glob), p.limit)),
        Err(message) => Err(message),
    }
}

/// Whether an error is a parse error with this position and message.
pub open spec fn is_query_error(e: CanopyError, position: int, message: Seq<char>) -> bool {
    match e {
        CanopyError::QueryParse { position: p, message: m } => p == position && m@ == message,
        _ => false,
    }
}

fn params_error(message: &str) -> (e: CanopyError)
    ensures
        is_query_error(e, 0, message@),
{
    CanopyError::QueryParse { position: 0, message: message.to_owned() }
}

impl Default for QueryParams {
    fn default() -> (r: QueryParams)
        ensures
            r@ == QueryParamsView::none(),
    {
        QueryParams {
            pattern: None,
            patterns: None,
            symbol: None,
            section: None,
            parent: None,
            kind: QueryKind::Any,
            glob: None,
            match_mode: MatchMode::Any,
            limit: None,
            expand_budget: None,
        }
    }
}

impl Clone for QueryParams {
    fn clone(&self) -> (r: QueryParams)
        ensures
            r@ == self@,
    {
        QueryParams {
            pattern: self.pattern.clone(),
            patterns: match &self.patterns {
                Some(items) => {
                    let mut copy: Vec<String> = Vec::new();
                    text::extend_strings(&mut copy, items);
                    assert(text::views(copy@) =~= text::views(items@));
                    Some(copy)
                },
                None => None,
            },
            symbol: self.symbol.clone(),
            section: self.section.clone(),
            parent: self.parent.clone(),
            kind: self.kind,
            glob: self.glob.clone(),
            match_mode: self.match_mode,
            limit: self.limit,
            expand_budget: self.expand_budget,
        }
    }
}

impl QueryParams {
    pub fn new() -> (r: QueryParams)
        ensures
            r@ == QueryParamsView::none(),
    {
        QueryParams::default()
    }

    /// A text pattern search.
    pub fn pattern(pattern: &str) -> (r: QueryParams)
        ensures
            r@ == (QueryParamsView { pattern: Some(pattern@), ..QueryParamsView::none() }),
    {
        let mut r: QueryParams = QueryParams::default();
        r.pattern = Some(pattern.to_owned());
        r
    }

    /// A multi-pattern search.
    pub fn patterns(patterns: Vec<String>) -> (r: QueryParams)
        ensures
            r@ == (QueryParamsView {
                patterns: Some(text::views(patterns@)),
                ..QueryParamsView::none()
            }),
    {
        let mut r: QueryParams = QueryParams::default();
        r.patterns = Some(patterns);
        r
    }

    /// A symbol search.
    pub fn symbol(symbol: &str) -> (r: QueryParams)
        ensures
            r@ == (QueryParamsView { symbol: Some(symbol@), ..QueryParamsView::none() }),
    {
        let mut r: QueryParams = QueryParams::default();
        r.symbol = Some(symbol.to_owned());
        r
    }

    /// A section search.
    pub fn section(heading: &str) -> (r: QueryParams)
        ensures
            r@ == (QueryParamsView { section: Some(heading@), ..QueryParamsView::none() }),
    {
        let mut r: QueryParams = QueryParams::default();
        r.section = Some(heading.to_owned());
        r
    }

    /// A search for all children of a parent.
    pub fn parent(parent: &str) -> (r: QueryParams)
        ensures
            r@ == (QueryParamsView { parent: Some(parent@), ..QueryParamsView::none() }),
    {
        let mut r: QueryParams = QueryParams::default();
        r.parent = Some(parent.to_owned());
        r
    }

    /// Sets the parent filter.
    pub fn with_parent(self, parent: &str) -> (r: QueryParams)
        ensures
            r@ == (QueryParamsView { parent: Some(parent@), ..self@ }),
    {
        let mut r: QueryParams = self;
        r.parent = Some(parent.to_owned());
        r
    }

    /// Sets the query kind.
    pub fn with_kind(self, kind: QueryKind) -> (r: QueryParams)
        ensures
            r@ == (QueryParamsView { kind, ..self@ }),
    {
        let mut r: QueryParams = self;
        r.kind = kind;
        r
    }

    /// Filters by file glob.
    pub fn with_glob(self, glob: &str) -> (r: QueryParams)
        ensures
            r@ == (QueryParamsView { glob: Some(glob@), ..self@ }),
    {
        let mut r: QueryParams = self;
        r.glob = Some(glob.to_owned());
        r
    }

    /// Sets the match mode for multi-pattern queries.
    pub fn with_match_mode(self, mode: MatchMode) -> (r: QueryParams)
        ensures
            r@ == (QueryParamsView { match_mode: mode, ..self@ }),
    {
        let mut r: QueryParams = self;
        r.match_mode = mode;
        r
    }

    /// Sets the result limit.
    pub fn with_limit(self, limit: usize) -> (r: QueryParams)
        ensures
            r@ == (QueryParamsView { limit: Some(limit), ..self@ }),
    {
        let mut r: QueryParams = self;
        r.limit = Some(limit);
        r
    }

    /// Sets the expand budget.
    pub fn with_expand_budget(self, budget: usize) -> (r: QueryParams)
        ensures
            r@ == (QueryParamsView { expand_budget: Some(budget), ..self@ }),
    {
        let mut r: QueryParams = self;
        r.expand_budget = Some(budget);
        r
    }

    /// What the parameters ask for, without the glob and the limit.
    fn to_base_query(&self) -> (r: Result<Query, CanopyError>)
        ensures
            match r {
                Ok(q) => base_query(self@) == Ok::<QueryModel, Seq<char>>(q.model()),
                Err(e) => base_query(self@) is Err && is_query_error(
                    e,
                    0,
                    base_query(self@)->Err_0,
                ),
            },
    {
        match self.kind {
            QueryKind::Definition => match &self.symbol {
                Some(symbol) => match &self.parent {
                    Some(parent) => Ok(Query::ChildrenNamed(parent.clone(), symbol.clone())),
                    None => Ok(Query::Definition(symbol.clone())),
                },
                None => Err(params_error("kind parameter requires symbol to be specified")),
            },
            QueryKind::Reference => match &self.symbol {
                Some(symbol) => Ok(Query::References(symbol.clone())),
                None => Err(params_error("kind parameter requires symbol to be specified")),
            },
            QueryKind::Any => {
                if let Some(parent) = &self.parent {
                    match &self.symbol {
                        Some(symbol) => Ok(Query::ChildrenNamed(parent.clone(), symbol.clone())),
                        None => Ok(Query::Children(parent.clone())),
                    }
                } else if let Some(symbol) = &self.symbol {
                    Ok(Query::Code(symbol.clone()))
                } else if let Some(section) = &self.section {
                    Ok(Query::Section(section.clone()))
                } else if let Some(pattern) = &self.pattern {
                    Ok(Query::Grep(pattern.clone()))
                } else if let Some(patterns) = &self.patterns {
                    if patterns.len() == 0 {
                        return Err(params_error("Empty patterns array"));
                    }
                    let queries: Vec<Query> = greps(patterns);
                    proof {
                        lemma_models(queries);
                    }
                    match self.match_mode {
                        MatchMode::Any => Ok(Query::Union(queries)),
                        MatchMode::All => Ok(Query::Intersect(queries)),
                    }
                } else {
                    Err(params_error("Must specify pattern, patterns, symbol, section, or parent"))
                }
            },
        }
    }

    /// The query that the parameters stand for.
    pub fn to_query(&self) -> (r: Result<Query, CanopyError>)
        ensures
            match r {
                Ok(q) => params_query(self@) == Ok::<QueryModel, Seq<char>>(q.model()),
                Err(e) => params_query(self@) is Err && is_query_error(
                    e,
                    0,
                    params_query(self@)->Err_0,
                ),
            },
    {
        let base: Query = match self.to_base_query() {
            Ok(q) => q,
            Err(e) => {
                return Err(e);
            },
        };
        let filtered: Query = match &self.glob {
            Some(glob) => Query::InFile(glob.clone(), Box::new(base)),
            None => base,
        };
        assert(filtered.model() == with_glob(base.model(), self@.glob));
        match self.limit {
            Some(limit) => Ok(Query::Limit(limit, Box::new(filtered))),
            None => Ok(filtered),
        }
    }

    /// The options for executing the query.
    pub fn to_options(&self) -> (r: QueryOptions)
        ensures
            r.limit == self.limit,
            r.expand_budget == self.expand_budget,
    {
        QueryOptions { limit: self.limit, expand_budget: self.expand_budget }
    }
}

/// A full-text search for each pattern.
fn greps(patterns: &Vec<String>) -> (r: Vec<Query>)
    ensures
        models(r@) == Seq::new(
            patterns@.len(),
            |i: int| QueryModel::Grep(text::views(patterns@)[i]),
        ),
{
    let ghost texts = text::views(patterns@);
    let mut queries: Vec<Query> = Vec::new();
    let mut i: usize = 0;
    while i < patterns.len()
        invariant
            i <= patterns@.len(),
            texts == text::views(patterns@),
            models(queries@) == Seq::new(i as nat, |k: int| QueryModel::Grep(texts[k])),
        decreases patterns@.len() - i,
    {
        let q: Query = Query::Grep(patterns[i].clone());
        proof {
            lemma_models_push(queries@, q);
            assert(models(queries@.push(q)) =~= Seq::new(
                (i + 1) as nat,
                |k: int| QueryModel::Grep(texts[k]),
            ));
        }
        queries.push(q);
        i = i + 1;
    }
    queries
}

/// A kind other than `Any` asks for a symbol: without one there is no query,
/// whatever else is given.
pub proof fn law_kind_needs_symbol(p: QueryParamsView)
    requires
        p.kind != QueryKind::Any,
    ensures
        params_query(p) is Ok <==> p.symbol is Some,
{
}

/// Whether parameters stand for a query does not depend on the glob, the limit
/// or the budget; the query has the limit outermost and the glob inside it.
pub proof fn law_limit_outermost(p: QueryParamsView)
    ensures
        params_query(p) is Ok <==> base_query(p) is Ok,
        params_query(p) is Ok && p.limit is Some ==> params_query(p)->Ok_0 == QueryModel::Limit(
            p.limit->0,
            Box::new(with_glob(base_query(p)->Ok_0, p.glob)),
        ),
        params_query(p) is Ok && p.limit is None ==> params_query(p)->Ok_0 == with_glob(
            base_query(p)->Ok_0,
            p.glob,
        ),
{
}

/// The budget does not change the query.
pub proof fn law_budget_irrelevant(p: QueryParamsView, budget: Option<usize>)
    ensures
        params_query((QueryParamsView { expand_budget: budget, ..p })) == params_query(p),
{
}

/// Options for executing queries.
#[derive(Debug)]
pub struct QueryOptions {
    /// In place of the default result limit.
    pub limit: Option<usize>,
    /// Expand results if their tokens fit within this budget.
    pub expand_budget: Option<usize>,
}

impl Default for QueryOptions {
    fn default() -> (r: QueryOptions)
        ensures
            r.limit is None,
            r.expand_budget is None,
    {
        QueryOptions { limit: None, expand_budget: None }
    }
}

impl QueryOptions {
    pub fn new() -> (r: QueryOptions)
        ensures
            r.limit is None,
            r.expand_budget is None,
    {
        QueryOptions::default()
    }

    pub fn with_limit(self, limit: usize) -> (r: QueryOptions)
        ensures
            r == (QueryOptions { limit: Some(limit), ..self }),
    {
        QueryOptions { limit: Some(limit), expand_budget: self.expand_budget }
    }

    pub fn with_expand_budget(self, budget: usize) -> (r: QueryOptions)
        ensures
            r == (QueryOptions { expand_budget: Some(budget), ..self }),
    {
        QueryOptions { limit: self.limit, expand_budget: Some(budget) }
    }
}

/// The budget that is meant where none is named.
pub const DEFAULT_EXPAND_BUDGET: usize = 5000;

/// Query result with handles.
#[derive(Debug)]
pub struct QueryResult {
    pub handles: Vec<Handle>,
    pub ref_handles: Option<Vec<RefHandle>>,
    pub total_tokens: usize,
    pub truncated: bool,
    pub total_matches: usize,
    /// Whether the handles have content.
    pub auto_expanded: bool,
    /// Why they have none, where the budget asked for it.
    pub expand_note: Option<String>,
}

} // verus!
