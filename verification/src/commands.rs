//! What the command line asks for.

use vstd::prelude::*;
use crate::error::CanopyError;
use crate::query;
use crate::query::{MatchMode, QueryModel, QueryKind, QueryOptions, QueryParams, QueryParamsView};
use crate::runtime::QueryInput;
use crate::strings;
use crate::strings::{concat3, join};
use crate::text;
use crate::text::{extend_strings, str_eq};

verus! {

broadcast use {vstd::string::group_string_axioms, vstd::seq::group_seq_axioms};

/// The arguments of a query.
#[derive(Debug)]
pub struct QueryArgs {
    /// An expression.
    pub query: Option<String>,
    pub pattern: Option<String>,
    pub patterns: Option<Vec<String>>,
    pub symbol: Option<String>,
    pub section: Option<String>,
    pub parent: Option<String>,
    /// `definition`, `reference` or `any`.
    pub kind: Option<String>,
    pub glob: Option<String>,
    /// `any` or `all`.
    pub match_mode: Option<String>,
    pub expand_budget: Option<usize>,
    pub limit: Option<usize>,
}

/// The kind of a name: any, unless it is that of another.
pub open spec fn kind_of(name: Seq<char>) -> QueryKind {
    if name == "definition"@ {
        QueryKind::Definition
    } else if name == "reference"@ {
        QueryKind::Reference
    } else {
        QueryKind::Any
    }
}

/// The kind of a name.
pub fn parse_kind(name: &str) -> (r: QueryKind)
    ensures
        r == kind_of(name@),
{
    if str_eq(name, "definition") {
        QueryKind::Definition
    } else if str_eq(name, "reference") {
        QueryKind::Reference
    } else {
        QueryKind::Any
    }
}

/// The match mode of a name: any, unless it is that of all.
pub open spec fn mode_of(name: Seq<char>) -> MatchMode {
    if name == "all"@ {
        MatchMode::All
    } else {
        MatchMode::Any
    }
}

/// The match mode of a name.
pub fn parse_match_mode(name: &str) -> (r: MatchMode)
    ensures
        r == mode_of(name@),
{
    if str_eq(name, "all") {
        MatchMode::All
    } else {
        MatchMode::Any
    }
}

/// The parameters that arguments stand for.
pub open spec fn args_params(args: QueryArgs) -> QueryParamsView {
    QueryParamsView {
        pattern: text::opt_view(args.pattern),
        patterns: query::opt_list(args.patterns),
        symbol: text::opt_view(args.symbol),
        section: text::opt_view(args.section),
        parent: text::opt_view(args.parent),
        kind: match args.kind {
            Some(name) => kind_of(name@),
            None => QueryKind::Any,
        },
        glob: text::opt_view(args.glob),
        match_mode: match args.match_mode {
            Some(name) => mode_of(name@),
            None => MatchMode::Any,
        },
        limit: args.limit,
        expand_budget: args.expand_budget,
    }
}

/// Whether parameters say what to search for.
pub open spec fn has_target(p: QueryParamsView) -> bool {
    p.pattern is Some || p.patterns is Some || p.symbol is Some || p.section is Some
        || p.parent is Some
}

/// The parameters that arguments stand for; an error where they do not say what
/// to search for.
pub fn build_query_params(args: &QueryArgs) -> (r: Result<QueryParams, CanopyError>)
    ensures
        match r {
            Ok(params) => has_target(args_params(*args)) && params@ == args_params(*args),
            Err(e) => !has_target(args_params(*args)) && query::is_query_error(
                e,
                0,
                "Must provide either a query s-expression or --pattern/--symbol/--parent flag"@,
            ),
        },
{
    if args.pattern.is_none() && args.patterns.is_none() && args.symbol.is_none()
        && args.section.is_none() && args.parent.is_none() {
        return Err(
            CanopyError::QueryParse {
                position: 0,
                message:
                    "Must provide either a query s-expression or --pattern/--symbol/--parent flag".to_owned(),
            },
        );
    }
    Ok(
        QueryParams {
            pattern: args.pattern.clone(),
            patterns: match &args.patterns {
                Some(items) => {
                    let mut copy: Vec<String> = Vec::new();
                    extend_strings(&mut copy, items);
                    assert(text::views(copy@) =~= text::views(items@));
                    Some(copy)
                },
                None => None,
            },
            symbol: args.symbol.clone(),
            section: args.section.clone(),
            parent: args.parent.clone(),
            kind: match &args.kind {
                Some(name) => parse_kind(name.as_str()),
                None => QueryKind::Any,
            },
            glob: args.glob.clone(),
            match_mode: match &args.match_mode {
                Some(name) => parse_match_mode(name.as_str()),
                None => MatchMode::Any,
            },
            limit: args.limit,
            expand_budget: args.expand_budget,
        },
    )
}

/// Whether arguments are taken as an expression: one is given, and nothing of
/// what takes its place.
pub open spec fn is_dsl(args: QueryArgs) -> bool {
    args.query is Some && args.pattern is None && args.symbol is None && args.parent is None
}

/// The flags that an expression leaves without effect.
pub open spec fn ignored_names(args: QueryArgs) -> Seq<Seq<char>> {
    (if args.section is Some {
        seq!["--section"@]
    } else {
        Seq::empty()
    }) + (if args.glob is Some {
        seq!["--glob"@]
    } else {
        Seq::empty()
    }) + (if args.kind is Some {
        seq!["--kind"@]
    } else {
        Seq::empty()
    }) + (if args.match_mode is Some {
        seq!["--match"@]
    } else {
        Seq::empty()
    }) + (if args.patterns is Some {
        seq!["--patterns"@]
    } else {
        Seq::empty()
    })
}

/// The warning about flags that an expression leaves without effect, if there
/// are any.
pub fn ignored_warning(args: &QueryArgs) -> (r: Option<String>)
    ensures
        match r {
            Some(warning) => {
                &&& is_dsl(*args) && ignored_names(*args).len() > 0
                &&& warning@ == "Warning: "@ + strings::join_spec(ignored_names(*args), ", "@)
                    + " ignored in DSL query mode. Use structured flags (--pattern/--symbol) or encode in the query expression."@
            },
            None => !is_dsl(*args) || ignored_names(*args).len() == 0,
        },
{
    if !(args.query.is_some() && args.pattern.is_none() && args.symbol.is_none()
        && args.parent.is_none()) {
        return None;
    }
    let mut names: Vec<String> = Vec::new();
    if args.section.is_some() {
        names.push("--section".to_owned());
    }
    if args.glob.is_some() {
        names.push("--glob".to_owned());
    }
    if args.kind.is_some() {
        names.push("--kind".to_owned());
    }
    if args.match_mode.is_some() {
        names.push("--match".to_owned());
    }
    if args.patterns.is_some() {
        names.push("--patterns".to_owned());
    }
    assert(text::views(names@) =~= ignored_names(*args));
    if names.len() == 0 {
        return None;
    }
    Some(
        concat3(
            "Warning: ",
            join(&names, ", ").as_str(),
            " ignored in DSL query mode. Use structured flags (--pattern/--symbol) or encode in the query expression.",
        ),
    )
}

/// The query that arguments stand for: the expression, or the parameters.
pub fn query_input(args: &QueryArgs) -> (r: Result<QueryInput, CanopyError>)
    ensures
        match r {
            Ok(QueryInput::Dsl(dsl, options)) => {
                &&& is_dsl(*args) && text::opt_view(args.query) == Some(dsl@)
                &&& options.limit == args.limit
                &&& options.expand_budget == args.expand_budget
            },
            Ok(QueryInput::Params(params)) => !is_dsl(*args) && has_target(args_params(*args))
                && params@ == args_params(*args),
            Err(e) => !is_dsl(*args) && !has_target(args_params(*args)) && query::is_query_error(
                e,
                0,
                "Must provide either a query s-expression or --pattern/--symbol/--parent flag"@,
            ),
        },
{
    match &args.query {
        Some(dsl) if args.pattern.is_none() && args.symbol.is_none() && args.parent.is_none() => {
            Ok(
                QueryInput::Dsl(
                    dsl.clone(),
                    QueryOptions { limit: args.limit, expand_budget: args.expand_budget },
                ),
            )
        },
        _ => match build_query_params(args) {
            Ok(params) => Ok(QueryInput::Params(params)),
            Err(e) => Err(e),
        },
    }
}

/// What arguments without a glob and a limit look for, by the names that they are given
/// under.
pub proof fn law_args_look_for(args: QueryArgs)
    requires
        args.glob is None && args.limit is None,
    ensures
        ({
            let q = query::params_query(args_params(args));
            &&& args.symbol is Some && args.parent is None ==> {
                &&& args.kind is None ==> q == Ok::<_, Seq<char>>(QueryModel::Code(args.symbol->0@))
                &&& args.kind is Some && args.kind->0@ == "definition"@ ==> q == Ok::<_, Seq<char>>(
                    QueryModel::Definition(args.symbol->0@),
                )
                &&& args.kind is Some && args.kind->0@ == "reference"@ ==> q == Ok::<_, Seq<char>>(
                    QueryModel::References(args.symbol->0@),
                )
            }
            &&& args.symbol is Some && args.parent is Some && args.kind is None ==> q == Ok::<
                _,
                Seq<char>,
            >(QueryModel::ChildrenNamed(args.parent->0@, args.symbol->0@))
            &&& args.symbol is None && args.kind is None ==> {
                &&& args.parent is Some ==> q == Ok::<_, Seq<char>>(
                    QueryModel::Children(args.parent->0@),
                )
                &&& args.parent is None && args.section is Some ==> q == Ok::<_, Seq<char>>(
                    QueryModel::Section(args.section->0@),
                )
                &&& args.parent is None && args.section is None && args.pattern is Some ==> q
                    == Ok::<_, Seq<char>>(QueryModel::Grep(args.pattern->0@))
                &&& args.parent is None && args.section is None && args.pattern is None
                    && args.patterns is Some && args.patterns->0@.len() > 0 ==> {
                    let all = args.match_mode is Some && args.match_mode->0@ == "all"@;
                    &&& q matches Ok(found) && (all ==> found is Intersect) && (!all
                        ==> found is Union)
                }
            }
        }),
{
    reveal_strlit("definition");
    reveal_strlit("reference");
    assert("definition"@.len() == 10);
    assert("reference"@.len() == 9);
}

/// A glob that is given narrows what arguments look for, and a limit bounds that.
pub proof fn law_args_narrow(args: QueryArgs)
    requires
        args.pattern is Some,
        args.symbol is None && args.parent is None && args.section is None && args.kind is None,
    ensures
        ({
            let q = query::params_query(args_params(args));
            let grep = QueryModel::Grep(args.pattern->0@);
            let narrowed = match args.glob {
                Some(glob) => QueryModel::InFile(glob@, Box::new(grep)),
                None => grep,
            };
            q == Ok::<_, Seq<char>>(
                match args.limit {
                    Some(n) => QueryModel::Limit(n, Box::new(narrowed)),
                    None => narrowed,
                },
            )
        }),
{
}

/// The flags that an expression leaves without effect are those that are given of
/// section, glob, kind, match and patterns.
pub proof fn law_ignored_given(args: QueryArgs, name: Seq<char>)
    ensures
        ignored_names(args).contains(name) <==> {
            ||| args.section is Some && name == "--section"@
            ||| args.glob is Some && name == "--glob"@
            ||| args.kind is Some && name == "--kind"@
            ||| args.match_mode is Some && name == "--match"@
            ||| args.patterns is Some && name == "--patterns"@
        },
{
    let a = lemma_flag(args.section is Some, "--section"@, name);
    let b = lemma_flag(args.glob is Some, "--glob"@, name);
    let c = lemma_flag(args.kind is Some, "--kind"@, name);
    let d = lemma_flag(args.match_mode is Some, "--match"@, name);
    let e = lemma_flag(args.patterns is Some, "--patterns"@, name);
    lemma_either(a, b, name);
    lemma_either(a + b, c, name);
    lemma_either(a + b + c, d, name);
    lemma_either(a + b + c + d, e, name);
}

proof fn lemma_flag(given: bool, flag: Seq<char>, name: Seq<char>) -> (r: Seq<Seq<char>>)
    ensures
        r == if given {
            seq![flag]
        } else {
            Seq::empty()
        },
        r.contains(name) <==> given && name == flag,
{
    let r = if given {
        seq![flag]
    } else {
        Seq::empty()
    };
    if given {
        assert(r[0] == flag);
    }
    r
}

proof fn lemma_either(a: Seq<Seq<char>>, b: Seq<Seq<char>>, s: Seq<char>)
    ensures
        (a + b).contains(s) <==> a.contains(s) || b.contains(s),
{
    if a.contains(s) {
        let k = a.index_of(s);
        assert((a + b)[k] == s);
    }
    if b.contains(s) {
        let k = b.index_of(s);
        assert((a + b)[a.len() + k] == s);
    }
    if (a + b).contains(s) {
        let k = (a + b).index_of(s);
        if k < a.len() {
            assert(a[k] == s);
        } else {
            assert(b[k - a.len()] == s);
        }
    }
}

/// An expression is taken where it is given and nothing that takes its place is: neither a
/// pattern, nor a symbol, nor a parent.
pub proof fn law_expression_taken(args: QueryArgs)
    ensures
        is_dsl(args) ==> args.query is Some,
        args.pattern is Some || args.symbol is Some || args.parent is Some ==> !is_dsl(args),
        args.query is Some && !is_dsl(args) ==> has_target(args_params(args)),
        args.query is Some && !(args.pattern is Some || args.symbol is Some || args.parent is Some)
            ==> is_dsl(args),
{
}

} // verus!
