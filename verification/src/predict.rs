//! Path prediction from the words of a query, for indexing on demand.

use vstd::prelude::*;
use crate::json;
use crate::json::{JsonField, JsonFieldView, JsonObject};
use crate::sorting;
use crate::sorting::sorted_distinct;
use crate::strings;
use crate::strings::{
    concat, concat3, contains, contains_char, find_char, join, matches_at, split_char,
    to_lowercase, trim,
};
use crate::text;
use crate::text::{from_chars, to_chars};

verus! {

broadcast use {vstd::string::group_string_axioms, vstd::seq::group_seq_axioms};

/// Repositories with more files than this are indexed by prediction, not whole.
pub const LARGE_REPO_THRESHOLD: usize = 1000;

/// How many files a predictive pass indexes, at which it stops.
pub const MAX_PREDICTIVE_FILES: usize = 500;

/// Words of a query, and the directories that they point to.
#[derive(Debug)]
pub struct KeywordGroup {
    pub keywords: Vec<&'static str>,
    pub patterns: Vec<&'static str>,
}

/// The view of a [`KeywordGroup`].
#[verifier::ext_equal]
pub struct GroupView {
    pub keywords: Seq<Seq<char>>,
    pub patterns: Seq<Seq<char>>,
}

impl View for KeywordGroup {
    type V = GroupView;

    open spec fn view(&self) -> GroupView {
        GroupView { keywords: text::views(self.keywords@), patterns: text::views(self.patterns@) }
    }
}

/// Authentication.
pub open spec fn auth_group() -> GroupView {
    GroupView {
        keywords: seq![
            "auth"@,
            "login"@,
            "logout"@,
            "session"@,
            "jwt"@,
            "oauth"@,
            "password"@,
            "credential"@,
        ],
        patterns: seq![
            "**/auth/**"@,
            "**/login/**"@,
            "**/session/**"@,
            "**/authentication/**"@,
        ],
    }
}

/// Databases.
pub open spec fn database_group() -> GroupView {
    GroupView {
        keywords: seq![
            "database"@,
            "db"@,
            "query"@,
            "sql"@,
            "orm"@,
            "repository"@,
            "migration"@,
        ],
        patterns: seq![
            "**/db/**"@,
            "**/database/**"@,
            "**/repositories/**"@,
            "**/repo/**"@,
        ],
    }
}

/// Interfaces.
pub open spec fn api_group() -> GroupView {
    GroupView {
        keywords: seq![
            "api"@,
            "endpoint"@,
            "route"@,
            "controller"@,
            "handler"@,
            "rest"@,
            "graphql"@,
        ],
        patterns: seq![
            "**/api/**"@,
            "**/routes/**"@,
            "**/controllers/**"@,
            "**/handlers/**"@,
            "**/endpoints/**"@,
        ],
    }
}

/// Configuration.
pub open spec fn config_group() -> GroupView {
    GroupView {
        keywords: seq![
            "config"@,
            "configuration"@,
            "env"@,
            "settings"@,
            "options"@,
        ],
        patterns: seq![
            "**/config/**"@,
            "**/settings/**"@,
            "**/conf/**"@,
        ],
    }
}

/// Middleware.
pub open spec fn middleware_group() -> GroupView {
    GroupView {
        keywords: seq![
            "middleware"@,
            "interceptor"@,
            "filter"@,
            "guard"@,
        ],
        patterns: seq![
            "**/middleware/**"@,
            "**/middlewares/**"@,
            "**/interceptors/**"@,
            "**/guards/**"@,
        ],
    }
}

/// Workflows and execution.
pub open spec fn workflow_group() -> GroupView {
    GroupView {
        keywords: seq![
            "workflow"@,
            "execution"@,
            "engine"@,
            "runner"@,
            "worker"@,
            "job"@,
            "queue"@,
        ],
        patterns: seq![
            "**/workflow/**"@,
            "**/workflows/**"@,
            "**/execution/**"@,
            "**/engine/**"@,
            "**/workers/**"@,
            "**/jobs/**"@,
        ],
    }
}

/// Core and shared code.
pub open spec fn core_group() -> GroupView {
    GroupView {
        keywords: seq![
            "core"@,
            "shared"@,
            "common"@,
            "utils"@,
            "helpers"@,
            "lib"@,
        ],
        patterns: seq![
            "**/core/**"@,
            "**/shared/**"@,
            "**/common/**"@,
            "**/utils/**"@,
            "**/lib/**"@,
        ],
    }
}

/// The service layer.
pub open spec fn service_group() -> GroupView {
    GroupView {
        keywords: seq![
            "service"@,
            "services"@,
        ],
        patterns: seq![
            "**/services/**"@,
            "**/service/**"@,
        ],
    }
}

/// The words that count, with the directories that they point to.
pub open spec fn groups() -> Seq<GroupView> {
    seq![
        auth_group(),
        database_group(),
        api_group(),
        config_group(),
        middleware_group(),
        workflow_group(),
        core_group(),
        service_group(),
    ]
}

fn auth_keywords() -> (r: KeywordGroup)
    ensures
        r@ == auth_group(),
{
    let r: KeywordGroup = KeywordGroup {
        keywords: vec![
            "auth",
            "login",
            "logout",
            "session",
            "jwt",
            "oauth",
            "password",
            "credential",
        ],
        patterns: vec![
            "**/auth/**",
            "**/login/**",
            "**/session/**",
            "**/authentication/**",
        ],
    };
    assert(r@ =~= auth_group());
    r
}

fn database_keywords() -> (r: KeywordGroup)
    ensures
        r@ == database_group(),
{
    let r: KeywordGroup = KeywordGroup {
        keywords: vec![
            "database",
            "db",
            "query",
            "sql",
            "orm",
            "repository",
            "migration",
        ],
        patterns: vec![
            "**/db/**",
            "**/database/**",
            "**/repositories/**",
            "**/repo/**",
        ],
    };
    assert(r@ =~= database_group());
    r
}

fn api_keywords() -> (r: KeywordGroup)
    ensures
        r@ == api_group(),
{
    let r: KeywordGroup = KeywordGroup {
        keywords: vec![
            "api",
            "endpoint",
            "route",
            "controller",
            "handler",
            "rest",
            "graphql",
        ],
        patterns: vec![
            "**/api/**",
            "**/routes/**",
            "**/controllers/**",
            "**/handlers/**",
            "**/endpoints/**",
        ],
    };
    assert(r@ =~= api_group());
    r
}

fn config_keywords() -> (r: KeywordGroup)
    ensures
        r@ == config_group(),
{
    let r: KeywordGroup = KeywordGroup {
        keywords: vec![
            "config",
            "configuration",
            "env",
            "settings",
            "options",
        ],
        patterns: vec![
            "**/config/**",
            "**/settings/**",
            "**/conf/**",
        ],
    };
    assert(r@ =~= config_group());
    r
}

fn middleware_keywords() -> (r: KeywordGroup)
    ensures
        r@ == middleware_group(),
{
    let r: KeywordGroup = KeywordGroup {
        keywords: vec![
            "middleware",
            "interceptor",
            "filter",
            "guard",
        ],
        patterns: vec![
            "**/middleware/**",
            "**/middlewares/**",
            "**/interceptors/**",
            "**/guards/**",
        ],
    };
    assert(r@ =~= middleware_group());
    r
}

fn workflow_keywords() -> (r: KeywordGroup)
    ensures
        r@ == workflow_group(),
{
    let r: KeywordGroup = KeywordGroup {
        keywords: vec![
            "workflow",
            "execution",
            "engine",
            "runner",
            "worker",
            "job",
            "queue",
        ],
        patterns: vec![
            "**/workflow/**",
            "**/workflows/**",
            "**/execution/**",
            "**/engine/**",
            "**/workers/**",
            "**/jobs/**",
        ],
    };
    assert(r@ =~= workflow_group());
    r
}

fn core_keywords() -> (r: KeywordGroup)
    ensures
        r@ == core_group(),
{
    let r: KeywordGroup = KeywordGroup {
        keywords: vec![
            "core",
            "shared",
            "common",
            "utils",
            "helpers",
            "lib",
        ],
        patterns: vec![
            "**/core/**",
            "**/shared/**",
            "**/common/**",
            "**/utils/**",
            "**/lib/**",
        ],
    };
    assert(r@ =~= core_group());
    r
}

fn service_keywords() -> (r: KeywordGroup)
    ensures
        r@ == service_group(),
{
    let r: KeywordGroup = KeywordGroup {
        keywords: vec![
            "service",
            "services",
        ],
        patterns: vec![
            "**/services/**",
            "**/service/**",
        ],
    };
    assert(r@ =~= service_group());
    r
}

/// The words that count, with the directories that they point to.
pub fn keyword_groups() -> (r: Vec<KeywordGroup>)
    ensures
        text::views(r@) == groups(),
{
    let r: Vec<KeywordGroup> = vec![
        auth_keywords(),
        database_keywords(),
        api_keywords(),
        config_keywords(),
        middleware_keywords(),
        workflow_keywords(),
        core_keywords(),
        service_keywords(),
    ];
    assert(text::views(r@) =~= groups());
    r
}

/// Whether one of the words is in the query.
pub open spec fn is_hit(query_lower: Seq<char>, keywords: Seq<Seq<char>>) -> bool {
    exists|i: int|
        0 <= i < keywords.len() && strings::contains_spec(query_lower, #[trigger] keywords[i])
}

/// The files with one of the extensions in the directories of a pattern.
pub open spec fn pattern_globs(pattern: Seq<char>, extensions: Seq<Seq<char>>) -> Seq<Seq<char>> {
    Seq::new(extensions.len(), |i: int| pattern + "/*."@ + extensions[i])
}

/// The files with one of the extensions in the directories of the patterns.
pub open spec fn all_pattern_globs(
    patterns: Seq<Seq<char>>,
    extensions: Seq<Seq<char>>,
) -> Seq<Seq<char>>
    decreases patterns.len(),
{
    if patterns.len() == 0 {
        Seq::empty()
    } else {
        all_pattern_globs(patterns.drop_last(), extensions) + pattern_globs(
            patterns.last(),
            extensions,
        )
    }
}

/// The globs of the groups that have a word in the query.
pub open spec fn hit_globs(
    query_lower: Seq<char>,
    found: Seq<GroupView>,
    extensions: Seq<Seq<char>>,
) -> Seq<Seq<char>>
    decreases found.len(),
{
    if found.len() == 0 {
        Seq::empty()
    } else {
        let before = hit_globs(query_lower, found.drop_last(), extensions);
        if is_hit(query_lower, found.last().keywords) {
            before + all_pattern_globs(found.last().patterns, extensions)
        } else {
            before
        }
    }
}

/// Whether any group has a word in the query.
pub open spec fn any_hit(query_lower: Seq<char>, found: Seq<GroupView>) -> bool {
    exists|i: int| 0 <= i < found.len() && is_hit(query_lower, (#[trigger] found[i]).keywords)
}

/// The entry points with one of the extensions.
pub open spec fn entry_globs(extensions: Seq<Seq<char>>) -> Seq<Seq<char>>
    decreases extensions.len(),
{
    if extensions.len() == 0 {
        Seq::empty()
    } else {
        let ext = extensions.last();
        entry_globs(extensions.drop_last()) + seq![
            "**/main."@ + ext,
            "**/index."@ + ext,
            "**/app."@ + ext,
            "**/server."@ + ext,
        ]
    }
}

/// Where to look if no word of the query counts.
pub open spec fn fallback_globs(extensions: Seq<Seq<char>>) -> Seq<Seq<char>>
    decreases extensions.len(),
{
    if extensions.len() == 0 {
        Seq::empty()
    } else {
        let ext = extensions.last();
        fallback_globs(extensions.drop_last()) + seq![
            "src/**/*."@ + ext,
            "packages/**/*."@ + ext,
        ]
    }
}

/// The globs that a query points to: those of its words, the entry points, and
/// the usual source directories where no word counts.
pub open spec fn candidates(query_lower: Seq<char>, extensions: Seq<Seq<char>>) -> Seq<Seq<char>> {
    hit_globs(query_lower, groups(), extensions) + entry_globs(extensions) + (if any_hit(
        query_lower,
        groups(),
    ) {
        Seq::empty()
    } else {
        fallback_globs(extensions)
    })
}

fn hit(query_lower: &str, keywords: &Vec<&'static str>) -> (r: bool)
    ensures
        r == is_hit(query_lower@, text::views(keywords@)),
{
    let ghost all = text::views(keywords@);
    let mut i: usize = 0;
    while i < keywords.len()
        invariant
            i <= keywords@.len(),
            all == text::views(keywords@),
            forall|k: int|
                0 <= k < i ==> !strings::contains_spec(query_lower@, #[trigger] all[k]),
        decreases keywords@.len() - i,
    {
        assert(all[i as int] == keywords@[i as int]@);
        if contains(query_lower, keywords[i]) {
            return true;
        }
        i = i + 1;
    }
    false
}

/// Adds the globs of a pattern to a list.
fn add_pattern(list: &mut Vec<String>, pattern: &str, extensions: &Vec<String>)
    ensures
        text::views(final(list)@) == text::views(old(list)@) + pattern_globs(
            pattern@,
            text::views(extensions@),
        ),
{
    let ghost start = text::views(list@);
    let ghost all = pattern_globs(pattern@, text::views(extensions@));
    let mut i: usize = 0;
    assert(text::views(list@) =~= start + all.take(0));
    while i < extensions.len()
        invariant
            i <= extensions@.len(),
            all == pattern_globs(pattern@, text::views(extensions@)),
            text::views(list@) == start + all.take(i as int),
        decreases extensions@.len() - i,
    {
        let glob: String = concat3(pattern, "/*.", extensions[i].as_str());
        proof {
            text::lemma_views_push(list@, glob);
            assert(all.take(i + 1) =~= all.take(i as int).push(glob@));
            assert((start + all.take(i as int)).push(glob@) =~= start + all.take(i + 1));
        }
        list.push(glob);
        i = i + 1;
    }
    assert(all.take(extensions@.len() as int) =~= all);
}

/// Adds the globs of a group to a list.
fn add_group(list: &mut Vec<String>, patterns: &Vec<&'static str>, extensions: &Vec<String>)
    ensures
        text::views(final(list)@) == text::views(old(list)@) + all_pattern_globs(
            text::views(patterns@),
            text::views(extensions@),
        ),
{
    let ghost start = text::views(list@);
    let ghost all = text::views(patterns@);
    let ghost exts = text::views(extensions@);
    let mut i: usize = 0;
    assert(start =~= start + all_pattern_globs(all.take(0), exts));
    while i < patterns.len()
        invariant
            i <= patterns@.len(),
            all == text::views(patterns@),
            exts == text::views(extensions@),
            text::views(list@) == start + all_pattern_globs(all.take(i as int), exts),
        decreases patterns@.len() - i,
    {
        add_pattern(list, patterns[i], extensions);
        proof {
            assert(all.take(i + 1).drop_last() =~= all.take(i as int));
            assert(all.take(i + 1).last() == patterns@[i as int]@);
            assert(start + all_pattern_globs(all.take(i as int), exts) + pattern_globs(
                patterns@[i as int]@,
                exts,
            ) =~= start + all_pattern_globs(all.take(i + 1), exts));
        }
        i = i + 1;
    }
    assert(all.take(patterns@.len() as int) =~= all);
}

/// Adds the entry points to a list.
fn add_entries(list: &mut Vec<String>, extensions: &Vec<String>)
    ensures
        text::views(final(list)@) == text::views(old(list)@) + entry_globs(
            text::views(extensions@),
        ),
{
    let ghost start = text::views(list@);
    let ghost all = text::views(extensions@);
    let mut i: usize = 0;
    assert(start =~= start + entry_globs(all.take(0)));
    while i < extensions.len()
        invariant
            i <= extensions@.len(),
            all == text::views(extensions@),
            text::views(list@) == start + entry_globs(all.take(i as int)),
        decreases extensions@.len() - i,
    {
        let ext: &str = extensions[i].as_str();
        let ghost before = text::views(list@);
        list.push(concat("**/main.", ext));
        list.push(concat("**/index.", ext));
        list.push(concat("**/app.", ext));
        list.push(concat("**/server.", ext));
        proof {
            assert(all.take(i + 1).drop_last() =~= all.take(i as int));
            assert(all.take(i + 1).last() == ext@);
            assert(text::views(list@) =~= before + seq![
                "**/main."@ + ext@,
                "**/index."@ + ext@,
                "**/app."@ + ext@,
                "**/server."@ + ext@,
            ]);
            assert(text::views(list@) =~= start + entry_globs(all.take(i + 1)));
        }
        i = i + 1;
    }
    assert(all.take(extensions@.len() as int) =~= all);
}

/// Adds the usual source directories to a list.
fn add_fallback(list: &mut Vec<String>, extensions: &Vec<String>)
    ensures
        text::views(final(list)@) == text::views(old(list)@) + fallback_globs(
            text::views(extensions@),
        ),
{
    let ghost start = text::views(list@);
    let ghost all = text::views(extensions@);
    let mut i: usize = 0;
    assert(start =~= start + fallback_globs(all.take(0)));
    while i < extensions.len()
        invariant
            i <= extensions@.len(),
            all == text::views(extensions@),
            text::views(list@) == start + fallback_globs(all.take(i as int)),
        decreases extensions@.len() - i,
    {
        let ext: &str = extensions[i].as_str();
        let ghost before = text::views(list@);
        list.push(concat("src/**/*.", ext));
        list.push(concat("packages/**/*.", ext));
        proof {
            assert(all.take(i + 1).drop_last() =~= all.take(i as int));
            assert(all.take(i + 1).last() == ext@);
            assert(text::views(list@) =~= before + seq![
                "src/**/*."@ + ext@,
                "packages/**/*."@ + ext@,
            ]);
            assert(text::views(list@) =~= start + fallback_globs(all.take(i + 1)));
        }
        i = i + 1;
    }
    assert(all.take(extensions@.len() as int) =~= all);
}

/// Predicts globs from a query in lower case: what it points to, in order and
/// without repetition.
pub fn predict_globs_lower(query_lower: &str, extensions: &Vec<String>) -> (r: Vec<String>)
    ensures
        sorting::ascending(text::views(r@)),
        sorting::same_items(text::views(r@), candidates(query_lower@, text::views(extensions@))),
{
    let found: Vec<KeywordGroup> = keyword_groups();
    let ghost all = groups();
    let ghost exts = text::views(extensions@);
    let mut list: Vec<String> = Vec::new();
    let mut matched_any: bool = false;
    let mut i: usize = 0;
    assert(text::views(list@) =~= hit_globs(query_lower@, all.take(0), exts));
    while i < found.len()
        invariant
            i <= found@.len(),
            all == text::views(found@),
            exts == text::views(extensions@),
            matched_any == any_hit(query_lower@, all.take(i as int)),
            text::views(list@) == hit_globs(query_lower@, all.take(i as int), exts),
        decreases found@.len() - i,
    {
        let ghost seen = all.take(i as int);
        let ghost now = all.take(i + 1);
        let ghost before = matched_any;
        proof {
            assert(now.drop_last() =~= seen);
            assert(now.last() == found@[i as int]@);
        }
        if hit(query_lower, &found[i].keywords) {
            matched_any = true;
            add_group(&mut list, &found[i].patterns, extensions);
        }
        proof {
            assert(now[i as int] == found@[i as int]@);
            if before {
                let k = choose|k: int|
                    0 <= k < seen.len() && is_hit(query_lower@, (#[trigger] seen[k]).keywords);
                assert(now[k] == seen[k]);
            }
            if any_hit(query_lower@, now) {
                let k = choose|k: int|
                    0 <= k < now.len() && is_hit(query_lower@, (#[trigger] now[k]).keywords);
                if k < i {
                    assert(seen[k] == now[k]);
                }
            }
        }
        i = i + 1;
    }
    assert(all.take(found@.len() as int) =~= all);
    add_entries(&mut list, extensions);
    if !matched_any {
        add_fallback(&mut list, extensions);
    }
    assert(text::views(list@) =~= candidates(query_lower@, exts));
    sorted_distinct(&list)
}

/// Predicts globs from the words of a query, such as `**/auth/**/*.ts`: what
/// they point to, in order and without repetition.
pub fn predict_globs(query: &str, extensions: &Vec<String>) -> (r: Vec<String>)
    ensures
        sorting::ascending(text::views(r@)),
        sorting::same_items(
            text::views(r@),
            candidates(strings::lowercase(query@), text::views(extensions@)),
        ),
{
    let query_lower: String = to_lowercase(query);
    predict_globs_lower(query_lower.as_str(), extensions)
}

// ---------------------------------------------------------------------------
// Ranking by feedback
// ---------------------------------------------------------------------------

/// The score of the glob at an index; zero for one without a score.
pub open spec fn score_at(scores: Seq<Option<i64>>, i: int) -> i64 {
    if 0 <= i < scores.len() {
        match scores[i] {
            Some(score) => score,
            None => 0,
        }
    } else {
        0
    }
}

/// Whether the glob at index `a` ranks before that at `b`: it has the higher
/// score, or the same and comes first.
pub open spec fn ranks_before(scores: Seq<Option<i64>>, a: int, b: int) -> bool {
    score_at(scores, a) > score_at(scores, b) || (score_at(scores, a) == score_at(scores, b) && a
        < b)
}

/// Whether `order` names each index below its length, the ones that rank
/// before others first.
pub open spec fn is_ranking(order: Seq<int>, scores: Seq<Option<i64>>) -> bool {
    &&& forall|i: int| 0 <= i < order.len() ==> 0 <= #[trigger] order[i] < order.len()
    &&& forall|i: int, j: int|
        0 <= i < j < order.len() ==> #[trigger] ranks_before(scores, order[i], order[j])
}

/// The items at the indices, in their order.
pub open spec fn picked(items: Seq<Seq<char>>, order: Seq<int>) -> Seq<Seq<char>> {
    Seq::new(order.len(), |i: int| items[order[i]])
}

/// Whether `ranked` is the items, the ones that rank before others first.
pub open spec fn is_ranked(
    ranked: Seq<Seq<char>>,
    items: Seq<Seq<char>>,
    scores: Seq<Option<i64>>,
) -> bool {
    exists|order: Seq<int>| #[trigger]
        is_ranking(order, scores) && order.len() == items.len() && ranked == picked(items, order)
}

fn score_of(scores: &Vec<Option<i64>>, i: usize) -> (r: i64)
    ensures
        r == score_at(scores@, i as int),
{
    if i < scores.len() {
        match scores[i] {
            Some(score) => score,
            None => 0,
        }
    } else {
        0
    }
}

/// The indices below `n` as [`is_ranking`] asks for.
fn rank_order(scores: &Vec<Option<i64>>, n: usize) -> (r: Vec<usize>)
    ensures
        r@.len() == n,
        is_ranking(r@.map_values(|i: usize| i as int), scores@),
{
    let mut order: Vec<usize> = Vec::new();
    let mut i: usize = 0;
    while i < n
        invariant
            i <= n,
            order@.len() == i,
            forall|k: int| 0 <= k < i ==> #[trigger] order@[k] < i,
            forall|j: int, k: int|
                0 <= j < k < i ==> #[trigger] ranks_before(
                    scores@,
                    order@[j] as int,
                    order@[k] as int,
                ),
        decreases n - i,
    {
        let score: i64 = score_of(scores, i);
        let ghost before = order@;
        let mut p: usize = i;
        while p > 0 && score_of(scores, order[p - 1]) < score
            invariant
                p <= i,
                order@ == before,
                order@.len() == i,
                score == score_at(scores@, i as int),
                forall|k: int|
                    p <= k < i ==> score_at(scores@, #[trigger] order@[k] as int) < score,
            decreases p,
        {
            p = p - 1;
        }
        proof {
            assert forall|k: int| 0 <= k < p implies score_at(
                scores@,
                #[trigger] before[k] as int,
            ) >= score by {
                if k < p - 1 {
                    assert(ranks_before(scores@, before[k] as int, before[p - 1] as int));
                }
            }
        }
        order.insert(p, i);
        proof {
            let now = order@;
            assert forall|j: int, k: int| 0 <= j < k < i + 1 implies #[trigger] ranks_before(
                scores@,
                now[j] as int,
                now[k] as int,
            ) by {
                if j != p && k != p {
                    let a = if j < p {
                        j
                    } else {
                        j - 1
                    };
                    let b = if k < p {
                        k
                    } else {
                        k - 1
                    };
                    assert(now[j] == before[a] && now[k] == before[b]);
                    assert(ranks_before(scores@, before[a] as int, before[b] as int));
                } else if j == p {
                    assert(now[k] == before[k - 1]);
                } else {
                    assert(now[j] == before[j]);
                }
            }
            assert forall|k: int| 0 <= k < i + 1 implies #[trigger] now[k] < i + 1 by {
                if k < p {
                    assert(now[k] == before[k]);
                } else if k > p {
                    assert(now[k] == before[k - 1]);
                }
            }
        }
        i = i + 1;
    }
    proof {
        let ints = order@.map_values(|i: usize| i as int);
        assert forall|j: int, k: int| 0 <= j < k < ints.len() implies #[trigger] ranks_before(
            scores@,
            ints[j],
            ints[k],
        ) by {
            assert(ranks_before(scores@, order@[j] as int, order@[k] as int));
        }
    }
    order
}

/// Puts the globs with the higher scores first, and leaves those with the same
/// score as they were. A score is an integer that orders as the number does for
/// which it stands; a glob that has none counts as zero.
pub fn rerank_globs(globs: &Vec<String>, scores: &Vec<Option<i64>>) -> (r: Vec<String>)
    ensures
        is_ranked(text::views(r@), text::views(globs@), scores@),
{
    let order: Vec<usize> = rank_order(scores, globs.len());
    let ghost ints = order@.map_values(|i: usize| i as int);
    let mut ranked: Vec<String> = Vec::new();
    let mut i: usize = 0;
    while i < order.len()
        invariant
            i <= order@.len(),
            order@.len() == globs@.len(),
            ints == order@.map_values(|i: usize| i as int),
            is_ranking(ints, scores@),
            ranked@.len() == i,
            forall|k: int| 0 <= k < i ==> (#[trigger] ranked@[k])@ == globs@[ints[k]]@,
        decreases order@.len() - i,
    {
        assert(ints[i as int] == order@[i as int]);
        ranked.push(globs[order[i]].clone());
        i = i + 1;
    }
    assert(text::views(ranked@) =~= picked(text::views(globs@), ints));
    ranked
}

/// There is one way to rank: two rankings of the same length are equal.
pub proof fn law_ranking_unique(a: Seq<int>, b: Seq<int>, scores: Seq<Option<i64>>)
    requires
        is_ranking(a, scores),
        is_ranking(b, scores),
        a.len() == b.len(),
    ensures
        a == b,
{
    assert forall|k: int| 0 <= k < a.len() implies a[k] == b[k] by {
        lemma_ranking_prefix(a, b, scores, k + 1);
    }
    assert(a =~= b);
}

proof fn lemma_ranking_prefix(a: Seq<int>, b: Seq<int>, scores: Seq<Option<i64>>, n: int)
    requires
        is_ranking(a, scores),
        is_ranking(b, scores),
        a.len() == b.len(),
        0 <= n <= a.len(),
    ensures
        forall|k: int| 0 <= k < n ==> a[k] == b[k],
    decreases n,
{
    if n > 0 {
        lemma_ranking_prefix(a, b, scores, n - 1);
        let i = lemma_ranking_covers(b, scores, a[n - 1]);
        let j = lemma_ranking_covers(a, scores, b[n - 1]);
        if a[n - 1] != b[n - 1] {
            if i < n - 1 {
                assert(ranks_before(scores, a[i], a[n - 1]));
            }
            if j < n - 1 {
                assert(ranks_before(scores, b[j], b[n - 1]));
            }
            assert(ranks_before(scores, b[n - 1], b[i]));
            assert(ranks_before(scores, a[n - 1], a[j]));
        }
    }
}

/// A ranking names each index.
proof fn lemma_ranking_covers(order: Seq<int>, scores: Seq<Option<i64>>, index: int) -> (at: int)
    requires
        is_ranking(order, scores),
        0 <= index < order.len(),
    ensures
        0 <= at < order.len() && order[at] == index,
{
    let named = order.to_set();
    let wanted = vstd::set_lib::set_int_range(0, order.len() as int);
    assert(order.no_duplicates()) by {
        assert forall|i: int, j: int|
            0 <= i < order.len() && 0 <= j < order.len() && i != j implies order[i]
            != order[j] by {
            if i < j {
                assert(ranks_before(scores, order[i], order[j]));
            } else {
                assert(ranks_before(scores, order[j], order[i]));
            }
        }
    }
    order.unique_seq_to_set();
    vstd::set_lib::lemma_int_range(0, order.len() as int);
    assert(named.subset_of(wanted));
    vstd::set_lib::lemma_subset_equality(named, wanted);
    assert(named.contains(index));
    choose|at: int| 0 <= at < order.len() && order[at] == index
}

/// Without scores, nothing moves.
pub proof fn law_unscored_stay(globs: Seq<Seq<char>>, ranked: Seq<Seq<char>>)
    requires
        is_ranked(ranked, globs, Seq::empty()),
    ensures
        ranked == globs,
{
    let none = Seq::<Option<i64>>::empty();
    let order = choose|order: Seq<int>| #[trigger]
        is_ranking(order, none) && order.len() == globs.len() && ranked == picked(globs, order);
    let same = Seq::new(globs.len(), |i: int| i);
    assert(is_ranking(same, none));
    law_ranking_unique(order, same, none);
    assert(ranked =~= globs);
}

/// Every prediction has the entry points with each of the extensions.
pub proof fn law_entry_points_predicted(
    query_lower: Seq<char>,
    extensions: Seq<Seq<char>>,
    ext: Seq<char>,
)
    requires
        extensions.contains(ext),
    ensures
        candidates(query_lower, extensions).contains("**/main."@ + ext),
        candidates(query_lower, extensions).contains("**/index."@ + ext),
        candidates(query_lower, extensions).contains("**/app."@ + ext),
        candidates(query_lower, extensions).contains("**/server."@ + ext),
{
    lemma_entry_globs(extensions, ext);
    let entries = entry_globs(extensions);
    let all = candidates(query_lower, extensions);
    let n = hit_globs(query_lower, groups(), extensions).len();
    assert forall|g: Seq<char>| #[trigger] entries.contains(g) implies all.contains(g) by {
        let k = choose|k: int| 0 <= k < entries.len() && entries[k] == g;
        assert(all[n + k] == g);
    }
}

proof fn lemma_entry_globs(extensions: Seq<Seq<char>>, ext: Seq<char>)
    requires
        extensions.contains(ext),
    ensures
        entry_globs(extensions).contains("**/main."@ + ext),
        entry_globs(extensions).contains("**/index."@ + ext),
        entry_globs(extensions).contains("**/app."@ + ext),
        entry_globs(extensions).contains("**/server."@ + ext),
    decreases extensions.len(),
{
    let rest = extensions.drop_last();
    let before = entry_globs(rest);
    let all = entry_globs(extensions);
    let k = choose|k: int| 0 <= k < extensions.len() && extensions[k] == ext;
    let n = before.len() as int;
    if k == extensions.len() - 1 {
        assert(all[n] == "**/main."@ + ext);
        assert(all[n + 1] == "**/index."@ + ext);
        assert(all[n + 2] == "**/app."@ + ext);
        assert(all[n + 3] == "**/server."@ + ext);
    } else {
        assert(rest[k] == ext);
        lemma_entry_globs(rest, ext);
        assert forall|g: Seq<char>| #[trigger] before.contains(g) implies all.contains(g) by {
            let j = choose|j: int| 0 <= j < before.len() && before[j] == g;
            assert(all[j] == g);
        }
    }
}

/// Whether a word stands somewhere in a text.
pub open spec fn has_word(s: Seq<char>, word: Seq<char>) -> bool {
    exists|at: int|
        0 <= at && at + word.len() <= s.len() && #[trigger] s.subrange(at, at + word.len()) == word
}

/// Whether a group has a word that stands in the query.
pub open spec fn points(group: GroupView, query_lower: Seq<char>) -> bool {
    exists|k: int|
        0 <= k < group.keywords.len() && has_word(query_lower, #[trigger] group.keywords[k])
}

/// Whether a glob is for the files with one of the extensions in one of the
/// directories of a group.
pub open spec fn is_glob_of(glob: Seq<char>, group: GroupView, extensions: Seq<Seq<char>>) -> bool {
    exists|k: int, e: int|
        0 <= k < group.patterns.len() && 0 <= e < extensions.len() && glob == (
        #[trigger] group.patterns[k]) + "/*."@ + #[trigger] extensions[e]
}

/// Whether a glob is for an entry point with one of the extensions.
pub open spec fn is_entry_glob(glob: Seq<char>, extensions: Seq<Seq<char>>) -> bool {
    exists|e: int|
        0 <= e < extensions.len() && {
            let ext = #[trigger] extensions[e];
            glob == "**/main."@ + ext || glob == "**/index."@ + ext || glob == "**/app."@ + ext
                || glob == "**/server."@ + ext
        }
}

/// Whether a glob is for the usual source directories with one of the extensions.
pub open spec fn is_source_glob(glob: Seq<char>, extensions: Seq<Seq<char>>) -> bool {
    exists|e: int|
        0 <= e < extensions.len() && {
            let ext = #[trigger] extensions[e];
            glob == "src/**/*."@ + ext || glob == "packages/**/*."@ + ext
        }
}

proof fn lemma_hit_points(group: GroupView, query_lower: Seq<char>)
    ensures
        is_hit(query_lower, group.keywords) <==> points(group, query_lower),
{
    assert forall|word: Seq<char>|
        strings::contains_spec(query_lower, word) <==> #[trigger] has_word(query_lower, word) by {
        if strings::contains_spec(query_lower, word) {
            let at = choose|at: int| #[trigger] strings::occurs_at(query_lower, word, at);
            assert(query_lower.subrange(at, at + word.len()) == word);
        }
        if has_word(query_lower, word) {
            let at = choose|at: int|
                0 <= at && at + word.len() <= query_lower.len() && #[trigger] query_lower.subrange(
                    at,
                    at + word.len(),
                ) == word;
            assert(strings::occurs_at(query_lower, word, at));
        }
    }
    if is_hit(query_lower, group.keywords) {
        let k = choose|k: int|
            0 <= k < group.keywords.len() && strings::contains_spec(
                query_lower,
                #[trigger] group.keywords[k],
            );
        assert(has_word(query_lower, group.keywords[k]));
    }
    if points(group, query_lower) {
        let k = choose|k: int|
            0 <= k < group.keywords.len() && has_word(query_lower, #[trigger] group.keywords[k]);
        assert(strings::contains_spec(query_lower, group.keywords[k]));
    }
}

proof fn lemma_contains_add(a: Seq<Seq<char>>, b: Seq<Seq<char>>, glob: Seq<char>)
    ensures
        (a + b).contains(glob) <==> a.contains(glob) || b.contains(glob),
{
    if a.contains(glob) {
        let k = a.index_of(glob);
        assert((a + b)[k] == glob);
    }
    if b.contains(glob) {
        let k = b.index_of(glob);
        assert((a + b)[a.len() + k] == glob);
    }
    if (a + b).contains(glob) {
        let k = (a + b).index_of(glob);
        if k < a.len() {
            assert(a[k] == glob);
        } else {
            assert(b[k - a.len()] == glob);
        }
    }
}

proof fn lemma_group_globs(group: GroupView, n: nat, extensions: Seq<Seq<char>>, glob: Seq<char>)
    requires
        n <= group.patterns.len(),
    ensures
        all_pattern_globs(group.patterns.take(n as int), extensions).contains(glob) <==> exists|
            k: int,
            e: int,
        |
            0 <= k < n && 0 <= e < extensions.len() && glob == (#[trigger] group.patterns[k])
                + "/*."@ + #[trigger] extensions[e],
    decreases n,
{
    let patterns = group.patterns.take(n as int);
    if n > 0 {
        lemma_group_globs(group, (n - 1) as nat, extensions, glob);
        assert(patterns.drop_last() =~= group.patterns.take(n - 1));
        let last = group.patterns[n - 1];
        let own = pattern_globs(last, extensions);
        lemma_contains_add(all_pattern_globs(patterns.drop_last(), extensions), own, glob);
        if own.contains(glob) {
            let e = own.index_of(glob);
            assert(glob == group.patterns[n - 1] + "/*."@ + extensions[e]);
        }
        if exists|k: int, e: int|
            0 <= k < n && 0 <= e < extensions.len() && glob == (#[trigger] group.patterns[k])
                + "/*."@ + #[trigger] extensions[e] {
            let (k, e) = choose|k: int, e: int|
                0 <= k < n && 0 <= e < extensions.len() && glob == (#[trigger] group.patterns[k])
                    + "/*."@ + #[trigger] extensions[e];
            if k == n - 1 {
                assert(own[e] == glob);
            }
        }
    }
}

proof fn lemma_hit_globs(
    query_lower: Seq<char>,
    found: Seq<GroupView>,
    extensions: Seq<Seq<char>>,
    glob: Seq<char>,
)
    ensures
        hit_globs(query_lower, found, extensions).contains(glob) <==> exists|g: int|
            0 <= g < found.len() && points(#[trigger] found[g], query_lower) && is_glob_of(
                glob,
                found[g],
                extensions,
            ),
    decreases found.len(),
{
    if found.len() > 0 {
        let rest = found.drop_last();
        let last = found.last();
        lemma_hit_globs(query_lower, rest, extensions, glob);
        lemma_hit_points(last, query_lower);
        lemma_group_globs(last, last.patterns.len(), extensions, glob);
        assert(last.patterns.take(last.patterns.len() as int) =~= last.patterns);
        lemma_contains_add(
            hit_globs(query_lower, rest, extensions),
            all_pattern_globs(last.patterns, extensions),
            glob,
        );
        assert(found[found.len() - 1] == last);
        assert forall|g: int| 0 <= g < rest.len() implies #[trigger] rest[g] == found[g] by {}
        if exists|g: int|
            0 <= g < rest.len() && points(#[trigger] rest[g], query_lower) && is_glob_of(
                glob,
                rest[g],
                extensions,
            ) {
            let g = choose|g: int|
                0 <= g < rest.len() && points(#[trigger] rest[g], query_lower) && is_glob_of(
                    glob,
                    rest[g],
                    extensions,
                );
            assert(points(found[g], query_lower));
        }
        if exists|g: int|
            0 <= g < found.len() && points(#[trigger] found[g], query_lower) && is_glob_of(
                glob,
                found[g],
                extensions,
            ) {
            let g = choose|g: int|
                0 <= g < found.len() && points(#[trigger] found[g], query_lower) && is_glob_of(
                    glob,
                    found[g],
                    extensions,
                );
            if g < rest.len() {
                assert(points(rest[g], query_lower));
            }
        }
    }
}

proof fn lemma_entry_members(extensions: Seq<Seq<char>>, glob: Seq<char>)
    ensures
        entry_globs(extensions).contains(glob) <==> is_entry_glob(glob, extensions),
        fallback_globs(extensions).contains(glob) <==> is_source_glob(glob, extensions),
    decreases extensions.len(),
{
    if extensions.len() > 0 {
        let rest = extensions.drop_last();
        let ext = extensions.last();
        lemma_entry_members(rest, glob);
        let entries = seq![
            "**/main."@ + ext,
            "**/index."@ + ext,
            "**/app."@ + ext,
            "**/server."@ + ext,
        ];
        let sources = seq!["src/**/*."@ + ext, "packages/**/*."@ + ext];
        lemma_contains_add(entry_globs(rest), entries, glob);
        lemma_contains_add(fallback_globs(rest), sources, glob);
        assert(entries.contains(glob) <==> (glob == "**/main."@ + ext || glob == "**/index."@ + ext
            || glob == "**/app."@ + ext || glob == "**/server."@ + ext)) by {
            assert(entries[0] == "**/main."@ + ext && entries[1] == "**/index."@ + ext && entries[2]
                == "**/app."@ + ext && entries[3] == "**/server."@ + ext);
        }
        assert(sources.contains(glob) <==> (glob == "src/**/*."@ + ext || glob
            == "packages/**/*."@ + ext)) by {
            assert(sources[0] == "src/**/*."@ + ext && sources[1] == "packages/**/*."@ + ext);
        }
        assert(extensions[extensions.len() - 1] == ext);
        assert forall|e: int| 0 <= e < rest.len() implies #[trigger] rest[e] == extensions[e] by {}
        if is_entry_glob(glob, rest) {
            let e = choose|e: int|
                0 <= e < rest.len() && {
                    let ext = #[trigger] rest[e];
                    glob == "**/main."@ + ext || glob == "**/index."@ + ext || glob == "**/app."@
                        + ext || glob == "**/server."@ + ext
                };
            assert(extensions[e] == rest[e]);
        }
        if is_entry_glob(glob, extensions) && !entries.contains(glob) {
            let e = choose|e: int|
                0 <= e < extensions.len() && {
                    let ext = #[trigger] extensions[e];
                    glob == "**/main."@ + ext || glob == "**/index."@ + ext || glob == "**/app."@
                        + ext || glob == "**/server."@ + ext
                };
            assert(extensions[e] == rest[e]);
        }
        if is_source_glob(glob, rest) {
            let e = choose|e: int|
                0 <= e < rest.len() && {
                    let ext = #[trigger] rest[e];
                    glob == "src/**/*."@ + ext || glob == "packages/**/*."@ + ext
                };
            assert(extensions[e] == rest[e]);
        }
        if is_source_glob(glob, extensions) && !sources.contains(glob) {
            let e = choose|e: int|
                0 <= e < extensions.len() && {
                    let ext = #[trigger] extensions[e];
                    glob == "src/**/*."@ + ext || glob == "packages/**/*."@ + ext
                };
            assert(extensions[e] == rest[e]);
        }
    }
}

/// What is predicted, for every query: the globs of each group that has a word in the
/// query, whatever other groups have one; the entry points; and the usual source
/// directories where no group has a word in the query. Nothing else is predicted.
pub proof fn law_predicted_globs(
    query_lower: Seq<char>,
    extensions: Seq<Seq<char>>,
    glob: Seq<char>,
)
    ensures
        candidates(query_lower, extensions).contains(glob) <==> {
            ||| exists|g: int|
                0 <= g < groups().len() && points(#[trigger] groups()[g], query_lower)
                    && is_glob_of(glob, groups()[g], extensions)
            ||| is_entry_glob(glob, extensions)
            ||| is_source_glob(glob, extensions) && forall|g: int|
                0 <= g < groups().len() ==> !points(#[trigger] groups()[g], query_lower)
        },
{
    let hits = hit_globs(query_lower, groups(), extensions);
    let entries = entry_globs(extensions);
    let usual = if any_hit(query_lower, groups()) {
        Seq::empty()
    } else {
        fallback_globs(extensions)
    };
    lemma_hit_globs(query_lower, groups(), extensions, glob);
    lemma_entry_members(extensions, glob);
    lemma_contains_add(hits + entries, usual, glob);
    lemma_contains_add(hits, entries, glob);
    assert forall|g: int| 0 <= g < groups().len() implies (points(
        #[trigger] groups()[g],
        query_lower,
    ) <==> is_hit(query_lower, groups()[g].keywords)) by {
        lemma_hit_points(groups()[g], query_lower);
    }
    if any_hit(query_lower, groups()) {
        let g = choose|g: int|
            0 <= g < groups().len() && is_hit(query_lower, (#[trigger] groups()[g]).keywords);
        assert(points(groups()[g], query_lower));
    }
}

/// Every group of which a keyword stands in the query has all its patterns predicted,
/// with each extension.
pub proof fn law_hit_group_predicted(
    query_lower: Seq<char>,
    extensions: Seq<Seq<char>>,
    g: int,
    k: int,
    p: int,
    e: int,
)
    requires
        0 <= g < groups().len(),
        0 <= k < groups()[g].keywords.len(),
        0 <= p < groups()[g].patterns.len(),
        0 <= e < extensions.len(),
        has_word(query_lower, groups()[g].keywords[k]),
    ensures
        candidates(query_lower, extensions).contains(
            groups()[g].patterns[p] + "/*."@ + extensions[e],
        ),
{
    let group = groups()[g];
    let glob = group.patterns[p] + "/*."@ + extensions[e];
    law_predicted_globs(query_lower, extensions, glob);
    assert(points(group, query_lower));
    assert(is_glob_of(glob, group, extensions));
}

// ---------------------------------------------------------------------------
// Extensions
// ---------------------------------------------------------------------------

/// Whether the first closing brace, if there is one, comes after the first
/// opening brace, if there is one.
pub open spec fn braces_ordered(glob: Seq<char>) -> bool {
    let open = strings::find_from(glob, '{', 0);
    let close = strings::find_from(glob, '}', 0);
    open < glob.len() && close < glob.len() ==> open < close
}

/// Whether the first closing brace, if there is one, comes after the first
/// opening brace, if there is one.
pub fn check_braces(glob: &str) -> (r: bool)
    ensures
        r == braces_ordered(glob@),
{
    let chars: Vec<char> = to_chars(glob);
    let open: usize = find_char(&chars, '{', 0);
    let close: usize = find_char(&chars, '}', 0);
    !(open < chars.len() && close < chars.len()) || open < close
}

/// The last place up to `i` at which `needle` stands in `s`, or -1.
pub open spec fn last_occurrence(s: Seq<char>, needle: Seq<char>, i: int) -> int
    decreases i + 1,
{
    if i < 0 {
        -1
    } else if strings::occurs_at(s, needle, i) {
        i
    } else {
        last_occurrence(s, needle, i - 1)
    }
}

/// The strings without white space at their ends.
pub open spec fn all_trimmed(parts: Seq<Seq<char>>) -> Seq<Seq<char>> {
    Seq::new(parts.len(), |i: int| strings::trim_spec(parts[i]))
}

/// The extensions that a glob names: what stands between its braces, divided at
/// the commas; without braces, what follows its last `*.`, if that is plain;
/// else some usual ones.
pub open spec fn glob_extensions(glob: Seq<char>) -> Seq<Seq<char>> {
    let open = strings::find_from(glob, '{', 0);
    let close = strings::find_from(glob, '}', 0);
    let star = last_occurrence(glob, "*."@, glob.len() as int);
    let rest = glob.skip(star + 2);
    if open < glob.len() && close < glob.len() {
        all_trimmed(strings::split_spec(glob.subrange(open + 1, close), ','))
    } else if star >= 0 && !rest.contains('/') && !rest.contains('*') {
        seq![rest]
    } else {
        seq!["ts"@, "js"@, "py"@, "rs"@]
    }
}

fn trim_all(parts: &Vec<String>) -> (r: Vec<String>)
    ensures
        text::views(r@) == all_trimmed(text::views(parts@)),
{
    let ghost all = all_trimmed(text::views(parts@));
    let mut list: Vec<String> = Vec::new();
    let mut i: usize = 0;
    assert(text::views(list@) =~= all.take(0));
    while i < parts.len()
        invariant
            i <= parts@.len(),
            all == all_trimmed(text::views(parts@)),
            text::views(list@) == all.take(i as int),
        decreases parts@.len() - i,
    {
        let part: String = trim(parts[i].as_str());
        proof {
            text::lemma_views_push(list@, part);
            assert(all.take(i + 1) =~= all.take(i as int).push(part@));
        }
        list.push(part);
        i = i + 1;
    }
    assert(all.take(parts@.len() as int) =~= all);
    list
}

/// The last place at which `needle` stands, if there is one.
fn find_last(chars: &Vec<char>, needle: &Vec<char>) -> (r: Option<usize>)
    requires
        needle@.len() > 0,
    ensures
        match r {
            Some(i) => i == last_occurrence(chars@, needle@, chars@.len() as int) && i + needle@.len()
                <= chars@.len(),
            None => last_occurrence(chars@, needle@, chars@.len() as int) == -1,
        },
{
    let n: usize = chars.len();
    if n < needle.len() {
        proof {
            lemma_no_room(chars@, needle@, n as int);
        }
        return None;
    }
    let mut i: usize = n - needle.len() + 1;
    proof {
        lemma_skip_tail(chars@, needle@, n as int, i - 1);
    }
    while i > 0
        invariant
            i + needle@.len() <= n + 1,
            n == chars@.len(),
            needle@.len() > 0,
            last_occurrence(chars@, needle@, n as int) == last_occurrence(
                chars@,
                needle@,
                i - 1,
            ),
        decreases i,
    {
        if matches_at(chars, needle, i - 1) {
            return Some(i - 1);
        }
        i = i - 1;
    }
    None
}

proof fn lemma_no_room(s: Seq<char>, needle: Seq<char>, i: int)
    requires
        needle.len() > s.len(),
    ensures
        last_occurrence(s, needle, i) == -1,
    decreases i + 1,
{
    if i >= 0 {
        lemma_no_room(s, needle, i - 1);
    }
}

proof fn lemma_skip_tail(s: Seq<char>, needle: Seq<char>, i: int, to: int)
    requires
        to <= i,
        to + needle.len() == s.len(),
        to >= 0,
    ensures
        last_occurrence(s, needle, i) == last_occurrence(s, needle, to),
    decreases i - to,
{
    if i > to {
        lemma_skip_tail(s, needle, i - 1, to);
    }
}

/// The extensions that a glob such as `**/*.{ts,tsx,js}` names.
pub fn extract_extensions_from_glob(glob: &str) -> (r: Vec<String>)
    requires
        braces_ordered(glob@),
    ensures
        text::views(r@) == glob_extensions(glob@),
{
    let chars: Vec<char> = to_chars(glob);
    let n: usize = chars.len();
    let open: usize = find_char(&chars, '{', 0);
    let close: usize = find_char(&chars, '}', 0);
    if open < n && close < n {
        let inner: String = from_chars(&chars, open + 1, close);
        let parts: Vec<String> = split_char(inner.as_str(), ',');
        return trim_all(&parts);
    }
    let needle: Vec<char> = to_chars("*.");
    proof {
        reveal_strlit("*.");
    }
    match find_last(&chars, &needle) {
        Some(star) => {
            let ext: String = from_chars(&chars, star + 2, n);
            assert(ext@ =~= glob@.skip(star + 2));
            if !contains_char(ext.as_str(), '/') && !contains_char(ext.as_str(), '*') {
                let r: Vec<String> = vec![ext];
                assert(text::views(r@) =~= glob_extensions(glob@));
                return r;
            }
        },
        None => {},
    }
    let r: Vec<String> = vec![
        "ts".to_owned(),
        "js".to_owned(),
        "py".to_owned(),
        "rs".to_owned(),
    ];
    assert(text::views(r@) =~= glob_extensions(glob@));
    r
}

// ---------------------------------------------------------------------------
// Query text
// ---------------------------------------------------------------------------

/// The field, if it is a string and not empty.
pub open spec fn filled_text(fields: Map<Seq<char>, JsonFieldView>, key: Seq<char>) -> Option<
    Seq<char>,
> {
    match json::text_field(fields, key) {
        Some(s) => if s.len() > 0 {
            Some(s)
        } else {
            None
        },
        None => None,
    }
}

/// The strings among the items of a list.
pub open spec fn strings_in(items: Seq<Option<Seq<char>>>) -> Seq<Seq<char>>
    decreases items.len(),
{
    if items.len() == 0 {
        Seq::empty()
    } else {
        match items.last() {
            Some(s) => strings_in(items.drop_last()).push(s),
            None => strings_in(items.drop_last()),
        }
    }
}

/// The text of a query in arguments: the first of `pattern`, `symbol`,
/// `section` and `query` that is a string and not empty, else the strings in
/// `patterns`, with spaces between them.
pub open spec fn query_text(fields: Map<Seq<char>, JsonFieldView>) -> Seq<char> {
    if filled_text(fields, "pattern"@) is Some {
        filled_text(fields, "pattern"@)->0
    } else if filled_text(fields, "symbol"@) is Some {
        filled_text(fields, "symbol"@)->0
    } else if filled_text(fields, "section"@) is Some {
        filled_text(fields, "section"@)->0
    } else if filled_text(fields, "query"@) is Some {
        filled_text(fields, "query"@)->0
    } else if fields.dom().contains("patterns"@) {
        match fields["patterns"@] {
            JsonFieldView::List(items) => strings::join_spec(strings_in(items), " "@),
            _ => Seq::empty(),
        }
    } else {
        Seq::empty()
    }
}

fn filled_field(args: &JsonObject, key: &str) -> (r: Option<String>)
    ensures
        text::opt_view(r) == filled_text(args@, key@),
{
    match args.get_text(key) {
        Some(s) => {
            let chars: Vec<char> = to_chars(s.as_str());
            if chars.len() > 0 {
                Some(s)
            } else {
                None
            }
        },
        None => None,
    }
}

fn list_strings(items: &Vec<Option<String>>) -> (r: Vec<String>)
    ensures
        text::views(r@) == strings_in(
            Seq::new(items@.len(), |i: int| json::opt_text(items@[i])),
        ),
{
    let ghost all = Seq::new(items@.len(), |i: int| json::opt_text(items@[i]));
    let mut list: Vec<String> = Vec::new();
    let mut i: usize = 0;
    assert(text::views(list@) =~= strings_in(all.take(0)));
    while i < items.len()
        invariant
            i <= items@.len(),
            all == Seq::new(items@.len(), |i: int| json::opt_text(items@[i])),
            text::views(list@) == strings_in(all.take(i as int)),
        decreases items@.len() - i,
    {
        proof {
            assert(all.take(i + 1).drop_last() =~= all.take(i as int));
            assert(all.take(i + 1).last() == json::opt_text(items@[i as int]));
        }
        match &items[i] {
            Some(s) => {
                proof {
                    text::lemma_views_push(list@, *s);
                }
                list.push(s.clone());
            },
            None => {},
        }
        i = i + 1;
    }
    assert(all.take(items@.len() as int) =~= all);
    list
}

/// The text of a query in arguments, from which paths are predicted.
pub fn extract_query_text(args: &JsonObject) -> (r: String)
    ensures
        r@ == query_text(args@),
{
    match filled_field(args, "pattern") {
        Some(s) => {
            return s;
        },
        None => {},
    }
    match filled_field(args, "symbol") {
        Some(s) => {
            return s;
        },
        None => {},
    }
    match filled_field(args, "section") {
        Some(s) => {
            return s;
        },
        None => {},
    }
    match filled_field(args, "query") {
        Some(s) => {
            return s;
        },
        None => {},
    }
    match args.get("patterns") {
        Some(JsonField::List(items)) => {
            let texts: Vec<String> = list_strings(items);
            join(&texts, " ")
        },
        _ => {
            let none: String = String::new();
            assert(none@ =~= Seq::empty());
            none
        },
    }
}

/// Whether a field is a text that is not empty.
pub open spec fn is_text(fields: Map<Seq<char>, JsonFieldView>, key: Seq<char>, s: Seq<char>) -> bool {
    s.len() > 0 && fields.dom().contains(key) && fields[key] == JsonFieldView::Text(s)
}

/// Whether a field is no text, or an empty one.
pub open spec fn lacks_text(fields: Map<Seq<char>, JsonFieldView>, key: Seq<char>) -> bool {
    forall|s: Seq<char>| !#[trigger] is_text(fields, key, s)
}

/// The text of a query is the first of `pattern`, `symbol`, `section` and `query` that is
/// given as one.
pub proof fn law_query_text_first(fields: Map<Seq<char>, JsonFieldView>, s: Seq<char>)
    ensures
        is_text(fields, "pattern"@, s) ==> query_text(fields) == s,
        lacks_text(fields, "pattern"@) && is_text(fields, "symbol"@, s) ==> query_text(fields) == s,
        lacks_text(fields, "pattern"@) && lacks_text(fields, "symbol"@) && is_text(
            fields,
            "section"@,
            s,
        ) ==> query_text(fields) == s,
        lacks_text(fields, "pattern"@) && lacks_text(fields, "symbol"@) && lacks_text(
            fields,
            "section"@,
        ) && is_text(fields, "query"@, s) ==> query_text(fields) == s,
{
    lemma_filled(fields, "pattern"@);
    lemma_filled(fields, "symbol"@);
    lemma_filled(fields, "section"@);
    lemma_filled(fields, "query"@);
}

proof fn lemma_filled(fields: Map<Seq<char>, JsonFieldView>, key: Seq<char>)
    ensures
        match filled_text(fields, key) {
            Some(s) => is_text(fields, key, s),
            None => lacks_text(fields, key),
        },
{
}

/// The extension that a glob ends with, after its last `*.`, is the one that it names,
/// where it has no braces.
pub proof fn law_extension_named(dir: Seq<char>, ext: Seq<char>)
    requires
        !dir.contains('{') && !ext.contains('{'),
        !ext.contains('/') && !ext.contains('*'),
    ensures
        glob_extensions(dir + seq!['*', '.'] + ext) == seq![ext],
{
    let glob = dir + seq!['*', '.'] + ext;
    let n = dir.len() as int;
    reveal_strlit("*.");
    assert("*."@ =~= seq!['*', '.']);
    strings::lemma_find_from(glob, '{', 0);
    let open = strings::find_from(glob, '{', 0);
    if open < glob.len() {
        if open < n {
            assert(dir[open] == glob[open]);
            assert(dir.contains('{'));
        } else if open >= n + 2 {
            assert(ext[open - n - 2] == glob[open]);
            assert(ext.contains('{'));
        }
    }
    assert forall|i: int| n < i <= glob.len() implies !strings::occurs_at(glob, "*."@, i) by {
        if strings::occurs_at(glob, "*."@, i) {
            assert(glob.subrange(i, i + 2)[0] == '*');
            assert(glob[i] == '*');
            if i == n + 1 {
                assert(glob[i] == '.');
            } else {
                assert(ext[i - n - 2] == glob[i]);
                assert(ext.contains('*'));
            }
        }
    }
    assert(glob.subrange(n, n + 2) =~= seq!['*', '.']);
    lemma_last_at(glob, "*."@, glob.len() as int, n);
    assert(glob.skip(n + 2) =~= ext);
}

proof fn lemma_last_at(s: Seq<char>, needle: Seq<char>, i: int, at: int)
    requires
        0 <= at <= i,
        strings::occurs_at(s, needle, at),
        forall|k: int| at < k <= i ==> !strings::occurs_at(s, needle, k),
    ensures
        last_occurrence(s, needle, i) == at,
    decreases i - at,
{
    if i > at {
        lemma_last_at(s, needle, i - 1, at);
    }
}

/// Of two globs in a ranking the first has the higher score, or the same and stood first.
/// A glob without a score counts as one with none.
pub proof fn law_higher_scores_first(order: Seq<int>, scores: Seq<Option<i64>>, a: int, b: int)
    requires
        is_ranking(order, scores),
        0 <= a < b < order.len(),
    ensures
        ({
            let x = if 0 <= order[a] < scores.len() && scores[order[a]] is Some {
                scores[order[a]]->0
            } else {
                0
            };
            let y = if 0 <= order[b] < scores.len() && scores[order[b]] is Some {
                scores[order[b]]->0
            } else {
                0
            };
            x > y || x == y && order[a] < order[b]
        }),
{
    assert(ranks_before(scores, order[a], order[b]));
}

/// The extensions in the braces of a glob are those that it names, without the white space
/// around them: so with two of them.
pub proof fn law_braces_named(
    before: Seq<char>,
    a: Seq<char>,
    b: Seq<char>,
    after: Seq<char>,
)
    requires
        !before.contains('{') && !before.contains('}'),
        !a.contains('}') && !b.contains('}'),
        !a.contains(',') && !b.contains(','),
    ensures
        glob_extensions(before.push('{') + a.push(',') + b.push('}') + after) == seq![
            strings::trim_spec(a),
            strings::trim_spec(b),
        ],
{
    let glob = before.push('{') + a.push(',') + b.push('}') + after;
    let inner = a.push(',') + b;
    let n = before.len() as int;
    let m = n + 1 + inner.len();
    strings::lemma_find_from(glob, '{', 0);
    strings::lemma_find_from(glob, '}', 0);
    let open = strings::find_from(glob, '{', 0);
    let close = strings::find_from(glob, '}', 0);
    assert(glob[n] == '{');
    assert(glob[m] == '}');
    if open < n {
        assert(glob[open] == before[open]);
        assert(before.contains('{'));
    }
    if close < m {
        if close < n {
            assert(glob[close] == before[close]);
            assert(before.contains('}'));
        } else if n < close <= n + a.len() {
            assert(glob[close] == a[close - n - 1]);
            assert(a.contains('}'));
        } else if close > n + a.len() + 1 {
            assert(glob[close] == b[close - n - a.len() - 2]);
            assert(b.contains('}'));
        }
    }
    assert(glob.subrange(n + 1, m) =~= inner);
    strings::law_split_first(a, ',', b);
    strings::law_split_first(b, ',', Seq::empty());
    let parts = strings::split_spec(inner, ',');
    assert(parts =~= seq![a, b]);
    assert(all_trimmed(parts) =~= seq![strings::trim_spec(a), strings::trim_spec(b)]);
}

/// A glob without wildcards and braces names no extension, and stands for the usual ones.
pub proof fn law_usual_extensions(glob: Seq<char>)
    requires
        !glob.contains('{') && !glob.contains('*'),
    ensures
        glob_extensions(glob).len() == 4,
        glob_extensions(glob).contains(seq!['t', 's']),
        glob_extensions(glob).contains(seq!['j', 's']),
        glob_extensions(glob).contains(seq!['p', 'y']),
        glob_extensions(glob).contains(seq!['r', 's']),
{
    reveal_strlit("*.");
    reveal_strlit("ts");
    reveal_strlit("js");
    reveal_strlit("py");
    reveal_strlit("rs");
    strings::lemma_find_from(glob, '{', 0);
    let open = strings::find_from(glob, '{', 0);
    if open < glob.len() {
        assert(glob.contains(glob[open]));
    }
    lemma_never(glob, "*."@, glob.len() as int);
    let found = glob_extensions(glob);
    assert(found[0] =~= seq!['t', 's']);
    assert(found[1] =~= seq!['j', 's']);
    assert(found[2] =~= seq!['p', 'y']);
    assert(found[3] =~= seq!['r', 's']);
}

proof fn lemma_never(glob: Seq<char>, needle: Seq<char>, i: int)
    requires
        !glob.contains('*'),
        needle.len() == 2 && needle[0] == '*',
        i <= glob.len(),
    ensures
        last_occurrence(glob, needle, i) < 0,
    decreases i + 1,
{
    if i >= 0 {
        if strings::occurs_at(glob, needle, i) {
            assert(glob.subrange(i, i + 2)[0] == glob[i]);
            assert(glob.contains('*'));
        }
        lemma_never(glob, needle, i - 1);
    }
}

/// Without a text, the text of a query is the texts in its list of patterns, with spaces
/// between them.
pub proof fn law_query_text_of_patterns(
    fields: Map<Seq<char>, JsonFieldView>,
    items: Seq<Option<Seq<char>>>,
)
    requires
        lacks_text(fields, "pattern"@) && lacks_text(fields, "symbol"@) && lacks_text(
            fields,
            "section"@,
        ) && lacks_text(fields, "query"@),
        fields.dom().contains("patterns"@) && fields["patterns"@] == JsonFieldView::List(items),
    ensures
        query_text(fields) == strings::join_spec(
            items.filter(|item: Option<Seq<char>>| item is Some).map_values(
                |item: Option<Seq<char>>| item->0,
            ),
            seq![' '],
        ),
{
    reveal_strlit(" ");
    assert(" "@ =~= seq![' ']);
    lemma_filled(fields, "pattern"@);
    lemma_filled(fields, "symbol"@);
    lemma_filled(fields, "section"@);
    lemma_filled(fields, "query"@);
    lemma_strings_in(items);
}

proof fn lemma_strings_in(items: Seq<Option<Seq<char>>>)
    ensures
        strings_in(items) == items.filter(|item: Option<Seq<char>>| item is Some).map_values(
            |item: Option<Seq<char>>| item->0,
        ),
    decreases items.len(),
{
    reveal(Seq::filter);
    let test = |item: Option<Seq<char>>| item is Some;
    let pick = |item: Option<Seq<char>>| item->0;
    if items.len() > 0 {
        let rest = items.drop_last();
        lemma_strings_in(rest);
        if test(items.last()) {
            assert(items.filter(test) == rest.filter(test).push(items.last()));
            assert(items.filter(test).map_values(pick) =~= rest.filter(test).map_values(pick).push(
                pick(items.last()),
            ));
        } else {
            assert(items.filter(test) == rest.filter(test));
        }
    } else {
        assert(items.filter(test).map_values(pick) =~= Seq::empty());
    }
}

/// Whether the files of a directory pattern with an extension are predicted.
pub open spec fn is_predicted(
    query_lower: Seq<char>,
    extensions: Seq<Seq<char>>,
    dir: Seq<char>,
    ext: Seq<char>,
) -> bool {
    candidates(query_lower, extensions).contains(dir + "/*."@ + ext)
}

/// A query in which a word for authentication stands has their directories predicted.
pub proof fn law_auth_words(query_lower: Seq<char>, extensions: Seq<Seq<char>>, e: int)
    requires
        0 <= e < extensions.len(),
        has_word(query_lower, "auth"@)
            || has_word(query_lower, "login"@)
            || has_word(query_lower, "logout"@)
            || has_word(query_lower, "session"@)
            || has_word(query_lower, "jwt"@)
            || has_word(query_lower, "oauth"@)
            || has_word(query_lower, "password"@)
            || has_word(query_lower, "credential"@),
    ensures
        is_predicted(query_lower, extensions, "**/auth/**"@, extensions[e]),
        is_predicted(query_lower, extensions, "**/login/**"@, extensions[e]),
        is_predicted(query_lower, extensions, "**/session/**"@, extensions[e]),
        is_predicted(query_lower, extensions, "**/authentication/**"@, extensions[e]),
{
    let group = groups()[0];
    assert(group == auth_group());
    let k: int = if has_word(query_lower, "auth"@) {
        0
    } else if has_word(query_lower, "login"@) {
        1
    } else if has_word(query_lower, "logout"@) {
        2
    } else if has_word(query_lower, "session"@) {
        3
    } else if has_word(query_lower, "jwt"@) {
        4
    } else if has_word(query_lower, "oauth"@) {
        5
    } else if has_word(query_lower, "password"@) {
        6
    } else {
        7
    };
    assert(group.keywords[0] == "auth"@);
    assert(group.keywords[1] == "login"@);
    assert(group.keywords[2] == "logout"@);
    assert(group.keywords[3] == "session"@);
    assert(group.keywords[4] == "jwt"@);
    assert(group.keywords[5] == "oauth"@);
    assert(group.keywords[6] == "password"@);
    assert(group.keywords[7] == "credential"@);
    assert(group.patterns[0] == "**/auth/**"@);
    law_hit_group_predicted(query_lower, extensions, 0, k, 0, e);
    assert(group.patterns[1] == "**/login/**"@);
    law_hit_group_predicted(query_lower, extensions, 0, k, 1, e);
    assert(group.patterns[2] == "**/session/**"@);
    law_hit_group_predicted(query_lower, extensions, 0, k, 2, e);
    assert(group.patterns[3] == "**/authentication/**"@);
    law_hit_group_predicted(query_lower, extensions, 0, k, 3, e);
}

/// A query in which a word for databases stands has their directories predicted.
pub proof fn law_database_words(query_lower: Seq<char>, extensions: Seq<Seq<char>>, e: int)
    requires
        0 <= e < extensions.len(),
        has_word(query_lower, "database"@)
            || has_word(query_lower, "db"@)
            || has_word(query_lower, "query"@)
            || has_word(query_lower, "sql"@)
            || has_word(query_lower, "orm"@)
            || has_word(query_lower, "repository"@)
            || has_word(query_lower, "migration"@),
    ensures
        is_predicted(query_lower, extensions, "**/db/**"@, extensions[e]),
        is_predicted(query_lower, extensions, "**/database/**"@, extensions[e]),
        is_predicted(query_lower, extensions, "**/repositories/**"@, extensions[e]),
        is_predicted(query_lower, extensions, "**/repo/**"@, extensions[e]),
{
    let group = groups()[1];
    assert(group == database_group());
    let k: int = if has_word(query_lower, "database"@) {
        0
    } else if has_word(query_lower, "db"@) {
        1
    } else if has_word(query_lower, "query"@) {
        2
    } else if has_word(query_lower, "sql"@) {
        3
    } else if has_word(query_lower, "orm"@) {
        4
    } else if has_word(query_lower, "repository"@) {
        5
    } else {
        6
    };
    assert(group.keywords[0] == "database"@);
    assert(group.keywords[1] == "db"@);
    assert(group.keywords[2] == "query"@);
    assert(group.keywords[3] == "sql"@);
    assert(group.keywords[4] == "orm"@);
    assert(group.keywords[5] == "repository"@);
    assert(group.keywords[6] == "migration"@);
    assert(group.patterns[0] == "**/db/**"@);
    law_hit_group_predicted(query_lower, extensions, 1, k, 0, e);
    assert(group.patterns[1] == "**/database/**"@);
    law_hit_group_predicted(query_lower, extensions, 1, k, 1, e);
    assert(group.patterns[2] == "**/repositories/**"@);
    law_hit_group_predicted(query_lower, extensions, 1, k, 2, e);
    assert(group.patterns[3] == "**/repo/**"@);
    law_hit_group_predicted(query_lower, extensions, 1, k, 3, e);
}

/// A query in which a word for interfaces stands has their directories predicted.
pub proof fn law_api_words(query_lower: Seq<char>, extensions: Seq<Seq<char>>, e: int)
    requires
        0 <= e < extensions.len(),
        has_word(query_lower, "api"@)
            || has_word(query_lower, "endpoint"@)
            || has_word(query_lower, "route"@)
            || has_word(query_lower, "controller"@)
            || has_word(query_lower, "handler"@)
            || has_word(query_lower, "rest"@)
            || has_word(query_lower, "graphql"@),
    ensures
        is_predicted(query_lower, extensions, "**/api/**"@, extensions[e]),
        is_predicted(query_lower, extensions, "**/routes/**"@, extensions[e]),
        is_predicted(query_lower, extensions, "**/controllers/**"@, extensions[e]),
        is_predicted(query_lower, extensions, "**/handlers/**"@, extensions[e]),
        is_predicted(query_lower, extensions, "**/endpoints/**"@, extensions[e]),
{
    let group = groups()[2];
    assert(group == api_group());
    let k: int = if has_word(query_lower, "api"@) {
        0
    } else if has_word(query_lower, "endpoint"@) {
        1
    } else if has_word(query_lower, "route"@) {
        2
    } else if has_word(query_lower, "controller"@) {
        3
    } else if has_word(query_lower, "handler"@) {
        4
    } else if has_word(query_lower, "rest"@) {
        5
    } else {
        6
    };
    assert(group.keywords[0] == "api"@);
    assert(group.keywords[1] == "endpoint"@);
    assert(group.keywords[2] == "route"@);
    assert(group.keywords[3] == "controller"@);
    assert(group.keywords[4] == "handler"@);
    assert(group.keywords[5] == "rest"@);
    assert(group.keywords[6] == "graphql"@);
    assert(group.patterns[0] == "**/api/**"@);
    law_hit_group_predicted(query_lower, extensions, 2, k, 0, e);
    assert(group.patterns[1] == "**/routes/**"@);
    law_hit_group_predicted(query_lower, extensions, 2, k, 1, e);
    assert(group.patterns[2] == "**/controllers/**"@);
    law_hit_group_predicted(query_lower, extensions, 2, k, 2, e);
    assert(group.patterns[3] == "**/handlers/**"@);
    law_hit_group_predicted(query_lower, extensions, 2, k, 3, e);
    assert(group.patterns[4] == "**/endpoints/**"@);
    law_hit_group_predicted(query_lower, extensions, 2, k, 4, e);
}

/// A query in which a word for configuration stands has their directories predicted.
pub proof fn law_config_words(query_lower: Seq<char>, extensions: Seq<Seq<char>>, e: int)
    requires
        0 <= e < extensions.len(),
        has_word(query_lower, "config"@)
            || has_word(query_lower, "configuration"@)
            || has_word(query_lower, "env"@)
            || has_word(query_lower, "settings"@)
            || has_word(query_lower, "options"@),
    ensures
        is_predicted(query_lower, extensions, "**/config/**"@, extensions[e]),
        is_predicted(query_lower, extensions, "**/settings/**"@, extensions[e]),
        is_predicted(query_lower, extensions, "**/conf/**"@, extensions[e]),
{
    let group = groups()[3];
    assert(group == config_group());
    let k: int = if has_word(query_lower, "config"@) {
        0
    } else if has_word(query_lower, "configuration"@) {
        1
    } else if has_word(query_lower, "env"@) {
        2
    } else if has_word(query_lower, "settings"@) {
        3
    } else {
        4
    };
    assert(group.keywords[0] == "config"@);
    assert(group.keywords[1] == "configuration"@);
    assert(group.keywords[2] == "env"@);
    assert(group.keywords[3] == "settings"@);
    assert(group.keywords[4] == "options"@);
    assert(group.patterns[0] == "**/config/**"@);
    law_hit_group_predicted(query_lower, extensions, 3, k, 0, e);
    assert(group.patterns[1] == "**/settings/**"@);
    law_hit_group_predicted(query_lower, extensions, 3, k, 1, e);
    assert(group.patterns[2] == "**/conf/**"@);
    law_hit_group_predicted(query_lower, extensions, 3, k, 2, e);
}

/// A query in which a word for middleware stands has their directories predicted.
pub proof fn law_middleware_words(query_lower: Seq<char>, extensions: Seq<Seq<char>>, e: int)
    requires
        0 <= e < extensions.len(),
        has_word(query_lower, "middleware"@)
            || has_word(query_lower, "interceptor"@)
            || has_word(query_lower, "filter"@)
            || has_word(query_lower, "guard"@),
    ensures
        is_predicted(query_lower, extensions, "**/middleware/**"@, extensions[e]),
        is_predicted(query_lower, extensions, "**/middlewares/**"@, extensions[e]),
        is_predicted(query_lower, extensions, "**/interceptors/**"@, extensions[e]),
        is_predicted(query_lower, extensions, "**/guards/**"@, extensions[e]),
{
    let group = groups()[4];
    assert(group == middleware_group());
    let k: int = if has_word(query_lower, "middleware"@) {
        0
    } else if has_word(query_lower, "interceptor"@) {
        1
    } else if has_word(query_lower, "filter"@) {
        2
    } else {
        3
    };
    assert(group.keywords[0] == "middleware"@);
    assert(group.keywords[1] == "interceptor"@);
    assert(group.keywords[2] == "filter"@);
    assert(group.keywords[3] == "guard"@);
    assert(group.patterns[0] == "**/middleware/**"@);
    law_hit_group_predicted(query_lower, extensions, 4, k, 0, e);
    assert(group.patterns[1] == "**/middlewares/**"@);
    law_hit_group_predicted(query_lower, extensions, 4, k, 1, e);
    assert(group.patterns[2] == "**/interceptors/**"@);
    law_hit_group_predicted(query_lower, extensions, 4, k, 2, e);
    assert(group.patterns[3] == "**/guards/**"@);
    law_hit_group_predicted(query_lower, extensions, 4, k, 3, e);
}

/// A query in which a word for workflows stands has their directories predicted.
pub proof fn law_workflow_words(query_lower: Seq<char>, extensions: Seq<Seq<char>>, e: int)
    requires
        0 <= e < extensions.len(),
        has_word(query_lower, "workflow"@)
            || has_word(query_lower, "execution"@)
            || has_word(query_lower, "engine"@)
            || has_word(query_lower, "runner"@)
            || has_word(query_lower, "worker"@)
            || has_word(query_lower, "job"@)
            || has_word(query_lower, "queue"@),
    ensures
        is_predicted(query_lower, extensions, "**/workflow/**"@, extensions[e]),
        is_predicted(query_lower, extensions, "**/workflows/**"@, extensions[e]),
        is_predicted(query_lower, extensions, "**/execution/**"@, extensions[e]),
        is_predicted(query_lower, extensions, "**/engine/**"@, extensions[e]),
        is_predicted(query_lower, extensions, "**/workers/**"@, extensions[e]),
        is_predicted(query_lower, extensions, "**/jobs/**"@, extensions[e]),
{
    let group = groups()[5];
    assert(group == workflow_group());
    let k: int = if has_word(query_lower, "workflow"@) {
        0
    } else if has_word(query_lower, "execution"@) {
        1
    } else if has_word(query_lower, "engine"@) {
        2
    } else if has_word(query_lower, "runner"@) {
        3
    } else if has_word(query_lower, "worker"@) {
        4
    } else if has_word(query_lower, "job"@) {
        5
    } else {
        6
    };
    assert(group.keywords[0] == "workflow"@);
    assert(group.keywords[1] == "execution"@);
    assert(group.keywords[2] == "engine"@);
    assert(group.keywords[3] == "runner"@);
    assert(group.keywords[4] == "worker"@);
    assert(group.keywords[5] == "job"@);
    assert(group.keywords[6] == "queue"@);
    assert(group.patterns[0] == "**/workflow/**"@);
    law_hit_group_predicted(query_lower, extensions, 5, k, 0, e);
    assert(group.patterns[1] == "**/workflows/**"@);
    law_hit_group_predicted(query_lower, extensions, 5, k, 1, e);
    assert(group.patterns[2] == "**/execution/**"@);
    law_hit_group_predicted(query_lower, extensions, 5, k, 2, e);
    assert(group.patterns[3] == "**/engine/**"@);
    law_hit_group_predicted(query_lower, extensions, 5, k, 3, e);
    assert(group.patterns[4] == "**/workers/**"@);
    law_hit_group_predicted(query_lower, extensions, 5, k, 4, e);
    assert(group.patterns[5] == "**/jobs/**"@);
    law_hit_group_predicted(query_lower, extensions, 5, k, 5, e);
}

/// A query in which a word for shared code stands has their directories predicted.
pub proof fn law_core_words(query_lower: Seq<char>, extensions: Seq<Seq<char>>, e: int)
    requires
        0 <= e < extensions.len(),
        has_word(query_lower, "core"@)
            || has_word(query_lower, "shared"@)
            || has_word(query_lower, "common"@)
            || has_word(query_lower, "utils"@)
            || has_word(query_lower, "helpers"@)
            || has_word(query_lower, "lib"@),
    ensures
        is_predicted(query_lower, extensions, "**/core/**"@, extensions[e]),
        is_predicted(query_lower, extensions, "**/shared/**"@, extensions[e]),
        is_predicted(query_lower, extensions, "**/common/**"@, extensions[e]),
        is_predicted(query_lower, extensions, "**/utils/**"@, extensions[e]),
        is_predicted(query_lower, extensions, "**/lib/**"@, extensions[e]),
{
    let group = groups()[6];
    assert(group == core_group());
    let k: int = if has_word(query_lower, "core"@) {
        0
    } else if has_word(query_lower, "shared"@) {
        1
    } else if has_word(query_lower, "common"@) {
        2
    } else if has_word(query_lower, "utils"@) {
        3
    } else if has_word(query_lower, "helpers"@) {
        4
    } else {
        5
    };
    assert(group.keywords[0] == "core"@);
    assert(group.keywords[1] == "shared"@);
    assert(group.keywords[2] == "common"@);
    assert(group.keywords[3] == "utils"@);
    assert(group.keywords[4] == "helpers"@);
    assert(group.keywords[5] == "lib"@);
    assert(group.patterns[0] == "**/core/**"@);
    law_hit_group_predicted(query_lower, extensions, 6, k, 0, e);
    assert(group.patterns[1] == "**/shared/**"@);
    law_hit_group_predicted(query_lower, extensions, 6, k, 1, e);
    assert(group.patterns[2] == "**/common/**"@);
    law_hit_group_predicted(query_lower, extensions, 6, k, 2, e);
    assert(group.patterns[3] == "**/utils/**"@);
    law_hit_group_predicted(query_lower, extensions, 6, k, 3, e);
    assert(group.patterns[4] == "**/lib/**"@);
    law_hit_group_predicted(query_lower, extensions, 6, k, 4, e);
}

/// A query in which a word for services stands has their directories predicted.
pub proof fn law_service_words(query_lower: Seq<char>, extensions: Seq<Seq<char>>, e: int)
    requires
        0 <= e < extensions.len(),
        has_word(query_lower, "service"@)
            || has_word(query_lower, "services"@),
    ensures
        is_predicted(query_lower, extensions, "**/services/**"@, extensions[e]),
        is_predicted(query_lower, extensions, "**/service/**"@, extensions[e]),
{
    let group = groups()[7];
    assert(group == service_group());
    let k: int = if has_word(query_lower, "service"@) {
        0
    } else {
        1
    };
    assert(group.keywords[0] == "service"@);
    assert(group.keywords[1] == "services"@);
    assert(group.patterns[0] == "**/services/**"@);
    law_hit_group_predicted(query_lower, extensions, 7, k, 0, e);
    assert(group.patterns[1] == "**/service/**"@);
    law_hit_group_predicted(query_lower, extensions, 7, k, 1, e);
}

} // verus!
