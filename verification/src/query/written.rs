//! The written forms of a query, and that reading one gives the query back.

use vstd::prelude::*;
use crate::query::parser;
use crate::query::parser::Parsed;
use crate::query::QueryModel;
use crate::strings;
use crate::text;

verus! {

broadcast use {vstd::string::group_string_axioms, vstd::seq::group_seq_axioms};

// ---------------------------------------------------------------------------
// The written form
// ---------------------------------------------------------------------------

/// A character as it is written in a string: a backslash stands before a double
/// quote and before a backslash.
pub open spec fn escaped_char(c: char) -> Seq<char> {
    if c == '"' || c == '\\' {
        seq!['\\', c]
    } else {
        seq![c]
    }
}

/// The characters of a text as they are written in a string.
pub open spec fn escaped(t: Seq<char>) -> Seq<char>
    decreases t.len(),
{
    if t.len() == 0 {
        Seq::empty()
    } else {
        escaped_char(t[0]) + escaped(t.drop_first())
    }
}

/// A text as it is written, in double quotes.
pub open spec fn shown_text(t: Seq<char>) -> Seq<char> {
    seq!['"'] + (escaped(t) + seq!['"'])
}

/// The operator of a query.
pub open spec fn operator(q: QueryModel) -> Seq<char> {
    match q {
        QueryModel::Section(_) => "section"@,
        QueryModel::Grep(_) => "grep"@,
        QueryModel::File(_) => "file"@,
        QueryModel::Code(_) => "code"@,
        QueryModel::InFile(_, _) => "in-file"@,
        QueryModel::Union(_) => "union"@,
        QueryModel::Intersect(_) => "intersect"@,
        QueryModel::Limit(_, _) => "limit"@,
        QueryModel::Children(_) => "children"@,
        QueryModel::ChildrenNamed(_, _) => "children-named"@,
        QueryModel::Definition(_) => "definition"@,
        QueryModel::References(_) => "references"@,
    }
}

/// The gaps of a query as it is written, those of the queries in it included.
pub struct Layout {
    /// After the opening parenthesis.
    pub open: Seq<char>,
    /// Before the arguments.
    pub args: ArgLayout,
    /// Before the closing parenthesis.
    pub close: Seq<char>,
}

/// The gaps before the arguments of a query.
pub enum ArgLayout {
    /// Before the only argument.
    One(Seq<char>),
    /// Before each of two arguments.
    Two(Seq<char>, Seq<char>),
    /// Before the first argument and before a query, and those of the query.
    Nested(Seq<char>, Seq<char>, Box<Layout>),
    /// Before each query of a list, and those of the query.
    List(Seq<(Seq<char>, Layout)>),
}

/// Whether a text is whitespace, or empty.
pub open spec fn is_space(gap: Seq<char>) -> bool {
    forall|i: int| 0 <= i < gap.len() ==> text::char_is_whitespace(#[trigger] gap[i])
}

/// Whether there are gaps for a query, and every gap is whitespace. Only between
/// the operator `limit` and the number after it there must be some.
pub open spec fn is_laid_out(q: QueryModel, l: Layout) -> bool
    decreases q, 1nat,
{
    is_space(l.open) && is_space(l.close) && args_laid_out(q, l.args)
}

/// The same of the gaps before the arguments of a query.
pub open spec fn args_laid_out(q: QueryModel, l: ArgLayout) -> bool
    decreases q, 0nat,
{
    match (q, l) {
        (QueryModel::Section(_), ArgLayout::One(g)) => is_space(g),
        (QueryModel::Grep(_), ArgLayout::One(g)) => is_space(g),
        (QueryModel::File(_), ArgLayout::One(g)) => is_space(g),
        (QueryModel::Code(_), ArgLayout::One(g)) => is_space(g),
        (QueryModel::Children(_), ArgLayout::One(g)) => is_space(g),
        (QueryModel::Definition(_), ArgLayout::One(g)) => is_space(g),
        (QueryModel::References(_), ArgLayout::One(g)) => is_space(g),
        (QueryModel::ChildrenNamed(_, _), ArgLayout::Two(g, h)) => is_space(g) && is_space(h),
        (QueryModel::InFile(_, sub), ArgLayout::Nested(g, h, inner)) => is_space(g) && is_space(h)
            && is_laid_out(*sub, *inner),
        (QueryModel::Limit(_, sub), ArgLayout::Nested(g, h, inner)) => is_space(g) && g.len() > 0
            && is_space(h) && is_laid_out(*sub, *inner),
        (QueryModel::Union(qs), ArgLayout::List(ls)) => ls.len() == qs.len() && all_laid_out(
            qs,
            ls,
            qs.len(),
        ),
        (QueryModel::Intersect(qs), ArgLayout::List(ls)) => ls.len() == qs.len() && all_laid_out(
            qs,
            ls,
            qs.len(),
        ),
        _ => false,
    }
}

/// The same of the first `n` queries of a list.
pub open spec fn all_laid_out(qs: Seq<QueryModel>, ls: Seq<(Seq<char>, Layout)>, n: nat) -> bool
    decreases qs, n,
{
    if n == 0 || n > qs.len() {
        true
    } else {
        &&& all_laid_out(qs, ls, (n - 1) as nat)
        &&& is_space(ls[n - 1].0)
        &&& is_laid_out(qs[n - 1], ls[n - 1].1)
    }
}

/// The arguments of a query as they are written, each after its gap.
pub open spec fn shown_args(q: QueryModel, l: ArgLayout) -> Seq<char>
    decreases q, 0nat,
{
    match (q, l) {
        (QueryModel::Section(t), ArgLayout::One(g)) => g + shown_text(t),
        (QueryModel::Grep(t), ArgLayout::One(g)) => g + shown_text(t),
        (QueryModel::File(t), ArgLayout::One(g)) => g + shown_text(t),
        (QueryModel::Code(t), ArgLayout::One(g)) => g + shown_text(t),
        (QueryModel::Children(t), ArgLayout::One(g)) => g + shown_text(t),
        (QueryModel::Definition(t), ArgLayout::One(g)) => g + shown_text(t),
        (QueryModel::References(t), ArgLayout::One(g)) => g + shown_text(t),
        (QueryModel::ChildrenNamed(parent, symbol), ArgLayout::Two(g, h)) => g + (shown_text(
            parent,
        ) + (h + shown_text(symbol))),
        (QueryModel::InFile(glob, sub), ArgLayout::Nested(g, h, inner)) => g + (shown_text(glob) + (
        h + show(*sub, *inner))),
        (QueryModel::Limit(n, sub), ArgLayout::Nested(g, h, inner)) => g + (strings::decimal(
            n as nat,
        ) + (h + show(*sub, *inner))),
        (QueryModel::Union(qs), ArgLayout::List(ls)) => show_all(qs, ls, qs.len()),
        (QueryModel::Intersect(qs), ArgLayout::List(ls)) => show_all(qs, ls, qs.len()),
        _ => Seq::empty(),
    }
}

/// A query as it is written with the given gaps.
pub open spec fn show(q: QueryModel, l: Layout) -> Seq<char>
    decreases q, 1nat,
{
    seq!['('] + (l.open + (operator(q) + (shown_args(q, l.args) + (l.close + seq![')']))))
}

/// The first `n` queries of a list as they are written, each after its gap.
pub open spec fn show_all(qs: Seq<QueryModel>, ls: Seq<(Seq<char>, Layout)>, n: nat) -> Seq<char>
    decreases qs, n,
{
    if n == 0 || n > qs.len() {
        Seq::empty()
    } else {
        show_all(qs, ls, (n - 1) as nat) + (ls[n - 1].0 + show(qs[n - 1], ls[n - 1].1))
    }
}

// ---------------------------------------------------------------------------
// Reading tokens back
// ---------------------------------------------------------------------------

/// The parts of a text that occurs somewhere occur one after the other.
proof fn lemma_parts(s: Seq<char>, a: Seq<char>, b: Seq<char>, p: int)
    requires
        strings::occurs_at(s, a + b, p),
    ensures
        strings::occurs_at(s, a, p),
        strings::occurs_at(s, b, p + a.len()),
        a.len() > 0 ==> s[p] == a[0],
        b.len() > 0 ==> s[p + a.len()] == b[0],
{
    let whole = s.subrange(p, p + (a + b).len());
    assert(s.subrange(p, p + a.len()) =~= a) by {
        assert forall|i: int| 0 <= i < a.len() implies s.subrange(p, p + a.len())[i] == a[i] by {
            assert(whole[i] == (a + b)[i]);
        }
    }
    assert(s.subrange(p + a.len(), p + a.len() + b.len()) =~= b) by {
        assert forall|i: int| 0 <= i < b.len() implies s.subrange(
            p + a.len(),
            p + a.len() + b.len(),
        )[i] == b[i] by {
            assert(whole[a.len() + i] == (a + b)[a.len() + i]);
        }
    }
    if a.len() > 0 {
        assert(s.subrange(p, p + a.len())[0] == a[0]);
    }
    if b.len() > 0 {
        assert(s.subrange(p + a.len(), p + a.len() + b.len())[0] == b[0]);
    }
}

/// A gap is skipped whole.
proof fn lemma_skip_gap(s: Seq<char>, gap: Seq<char>, p: int, k: int)
    requires
        is_space(gap),
        strings::occurs_at(s, gap, p),
        0 <= k <= gap.len(),
        p + gap.len() < s.len() ==> !text::char_is_whitespace(s[p + gap.len()]),
    ensures
        parser::skip_space(s, p + k) == p + gap.len(),
    decreases gap.len() - k,
{
    if k < gap.len() {
        assert(s.subrange(p, p + gap.len())[k] == gap[k]);
        assert(s[p + k] == gap[k]);
        lemma_skip_gap(s, gap, p, k + 1);
    }
}

/// Whether every character can be part of an operator.
pub open spec fn is_identifier(op: Seq<char>) -> bool {
    forall|i: int| 0 <= i < op.len() ==> parser::is_identifier_char(#[trigger] op[i])
}

/// An operator is read up to its end.
proof fn lemma_operator_end(s: Seq<char>, op: Seq<char>, p: int, k: int)
    requires
        is_identifier(op),
        strings::occurs_at(s, op, p),
        0 <= k <= op.len(),
        p + op.len() < s.len() ==> !parser::is_identifier_char(s[p + op.len()]),
    ensures
        parser::identifier_end(s, p + k) == p + op.len(),
    decreases op.len() - k,
{
    if k < op.len() {
        assert(s.subrange(p, p + op.len())[k] == op[k]);
        assert(s[p + k] == op[k]);
        lemma_operator_end(s, op, p, k + 1);
    }
}

/// What is left of a string is read up to its closing quote.
proof fn lemma_string_rest(s: Seq<char>, t: Seq<char>, p: int, seen: Seq<char>)
    requires
        strings::occurs_at(s, escaped(t) + seq!['"'], p),
    ensures
        parser::string_rest(s, p, seen) == Parsed::<Seq<char>>::Good(
            seen + t,
            p + escaped(t).len() + 1,
        ),
    decreases t.len(),
{
    if t.len() == 0 {
        lemma_parts(s, escaped(t), seq!['"'], p);
        assert(seen + t =~= seen);
    } else {
        let c = t[0];
        let rest = t.drop_first();
        let head = escaped_char(c);
        assert(escaped(t) + seq!['"'] =~= head + (escaped(rest) + seq!['"']));
        lemma_parts(s, head, escaped(rest) + seq!['"'], p);
        if c == '"' || c == '\\' {
            assert(s.subrange(p, p + 2)[1] == head[1]);
            assert(s[p + 1] == c);
        }
        lemma_string_rest(s, rest, p + head.len(), seen.push(c));
        assert(seen.push(c) + rest =~= seen + t);
    }
}

/// A string is read back.
proof fn lemma_string(s: Seq<char>, t: Seq<char>, p: int)
    requires
        strings::occurs_at(s, shown_text(t), p),
    ensures
        parser::string_at(s, p) == Parsed::<Seq<char>>::Good(t, p + shown_text(t).len()),
        s[p] == '"',
{
    lemma_parts(s, seq!['"'], escaped(t) + seq!['"'], p);
    lemma_string_rest(s, t, p + 1, Seq::empty());
    assert(Seq::<char>::empty() + t =~= t);
}

/// The digits of a number stand for it.
proof fn lemma_decimal(n: nat)
    ensures
        strings::decimal(n).len() > 0,
        strings::all_digits(strings::decimal(n)),
        strings::digits_value(strings::decimal(n)) == n,
    decreases n,
{
    reveal_with_fuel(strings::digits_value, 2);
    if n >= 10 {
        lemma_decimal(n / 10);
        let head = strings::decimal(n / 10);
        assert(strings::decimal(n).drop_last() =~= head);
    } else {
        assert(strings::decimal(n).drop_last() =~= Seq::<char>::empty());
    }
}

/// Digits are read up to their end.
proof fn lemma_digits(s: Seq<char>, digits: Seq<char>, p: int, k: int)
    requires
        strings::all_digits(digits),
        strings::occurs_at(s, digits, p),
        0 <= k <= digits.len(),
        p + digits.len() < s.len() ==> !strings::is_digit(s[p + digits.len()]),
    ensures
        parser::digits_end(s, p + k) == p + digits.len(),
    decreases digits.len() - k,
{
    if k < digits.len() {
        assert(s.subrange(p, p + digits.len())[k] == digits[k]);
        assert(s[p + k] == digits[k]);
        lemma_digits(s, digits, p, k + 1);
    }
}

/// Operators are made of letters and hyphens.
proof fn lemma_operators()
    ensures
        is_identifier("section"@),
        is_identifier("grep"@),
        is_identifier("file"@),
        is_identifier("code"@),
        is_identifier("in-file"@),
        is_identifier("union"@),
        is_identifier("intersect"@),
        is_identifier("limit"@),
        is_identifier("children"@),
        is_identifier("children-named"@),
        is_identifier("definition"@),
        is_identifier("references"@),
{
    reveal_strlit("section");
    assert forall|i: int| 0 <= i < "section"@.len() implies parser::is_identifier_char(
        #[trigger] "section"@[i],
    ) by {
        assert(i == 0 || i == 1 || i == 2 || i == 3 || i == 4 || i == 5 || i == 6);
    }
    reveal_strlit("grep");
    assert forall|i: int| 0 <= i < "grep"@.len() implies parser::is_identifier_char(
        #[trigger] "grep"@[i],
    ) by {
        assert(i == 0 || i == 1 || i == 2 || i == 3);
    }
    reveal_strlit("file");
    assert forall|i: int| 0 <= i < "file"@.len() implies parser::is_identifier_char(
        #[trigger] "file"@[i],
    ) by {
        assert(i == 0 || i == 1 || i == 2 || i == 3);
    }
    reveal_strlit("code");
    assert forall|i: int| 0 <= i < "code"@.len() implies parser::is_identifier_char(
        #[trigger] "code"@[i],
    ) by {
        assert(i == 0 || i == 1 || i == 2 || i == 3);
    }
    reveal_strlit("in-file");
    assert forall|i: int| 0 <= i < "in-file"@.len() implies parser::is_identifier_char(
        #[trigger] "in-file"@[i],
    ) by {
        assert(i == 0 || i == 1 || i == 2 || i == 3 || i == 4 || i == 5 || i == 6);
    }
    reveal_strlit("union");
    assert forall|i: int| 0 <= i < "union"@.len() implies parser::is_identifier_char(
        #[trigger] "union"@[i],
    ) by {
        assert(i == 0 || i == 1 || i == 2 || i == 3 || i == 4);
    }
    reveal_strlit("intersect");
    assert forall|i: int| 0 <= i < "intersect"@.len() implies parser::is_identifier_char(
        #[trigger] "intersect"@[i],
    ) by {
        assert(i == 0 || i == 1 || i == 2 || i == 3 || i == 4 || i == 5 || i == 6
            || i == 7 || i == 8);
    }
    reveal_strlit("limit");
    assert forall|i: int| 0 <= i < "limit"@.len() implies parser::is_identifier_char(
        #[trigger] "limit"@[i],
    ) by {
        assert(i == 0 || i == 1 || i == 2 || i == 3 || i == 4);
    }
    reveal_strlit("children");
    assert forall|i: int| 0 <= i < "children"@.len() implies parser::is_identifier_char(
        #[trigger] "children"@[i],
    ) by {
        assert(i == 0 || i == 1 || i == 2 || i == 3 || i == 4 || i == 5 || i == 6
            || i == 7);
    }
    reveal_strlit("children-named");
    assert forall|i: int| 0 <= i < "children-named"@.len() implies parser::is_identifier_char(
        #[trigger] "children-named"@[i],
    ) by {
        assert(i == 0 || i == 1 || i == 2 || i == 3 || i == 4 || i == 5 || i == 6
            || i == 7 || i == 8 || i == 9 || i == 10 || i == 11 || i == 12 || i == 13);
    }
    reveal_strlit("definition");
    assert forall|i: int| 0 <= i < "definition"@.len() implies parser::is_identifier_char(
        #[trigger] "definition"@[i],
    ) by {
        assert(i == 0 || i == 1 || i == 2 || i == 3 || i == 4 || i == 5 || i == 6
            || i == 7 || i == 8 || i == 9);
    }
    reveal_strlit("references");
    assert forall|i: int| 0 <= i < "references"@.len() implies parser::is_identifier_char(
        #[trigger] "references"@[i],
    ) by {
        assert(i == 0 || i == 1 || i == 2 || i == 3 || i == 4 || i == 5 || i == 6
            || i == 7 || i == 8 || i == 9);
    }
}

/// Each operator with one string makes its query.
proof fn lemma_text_operators(t: Seq<char>)
    ensures
        parser::text_query("section"@, t) == Some(QueryModel::Section(t)),
        parser::text_query("grep"@, t) == Some(QueryModel::Grep(t)),
        parser::text_query("file"@, t) == Some(QueryModel::File(t)),
        parser::text_query("code"@, t) == Some(QueryModel::Code(t)),
        parser::text_query("children"@, t) == Some(QueryModel::Children(t)),
        parser::text_query("definition"@, t) == Some(QueryModel::Definition(t)),
        parser::text_query("references"@, t) == Some(QueryModel::References(t)),
{
    reveal_strlit("section");
    reveal_strlit("grep");
    reveal_strlit("file");
    reveal_strlit("code");
    reveal_strlit("children");
    reveal_strlit("definition");
    reveal_strlit("references");
    assert("section"@[0] == 's');
    assert("grep"@[0] == 'g');
    assert("file"@[0] == 'f');
    assert("code"@[1] == 'o');
    assert("children"@[1] == 'h');
    assert("definition"@[0] == 'd');
    assert("references"@[0] == 'r');
}

// ---------------------------------------------------------------------------
// Reading queries back
// ---------------------------------------------------------------------------

/// A string after a gap is read back.
proof fn lemma_text_arg(s: Seq<char>, t: Seq<char>, gap: Seq<char>, p: int)
    requires
        is_space(gap),
        strings::occurs_at(s, gap + shown_text(t), p),
    ensures
        parser::string_at(s, parser::skip_space(s, p)) == Parsed::<Seq<char>>::Good(
            t,
            p + (gap + shown_text(t)).len(),
        ),
{
    lemma_parts(s, gap, shown_text(t), p);
    lemma_string(s, t, p + gap.len());
    lemma_skip_gap(s, gap, p, 0);
}

/// The arguments of a query are read back, up to the closing parenthesis.
proof fn lemma_args(s: Seq<char>, q: QueryModel, l: ArgLayout, close: Seq<char>, p: int)
    requires
        args_laid_out(q, l),
        is_space(close),
        strings::occurs_at(s, shown_args(q, l) + (close + seq![')']), p),
    ensures
        parser::body_at(s, operator(q), p) matches Parsed::Good(r, n) && r == q
            && parser::skip_space(s, n) == p + shown_args(q, l).len() + close.len(),
    decreases q, 0nat,
{
    let after = p + shown_args(q, l).len();
    lemma_parts(s, shown_args(q, l), close + seq![')'], p);
    lemma_parts(s, close, seq![')'], after);
    lemma_skip_gap(s, close, after, 0);
    parser::lemma_list_operators();
    parser::lemma_other_operators();
    match (q, l) {
        (QueryModel::ChildrenNamed(parent, symbol), ArgLayout::Two(g, h)) => {
            let second = h + shown_text(symbol);
            lemma_parts(s, g, shown_text(parent) + second, p);
            let at = p + g.len();
            lemma_parts(s, shown_text(parent), second, at);
            lemma_string(s, parent, at);
            lemma_skip_gap(s, g, p, 0);
            lemma_text_arg(s, symbol, h, at + shown_text(parent).len());
        },
        (QueryModel::InFile(glob, sub), ArgLayout::Nested(g, h, inner)) => {
            let second = h + show(*sub, *inner);
            lemma_parts(s, g, shown_text(glob) + second, p);
            let at = p + g.len();
            lemma_parts(s, shown_text(glob), second, at);
            lemma_string(s, glob, at);
            lemma_skip_gap(s, g, p, 0);
            let next = at + shown_text(glob).len();
            lemma_parts(s, h, show(*sub, *inner), next);
            lemma_query(s, *sub, *inner, next + h.len());
            lemma_skip_gap(s, h, next, 0);
        },
        (QueryModel::Limit(n, sub), ArgLayout::Nested(g, h, inner)) => {
            let digits = strings::decimal(n as nat);
            let second = h + show(*sub, *inner);
            lemma_decimal(n as nat);
            lemma_parts(s, g, digits + second, p);
            let at = p + g.len();
            lemma_parts(s, digits, second, at);
            assert(strings::is_digit(digits[0]));
            lemma_skip_gap(s, g, p, 0);
            let next = at + digits.len();
            lemma_parts(s, h, show(*sub, *inner), next);
            lemma_query(s, *sub, *inner, next + h.len());
            assert(!strings::is_digit(s[next])) by {
                if h.len() > 0 {
                    assert(text::char_is_whitespace(h[0]));
                }
            }
            lemma_digits(s, digits, at, 0);
            assert(s.subrange(at, next) == digits);
            lemma_skip_gap(s, h, next, 0);
        },
        (QueryModel::Union(qs), ArgLayout::List(ls)) => {
            lemma_list(s, qs, ls, p, qs.len(), Seq::empty());
            assert(Seq::<QueryModel>::empty() + qs.take(qs.len() as int) =~= qs);
            assert(parser::skip_space(s, after + close.len()) == after + close.len());
        },
        (QueryModel::Intersect(qs), ArgLayout::List(ls)) => {
            lemma_list(s, qs, ls, p, qs.len(), Seq::empty());
            assert(Seq::<QueryModel>::empty() + qs.take(qs.len() as int) =~= qs);
            assert(parser::skip_space(s, after + close.len()) == after + close.len());
        },
        (_, ArgLayout::One(g)) => {
            let t = text_of(q);
            lemma_text_arg(s, t, g, p);
            lemma_text_operators(t);
            lemma_text_operators(Seq::empty());
        },
        _ => {},
    }
}

/// The string of a query that has only one argument.
spec fn text_of(q: QueryModel) -> Seq<char> {
    match q {
        QueryModel::Section(t) => t,
        QueryModel::Grep(t) => t,
        QueryModel::File(t) => t,
        QueryModel::Code(t) => t,
        QueryModel::Children(t) => t,
        QueryModel::Definition(t) => t,
        QueryModel::References(t) => t,
        _ => Seq::empty(),
    }
}

/// A query is read back wherever it stands.
proof fn lemma_query(s: Seq<char>, q: QueryModel, l: Layout, p: int)
    requires
        is_laid_out(q, l),
        strings::occurs_at(s, show(q, l), p),
    ensures
        parser::query_at(s, p) == Parsed::<QueryModel>::Good(q, p + show(q, l).len()),
        s[p] == '(',
    decreases q, 1nat,
{
    let op = operator(q);
    let args = shown_args(q, l.args) + (l.close + seq![')']);
    lemma_operators();
    lemma_operator_start(q);
    lemma_parts(s, seq!['('], l.open + (op + args), p);
    lemma_parts(s, l.open, op + args, p + 1);
    let start = p + 1 + l.open.len();
    lemma_parts(s, op, args, start);
    let end = start + op.len();
    lemma_args_start(q, l.args, l.close);
    assert(s[end] == args[0]);
    assert(s[start] == op[0]);
    assert(parser::skip_space(s, p) == p);
    lemma_skip_gap(s, l.open, p + 1, 0);
    lemma_operator_end(s, op, start, 0);
    assert(s.subrange(start, end) == op);
    lemma_args(s, q, l.args, l.close, end);
    lemma_parts(s, shown_args(q, l.args), l.close + seq![')'], end);
    let after = end + shown_args(q, l.args).len();
    lemma_parts(s, l.close, seq![')'], after);
    assert(s[after + l.close.len()] == ')');
}

/// An operator starts with a letter.
proof fn lemma_operator_start(q: QueryModel)
    ensures
        operator(q).len() > 0,
        'a' <= operator(q)[0] <= 'z',
{
    reveal_strlit("section");
    reveal_strlit("grep");
    reveal_strlit("file");
    reveal_strlit("code");
    reveal_strlit("in-file");
    reveal_strlit("union");
    reveal_strlit("intersect");
    reveal_strlit("limit");
    reveal_strlit("children");
    reveal_strlit("children-named");
    reveal_strlit("definition");
    reveal_strlit("references");
}

/// The first character of a gap and what follows it is no part of an operator,
/// if that of what follows is none.
proof fn lemma_gap_start(gap: Seq<char>, rest: Seq<char>)
    requires
        is_space(gap),
        rest.len() > 0,
        !parser::is_identifier_char(rest[0]),
    ensures
        !parser::is_identifier_char((gap + rest)[0]),
{
    if gap.len() > 0 {
        assert(text::char_is_whitespace(gap[0]));
        assert((gap + rest)[0] == gap[0]);
    } else {
        assert((gap + rest)[0] == rest[0]);
    }
}

/// What follows an operator is no part of it.
proof fn lemma_args_start(q: QueryModel, l: ArgLayout, close: Seq<char>)
    requires
        args_laid_out(q, l),
        is_space(close),
    ensures
        !parser::is_identifier_char((shown_args(q, l) + (close + seq![')']))[0]),
{
    let end = close + seq![')'];
    let args = shown_args(q, l);
    match (q, l) {
        (QueryModel::ChildrenNamed(parent, symbol), ArgLayout::Two(g, h)) => {
            lemma_gap_start(g, shown_text(parent) + (h + shown_text(symbol)));
            assert((args + end)[0] == args[0]);
        },
        (QueryModel::InFile(glob, sub), ArgLayout::Nested(g, h, inner)) => {
            lemma_gap_start(g, shown_text(glob) + (h + show(*sub, *inner)));
            assert((args + end)[0] == args[0]);
        },
        (QueryModel::Limit(n, sub), ArgLayout::Nested(g, h, inner)) => {
            assert((args + end)[0] == g[0]);
            assert(text::char_is_whitespace(g[0]));
        },
        (QueryModel::Union(qs), ArgLayout::List(ls)) => {
            lemma_gap_start(close, seq![')']);
            lemma_all_start(qs, ls, qs.len());
            if args.len() > 0 {
                assert((args + end)[0] == args[0]);
            } else {
                assert((args + end)[0] == end[0]);
            }
        },
        (QueryModel::Intersect(qs), ArgLayout::List(ls)) => {
            lemma_gap_start(close, seq![')']);
            lemma_all_start(qs, ls, qs.len());
            if args.len() > 0 {
                assert((args + end)[0] == args[0]);
            } else {
                assert((args + end)[0] == end[0]);
            }
        },
        (_, ArgLayout::One(g)) => {
            lemma_gap_start(g, shown_text(text_of(q)));
            assert((args + end)[0] == args[0]);
        },
        _ => {},
    }
}

/// A list starts with a gap or a query, or is empty.
proof fn lemma_all_start(qs: Seq<QueryModel>, ls: Seq<(Seq<char>, Layout)>, n: nat)
    requires
        n <= qs.len(),
        all_laid_out(qs, ls, n),
    ensures
        show_all(qs, ls, n).len() > 0 ==> !parser::is_identifier_char(show_all(qs, ls, n)[0]),
    decreases n,
{
    if n > 0 {
        lemma_all_start(qs, ls, (n - 1) as nat);
        let before = show_all(qs, ls, (n - 1) as nat);
        let (gap, inner) = ls[n - 1];
        lemma_gap_start(gap, show(qs[n - 1], inner));
        if before.len() > 0 {
            assert(show_all(qs, ls, n)[0] == before[0]);
        } else {
            assert(show_all(qs, ls, n)[0] == (gap + show(qs[n - 1], inner))[0]);
        }
    }
}

/// The first `n` queries of a list are read back one after the other.
proof fn lemma_list(
    s: Seq<char>,
    qs: Seq<QueryModel>,
    ls: Seq<(Seq<char>, Layout)>,
    p: int,
    n: nat,
    seen: Seq<QueryModel>,
)
    requires
        n <= qs.len(),
        all_laid_out(qs, ls, n),
        strings::occurs_at(s, show_all(qs, ls, n), p),
    ensures
        parser::list_at(s, p, seen) == parser::list_at(
            s,
            p + show_all(qs, ls, n).len(),
            seen + qs.take(n as int),
        ),
    decreases qs, n,
{
    if n == 0 {
        assert(seen + qs.take(0) =~= seen);
    } else {
        let before = (n - 1) as nat;
        let (gap, inner) = ls[n - 1];
        let shown = show(qs[n - 1], inner);
        lemma_parts(s, show_all(qs, ls, before), gap + shown, p);
        lemma_list(s, qs, ls, p, before, seen);
        let from = p + show_all(qs, ls, before).len();
        let so_far = seen + qs.take(before as int);
        lemma_parts(s, gap, shown, from);
        lemma_query(s, qs[n - 1], inner, from + gap.len());
        lemma_skip_gap(s, gap, from, 0);
        parser::lemma_list_step(s, from, so_far);
        assert(parser::query_at(s, from + gap.len()) == Parsed::<QueryModel>::Good(
            qs[n - 1],
            from + gap.len() + shown.len(),
        ));
        assert(so_far.push(qs[n - 1]) =~= seen + qs.take(n as int));
    }
}

/// Whitespace around a text that has none at its ends is trimmed.
proof fn lemma_trim(before: Seq<char>, s: Seq<char>, after: Seq<char>)
    requires
        is_space(before),
        is_space(after),
        s.len() > 0,
        !text::char_is_whitespace(s[0]),
        !text::char_is_whitespace(s.last()),
    ensures
        strings::trim_spec(before + s + after) == s,
{
    lemma_trim_start(before, s + after);
    assert(before + s + after =~= before + (s + after));
    lemma_trim_end(s, after);
}

proof fn lemma_trim_start(before: Seq<char>, s: Seq<char>)
    requires
        is_space(before),
        s.len() > 0,
        !text::char_is_whitespace(s[0]),
    ensures
        strings::trim_start_spec(before + s) == s,
    decreases before.len(),
{
    if before.len() > 0 {
        assert(text::char_is_whitespace(before[0]));
        assert((before + s).drop_first() =~= before.drop_first() + s);
        lemma_trim_start(before.drop_first(), s);
    } else {
        assert(before + s =~= s);
    }
}

proof fn lemma_trim_end(s: Seq<char>, after: Seq<char>)
    requires
        is_space(after),
        s.len() > 0,
        !text::char_is_whitespace(s.last()),
    ensures
        strings::trim_end_spec(s + after) == s,
    decreases after.len(),
{
    if after.len() > 0 {
        assert(text::char_is_whitespace(after[after.len() - 1]));
        assert((s + after).drop_last() =~= s + after.drop_last());
        lemma_trim_end(s, after.drop_last());
    } else {
        assert(s + after =~= s);
    }
}

/// Reading a written form of a query gives the query back: the same operators,
/// strings and numbers, and the same queries in the same order, whatever the gaps
/// between tokens and around the whole.
pub proof fn law_parse_shown(q: QueryModel, l: Layout, before: Seq<char>, after: Seq<char>)
    requires
        is_laid_out(q, l),
        is_space(before),
        is_space(after),
    ensures
        parser::parse_spec(before + show(q, l) + after) == Result::<
            QueryModel,
            (int, Seq<char>),
        >::Ok(q),
{
    let s = show(q, l);
    assert(s.subrange(0, s.len() as int) =~= s);
    lemma_query(s, q, l, 0);
    assert(s.last() == ')');
    lemma_trim(before, s, after);
}

/// The same gap before every argument of a query and of the queries in it, and
/// none within the parentheses.
pub open spec fn even_layout(q: QueryModel, gap: Seq<char>) -> Layout
    decreases q, 0nat,
{
    Layout {
        open: Seq::empty(),
        args: match q {
            QueryModel::ChildrenNamed(_, _) => ArgLayout::Two(gap, gap),
            QueryModel::InFile(_, sub) => ArgLayout::Nested(
                gap,
                gap,
                Box::new(even_layout(*sub, gap)),
            ),
            QueryModel::Limit(_, sub) => ArgLayout::Nested(
                gap,
                gap,
                Box::new(even_layout(*sub, gap)),
            ),
            QueryModel::Union(qs) => ArgLayout::List(even_layouts(qs, gap, qs.len())),
            QueryModel::Intersect(qs) => ArgLayout::List(even_layouts(qs, gap, qs.len())),
            _ => ArgLayout::One(gap),
        },
        close: Seq::empty(),
    }
}

/// The same gap before each of the first `n` queries of a list, and in them.
pub open spec fn even_layouts(qs: Seq<QueryModel>, gap: Seq<char>, n: nat) -> Seq<
    (Seq<char>, Layout),
>
    decreases qs, n,
{
    if n == 0 || n > qs.len() {
        Seq::empty()
    } else {
        even_layouts(qs, gap, (n - 1) as nat).push((gap, even_layout(qs[n - 1], gap)))
    }
}

/// Every query can be written, with a space before each argument or with any
/// other whitespace.
pub proof fn law_can_be_shown(q: QueryModel, gap: Seq<char>)
    requires
        is_space(gap),
        gap.len() > 0,
    ensures
        is_space(seq![' ']),
        is_laid_out(q, even_layout(q, gap)),
    decreases q, 0nat,
{
    match q {
        QueryModel::InFile(_, sub) => {
            law_can_be_shown(*sub, gap);
        },
        QueryModel::Limit(_, sub) => {
            law_can_be_shown(*sub, gap);
        },
        QueryModel::Union(qs) => {
            let ls = even_layouts(qs, gap, qs.len());
            lemma_even_len(qs, gap, qs.len());
            assert(ls.take(qs.len() as int) =~= ls);
            lemma_even_layouts(qs, gap, qs.len(), ls);
        },
        QueryModel::Intersect(qs) => {
            let ls = even_layouts(qs, gap, qs.len());
            lemma_even_len(qs, gap, qs.len());
            assert(ls.take(qs.len() as int) =~= ls);
            lemma_even_layouts(qs, gap, qs.len(), ls);
        },
        _ => {},
    }
}

proof fn lemma_even_len(qs: Seq<QueryModel>, gap: Seq<char>, n: nat)
    requires
        n <= qs.len(),
    ensures
        even_layouts(qs, gap, n).len() == n,
    decreases n,
{
    if n > 0 {
        lemma_even_len(qs, gap, (n - 1) as nat);
    }
}

proof fn lemma_even_layouts(
    qs: Seq<QueryModel>,
    gap: Seq<char>,
    n: nat,
    ls: Seq<(Seq<char>, Layout)>,
)
    requires
        is_space(gap),
        gap.len() > 0,
        n <= qs.len(),
        ls.len() >= n,
        ls.take(n as int) == even_layouts(qs, gap, n),
    ensures
        all_laid_out(qs, ls, n),
    decreases qs, n,
{
    if n > 0 {
        let before = (n - 1) as nat;
        assert(even_layouts(qs, gap, n).drop_last() =~= even_layouts(qs, gap, before));
        assert(ls.take(n as int).drop_last() =~= ls.take(before as int));
        assert(ls.take(n as int).last() == ls[n - 1]);
        lemma_even_layouts(qs, gap, before, ls);
        law_can_be_shown(qs[n - 1], gap);
    }
}

} // verus!
