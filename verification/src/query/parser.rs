//! S-expression parser for query expressions.

use vstd::prelude::*;
use vstd::utf8::*;
use crate::error::CanopyError;
use crate::query;
use crate::query::{Query, QueryModel};
use crate::strings;
use crate::strings::{concat, digits_to_u64, trim};
use crate::text;
use crate::text::{char_width, from_chars, is_alphanumeric, is_whitespace, len_bytes, str_eq, to_chars};

verus! {

broadcast use {vstd::string::group_string_axioms, vstd::seq::group_seq_axioms};

/// What parsing from some character on gives: a value and the character after
/// it, or the character at which something else was expected, and a message.
pub enum Parsed<T> {
    Good(T, int),
    Bad(int, Seq<char>),
}

// ---------------------------------------------------------------------------
// Tokens
// ---------------------------------------------------------------------------

/// The first character at or after `p` that is not whitespace.
pub open spec fn skip_space(s: Seq<char>, p: int) -> int
    decreases s.len() - p,
{
    if 0 <= p < s.len() && text::char_is_whitespace(s[p]) {
        skip_space(s, p + 1)
    } else {
        p
    }
}

/// Whether a character can be part of an identifier.
pub open spec fn is_identifier_char(c: char) -> bool {
    text::char_is_alphanumeric(c) || c == '-' || c == '_'
}

/// The end of the identifier that starts at `p`.
pub open spec fn identifier_end(s: Seq<char>, p: int) -> int
    decreases s.len() - p,
{
    if 0 <= p < s.len() && is_identifier_char(s[p]) {
        identifier_end(s, p + 1)
    } else {
        p
    }
}

/// The end of the digits that start at `p`.
pub open spec fn digits_end(s: Seq<char>, p: int) -> int
    decreases s.len() - p,
{
    if 0 <= p < s.len() && strings::is_digit(s[p]) {
        digits_end(s, p + 1)
    } else {
        p
    }
}

/// Whether the character at `p` is `c`.
pub open spec fn at(s: Seq<char>, p: int, c: char) -> bool {
    0 <= p < s.len() && s[p] == c
}

/// What a backslash before `c` stands for.
pub open spec fn unescaped(c: char) -> char {
    if c == 'n' {
        '\n'
    } else if c == 't' {
        '\t'
    } else if c == 'r' {
        '\r'
    } else {
        c
    }
}

/// The rest of a string, of which `seen` has been read, from `p` on.
pub open spec fn string_rest(s: Seq<char>, p: int, seen: Seq<char>) -> Parsed<Seq<char>>
    decreases s.len() - p,
{
    if p < 0 || p >= s.len() {
        Parsed::Bad(p, "Unterminated string"@)
    } else if s[p] == '"' {
        Parsed::Good(seen, p + 1)
    } else if s[p] == '\\' {
        if p + 1 >= s.len() {
            Parsed::Bad(p + 1, "Unterminated string"@)
        } else {
            string_rest(s, p + 2, seen.push(unescaped(s[p + 1])))
        }
    } else {
        string_rest(s, p + 1, seen.push(s[p]))
    }
}

/// The string in double quotes at `p`.
pub open spec fn string_at(s: Seq<char>, p: int) -> Parsed<Seq<char>> {
    if at(s, p, '"') {
        string_rest(s, p + 1, Seq::empty())
    } else {
        Parsed::Bad(p, "Expected '\"'"@)
    }
}

/// The number at `p`.
pub open spec fn number_at(s: Seq<char>, p: int) -> Parsed<usize> {
    let end = digits_end(s, p);
    let value = strings::digits_value(s.subrange(p, end));
    if end > p && value <= usize::MAX {
        Parsed::Good(value as usize, end)
    } else {
        Parsed::Bad(end, "Expected number"@)
    }
}

pub proof fn lemma_skip_space(s: Seq<char>, p: int)
    requires
        0 <= p <= s.len(),
    ensures
        p <= skip_space(s, p) <= s.len(),
    decreases s.len() - p,
{
    if p < s.len() && text::char_is_whitespace(s[p]) {
        lemma_skip_space(s, p + 1);
    }
}

pub proof fn lemma_identifier_end(s: Seq<char>, p: int)
    requires
        0 <= p <= s.len(),
    ensures
        p <= identifier_end(s, p) <= s.len(),
    decreases s.len() - p,
{
    if p < s.len() && is_identifier_char(s[p]) {
        lemma_identifier_end(s, p + 1);
    }
}

pub proof fn lemma_digits_end(s: Seq<char>, p: int)
    requires
        0 <= p <= s.len(),
    ensures
        p <= digits_end(s, p) <= s.len(),
        strings::all_digits(s.subrange(p, digits_end(s, p))),
    decreases s.len() - p,
{
    if p < s.len() && strings::is_digit(s[p]) {
        lemma_digits_end(s, p + 1);
        let whole = s.subrange(p, digits_end(s, p));
        let tail = s.subrange(p + 1, digits_end(s, p));
        assert forall|i: int| 0 <= i < whole.len() implies strings::is_digit(#[trigger] whole[i]) by {
            if i > 0 {
                assert(whole[i] == tail[i - 1]);
            }
        }
    }
}

pub proof fn lemma_string_rest(s: Seq<char>, p: int, seen: Seq<char>)
    requires
        0 <= p <= s.len(),
    ensures
        match string_rest(s, p, seen) {
            Parsed::Good(_, n) => p < n <= s.len(),
            Parsed::Bad(n, _) => p <= n <= s.len(),
        },
    decreases s.len() - p,
{
    if p >= s.len() {
    } else if s[p] == '"' {
    } else if s[p] == '\\' {
        if p + 1 < s.len() {
            lemma_string_rest(s, p + 2, seen.push(unescaped(s[p + 1])));
        }
    } else {
        lemma_string_rest(s, p + 1, seen.push(s[p]));
    }
}

pub proof fn lemma_string_at(s: Seq<char>, p: int)
    requires
        0 <= p <= s.len(),
    ensures
        match string_at(s, p) {
            Parsed::Good(_, n) => p < n <= s.len(),
            Parsed::Bad(n, _) => p <= n <= s.len(),
        },
{
    if at(s, p, '"') {
        lemma_string_rest(s, p + 1, Seq::empty());
    }
}

// ---------------------------------------------------------------------------
// Queries
// ---------------------------------------------------------------------------

/// The query with one string argument that an operator makes.
pub open spec fn text_query(op: Seq<char>, arg: Seq<char>) -> Option<QueryModel> {
    if op == "section"@ {
        Some(QueryModel::Section(arg))
    } else if op == "grep"@ {
        Some(QueryModel::Grep(arg))
    } else if op == "file"@ {
        Some(QueryModel::File(arg))
    } else if op == "code"@ {
        Some(QueryModel::Code(arg))
    } else if op == "children"@ {
        Some(QueryModel::Children(arg))
    } else if op == "definition"@ {
        Some(QueryModel::Definition(arg))
    } else if op == "references"@ {
        Some(QueryModel::References(arg))
    } else {
        None
    }
}

/// A query, then whitespace and a closing parenthesis.
pub open spec fn closed_query(s: Seq<char>, body: Parsed<QueryModel>) -> Parsed<QueryModel> {
    match body {
        Parsed::Good(q, n) => {
            let p = skip_space(s, n);
            if at(s, p, ')') {
                Parsed::Good(q, p + 1)
            } else {
                Parsed::Bad(p, "Expected ')'"@)
            }
        },
        Parsed::Bad(p, m) => Parsed::Bad(p, m),
    }
}

/// The query at `p`.
pub open spec fn query_at(s: Seq<char>, p: int) -> Parsed<QueryModel>
    decreases s.len() - p, 2int,
    via query_at_decreases
{
    let open = skip_space(s, p);
    let start = skip_space(s, open + 1);
    let end = identifier_end(s, start);
    if p < 0 || !at(s, open, '(') {
        Parsed::Bad(open, "Expected '('"@)
    } else if end == start {
        Parsed::Bad(start, "Expected identifier"@)
    } else {
        closed_query(s, body_at(s, s.subrange(start, end), end))
    }
}

/// The arguments of the operator `op` from `p` on.
pub open spec fn body_at(s: Seq<char>, op: Seq<char>, p: int) -> Parsed<QueryModel>
    decreases s.len() - p, 1int,
    via body_at_decreases
{
    let arg = skip_space(s, p);
    if p < 0 || p > s.len() {
        Parsed::Bad(p, Seq::empty())
    } else if text_query(op, Seq::empty()) is Some {
        match string_at(s, arg) {
            Parsed::Good(t, n) => Parsed::Good(text_query(op, t)->0, n),
            Parsed::Bad(n, m) => Parsed::Bad(n, m),
        }
    } else if op == "in-file"@ {
        match string_at(s, arg) {
            Parsed::Good(glob, n) => match query_at(s, skip_space(s, n)) {
                Parsed::Good(q, n) => Parsed::Good(QueryModel::InFile(glob, Box::new(q)), n),
                Parsed::Bad(n, m) => Parsed::Bad(n, m),
            },
            Parsed::Bad(n, m) => Parsed::Bad(n, m),
        }
    } else if op == "union"@ || op == "intersect"@ {
        match list_at(s, p, Seq::empty()) {
            Parsed::Good(qs, n) => Parsed::Good(
                if op == "union"@ {
                    QueryModel::Union(qs)
                } else {
                    QueryModel::Intersect(qs)
                },
                n,
            ),
            Parsed::Bad(n, m) => Parsed::Bad(n, m),
        }
    } else if op == "limit"@ {
        match number_at(s, arg) {
            Parsed::Good(count, n) => match query_at(s, skip_space(s, n)) {
                Parsed::Good(q, n) => Parsed::Good(QueryModel::Limit(count, Box::new(q)), n),
                Parsed::Bad(n, m) => Parsed::Bad(n, m),
            },
            Parsed::Bad(n, m) => Parsed::Bad(n, m),
        }
    } else if op == "children-named"@ {
        match string_at(s, arg) {
            Parsed::Good(parent, n) => match string_at(s, skip_space(s, n)) {
                Parsed::Good(symbol, n) => Parsed::Good(
                    QueryModel::ChildrenNamed(parent, symbol),
                    n,
                ),
                Parsed::Bad(n, m) => Parsed::Bad(n, m),
            },
            Parsed::Bad(n, m) => Parsed::Bad(n, m),
        }
    } else {
        Parsed::Bad(p, "Unknown operator: "@ + op)
    }
}

/// The queries, of which `seen` have been read, from `p` up to a closing
/// parenthesis.
pub open spec fn list_at(s: Seq<char>, p: int, seen: Seq<QueryModel>) -> Parsed<Seq<QueryModel>>
    decreases s.len() - p, 0int,
    via list_at_decreases
{
    let start = skip_space(s, p);
    if p < 0 || p > s.len() {
        Parsed::Bad(p, Seq::empty())
    } else if at(s, start, ')') {
        Parsed::Good(seen, start)
    } else if !at(s, start, '(') {
        Parsed::Bad(start, "Expected '('"@)
    } else {
        let inner = skip_space(s, start + 1);
        let end = identifier_end(s, inner);
        if end == inner {
            Parsed::Bad(inner, "Expected identifier"@)
        } else {
            match closed_query(s, body_at(s, s.subrange(inner, end), end)) {
                Parsed::Good(q, n) => if n > p {
                    list_at(s, n, seen.push(q))
                } else {
                    Parsed::Bad(p, Seq::empty())
                },
                Parsed::Bad(n, m) => Parsed::Bad(n, m),
            }
        }
    }
}

#[via_fn]
proof fn query_at_decreases(s: Seq<char>, p: int) {
    if 0 <= p <= s.len() {
        lemma_first_operator(s, p);
    }
}

#[via_fn]
proof fn body_at_decreases(s: Seq<char>, op: Seq<char>, p: int) {
    if 0 <= p <= s.len() {
        lemma_first_argument(s, p);
    }
}

#[via_fn]
proof fn list_at_decreases(s: Seq<char>, p: int, seen: Seq<QueryModel>) {
    if 0 <= p <= s.len() {
        lemma_first_operator(s, p);
    }
}

/// The first argument and what follows it lie at or after `p`.
proof fn lemma_first_argument(s: Seq<char>, p: int)
    requires
        0 <= p <= s.len(),
    ensures
        p <= skip_space(s, p) <= s.len(),
        match string_at(s, skip_space(s, p)) {
            Parsed::Good(_, n) => p < n <= skip_space(s, n) <= s.len(),
            Parsed::Bad(n, _) => p <= n <= s.len(),
        },
        match number_at(s, skip_space(s, p)) {
            Parsed::Good(_, n) => p < n <= skip_space(s, n) <= s.len(),
            Parsed::Bad(n, _) => p <= n <= s.len(),
        },
{
    lemma_skip_space(s, p);
    let arg = skip_space(s, p);
    lemma_string_at(s, arg);
    lemma_digits_end(s, arg);
    match string_at(s, arg) {
        Parsed::Good(_, n) => {
            lemma_skip_space(s, n);
        },
        Parsed::Bad(_, _) => {},
    }
    match number_at(s, arg) {
        Parsed::Good(_, n) => {
            lemma_skip_space(s, n);
        },
        Parsed::Bad(_, _) => {},
    }
}

/// The operator of the next query lies after `p`.
proof fn lemma_first_operator(s: Seq<char>, p: int)
    requires
        0 <= p <= s.len(),
    ensures
        p <= skip_space(s, p) <= s.len(),
        skip_space(s, p) < s.len() ==> ({
            let inner = skip_space(s, skip_space(s, p) + 1);
            p < inner <= identifier_end(s, inner) <= s.len()
        }),
{
    lemma_skip_space(s, p);
    let start = skip_space(s, p);
    if start < s.len() {
        lemma_skip_space(s, start + 1);
        lemma_identifier_end(s, skip_space(s, start + 1));
    }
}

/// A query that was read ends after its start and within the text, and so does
/// what was read before an error.
pub proof fn lemma_query_at(s: Seq<char>, p: int)
    requires
        0 <= p <= s.len(),
    ensures
        match query_at(s, p) {
            Parsed::Good(_, n) => p < n <= s.len(),
            Parsed::Bad(n, _) => p <= n <= s.len(),
        },
    decreases s.len() - p, 2int,
{
    lemma_skip_space(s, p);
    let open = skip_space(s, p);
    if at(s, open, '(') {
        lemma_skip_space(s, open + 1);
        let start = skip_space(s, open + 1);
        lemma_identifier_end(s, start);
        let end = identifier_end(s, start);
        if end > start {
            lemma_body_at(s, s.subrange(start, end), end);
            lemma_closed_query(s, body_at(s, s.subrange(start, end), end), end);
        }
    }
}

proof fn lemma_closed_query(s: Seq<char>, body: Parsed<QueryModel>, p: int)
    requires
        0 <= p <= s.len(),
        match body {
            Parsed::Good(_, n) => p <= n <= s.len(),
            Parsed::Bad(n, _) => p <= n <= s.len(),
        },
    ensures
        match closed_query(s, body) {
            Parsed::Good(_, n) => p < n <= s.len(),
            Parsed::Bad(n, _) => p <= n <= s.len(),
        },
{
    match body {
        Parsed::Good(_, n) => {
            lemma_skip_space(s, n);
        },
        Parsed::Bad(_, _) => {},
    }
}

proof fn lemma_body_at(s: Seq<char>, op: Seq<char>, p: int)
    requires
        0 <= p <= s.len(),
    ensures
        match body_at(s, op, p) {
            Parsed::Good(_, n) => p <= n <= s.len(),
            Parsed::Bad(n, _) => p <= n <= s.len(),
        },
    decreases s.len() - p, 1int,
{
    lemma_first_argument(s, p);
    let arg = skip_space(s, p);
    if text_query(op, Seq::empty()) is Some {
    } else if op == "in-file"@ {
        match string_at(s, arg) {
            Parsed::Good(_, n) => {
                lemma_query_at(s, skip_space(s, n));
            },
            Parsed::Bad(_, _) => {},
        }
    } else if op == "union"@ || op == "intersect"@ {
        lemma_list_at(s, p, Seq::empty());
    } else if op == "limit"@ {
        match number_at(s, arg) {
            Parsed::Good(_, n) => {
                lemma_query_at(s, skip_space(s, n));
            },
            Parsed::Bad(_, _) => {},
        }
    } else if op == "children-named"@ {
        match string_at(s, arg) {
            Parsed::Good(_, n) => {
                lemma_string_at(s, skip_space(s, n));
            },
            Parsed::Bad(_, _) => {},
        }
    }
}

proof fn lemma_list_at(s: Seq<char>, p: int, seen: Seq<QueryModel>)
    requires
        0 <= p <= s.len(),
    ensures
        match list_at(s, p, seen) {
            Parsed::Good(_, n) => p <= n <= s.len(),
            Parsed::Bad(n, _) => p <= n <= s.len(),
        },
    decreases s.len() - p, 0int,
{
    lemma_first_operator(s, p);
    let start = skip_space(s, p);
    if at(s, start, '(') {
        let inner = skip_space(s, start + 1);
        let end = identifier_end(s, inner);
        if end > inner {
            let body = body_at(s, s.subrange(inner, end), end);
            lemma_body_at(s, s.subrange(inner, end), end);
            lemma_closed_query(s, body, end);
            match closed_query(s, body) {
                Parsed::Good(q, n) => {
                    lemma_list_at(s, n, seen.push(q));
                },
                Parsed::Bad(_, _) => {},
            }
        }
    }
}

/// A list is read by reading a query and then the rest of the list.
pub proof fn lemma_list_step(s: Seq<char>, p: int, seen: Seq<QueryModel>)
    requires
        0 <= p <= s.len(),
        !at(s, skip_space(s, p), ')'),
    ensures
        list_at(s, p, seen) == match query_at(s, skip_space(s, p)) {
            Parsed::Good(q, n) => list_at(s, n, seen.push(q)),
            Parsed::Bad(n, m) => Parsed::Bad(n, m),
        },
{
    let start = skip_space(s, p);
    lemma_skip_space(s, p);
    lemma_skip_twice(s, p);
    lemma_query_at(s, start);
}

proof fn lemma_skip_twice(s: Seq<char>, p: int)
    requires
        0 <= p <= s.len(),
    ensures
        skip_space(s, skip_space(s, p)) == skip_space(s, p),
    decreases s.len() - p,
{
    if p < s.len() && text::char_is_whitespace(s[p]) {
        lemma_skip_twice(s, p + 1);
    }
}

/// What a query expression stands for: the query, or the byte offset in the
/// trimmed text and the message of the error. What follows the query's closing
/// parenthesis does not count.
pub open spec fn parse_spec(input: Seq<char>) -> Result<QueryModel, (int, Seq<char>)> {
    let s = strings::trim_spec(input);
    if s.len() == 0 {
        Err((0, "Empty query"@))
    } else {
        match query_at(s, 0) {
            Parsed::Good(q, _) => Ok(q),
            Parsed::Bad(p, m) => Err((text::byte_len(s.take(p)) as int, m)),
        }
    }
}

/// S-expression parser.
pub struct QueryParser {
    chars: Vec<char>,
    pos: usize,
}

impl QueryParser {
    /// The text that is parsed.
    pub closed spec fn input(self) -> Seq<char> {
        self.chars@
    }

    /// The character that is parsed next.
    pub closed spec fn position(self) -> int {
        self.pos as int
    }

    pub open spec fn inv(self) -> bool {
        &&& 0 <= self.position() <= self.input().len()
        &&& self.input().len() <= text::byte_len(self.input()) <= usize::MAX
    }

    /// Whether an error is the one expected.
    pub open spec fn is_error(self, e: CanopyError, p: int, m: Seq<char>) -> bool {
        query::is_query_error(e, text::byte_len(self.input().take(p)) as int, m)
    }

    pub fn new(input: &str) -> (r: QueryParser)
        ensures
            r.inv(),
            r.input() == input@,
            r.position() == 0,
    {
        let _n: usize = len_bytes(input);
        QueryParser { chars: to_chars(input), pos: 0 }
    }

    pub fn peek(&self) -> (r: Option<char>)
        requires
            self.inv(),
        ensures
            match r {
                Some(c) => self.position() < self.input().len() && self.input()[self.position()]
                    == c,
                None => self.position() == self.input().len(),
            },
    {
        if self.pos < self.chars.len() {
            Some(self.chars[self.pos])
        } else {
            None
        }
    }

    pub fn advance(&mut self) -> (r: Option<char>)
        requires
            old(self).inv(),
        ensures
            final(self).inv(),
            final(self).input() == old(self).input(),
            match r {
                Some(c) => {
                    &&& old(self).position() < old(self).input().len()
                    &&& old(self).input()[old(self).position()] == c
                    &&& final(self).position() == old(self).position() + 1
                },
                None => old(self).position() == old(self).input().len() && final(self).position()
                    == old(self).position(),
            },
    {
        if self.pos < self.chars.len() {
            let c: char = self.chars[self.pos];
            self.pos = self.pos + 1;
            Some(c)
        } else {
            None
        }
    }

    /// Whether the next character is `c`.
    fn next_is(&self, c: char) -> (r: bool)
        requires
            self.inv(),
        ensures
            r == at(self.input(), self.position(), c),
    {
        match self.peek() {
            Some(d) => d == c,
            None => false,
        }
    }

    pub fn skip_whitespace(&mut self)
        requires
            old(self).inv(),
        ensures
            final(self).inv(),
            final(self).input() == old(self).input(),
            final(self).position() == skip_space(old(self).input(), old(self).position()),
    {
        let ghost start = self.position();
        while self.pos < self.chars.len() && is_whitespace(self.chars[self.pos])
            invariant
                self.inv(),
                self.input() == old(self).input(),
                skip_space(self.input(), start) == skip_space(self.input(), self.position()),
            decreases self.chars@.len() - self.pos,
        {
            self.pos = self.pos + 1;
        }
    }

    /// An error at the current position.
    pub fn error(&self, message: &str) -> (e: CanopyError)
        requires
            self.inv(),
        ensures
            self.is_error(e, self.position(), message@),
    {
        let mut position: usize = 0;
        let mut i: usize = 0;
        assert(self.chars@.take(0) =~= Seq::<char>::empty());
        while i < self.pos
            invariant
                i <= self.pos <= self.chars@.len(),
                position == text::byte_len(self.chars@.take(i as int)),
                text::byte_len(self.chars@) <= usize::MAX,
            decreases self.pos - i,
        {
            proof {
                text::lemma_char_range(self.chars@, i + 1, self.chars@.len() as int);
                assert(self.chars@.take(i + 1) =~= self.chars@.take(i as int).push(
                    self.chars@[i as int],
                ));
                text::lemma_encode_push(self.chars@.take(i as int), self.chars@[i as int]);
                assert(self.chars@.take(self.chars@.len() as int) =~= self.chars@);
            }
            position = position + char_width(self.chars[i]);
            i = i + 1;
        }
        CanopyError::QueryParse { position, message: message.to_owned() }
    }

    pub fn parse_identifier(&mut self) -> (r: Result<String, CanopyError>)
        requires
            old(self).inv(),
        ensures
            final(self).inv(),
            final(self).input() == old(self).input(),
            final(self).position() == identifier_end(old(self).input(), old(self).position()),
            match r {
                Ok(s) => s@ == old(self).input().subrange(
                    old(self).position(),
                    final(self).position(),
                ) && final(self).position() > old(self).position(),
                Err(e) => final(self).position() == old(self).position() && final(self).is_error(
                    e,
                    old(self).position(),
                    "Expected identifier"@,
                ),
            },
    {
        let start: usize = self.pos;
        while self.pos < self.chars.len() && (is_alphanumeric(self.chars[self.pos])
            || self.chars[self.pos] == '-' || self.chars[self.pos] == '_')
            invariant
                self.inv(),
                start <= self.pos,
                start == old(self).position(),
                self.input() == old(self).input(),
                identifier_end(self.input(), start as int) == identifier_end(
                    self.input(),
                    self.position(),
                ),
            decreases self.chars@.len() - self.pos,
        {
            self.pos = self.pos + 1;
        }
        if self.pos == start {
            Err(self.error("Expected identifier"))
        } else {
            Ok(from_chars(&self.chars, start, self.pos))
        }
    }

    pub fn parse_string(&mut self) -> (r: Result<String, CanopyError>)
        requires
            old(self).inv(),
        ensures
            final(self).inv(),
            final(self).input() == old(self).input(),
            match string_at(old(self).input(), old(self).position()) {
                Parsed::Good(s, n) => r matches Ok(t) && t@ == s && final(self).position() == n,
                Parsed::Bad(p, m) => r matches Err(e) && final(self).is_error(e, p, m),
            },
    {
        let ghost s = self.input();
        let ghost whole = string_at(s, self.position());
        if !self.next_is('"') {
            return Err(self.error("Expected '\"'"));
        }
        let _ = self.advance();
        let mut result: String = String::new();
        while self.pos < self.chars.len()
            invariant
                self.inv(),
                self.input() == s,
                s == old(self).input(),
                whole == string_at(old(self).input(), old(self).position()),
                whole == string_rest(s, self.position(), result@),
            decreases self.chars@.len() - self.pos,
        {
            let c: char = self.chars[self.pos];
            self.pos = self.pos + 1;
            if c == '"' {
                return Ok(result);
            }
            if c == '\\' {
                if self.pos >= self.chars.len() {
                    return Err(self.error("Unterminated string"));
                }
                let d: char = self.chars[self.pos];
                self.pos = self.pos + 1;
                match d {
                    'n' => {
                        result.push('\n');
                    },
                    't' => {
                        result.push('\t');
                    },
                    'r' => {
                        result.push('\r');
                    },
                    _ => {
                        result.push(d);
                    },
                }
            } else {
                result.push(c);
            }
        }
        Err(self.error("Unterminated string"))
    }

    pub fn parse_number(&mut self) -> (r: Result<usize, CanopyError>)
        requires
            old(self).inv(),
        ensures
            final(self).inv(),
            final(self).input() == old(self).input(),
            match number_at(old(self).input(), old(self).position()) {
                Parsed::Good(v, n) => r == Ok::<usize, CanopyError>(v) && final(self).position()
                    == n,
                Parsed::Bad(p, m) => r matches Err(e) && final(self).is_error(e, p, m),
            },
    {
        let start: usize = self.pos;
        while self.pos < self.chars.len() && '0' <= self.chars[self.pos] && self.chars[self.pos]
            <= '9'
            invariant
                self.inv(),
                start <= self.pos,
                start == old(self).position(),
                self.input() == old(self).input(),
                digits_end(self.input(), start as int) == digits_end(self.input(), self.position()),
            decreases self.chars@.len() - self.pos,
        {
            self.pos = self.pos + 1;
        }
        proof {
            lemma_digits_end(self.input(), start as int);
        }
        match digits_to_u64(&self.chars, start, self.pos) {
            Some(v) => if v <= usize::MAX as u64 {
                Ok(v as usize)
            } else {
                Err(self.error("Expected number"))
            },
            None => Err(self.error("Expected number")),
        }
    }

    /// The queries up to a closing parenthesis.
    fn parse_list(&mut self) -> (r: Result<Vec<Query>, CanopyError>)
        requires
            old(self).inv(),
        ensures
            final(self).inv(),
            final(self).input() == old(self).input(),
            match list_at(old(self).input(), old(self).position(), Seq::empty()) {
                Parsed::Good(qs, n) => r matches Ok(v) && query::models(v@) == qs && final(self).position() == n,
                Parsed::Bad(p, m) => r matches Err(e) && final(self).is_error(e, p, m),
            },
        decreases old(self).input().len() - old(self).position(), 0int,
    {
        let ghost s = self.input();
        let ghost p = self.position();
        let ghost whole = list_at(s, p, Seq::empty());
        let mut queries: Vec<Query> = Vec::new();
        assert(query::models(queries@) =~= Seq::empty());
        loop
            invariant
                self.inv(),
                self.input() == s,
                s == old(self).input(),
                p == old(self).position(),
                p <= self.position(),
                whole == list_at(old(self).input(), old(self).position(), Seq::empty()),
                whole == list_at(s, self.position(), query::models(queries@)),
            decreases s.len() - self.position(),
        {
            let ghost from = self.position();
            proof {
                lemma_skip_space(s, from);
            }
            self.skip_whitespace();
            if self.next_is(')') {
                return Ok(queries);
            }
            let ghost start = self.position();
            proof {
                lemma_list_step(s, from, query::models(queries@));
                lemma_query_at(s, start);
                lemma_skip_twice(s, from);
            }
            if !self.next_is('(') {
                return Err(self.error("Expected '('"));
            }
            match self.parse_parens() {
                Ok(q) => {
                    proof {
                        query::lemma_models_push(queries@, q);
                    }
                    queries.push(q);
                },
                Err(e) => {
                    return Err(e);
                },
            }
        }
    }

    /// The query whose opening parenthesis is next.
    fn parse_parens(&mut self) -> (r: Result<Query, CanopyError>)
        requires
            old(self).inv(),
            at(old(self).input(), old(self).position(), '('),
            skip_space(old(self).input(), old(self).position()) == old(self).position(),
        ensures
            final(self).inv(),
            final(self).input() == old(self).input(),
            match query_at(old(self).input(), old(self).position()) {
                Parsed::Good(q, n) => r matches Ok(v) && v.model() == q && final(self).position()
                    == n,
                Parsed::Bad(p, m) => r matches Err(e) && final(self).is_error(e, p, m),
            },
        decreases old(self).input().len() - old(self).position() - 1, 3int,
    {
        let ghost s = self.input();
        let ghost whole = query_at(s, self.position());
        let _ = self.advance();
        proof {
            lemma_skip_space(s, self.position());
        }
        self.skip_whitespace();
        proof {
            lemma_identifier_end(s, self.position());
        }
        let op: String = match self.parse_identifier() {
            Ok(op) => op,
            Err(e) => {
                return Err(e);
            },
        };
        let ghost end = self.position();
        let ghost body = body_at(s, op@, end);
        assert(whole == closed_query(s, body));
        proof {
            lemma_body_at(s, op@, end);
        }
        let q: Query = match self.parse_body(op.as_str()) {
            Ok(q) => q,
            Err(e) => {
                return Err(e);
            },
        };
        self.skip_whitespace();
        if !self.next_is(')') {
            return Err(self.error("Expected ')'"));
        }
        let _ = self.advance();
        Ok(q)
    }

    /// The arguments of the operator `op`.
    fn parse_body(&mut self, op: &str) -> (r: Result<Query, CanopyError>)
        requires
            old(self).inv(),
        ensures
            final(self).inv(),
            final(self).input() == old(self).input(),
            match body_at(old(self).input(), op@, old(self).position()) {
                Parsed::Good(q, n) => r matches Ok(v) && v.model() == q && final(self).position()
                    == n,
                Parsed::Bad(p, m) => r matches Err(e) && final(self).is_error(e, p, m),
            },
        decreases old(self).input().len() - old(self).position(), 1int,
    {
        let ghost s = self.input();
        let ghost p = self.position();
        proof {
            lemma_first_argument(s, p);
        }
        if str_eq(op, "union") || str_eq(op, "intersect") {
            proof {
                lemma_list_operators();
            }
            return match self.parse_list() {
                Ok(queries) => {
                    proof {
                        query::lemma_models(queries);
                    }
                    if str_eq(op, "union") {
                        Ok(Query::Union(queries))
                    } else {
                        Ok(Query::Intersect(queries))
                    }
                },
                Err(e) => Err(e),
            };
        }
        if str_eq(op, "limit") {
            proof {
                lemma_other_operators();
            }
            self.skip_whitespace();
            let n: usize = match self.parse_number() {
                Ok(n) => n,
                Err(e) => {
                    return Err(e);
                },
            };
            self.skip_whitespace();
            return match self.parse() {
                Ok(q) => Ok(Query::Limit(n, Box::new(q))),
                Err(e) => Err(e),
            };
        }
        if str_eq(op, "in-file") {
            proof {
                lemma_other_operators();
            }
            self.skip_whitespace();
            let glob: String = match self.parse_string() {
                Ok(glob) => glob,
                Err(e) => {
                    return Err(e);
                },
            };
            self.skip_whitespace();
            return match self.parse() {
                Ok(q) => Ok(Query::InFile(glob, Box::new(q))),
                Err(e) => Err(e),
            };
        }
        if str_eq(op, "children-named") {
            proof {
                lemma_other_operators();
            }
            self.skip_whitespace();
            let parent: String = match self.parse_string() {
                Ok(parent) => parent,
                Err(e) => {
                    return Err(e);
                },
            };
            self.skip_whitespace();
            return match self.parse_string() {
                Ok(symbol) => Ok(Query::ChildrenNamed(parent, symbol)),
                Err(e) => Err(e),
            };
        }
        if !is_text_operator(op) {
            return Err(self.error(concat("Unknown operator: ", op).as_str()));
        }
        self.skip_whitespace();
        match self.parse_string() {
            Ok(arg) => Ok(make_text_query(op, arg)),
            Err(e) => Err(e),
        }
    }

    /// The query that starts at the current position.
    pub fn parse(&mut self) -> (r: Result<Query, CanopyError>)
        requires
            old(self).inv(),
        ensures
            final(self).inv(),
            final(self).input() == old(self).input(),
            match query_at(old(self).input(), old(self).position()) {
                Parsed::Good(q, n) => r matches Ok(v) && v.model() == q && final(self).position()
                    == n,
                Parsed::Bad(p, m) => r matches Err(e) && final(self).is_error(e, p, m),
            },
        decreases old(self).input().len() - old(self).position(), 4int,
    {
        proof {
            lemma_skip_space(self.input(), self.position());
            lemma_skip_twice(self.input(), self.position());
        }
        self.skip_whitespace();
        if !self.next_is('(') {
            return Err(self.error("Expected '('"));
        }
        self.parse_parens()
    }
}

fn is_text_operator(op: &str) -> (r: bool)
    ensures
        r == (text_query(op@, Seq::empty()) is Some),
{
    str_eq(op, "section") || str_eq(op, "grep") || str_eq(op, "file") || str_eq(op, "code")
        || str_eq(op, "children") || str_eq(op, "definition") || str_eq(op, "references")
}

fn make_text_query(op: &str, arg: String) -> (r: Query)
    requires
        text_query(op@, Seq::empty()) is Some,
    ensures
        text_query(op@, arg@) == Some(r.model()),
{
    if str_eq(op, "section") {
        Query::Section(arg)
    } else if str_eq(op, "grep") {
        Query::Grep(arg)
    } else if str_eq(op, "file") {
        Query::File(arg)
    } else if str_eq(op, "code") {
        Query::Code(arg)
    } else if str_eq(op, "children") {
        Query::Children(arg)
    } else if str_eq(op, "definition") {
        Query::Definition(arg)
    } else {
        Query::References(arg)
    }
}

/// The two operators that take a list take no string.
pub proof fn lemma_list_operators()
    ensures
        text_query("union"@, Seq::empty()) is None,
        text_query("intersect"@, Seq::empty()) is None,
        "union"@ != "in-file"@,
        "intersect"@ != "in-file"@,
        "union"@ != "intersect"@,
{
    reveal_strlit("union");
    reveal_strlit("intersect");
    reveal_strlit("in-file");
    lemma_operator_names();
    assert("union"@.len() == 5);
    assert("intersect"@.len() == 9);
    assert("in-file"@.len() == 7);
}

/// The other operators that take more than a string.
pub proof fn lemma_other_operators()
    ensures
        text_query("limit"@, Seq::empty()) is None,
        text_query("in-file"@, Seq::empty()) is None,
        text_query("children-named"@, Seq::empty()) is None,
        "limit"@ != "in-file"@,
        "limit"@ != "union"@,
        "limit"@ != "intersect"@,
        "in-file"@ != "union"@,
        "in-file"@ != "intersect"@,
        "children-named"@ != "in-file"@,
        "children-named"@ != "union"@,
        "children-named"@ != "intersect"@,
        "children-named"@ != "limit"@,
{
    reveal_strlit("union");
    reveal_strlit("intersect");
    reveal_strlit("limit");
    reveal_strlit("in-file");
    reveal_strlit("children-named");
    lemma_operator_names();
    assert("limit"@.len() == 5 && "limit"@[0] == 'l');
    assert("in-file"@.len() == 7 && "in-file"@[0] == 'i');
    assert("children-named"@.len() == 14);
    assert("union"@.len() == 5 && "union"@[0] == 'u');
    assert("intersect"@.len() == 9);
}

proof fn lemma_operator_names()
    ensures
        "section"@.len() == 7 && "section"@[0] == 's',
        "grep"@.len() == 4,
        "file"@.len() == 4,
        "code"@.len() == 4,
        "children"@.len() == 8,
        "definition"@.len() == 10,
        "references"@.len() == 10,
{
    reveal_strlit("section");
    reveal_strlit("grep");
    reveal_strlit("file");
    reveal_strlit("code");
    reveal_strlit("children");
    reveal_strlit("definition");
    reveal_strlit("references");
}

/// Reads a query expression.
pub fn parse_query(input: &str) -> (r: Result<Query, CanopyError>)
    ensures
        match parse_spec(input@) {
            Ok(q) => r matches Ok(v) && v.model() == q,
            Err((position, message)) => r matches Err(e) && query::is_query_error(
                e,
                position,
                message,
            ),
        },
{
    let trimmed: String = trim(input);
    if trimmed.as_str().is_empty() {
        return Err(
            CanopyError::QueryParse { position: 0, message: "Empty query".to_owned() },
        );
    }
    let mut parser: QueryParser = QueryParser::new(trimmed.as_str());
    parser.parse()
}

/// A backslash in a string stands with the character after it for one character: a line
/// break for `n`, a tab for `t`, a return for `r`, and that character for any other.
pub proof fn law_escapes_read(s: Seq<char>, p: int, seen: Seq<char>)
    requires
        0 <= p,
        p + 1 < s.len(),
        s[p] == '\\',
    ensures
        s[p + 1] == 'n' ==> string_rest(s, p, seen) == string_rest(s, p + 2, seen.push('\n')),
        s[p + 1] == 't' ==> string_rest(s, p, seen) == string_rest(s, p + 2, seen.push('\t')),
        s[p + 1] == 'r' ==> string_rest(s, p, seen) == string_rest(s, p + 2, seen.push('\r')),
        s[p + 1] != 'n' && s[p + 1] != 't' && s[p + 1] != 'r' ==> string_rest(s, p, seen)
            == string_rest(s, p + 2, seen.push(s[p + 1])),
{
}

/// A string that does not end is refused, at the end of the text.
pub proof fn law_unending_string_refused(s: Seq<char>, p: int, seen: Seq<char>)
    requires
        0 <= p <= s.len(),
        forall|k: int| p <= k < s.len() ==> s[k] != '"',
    ensures
        string_rest(s, p, seen) == Parsed::<Seq<char>>::Bad(s.len() as int, "Unterminated string"@),
    decreases s.len() - p,
{
    if p < s.len() {
        if s[p] == '\\' {
            if p + 1 < s.len() {
                law_unending_string_refused(s, p + 2, seen.push(unescaped(s[p + 1])));
            }
        } else {
            law_unending_string_refused(s, p + 1, seen.push(s[p]));
        }
    }
}

/// Whether a character can stand in a word: a letter, a digit, a dash or an underscore.
pub open spec fn in_word(c: char) -> bool {
    text::char_is_alphanumeric(c) || c == '-' || c == '_'
}

/// Whether a word is one that a query can start with.
pub open spec fn is_operator(op: Seq<char>) -> bool {
    ||| op == "section"@ || op == "grep"@ || op == "file"@ || op == "code"@
    ||| op == "children"@ || op == "children-named"@ || op == "definition"@ || op == "references"@
    ||| op == "in-file"@ || op == "union"@ || op == "intersect"@ || op == "limit"@
}

/// A text that is no query is refused, where it goes wrong: an empty one, one that does
/// not start with a parenthesis, and one whose first word is no operator.
pub proof fn law_no_query_refused(input: Seq<char>, op: Seq<char>, rest: Seq<char>)
    ensures
        ({
            let s = strings::trim_spec(input);
            &&& s.len() == 0 ==> parse_spec(input) == Err::<QueryModel, _>((0int, "Empty query"@))
            &&& s.len() > 0 && s[0] != '(' && !text::char_is_whitespace(s[0]) ==> parse_spec(input)
                == Err::<QueryModel, _>((0int, "Expected '('"@))
            &&& s == seq!['('] + op + rest && op.len() > 0 && (forall|i: int|
                0 <= i < op.len() ==> in_word(#[trigger] op[i]))
                && !text::char_is_whitespace(op[0]) && !text::char_is_whitespace('(') && (rest.len()
                == 0 || !in_word(rest[0])) && !is_operator(op) ==> parse_spec(input)
                == Err::<QueryModel, _>(
                (text::byte_len(seq!['('] + op) as int, "Unknown operator: "@ + op),
            )
        }),
{
    let s = strings::trim_spec(input);
    if s.len() > 0 && s[0] != '(' && !text::char_is_whitespace(s[0]) {
        assert(s.take(0) =~= Seq::<char>::empty());
        assert(skip_space(s, 0) == 0);
    }
    if s == seq!['('] + op + rest && op.len() > 0 && (forall|i: int|
        0 <= i < op.len() ==> in_word(#[trigger] op[i])) && !text::char_is_whitespace(
        op[0],
    ) && !text::char_is_whitespace('(') && (rest.len() == 0 || !in_word(rest[0]))
        && !is_operator(op) {
        assert(s[0] == '(' && s[1] == op[0]);
        assert(skip_space(s, 0) == 0);
        assert(skip_space(s, 1) == 1);
        let end = 1 + op.len();
        assert forall|k: int| 1 <= k < end implies in_word(#[trigger] s[k]) by {
            assert(s[k] == op[k - 1]);
        }
        assert(end < s.len() ==> s[end as int] == rest[0]);
        lemma_identifier_ends_at(s, 1, end as int);
        assert(s.subrange(1, end as int) =~= op);
        assert(s.take(end as int) =~= seq!['('] + op);
        assert(body_at(s, op, end as int) == Parsed::<QueryModel>::Bad(
            end as int,
            "Unknown operator: "@ + op,
        ));
        assert(query_at(s, 0) == closed_query(s, body_at(s, op, end as int)));
    }
}

proof fn lemma_identifier_ends_at(s: Seq<char>, p: int, end: int)
    requires
        0 <= p <= end <= s.len(),
        forall|k: int| p <= k < end ==> in_word(#[trigger] s[k]),
        end < s.len() ==> !in_word(s[end]),
    ensures
        identifier_end(s, p) == end,
    decreases end - p,
{
    if p < end {
        assert(in_word(s[p]));
        lemma_identifier_ends_at(s, p + 1, end);
    }
}

} // verus!
