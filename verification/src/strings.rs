//! String operations: trimming, splitting, searching, joining, numbers.

use vstd::prelude::*;
use vstd::utf8::*;
use crate::text;
use crate::text::{from_chars, is_whitespace, str_eq, to_chars};

verus! {

broadcast use {vstd::string::group_string_axioms, vstd::seq::group_seq_axioms};

// ---------------------------------------------------------------------------
// Building
// ---------------------------------------------------------------------------

/// The two strings, one after the other.
pub fn concat(a: &str, b: &str) -> (r: String)
    ensures
        r@ == a@ + b@,
{
    let mut r: String = a.to_owned();
    r.append(b);
    r
}

/// The three strings, one after the other.
pub fn concat3(a: &str, b: &str, c: &str) -> (r: String)
    ensures
        r@ == a@ + b@ + c@,
{
    let mut r: String = a.to_owned();
    r.append(b);
    r.append(c);
    r
}

/// The strings of `parts` with `sep` between each two.
pub open spec fn join_spec(parts: Seq<Seq<char>>, sep: Seq<char>) -> Seq<char>
    decreases parts.len(),
{
    if parts.len() == 0 {
        Seq::empty()
    } else if parts.len() == 1 {
        parts[0]
    } else {
        join_spec(parts.drop_last(), sep) + sep + parts.last()
    }
}

/// The strings of `parts` with `sep` between each two.
pub fn join(parts: &Vec<String>, sep: &str) -> (r: String)
    ensures
        r@ == join_spec(text::views(parts@), sep@),
{
    let mut r: String = String::new();
    let ghost all = text::views(parts@);
    let mut i: usize = 0;
    while i < parts.len()
        invariant
            i <= parts@.len(),
            all == text::views(parts@),
            r@ == join_spec(all.take(i as int), sep@),
        decreases parts@.len() - i,
    {
        if i > 0 {
            r.append(sep);
        }
        r.append(parts[i].as_str());
        proof {
            let now = all.take(i + 1);
            assert(now.drop_last() =~= all.take(i as int));
            assert(now.last() == parts@[i as int]@);
            if i == 0 {
                assert(r@ =~= parts@[0]@);
            }
        }
        i = i + 1;
    }
    assert(all.take(parts@.len() as int) =~= all);
    r
}

/// The decimal digits of a number, without leading zeros.
pub open spec fn decimal(n: nat) -> Seq<char>
    decreases n,
{
    if n < 10 {
        seq![digit_char(n)]
    } else {
        decimal(n / 10).push(digit_char(n % 10))
    }
}

/// The character of a decimal digit.
pub open spec fn digit_char(d: nat) -> char {
    (('0' as u32) + d) as char
}

fn digit(d: u64) -> (c: char)
    requires
        d < 10,
    ensures
        c == digit_char(d as nat),
{
    match d {
        0 => '0',
        1 => '1',
        2 => '2',
        3 => '3',
        4 => '4',
        5 => '5',
        6 => '6',
        7 => '7',
        8 => '8',
        _ => '9',
    }
}

/// A number in decimal.
pub fn decimal_string(n: u64) -> (s: String)
    ensures
        s@ == decimal(n as nat),
    decreases n,
{
    if n < 10 {
        let mut s: String = String::new();
        s.push(digit(n));
        assert(s@ =~= decimal(n as nat));
        s
    } else {
        let mut s: String = decimal_string(n / 10);
        s.push(digit(n % 10));
        s
    }
}

/// A signed number in decimal.
pub open spec fn signed_decimal(n: int) -> Seq<char> {
    if n < 0 {
        seq!['-'] + decimal((-n) as nat)
    } else {
        decimal(n as nat)
    }
}

/// A signed number in decimal.
pub fn signed_decimal_string(n: i64) -> (s: String)
    ensures
        s@ == signed_decimal(n as int),
{
    if n < 0 {
        let magnitude: u64 = if n == i64::MIN {
            9223372036854775808u64
        } else {
            (-n) as u64
        };
        let digits: String = decimal_string(magnitude);
        let mut s: String = String::new();
        s.push('-');
        s.append(digits.as_str());
        assert(s@ =~= seq!['-'] + decimal((-(n as int)) as nat));
        s
    } else {
        decimal_string(n as u64)
    }
}

// ---------------------------------------------------------------------------
// Numbers
// ---------------------------------------------------------------------------

/// Whether a character is a decimal digit.
pub open spec fn is_digit(c: char) -> bool {
    '0' <= c <= '9'
}

/// The number that a run of decimal digits stands for.
pub open spec fn digits_value(s: Seq<char>) -> nat
    decreases s.len(),
{
    if s.len() == 0 {
        0
    } else {
        digits_value(s.drop_last()) * 10 + (s.last() as nat - '0' as nat) as nat
    }
}

pub open spec fn all_digits(s: Seq<char>) -> bool {
    forall|i: int| 0 <= i < s.len() ==> is_digit(#[trigger] s[i])
}

/// The unsigned number that a text stands for: decimal digits, which a plus
/// sign may precede, with a value of at most `max`.
pub open spec fn parsed_number(s: Seq<char>, max: nat) -> Option<nat> {
    let digits = if s.len() > 0 && s[0] == '+' {
        s.drop_first()
    } else {
        s
    };
    if digits.len() > 0 && all_digits(digits) && digits_value(digits) <= max {
        Some(digits_value(digits))
    } else {
        None
    }
}

proof fn lemma_digits_value_mono(s: Seq<char>, k: int)
    requires
        0 <= k <= s.len(),
    ensures
        digits_value(s.take(k)) <= digits_value(s),
    decreases s.len() - k,
{
    if k == s.len() {
        assert(s.take(k) =~= s);
    } else {
        lemma_digits_value_mono(s, k + 1);
        assert(s.take(k + 1).drop_last() =~= s.take(k));
    }
}

/// The value of the digits `chars[from..to]`, unless it exceeds `u64::MAX` or
/// there is no digit or something else than digits.
pub fn digits_to_u64(chars: &Vec<char>, from: usize, to: usize) -> (r: Option<u64>)
    requires
        from <= to <= chars@.len(),
    ensures
        ({
            let s = chars@.subrange(from as int, to as int);
            match r {
                Some(v) => s.len() > 0 && all_digits(s) && digits_value(s) == v,
                None => !(s.len() > 0 && all_digits(s) && digits_value(s) <= u64::MAX),
            }
        }),
{
    let ghost s = chars@.subrange(from as int, to as int);
    if from == to {
        return None;
    }
    let mut value: u64 = 0;
    let mut i: usize = from;
    while i < to
        invariant
            from <= i <= to <= chars@.len(),
            s == chars@.subrange(from as int, to as int),
            value == digits_value(s.take(i - from)),
            forall|k: int| 0 <= k < i - from ==> is_digit(#[trigger] s[k]),
        decreases to - i,
    {
        let c: char = chars[i];
        let ghost k = i - from;
        assert(s[k] == c);
        if !('0' <= c && c <= '9') {
            return None;
        }
        let d: u64 = (c as u32 - '0' as u32) as u64;
        proof {
            assert(s.take(k + 1).drop_last() =~= s.take(k));
            lemma_digits_value_mono(s, k + 1);
        }
        if value > (u64::MAX - d) / 10 {
            assert(value * 10 + d > u64::MAX);
            return None;
        }
        value = value * 10 + d;
        i = i + 1;
    }
    assert(s.take(to - from) =~= s);
    Some(value)
}

// ---------------------------------------------------------------------------
// Whitespace
// ---------------------------------------------------------------------------

/// `s` without its leading whitespace.
pub open spec fn trim_start_spec(s: Seq<char>) -> Seq<char>
    decreases s.len(),
{
    if s.len() > 0 && text::char_is_whitespace(s[0]) {
        trim_start_spec(s.drop_first())
    } else {
        s
    }
}

/// `s` without its trailing whitespace.
pub open spec fn trim_end_spec(s: Seq<char>) -> Seq<char>
    decreases s.len(),
{
    if s.len() > 0 && text::char_is_whitespace(s.last()) {
        trim_end_spec(s.drop_last())
    } else {
        s
    }
}

/// `s` without the whitespace around it.
pub open spec fn trim_spec(s: Seq<char>) -> Seq<char> {
    trim_end_spec(trim_start_spec(s))
}

/// The bounds of `chars[from..to]` without the whitespace around it.
pub fn trim_range(chars: &Vec<char>, from: usize, to: usize) -> (r: (usize, usize))
    requires
        from <= to <= chars@.len(),
    ensures
        from <= r.0 <= r.1 <= to,
        chars@.subrange(r.0 as int, r.1 as int) == trim_spec(
            chars@.subrange(from as int, to as int),
        ),
{
    let ghost whole = chars@.subrange(from as int, to as int);
    let mut a: usize = from;
    while a < to && is_whitespace(chars[a])
        invariant
            from <= a <= to <= chars@.len(),
            trim_start_spec(whole) == trim_start_spec(chars@.subrange(a as int, to as int)),
        decreases to - a,
    {
        assert(chars@.subrange(a as int, to as int).drop_first() =~= chars@.subrange(
            a + 1,
            to as int,
        ));
        a = a + 1;
    }
    let ghost tail = chars@.subrange(a as int, to as int);
    assert(trim_start_spec(whole) == tail);
    let mut b: usize = to;
    while b > a && is_whitespace(chars[b - 1])
        invariant
            from <= a <= b <= to <= chars@.len(),
            trim_end_spec(tail) == trim_end_spec(chars@.subrange(a as int, b as int)),
        decreases b - a,
    {
        assert(chars@.subrange(a as int, b as int).drop_last() =~= chars@.subrange(
            a as int,
            b - 1,
        ));
        b = b - 1;
    }
    (a, b)
}

/// `s` without the whitespace around it.
pub fn trim(s: &str) -> (r: String)
    ensures
        r@ == trim_spec(s@),
{
    let chars: Vec<char> = to_chars(s);
    let n: usize = chars.len();
    let (a, b): (usize, usize) = trim_range(&chars, 0, n);
    assert(chars@.subrange(0, n as int) =~= s@);
    from_chars(&chars, a, b)
}

/// The number of leading characters that are not whitespace.
pub open spec fn word_len(s: Seq<char>) -> nat
    decreases s.len(),
{
    if s.len() == 0 || text::char_is_whitespace(s[0]) {
        0
    } else {
        1 + word_len(s.drop_first())
    }
}

pub proof fn lemma_word_len(s: Seq<char>)
    ensures
        word_len(s) <= s.len(),
    decreases s.len(),
{
    if s.len() > 0 && !text::char_is_whitespace(s[0]) {
        lemma_word_len(s.drop_first());
    }
}

pub proof fn lemma_trim_start_len(s: Seq<char>)
    ensures
        trim_start_spec(s).len() <= s.len(),
        trim_start_spec(s).len() > 0 ==> !text::char_is_whitespace(trim_start_spec(s)[0]),
    decreases s.len(),
{
    if s.len() > 0 && text::char_is_whitespace(s[0]) {
        lemma_trim_start_len(s.drop_first());
    }
}

/// The maximal runs of characters that are not whitespace.
pub open spec fn words_spec(s: Seq<char>) -> Seq<Seq<char>>
    decreases s.len(),
    via words_spec_decreases
{
    let t = trim_start_spec(s);
    if t.len() == 0 {
        Seq::empty()
    } else {
        seq![t.take(word_len(t) as int)] + words_spec(t.skip(word_len(t) as int))
    }
}

#[via_fn]
proof fn words_spec_decreases(s: Seq<char>) {
    let t = trim_start_spec(s);
    lemma_trim_start_len(s);
    lemma_word_len(t);
    if t.len() > 0 {
        assert(word_len(t) >= 1);
    }
}

/// The maximal runs of characters that are not whitespace.
pub fn split_whitespace(s: &str) -> (r: Vec<String>)
    ensures
        text::views(r@) == words_spec(s@),
{
    let chars: Vec<char> = to_chars(s);
    let n: usize = chars.len();
    let mut words: Vec<String> = Vec::new();
    let mut i: usize = 0;
    assert(chars@.skip(0) =~= s@);
    assert(text::views(words@) + words_spec(s@) =~= words_spec(s@));
    while i < n
        invariant
            i <= n == chars@.len(),
            text::views(words@) + words_spec(chars@.skip(i as int)) == words_spec(s@),
        decreases n - i,
    {
        let ghost rest = chars@.skip(i as int);
        let mut a: usize = i;
        while a < n && is_whitespace(chars[a])
            invariant
                i <= a <= n == chars@.len(),
                trim_start_spec(rest) == trim_start_spec(chars@.skip(a as int)),
            decreases n - a,
        {
            assert(chars@.skip(a as int).drop_first() =~= chars@.skip(a + 1));
            a = a + 1;
        }
        let ghost t = chars@.skip(a as int);
        assert(trim_start_spec(rest) == t);
        if a == n {
            assert(words_spec(rest) =~= Seq::<Seq<char>>::empty());
            assert(words_spec(chars@.skip(n as int)) =~= Seq::<Seq<char>>::empty()) by {
                assert(chars@.skip(n as int).len() == 0);
            }
            i = n;
        } else {
            let mut b: usize = a;
            assert(chars@.skip(b as int) =~= t.skip(b - a));
            while b < n && !is_whitespace(chars[b])
                invariant
                    a <= b <= n == chars@.len(),
                    word_len(t) == (b - a) + word_len(chars@.skip(b as int)),
                decreases n - b,
            {
                assert(chars@.skip(b as int).drop_first() =~= chars@.skip(b + 1));
                b = b + 1;
            }
            let word: String = from_chars(&chars, a, b);
            proof {
                assert(word_len(t) == b - a);
                assert(word@ =~= t.take(b - a));
                assert(t.skip(b - a) =~= chars@.skip(b as int));
                text::lemma_views_push(words@, word);
                assert(text::views(words@).push(word@) + words_spec(chars@.skip(b as int)) =~= text::views(
                    words@,
                ) + (seq![word@] + words_spec(chars@.skip(b as int))));
                assert(b > a) by {
                    lemma_trim_start_len(rest);
                }
            }
            words.push(word);
            i = b;
        }
    }
    assert(words_spec(chars@.skip(n as int)) =~= Seq::<Seq<char>>::empty()) by {
        assert(chars@.skip(n as int).len() == 0);
    }
    assert(text::views(words@) =~= words_spec(s@));
    words
}

// ---------------------------------------------------------------------------
// Searching
// ---------------------------------------------------------------------------

/// Whether `needle` occurs in `s` at character `i`.
pub open spec fn occurs_at(s: Seq<char>, needle: Seq<char>, i: int) -> bool {
    0 <= i && i + needle.len() <= s.len() && s.subrange(i, i + needle.len()) == needle
}

/// Whether `needle` occurs in `s`.
pub open spec fn contains_spec(s: Seq<char>, needle: Seq<char>) -> bool {
    exists|i: int| #[trigger] occurs_at(s, needle, i)
}

/// Whether `needle` occurs in `chars` at character `i`.
pub fn matches_at(chars: &Vec<char>, needle: &Vec<char>, i: usize) -> (r: bool)
    requires
        i <= chars@.len(),
    ensures
        r == occurs_at(chars@, needle@, i as int),
{
    let n: usize = chars.len();
    if needle.len() > n - i {
        return false;
    }
    let mut k: usize = 0;
    while k < needle.len()
        invariant
            k <= needle@.len(),
            i + needle@.len() <= n == chars@.len(),
            forall|j: int| 0 <= j < k ==> chars@[i + j] == needle@[j],
        decreases needle@.len() - k,
    {
        if chars[i + k] != needle[k] {
            assert(chars@.subrange(i as int, i + needle@.len())[k as int] == chars@[i + k]);
            return false;
        }
        k = k + 1;
    }
    assert(chars@.subrange(i as int, i + needle@.len()) =~= needle@);
    true
}

/// Whether `needle` occurs in `s`.
pub fn contains(s: &str, needle: &str) -> (r: bool)
    ensures
        r == contains_spec(s@, needle@),
{
    let chars: Vec<char> = to_chars(s);
    let wanted: Vec<char> = to_chars(needle);
    let mut i: usize = 0;
    while i < chars.len()
        invariant
            i <= chars@.len(),
            chars@ == s@,
            wanted@ == needle@,
            forall|j: int| 0 <= j < i ==> !#[trigger] occurs_at(s@, needle@, j),
        decreases chars@.len() - i,
    {
        if matches_at(&chars, &wanted, i) {
            return true;
        }
        i = i + 1;
    }
    matches_at(&chars, &wanted, i)
}

/// Whether `s` begins with `prefix`.
pub open spec fn starts_with_spec(s: Seq<char>, prefix: Seq<char>) -> bool {
    occurs_at(s, prefix, 0)
}

/// Whether `s` begins with `prefix`.
pub fn starts_with(s: &str, prefix: &str) -> (r: bool)
    ensures
        r == starts_with_spec(s@, prefix@),
{
    let chars: Vec<char> = to_chars(s);
    let wanted: Vec<char> = to_chars(prefix);
    matches_at(&chars, &wanted, 0)
}

/// The position of the first `c` at or after `from`, or the length of `s`.
pub open spec fn find_from(s: Seq<char>, c: char, from: int) -> int
    decreases s.len() - from,
{
    if from < 0 || from >= s.len() {
        s.len() as int
    } else if s[from] == c {
        from
    } else {
        find_from(s, c, from + 1)
    }
}

/// The position after the last `c` before `to`, or zero.
pub open spec fn after_last(s: Seq<char>, c: char, to: int) -> int
    decreases to,
{
    if to <= 0 || to > s.len() {
        0
    } else if s[to - 1] == c {
        to
    } else {
        after_last(s, c, to - 1)
    }
}

pub proof fn lemma_find_from(s: Seq<char>, c: char, from: int)
    requires
        0 <= from <= s.len(),
    ensures
        from <= find_from(s, c, from) <= s.len(),
        forall|k: int| from <= k < find_from(s, c, from) ==> s[k] != c,
        find_from(s, c, from) < s.len() ==> s[find_from(s, c, from)] == c,
    decreases s.len() - from,
{
    if from < s.len() && s[from] != c {
        lemma_find_from(s, c, from + 1);
    }
}

pub proof fn lemma_after_last(s: Seq<char>, c: char, to: int)
    requires
        0 <= to <= s.len(),
    ensures
        0 <= after_last(s, c, to) <= to,
        forall|k: int| after_last(s, c, to) <= k < to ==> s[k] != c,
        after_last(s, c, to) > 0 ==> s[after_last(s, c, to) - 1] == c,
    decreases to,
{
    if to > 0 && s[to - 1] != c {
        lemma_after_last(s, c, to - 1);
    }
}

/// The position of the first `c` at or after `from`, or the length.
pub fn find_char(chars: &Vec<char>, c: char, from: usize) -> (r: usize)
    requires
        from <= chars@.len(),
    ensures
        r == find_from(chars@, c, from as int),
        from <= r <= chars@.len(),
        r < chars@.len() ==> chars@[r as int] == c,
        forall|k: int| from <= k < r ==> chars@[k] != c,
{
    let mut i: usize = from;
    while i < chars.len() && chars[i] != c
        invariant
            from <= i <= chars@.len(),
            find_from(chars@, c, from as int) == find_from(chars@, c, i as int),
            forall|k: int| from <= k < i ==> chars@[k] != c,
        decreases chars@.len() - i,
    {
        i = i + 1;
    }
    i
}

/// The position after the last `c` before `to`, or zero.
pub fn find_after_last(chars: &Vec<char>, c: char, to: usize) -> (r: usize)
    requires
        to <= chars@.len(),
    ensures
        r == after_last(chars@, c, to as int),
        r <= to,
        r > 0 ==> chars@[r - 1] == c,
        forall|k: int| r <= k < to ==> chars@[k] != c,
{
    let mut i: usize = to;
    while i > 0 && chars[i - 1] != c
        invariant
            i <= to <= chars@.len(),
            after_last(chars@, c, to as int) == after_last(chars@, c, i as int),
            forall|k: int| i <= k < to ==> chars@[k] != c,
        decreases i,
    {
        i = i - 1;
    }
    i
}

/// Whether the character `c` occurs in `s`.
pub fn contains_char(s: &str, c: char) -> (r: bool)
    ensures
        r == s@.contains(c),
{
    let chars: Vec<char> = to_chars(s);
    let i: usize = find_char(&chars, c, 0);
    proof {
        if i < chars@.len() {
            assert(s@[i as int] == c);
        }
    }
    i < chars.len()
}

// ---------------------------------------------------------------------------
// Splitting
// ---------------------------------------------------------------------------

/// The parts of `s` between the occurrences of `c`.
pub open spec fn split_spec(s: Seq<char>, c: char) -> Seq<Seq<char>>
    decreases s.len(),
    via split_spec_decreases
{
    let i = find_from(s, c, 0);
    if i >= s.len() {
        seq![s]
    } else {
        seq![s.take(i)] + split_spec(s.skip(i + 1), c)
    }
}

#[via_fn]
proof fn split_spec_decreases(s: Seq<char>, c: char) {
    lemma_find_from(s, c, 0);
}

/// The position of the first `c` of `chars[from..]`, counted from `from`.
pub proof fn lemma_find_skip(s: Seq<char>, c: char, from: int, at: int)
    requires
        0 <= from <= at <= s.len(),
    ensures
        find_from(s.skip(from), c, at - from) == find_from(s, c, at) - from,
    decreases s.len() - at,
{
    if at < s.len() && s[at] != c {
        lemma_find_skip(s, c, from, at + 1);
    }
}

/// The parts of `s` between the occurrences of `c`.
pub fn split_char(s: &str, c: char) -> (r: Vec<String>)
    ensures
        text::views(r@) == split_spec(s@, c),
{
    let chars: Vec<char> = to_chars(s);
    let n: usize = chars.len();
    let mut parts: Vec<String> = Vec::new();
    let mut from: usize = 0;
    assert(chars@.skip(0) =~= s@);
    assert(text::views(parts@) + split_spec(s@, c) =~= split_spec(s@, c));
    loop
        invariant
            from <= n == chars@.len(),
            chars@ == s@,
            text::views(parts@) + split_spec(chars@.skip(from as int), c) == split_spec(s@, c),
        decreases n - from,
    {
        let i: usize = find_char(&chars, c, from);
        let part: String = from_chars(&chars, from, i);
        let ghost rest = chars@.skip(from as int);
        proof {
            lemma_find_skip(chars@, c, from as int, from as int);
            text::lemma_views_push(parts@, part);
            assert(part@ =~= rest.take(i - from));
        }
        if i == n {
            proof {
                assert(part@ =~= rest);
                assert(split_spec(rest, c) =~= seq![rest]);
                assert(text::views(parts@).push(part@) =~= text::views(parts@) + seq![rest]);
            }
            parts.push(part);
            return parts;
        }
        proof {
            let after = chars@.skip(i + 1);
            assert(rest.skip(i - from + 1) =~= after);
            assert(text::views(parts@).push(part@) + split_spec(after, c) =~= text::views(parts@) + (
            seq![part@] + split_spec(after, c)));
        }
        parts.push(part);
        from = i + 1;
    }
}

/// At most `n` parts of `s`, cut at the first `n - 1` occurrences of `c`.
pub open spec fn splitn_spec(s: Seq<char>, c: char, n: nat) -> Seq<Seq<char>>
    decreases n,
{
    let i = find_from(s, c, 0);
    if n == 0 {
        Seq::empty()
    } else if n == 1 || i >= s.len() {
        seq![s]
    } else {
        seq![s.take(i)] + splitn_spec(s.skip(i + 1), c, (n - 1) as nat)
    }
}

/// At most `n` parts of `s`, cut at the first `n - 1` occurrences of `c`.
pub fn splitn_char(s: &str, c: char, n: usize) -> (r: Vec<String>)
    ensures
        text::views(r@) == splitn_spec(s@, c, n as nat),
{
    let chars: Vec<char> = to_chars(s);
    let len: usize = chars.len();
    let mut parts: Vec<String> = Vec::new();
    let mut from: usize = 0;
    let mut left: usize = n;
    assert(chars@.skip(0) =~= s@);
    assert(text::views(parts@) + splitn_spec(s@, c, n as nat) =~= splitn_spec(s@, c, n as nat));
    while left > 0
        invariant
            from <= len == chars@.len(),
            chars@ == s@,
            text::views(parts@) + splitn_spec(chars@.skip(from as int), c, left as nat) == splitn_spec(
                s@,
                c,
                n as nat,
            ),
        decreases left,
    {
        let i: usize = find_char(&chars, c, from);
        let ghost rest = chars@.skip(from as int);
        proof {
            lemma_find_skip(chars@, c, from as int, from as int);
        }
        if left == 1 || i == len {
            let part: String = from_chars(&chars, from, len);
            proof {
                assert(part@ =~= rest);
                assert(splitn_spec(rest, c, left as nat) =~= seq![rest]);
                text::lemma_views_push(parts@, part);
                assert(text::views(parts@).push(part@) =~= text::views(parts@) + seq![rest]);
            }
            parts.push(part);
            return parts;
        }
        let part: String = from_chars(&chars, from, i);
        proof {
            assert(part@ =~= rest.take(i - from));
            let after = chars@.skip(i + 1);
            assert(rest.skip(i - from + 1) =~= after);
            text::lemma_views_push(parts@, part);
            assert(text::views(parts@).push(part@) + splitn_spec(after, c, (left - 1) as nat) =~= text::views(
                parts@,
            ) + (seq![part@] + splitn_spec(after, c, (left - 1) as nat)));
        }
        parts.push(part);
        from = i + 1;
        left = left - 1;
    }
    assert(text::views(parts@) =~= splitn_spec(s@, c, n as nat));
    parts
}

/// A line without the carriage return at its end.
pub open spec fn strip_cr(s: Seq<char>) -> Seq<char> {
    if s.len() > 0 && s.last() == '\r' {
        s.drop_last()
    } else {
        s
    }
}

/// The lines of `s`: cut after each line feed, without the line feed and a
/// carriage return before it. What follows the last line feed is a line unless
/// it is empty.
pub open spec fn lines_spec(s: Seq<char>) -> Seq<Seq<char>>
    decreases s.len(),
    via lines_spec_decreases
{
    let i = find_from(s, '\n', 0);
    if s.len() == 0 {
        Seq::empty()
    } else if i >= s.len() {
        seq![s]
    } else {
        seq![strip_cr(s.take(i))] + lines_spec(s.skip(i + 1))
    }
}

#[via_fn]
proof fn lines_spec_decreases(s: Seq<char>) {
    lemma_find_from(s, '\n', 0);
}

/// The lines of `s`.
pub fn lines(s: &str) -> (r: Vec<String>)
    ensures
        text::views(r@) == lines_spec(s@),
{
    let chars: Vec<char> = to_chars(s);
    let n: usize = chars.len();
    let mut parts: Vec<String> = Vec::new();
    let mut from: usize = 0;
    assert(chars@.skip(0) =~= s@);
    assert(text::views(parts@) + lines_spec(s@) =~= lines_spec(s@));
    while from < n
        invariant
            from <= n == chars@.len(),
            chars@ == s@,
            text::views(parts@) + lines_spec(chars@.skip(from as int)) == lines_spec(s@),
        decreases n - from,
    {
        let i: usize = find_char(&chars, '\n', from);
        let ghost rest = chars@.skip(from as int);
        proof {
            lemma_find_skip(chars@, '\n', from as int, from as int);
        }
        if i == n {
            let part: String = from_chars(&chars, from, n);
            proof {
                assert(part@ =~= rest);
                assert(lines_spec(rest) =~= seq![rest]);
                text::lemma_views_push(parts@, part);
                assert(lines_spec(chars@.skip(n as int)) =~= Seq::<Seq<char>>::empty());
                assert(text::views(parts@).push(part@) + Seq::<Seq<char>>::empty() =~= text::views(parts@)
                    + seq![rest]);
            }
            parts.push(part);
            from = n;
        } else {
            let end: usize = if i > from && chars[i - 1] == '\r' {
                i - 1
            } else {
                i
            };
            let part: String = from_chars(&chars, from, end);
            proof {
                let piece = rest.take(i - from);
                assert(piece.len() > 0 ==> piece.last() == chars@[i - 1]);
                assert(part@ =~= strip_cr(piece));
                let after = chars@.skip(i + 1);
                assert(rest.skip(i - from + 1) =~= after);
                text::lemma_views_push(parts@, part);
                assert(text::views(parts@).push(part@) + lines_spec(after) =~= text::views(parts@) + (
                seq![part@] + lines_spec(after)));
            }
            parts.push(part);
            from = i + 1;
        }
    }
    assert(lines_spec(chars@.skip(n as int)) =~= Seq::<Seq<char>>::empty());
    assert(text::views(parts@) =~= lines_spec(s@));
    parts
}

// ---------------------------------------------------------------------------
// Case
// ---------------------------------------------------------------------------

/// What [`str::to_lowercase`] returns.
pub uninterp spec fn lowercase(s: Seq<char>) -> Seq<char>;

/// Calls `str::to_lowercase`: the text with each character replaced by its
/// Unicode lower case.
#[verifier::external_body]
pub(crate) fn to_lowercase(s: &str) -> (r: String)
    ensures
        r@ == lowercase(s@),
{
    s.to_lowercase()
}

// ---------------------------------------------------------------------------
// Lists
// ---------------------------------------------------------------------------

/// The items of a list, each where it first stands.
pub open spec fn distinct_spec(items: Seq<Seq<char>>) -> Seq<Seq<char>>
    decreases items.len(),
{
    if items.len() == 0 {
        Seq::empty()
    } else {
        let before = distinct_spec(items.drop_last());
        if before.contains(items.last()) {
            before
        } else {
            before.push(items.last())
        }
    }
}

/// A list without repetitions has the items of the list.
pub proof fn lemma_distinct(items: Seq<Seq<char>>)
    ensures
        distinct_spec(items).no_duplicates(),
        forall|x: Seq<char>| #[trigger]
            distinct_spec(items).contains(x) <==> items.contains(x),
    decreases items.len(),
{
    if items.len() > 0 {
        let rest = items.drop_last();
        lemma_distinct(rest);
        let before = distinct_spec(rest);
        let all = distinct_spec(items);
        assert(items[items.len() - 1] == items.last());
        assert forall|x: Seq<char>| #[trigger] all.contains(x) <==> items.contains(x) by {
            if items.contains(x) {
                let k = choose|k: int| 0 <= k < items.len() && items[k] == x;
                if k < rest.len() {
                    assert(rest[k] == x);
                }
                assert(x == items.last() || rest.contains(x));
            }
            if rest.contains(x) {
                let k = choose|k: int| 0 <= k < rest.len() && rest[k] == x;
                assert(items[k] == x);
                assert(before.contains(x));
            }
            if !before.contains(items.last()) {
                assert(all[all.len() - 1] == items.last());
                if before.contains(x) {
                    let k = choose|k: int| 0 <= k < before.len() && before[k] == x;
                    assert(all[k] == x);
                }
                if all.contains(x) {
                    let k = choose|k: int| 0 <= k < all.len() && all[k] == x;
                    if k < before.len() {
                        assert(before[k] == x);
                    }
                }
            }
        }
    }
}

/// Whether a string is in a list.
pub fn list_contains(items: &Vec<String>, item: &str) -> (r: bool)
    ensures
        r == text::views(items@).contains(item@),
{
    let ghost all = text::views(items@);
    let mut i: usize = 0;
    while i < items.len()
        invariant
            i <= items@.len(),
            all == text::views(items@),
            forall|k: int| 0 <= k < i ==> #[trigger] all[k] != item@,
        decreases items@.len() - i,
    {
        assert(all[i as int] == items@[i as int]@);
        if str_eq(items[i].as_str(), item) {
            return true;
        }
        i = i + 1;
    }
    false
}

/// The items of a list, each where it first stands.
pub fn distinct_strings(items: &Vec<String>) -> (r: Vec<String>)
    ensures
        text::views(r@) == distinct_spec(text::views(items@)),
{
    let ghost all = text::views(items@);
    let mut list: Vec<String> = Vec::new();
    let mut i: usize = 0;
    assert(text::views(list@) =~= distinct_spec(all.take(0)));
    while i < items.len()
        invariant
            i <= items@.len(),
            all == text::views(items@),
            text::views(list@) == distinct_spec(all.take(i as int)),
        decreases items@.len() - i,
    {
        proof {
            assert(all.take(i + 1).drop_last() =~= all.take(i as int));
            assert(all.take(i + 1).last() == items@[i as int]@);
            text::lemma_views_push(list@, items@[i as int]);
        }
        if !list_contains(&list, items[i].as_str()) {
            list.push(items[i].clone());
        }
        i = i + 1;
    }
    assert(all.take(items@.len() as int) =~= all);
    list
}

/// The number that decimal digits stand for.
pub open spec fn decimal_value(s: Seq<char>) -> int
    decreases s.len(),
{
    if s.len() == 0 {
        0
    } else {
        10 * decimal_value(s.drop_last()) + (s.last() as int - '0' as int)
    }
}

/// The digits of a number stand for it, and are digits.
pub proof fn law_decimal_reads_back(n: nat)
    ensures
        decimal_value(decimal(n)) == n,
        decimal(n).len() > 0,
        forall|i: int| 0 <= i < decimal(n).len() ==> '0' <= #[trigger] decimal(n)[i] <= '9',
        n > 0 ==> decimal(n)[0] != '0',
    decreases n,
{
    if n < 10 {
        reveal_with_fuel(decimal_value, 2);
        assert(decimal(n).drop_last() =~= Seq::<char>::empty());
    } else {
        law_decimal_reads_back(n / 10);
        assert(decimal(n).drop_last() =~= decimal(n / 10));
    }
}

/// A text that is cut at the last place where a character stands is cut in one way.
pub proof fn law_cut_at_last(a: Seq<char>, x: Seq<char>, b: Seq<char>, y: Seq<char>, c: char)
    requires
        a.push(c) + x == b.push(c) + y,
        !x.contains(c),
        !y.contains(c),
    ensures
        a == b,
        x == y,
{
    let s = a.push(c) + x;
    let t = b.push(c) + y;
    assert(s.len() == a.len() + 1 + x.len() && t.len() == b.len() + 1 + y.len());
    if x.len() < y.len() {
        let at = a.len() as int;
        assert(s[at] == c);
        assert(t[at] == y[at - b.len() - 1]);
        assert(y.contains(c));
    }
    if y.len() < x.len() {
        let at = b.len() as int;
        assert(t[at] == c);
        assert(s[at] == x[at - a.len() - 1]);
        assert(x.contains(c));
    }
    assert forall|i: int| 0 <= i < a.len() implies a[i] == b[i] by {
        assert(s[i] == t[i]);
    }
    assert forall|i: int| 0 <= i < x.len() implies x[i] == y[i] by {
        assert(s[a.len() + 1 + i] == t[b.len() + 1 + i]);
    }
    assert(a =~= b);
    assert(x =~= y);
}

/// The digits of a number are read as that number, where it is not too large.
pub proof fn law_digits_parsed(n: nat, max: nat)
    requires
        n <= max,
    ensures
        parsed_number(decimal(n), max) == Some(n),
        digits_value(decimal(n)) == n,
    decreases n,
{
    law_decimal_reads_back(n);
    if n < 10 {
        reveal_with_fuel(digits_value, 2);
        assert(decimal(n).drop_last() =~= Seq::<char>::empty());
    } else {
        law_digits_parsed(n / 10, max);
        assert(decimal(n).drop_last() =~= decimal(n / 10));
    }
}

/// A text is split at the first of a character, and what follows is split on.
pub proof fn law_split_first(a: Seq<char>, c: char, b: Seq<char>)
    requires
        !a.contains(c),
    ensures
        split_spec(a.push(c) + b, c) == seq![a] + split_spec(b, c),
        split_spec(a, c) == seq![a],
{
    let s = a.push(c) + b;
    assert(s.take(a.len() as int) =~= a);
    lemma_first_at(s, c, a.len() as int, a);
    assert(s.skip((a.len() + 1) as int) =~= b);
    lemma_find_from(a, c, 0);
    if find_from(a, c, 0) < a.len() {
        assert(a.contains(a[find_from(a, c, 0)]));
    }
}

proof fn lemma_first_at(s: Seq<char>, c: char, n: int, a: Seq<char>)
    requires
        a.len() == n < s.len(),
        s.take(n) == a,
        !a.contains(c),
        s[n] == c,
    ensures
        find_from(s, c, 0) == n,
{
    lemma_find_from(s, c, 0);
    let i = find_from(s, c, 0);
    if i < n {
        assert(s.take(n)[i] == s[i]);
        assert(a.contains(c));
    }
}

/// A line break ends a line, with a return before it where there is one; what follows is
/// in lines too. The last line needs no line break.
pub proof fn law_line_ends(a: Seq<char>, b: Seq<char>)
    requires
        !a.contains('\n'),
    ensures
        lines_spec(a.push('\n') + b) == seq![
            if a.len() > 0 && a.last() == '\r' {
                a.drop_last()
            } else {
                a
            },
        ] + lines_spec(b),
        a.len() > 0 ==> lines_spec(a) == seq![a],
        lines_spec(Seq::empty()).len() == 0,
{
    let s = a.push('\n') + b;
    assert(s.take(a.len() as int) =~= a);
    lemma_first_at(s, '\n', a.len() as int, a);
    assert(s.skip((a.len() + 1) as int) =~= b);
    lemma_find_from(a, '\n', 0);
    if find_from(a, '\n', 0) < a.len() {
        assert(a.contains(a[find_from(a, '\n', 0)]));
    }
}

/// Parts are joined in their order, with the separator between each two.
pub proof fn law_join_grows(parts: Seq<Seq<char>>, part: Seq<char>, sep: Seq<char>)
    ensures
        join_spec(Seq::empty(), sep).len() == 0,
        parts.len() == 0 ==> join_spec(parts.push(part), sep) == part,
        parts.len() > 0 ==> join_spec(parts.push(part), sep) == join_spec(parts, sep) + sep + part,
{
    assert(parts.push(part).drop_last() =~= parts);
}

/// A text of which only the ends are white space is trimmed of just that.
pub proof fn law_trimmed(a: Seq<char>, s: Seq<char>, b: Seq<char>)
    requires
        forall|i: int| 0 <= i < a.len() ==> text::char_is_whitespace(#[trigger] a[i]),
        forall|i: int| 0 <= i < b.len() ==> text::char_is_whitespace(#[trigger] b[i]),
        s.len() > 0 && !text::char_is_whitespace(s[0]) && !text::char_is_whitespace(s.last()),
    ensures
        trim_spec(a + s + b) == s,
{
    lemma_trim_before(a, s + b);
    assert(a + s + b =~= a + (s + b));
    assert((s + b)[0] == s[0]);
    lemma_trim_after(s, b);
}

proof fn lemma_trim_before(a: Seq<char>, s: Seq<char>)
    requires
        forall|i: int| 0 <= i < a.len() ==> text::char_is_whitespace(#[trigger] a[i]),
        s.len() > 0 && !text::char_is_whitespace(s[0]),
    ensures
        trim_start_spec(a + s) == s,
    decreases a.len(),
{
    if a.len() == 0 {
        assert(a + s =~= s);
    } else {
        assert((a + s)[0] == a[0]);
        assert((a + s).drop_first() =~= a.drop_first() + s);
        assert forall|i: int| 0 <= i < a.drop_first().len() implies text::char_is_whitespace(
            #[trigger] a.drop_first()[i],
        ) by {
            assert(a.drop_first()[i] == a[i + 1]);
        }
        lemma_trim_before(a.drop_first(), s);
    }
}

proof fn lemma_trim_after(s: Seq<char>, b: Seq<char>)
    requires
        forall|i: int| 0 <= i < b.len() ==> text::char_is_whitespace(#[trigger] b[i]),
        s.len() > 0 && !text::char_is_whitespace(s.last()),
    ensures
        trim_end_spec(s + b) == s,
    decreases b.len(),
{
    if b.len() == 0 {
        assert(s + b =~= s);
    } else {
        assert((s + b).last() == b.last());
        assert((s + b).drop_last() =~= s + b.drop_last());
        lemma_trim_after(s, b.drop_last());
    }
}

/// White space parts the words before it from those after it, and a text without any is
/// one word.
pub proof fn law_words_parted(a: Seq<char>, c: char, b: Seq<char>)
    requires
        text::char_is_whitespace(c),
    ensures
        words_spec(a.push(c) + b) == words_spec(a) + words_spec(b),
        a.len() > 0 && (forall|i: int| 0 <= i < a.len() ==> !text::char_is_whitespace(#[trigger] a[i]))
            ==> words_spec(a) == seq![a],
    decreases a.len(),
{
    let s = a.push(c) + b;
    let none = Seq::<Seq<char>>::empty();
    assert(words_spec(Seq::<char>::empty()) =~= none);
    if a.len() == 0 {
        assert(s[0] == c);
        assert(s.drop_first() =~= b);
        assert(trim_start_spec(s) == trim_start_spec(b));
        assert(none + words_spec(b) =~= words_spec(b));
    } else if text::char_is_whitespace(a[0]) {
        assert(s[0] == a[0]);
        assert(s.drop_first() =~= a.drop_first().push(c) + b);
        law_words_parted(a.drop_first(), c, b);
        assert(trim_start_spec(s) == trim_start_spec(s.drop_first()));
        assert(trim_start_spec(a) == trim_start_spec(a.drop_first()));
        assert(words_spec(s) == words_spec(s.drop_first()));
        assert(words_spec(a) == words_spec(a.drop_first()));
    } else {
        let n = lemma_word_run(a);
        lemma_word_len_is(a, n);
        assert forall|i: int| 0 <= i < n implies !text::char_is_whitespace(#[trigger] s[i]) by {
            assert(s[i] == a[i]);
        }
        assert(text::char_is_whitespace(s[n])) by {
            if n < a.len() {
                assert(s[n] == a[n]);
            } else {
                assert(s[n] == c);
            }
        }
        lemma_word_len_is(s, n);
        assert(s.take(n) =~= a.take(n));
        assert(s.skip(n) =~= a.skip(n).push(c) + b);
        law_words_parted(a.skip(n), c, b);
        assert(s[0] == a[0]);
        assert(trim_start_spec(s) == s);
        assert(trim_start_spec(a) == a);
        assert(seq![a.take(n)] + (words_spec(a.skip(n)) + words_spec(b)) =~= (seq![a.take(n)]
            + words_spec(a.skip(n))) + words_spec(b));
        if forall|i: int| 0 <= i < a.len() ==> !text::char_is_whitespace(#[trigger] a[i]) {
            assert(n == a.len());
            assert(a.take(n) =~= a);
            assert(a.skip(n) =~= Seq::<char>::empty());
            assert(words_spec(a) =~= seq![a]);
        }
    }
}

proof fn lemma_word_len_is(s: Seq<char>, n: int)
    requires
        0 <= n <= s.len(),
        forall|i: int| 0 <= i < n ==> !text::char_is_whitespace(#[trigger] s[i]),
        n < s.len() ==> text::char_is_whitespace(s[n]),
    ensures
        word_len(s) == n,
    decreases n,
{
    if n > 0 {
        let rest = s.drop_first();
        assert(!text::char_is_whitespace(s[0]));
        assert forall|i: int| 0 <= i < n - 1 implies !text::char_is_whitespace(
            #[trigger] rest[i],
        ) by {
            assert(rest[i] == s[i + 1]);
        }
        lemma_word_len_is(rest, n - 1);
    }
}

/// The length of the longest start of a text without white space.
proof fn lemma_word_run(s: Seq<char>) -> (n: int)
    ensures
        0 <= n <= s.len(),
        forall|i: int| 0 <= i < n ==> !text::char_is_whitespace(#[trigger] s[i]),
        n < s.len() ==> text::char_is_whitespace(s[n]),
        s.len() > 0 && !text::char_is_whitespace(s[0]) ==> n > 0,
    decreases s.len(),
{
    if s.len() == 0 || text::char_is_whitespace(s[0]) {
        0
    } else {
        let rest = s.drop_first();
        let m = lemma_word_run(rest);
        assert forall|i: int| 0 <= i < m + 1 implies !text::char_is_whitespace(#[trigger] s[i]) by {
            if i > 0 {
                assert(rest[i - 1] == s[i]);
            }
        }
        if m < rest.len() {
            assert(rest[m] == s[m + 1]);
        }
        m + 1
    }
}

} // verus!
