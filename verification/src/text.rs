//! Text primitives: every operation is stated over the characters of a
//! string, and over its UTF-8 bytes where offsets count bytes.

use vstd::prelude::*;
use vstd::utf8::*;

verus! {

broadcast use {vstd::string::group_string_axioms, vstd::seq::group_seq_axioms};

// ---------------------------------------------------------------------------
// Views of collections
// ---------------------------------------------------------------------------

/// The views of the items of a sequence.
pub open spec fn views<T: View>(items: Seq<T>) -> Seq<T::V> {
    Seq::new(items.len(), |i: int| items[i]@)
}

/// The view of an optional value.
pub open spec fn opt_view<T: View>(value: Option<T>) -> Option<T::V> {
    match value {
        Some(v) => Some(v@),
        None => None,
    }
}

pub proof fn lemma_views_push<T: View>(items: Seq<T>, item: T)
    ensures
        views(items.push(item)) == views(items).push(item@),
{
    assert(views(items.push(item)) =~= views(items).push(item@));
}

pub proof fn lemma_views_add<T: View>(a: Seq<T>, b: Seq<T>)
    ensures
        views(a + b) == views(a) + views(b),
{
    assert(views(a + b) =~= views(a) + views(b));
}

/// Appends a copy of every string of `more` to `list`.
pub fn extend_strings(list: &mut Vec<String>, more: &Vec<String>)
    ensures
        views(final(list)@) == views(old(list)@) + views(more@),
{
    let ghost start = list@;
    let mut i: usize = 0;
    while i < more.len()
        invariant
            i <= more@.len(),
            views(list@) == views(start) + views(more@).take(i as int),
        decreases more@.len() - i,
    {
        proof {
            lemma_views_push(list@, more@[i as int]);
            assert(views(more@).take(i + 1) =~= views(more@).take(i as int).push(more@[i as int]@));
        }
        list.push(more[i].clone());
        i = i + 1;
    }
    assert(views(more@).take(more@.len() as int) =~= views(more@));
}

// ---------------------------------------------------------------------------
// Characters
// ---------------------------------------------------------------------------

/// What [`char::is_alphanumeric`] answers of a character that is neither ASCII nor
/// whitespace.
pub uninterp spec fn wide_alphanumeric(c: char) -> bool;

/// Whether a character has the Unicode property `White_Space`.
pub open spec fn char_is_whitespace(c: char) -> bool {
    ||| '\u{9}' <= c <= '\u{d}'
    ||| c == ' '
    ||| c == '\u{85}'
    ||| c == '\u{a0}'
    ||| c == '\u{1680}'
    ||| '\u{2000}' <= c <= '\u{200a}'
    ||| c == '\u{2028}'
    ||| c == '\u{2029}'
    ||| c == '\u{202f}'
    ||| c == '\u{205f}'
    ||| c == '\u{3000}'
}

/// Whether a character is a letter or a number.
pub open spec fn char_is_alphanumeric(c: char) -> bool {
    if c <= '\u{7f}' {
        '0' <= c <= '9' || 'A' <= c <= 'Z' || 'a' <= c <= 'z'
    } else {
        !char_is_whitespace(c) && wide_alphanumeric(c)
    }
}

/// Calls `char::is_whitespace`: whether the character has the Unicode property
/// `White_Space`. Claims that it holds of the characters that Unicode lists for
/// it, and of no others.
#[verifier::external_body]
pub(crate) fn is_whitespace(c: char) -> (r: bool)
    ensures
        r == char_is_whitespace(c),
{
    c.is_whitespace()
}

/// Calls `char::is_alphanumeric`: whether the character is a Unicode letter or
/// number. Of the ASCII characters those are the letters and the digits. Of the
/// others the answer depends on the character alone, and no whitespace is one.
#[verifier::external_body]
pub(crate) fn is_alphanumeric(c: char) -> (r: bool)
    ensures
        c <= '\u{7f}' ==> r == ('0' <= c <= '9' || 'A' <= c <= 'Z' || 'a' <= c <= 'z'),
        c > '\u{7f}' ==> r == (!char_is_whitespace(c) && wide_alphanumeric(c)),
{
    c.is_alphanumeric()
}

/// Whether a character is one of `0` to `9`, `a` to `f` and `A` to `F`.
pub open spec fn is_hex_digit(c: char) -> bool {
    '0' <= c <= '9' || 'a' <= c <= 'f' || 'A' <= c <= 'F'
}

/// The number of bytes that the UTF-8 encoding of a character takes.
pub fn char_width(c: char) -> (w: usize)
    ensures
        w == encode_scalar(c as u32).len(),
        1 <= w <= 4,
{
    let v: u32 = c as u32;
    proof {
        char_is_scalar(c);
    }
    if v <= 0x7f {
        1
    } else if v <= 0x7ff {
        2
    } else if v <= 0xffff {
        3
    } else {
        4
    }
}

/// The characters of `s`.
pub fn to_chars(s: &str) -> (chars: Vec<char>)
    ensures
        chars@ == s@,
{
    let mut chars: Vec<char> = Vec::new();
    for c in it: s.chars()
        invariant
            chars@ == s@.take(it.index()),
            it.seq() == s@,
    {
        chars.push(c);
        assert(s@.take(it.index() + 1) =~= s@.take(it.index()).push(c));
    }
    assert(s@.take(s@.len() as int) =~= s@);
    chars
}

/// `String::push` appends one character.
pub assume_specification[ String::push ](s: &mut String, c: char)
    ensures
        final(s)@ == old(s)@.push(c),
;

/// The string of the characters `chars[from..to]`.
pub fn from_chars(chars: &Vec<char>, from: usize, to: usize) -> (s: String)
    requires
        from <= to <= chars@.len(),
    ensures
        s@ == chars@.subrange(from as int, to as int),
{
    let mut s: String = String::new();
    let mut i: usize = from;
    while i < to
        invariant
            from <= i <= to <= chars@.len(),
            s@ == chars@.subrange(from as int, i as int),
        decreases to - i,
    {
        s.push(chars[i]);
        i = i + 1;
        assert(chars@.subrange(from as int, i as int) =~= chars@.subrange(
            from as int,
            i - 1,
        ).push(chars@[i - 1]));
    }
    s
}

// ---------------------------------------------------------------------------
// Bytes
// ---------------------------------------------------------------------------

/// The number of bytes of a string.
pub open spec fn byte_len(s: Seq<char>) -> nat {
    encode_utf8(s).len()
}

/// Whether the byte offset `i` lies between two characters of `s`, or at one of
/// its ends.
pub open spec fn on_boundary(s: Seq<char>, i: int) -> bool {
    0 <= i <= byte_len(s) && is_char_boundary(encode_utf8(s), i)
}

/// The characters between the byte offsets `from` and `to`.
pub open spec fn byte_slice(s: Seq<char>, from: int, to: int) -> Seq<char> {
    decode_utf8(encode_utf8(s).subrange(from, to))
}

/// Encoding distributes over concatenation.
pub proof fn lemma_encode_add(a: Seq<char>, b: Seq<char>)
    ensures
        encode_utf8(a + b) == encode_utf8(a) + encode_utf8(b),
        byte_len(a + b) == byte_len(a) + byte_len(b),
    decreases a.len(),
{
    if a.len() == 0 {
        assert(a + b =~= b);
        assert(encode_utf8(a) + encode_utf8(b) =~= encode_utf8(b));
    } else {
        assert((a + b).drop_first() =~= a.drop_first() + b);
        lemma_encode_add(a.drop_first(), b);
        assert(encode_utf8(a + b) =~= encode_utf8(a) + encode_utf8(b));
    }
}

pub proof fn lemma_encode_push(s: Seq<char>, c: char)
    ensures
        encode_utf8(s.push(c)) == encode_utf8(s) + encode_scalar(c as u32),
        byte_len(s.push(c)) == byte_len(s) + encode_scalar(c as u32).len(),
        encode_utf8(seq![c]) == encode_scalar(c as u32),
{
    assert(s.push(c) =~= s + seq![c]);
    lemma_encode_add(s, seq![c]);
    reveal_with_fuel(encode_utf8, 2);
    assert(seq![c].drop_first() =~= Seq::<char>::empty());
    assert(encode_utf8(seq![c]) =~= encode_scalar(c as u32));
}

/// A run of characters sits at the byte offsets that its prefixes end at.
pub proof fn lemma_char_range(s: Seq<char>, a: int, b: int)
    requires
        0 <= a <= b <= s.len(),
    ensures
        byte_len(s.take(a)) <= byte_len(s.take(b)) <= byte_len(s),
        byte_len(s.take(b)) == byte_len(s.take(a)) + byte_len(s.subrange(a, b)),
        encode_utf8(s).subrange(byte_len(s.take(a)) as int, byte_len(s.take(b)) as int)
            == encode_utf8(s.subrange(a, b)),
        byte_slice(s, byte_len(s.take(a)) as int, byte_len(s.take(b)) as int) == s.subrange(a, b),
        on_boundary(s, byte_len(s.take(a)) as int),
        on_boundary(s, byte_len(s.take(b)) as int),
{
    let left = s.take(a);
    let mid = s.subrange(a, b);
    let right = s.skip(b);
    assert(s =~= left + (mid + right));
    assert(s.take(b) =~= left + mid);
    lemma_encode_add(left, mid + right);
    lemma_encode_add(mid, right);
    lemma_encode_add(left, mid);
    let bytes = encode_utf8(s);
    assert(bytes.subrange(byte_len(left) as int, byte_len(s.take(b)) as int) =~= encode_utf8(mid));
    encode_utf8_decode_utf8(mid);
    lemma_prefix_boundary(s, a);
    lemma_prefix_boundary(s, b);
}

/// The end of a run of leading characters is a character boundary.
pub proof fn lemma_prefix_boundary(s: Seq<char>, k: int)
    requires
        0 <= k <= s.len(),
    ensures
        on_boundary(s, byte_len(s.take(k)) as int),
    decreases k,
{
    encode_utf8_valid_utf8(s);
    assert(s =~= s.take(k) + s.skip(k));
    lemma_encode_add(s.take(k), s.skip(k));
    if k > 0 {
        encode_utf8_first_scalar(s);
        let rest = s.drop_first();
        lemma_prefix_boundary(rest, k - 1);
        assert(pop_first_scalar(encode_utf8(s)) =~= encode_utf8(rest));
        assert(s.take(k).drop_first() =~= rest.take(k - 1));
    }
}

/// Every character boundary is the end of a run of leading characters.
pub proof fn lemma_boundary_prefix(s: Seq<char>, i: int) -> (k: int)
    requires
        on_boundary(s, i),
    ensures
        0 <= k <= s.len(),
        byte_len(s.take(k)) == i,
    decreases s.len(),
{
    encode_utf8_valid_utf8(s);
    if i == 0 {
        assert(s.take(0) =~= Seq::<char>::empty());
        0
    } else {
        assert(s.len() > 0);
        encode_utf8_first_scalar(s);
        let rest = s.drop_first();
        assert(pop_first_scalar(encode_utf8(s)) =~= encode_utf8(rest));
        let j = i - length_of_first_scalar(encode_utf8(s));
        encode_utf8_valid_utf8(rest);
        assert(is_char_boundary(encode_utf8(rest), j));
        if rest.len() == 0 {
            assert(encode_utf8(rest).len() == 0);
            reveal_with_fuel(is_char_boundary, 2);
        }
        reveal_with_fuel(is_char_boundary, 2);
        let k = lemma_boundary_prefix(rest, j);
        assert(s.take(k + 1).drop_first() =~= rest.take(k));
        k + 1
    }
}

/// Cutting at boundaries gives a string whose bytes are the cut bytes.
pub proof fn lemma_byte_slice(s: Seq<char>, from: int, to: int)
    requires
        on_boundary(s, from),
        on_boundary(s, to),
        from <= to,
    ensures
        encode_utf8(byte_slice(s, from, to)) == encode_utf8(s).subrange(from, to),
        byte_len(byte_slice(s, from, to)) == to - from,
{
    let a = lemma_boundary_prefix(s, from);
    let b = lemma_boundary_prefix(s, to);
    if a > b {
        lemma_char_range(s, b, a);
        assert(from == to);
        assert(encode_utf8(s).subrange(from, to) =~= encode_utf8(Seq::<char>::empty()));
        encode_utf8_decode_utf8(Seq::<char>::empty());
    } else {
        lemma_char_range(s, a, b);
    }
}

/// A character count bounds the byte count from below.
pub proof fn lemma_byte_len_lower(s: Seq<char>)
    ensures
        s.len() <= byte_len(s),
    decreases s.len(),
{
    if s.len() > 0 {
        lemma_byte_len_lower(s.drop_first());
    }
}

/// The number of bytes of `s`.
pub fn len_bytes(s: &str) -> (n: usize)
    ensures
        n == byte_len(s@),
        s@.len() <= n,
{
    proof {
        lemma_byte_len_lower(s@);
    }
    s.as_bytes().len()
}

/// Cuts `s` at two byte offsets.
pub fn slice_bytes<'a>(s: &'a str, from: usize, to: usize) -> (r: &'a str)
    requires
        from <= to,
        on_boundary(s@, from as int),
        on_boundary(s@, to as int),
    ensures
        r@ == byte_slice(s@, from as int, to as int),
        encode_utf8(r@) == encode_utf8(s@).subrange(from as int, to as int),
{
    let ghost bytes = encode_utf8(s@);
    proof {
        encode_utf8_valid_utf8(s@);
        valid_utf8_split(bytes, to as int);
    }
    let head: &str = s.split_at(to).0;
    let ghost prefix = bytes.subrange(0, to as int);
    proof {
        if from < to {
            is_char_boundary_iff_not_is_continuation_byte(bytes, from as int);
            is_char_boundary_iff_not_is_continuation_byte(prefix, from as int);
            assert(prefix[from as int] == bytes[from as int]);
        } else {
            is_char_boundary_start_end_of_seq(prefix);
        }
    }
    let tail: &str = head.split_at(from).1;
    proof {
        assert(encode_utf8(tail@) =~= bytes.subrange(from as int, to as int));
        encode_utf8_decode_utf8(tail@);
    }
    tail
}

/// Whether the byte offset `i` is a character boundary of `s`.
pub fn is_boundary(s: &str, i: usize) -> (r: bool)
    ensures
        r == on_boundary(s@, i as int),
{
    let n: usize = len_bytes(s);
    i <= n && s.is_char_boundary(i)
}

/// Whether two strings hold the same characters.
pub fn str_eq(a: &str, b: &str) -> (r: bool)
    ensures
        r == (a@ == b@),
{
    let x: &[u8] = a.as_bytes();
    let y: &[u8] = b.as_bytes();
    proof {
        encode_utf8_decode_utf8(a@);
        encode_utf8_decode_utf8(b@);
    }
    if x.len() != y.len() {
        return false;
    }
    let mut i: usize = 0;
    while i < x.len()
        invariant
            i <= x@.len(),
            x@.len() == y@.len(),
            x@ == encode_utf8(a@),
            y@ == encode_utf8(b@),
            forall|k: int| 0 <= k < i ==> x@[k] == y@[k],
        decreases x@.len() - i,
    {
        if x[i] != y[i] {
            return false;
        }
        i = i + 1;
    }
    assert(x@ =~= y@);
    true
}

} // verus!
