//! Handle types for referencing content without expansion.

use vstd::prelude::*;
use vstd::utf8::*;
use crate::document;
use crate::document::{copy_span, NodeType, RefType, Span};
use crate::error::CanopyError;
use crate::hashing;
use crate::hashing::{hex_encode, sha256};
use crate::strings;
use crate::strings::{concat, decimal_string, join, split_whitespace, trim};
use crate::text;
use crate::text::{from_chars, is_boundary, len_bytes, slice_bytes, to_chars};

verus! {

broadcast use {vstd::string::group_string_axioms, vstd::seq::group_seq_axioms};

// ---------------------------------------------------------------------------
// Handle IDs
// ---------------------------------------------------------------------------

/// Stable handle ID: a hash of file path, node type and span. It stays the same
/// over a reindex as long as the content stays where it is. Shown with the
/// prefix `h`, stored without it.
#[derive(Debug, PartialEq, Eq, Hash)]
pub struct HandleId {
    raw: String,
}

impl View for HandleId {
    type V = Seq<char>;

    /// The ID without prefix.
    closed spec fn view(&self) -> Seq<char> {
        self.raw@
    }
}

impl Clone for HandleId {
    fn clone(&self) -> (r: HandleId)
        ensures
            r == *self,
    {
        HandleId { raw: self.raw.clone() }
    }
}

/// The text whose digest identifies a place in a file.
pub open spec fn id_input(file_path: Seq<char>, node_type: NodeType, span: Span) -> Seq<char> {
    file_path + ":"@ + strings::decimal(node_type.code() as nat) + ":"@ + strings::decimal(
        span.start as nat,
    ) + "-"@ + strings::decimal(span.end as nat)
}

/// The ID of a place in a file: the first 12 bytes of a digest in hexadecimal.
pub open spec fn raw_id(file_path: Seq<char>, node_type: NodeType, span: Span) -> Seq<char> {
    hashing::hex_text(
        hashing::sha256_digest(encode_utf8(id_input(file_path, node_type, span))).take(12),
    )
}

/// Whether every character is a hexadecimal digit.
pub open spec fn all_hex(s: Seq<char>) -> bool {
    forall|i: int| 0 <= i < s.len() ==> text::is_hex_digit(#[trigger] s[i])
}

/// An ID as it is shown.
pub open spec fn shown_id(raw: Seq<char>) -> Seq<char> {
    "h"@ + raw
}

/// An ID without the prefix `h`, if it has it.
pub open spec fn without_prefix(s: Seq<char>) -> Seq<char> {
    if s.len() > 0 && s[0] == 'h' {
        s.drop_first()
    } else {
        s
    }
}

impl HandleId {
    /// The ID of a place in a file.
    pub fn new(file_path: &str, node_type: NodeType, span: &Span) -> (r: HandleId)
        ensures
            r@ == raw_id(file_path@, node_type, *span),
            r@.len() == 24,
            all_hex(r@),
    {
        let mut input: String = file_path.to_owned();
        input.append(":");
        input.append(decimal_string(node_type.as_int() as u64).as_str());
        input.append(":");
        input.append(decimal_string(span.start as u64).as_str());
        input.append("-");
        input.append(decimal_string(span.end as u64).as_str());
        let hash: [u8; 32] = sha256(input.as_str().as_bytes());
        let mut prefix: Vec<u8> = Vec::new();
        let mut i: usize = 0;
        while i < 12
            invariant
                i <= 12,
                prefix@ == hash@.take(i as int),
            decreases 12 - i,
        {
            prefix.push(hash[i]);
            i = i + 1;
            assert(hash@.take(i as int) =~= hash@.take(i - 1).push(hash@[i - 1]));
        }
        let raw: String = hex_encode(prefix.as_slice());
        proof {
            lemma_hex_text(prefix@);
        }
        HandleId { raw }
    }

    /// The ID without prefix.
    pub fn raw(&self) -> (r: &str)
        ensures
            r@ == self@,
    {
        self.raw.as_str()
    }

    /// A handle ID from its text without prefix.
    pub fn from_raw(raw: String) -> (r: HandleId)
        ensures
            r@ == raw@,
    {
        HandleId { raw }
    }

    /// The ID with the prefix `h`.
    pub fn to_string(&self) -> (r: String)
        ensures
            r@ == shown_id(self@),
    {
        concat("h", self.raw.as_str())
    }

    /// Reads an ID, with or without the prefix `h`. What remains must be
    /// hexadecimal digits.
    pub fn parse(s: &str) -> (r: Result<HandleId, CanopyError>)
        ensures
            match r {
                Ok(id) => all_hex(without_prefix(s@)) && id@ == without_prefix(s@),
                Err(e) => !all_hex(without_prefix(s@)) && (e matches CanopyError::InvalidHandle(m)
                    && m@ == "Invalid handle ID: "@ + without_prefix(s@)),
            },
    {
        let chars: Vec<char> = to_chars(s);
        let n: usize = chars.len();
        let start: usize = if n > 0 && chars[0] == 'h' {
            1
        } else {
            0
        };
        let raw: String = from_chars(&chars, start, n);
        assert(raw@ =~= without_prefix(s@));
        let mut i: usize = start;
        while i < n
            invariant
                start <= i <= n == chars@.len(),
                raw@ == chars@.subrange(start as int, n as int),
                raw@ == without_prefix(s@),
                forall|k: int| 0 <= k < i - start ==> text::is_hex_digit(#[trigger] raw@[k]),
            decreases n - i,
        {
            let c: char = chars[i];
            assert(raw@[i - start] == c);
            if !(('0' <= c && c <= '9') || ('a' <= c && c <= 'f') || ('A' <= c && c <= 'F')) {
                return Err(
                    CanopyError::InvalidHandle(concat("Invalid handle ID: ", raw.as_str())),
                );
            }
            i = i + 1;
        }
        Ok(HandleId { raw })
    }
}

impl std::str::FromStr for HandleId {
    type Err = CanopyError;

    fn from_str(s: &str) -> (r: Result<HandleId, CanopyError>)
        ensures
            match r {
                Ok(id) => all_hex(without_prefix(s@)) && id@ == without_prefix(s@),
                Err(e) => !all_hex(without_prefix(s@)) && (e matches CanopyError::InvalidHandle(m)
                    && m@ == "Invalid handle ID: "@ + without_prefix(s@)),
            },
    {
        HandleId::parse(s)
    }
}

proof fn lemma_hex_text(bytes: Seq<u8>)
    ensures
        hashing::hex_text(bytes).len() == 2 * bytes.len(),
        all_hex(hashing::hex_text(bytes)),
{
    assert forall|i: int| 0 <= i < hashing::hex_text(bytes).len() implies text::is_hex_digit(
        #[trigger] hashing::hex_text(bytes)[i],
    ) by {
        let b = bytes[i / 2] as int;
        assert(0 <= b / 16 < 16 && 0 <= b % 16 < 16);
    }
}

/// The same place has the same ID.
pub proof fn law_id_deterministic(
    file_path: Seq<char>,
    node_type: NodeType,
    a: Span,
    b: Span,
)
    requires
        a.start == b.start,
        a.end == b.end,
    ensures
        raw_id(file_path, node_type, a) == raw_id(file_path, node_type, b),
{
}

/// The ID of a place reads back, both as it is shown and as it is stored.
pub proof fn law_id_round_trip(file_path: Seq<char>, node_type: NodeType, span: Span)
    ensures
        ({
            let raw = raw_id(file_path, node_type, span);
            &&& all_hex(without_prefix(shown_id(raw))) && without_prefix(shown_id(raw)) == raw
            &&& all_hex(without_prefix(raw)) && without_prefix(raw) == raw
        }),
{
    let raw = raw_id(file_path, node_type, span);
    lemma_hex_text(
        hashing::sha256_digest(encode_utf8(id_input(file_path, node_type, span))).take(12),
    );
    reveal_strlit("h");
    assert(shown_id(raw).drop_first() =~= raw);
    if raw.len() > 0 {
        assert(text::is_hex_digit(raw[0]));
    }
}

// ---------------------------------------------------------------------------
// Handles
// ---------------------------------------------------------------------------

/// Where a handle came from.
#[derive(Debug, Clone, Copy, PartialEq, Eq, Structural)]
pub enum HandleSource {
    Local,
    Service,
}

/// A reference to content.
#[derive(Debug)]
pub struct Handle {
    pub id: HandleId,
    /// Relative to the repository.
    pub file_path: String,
    pub node_type: NodeType,
    /// Byte range in the file.
    pub span: Span,
    /// For display, counted from one.
    pub line_range: (usize, usize),
    pub token_count: usize,
    pub preview: String,
    /// Full content, where the query asked for it and it fits.
    pub content: Option<String>,
    pub source: HandleSource,
    pub commit_sha: Option<String>,
    pub generation: Option<u64>,
}

/// The view of a [`Handle`].
pub struct HandleView {
    pub id: Seq<char>,
    pub file_path: Seq<char>,
    pub node_type: NodeType,
    pub span: Span,
    pub line_range: (usize, usize),
    pub token_count: usize,
    pub preview: Seq<char>,
    pub content: Option<Seq<char>>,
    pub source: HandleSource,
    pub commit_sha: Option<Seq<char>>,
    pub generation: Option<u64>,
}

impl View for Handle {
    type V = HandleView;

    open spec fn view(&self) -> HandleView {
        HandleView {
            id: self.id@,
            file_path: self.file_path@,
            node_type: self.node_type,
            span: self.span,
            line_range: self.line_range,
            token_count: self.token_count,
            preview: self.preview@,
            content: text::opt_view(self.content),
            source: self.source,
            commit_sha: text::opt_view(self.commit_sha),
            generation: self.generation,
        }
    }
}

impl Clone for Handle {
    fn clone(&self) -> (r: Handle)
        ensures
            r == *self,
    {
        Handle {
            id: self.id.clone(),
            file_path: self.file_path.clone(),
            node_type: self.node_type,
            span: copy_span(&self.span),
            line_range: self.line_range,
            token_count: self.token_count,
            preview: self.preview.clone(),
            content: self.content.clone(),
            source: self.source,
            commit_sha: self.commit_sha.clone(),
            generation: self.generation,
        }
    }
}

impl HandleView {
    /// A local handle without content.
    pub open spec fn local(
        id: Seq<char>,
        file_path: Seq<char>,
        node_type: NodeType,
        span: Span,
        line_range: (usize, usize),
        token_count: usize,
        preview: Seq<char>,
    ) -> HandleView {
        HandleView {
            id,
            file_path,
            node_type,
            span,
            line_range,
            token_count,
            preview,
            content: None,
            source: HandleSource::Local,
            commit_sha: None,
            generation: None,
        }
    }
}

impl Handle {
    /// A local handle, whose ID is that of its place.
    pub fn new(
        file_path: String,
        node_type: NodeType,
        span: Span,
        line_range: (usize, usize),
        token_count: usize,
        preview: String,
    ) -> (r: Handle)
        ensures
            r@ == HandleView::local(
                raw_id(file_path@, node_type, span),
                file_path@,
                node_type,
                span,
                line_range,
                token_count,
                preview@,
            ),
    {
        let id: HandleId = HandleId::new(file_path.as_str(), node_type, &span);
        Handle {
            id,
            file_path,
            node_type,
            span,
            line_range,
            token_count,
            preview,
            content: None,
            source: HandleSource::Local,
            commit_sha: None,
            generation: None,
        }
    }

    /// The handle with content.
    pub fn with_content(self, content: String) -> (r: Handle)
        ensures
            r@ == (HandleView { content: Some(content@), ..self@ }),
    {
        let mut r: Handle = self;
        r.content = Some(content);
        r
    }
}

/// Handle for a reference (call, import, type usage).
#[derive(Debug)]
pub struct RefHandle {
    /// File path, relative to the repository.
    pub file_path: String,
    /// Byte span of the reference.
    pub span: Span,
    /// Line range, counted from one.
    pub line_range: (usize, usize),
    /// The referenced name (unqualified).
    pub name: String,
    /// Optional qualifier (such as an object name or a module path).
    pub qualifier: Option<String>,
    /// Type of reference.
    pub ref_type: RefType,
    /// Handle of the containing function or class (if any).
    pub source_handle: Option<HandleId>,
    /// Preview text around the reference.
    pub preview: String,
}

/// The view of a [`RefHandle`].
pub struct RefHandleView {
    pub file_path: Seq<char>,
    pub span: Span,
    pub line_range: (usize, usize),
    pub name: Seq<char>,
    pub qualifier: Option<Seq<char>>,
    pub ref_type: RefType,
    pub source_handle: Option<Seq<char>>,
    pub preview: Seq<char>,
}

impl View for RefHandle {
    type V = RefHandleView;

    open spec fn view(&self) -> RefHandleView {
        RefHandleView {
            file_path: self.file_path@,
            span: self.span,
            line_range: self.line_range,
            name: self.name@,
            qualifier: text::opt_view(self.qualifier),
            ref_type: self.ref_type,
            source_handle: text::opt_view(self.source_handle),
            preview: self.preview@,
        }
    }
}

impl Clone for RefHandle {
    fn clone(&self) -> (r: RefHandle)
        ensures
            r == *self,
    {
        RefHandle {
            file_path: self.file_path.clone(),
            span: copy_span(&self.span),
            line_range: self.line_range,
            name: self.name.clone(),
            qualifier: self.qualifier.clone(),
            ref_type: self.ref_type,
            source_handle: match &self.source_handle {
                Some(id) => Some(id.clone()),
                None => None,
            },
            preview: self.preview.clone(),
        }
    }
}

// ---------------------------------------------------------------------------
// Previews
// ---------------------------------------------------------------------------

/// The first character boundary at or after the byte offset `i`, or the length.
pub open spec fn boundary_up(s: Seq<char>, i: int) -> int
    decreases text::byte_len(s) - i,
{
    if i >= text::byte_len(s) {
        text::byte_len(s) as int
    } else if text::on_boundary(s, i) {
        i
    } else {
        boundary_up(s, i + 1)
    }
}

/// The last character boundary at or before the byte offset `i`.
pub open spec fn boundary_down(s: Seq<char>, i: int) -> int
    decreases i,
{
    if i <= 0 {
        0
    } else if i > text::byte_len(s) {
        text::byte_len(s) as int
    } else if text::on_boundary(s, i) {
        i
    } else {
        boundary_down(s, i - 1)
    }
}

/// The characters of `s` that lie wholly between two byte offsets.
pub open spec fn safe_slice_spec(s: Seq<char>, start: int, end: int) -> Seq<char> {
    let a = boundary_up(s, start);
    let b = boundary_down(s, end);
    if a >= b {
        Seq::empty()
    } else {
        text::byte_slice(s, a, b)
    }
}

pub proof fn lemma_end_boundary(s: Seq<char>)
    ensures
        text::on_boundary(s, 0),
        text::on_boundary(s, text::byte_len(s) as int),
{
    text::lemma_prefix_boundary(s, 0);
    text::lemma_prefix_boundary(s, s.len() as int);
    assert(s.take(0) =~= Seq::<char>::empty());
    assert(s.take(s.len() as int) =~= s);
}

/// The characters of `s` that lie wholly between two byte offsets.
pub fn safe_slice<'a>(s: &'a str, start: usize, end: usize) -> (r: &'a str)
    ensures
        r@ == safe_slice_spec(s@, start as int, end as int),
{
    let n: usize = len_bytes(s);
    proof {
        lemma_end_boundary(s@);
    }
    let mut a: usize = if start <= n {
        start
    } else {
        n
    };
    while a < n && !is_boundary(s, a)
        invariant
            a <= n == text::byte_len(s@),
            boundary_up(s@, start as int) == boundary_up(s@, a as int),
        decreases n - a,
    {
        a = a + 1;
    }
    let mut b: usize = if end <= n {
        end
    } else {
        n
    };
    while b > 0 && !is_boundary(s, b)
        invariant
            b <= n == text::byte_len(s@),
            text::on_boundary(s@, 0),
            text::on_boundary(s@, n as int),
            boundary_down(s@, end as int) == boundary_down(s@, b as int),
        decreases b,
    {
        b = b - 1;
    }
    if a >= b {
        proof {
            reveal_strlit("");
        }
        assert(""@ =~= Seq::<char>::empty());
        ""
    } else {
        slice_bytes(s, a, b)
    }
}

/// A piece of a text takes up no more bytes than lie between the offsets.
pub proof fn law_safe_slice_bound(s: Seq<char>, start: int, end: int)
    requires
        0 <= start,
        0 <= end,
    ensures
        text::byte_len(safe_slice_spec(s, start, end)) <= (if start <= end {
            end - start
        } else {
            0
        }),
        text::byte_len(safe_slice_spec(s, start, end)) <= text::byte_len(s),
{
    lemma_end_boundary(s);
    lemma_boundary_up(s, start);
    lemma_boundary_down(s, end);
    let a = boundary_up(s, start);
    let b = boundary_down(s, end);
    if a < b {
        text::lemma_byte_slice(s, a, b);
    }
}

proof fn lemma_boundary_up(s: Seq<char>, i: int)
    requires
        0 <= i,
    ensures
        text::on_boundary(s, boundary_up(s, i)),
        i <= text::byte_len(s) ==> i <= boundary_up(s, i),
        0 <= boundary_up(s, i) <= text::byte_len(s),
    decreases text::byte_len(s) - i,
{
    lemma_end_boundary(s);
    if i < text::byte_len(s) && !text::on_boundary(s, i) {
        lemma_boundary_up(s, i + 1);
    }
}

proof fn lemma_boundary_down(s: Seq<char>, i: int)
    ensures
        text::on_boundary(s, boundary_down(s, i)),
        i >= 0 ==> boundary_down(s, i) <= i,
        0 <= boundary_down(s, i) <= text::byte_len(s),
    decreases i,
{
    lemma_end_boundary(s);
    if 0 < i <= text::byte_len(s) && !text::on_boundary(s, i) {
        lemma_boundary_down(s, i - 1);
    }
}

/// A text cut to its first bytes, with each run of whitespace made one space.
pub open spec fn preview_body(content: Seq<char>, max_bytes: int) -> Seq<char> {
    let len = text::byte_len(content) as int;
    let cut = safe_slice_spec(
        content,
        0,
        if max_bytes <= len {
            max_bytes
        } else {
            len
        },
    );
    strings::join_spec(strings::words_spec(strings::trim_spec(cut)), " "@)
}

/// The preview of a span: at most `max_bytes` bytes, and dots where something
/// was cut off.
pub open spec fn preview_spec(source: Seq<char>, span: Span, max_bytes: int) -> Seq<char> {
    let content = safe_slice_spec(source, span.start as int, span.end as int);
    if text::byte_len(content) > max_bytes {
        preview_body(content, max_bytes) + "..."@
    } else {
        preview_body(content, max_bytes)
    }
}

/// The preview of a span.
pub fn generate_preview(source: &str, span: &Span, max_bytes: usize) -> (r: String)
    ensures
        r@ == preview_spec(source@, *span, max_bytes as int),
{
    let content: &str = safe_slice(source, span.start, span.end);
    let len: usize = len_bytes(content);
    let end: usize = if max_bytes <= len {
        max_bytes
    } else {
        len
    };
    let cut: &str = safe_slice(content, 0, end);
    let trimmed: String = trim(cut);
    let words: Vec<String> = split_whitespace(trimmed.as_str());
    let body: String = join(&words, " ");
    if len > max_bytes {
        concat(body.as_str(), "...")
    } else {
        body
    }
}

/// A preview takes up at most three bytes more than allowed, and those only
/// where something was cut off.
pub proof fn law_preview_bound(source: Seq<char>, span: Span, max_bytes: int)
    requires
        0 <= max_bytes,
    ensures
        text::byte_len(preview_spec(source, span, max_bytes)) <= max_bytes + 3,
        text::byte_len(
            safe_slice_spec(source, span.start as int, span.end as int),
        ) <= max_bytes ==> text::byte_len(preview_spec(source, span, max_bytes)) <= max_bytes,
{
    let content = safe_slice_spec(source, span.start as int, span.end as int);
    let len = text::byte_len(content) as int;
    let end = if max_bytes <= len {
        max_bytes
    } else {
        len
    };
    let cut = safe_slice_spec(content, 0, end);
    law_safe_slice_bound(content, 0, end);
    lemma_trim_bytes(cut);
    lemma_words_bytes(strings::trim_spec(cut));
    lemma_trim_start_bytes(strings::trim_spec(cut));
    text::lemma_encode_add(preview_body(content, max_bytes), "..."@);
    reveal_strlit("...");
    reveal_with_fuel(encode_utf8, 4);
    assert("..."@ =~= seq!['.', '.', '.']);
    assert(seq!['.', '.', '.'].drop_first() =~= seq!['.', '.']);
    assert(seq!['.', '.'].drop_first() =~= seq!['.']);
    assert(seq!['.'].drop_first() =~= Seq::<char>::empty());
}

proof fn lemma_trim_start_bytes(s: Seq<char>)
    ensures
        text::byte_len(strings::trim_start_spec(s)) <= text::byte_len(s),
        s.len() > 0 && text::char_is_whitespace(s[0]) ==> text::byte_len(
            strings::trim_start_spec(s),
        ) + 1 <= text::byte_len(s),
    decreases s.len(),
{
    if s.len() > 0 && text::char_is_whitespace(s[0]) {
        lemma_trim_start_bytes(s.drop_first());
    }
}

proof fn lemma_trim_bytes(s: Seq<char>)
    ensures
        text::byte_len(strings::trim_spec(s)) <= text::byte_len(s),
{
    lemma_trim_start_bytes(s);
    lemma_trim_end_bytes(strings::trim_start_spec(s));
}

proof fn lemma_trim_end_bytes(s: Seq<char>)
    ensures
        text::byte_len(strings::trim_end_spec(s)) <= text::byte_len(s),
    decreases s.len(),
{
    if s.len() > 0 && text::char_is_whitespace(s.last()) {
        lemma_trim_end_bytes(s.drop_last());
        text::lemma_encode_push(s.drop_last(), s.last());
        assert(s =~= s.drop_last().push(s.last()));
    }
}

proof fn lemma_join_cons(w: Seq<char>, ws: Seq<Seq<char>>, sep: Seq<char>)
    requires
        ws.len() > 0,
    ensures
        strings::join_spec(seq![w] + ws, sep) == w + sep + strings::join_spec(ws, sep),
    decreases ws.len(),
{
    let all = seq![w] + ws;
    if ws.len() == 1 {
        assert(all.drop_last() =~= seq![w]);
        assert(strings::join_spec(seq![w], sep) == w);
        assert(all.last() == ws[0]);
    } else {
        assert(all.drop_last() =~= seq![w] + ws.drop_last());
        lemma_join_cons(w, ws.drop_last(), sep);
        assert(all.last() == ws.last());
        assert(strings::join_spec(all, sep) =~= w + sep + strings::join_spec(ws, sep));
    }
}

proof fn lemma_word_end(s: Seq<char>)
    ensures
        strings::word_len(s) <= s.len(),
        strings::word_len(s) < s.len() ==> text::char_is_whitespace(
            s[strings::word_len(s) as int],
        ),
    decreases s.len(),
{
    if s.len() > 0 && !text::char_is_whitespace(s[0]) {
        lemma_word_end(s.drop_first());
    }
}

/// Making each run of whitespace one space does not lengthen a text.
proof fn lemma_words_bytes(s: Seq<char>)
    ensures
        text::byte_len(strings::join_spec(strings::words_spec(s), " "@)) <= text::byte_len(
            strings::trim_start_spec(s),
        ),
    decreases s.len(),
{
    let t = strings::trim_start_spec(s);
    strings::lemma_trim_start_len(s);
    if t.len() > 0 {
        let n = strings::word_len(t) as int;
        lemma_word_end(t);
        assert(n >= 1);
        let w = t.take(n);
        let rest = t.skip(n);
        let ws = strings::words_spec(rest);
        lemma_words_bytes(rest);
        lemma_trim_start_bytes(rest);
        assert(t =~= w + rest);
        text::lemma_encode_add(w, rest);
        if ws.len() == 0 {
            assert(seq![w] + ws =~= seq![w]);
        } else {
            lemma_join_cons(w, ws, " "@);
            reveal_strlit(" ");
            assert(" "@ =~= seq![' ']);
            text::lemma_encode_push(Seq::empty(), ' ');
            text::lemma_encode_add(w + " "@, strings::join_spec(ws, " "@));
            text::lemma_encode_add(w, " "@);
            assert(rest.len() > 0) by {
                if rest.len() == 0 {
                    assert(strings::trim_start_spec(rest).len() == 0);
                }
            }
            assert(rest[0] == t[n]);
        }
    }
}

/// What an id is made from tells nodes apart: two that differ in their file, their type
/// or their span are made from different texts.
pub proof fn law_id_input_distinct(
    p: Seq<char>,
    s: NodeType,
    a: Span,
    q: Seq<char>,
    t: NodeType,
    b: Span,
)
    requires
        id_input(p, s, a) == id_input(q, t, b),
    ensures
        p == q,
        s == t,
        a == b,
{
    reveal_strlit(":");
    reveal_strlit("-");
    let x1 = strings::decimal(s.code() as nat);
    let x2 = strings::decimal(a.start as nat);
    let x3 = strings::decimal(a.end as nat);
    let y1 = strings::decimal(t.code() as nat);
    let y2 = strings::decimal(b.start as nat);
    let y3 = strings::decimal(b.end as nat);
    lemma_digits_alone(s.code() as nat);
    lemma_digits_alone(a.start as nat);
    lemma_digits_alone(a.end as nat);
    lemma_digits_alone(t.code() as nat);
    lemma_digits_alone(b.start as nat);
    lemma_digits_alone(b.end as nat);
    let a1 = p.push(':') + x1;
    let a2 = a1.push(':') + x2;
    let a3 = a2.push('-') + x3;
    let b1 = q.push(':') + y1;
    let b2 = b1.push(':') + y2;
    let b3 = b2.push('-') + y3;
    assert(a3 =~= id_input(p, s, a));
    assert(b3 =~= id_input(q, t, b));
    strings::law_cut_at_last(a2, x3, b2, y3, '-');
    strings::law_cut_at_last(a1, x2, b1, y2, ':');
    strings::law_cut_at_last(p, x1, q, y1, ':');
    document::law_node_type_code(s, s.code());
    document::law_node_type_code(t, t.code());
}

proof fn lemma_digits_alone(n: nat)
    ensures
        !strings::decimal(n).contains(':'),
        !strings::decimal(n).contains('-'),
        strings::decimal_value(strings::decimal(n)) == n,
{
    strings::law_decimal_reads_back(n);
}

/// A handle's id is twice as many hexadecimal digits as the bytes of its hash that it
/// shows, and shows it from its first byte on.
pub proof fn law_id_shows_hash(file_path: Seq<char>, node_type: NodeType, span: Span)
    requires
        hashing::sha256_digest(encode_utf8(id_input(file_path, node_type, span))).len() >= 12,
    ensures
        ({
            let digest = hashing::sha256_digest(encode_utf8(id_input(file_path, node_type, span)));
            let raw = raw_id(file_path, node_type, span);
            &&& raw.len() == 24
            &&& forall|i: int|
                0 <= i < 12 ==> hex_value(#[trigger] raw[2 * i]) * 16 + hex_value(raw[2 * i + 1])
                    == digest[i]
        }),
{
    let digest = hashing::sha256_digest(encode_utf8(id_input(file_path, node_type, span)));
    let raw = raw_id(file_path, node_type, span);
    assert forall|i: int| 0 <= i < 12 implies hex_value(#[trigger] raw[2 * i]) * 16 + hex_value(
        raw[2 * i + 1],
    ) == digest[i] by {
        assert((2 * i) % 2 == 0 && (2 * i) / 2 == i);
        assert((2 * i + 1) % 2 == 1 && (2 * i + 1) / 2 == i);
        assert(digest.take(12)[i] == digest[i]);
        let d = digest[i] as int;
        assert(0 <= d / 16 < 16 && 0 <= d % 16 < 16);
    }
}

/// The number that a hexadecimal digit stands for.
pub open spec fn hex_value(c: char) -> int {
    if '0' <= c <= '9' {
        c as int - '0' as int
    } else {
        10 + (c as int - 'a' as int)
    }
}

/// Between two places where characters start, all the text is taken.
pub proof fn law_safe_slice_exact(s: Seq<char>, start: int, end: int)
    requires
        0 <= start <= end,
        text::on_boundary(s, start),
        text::on_boundary(s, end),
    ensures
        safe_slice_spec(s, start, end) == text::byte_slice(s, start, end),
{
    let i = text::lemma_boundary_prefix(s, start);
    let j = text::lemma_boundary_prefix(s, end);
    text::lemma_char_range(s, 0, i);
    text::lemma_char_range(s, 0, j);
    if start == end {
        text::lemma_char_range(s, i, i);
        assert(s.subrange(i, i) =~= Seq::<char>::empty());
    }
}

/// A preview of a text that is short enough is the words of the text with one space
/// between each two; of a longer one it is that of its start, and dots.
pub proof fn law_preview_words(source: Seq<char>, span: Span, max_bytes: int)
    requires
        0 <= max_bytes,
        text::on_boundary(source, span.start as int) && text::on_boundary(source, span.end as int)
            && span.start <= span.end,
    ensures
        ({
            let content = text::byte_slice(source, span.start as int, span.end as int);
            let preview = preview_spec(source, span, max_bytes);
            let words = strings::words_spec(strings::trim_spec(content));
            &&& text::byte_len(content) <= max_bytes ==> {
                &&& words.len() == 0 ==> preview.len() == 0
                &&& words.len() == 1 ==> preview == words[0]
                &&& words.len() == 2 ==> preview == words[0].push(' ') + words[1]
                &&& preview == strings::join_spec(words, seq![' '])
            }
            &&& text::byte_len(content) > max_bytes ==> preview.len() >= 3 && preview.skip(
                preview.len() - 3,
            ) == seq!['.', '.', '.']
        }),
{
    let content = text::byte_slice(source, span.start as int, span.end as int);
    let preview = preview_spec(source, span, max_bytes);
    let words = strings::words_spec(strings::trim_spec(content));
    law_safe_slice_exact(source, span.start as int, span.end as int);
    reveal_strlit(" ");
    reveal_strlit("...");
    assert(" "@ =~= seq![' ']);
    assert("..."@ =~= seq!['.', '.', '.']);
    if text::byte_len(content) <= max_bytes {
        let len = text::byte_len(content) as int;
        lemma_end_boundary(content);
        assert(content.take(0) =~= Seq::<char>::empty());
        text::lemma_prefix_boundary(content, 0);
        law_safe_slice_exact(content, 0, len);
        assert(content.take(content.len() as int) =~= content);
        text::lemma_char_range(content, 0, content.len() as int);
        assert(content.subrange(0, content.len() as int) =~= content);
        let space = seq![' '];
        if words.len() == 2 {
            let one = words.drop_last();
            assert(one.len() == 1 && one[0] == words[0]);
            assert(strings::join_spec(one, space) == words[0]);
            assert(words[0] + space + words[1] =~= words[0].push(' ') + words[1]);
        }
    } else {
        assert(preview.skip(preview.len() - 3) =~= seq!['.', '.', '.']);
    }
}

} // verus!
