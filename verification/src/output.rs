//! What is shown of results and errors.

use vstd::prelude::*;
use crate::error::CanopyError;
use crate::generation::RepoShard;
use crate::handle;
use crate::handle::{Handle, HandleView, RefHandle, RefHandleView};
use crate::merge;
use crate::query::QueryResult;
use crate::strings;
use crate::strings::{concat, concat3, decimal_string};
use crate::text;
use crate::text::{len_bytes, slice_bytes, str_eq};

verus! {

broadcast use {vstd::string::group_string_axioms, vstd::seq::group_seq_axioms};

/// How a piece of a line is shown.
#[derive(Debug, Clone, Copy, PartialEq, Eq, Structural)]
pub enum Style {
    Plain,
    Cyan,
    Yellow,
    Dimmed,
}

/// A piece of a line.
#[derive(Debug)]
pub struct Piece {
    pub style: Style,
    pub text: String,
}

/// The view of a [`Piece`].
pub type PieceView = (Style, Seq<char>);

impl View for Piece {
    type V = PieceView;

    open spec fn view(&self) -> PieceView {
        (self.style, self.text@)
    }
}

/// A line: its pieces, one after the other.
#[derive(Debug)]
pub struct Line {
    pub pieces: Vec<Piece>,
}

/// The view of a [`Line`].
pub type LineView = Seq<PieceView>;

impl View for Line {
    type V = LineView;

    open spec fn view(&self) -> LineView {
        text::views(self.pieces@)
    }
}

fn line1(style: Style, text: String) -> (r: Line)
    ensures
        r@ == seq![(style, text@)],
{
    let r: Line = Line { pieces: vec![Piece { style, text }] };
    assert(r@ =~= seq![(style, text@)]);
    r
}

fn line2(a: Style, first: String, b: Style, second: String) -> (r: Line)
    ensures
        r@ == seq![(a, first@), (b, second@)],
{
    let r: Line = Line {
        pieces: vec![Piece { style: a, text: first }, Piece { style: b, text: second }],
    };
    assert(r@ =~= seq![(a, first@), (b, second@)]);
    r
}

fn line3(first: &str, style: Style, middle: &str, last: String) -> (r: Line)
    ensures
        r@ == seq![(Style::Plain, first@), (style, middle@), (Style::Plain, last@)],
{
    let r: Line = Line {
        pieces: vec![
            Piece { style: Style::Plain, text: first.to_owned() },
            Piece { style, text: middle.to_owned() },
            Piece { style: Style::Plain, text: last },
        ],
    };
    assert(r@ =~= seq![(Style::Plain, first@), (style, middle@), (Style::Plain, last@)]);
    r
}

/// A text in double quotes, with what cannot be shown escaped, as Rust writes
/// it.
pub uninterp spec fn quoted(s: Seq<char>) -> Seq<char>;

/// Calls `format!("{:?}")`, the `Debug` of `str`. Claims that what it writes
/// depends on the text alone.
#[verifier::external_body]
fn quote(s: &str) -> (r: String)
    ensures
        r@ == quoted(s@),
{
    format!("{:?}", s)
}

/// A place: a path and the first and last line.
pub open spec fn place(path: Seq<char>, range: (usize, usize)) -> Seq<char> {
    path + ":"@ + strings::decimal(range.0 as nat) + "-"@ + strings::decimal(range.1 as nat)
}

fn place_text(path: &str, range: (usize, usize)) -> (r: String)
    ensures
        r@ == place(path@, range),
{
    let mut r: String = concat(path, ":");
    r.append(decimal_string(range.0 as u64).as_str());
    r.append("-");
    r.append(decimal_string(range.1 as u64).as_str());
    r
}

// ---------------------------------------------------------------------------
// Results
// ---------------------------------------------------------------------------

/// The lines of a reference, given its preview in quotes: where it stands and
/// what it names, then the handle that it stands in, if there is one.
pub open spec fn ref_lines(r: RefHandleView, quoted_preview: Seq<char>) -> Seq<LineView> {
    let first = seq![
        (Style::Cyan, "ref"@),
        (
            Style::Plain,
            ": "@ + place(r.file_path, r.line_range) + " "@ + (match r.qualifier {
                Some(q) => q + "."@,
                None => Seq::empty(),
            }) + r.name + " ("@ + r.ref_type.name() + ") "@ + quoted_preview,
        ),
    ];
    match r.source_handle {
        Some(id) => seq![
            first,
            seq![(Style::Plain, " in "@), (Style::Cyan, handle::shown_id(id))],
        ],
        None => seq![first],
    }
}

/// The lines of a handle, given its preview in quotes: its ID, place and size,
/// then its content, or behind them its preview.
pub open spec fn handle_lines(h: HandleView, quoted_preview: Seq<char>) -> Seq<LineView> {
    let id = (Style::Cyan, handle::shown_id(h.id));
    let about = ": "@ + place(h.file_path, h.line_range) + " ["@ + strings::decimal(
        h.token_count as nat,
    ) + " tokens]"@;
    match h.content {
        Some(content) => seq![
            seq![id, (Style::Plain, about)],
            seq![(Style::Plain, content)],
            Seq::empty(),
        ],
        None => seq![seq![id, (Style::Plain, about + " "@ + quoted_preview)]],
    }
}

/// The lines of references.
pub open spec fn all_ref_lines(refs: Seq<RefHandleView>) -> Seq<LineView>
    decreases refs.len(),
{
    if refs.len() == 0 {
        Seq::empty()
    } else {
        all_ref_lines(refs.drop_last()) + ref_lines(refs.last(), quoted(refs.last().preview))
    }
}

/// The lines of handles.
pub open spec fn all_handle_lines(handles: Seq<HandleView>) -> Seq<LineView>
    decreases handles.len(),
{
    if handles.len() == 0 {
        Seq::empty()
    } else {
        all_handle_lines(handles.drop_last()) + handle_lines(
            handles.last(),
            quoted(handles.last().preview),
        )
    }
}

/// The lines of a reference, given its preview in quotes.
pub fn lines_of_ref(reference: &RefHandle, quoted_preview: &str) -> (r: Vec<Line>)
    ensures
        text::views(r@) == ref_lines(reference@, quoted_preview@),
{
    let mut about: String = concat3(
        ": ",
        place_text(reference.file_path.as_str(), reference.line_range).as_str(),
        " ",
    );
    match &reference.qualifier {
        Some(q) => {
            about.append(concat(q.as_str(), ".").as_str());
        },
        None => {},
    }
    assert(about@ =~= ": "@ + place(reference@.file_path, reference@.line_range) + " "@ + (
    match reference@.qualifier {
        Some(q) => q + "."@,
        None => Seq::empty(),
    }));
    about.append(reference.name.as_str());
    about.append(" (");
    about.append(reference.ref_type.as_str());
    about.append(") ");
    about.append(quoted_preview);
    let ghost expected = ref_lines(reference@, quoted_preview@);
    assert(expected[0] =~= seq![(Style::Cyan, "ref"@), (Style::Plain, about@)]);
    let mut found: Vec<Line> = Vec::new();
    found.push(line2(Style::Cyan, "ref".to_owned(), Style::Plain, about));
    match &reference.source_handle {
        Some(id) => {
            found.push(line2(Style::Plain, " in ".to_owned(), Style::Cyan, id.to_string()));
        },
        None => {},
    }
    assert(text::views(found@) =~= expected);
    found
}

/// The lines of a handle, given its preview in quotes.
pub fn lines_of_handle(h: &Handle, quoted_preview: &str) -> (r: Vec<Line>)
    ensures
        text::views(r@) == handle_lines(h@, quoted_preview@),
{
    let mut about: String = concat3(
        ": ",
        place_text(h.file_path.as_str(), h.line_range).as_str(),
        " [",
    );
    about.append(decimal_string(h.token_count as u64).as_str());
    about.append(" tokens]");
    let mut found: Vec<Line> = Vec::new();
    match &h.content {
        Some(content) => {
            found.push(line2(Style::Cyan, h.id.to_string(), Style::Plain, about));
            found.push(line1(Style::Plain, content.clone()));
            let empty: Line = Line { pieces: Vec::new() };
            assert(empty@ =~= Seq::empty());
            found.push(empty);
        },
        None => {
            about.append(" ");
            about.append(quoted_preview);
            found.push(line2(Style::Cyan, h.id.to_string(), Style::Plain, about));
        },
    }
    assert(text::views(found@) =~= handle_lines(h@, quoted_preview@));
    found
}

/// The number of references or handles that a result shows.
pub open spec fn shown(result: QueryResult) -> nat {
    match result.ref_handles {
        Some(refs) => refs@.len(),
        None => result.handles@.len(),
    }
}

/// The lines of what a result found: its references, or else its handles.
pub fn result_lines(result: &QueryResult) -> (r: Vec<Line>)
    ensures
        text::views(r@) == (match merge::opt_refs(result.ref_handles) {
            Some(refs) => all_ref_lines(refs),
            None => all_handle_lines(text::views(result.handles@)),
        }),
{
    let mut found: Vec<Line> = Vec::new();
    match &result.ref_handles {
        Some(refs) => {
            let ghost all = text::views(refs@);
            let mut i: usize = 0;
            assert(text::views(found@) =~= all_ref_lines(all.take(0)));
            while i < refs.len()
                invariant
                    i <= refs@.len(),
                    all == text::views(refs@),
                    text::views(found@) == all_ref_lines(all.take(i as int)),
                decreases refs@.len() - i,
            {
                let preview: String = quote(refs[i].preview.as_str());
                let mut more: Vec<Line> = lines_of_ref(&refs[i], preview.as_str());
                proof {
                    assert(all.take(i + 1).drop_last() =~= all.take(i as int));
                    assert(all.take(i + 1).last() == refs@[i as int]@);
                    text::lemma_views_add(found@, more@);
                }
                found.append(&mut more);
                i = i + 1;
            }
            assert(all.take(refs@.len() as int) =~= all);
        },
        None => {
            let ghost all = text::views(result.handles@);
            let mut i: usize = 0;
            assert(text::views(found@) =~= all_handle_lines(all.take(0)));
            while i < result.handles.len()
                invariant
                    i <= result.handles@.len(),
                    all == text::views(result.handles@),
                    text::views(found@) == all_handle_lines(all.take(i as int)),
                decreases result.handles@.len() - i,
            {
                let preview: String = quote(result.handles[i].preview.as_str());
                let mut more: Vec<Line> = lines_of_handle(&result.handles[i], preview.as_str());
                proof {
                    assert(all.take(i + 1).drop_last() =~= all.take(i as int));
                    assert(all.take(i + 1).last() == result.handles@[i as int]@);
                    text::lemma_views_add(found@, more@);
                }
                found.append(&mut more);
                i = i + 1;
            }
            assert(all.take(result.handles@.len() as int) =~= all);
        },
    }
    found
}

/// The lines about a result: whether something was left out, the note about its
/// expansion, and its size.
pub open spec fn summary_spec(result: QueryResult) -> Seq<LineView> {
    (if result.truncated {
        seq![
            seq![
                (Style::Plain, "... ("@),
                (Style::Yellow, "truncated"@),
                (
                    Style::Plain,
                    " showing "@ + strings::decimal(shown(result)) + " of "@ + strings::decimal(
                        result.total_matches as nat,
                    ) + " results)"@,
                ),
            ],
        ]
    } else {
        Seq::empty()
    }) + (match result.expand_note {
        Some(note) => seq![seq![(Style::Yellow, "Note"@), (Style::Plain, ": "@ + note@)]],
        None => Seq::empty(),
    }) + seq![
        seq![
            (
                Style::Plain,
                "("@ + strings::decimal(shown(result)) + " results, "@ + strings::decimal(
                    result.total_tokens as nat,
                ) + " tokens"@ + (if result.auto_expanded {
                    ", auto-expanded"@
                } else {
                    ""@
                }) + ")"@,
            ),
        ],
    ]
}

/// The lines about a result.
pub fn summary_lines(result: &QueryResult) -> (r: Vec<Line>)
    ensures
        text::views(r@) == summary_spec(*result),
{
    let count: usize = match &result.ref_handles {
        Some(refs) => refs.len(),
        None => result.handles.len(),
    };
    let mut found: Vec<Line> = Vec::new();
    if result.truncated {
        let mut rest: String = concat3(
            " showing ",
            decimal_string(count as u64).as_str(),
            " of ",
        );
        rest.append(decimal_string(result.total_matches as u64).as_str());
        rest.append(" results)");
        found.push(line3("... (", Style::Yellow, "truncated", rest));
    }
    match &result.expand_note {
        Some(note) => {
            found.push(
                line2(
                    Style::Yellow,
                    "Note".to_owned(),
                    Style::Plain,
                    concat(": ", note.as_str()),
                ),
            );
        },
        None => {},
    }
    let mut size: String = concat3("(", decimal_string(count as u64).as_str(), " results, ");
    size.append(decimal_string(result.total_tokens as u64).as_str());
    size.append(" tokens");
    size.append(
        if result.auto_expanded {
            ", auto-expanded"
        } else {
            ""
        },
    );
    size.append(")");
    found.push(line1(Style::Plain, size));
    assert(text::views(found@) =~= summary_spec(*result));
    found
}

// ---------------------------------------------------------------------------
// Errors
// ---------------------------------------------------------------------------

/// The code, message and hint of an error: those of the service, or its text.
pub fn error_fields(e: &CanopyError) -> (r: (String, String, String))
    ensures
        match *e {
            CanopyError::ServiceError { code, message, hint } => r.0@ == code@ && r.1@ == message@
                && r.2@ == hint@,
            _ => r.0@ == "error"@ && r.1@ == e.display() && r.2@ == ""@,
        },
{
    match e {
        CanopyError::ServiceError { code, message, hint } => (
            code.clone(),
            message.clone(),
            hint.clone(),
        ),
        _ => ("error".to_owned(), e.to_string(), "".to_owned()),
    }
}

// ---------------------------------------------------------------------------
// Repositories
// ---------------------------------------------------------------------------

/// The number of bytes of a commit that are shown.
pub open spec fn shown_bytes(sha: Seq<char>) -> int {
    if text::byte_len(sha) < 8 {
        text::byte_len(sha) as int
    } else {
        8
    }
}

/// Whether the commit of a repository can be cut to what is shown of it.
pub open spec fn is_showable(repo: RepoShard) -> bool {
    repo.commit_sha matches Some(sha) ==> text::on_boundary(sha@, shown_bytes(sha@))
}

/// The line of a repository: its ID, name, status, generation and commit, and
/// its path where that is not its name.
pub open spec fn repo_spec(repo: RepoShard) -> LineView {
    let about = ": "@ + repo.name@ + " ["@ + repo.status.name() + "] (gen "@ + strings::decimal(
        repo.generation.number() as nat,
    ) + (match repo.commit_sha {
        Some(sha) => " @ "@ + text::byte_slice(sha@, 0, shown_bytes(sha@)),
        None => ""@,
    }) + ")"@;
    if repo.repo_root@ == repo.name@ {
        seq![(Style::Cyan, repo.repo_id@), (Style::Plain, about)]
    } else {
        seq![
            (Style::Cyan, repo.repo_id@),
            (Style::Plain, about + " — "@),
            (Style::Dimmed, repo.repo_root@),
        ]
    }
}

/// The line of a repository.
pub fn repo_line(repo: &RepoShard) -> (r: Line)
    requires
        is_showable(*repo),
    ensures
        r@ == repo_spec(*repo),
{
    let mut about: String = concat3(": ", repo.name.as_str(), " [");
    about.append(repo.status.as_str());
    about.append("] (gen ");
    about.append(repo.generation.to_string().as_str());
    match &repo.commit_sha {
        Some(sha) => {
            let len: usize = len_bytes(sha.as_str());
            let cut: usize = if len < 8 {
                len
            } else {
                8
            };
            proof {
                handle::lemma_end_boundary(sha@);
            }
            about.append(concat(" @ ", slice_bytes(sha.as_str(), 0, cut)).as_str());
        },
        None => {
            about.append("");
        },
    }
    about.append(")");
    let mut pieces: Vec<Piece> = Vec::new();
    pieces.push(Piece { style: Style::Cyan, text: repo.repo_id.clone() });
    if str_eq(repo.repo_root.as_str(), repo.name.as_str()) {
        pieces.push(Piece { style: Style::Plain, text: about });
    } else {
        about.append(" — ");
        pieces.push(Piece { style: Style::Plain, text: about });
        pieces.push(Piece { style: Style::Dimmed, text: repo.repo_root.clone() });
    }
    let line: Line = Line { pieces };
    assert(line@ =~= repo_spec(*repo));
    line
}

/// A place is shown as its path, a colon, the number of its first line, a dash and that
/// of its last.
pub proof fn law_place_reads_back(path: Seq<char>, range: (usize, usize))
    ensures
        exists|first: Seq<char>, last: Seq<char>| #[trigger]
            is_place(place(path, range), path, first, last) && strings::decimal_value(first)
                == range.0 && strings::decimal_value(last) == range.1,
{
    reveal_strlit(":");
    reveal_strlit("-");
    let first = strings::decimal(range.0 as nat);
    let last = strings::decimal(range.1 as nat);
    strings::law_decimal_reads_back(range.0 as nat);
    strings::law_decimal_reads_back(range.1 as nat);
    assert(place(path, range) =~= (path.push(':') + first).push('-') + last);
    assert(is_place(place(path, range), path, first, last));
}

/// Whether a text is a path, a colon, digits, a dash and digits.
pub open spec fn is_place(s: Seq<char>, path: Seq<char>, first: Seq<char>, last: Seq<char>) -> bool {
    &&& s == (path.push(':') + first).push('-') + last
    &&& !first.contains('-') && !last.contains('-')
}

/// A handle is shown under its name, before all else. Its content follows on a line of
/// its own where it has any, and its preview on the same line where it has none.
pub proof fn law_handle_shown(h: HandleView, quoted_preview: Seq<char>)
    ensures
        ({
            let lines = handle_lines(h, quoted_preview);
            let told = place(h.file_path, h.line_range);
            &&& lines.len() >= 1 && lines[0].len() == 2
            &&& lines[0][0] == (Style::Cyan, seq!['h'] + h.id)
            &&& lines[0][1].1.len() >= told.len() + 2 && lines[0][1].1.subrange(
                2,
                2 + told.len() as int,
            ) == told
            &&& h.content matches Some(content) ==> lines.len() == 3 && lines[1] == seq![
                (Style::Plain, content),
            ] && lines[2].len() == 0
            &&& h.content is None ==> lines.len() == 1 && ends_with(lines[0][1].1, quoted_preview)
        }),
{
    reveal_strlit("h");
    reveal_strlit(": ");
    assert("h"@ =~= seq!['h']);
    let lines = handle_lines(h, quoted_preview);
    let told = place(h.file_path, h.line_range);
    let shown = lines[0][1].1;
    assert(shown.subrange(2, 2 + told.len() as int) =~= told);
    if h.content is None {
        assert(shown.skip(shown.len() - quoted_preview.len()) =~= quoted_preview);
    }
}

/// Whether a text ends with another.
pub open spec fn ends_with(s: Seq<char>, end: Seq<char>) -> bool {
    s.len() >= end.len() && s.skip(s.len() - end.len()) == end
}

/// A reference with a qualifier is shown as one without whose name has the qualifier and
/// a dot before it, and ends with its preview. The handle that it stands in follows on a
/// line of its own.
pub proof fn law_ref_shown(r: RefHandleView, quoted_preview: Seq<char>)
    ensures
        ({
            let lines = ref_lines(r, quoted_preview);
            let bare = RefHandleView {
                qualifier: None,
                name: match r.qualifier {
                    Some(q) => q.push('.') + r.name,
                    None => r.name,
                },
                ..r
            };
            &&& lines[0] == ref_lines(bare, quoted_preview)[0]
            &&& lines[0].len() == 2 && ends_with(lines[0][1].1, quoted_preview)
            &&& r.source_handle is None ==> lines.len() == 1
            &&& r.source_handle matches Some(id) ==> lines.len() == 2 && lines[1].len() == 2
                && lines[1][1] == (Style::Cyan, seq!['h'] + id)
        }),
{
    reveal_strlit("h");
    reveal_strlit(".");
    assert("h"@ =~= seq!['h']);
    let lines = ref_lines(r, quoted_preview);
    let bare = RefHandleView {
        qualifier: None,
        name: match r.qualifier {
            Some(q) => q.push('.') + r.name,
            None => r.name,
        },
        ..r
    };
    let shown = lines[0][1].1;
    let other = ref_lines(bare, quoted_preview)[0][1].1;
    assert(shown =~= other);
    assert(lines[0] =~= ref_lines(bare, quoted_preview)[0]);
    assert(shown.skip(shown.len() - quoted_preview.len()) =~= quoted_preview);
}

/// Handles are shown one after the other.
pub proof fn law_handles_shown_in_order(a: Seq<HandleView>, b: Seq<HandleView>)
    ensures
        all_handle_lines(a + b) == all_handle_lines(a) + all_handle_lines(b),
        a.len() == 1 ==> all_handle_lines(a) == handle_lines(a[0], quoted(a[0].preview)),
    decreases b.len(),
{
    let none = Seq::<LineView>::empty();
    if a.len() == 1 {
        assert(a.drop_last() =~= Seq::<HandleView>::empty());
        assert(all_handle_lines(a.drop_last()) =~= none);
        let own = handle_lines(a[0], quoted(a[0].preview));
        assert(none + own =~= own);
    }
    if b.len() == 0 {
        assert(a + b =~= a);
        assert(all_handle_lines(a) + none =~= all_handle_lines(a));
    } else {
        law_handles_shown_in_order(a, b.drop_last());
        assert((a + b).drop_last() =~= a + b.drop_last());
        assert((a + b).last() == b.last());
        let own = handle_lines(b.last(), quoted(b.last().preview));
        assert(all_handle_lines(a) + all_handle_lines(b.drop_last()) + own =~= all_handle_lines(a)
            + (all_handle_lines(b.drop_last()) + own));
    }
}

/// References are shown one after the other.
pub proof fn law_refs_shown_in_order(a: Seq<RefHandleView>, b: Seq<RefHandleView>)
    ensures
        all_ref_lines(a + b) == all_ref_lines(a) + all_ref_lines(b),
        a.len() == 1 ==> all_ref_lines(a) == ref_lines(a[0], quoted(a[0].preview)),
    decreases b.len(),
{
    let none = Seq::<LineView>::empty();
    if a.len() == 1 {
        assert(a.drop_last() =~= Seq::<RefHandleView>::empty());
        assert(all_ref_lines(a.drop_last()) =~= none);
        let own = ref_lines(a[0], quoted(a[0].preview));
        assert(none + own =~= own);
    }
    if b.len() == 0 {
        assert(a + b =~= a);
        assert(all_ref_lines(a) + none =~= all_ref_lines(a));
    } else {
        law_refs_shown_in_order(a, b.drop_last());
        assert((a + b).drop_last() =~= a + b.drop_last());
        assert((a + b).last() == b.last());
        let own = ref_lines(b.last(), quoted(b.last().preview));
        assert(all_ref_lines(a) + all_ref_lines(b.drop_last()) + own =~= all_ref_lines(a) + (
        all_ref_lines(b.drop_last()) + own));
    }
}

/// A summary has a line where results were left out, a line for a note, and a last line
/// with how many results are shown and how many tokens they have.
pub proof fn law_summary_lines(result: QueryResult)
    ensures
        ({
            let lines = summary_spec(result);
            let count = match result.ref_handles {
                Some(refs) => refs@.len(),
                None => result.handles@.len(),
            };
            let told = "("@ + strings::decimal(count) + " results, "@ + strings::decimal(
                result.total_tokens as nat,
            ) + " tokens"@;
            &&& lines.len() == 1 + (if result.truncated {
                1int
            } else {
                0
            }) + (if result.expand_note is Some {
                1int
            } else {
                0
            })
            &&& lines.last().len() == 1 && starts_with(lines.last()[0].1, told)
            &&& result.expand_note matches Some(note) ==> lines[lines.len() - 2].len() == 2
                && ends_with(lines[lines.len() - 2][1].1, note@)
            &&& result.truncated ==> lines[0].len() == 3 && starts_with(
                lines[0][2].1,
                " showing "@ + strings::decimal(count) + " of "@ + strings::decimal(
                    result.total_matches as nat,
                ),
            )
        }),
{
    let lines = summary_spec(result);
    let last = lines.last()[0].1;
    let told = "("@ + strings::decimal(shown(result)) + " results, "@ + strings::decimal(
        result.total_tokens as nat,
    ) + " tokens"@;
    assert(last.take(told.len() as int) =~= told);
    if result.truncated {
        let start = " showing "@ + strings::decimal(shown(result)) + " of "@ + strings::decimal(
            result.total_matches as nat,
        );
        assert(lines[0][2].1.take(start.len() as int) =~= start);
    }
    if let Some(note) = result.expand_note {
        let line = lines[lines.len() - 2][1].1;
        assert(line.skip(line.len() - note@.len()) =~= note@);
    }
}

/// Whether a text starts with another.
pub open spec fn starts_with(s: Seq<char>, start: Seq<char>) -> bool {
    s.len() >= start.len() && s.take(start.len() as int) == start
}

/// After the place of a handle stands how many tokens it has.
pub proof fn law_handle_tokens_shown(h: HandleView, quoted_preview: Seq<char>)
    ensures
        starts_with(
            handle_lines(h, quoted_preview)[0][1].1,
            ": "@ + place(h.file_path, h.line_range) + " ["@ + strings::decimal(
                h.token_count as nat,
            ) + " tokens]"@,
        ),
{
    let told = ": "@ + place(h.file_path, h.line_range) + " ["@ + strings::decimal(
        h.token_count as nat,
    ) + " tokens]"@;
    let shown = handle_lines(h, quoted_preview)[0][1].1;
    assert(shown.take(told.len() as int) =~= told);
}

/// A repository is shown by its ID, before its name, its status and its generation; with
/// the start of its commit, eight bytes of it at most, where it has one; and with its
/// root where that is not its name.
pub proof fn law_repo_shown(repo: RepoShard)
    ensures
        ({
            let line = repo_spec(repo);
            let told = ": "@ + repo.name@ + " ["@ + repo.status.name() + "] (gen "@
                + strings::decimal(repo.generation.number() as nat);
            &&& line.len() == if repo.repo_root@ == repo.name@ {
                2int
            } else {
                3
            }
            &&& line[0] == (Style::Cyan, repo.repo_id@)
            &&& starts_with(line[1].1, told)
            &&& line.len() == 3 ==> line[2].1 == repo.repo_root@
            &&& repo.commit_sha matches Some(sha) ==> starts_with(
                line[1].1,
                told + " @ "@ + text::byte_slice(
                    sha@,
                    0,
                    if text::byte_len(sha@) >= 8 {
                        8
                    } else {
                        text::byte_len(sha@) as int
                    },
                ) + ")"@,
            )
            &&& repo.commit_sha is None ==> starts_with(line[1].1, told + ")"@)
        }),
{
    reveal_strlit("");
    let line = repo_spec(repo);
    let shown = line[1].1;
    let told = ": "@ + repo.name@ + " ["@ + repo.status.name() + "] (gen "@ + strings::decimal(
        repo.generation.number() as nat,
    );
    assert(shown.take(told.len() as int) =~= told);
    match repo.commit_sha {
        Some(sha) => {
            let more = told + " @ "@ + text::byte_slice(sha@, 0, shown_bytes(sha@)) + ")"@;
            assert(shown.take(more.len() as int) =~= more);
        },
        None => {
            let more = told + ")"@;
            assert(shown.take(more.len() as int) =~= more);
        },
    }
}

} // verus!
