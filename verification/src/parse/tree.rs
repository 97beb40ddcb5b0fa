//! What the order and the depths of rows say of a syntax tree: which row lies
//! below which, and which child of a row a lookup finds.

use vstd::prelude::*;
use crate::parse::syntax;
use crate::parse::syntax::SyntaxRowView;
use crate::text;

verus! {

broadcast use vstd::seq::group_seq_axioms;

/// Whether row `i` lies below row `a` in the tree.
pub open spec fn is_under(rows: Seq<SyntaxRowView>, a: int, i: int) -> bool {
    &&& 0 <= a < i < rows.len()
    &&& forall|k: int| a < k <= i ==> (#[trigger] rows[k]).depth > rows[a].depth
}

/// Whether row `c` is a child of row `i`.
pub open spec fn is_child_row(rows: Seq<SyntaxRowView>, i: int, c: int) -> bool {
    is_under(rows, i, c) && rows[c].depth == rows[i].depth + 1
}

/// Whether row `c` is the first child of row `i` under a field.
pub open spec fn is_first_field(
    rows: Seq<SyntaxRowView>,
    i: int,
    field: Seq<char>,
    c: int,
) -> bool {
    &&& is_child_row(rows, i, c) && rows[c].field == Some(field)
    &&& forall|k: int| #[trigger]
        is_child_row(rows, i, k) && rows[k].field == Some(field) ==> c <= k
}

/// Whether row `i` has no child under a field.
pub open spec fn lacks_field(rows: Seq<SyntaxRowView>, i: int, field: Seq<char>) -> bool {
    forall|k: int| #[trigger] is_child_row(rows, i, k) ==> rows[k].field != Some(field)
}

/// Whether row `c` is the first child of row `i` of a kind.
pub open spec fn is_first_kind(rows: Seq<SyntaxRowView>, i: int, kind: Seq<char>, c: int) -> bool {
    &&& is_child_row(rows, i, c) && rows[c].kind == kind
    &&& forall|k: int| #[trigger] is_child_row(rows, i, k) && rows[k].kind == kind ==> c <= k
}

/// Whether row `i` has no child of a kind.
pub open spec fn lacks_kind(rows: Seq<SyntaxRowView>, i: int, kind: Seq<char>) -> bool {
    forall|k: int| #[trigger] is_child_row(rows, i, k) ==> rows[k].kind != kind
}

/// Whether row `c` is the first child of row `i` that is named.
pub open spec fn is_first_named(rows: Seq<SyntaxRowView>, i: int, c: int) -> bool {
    &&& is_child_row(rows, i, c) && rows[c].named
    &&& forall|k: int| #[trigger] is_child_row(rows, i, k) && rows[k].named ==> c <= k
}

/// The bytes of the source from the start of a row to its end, as text.
pub open spec fn written(rows: Seq<SyntaxRowView>, i: int, source: Seq<char>) -> Seq<char> {
    text::byte_slice(source, rows[i].start_byte as int, rows[i].end_byte as int)
}

/// A lookup from row `j` on finds the first child of row `i` that passes the test.
proof fn lemma_child_from(
    rows: Seq<SyntaxRowView>,
    i: int,
    j: int,
    test: spec_fn(SyntaxRowView) -> bool,
)
    requires
        0 <= i < j <= rows.len(),
        forall|k: int| i < k < j ==> (#[trigger] rows[k]).depth > rows[i].depth,
    ensures
        match syntax::child_from(rows, i, j, test) {
            Some(c) => {
                &&& j <= c && is_child_row(rows, i, c) && test(rows[c])
                &&& forall|k: int| j <= k < c && #[trigger] is_child_row(rows, i, k) ==> !test(rows[k])
            },
            None => forall|k: int| j <= k && #[trigger] is_child_row(rows, i, k) ==> !test(rows[k]),
        },
    decreases rows.len() - j,
{
    if j < rows.len() && rows[j].depth > rows[i].depth {
        if rows[j].depth == rows[i].depth + 1 && test(rows[j]) {
            assert(is_child_row(rows, i, j));
        } else {
            lemma_child_from(rows, i, j + 1, test);
        }
    } else {
        assert forall|k: int| j <= k && #[trigger] is_child_row(rows, i, k) implies !test(
            rows[k],
        ) by {
            assert(is_under(rows, i, k));
            assert(rows[j].depth > rows[i].depth);
        }
    }
}

/// A lookup by field finds the first child of a row under that field, and nothing
/// where there is none.
pub proof fn law_child_by_field(rows: Seq<SyntaxRowView>, i: int, field: Seq<char>)
    requires
        0 <= i < rows.len(),
    ensures
        forall|c: int|
            is_first_field(rows, i, field, c) <==> #[trigger] is_some_at(
                syntax::child_by_field(rows, i, field),
                c,
            ),
        lacks_field(rows, i, field) <==> syntax::child_by_field(rows, i, field) is None,
{
    let test = |row: SyntaxRowView| row.field == Some(field);
    lemma_child_from(rows, i, i + 1, test);
    let found = syntax::child_by_field(rows, i, field);
    assert forall|c: int|
        is_first_field(rows, i, field, c) <==> #[trigger] is_some_at(found, c) by {
        match found {
            Some(f) => {
                assert(is_child_row(rows, i, f) && test(rows[f]));
                assert(is_first_field(rows, i, field, f)) by {
                    assert forall|k: int| #[trigger]
                        is_child_row(rows, i, k) && rows[k].field == Some(field) implies f <= k by {
                        assert(test(rows[k]));
                        assert(is_under(rows, i, k));
                    }
                }
            },
            None => {
                if is_first_field(rows, i, field, c) {
                    assert(test(rows[c]));
                    assert(is_under(rows, i, c));
                }
            },
        }
    }
    match found {
        Some(f) => {
            assert(is_child_row(rows, i, f) && test(rows[f]));
        },
        None => {
            assert forall|k: int| #[trigger] is_child_row(rows, i, k) implies rows[k].field != Some(
                field,
            ) by {
                assert(is_under(rows, i, k));
                assert(!test(rows[k]));
            }
        },
    }
}

/// A lookup by kind finds the first child of a row of that kind, and nothing where
/// there is none.
pub proof fn law_child_by_kind(rows: Seq<SyntaxRowView>, i: int, kind: Seq<char>)
    requires
        0 <= i < rows.len(),
    ensures
        forall|c: int|
            is_first_kind(rows, i, kind, c) <==> #[trigger] is_some_at(
                syntax::child_by_kind(rows, i, kind),
                c,
            ),
        lacks_kind(rows, i, kind) <==> syntax::child_by_kind(rows, i, kind) is None,
{
    let test = |row: SyntaxRowView| row.kind == kind;
    lemma_child_from(rows, i, i + 1, test);
    let found = syntax::child_by_kind(rows, i, kind);
    assert forall|c: int|
        is_first_kind(rows, i, kind, c) <==> #[trigger] is_some_at(found, c) by {
        match found {
            Some(f) => {
                assert(is_child_row(rows, i, f) && test(rows[f]));
                assert(is_first_kind(rows, i, kind, f)) by {
                    assert forall|k: int| #[trigger]
                        is_child_row(rows, i, k) && rows[k].kind == kind implies f <= k by {
                        assert(test(rows[k]));
                        assert(is_under(rows, i, k));
                    }
                }
            },
            None => {
                if is_first_kind(rows, i, kind, c) {
                    assert(test(rows[c]));
                    assert(is_under(rows, i, c));
                }
            },
        }
    }
    match found {
        Some(f) => {
            assert(is_child_row(rows, i, f) && test(rows[f]));
        },
        None => {
            assert forall|k: int| #[trigger] is_child_row(rows, i, k) implies rows[k].kind
                != kind by {
                assert(is_under(rows, i, k));
                assert(!test(rows[k]));
            }
        },
    }
}

/// A lookup of a named child finds the first one.
pub proof fn law_named_child(rows: Seq<SyntaxRowView>, i: int)
    requires
        0 <= i < rows.len(),
    ensures
        forall|c: int|
            is_first_named(rows, i, c) <==> #[trigger] is_some_at(syntax::named_child(rows, i), c),
{
    let test = |row: SyntaxRowView| row.named;
    lemma_child_from(rows, i, i + 1, test);
    let found = syntax::named_child(rows, i);
    assert forall|c: int| is_first_named(rows, i, c) <==> #[trigger] is_some_at(found, c) by {
        match found {
            Some(f) => {
                assert(is_child_row(rows, i, f) && test(rows[f]));
                assert(is_first_named(rows, i, f)) by {
                    assert forall|k: int| #[trigger]
                        is_child_row(rows, i, k) && rows[k].named implies f <= k by {
                        assert(test(rows[k]));
                        assert(is_under(rows, i, k));
                    }
                }
            },
            None => {
                if is_first_named(rows, i, c) {
                    assert(test(rows[c]));
                    assert(is_under(rows, i, c));
                }
            },
        }
    }
}

/// Whether an optional index is this one.
pub open spec fn is_some_at(found: Option<int>, c: int) -> bool {
    found == Some(c)
}

/// The rows below a row below another are below that other one, and of the rows
/// above a row the nearest is above no other of them.
pub proof fn law_above(rows: Seq<SyntaxRowView>, a: int, p: int, i: int)
    requires
        is_under(rows, p, i),
    ensures
        is_under(rows, a, p) ==> is_under(rows, a, i),
        is_under(rows, a, i) && a < p ==> is_under(rows, a, p),
{
    if is_under(rows, a, p) {
        assert forall|k: int| a < k <= i implies (#[trigger] rows[k]).depth > rows[a].depth by {
            if k > p {
                assert(rows[k].depth > rows[p].depth);
                assert(rows[p].depth > rows[a].depth);
            }
        }
    }
}

} // verus!
