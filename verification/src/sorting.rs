//! Strings in order.

use vstd::prelude::*;
use crate::text;
use crate::text::to_chars;

verus! {

broadcast use {vstd::string::group_string_axioms, vstd::seq::group_seq_axioms};

/// Whether one string comes before another: by the first character in which
/// they differ, and a string after its own beginnings. That is also the order of
/// their UTF-8 bytes.
pub open spec fn precedes(a: Seq<char>, b: Seq<char>) -> bool
    decreases b.len(),
{
    if b.len() == 0 {
        false
    } else if a.len() == 0 {
        true
    } else if a[0] != b[0] {
        a[0] < b[0]
    } else {
        precedes(a.drop_first(), b.drop_first())
    }
}

pub proof fn lemma_precedes_total(a: Seq<char>, b: Seq<char>)
    ensures
        a == b || precedes(a, b) || precedes(b, a),
        !(precedes(a, b) && precedes(b, a)),
        a == b ==> !precedes(a, b),
    decreases b.len(),
{
    if a.len() == 0 && b.len() == 0 {
        assert(a =~= b);
    } else if a.len() > 0 && b.len() > 0 && a[0] == b[0] {
        lemma_precedes_total(a.drop_first(), b.drop_first());
        if a.drop_first() == b.drop_first() {
            assert(a =~= seq![a[0]] + a.drop_first());
            assert(b =~= seq![b[0]] + b.drop_first());
        }
    }
}

pub proof fn lemma_precedes_transitive(a: Seq<char>, b: Seq<char>, c: Seq<char>)
    requires
        precedes(a, b),
        precedes(b, c),
    ensures
        precedes(a, c),
    decreases b.len(),
{
    if a.len() > 0 && b.len() > 0 && c.len() > 0 && a[0] == b[0] && b[0] == c[0] {
        lemma_precedes_transitive(a.drop_first(), b.drop_first(), c.drop_first());
    }
}

/// Whether one string comes before another.
pub fn comes_before(a: &str, b: &str) -> (r: bool)
    ensures
        r == precedes(a@, b@),
{
    let x: Vec<char> = to_chars(a);
    let y: Vec<char> = to_chars(b);
    let mut i: usize = 0;
    assert(x@.skip(0) =~= x@);
    assert(y@.skip(0) =~= y@);
    while i < x.len() && i < y.len()
        invariant
            i <= x@.len(),
            i <= y@.len(),
            x@ == a@,
            y@ == b@,
            precedes(x@, y@) == precedes(x@.skip(i as int), y@.skip(i as int)),
        decreases x@.len() - i,
    {
        if x[i] != y[i] {
            return x[i] < y[i];
        }
        proof {
            assert(x@.skip(i as int).drop_first() =~= x@.skip(i + 1));
            assert(y@.skip(i as int).drop_first() =~= y@.skip(i + 1));
        }
        i = i + 1;
    }
    i < y.len()
}

/// Whether the strings are in order, without repetition.
pub open spec fn ascending(items: Seq<Seq<char>>) -> bool {
    forall|i: int, j: int|
        0 <= i < j < items.len() ==> precedes(#[trigger] items[i], #[trigger] items[j])
}

/// Whether two lists have the same items.
pub open spec fn same_items<T>(a: Seq<T>, b: Seq<T>) -> bool {
    forall|x: T| #[trigger] a.contains(x) <==> #[trigger] b.contains(x)
}

/// Puts a string into its place in an ordered list, unless it is there.
fn insert_ordered(list: &mut Vec<String>, item: String)
    requires
        ascending(text::views(old(list)@)),
    ensures
        ascending(text::views(final(list)@)),
        forall|x: Seq<char>| #[trigger]
            text::views(final(list)@).contains(x) <==> text::views(old(list)@).contains(x) || x
                == item@,
{
    let ghost before = text::views(list@);
    let n: usize = list.len();
    let mut at: usize = 0;
    while at < n && comes_before(list[at].as_str(), item.as_str())
        invariant
            at <= n == list@.len(),
            *list == *old(list),
            before == text::views(list@),
            forall|k: int| 0 <= k < at ==> precedes(#[trigger] before[k], item@),
        decreases n - at,
    {
        assert(before[at as int] == list@[at as int]@);
        at = at + 1;
    }
    if at < n && !comes_before(item.as_str(), list[at].as_str()) {
        proof {
            assert(before[at as int] == list@[at as int]@);
            lemma_precedes_total(before[at as int], item@);
            assert(before.contains(item@));
        }
        return;
    }
    let ghost added = item@;
    list.insert(at, item);
    proof {
        let after = text::views(list@);
        assert(after =~= before.insert(at as int, added));
        assert forall|i: int, j: int| 0 <= i < j < after.len() implies precedes(
            #[trigger] after[i],
            #[trigger] after[j],
        ) by {
            if i < at && j > at {
                assert(precedes(before[i], before[j - 1]));
            } else if i == at {
                assert(precedes(added, before[at as int]));
                if j - 1 > at {
                    assert(precedes(before[at as int], before[j - 1]));
                    lemma_precedes_transitive(added, before[at as int], before[j - 1]);
                }
            } else if i > at {
                assert(precedes(before[i - 1], before[j - 1]));
            } else if j < at {
                assert(precedes(before[i], before[j]));
            }
        }
        assert forall|x: Seq<char>| #[trigger] after.contains(x) <==> before.contains(x) || x
            == added by {
            if after.contains(x) {
                let k = choose|k: int| 0 <= k < after.len() && after[k] == x;
                if k < at {
                    assert(before[k] == x);
                } else if k > at {
                    assert(before[k - 1] == x);
                }
            }
            if before.contains(x) {
                let k = choose|k: int| 0 <= k < before.len() && before[k] == x;
                if k < at {
                    assert(after[k] == x);
                } else {
                    assert(after[k + 1] == x);
                }
            }
            assert(after[at as int] == added);
        }
    }
}

/// The items of a list in order, without repetition.
pub fn sorted_distinct(items: &Vec<String>) -> (r: Vec<String>)
    ensures
        ascending(text::views(r@)),
        same_items(text::views(r@), text::views(items@)),
{
    let ghost all = text::views(items@);
    let mut list: Vec<String> = Vec::new();
    let mut i: usize = 0;
    while i < items.len()
        invariant
            i <= items@.len(),
            all == text::views(items@),
            ascending(text::views(list@)),
            same_items(text::views(list@), all.take(i as int)),
        decreases items@.len() - i,
    {
        let ghost before = text::views(list@);
        insert_ordered(&mut list, items[i].clone());
        proof {
            let after = text::views(list@);
            let seen = all.take(i as int);
            let now = all.take(i + 1);
            assert(now =~= seen.push(items@[i as int]@));
            assert forall|x: Seq<char>| #[trigger] after.contains(x) <==> #[trigger] now.contains(
                x,
            ) by {
                if now.contains(x) {
                    let k = choose|k: int| 0 <= k < now.len() && now[k] == x;
                    if k < i {
                        assert(seen[k] == x);
                    }
                }
                if seen.contains(x) {
                    let k = choose|k: int| 0 <= k < seen.len() && seen[k] == x;
                    assert(now[k] == x);
                }
                assert(now[i as int] == items@[i as int]@);
                assert(before.contains(x) <==> seen.contains(x));
            }
        }
        i = i + 1;
    }
    assert(all.take(items@.len() as int) =~= all);
    list
}

/// An ordered list is determined by its items.
pub proof fn law_ascending_unique(a: Seq<Seq<char>>, b: Seq<Seq<char>>)
    requires
        ascending(a),
        ascending(b),
        same_items(a, b),
    ensures
        a == b,
    decreases a.len(),
{
    if a.len() == 0 {
        if b.len() > 0 {
            assert(b.contains(b[0]));
            assert(a.contains(b[0]));
        }
        assert(a =~= b);
    } else {
        let x = a.last();
        assert(a[a.len() - 1] == x);
        assert(a.contains(x));
        assert(b.contains(x));
        let y = b.last();
        assert(b[b.len() - 1] == y);
        assert(b.contains(y));
        assert(a.contains(y));
        if x != y {
            let i = choose|i: int| 0 <= i < a.len() && a[i] == y;
            let j = choose|j: int| 0 <= j < b.len() && b[j] == x;
            assert(precedes(a[i], a[a.len() - 1]));
            assert(precedes(b[j], b[b.len() - 1]));
            lemma_precedes_total(x, y);
        }
        let ra = a.drop_last();
        let rb = b.drop_last();
        assert forall|s: Seq<char>| #[trigger] ra.contains(s) <==> #[trigger] rb.contains(s) by {
            if ra.contains(s) {
                let k = choose|k: int| 0 <= k < ra.len() && ra[k] == s;
                assert(a[k] == s);
                assert(precedes(a[k], a[a.len() - 1]));
                lemma_precedes_total(s, x);
                assert(a.contains(s));
                assert(b.contains(s));
                let m = choose|m: int| 0 <= m < b.len() && b[m] == s;
                assert(rb[m] == s);
            }
            if rb.contains(s) {
                let k = choose|k: int| 0 <= k < rb.len() && rb[k] == s;
                assert(b[k] == s);
                assert(precedes(b[k], b[b.len() - 1]));
                lemma_precedes_total(s, x);
                assert(b.contains(s));
                assert(a.contains(s));
                let m = choose|m: int| 0 <= m < a.len() && a[m] == s;
                assert(ra[m] == s);
            }
        }
        law_ascending_unique(ra, rb);
        assert(a =~= ra.push(x));
        assert(b =~= rb.push(y));
    }
}

/// Of two texts the first character in which they differ decides which comes first, and a
/// text comes before those that it is the start of, not before itself.
pub proof fn law_order_of_texts(start: Seq<char>, x: char, a: Seq<char>, y: char, b: Seq<char>)
    ensures
        x != y ==> (precedes(start.push(x) + a, start.push(y) + b) <==> x < y),
        precedes(start, start.push(x) + a),
        !precedes(start.push(x) + a, start),
        !precedes(start, start),
    decreases start.len(),
{
    let s = start.push(x) + a;
    let t = start.push(y) + b;
    if start.len() == 0 {
        assert(s[0] == x && t[0] == y);
    } else {
        let rest = start.drop_first();
        law_order_of_texts(rest, x, a, y, b);
        assert(s[0] == start[0] && t[0] == start[0]);
        assert(s.drop_first() =~= rest.push(x) + a);
        assert(t.drop_first() =~= rest.push(y) + b);
    }
}

} // verus!
