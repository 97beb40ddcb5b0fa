//! Files with uncommitted changes, and the local index over them.

use vstd::prelude::*;
use vstd::utf8::*;
use crate::hashing;
use crate::hashing::{hex_encode, sha256};
use crate::sorting;
use crate::sorting::comes_before;
use crate::strings;
use crate::strings::{
    decimal_string, distinct_strings, split_char, splitn_char, starts_with, trim,
};
use crate::text;
use crate::text::{from_chars, is_boundary, slice_bytes, str_eq, to_chars};

verus! {

broadcast use {vstd::string::group_string_axioms, vstd::seq::group_seq_axioms};

/// Status of a file with uncommitted changes.
#[derive(Debug, Clone, Copy, PartialEq, Eq, Structural)]
pub enum DirtyStatus {
    Modified,
    Added,
    Deleted,
    Renamed,
    Unmerged,
}

/// A file with uncommitted changes.
#[derive(Debug)]
pub struct DirtyFile {
    pub path: String,
    pub status: DirtyStatus,
}

/// The view of a [`DirtyFile`].
pub struct DirtyFileView {
    pub path: Seq<char>,
    pub status: DirtyStatus,
}

impl View for DirtyFile {
    type V = DirtyFileView;

    open spec fn view(&self) -> DirtyFileView {
        DirtyFileView { path: self.path@, status: self.status }
    }
}

/// The paths of files.
pub open spec fn paths_of(files: Seq<DirtyFileView>) -> Seq<Seq<char>> {
    Seq::new(files.len(), |i: int| files[i].path)
}

/// Files with uncommitted changes, and a fingerprint by which a change of them
/// is told.
#[derive(Debug)]
pub struct DirtyState {
    pub files: Vec<DirtyFile>,
    pub fingerprint: String,
}

impl DirtyState {
    /// Whether a path is dirty.
    pub fn is_dirty(&self, path: &str) -> (r: bool)
        ensures
            r == paths_of(text::views(self.files@)).contains(path@),
    {
        let ghost all = paths_of(text::views(self.files@));
        let mut i: usize = 0;
        while i < self.files.len()
            invariant
                i <= self.files@.len(),
                all == paths_of(text::views(self.files@)),
                forall|k: int| 0 <= k < i ==> #[trigger] all[k] != path@,
            decreases self.files@.len() - i,
        {
            assert(all[i as int] == self.files@[i as int].path@);
            if str_eq(self.files[i].path.as_str(), path) {
                return true;
            }
            i = i + 1;
        }
        false
    }

    /// The dirty paths, each once.
    pub fn dirty_paths(&self) -> (r: Vec<String>)
        ensures
            text::views(r@) == strings::distinct_spec(paths_of(text::views(self.files@))),
    {
        let ghost all = paths_of(text::views(self.files@));
        let mut paths: Vec<String> = Vec::new();
        let mut i: usize = 0;
        assert(text::views(paths@) =~= all.take(0));
        while i < self.files.len()
            invariant
                i <= self.files@.len(),
                all == paths_of(text::views(self.files@)),
                text::views(paths@) == all.take(i as int),
            decreases self.files@.len() - i,
        {
            proof {
                text::lemma_views_push(paths@, self.files@[i as int].path);
                assert(all.take(i + 1) =~= all.take(i as int).push(self.files@[i as int].path@));
            }
            paths.push(self.files[i].path.clone());
            i = i + 1;
        }
        assert(all.take(self.files@.len() as int) =~= all);
        distinct_strings(&paths)
    }

    /// Whether no file is dirty.
    pub fn is_clean(&self) -> (r: bool)
        ensures
            r == (self.files@.len() == 0),
    {
        self.files.len() == 0
    }
}

/// The dirty paths are those that are dirty.
pub proof fn law_dirty_paths(files: Seq<DirtyFileView>, path: Seq<char>)
    ensures
        strings::distinct_spec(paths_of(files)).contains(path) <==> paths_of(files).contains(path),
        strings::distinct_spec(paths_of(files)).no_duplicates(),
{
    strings::lemma_distinct(paths_of(files));
}

// ---------------------------------------------------------------------------
// git status --porcelain=v2 -z
// ---------------------------------------------------------------------------

/// What follows the first `n - 1` fields of an entry, if it has `n`.
pub open spec fn last_field(entry: Seq<char>, n: nat) -> Option<Seq<char>> {
    let fields = strings::splitn_spec(entry, ' ', n);
    if fields.len() >= n {
        Some(fields[n - 1])
    } else {
        None
    }
}

/// The status that two status letters stand for, the first for the index and the
/// second for the working tree.
pub open spec fn xy_status(xy: Seq<char>) -> DirtyStatus {
    let bytes = encode_utf8(xy);
    if bytes.len() >= 2 && (bytes[0] == 'D' as u8 || bytes[1] == 'D' as u8) {
        DirtyStatus::Deleted
    } else if bytes.len() >= 2 && bytes[0] == 'A' as u8 {
        DirtyStatus::Added
    } else {
        DirtyStatus::Modified
    }
}

/// The status that two status letters stand for: deleted if either says so,
/// added if the first says so, else modified.
pub fn classify_xy(xy: &str) -> (r: DirtyStatus)
    ensures
        r == xy_status(xy@),
{
    let bytes: &[u8] = xy.as_bytes();
    proof {
        encode_utf8_decode_utf8(xy@);
    }
    if bytes.len() >= 2 {
        if bytes[0] == 68 || bytes[1] == 68 {
            return DirtyStatus::Deleted;
        }
        if bytes[0] == 65 {
            return DirtyStatus::Added;
        }
    }
    DirtyStatus::Modified
}

/// Whether the status letters of an ordinary entry can be cut out of it.
pub open spec fn is_sliceable(entry: Seq<char>) -> bool {
    strings::starts_with_spec(entry, "1 "@) && last_field(entry, 9) is Some ==> text::on_boundary(
        entry,
        2,
    ) && text::on_boundary(entry, 4)
}

/// Whether an entry is a rename, after which the old name stands.
pub open spec fn is_rename(entry: Seq<char>) -> bool {
    strings::starts_with_spec(entry, "2 "@) && last_field(entry, 10) is Some
}

/// Whether the status letters of every ordinary entry from the `i`-th on can be
/// cut out of it; what stands after a rename is no entry.
pub open spec fn sliceable_from(parts: Seq<Seq<char>>, i: int) -> bool
    decreases if i < parts.len() {
        parts.len() - i
    } else {
        0
    },
{
    if i < 0 || i >= parts.len() {
        true
    } else {
        let entry = strings::trim_spec(parts[i]);
        is_sliceable(entry) && sliceable_from(
            parts,
            if is_rename(entry) {
                i + 2
            } else {
                i + 1
            },
        )
    }
}

/// The files in entries from the `i`-th on: what kind an entry is of shows its
/// first letter, its path stands at its end, and the entry after a rename is the
/// old name.
pub open spec fn files_from(parts: Seq<Seq<char>>, i: int) -> Seq<DirtyFileView>
    decreases if i < parts.len() {
        parts.len() - i
    } else {
        0
    },
{
    if i < 0 || i >= parts.len() {
        Seq::empty()
    } else {
        let entry = strings::trim_spec(parts[i]);
        if strings::starts_with_spec(entry, "1 "@) {
            match last_field(entry, 9) {
                Some(path) => seq![
                    DirtyFileView { path, status: xy_status(text::byte_slice(entry, 2, 4)) },
                ] + files_from(parts, i + 1),
                None => files_from(parts, i + 1),
            }
        } else if strings::starts_with_spec(entry, "2 "@) {
            match last_field(entry, 10) {
                Some(path) => seq![
                    DirtyFileView { path, status: DirtyStatus::Renamed },
                ] + files_from(parts, i + 2),
                None => files_from(parts, i + 1),
            }
        } else if strings::starts_with_spec(entry, "u "@) {
            match last_field(entry, 11) {
                Some(path) => seq![
                    DirtyFileView { path, status: DirtyStatus::Unmerged },
                ] + files_from(parts, i + 1),
                None => files_from(parts, i + 1),
            }
        } else if strings::starts_with_spec(entry, "? "@) {
            seq![DirtyFileView { path: entry.skip(2), status: DirtyStatus::Added }] + files_from(
                parts,
                i + 1,
            )
        } else {
            files_from(parts, i + 1)
        }
    }
}

fn field_at_end(entry: &str, n: usize) -> (r: Option<String>)
    requires
        n > 0,
    ensures
        text::opt_view(r) == last_field(entry@, n as nat),
{
    let fields: Vec<String> = splitn_char(entry, ' ', n);
    assert(text::views(fields@).len() == fields@.len());
    if fields.len() >= n {
        assert(text::views(fields@)[n - 1] == fields@[n - 1]@);
        Some(fields[n - 1].clone())
    } else {
        None
    }
}

/// Whether the status letters of every ordinary entry can be cut out of it.
pub fn check_porcelain_v2(output: &str) -> (r: bool)
    ensures
        r == sliceable_from(strings::split_spec(output@, '\0'), 0),
{
    let parts: Vec<String> = split_char(output, '\0');
    let ghost all = strings::split_spec(output@, '\0');
    let n: usize = parts.len();
    let mut i: usize = 0;
    while i < n
        invariant
            n == parts@.len(),
            all == text::views(parts@),
            all == strings::split_spec(output@, '\0'),
            sliceable_from(all, i as int) == sliceable_from(all, 0),
        decreases n - i,
    {
        assert(all[i as int] == parts@[i as int]@);
        let entry: String = trim(parts[i].as_str());
        if starts_with(entry.as_str(), "1 ") && field_at_end(entry.as_str(), 9).is_some() && !(
        is_boundary(entry.as_str(), 2) && is_boundary(entry.as_str(), 4)) {
            return false;
        }
        if starts_with(entry.as_str(), "2 ") && field_at_end(entry.as_str(), 10).is_some() {
            if i + 1 == n {
                assert(sliceable_from(all, i + 2));
                return true;
            }
            i = i + 1;
        }
        i = i + 1;
    }
    true
}

/// Reads the output of `git status --porcelain=v2 -z`:
/// - `1 <XY> ... <path>` is a changed file,
/// - `2 <XY> ... <path>`, then the old path, a renamed or copied one,
/// - `u <XY> ... <path>` an unmerged one,
/// - `? <path>` an untracked one.
pub fn parse_porcelain_v2(output: &str) -> (r: Vec<DirtyFile>)
    requires
        sliceable_from(strings::split_spec(output@, '\0'), 0),
    ensures
        text::views(r@) == files_from(strings::split_spec(output@, '\0'), 0),
{
    let parts: Vec<String> = split_char(output, '\0');
    let ghost all = strings::split_spec(output@, '\0');
    let n: usize = parts.len();
    let mut files: Vec<DirtyFile> = Vec::new();
    let mut i: usize = 0;
    proof {
        reveal_strlit("1 ");
        reveal_strlit("2 ");
        reveal_strlit("u ");
        reveal_strlit("? ");
        assert(text::views(files@) + files_from(all, 0) =~= files_from(all, 0));
    }
    while i < n
        invariant
            n == parts@.len(),
            all == text::views(parts@),
            all == strings::split_spec(output@, '\0'),
            sliceable_from(all, i as int),
            "1 "@.len() == 2,
            "2 "@.len() == 2,
            "u "@.len() == 2,
            "? "@.len() == 2,
            text::views(files@) + files_from(all, i as int) == files_from(all, 0),
        decreases n - i,
    {
        assert(all[i as int] == parts@[i as int]@);
        let entry: String = trim(parts[i].as_str());
        let ghost before = text::views(files@);
        let mut found: Option<DirtyFile> = None;
        let mut step: usize = 1;
        if starts_with(entry.as_str(), "1 ") {
            assert(!is_rename(entry@)) by {
                reveal_strlit("1 ");
                reveal_strlit("2 ");
                assert(entry@.take(2)[0] == '1');
            }
            match field_at_end(entry.as_str(), 9) {
                Some(path) => {
                    let status: DirtyStatus = classify_xy(slice_bytes(entry.as_str(), 2, 4));
                    found = Some(DirtyFile { path, status });
                },
                None => {},
            }
        } else if starts_with(entry.as_str(), "2 ") {
            match field_at_end(entry.as_str(), 10) {
                Some(path) => {
                    found = Some(DirtyFile { path, status: DirtyStatus::Renamed });
                    step = 2;
                },
                None => {},
            }
        } else if starts_with(entry.as_str(), "u ") {
            match field_at_end(entry.as_str(), 11) {
                Some(path) => {
                    found = Some(DirtyFile { path, status: DirtyStatus::Unmerged });
                },
                None => {},
            }
        } else if starts_with(entry.as_str(), "? ") {
            let chars: Vec<char> = to_chars(entry.as_str());
            let path: String = from_chars(&chars, 2, chars.len());
            assert(path@ =~= entry@.skip(2));
            found = Some(DirtyFile { path, status: DirtyStatus::Added });
        }
        match found {
            Some(file) => {
                proof {
                    text::lemma_views_push(files@, file);
                    let rest = files_from(all, i + step);
                    assert(files_from(all, i as int) == seq![file@] + rest);
                    assert(before.push(file@) + rest =~= before + (seq![file@] + rest));
                }
                files.push(file);
            },
            None => {
                assert(files_from(all, i as int) == files_from(all, i + 1));
            },
        }
        if step == 2 && i + 1 == n {
            assert(files_from(all, i + 2) =~= Seq::empty());
            assert(text::views(files@) =~= files_from(all, 0));
            return files;
        }
        i = i + step;
    }
    assert(files_from(all, i as int) =~= Seq::empty());
    assert(text::views(files@) =~= files_from(all, 0));
    files
}

// ---------------------------------------------------------------------------
// The fingerprint
// ---------------------------------------------------------------------------

/// A path and the time at which its file was changed last.
pub type Stamp = (Seq<char>, u64);

/// Whether one stamp comes before another or is the same: by path, then by time.
pub open spec fn stamp_le(a: Stamp, b: Stamp) -> bool {
    sorting::precedes(a.0, b.0) || (a.0 == b.0 && a.1 <= b.1)
}

/// Whether stamps are in order.
pub open spec fn stamps_sorted(stamps: Seq<Stamp>) -> bool {
    forall|i: int, j: int|
        0 <= i < j < stamps.len() ==> stamp_le(#[trigger] stamps[i], #[trigger] stamps[j])
}

/// A line for each stamp: its path, a colon and its time.
pub open spec fn stamp_text(stamps: Seq<Stamp>) -> Seq<char>
    decreases stamps.len(),
{
    if stamps.len() == 0 {
        Seq::empty()
    } else {
        stamp_text(stamps.drop_last()) + stamps.last().0 + ":"@ + strings::decimal(
            stamps.last().1 as nat,
        ) + "\n"@
    }
}

/// The fingerprint of stamps in the given order.
pub open spec fn fingerprint_in_order(stamps: Seq<Stamp>) -> Seq<char> {
    hashing::hex_text(hashing::sha256_digest(encode_utf8(stamp_text(stamps))))
}

/// Whether this is the fingerprint of stamps, which are put in order first.
pub open spec fn is_fingerprint(r: Seq<char>, stamps: Seq<Stamp>) -> bool {
    exists|sorted: Seq<Stamp>| #[trigger]
        stamps_sorted(sorted) && sorted.to_multiset() == stamps.to_multiset() && r
            == fingerprint_in_order(sorted)
}

proof fn lemma_stamp_order(a: Stamp, b: Stamp)
    ensures
        stamp_le(a, b) || stamp_le(b, a),
        stamp_le(a, b) && stamp_le(b, a) ==> a == b,
{
    sorting::lemma_precedes_total(a.0, b.0);
}

proof fn lemma_stamp_transitive(a: Stamp, b: Stamp, c: Stamp)
    requires
        stamp_le(a, b),
        stamp_le(b, c),
    ensures
        stamp_le(a, c),
{
    if sorting::precedes(a.0, b.0) && sorting::precedes(b.0, c.0) {
        sorting::lemma_precedes_transitive(a.0, b.0, c.0);
    }
}

fn is_before(a: &(String, u64), b: &(String, u64)) -> (r: bool)
    ensures
        r == stamp_le(a@, b@),
{
    comes_before(a.0.as_str(), b.0.as_str()) || (str_eq(a.0.as_str(), b.0.as_str()) && a.1 <= b.1)
}

fn insert_stamp(list: &mut Vec<(String, u64)>, stamp: (String, u64))
    requires
        stamps_sorted(text::views(old(list)@)),
    ensures
        stamps_sorted(text::views(final(list)@)),
        text::views(final(list)@).to_multiset() == text::views(old(list)@).to_multiset().insert(
            stamp@,
        ),
{
    let ghost before = text::views(list@);
    let n: usize = list.len();
    let mut at: usize = 0;
    while at < n && is_before(&list[at], &stamp)
        invariant
            at <= n == list@.len(),
            *list == *old(list),
            before == text::views(list@),
            forall|k: int| 0 <= k < at ==> stamp_le(#[trigger] before[k], stamp@),
        decreases n - at,
    {
        assert(before[at as int] == list@[at as int]@);
        at = at + 1;
    }
    proof {
        if at < n {
            assert(before[at as int] == list@[at as int]@);
            lemma_stamp_order(before[at as int], stamp@);
        }
    }
    let ghost added = stamp@;
    list.insert(at, stamp);
    proof {
        let after = text::views(list@);
        assert(after =~= before.insert(at as int, added));
        vstd::seq_lib::to_multiset_insert(before, at as int, added);
        assert forall|i: int, j: int| 0 <= i < j < after.len() implies stamp_le(
            #[trigger] after[i],
            #[trigger] after[j],
        ) by {
            if i < at && j > at {
                assert(stamp_le(before[i], before[j - 1]));
            } else if i == at {
                assert(stamp_le(added, before[at as int]));
                if j - 1 > at {
                    assert(stamp_le(before[at as int], before[j - 1]));
                    lemma_stamp_transitive(added, before[at as int], before[j - 1]);
                }
            } else if i > at {
                assert(stamp_le(before[i - 1], before[j - 1]));
            } else if j < at {
                assert(stamp_le(before[i], before[j]));
            }
        }
    }
}

/// The fingerprint of dirty files: a digest of their paths and times of change,
/// in order.
pub fn compute_fingerprint(stamps: &Vec<(String, u64)>) -> (r: String)
    ensures
        is_fingerprint(r@, text::views(stamps@)),
{
    let ghost all = text::views(stamps@);
    let mut sorted: Vec<(String, u64)> = Vec::new();
    let mut i: usize = 0;
    proof {
        assert(text::views(sorted@) =~= all.take(0));
    }
    while i < stamps.len()
        invariant
            i <= stamps@.len(),
            all == text::views(stamps@),
            stamps_sorted(text::views(sorted@)),
            text::views(sorted@).to_multiset() == all.take(i as int).to_multiset(),
        decreases stamps@.len() - i,
    {
        let stamp: (String, u64) = (stamps[i].0.clone(), stamps[i].1);
        assert(stamp@ == all[i as int]);
        insert_stamp(&mut sorted, stamp);
        proof {
            assert(all.take(i + 1) =~= all.take(i as int).push(all[i as int]));
            vstd::seq_lib::to_multiset_build(all.take(i as int), all[i as int]);
        }
        i = i + 1;
    }
    assert(all.take(stamps@.len() as int) =~= all);
    let ghost ordered = text::views(sorted@);
    let mut lines: String = String::new();
    let mut k: usize = 0;
    assert(lines@ =~= stamp_text(ordered.take(0)));
    while k < sorted.len()
        invariant
            k <= sorted@.len(),
            ordered == text::views(sorted@),
            lines@ == stamp_text(ordered.take(k as int)),
        decreases sorted@.len() - k,
    {
        proof {
            assert(ordered.take(k + 1).drop_last() =~= ordered.take(k as int));
            assert(ordered.take(k + 1).last() == sorted@[k as int]@);
        }
        lines.append(sorted[k].0.as_str());
        lines.append(":");
        lines.append(decimal_string(sorted[k].1).as_str());
        lines.append("\n");
        k = k + 1;
    }
    assert(ordered.take(sorted@.len() as int) =~= ordered);
    let digest: [u8; 32] = sha256(lines.as_str().as_bytes());
    hex_encode(&digest)
}

proof fn lemma_sorted_unique(a: Seq<Stamp>, b: Seq<Stamp>)
    requires
        stamps_sorted(a),
        stamps_sorted(b),
        a.to_multiset() == b.to_multiset(),
    ensures
        a == b,
    decreases a.len(),
{
    broadcast use vstd::seq_lib::group_to_multiset_ensures;

    assert(a.len() == a.to_multiset().len());
    assert(b.len() == b.to_multiset().len());
    if a.len() == 0 {
        assert(a =~= b);
    } else {
        let x = a.last();
        let y = b.last();
        assert(a[a.len() - 1] == x);
        assert(a.contains(x));
        assert(b.to_multiset().count(x) > 0);
        assert(b.contains(x));
        assert(b[b.len() - 1] == y);
        assert(b.contains(y));
        assert(a.to_multiset().count(y) > 0);
        assert(a.contains(y));
        let i = choose|i: int| 0 <= i < a.len() && a[i] == y;
        let j = choose|j: int| 0 <= j < b.len() && b[j] == x;
        if x != y {
            assert(stamp_le(a[i], a[a.len() - 1]));
            assert(stamp_le(b[j], b[b.len() - 1]));
            lemma_stamp_order(x, y);
        }
        let ra = a.drop_last();
        let rb = b.drop_last();
        assert(ra =~= a.remove(a.len() - 1));
        assert(rb =~= b.remove(b.len() - 1));
        assert(ra.to_multiset() =~= a.to_multiset().remove(x));
        assert(rb.to_multiset() =~= b.to_multiset().remove(y));
        lemma_sorted_unique(ra, rb);
        assert(a =~= ra.push(x));
        assert(b =~= rb.push(y));
    }
}

/// The fingerprint does not depend on the order in which files are listed, and
/// is the same each time.
pub proof fn law_fingerprint_order_free(
    a: Seq<Stamp>,
    b: Seq<Stamp>,
    ra: Seq<char>,
    rb: Seq<char>,
)
    requires
        a.to_multiset() == b.to_multiset(),
        is_fingerprint(ra, a),
        is_fingerprint(rb, b),
    ensures
        ra == rb,
{
    let sa = choose|sorted: Seq<Stamp>| #[trigger]
        stamps_sorted(sorted) && sorted.to_multiset() == a.to_multiset() && ra
            == fingerprint_in_order(sorted);
    let sb = choose|sorted: Seq<Stamp>| #[trigger]
        stamps_sorted(sorted) && sorted.to_multiset() == b.to_multiset() && rb
            == fingerprint_in_order(sorted);
    lemma_sorted_unique(sa, sb);
}

/// Whether the local index has to be rebuilt: there is no fingerprint of the
/// last rebuild, or it differs.
pub fn needs_rebuild(dirty: &DirtyState, cached: &Option<String>) -> (r: bool)
    ensures
        r == match *cached {
            Some(fingerprint) => strings::trim_spec(fingerprint@) != dirty.fingerprint@,
            None => true,
        },
{
    match cached {
        Some(fingerprint) => {
            let trimmed: String = trim(fingerprint.as_str());
            !str_eq(trimmed.as_str(), dirty.fingerprint.as_str())
        },
        None => true,
    }
}

// ---------------------------------------------------------------------------
// The rebuild
// ---------------------------------------------------------------------------

/// A step of the rebuild of the local index.
#[derive(Debug)]
pub enum RebuildStep {
    Invalidate(String),
    Index(String),
}

/// The view of a [`RebuildStep`].
pub enum RebuildStepView {
    Invalidate(Seq<char>),
    Index(Seq<char>),
}

impl View for RebuildStep {
    type V = RebuildStepView;

    open spec fn view(&self) -> RebuildStepView {
        match *self {
            RebuildStep::Invalidate(path) => RebuildStepView::Invalidate(path@),
            RebuildStep::Index(path) => RebuildStepView::Index(path@),
        }
    }
}

/// Indexing of the files that are not deleted.
pub open spec fn index_steps(files: Seq<DirtyFileView>) -> Seq<RebuildStepView>
    decreases files.len(),
{
    if files.len() == 0 {
        Seq::empty()
    } else {
        let before = index_steps(files.drop_last());
        if files.last().status == DirtyStatus::Deleted {
            before
        } else {
            before.push(RebuildStepView::Index(files.last().path))
        }
    }
}

/// The steps of a rebuild: every dirty file leaves the index, then those that
/// are not deleted come in anew.
pub fn rebuild_local_index(dirty: &DirtyState) -> (r: Vec<RebuildStep>)
    ensures
        text::views(r@) == Seq::new(
            dirty.files@.len(),
            |i: int| RebuildStepView::Invalidate(dirty.files@[i].path@),
        ) + index_steps(text::views(dirty.files@)),
{
    let ghost all = text::views(dirty.files@);
    let ghost first = Seq::new(
        dirty.files@.len(),
        |i: int| RebuildStepView::Invalidate(dirty.files@[i].path@),
    );
    let mut steps: Vec<RebuildStep> = Vec::new();
    let mut i: usize = 0;
    assert(text::views(steps@) =~= first.take(0));
    while i < dirty.files.len()
        invariant
            i <= dirty.files@.len(),
            first == Seq::new(
                dirty.files@.len(),
                |i: int| RebuildStepView::Invalidate(dirty.files@[i].path@),
            ),
            text::views(steps@) == first.take(i as int),
        decreases dirty.files@.len() - i,
    {
        let step: RebuildStep = RebuildStep::Invalidate(dirty.files[i].path.clone());
        proof {
            text::lemma_views_push(steps@, step);
            assert(first.take(i + 1) =~= first.take(i as int).push(step@));
        }
        steps.push(step);
        i = i + 1;
    }
    assert(first.take(dirty.files@.len() as int) =~= first);
    let mut k: usize = 0;
    assert(text::views(steps@) =~= first + index_steps(all.take(0)));
    while k < dirty.files.len()
        invariant
            k <= dirty.files@.len(),
            all == text::views(dirty.files@),
            text::views(steps@) == first + index_steps(all.take(k as int)),
        decreases dirty.files@.len() - k,
    {
        proof {
            assert(all.take(k + 1).drop_last() =~= all.take(k as int));
            assert(all.take(k + 1).last() == dirty.files@[k as int]@);
        }
        if dirty.files[k].status != DirtyStatus::Deleted {
            let step: RebuildStep = RebuildStep::Index(dirty.files[k].path.clone());
            proof {
                text::lemma_views_push(steps@, step);
                assert((first + index_steps(all.take(k as int))).push(step@) =~= first
                    + index_steps(all.take(k + 1)));
            }
            steps.push(step);
        }
        k = k + 1;
    }
    assert(all.take(dirty.files@.len() as int) =~= all);
    steps
}

/// The number of spaces in a text.
pub open spec fn spaces(s: Seq<char>) -> nat
    decreases s.len(),
{
    if s.len() == 0 {
        0
    } else {
        spaces(s.drop_first()) + if s[0] == ' ' {
            1nat
        } else {
            0
        }
    }
}

proof fn lemma_spaces_skip(s: Seq<char>, i: int)
    requires
        0 <= i < s.len(),
        s[i] == ' ',
        forall|k: int| 0 <= k < i ==> s[k] != ' ',
    ensures
        spaces(s) == 1 + spaces(s.skip(i + 1)),
    decreases i,
{
    if i == 0 {
        assert(s.drop_first() =~= s.skip(1));
    } else {
        let rest = s.drop_first();
        assert forall|k: int| 0 <= k < i - 1 implies rest[k] != ' ' by {
            assert(s[k + 1] != ' ');
        }
        lemma_spaces_skip(rest, i - 1);
        assert(rest.skip(i) =~= s.skip(i + 1));
    }
}

proof fn lemma_no_spaces(s: Seq<char>)
    requires
        forall|k: int| 0 <= k < s.len() ==> s[k] != ' ',
    ensures
        spaces(s) == 0,
    decreases s.len(),
{
    if s.len() > 0 {
        let rest = s.drop_first();
        assert forall|k: int| 0 <= k < rest.len() implies rest[k] != ' ' by {
            assert(s[k + 1] != ' ');
        }
        lemma_no_spaces(rest);
    }
}

/// The last of `n` fields of an entry is all that follows its first `n - 1` spaces.
pub proof fn law_last_field(head: Seq<char>, path: Seq<char>, n: nat)
    requires
        n >= 1,
        spaces(head) == n - 1,
        head.len() == 0 || head.last() == ' ',
    ensures
        last_field(head + path, n) == Some(path),
    decreases n,
{
    let entry = head + path;
    if n == 1 {
        if head.len() > 0 {
            strings::lemma_find_from(head, ' ', 0);
            let i = strings::find_from(head, ' ', 0);
            if i >= head.len() {
                assert(head[head.len() - 1] != ' ');
            }
            lemma_spaces_skip(head, i);
        }
        assert(entry =~= path);
    } else {
        strings::lemma_find_from(head, ' ', 0);
        strings::lemma_find_from(entry, ' ', 0);
        let i = strings::find_from(head, ' ', 0);
        let j = strings::find_from(entry, ' ', 0);
        if i >= head.len() {
            lemma_no_spaces(head);
        }
        assert(entry[i] == head[i]);
        assert(j == i) by {
            if j < i {
                assert(entry[j] == head[j]);
            }
        }
        lemma_spaces_skip(head, i);
        let rest = head.skip(i + 1);
        assert(entry.skip(i + 1) =~= rest + path);
        if rest.len() > 0 {
            assert(rest.last() == head.last());
        }
        law_last_field(rest, path, (n - 1) as nat);
        let fields = strings::splitn_spec(entry, ' ', n);
        let others = strings::splitn_spec(rest + path, ' ', (n - 1) as nat);
        assert(fields == seq![entry.take(i)] + others);
        assert(fields[n - 1] == others[n - 2]);
    }
}

/// The file of an entry of a status is named after the fields of its kind: eight for a
/// change, nine for a rename, ten for a conflict and one for a new file. A rename takes
/// up the entry after it too.
pub proof fn law_entry_names_file(
    parts: Seq<Seq<char>>,
    i: int,
    kind: char,
    head: Seq<char>,
    path: Seq<char>,
)
    requires
        0 <= i < parts.len(),
        strings::trim_spec(parts[i]) == seq![kind, ' '] + head + path,
        head.len() == 0 || head.last() == ' ',
        kind == '1' && spaces(head) == 7 || kind == '2' && spaces(head) == 8 || kind == 'u'
            && spaces(head) == 9 || kind == '?' && head.len() == 0,
    ensures
        ({
            let files = files_from(parts, i);
            &&& files.len() > 0 && files[0].path == path
            &&& files.drop_first() == files_from(
                parts,
                if kind == '2' {
                    i + 2
                } else {
                    i + 1
                },
            )
            &&& kind == '2' ==> files[0].status == DirtyStatus::Renamed
            &&& kind == 'u' ==> files[0].status == DirtyStatus::Unmerged
            &&& kind == '?' ==> files[0].status == DirtyStatus::Added
        }),
{
    reveal_strlit("1 ");
    reveal_strlit("2 ");
    reveal_strlit("u ");
    reveal_strlit("? ");
    let entry = strings::trim_spec(parts[i]);
    let lead = seq![kind, ' '];
    let all = lead + head;
    assert(entry =~= all + path);
    assert(entry.subrange(0, 2) =~= lead);
    assert("1 "@ =~= seq!['1', ' ']);
    assert("2 "@ =~= seq!['2', ' ']);
    assert("u "@ =~= seq!['u', ' ']);
    assert("? "@ =~= seq!['?', ' ']);
    assert(lead[0] == kind);
    assert("1 "@[0] == '1' && "2 "@[0] == '2' && "u "@[0] == 'u' && "? "@[0] == '?');
    assert(strings::starts_with_spec(entry, lead));
    assert(all.skip(2) =~= head);
    lemma_spaces_skip(all, 1);
    assert(all.last() == ' ') by {
        if head.len() == 0 {
            assert(all[1] == ' ');
        }
    }
    let files = files_from(parts, i);
    let first = files[0];
    if kind == '1' {
        law_last_field(all, path, 9);
    } else if kind == '2' {
        law_last_field(all, path, 10);
    } else if kind == 'u' {
        law_last_field(all, path, 11);
    } else {
        assert(entry.skip(2) =~= path);
    }
    let next = files_from(
        parts,
        if kind == '2' {
            i + 2
        } else {
            i + 1
        },
    );
    assert(files == seq![first] + next);
    assert(files.drop_first() =~= next);
}

/// The files that are indexed anew are those that were not deleted, in their order.
pub proof fn law_indexed_anew(files: Seq<DirtyFileView>)
    ensures
        index_steps(files) == files.filter(
            |f: DirtyFileView| f.status != DirtyStatus::Deleted,
        ).map_values(|f: DirtyFileView| RebuildStepView::Index(f.path)),
    decreases files.len(),
{
    reveal(Seq::filter);
    let test = |f: DirtyFileView| f.status != DirtyStatus::Deleted;
    let step = |f: DirtyFileView| RebuildStepView::Index(f.path);
    if files.len() > 0 {
        let rest = files.drop_last();
        law_indexed_anew(rest);
        if test(files.last()) {
            assert(files.filter(test) == rest.filter(test).push(files.last()));
            assert(files.filter(test).map_values(step) =~= rest.filter(test).map_values(step).push(
                step(files.last()),
            ));
        } else {
            assert(files.filter(test) == rest.filter(test));
        }
    } else {
        assert(files.filter(test).map_values(step) =~= Seq::empty());
    }
}

/// What a fingerprint is made from tells the last file apart by its path and by when it
/// changed.
pub proof fn law_stamp_tells(before: Seq<Stamp>, a: Stamp, b: Stamp)
    requires
        stamp_text(before.push(a)) == stamp_text(before.push(b)),
    ensures
        a.0 == b.0,
        a.1 == b.1,
{
    reveal_strlit(":");
    reveal_strlit("\n");
    let start = stamp_text(before);
    assert(before.push(a).drop_last() =~= before);
    assert(before.push(b).drop_last() =~= before);
    let x = strings::decimal(a.1 as nat);
    let y = strings::decimal(b.1 as nat);
    strings::law_decimal_reads_back(a.1 as nat);
    strings::law_decimal_reads_back(b.1 as nat);
    let s = (start + a.0).push(':') + x;
    let t = (start + b.0).push(':') + y;
    assert(stamp_text(before.push(a)) =~= s.push('\n'));
    assert(stamp_text(before.push(b)) =~= t.push('\n'));
    assert(s =~= s.push('\n').drop_last());
    assert(t =~= t.push('\n').drop_last());
    strings::law_cut_at_last(start + a.0, x, start + b.0, y, ':');
    assert(a.0 =~= (start + a.0).skip(start.len() as int));
    assert(b.0 =~= (start + b.0).skip(start.len() as int));
}

/// An entry that names no file takes nothing from those after it: what a status lists
/// from an entry on is at most one file, and then what it lists from the next entry on.
pub proof fn law_entries_apart(parts: Seq<Seq<char>>, i: int)
    requires
        0 <= i < parts.len(),
    ensures
        ({
            let files = files_from(parts, i);
            let rest = files_from(parts, i + 1);
            let after = files_from(parts, i + 2);
            ||| files == rest
            ||| files.len() == 1 + rest.len() && files.drop_first() == rest
            ||| files.len() == 1 + after.len() && files.drop_first() == after && files[0].status
                == DirtyStatus::Renamed
        }),
{
    let files = files_from(parts, i);
    let rest = files_from(parts, i + 1);
    let after = files_from(parts, i + 2);
    if files.len() > 0 {
        assert(files == seq![files[0]] + rest ==> files.drop_first() =~= rest);
        assert(files == seq![files[0]] + after ==> files.drop_first() =~= after);
    }
}

} // verus!
