//! Indexing: which files are read and parsed, and the rows that a parsed file
//! makes.

use vstd::prelude::*;
use vstd::utf8::*;
use crate::config::{Config, IndexingConfig};
use crate::document;
use crate::document::{
    copy_span, DocumentNode, DocumentNodeView, NodeType, ParsedFile, RefType, Reference,
    ReferenceView, Span,
};
use crate::handle;
use crate::handle::{generate_preview, HandleId};
use crate::hashing;
use crate::hashing::{is_digest, sha256};
use crate::index;
use crate::index::symbol_cache::SymbolCacheEntry;
use crate::index::{find_smallest_enclosing_node, reference_preview, IndexStats};
use crate::json;
use crate::parse;
use crate::parse::bpe;
use crate::parse::bpe::estimate_tokens;
use crate::parse::try_parse_file_with_hash;
use crate::strings;
use crate::strings::to_lowercase;
use crate::text;
use crate::text::{is_boundary, slice_bytes};

verus! {

broadcast use {vstd::string::group_string_axioms, vstd::seq::group_seq_axioms};

/// Up to this many files are indexed one after the other.
pub const SEQUENTIAL_THRESHOLD: usize = 64;

/// How many parsed files go to the database in one transaction.
pub const BATCH_SIZE: usize = 500;

/// Whether files are parsed in parallel: only where there are more than a few.
pub fn uses_pipeline(files: usize) -> (r: bool)
    ensures
        r == (files > SEQUENTIAL_THRESHOLD),
{
    files > SEQUENTIAL_THRESHOLD
}

/// Whether a batch of parsed files goes to the database.
pub fn is_batch_full(files: usize) -> (r: bool)
    ensures
        r == (files >= BATCH_SIZE),
{
    files >= BATCH_SIZE
}

// ---------------------------------------------------------------------------
// Which files are indexed
// ---------------------------------------------------------------------------

/// What the index knows of a file.
#[derive(Debug)]
pub struct FileMeta {
    pub mtime: i64,
    pub hash: Vec<u8>,
    pub indexed_at: i64,
    pub tokens: usize,
}

/// A digest as the database holds it; one of another length counts as zeros.
pub fn stored_hash(blob: Vec<u8>) -> (r: Vec<u8>)
    ensures
        r@ == (if blob@.len() == 32 {
            blob@
        } else {
            Seq::new(32, |i: int| 0u8)
        }),
{
    if blob.len() == 32 {
        blob
    } else {
        let mut zeros: Vec<u8> = Vec::new();
        let mut i: usize = 0;
        while i < 32
            invariant
                i <= 32,
                zeros@ == Seq::new(i as nat, |i: int| 0u8),
            decreases 32 - i,
        {
            zeros.push(0);
            assert(zeros@ =~= Seq::new((i + 1) as nat, |i: int| 0u8));
            i = i + 1;
        }
        zeros
    }
}

/// Whether a file is skipped unread: it has not changed since it was indexed,
/// and that was not too long ago.
pub open spec fn is_fresh(meta: FileMeta, mtime: i64, now: i64, ttl: i64) -> bool {
    mtime == meta.mtime && now - meta.indexed_at < ttl
}

/// Whether a file is skipped unread.
pub fn skips_unread(meta: &FileMeta, mtime: i64, now: i64, ttl: i64) -> (r: bool)
    ensures
        r == is_fresh(*meta, mtime, now, ttl),
{
    mtime == meta.mtime && (now as i128) - (meta.indexed_at as i128) < (ttl as i128)
}

/// A file that may have to be indexed.
#[derive(Debug)]
pub struct Candidate {
    /// When the file was changed last.
    pub mtime: i64,
    /// What the index knows of it.
    pub meta: Option<FileMeta>,
}

/// Whether a candidate is skipped unread.
pub open spec fn is_skipped(c: Candidate, now: i64, ttl: i64) -> bool {
    c.meta matches Some(meta) && is_fresh(meta, c.mtime, now, ttl)
}

/// The places of the candidates that are read.
pub open spec fn places_to_read(cs: Seq<Candidate>, now: i64, ttl: i64) -> Seq<usize>
    decreases cs.len(),
{
    if cs.len() == 0 {
        Seq::empty()
    } else {
        let before = places_to_read(cs.drop_last(), now, ttl);
        if is_skipped(cs.last(), now, ttl) {
            before
        } else {
            before.push((cs.len() - 1) as usize)
        }
    }
}

/// The tokens of the candidates that are skipped unread.
pub open spec fn skipped_tokens(cs: Seq<Candidate>, now: i64, ttl: i64) -> nat
    decreases cs.len(),
{
    if cs.len() == 0 {
        0
    } else {
        skipped_tokens(cs.drop_last(), now, ttl) + (match cs.last().meta {
            Some(meta) if is_fresh(meta, cs.last().mtime, now, ttl) => meta.tokens as nat,
            _ => 0,
        })
    }
}

proof fn lemma_skipped_mono(cs: Seq<Candidate>, now: i64, ttl: i64, k: int)
    requires
        0 <= k <= cs.len(),
    ensures
        skipped_tokens(cs.take(k), now, ttl) <= skipped_tokens(cs, now, ttl),
    decreases cs.len() - k,
{
    if k < cs.len() {
        lemma_skipped_mono(cs, now, ttl, k + 1);
        assert(cs.take(k + 1).drop_last() =~= cs.take(k));
    } else {
        assert(cs.take(k) =~= cs);
    }
}

/// What is done with candidates.
#[derive(Debug)]
pub struct Partition {
    /// The places of those that are read.
    pub to_read: Vec<usize>,
    pub tally: IndexTally,
}

/// Parts candidates into those that are read and those that are skipped unread,
/// which are counted.
pub fn partition_candidates(candidates: &Vec<Candidate>, now: i64, ttl: i64) -> (r: Partition)
    requires
        skipped_tokens(candidates@, now, ttl) <= usize::MAX,
    ensures
        r.to_read@ == places_to_read(candidates@, now, ttl),
        r.tally.files_indexed == 0,
        r.tally.indexed_tokens == 0,
        r.tally.files_skipped + r.to_read@.len() == candidates@.len(),
        r.tally.skipped_tokens == skipped_tokens(candidates@, now, ttl),
{
    let mut to_read: Vec<usize> = Vec::new();
    let mut files_skipped: usize = 0;
    let mut tokens: usize = 0;
    let n: usize = candidates.len();
    let mut i: usize = 0;
    assert(to_read@ =~= places_to_read(candidates@.take(0), now, ttl));
    assert(skipped_tokens(candidates@.take(0), now, ttl) == 0);
    while i < n
        invariant
            i <= n == candidates@.len(),
            skipped_tokens(candidates@, now, ttl) <= usize::MAX,
            to_read@ == places_to_read(candidates@.take(i as int), now, ttl),
            files_skipped + to_read@.len() == i,
            tokens == skipped_tokens(candidates@.take(i as int), now, ttl),
        decreases n - i,
    {
        proof {
            assert(candidates@.take(i + 1).drop_last() =~= candidates@.take(i as int));
            assert(candidates@.take(i + 1).last() == candidates@[i as int]);
            lemma_skipped_mono(candidates@, now, ttl, i + 1);
        }
        let skip: bool = match &candidates[i].meta {
            Some(meta) => if skips_unread(meta, candidates[i].mtime, now, ttl) {
                files_skipped = files_skipped + 1;
                tokens = tokens + meta.tokens;
                true
            } else {
                false
            },
            None => false,
        };
        if !skip {
            to_read.push(i);
        }
        i = i + 1;
    }
    assert(candidates@.take(n as int) =~= candidates@);
    Partition {
        to_read,
        tally: IndexTally { files_indexed: 0, files_skipped, indexed_tokens: 0, skipped_tokens: tokens },
    }
}

/// The counts of an indexing operation under way.
#[derive(Debug, Clone, Copy, PartialEq, Eq, Structural)]
pub struct IndexTally {
    pub files_indexed: usize,
    pub files_skipped: usize,
    pub indexed_tokens: usize,
    pub skipped_tokens: usize,
}

impl IndexTally {
    pub fn new() -> (r: IndexTally)
        ensures
            r == (IndexTally {
                files_indexed: 0,
                files_skipped: 0,
                indexed_tokens: 0,
                skipped_tokens: 0,
            }),
    {
        IndexTally { files_indexed: 0, files_skipped: 0, indexed_tokens: 0, skipped_tokens: 0 }
    }

    /// Counts a file that was skipped.
    pub fn skip(&mut self, tokens: usize)
        requires
            old(self).files_skipped < usize::MAX,
            old(self).skipped_tokens + tokens <= usize::MAX,
        ensures
            *final(self) == (IndexTally {
                files_skipped: (old(self).files_skipped + 1) as usize,
                skipped_tokens: (old(self).skipped_tokens + tokens) as usize,
                ..*old(self)
            }),
            final(self)@ == old(self)@.skip(tokens as nat),
    {
        self.files_skipped = self.files_skipped + 1;
        self.skipped_tokens = self.skipped_tokens + tokens;
    }

    /// Counts a file that was indexed.
    pub fn index(&mut self, tokens: usize)
        requires
            old(self).files_indexed < usize::MAX,
            old(self).indexed_tokens + tokens <= usize::MAX,
        ensures
            *final(self) == (IndexTally {
                files_indexed: (old(self).files_indexed + 1) as usize,
                indexed_tokens: (old(self).indexed_tokens + tokens) as usize,
                ..*old(self)
            }),
            final(self)@ == old(self)@.index(tokens as nat),
    {
        self.files_indexed = self.files_indexed + 1;
        self.indexed_tokens = self.indexed_tokens + tokens;
    }

    /// The statistics of the operation: all tokens count, also those of files
    /// that were skipped.
    pub fn stats(&self, index_size_bytes: u64) -> (r: IndexStats)
        requires
            self.indexed_tokens + self.skipped_tokens <= usize::MAX,
        ensures
            r.files_indexed == self.files_indexed,
            r.files_skipped == self.files_skipped,
            r.total_tokens == self.indexed_tokens + self.skipped_tokens,
            r.index_size_bytes == index_size_bytes,
    {
        IndexStats {
            files_indexed: self.files_indexed,
            files_skipped: self.files_skipped,
            total_tokens: self.indexed_tokens + self.skipped_tokens,
            index_size_bytes,
        }
    }
}

/// What comes of a file that was read.
#[derive(Debug)]
pub enum FileOutcome {
    /// Its content is that which the index has, with so many tokens.
    Unchanged(usize),
    Parsed(ParsedFile),
    /// A position that the parser for its type reports is none in its source.
    Unparsed,
}

/// Whether a digest is that which the index has of a file.
pub open spec fn is_known(meta: Option<FileMeta>, digest: Seq<u8>) -> bool {
    meta matches Some(m) && m.hash@ == digest
}

/// Whether this comes of a file that was read: nothing new where its digest is
/// that which the index has, else the parsed file.
pub open spec fn is_outcome(
    outcome: FileOutcome,
    path: Seq<char>,
    source: Seq<char>,
    config: IndexingConfig,
    meta: Option<FileMeta>,
    mtime: i64,
) -> bool {
    let digest = hashing::sha256_digest(encode_utf8(source));
    match outcome {
        FileOutcome::Unchanged(tokens) => is_known(meta, digest) && tokens == meta->0.tokens,
        FileOutcome::Parsed(parsed) => {
            &&& !is_known(meta, digest)
            &&& parse::file_fits(path, source)
            &&& parse::is_parse_of(parsed, path, source, config)
            &&& parsed.content_hash@ == digest
            &&& parsed.mtime == mtime
        },
        FileOutcome::Unparsed => !is_known(meta, digest) && !parse::file_fits(path, source),
    }
}

/// What comes of a file that was read.
pub fn read_outcome(
    path: &str,
    source: &str,
    config: &Config,
    meta: &Option<FileMeta>,
    mtime: i64,
) -> (r: FileOutcome)
    ensures
        is_outcome(r, path@, source@, config.indexing, *meta, mtime),
{
    let hash: [u8; 32] = sha256(source.as_bytes());
    match meta {
        Some(m) => {
            if is_digest(&m.hash, &hash) {
                return FileOutcome::Unchanged(m.tokens);
            }
        },
        None => {},
    }
    match try_parse_file_with_hash(path, source, config, hash, mtime) {
        Some(parsed) => FileOutcome::Parsed(parsed),
        None => FileOutcome::Unparsed,
    }
}

/// What the index knows of a file once its rows are written.
pub open spec fn is_meta_of(meta: FileMeta, parsed: ParsedFile, indexed_at: i64) -> bool {
    &&& meta.mtime == parsed.mtime
    &&& meta.hash@ == parsed.content_hash@
    &&& meta.indexed_at == indexed_at
    &&& meta.tokens == parsed.total_tokens
}

/// What the index knows of a file once its rows are written.
pub fn meta_of(parsed: &ParsedFile, indexed_at: i64) -> (r: FileMeta)
    ensures
        is_meta_of(r, *parsed, indexed_at),
{
    let mut hash: Vec<u8> = Vec::new();
    let mut i: usize = 0;
    while i < 32
        invariant
            i <= 32,
            hash@ == parsed.content_hash@.take(i as int),
        decreases 32 - i,
    {
        hash.push(parsed.content_hash[i]);
        i = i + 1;
        assert(parsed.content_hash@.take(i as int) =~= parsed.content_hash@.take(i - 1).push(
            parsed.content_hash@[i - 1],
        ));
    }
    assert(parsed.content_hash@.take(32) =~= parsed.content_hash@);
    FileMeta { mtime: parsed.mtime, hash, indexed_at, tokens: parsed.total_tokens }
}

// ---------------------------------------------------------------------------
// Indexing again
// ---------------------------------------------------------------------------

/// The view of an [`IndexTally`].
pub struct TallyView {
    pub files_indexed: nat,
    pub files_skipped: nat,
    pub indexed_tokens: nat,
    pub skipped_tokens: nat,
}

impl View for IndexTally {
    type V = TallyView;

    open spec fn view(&self) -> TallyView {
        TallyView {
            files_indexed: self.files_indexed as nat,
            files_skipped: self.files_skipped as nat,
            indexed_tokens: self.indexed_tokens as nat,
            skipped_tokens: self.skipped_tokens as nat,
        }
    }
}

impl TallyView {
    /// The counts with one more file that was skipped.
    pub open spec fn skip(self, tokens: nat) -> TallyView {
        TallyView {
            files_skipped: self.files_skipped + 1,
            skipped_tokens: self.skipped_tokens + tokens,
            ..self
        }
    }

    /// The counts with one more file that was indexed.
    pub open spec fn index(self, tokens: nat) -> TallyView {
        TallyView {
            files_indexed: self.files_indexed + 1,
            indexed_tokens: self.indexed_tokens + tokens,
            ..self
        }
    }

    /// The counts with what came of a file that was read.
    pub open spec fn count(self, outcome: FileOutcome) -> TallyView {
        match outcome {
            FileOutcome::Unchanged(tokens) => self.skip(tokens as nat),
            FileOutcome::Parsed(parsed) => self.index(parsed.total_tokens as nat),
            FileOutcome::Unparsed => self,
        }
    }
}

/// The counts with what came of files that were read, one after the other.
pub open spec fn counted(tally: TallyView, outcomes: Seq<FileOutcome>) -> TallyView
    decreases outcomes.len(),
{
    if outcomes.len() == 0 {
        tally
    } else {
        counted(tally, outcomes.drop_last()).count(outcomes.last())
    }
}

/// A file, and what came of it: nothing where it was skipped unread.
pub struct FilePass {
    pub path: Seq<char>,
    pub source: Seq<char>,
    pub candidate: Candidate,
    pub outcome: Option<FileOutcome>,
}

/// Whether a file goes through an indexing operation this way.
pub open spec fn is_pass(f: FilePass, config: IndexingConfig, now: i64, ttl: i64) -> bool {
    match f.outcome {
        None => is_skipped(f.candidate, now, ttl),
        Some(outcome) => !is_skipped(f.candidate, now, ttl) && is_outcome(
            outcome,
            f.path,
            f.source,
            config,
            f.candidate.meta,
            f.candidate.mtime,
        ),
    }
}

/// Whether files go through an indexing operation this way, each with positions
/// that are some of its source.
pub open spec fn is_run(fs: Seq<FilePass>, config: IndexingConfig, now: i64, ttl: i64) -> bool {
    forall|i: int|
        0 <= i < fs.len() ==> is_pass(#[trigger] fs[i], config, now, ttl) && fs[i].outcome != Some(
            FileOutcome::Unparsed,
        )
}

/// The candidates of an indexing operation.
pub open spec fn candidates_of(fs: Seq<FilePass>) -> Seq<Candidate> {
    Seq::new(fs.len(), |i: int| fs[i].candidate)
}

/// What came of the files that were read, in their order.
pub open spec fn outcomes_of(fs: Seq<FilePass>) -> Seq<FileOutcome>
    decreases fs.len(),
{
    if fs.len() == 0 {
        Seq::empty()
    } else {
        match fs.last().outcome {
            Some(outcome) => outcomes_of(fs.drop_last()).push(outcome),
            None => outcomes_of(fs.drop_last()),
        }
    }
}

/// The counts of an indexing operation: those of the partition of its candidates,
/// and then of what came of the files that were read.
pub open spec fn run_tally(fs: Seq<FilePass>, now: i64, ttl: i64) -> TallyView {
    let cs = candidates_of(fs);
    counted(
        TallyView {
            files_indexed: 0,
            files_skipped: (cs.len() - places_to_read(cs, now, ttl).len()) as nat,
            indexed_tokens: 0,
            skipped_tokens: skipped_tokens(cs, now, ttl),
        },
        outcomes_of(fs),
    )
}

/// Whether the index knows of a file what it knew before, or what was indexed of
/// it.
pub open spec fn is_remembered(
    after: Option<FileMeta>,
    before: Option<FileMeta>,
    outcome: Option<FileOutcome>,
) -> bool {
    match outcome {
        Some(FileOutcome::Parsed(parsed)) => after matches Some(m) && is_meta_of(
            m,
            parsed,
            m.indexed_at,
        ),
        _ => after == before,
    }
}

/// Whether files go through a second indexing operation with nothing changed
/// since the first.
pub open spec fn is_again(first: Seq<FilePass>, second: Seq<FilePass>) -> bool {
    &&& first.len() == second.len()
    &&& forall|i: int|
        0 <= i < first.len() ==> {
            &&& (#[trigger] second[i]).path == first[i].path
            &&& second[i].source == first[i].source
            &&& second[i].candidate.mtime == first[i].candidate.mtime
            &&& is_remembered(
                second[i].candidate.meta,
                first[i].candidate.meta,
                first[i].outcome,
            )
        }
}

/// The order in which two outcomes are counted does not matter.
pub proof fn law_count_order(tally: TallyView, a: FileOutcome, b: FileOutcome)
    ensures
        tally.count(a).count(b) == tally.count(b).count(a),
{
}

proof fn lemma_places_len(cs: Seq<Candidate>, now: i64, ttl: i64)
    ensures
        places_to_read(cs, now, ttl).len() <= cs.len(),
    decreases cs.len(),
{
    if cs.len() > 0 {
        lemma_places_len(cs.drop_last(), now, ttl);
    }
}

/// Counting goes on from any counts alike.
proof fn lemma_counted_from(tally: TallyView, outcomes: Seq<FileOutcome>, tokens: nat)
    ensures
        counted(tally.skip(tokens), outcomes) == counted(tally, outcomes).skip(tokens),
    decreases outcomes.len(),
{
    if outcomes.len() > 0 {
        lemma_counted_from(tally, outcomes.drop_last(), tokens);
    }
}

/// The counts with one more file, at the end.
proof fn lemma_run_tally(fs: Seq<FilePass>, config: IndexingConfig, now: i64, ttl: i64)
    requires
        fs.len() > 0,
        is_run(fs, config, now, ttl),
    ensures
        run_tally(fs, now, ttl) == (match fs.last().outcome {
            Some(outcome) => run_tally(fs.drop_last(), now, ttl).count(outcome),
            None => run_tally(fs.drop_last(), now, ttl).skip(
                fs.last().candidate.meta->0.tokens as nat,
            ),
        }),
{
    let before = fs.drop_last();
    let cs = candidates_of(fs);
    assert(cs.drop_last() =~= candidates_of(before));
    assert(is_pass(fs[fs.len() - 1], config, now, ttl));
    lemma_places_len(cs.drop_last(), now, ttl);
    let start = TallyView {
        files_indexed: 0,
        files_skipped: (before.len() - places_to_read(cs.drop_last(), now, ttl).len()) as nat,
        indexed_tokens: 0,
        skipped_tokens: skipped_tokens(cs.drop_last(), now, ttl),
    };
    match fs.last().outcome {
        Some(outcome) => {
            assert(outcomes_of(fs).drop_last() =~= outcomes_of(before));
        },
        None => {
            lemma_counted_from(
                start,
                outcomes_of(before),
                fs.last().candidate.meta->0.tokens as nat,
            );
        },
    }
}

/// Indexing again with nothing changed, while what was skipped unread is still
/// within its time to live, indexes no file, skips all of them and keeps the
/// number of tokens. Where all are within it, no file is even read.
pub proof fn law_index_again(
    first: Seq<FilePass>,
    second: Seq<FilePass>,
    config: IndexingConfig,
    now: i64,
    later: i64,
    ttl: i64,
)
    requires
        is_run(first, config, now, ttl),
        is_run(second, config, later, ttl),
        is_again(first, second),
        forall|i: int|
            0 <= i < first.len() && first[i].outcome is None ==> is_skipped(
                (#[trigger] second[i]).candidate,
                later,
                ttl,
            ),
    ensures
        run_tally(second, later, ttl).files_indexed == 0,
        run_tally(second, later, ttl).indexed_tokens == 0,
        run_tally(second, later, ttl).files_skipped == run_tally(first, now, ttl).files_indexed
            + run_tally(first, now, ttl).files_skipped,
        run_tally(second, later, ttl).files_skipped == first.len(),
        run_tally(second, later, ttl).skipped_tokens == run_tally(first, now, ttl).indexed_tokens
            + run_tally(first, now, ttl).skipped_tokens,
        (forall|i: int|
            0 <= i < second.len() ==> is_skipped((#[trigger] second[i]).candidate, later, ttl))
            ==> places_to_read(candidates_of(second), later, ttl).len() == 0,
    decreases first.len(),
{
    if first.len() > 0 {
        let f = first.drop_last();
        let s = second.drop_last();
        let last = first.len() - 1;
        assert(is_run(f, config, now, ttl)) by {
            assert forall|i: int| 0 <= i < f.len() implies is_pass(
                #[trigger] f[i],
                config,
                now,
                ttl,
            ) && f[i].outcome != Some(FileOutcome::Unparsed) by {
                assert(f[i] == first[i]);
            }
        }
        assert(is_run(s, config, later, ttl)) by {
            assert forall|i: int| 0 <= i < s.len() implies is_pass(
                #[trigger] s[i],
                config,
                later,
                ttl,
            ) && s[i].outcome != Some(FileOutcome::Unparsed) by {
                assert(s[i] == second[i]);
            }
        }
        assert(is_again(f, s)) by {
            assert forall|i: int| 0 <= i < f.len() implies {
                &&& (#[trigger] s[i]).path == f[i].path
                &&& s[i].source == f[i].source
                &&& s[i].candidate.mtime == f[i].candidate.mtime
                &&& is_remembered(s[i].candidate.meta, f[i].candidate.meta, f[i].outcome)
            } by {
                assert(s[i] == second[i] && f[i] == first[i]);
            }
        }
        assert forall|i: int| 0 <= i < f.len() && f[i].outcome is None implies is_skipped(
            (#[trigger] s[i]).candidate,
            later,
            ttl,
        ) by {
            assert(s[i] == second[i] && f[i] == first[i]);
        }
        law_index_again(f, s, config, now, later, ttl);
        lemma_run_tally(first, config, now, ttl);
        lemma_run_tally(second, config, later, ttl);
        assert(is_pass(first[last], config, now, ttl));
        assert(is_pass(second[last], config, later, ttl));
        assert(candidates_of(second).drop_last() =~= candidates_of(s));
        assert(candidates_of(second).last() == second[last].candidate);
        if forall|i: int|
            0 <= i < second.len() ==> is_skipped((#[trigger] second[i]).candidate, later, ttl) {
            assert forall|i: int| 0 <= i < s.len() implies is_skipped(
                (#[trigger] s[i]).candidate,
                later,
                ttl,
            ) by {
                assert(s[i] == second[i]);
            }
            assert(is_skipped(second[last].candidate, later, ttl));
        }
    }
}

// ---------------------------------------------------------------------------
// Rows
// ---------------------------------------------------------------------------

/// A node as it goes to the database.
#[derive(Debug)]
pub struct NodeRow {
    pub handle_id: String,
    pub node_type: NodeType,
    pub span: Span,
    pub line_range: (usize, usize),
    pub token_count: usize,
    pub metadata: String,
    pub name: Option<String>,
    pub name_lower: Option<String>,
    pub parent_name: Option<String>,
    pub parent_name_lower: Option<String>,
    pub parent_handle_id: Option<String>,
    pub preview: String,
    pub content: String,
}

/// The view of a [`NodeRow`].
pub struct NodeRowView {
    pub handle_id: Seq<char>,
    pub node_type: NodeType,
    pub span: Span,
    pub line_range: (usize, usize),
    pub token_count: nat,
    pub metadata: Seq<char>,
    pub name: Option<Seq<char>>,
    pub name_lower: Option<Seq<char>>,
    pub parent_name: Option<Seq<char>>,
    pub parent_name_lower: Option<Seq<char>>,
    pub parent_handle_id: Option<Seq<char>>,
    pub preview: Seq<char>,
    pub content: Seq<char>,
}

impl View for NodeRow {
    type V = NodeRowView;

    open spec fn view(&self) -> NodeRowView {
        NodeRowView {
            handle_id: self.handle_id@,
            node_type: self.node_type,
            span: self.span,
            line_range: self.line_range,
            token_count: self.token_count as nat,
            metadata: self.metadata@,
            name: text::opt_view(self.name),
            name_lower: text::opt_view(self.name_lower),
            parent_name: text::opt_view(self.parent_name),
            parent_name_lower: text::opt_view(self.parent_name_lower),
            parent_handle_id: text::opt_view(self.parent_handle_id),
            preview: self.preview@,
            content: self.content@,
        }
    }
}

/// An optional name in lower case.
pub open spec fn opt_lower(name: Option<Seq<char>>) -> Option<Seq<char>> {
    match name {
        Some(s) => Some(strings::lowercase(s)),
        None => None,
    }
}

/// The row of a node.
pub open spec fn node_row(
    path: Seq<char>,
    source: Seq<char>,
    node: DocumentNodeView,
    preview_bytes: usize,
) -> NodeRowView {
    let content = text::byte_slice(source, node.span.start as int, node.span.end as int);
    NodeRowView {
        handle_id: handle::raw_id(path, node.node_type, node.span),
        node_type: node.node_type,
        span: node.span,
        line_range: node.line_range,
        token_count: bpe::tokens(content),
        metadata: json::json_object_text(node.metadata.json()),
        name: node.metadata.searchable(),
        name_lower: opt_lower(node.metadata.searchable()),
        parent_name: node.parent_name,
        parent_name_lower: opt_lower(node.parent_name),
        parent_handle_id: match (node.parent_node_type, node.parent_span) {
            (Some(parent_type), Some(parent_span)) => Some(
                handle::raw_id(path, parent_type, parent_span),
            ),
            _ => None,
        },
        preview: handle::preview_spec(source, node.span, preview_bytes as int),
        content,
    }
}

/// Whether the nodes and references of a parsed file stand in its source.
pub open spec fn spans_fit(parsed: ParsedFile) -> bool {
    &&& forall|i: int|
        0 <= i < parsed.nodes@.len() ==> document::span_fits(
            parsed.source@,
            (#[trigger] parsed.nodes@[i]).span,
        )
    &&& forall|i: int|
        0 <= i < parsed.refs@.len() ==> document::span_fits(
            parsed.source@,
            (#[trigger] parsed.refs@[i]).span,
        )
}

/// Whether the nodes and references of a parsed file stand in its source.
pub fn check_spans(parsed: &ParsedFile) -> (r: bool)
    ensures
        r == spans_fit(*parsed),
{
    let source: &str = parsed.source.as_str();
    let mut i: usize = 0;
    while i < parsed.nodes.len()
        invariant
            i <= parsed.nodes@.len(),
            source@ == parsed.source@,
            forall|k: int|
                0 <= k < i ==> document::span_fits(parsed.source@, (#[trigger] parsed.nodes@[k]).span),
        decreases parsed.nodes@.len() - i,
    {
        let span: &Span = &parsed.nodes[i].span;
        if !(span.start <= span.end && is_boundary(source, span.start) && is_boundary(
            source,
            span.end,
        )) {
            assert(!document::span_fits(parsed.source@, parsed.nodes@[i as int].span));
            return false;
        }
        i = i + 1;
    }
    let mut j: usize = 0;
    while j < parsed.refs.len()
        invariant
            j <= parsed.refs@.len(),
            source@ == parsed.source@,
            forall|k: int|
                0 <= k < j ==> document::span_fits(parsed.source@, (#[trigger] parsed.refs@[k]).span),
        decreases parsed.refs@.len() - j,
    {
        let span: &Span = &parsed.refs[j].span;
        if !(span.start <= span.end && is_boundary(source, span.start) && is_boundary(
            source,
            span.end,
        )) {
            assert(!document::span_fits(parsed.source@, parsed.refs@[j as int].span));
            return false;
        }
        j = j + 1;
    }
    true
}

fn lower_opt(name: &Option<String>) -> (r: Option<String>)
    ensures
        text::opt_view(r) == opt_lower(text::opt_view(*name)),
{
    match name {
        Some(s) => Some(to_lowercase(s.as_str())),
        None => None,
    }
}

/// The row of a node.
pub fn row_of_node(path: &str, source: &str, node: &DocumentNode, preview_bytes: usize) -> (r:
    NodeRow)
    requires
        document::span_fits(source@, node.span),
    ensures
        r@ == node_row(path@, source@, node@, preview_bytes),
{
    let id: HandleId = HandleId::new(path, node.node_type, &node.span);
    let content: &str = slice_bytes(source, node.span.start, node.span.end);
    let name: Option<String> = match node.metadata.searchable_name() {
        Some(s) => Some(s.to_owned()),
        None => None,
    };
    let parent_handle_id: Option<String> = match (node.parent_node_type, &node.parent_span) {
        (Some(parent_type), Some(parent_span)) => {
            let parent_id: HandleId = HandleId::new(path, parent_type, parent_span);
            Some(parent_id.raw().to_owned())
        },
        _ => None,
    };
    NodeRow {
        handle_id: id.raw().to_owned(),
        node_type: node.node_type,
        span: copy_span(&node.span),
        line_range: node.line_range,
        token_count: estimate_tokens(content),
        metadata: node.metadata.to_json(),
        name_lower: lower_opt(&name),
        name,
        parent_name: node.parent_name.clone(),
        parent_name_lower: lower_opt(&node.parent_name),
        parent_handle_id,
        preview: generate_preview(source, &node.span, preview_bytes),
        content: content.to_owned(),
    }
}

/// The rows of the nodes of a parsed file.
pub fn node_rows(path: &str, parsed: &ParsedFile, preview_bytes: usize) -> (r: Vec<NodeRow>)
    requires
        spans_fit(*parsed),
    ensures
        text::views(r@) == Seq::new(
            parsed.nodes@.len(),
            |i: int| node_row(path@, parsed.source@, parsed.nodes@[i]@, preview_bytes),
        ),
{
    let ghost all = Seq::new(
        parsed.nodes@.len(),
        |i: int| node_row(path@, parsed.source@, parsed.nodes@[i]@, preview_bytes),
    );
    let mut rows: Vec<NodeRow> = Vec::new();
    let mut i: usize = 0;
    assert(text::views(rows@) =~= all.take(0));
    while i < parsed.nodes.len()
        invariant
            i <= parsed.nodes@.len(),
            spans_fit(*parsed),
            all == Seq::new(
                parsed.nodes@.len(),
                |i: int| node_row(path@, parsed.source@, parsed.nodes@[i]@, preview_bytes),
            ),
            text::views(rows@) == all.take(i as int),
        decreases parsed.nodes@.len() - i,
    {
        let row: NodeRow = row_of_node(
            path,
            parsed.source.as_str(),
            &parsed.nodes[i],
            preview_bytes,
        );
        proof {
            text::lemma_views_push(rows@, row);
            assert(all.take(i + 1) =~= all.take(i as int).push(row@));
        }
        rows.push(row);
        i = i + 1;
    }
    assert(all.take(parsed.nodes@.len() as int) =~= all);
    rows
}

/// Whether nodes of a type are symbols of code.
pub open spec fn is_code_type(t: NodeType) -> bool {
    t == NodeType::Function || t == NodeType::Class || t == NodeType::Struct || t
        == NodeType::Method
}

/// Whether this is the symbol of a row, under its name in lower case.
pub open spec fn is_symbol_of(
    entry: (String, SymbolCacheEntry),
    path: Seq<char>,
    row: NodeRowView,
) -> bool {
    &&& Some(entry.0@) == row.name_lower
    &&& entry.1.handle_id@ == row.handle_id
    &&& entry.1.file_path@ == path
    &&& entry.1.node_type == row.node_type.code()
    &&& entry.1.start_byte == row.span.start
    &&& entry.1.end_byte == row.span.end
    &&& entry.1.line_start == row.line_range.0
    &&& entry.1.line_end == row.line_range.1
    &&& entry.1.token_count == row.token_count
    &&& entry.1.preview@ == row.preview
}

/// The rows of symbols of code.
pub open spec fn symbol_rows(rows: Seq<NodeRowView>) -> Seq<NodeRowView>
    decreases rows.len(),
{
    if rows.len() == 0 {
        Seq::empty()
    } else {
        let before = symbol_rows(rows.drop_last());
        let row = rows.last();
        if row.name is Some && row.name_lower is Some && is_code_type(row.node_type) {
            before.push(row)
        } else {
            before
        }
    }
}

/// The symbols among the rows of a file.
pub fn cache_entries(path: &str, rows: &Vec<NodeRow>) -> (r: Vec<(String, SymbolCacheEntry)>)
    ensures
        r@.len() == symbol_rows(text::views(rows@)).len(),
        forall|i: int|
            0 <= i < r@.len() ==> is_symbol_of(
                #[trigger] r@[i],
                path@,
                symbol_rows(text::views(rows@))[i],
            ),
{
    let ghost all = text::views(rows@);
    let mut entries: Vec<(String, SymbolCacheEntry)> = Vec::new();
    let mut i: usize = 0;
    assert(symbol_rows(all.take(0)).len() == 0);
    while i < rows.len()
        invariant
            i <= rows@.len(),
            all == text::views(rows@),
            entries@.len() == symbol_rows(all.take(i as int)).len(),
            forall|k: int|
                0 <= k < entries@.len() ==> is_symbol_of(
                    #[trigger] entries@[k],
                    path@,
                    symbol_rows(all.take(i as int))[k],
                ),
        decreases rows@.len() - i,
    {
        let row: &NodeRow = &rows[i];
        let ghost seen = symbol_rows(all.take(i as int));
        proof {
            assert(all.take(i + 1).drop_last() =~= all.take(i as int));
            assert(all.take(i + 1).last() == row@);
        }
        let is_code: bool = match row.node_type {
            NodeType::Function => true,
            NodeType::Class => true,
            NodeType::Struct => true,
            NodeType::Method => true,
            _ => false,
        };
        match &row.name_lower {
            Some(name_lower) if row.name.is_some() && is_code => {
                let entry: (String, SymbolCacheEntry) = (
                    name_lower.clone(),
                    SymbolCacheEntry {
                        handle_id: row.handle_id.clone(),
                        file_path: path.to_owned(),
                        node_type: row.node_type.as_int() as i32,
                        start_byte: row.span.start,
                        end_byte: row.span.end,
                        line_start: row.line_range.0,
                        line_end: row.line_range.1,
                        token_count: row.token_count,
                        preview: row.preview.clone(),
                    },
                );
                proof {
                    let now = symbol_rows(all.take(i + 1));
                    assert(now =~= seen.push(row@));
                    assert(is_symbol_of(entry, path@, row@));
                }
                entries.push(entry);
            },
            _ => {
                assert(symbol_rows(all.take(i + 1)) == seen);
            },
        }
        i = i + 1;
    }
    assert(all.take(rows@.len() as int) =~= all);
    entries
}

/// A reference as it goes to the database.
#[derive(Debug)]
pub struct RefIndexRow {
    pub name: String,
    pub name_lower: String,
    pub qualifier: Option<String>,
    pub ref_type: &'static str,
    pub source_node_id: Option<i64>,
    pub span: Span,
    pub line_range: (usize, usize),
    pub preview: String,
}

/// Whether this is the row of a reference.
pub open spec fn is_ref_row(
    row: RefIndexRow,
    source: Seq<char>,
    reference: ReferenceView,
    nodes: Seq<(Span, i64)>,
    preview_bytes: usize,
) -> bool {
    &&& row.name@ == reference.name
    &&& row.name_lower@ == strings::lowercase(reference.name)
    &&& text::opt_view(row.qualifier) == reference.qualifier
    &&& row.ref_type@ == reference.ref_type.name()
    &&& index::is_smallest_enclosing(row.source_node_id, reference.span, nodes)
    &&& row.span == reference.span
    &&& row.line_range == reference.line_range
    &&& row.preview@ == index::line_preview(source, reference.span, 2 * preview_bytes)
}

/// The rows of the references of a parsed file, given the nodes that the
/// database has of it.
pub fn ref_rows(parsed: &ParsedFile, nodes: &Vec<(Span, i64)>, preview_bytes: usize) -> (r: Vec<
    RefIndexRow,
>)
    requires
        spans_fit(*parsed),
        2 * preview_bytes <= usize::MAX,
    ensures
        r@.len() == parsed.refs@.len(),
        forall|i: int|
            0 <= i < r@.len() ==> is_ref_row(
                #[trigger] r@[i],
                parsed.source@,
                parsed.refs@[i]@,
                nodes@,
                preview_bytes,
            ),
{
    let source: &str = parsed.source.as_str();
    let mut rows: Vec<RefIndexRow> = Vec::new();
    let mut i: usize = 0;
    while i < parsed.refs.len()
        invariant
            i <= parsed.refs@.len(),
            source@ == parsed.source@,
            spans_fit(*parsed),
            2 * preview_bytes <= usize::MAX,
            rows@.len() == i,
            forall|k: int|
                0 <= k < i ==> is_ref_row(
                    #[trigger] rows@[k],
                    parsed.source@,
                    parsed.refs@[k]@,
                    nodes@,
                    preview_bytes,
                ),
        decreases parsed.refs@.len() - i,
    {
        let reference: &Reference = &parsed.refs[i];
        assert(document::span_fits(parsed.source@, parsed.refs@[i as int].span));
        let row: RefIndexRow = RefIndexRow {
            name: reference.name.clone(),
            name_lower: to_lowercase(reference.name.as_str()),
            qualifier: reference.qualifier.clone(),
            ref_type: reference.ref_type.as_str(),
            source_node_id: find_smallest_enclosing_node(&reference.span, nodes),
            span: copy_span(&reference.span),
            line_range: reference.line_range,
            preview: reference_preview(source, &reference.span, preview_bytes * 2),
        };
        rows.push(row);
        i = i + 1;
    }
    rows
}

} // verus!
