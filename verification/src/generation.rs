//! Generation tracking for repositories that a service indexes.

use vstd::prelude::*;
use crate::strings;
use crate::strings::decimal_string;

verus! {

/// A counter that only grows, by which stale results are told.
#[derive(Debug, Clone, Copy, PartialEq, Eq, PartialOrd, Ord, Hash, Structural)]
pub struct Generation(u64);

impl Generation {
    /// The number of the generation.
    pub closed spec fn number(self) -> u64 {
        self.0
    }

    /// The first generation.
    pub fn new() -> (r: Generation)
        ensures
            r.number() == 0,
    {
        Generation(0)
    }

    /// The generation with the given number.
    pub fn from_value(value: u64) -> (r: Generation)
        ensures
            r.number() == value,
    {
        Generation(value)
    }

    /// The generation after this one.
    pub fn next(&self) -> (r: Generation)
        requires
            self.number() < u64::MAX,
        ensures
            r.number() == self.number() + 1,
    {
        Generation(self.0 + 1)
    }

    /// The number of the generation.
    pub fn value(&self) -> (r: u64)
        ensures
            r == self.number(),
    {
        self.0
    }

    /// The number of the generation, in decimal.
    pub fn to_string(&self) -> (r: String)
        ensures
            r@ == strings::decimal(self.number() as nat),
    {
        decimal_string(self.0)
    }
}

impl Default for Generation {
    fn default() -> (r: Generation)
        ensures
            r.number() == 0,
    {
        Generation::new()
    }
}

/// Two generations with the same number are the same.
pub proof fn law_generation_number(a: Generation, b: Generation)
    requires
        a.number() == b.number(),
    ensures
        a == b,
{
}

/// Status of a repository in the service.
#[derive(Debug, Clone, Copy, PartialEq, Eq, Structural)]
pub enum ShardStatus {
    /// Registered but not yet indexed.
    Pending,
    /// Currently indexing.
    Indexing,
    /// The index is ready for queries.
    Ready,
    /// Indexing failed.
    Error,
}

impl Default for ShardStatus {
    fn default() -> (r: ShardStatus)
        ensures
            r == ShardStatus::Pending,
    {
        ShardStatus::Pending
    }
}

impl ShardStatus {
    /// The name of the status.
    pub open spec fn name(self) -> Seq<char> {
        match self {
            ShardStatus::Pending => "pending"@,
            ShardStatus::Indexing => "indexing"@,
            ShardStatus::Ready => "ready"@,
            ShardStatus::Error => "error"@,
        }
    }

    /// The name of the status.
    pub fn as_str(self) -> (r: &'static str)
        ensures
            r@ == self.name(),
    {
        match self {
            ShardStatus::Pending => "pending",
            ShardStatus::Indexing => "indexing",
            ShardStatus::Ready => "ready",
            ShardStatus::Error => "error",
        }
    }
}

/// A repository that the service manages.
#[derive(Debug)]
pub struct RepoShard {
    /// Unique identifier for this registration.
    pub repo_id: String,
    /// Absolute path to the repository.
    pub repo_root: String,
    /// Name for people (by default that of the directory).
    pub name: String,
    /// The commit that the index was built from.
    pub commit_sha: Option<String>,
    /// Current generation.
    pub generation: Generation,
    /// Current status.
    pub status: ShardStatus,
}

/// A status is told by its name.
pub proof fn law_status_name(a: ShardStatus, b: ShardStatus)
    requires
        a.name() == b.name(),
    ensures
        a == b,
{
    reveal_strlit("pending");
    reveal_strlit("indexing");
    reveal_strlit("ready");
    reveal_strlit("error");
    assert("pending"@.len() == 7 && "indexing"@.len() == 8 && "ready"@.len() == 5
        && "error"@.len() == 5);
    assert("ready"@[0] == 'r' && "error"@[0] == 'e');
}

} // verus!
