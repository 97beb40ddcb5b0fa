//! The client of a service: what it remembers, what it makes of replies, and
//! when it asks again.

use vstd::prelude::*;
use vstd::hash_map::StringHashMap;
use crate::error;
use crate::error::{is_error_code, CanopyError, ErrorEnvelope};
use crate::generation::{RepoShard, ShardStatus};
use crate::strings;
use crate::strings::{concat, concat3, decimal_string};
use crate::text;
use crate::text::{from_chars, str_eq, to_chars};

verus! {

broadcast use {
    vstd::string::group_string_axioms,
    vstd::seq::group_seq_axioms,
    vstd::map::group_map_axioms,
};

/// How long a client waits between two looks at a repository, in milliseconds.
pub const POLL_INTERVAL_MILLIS: u64 = 500;

/// A text without the slashes at its end.
pub open spec fn without_slashes(s: Seq<char>) -> Seq<char>
    decreases s.len(),
{
    if s.len() > 0 && s.last() == '/' {
        without_slashes(s.drop_last())
    } else {
        s
    }
}

fn trim_slashes(s: &str) -> (r: String)
    ensures
        r@ == without_slashes(s@),
{
    let chars: Vec<char> = to_chars(s);
    let mut n: usize = chars.len();
    assert(chars@.take(n as int) =~= s@);
    while n > 0 && chars[n - 1] == '/'
        invariant
            n <= chars@.len(),
            without_slashes(chars@.take(n as int)) == without_slashes(s@),
        decreases n,
    {
        assert(chars@.take(n as int).drop_last() =~= chars@.take(n - 1));
        n = n - 1;
    }
    let r: String = from_chars(&chars, 0, n);
    assert(r@ =~= chars@.take(n as int));
    r
}

/// The client of a service.
pub struct ServiceClient {
    pub base_url: String,
    /// The key for administrative requests.
    pub api_key: Option<String>,
    /// The IDs of repositories, by path.
    pub repo_ids: StringHashMap<String>,
}

impl ServiceClient {
    pub fn new(base_url: &str, api_key: Option<String>) -> (r: ServiceClient)
        ensures
            r.base_url@ == without_slashes(base_url@),
            r.api_key == api_key,
            r.repo_ids@ == Map::<Seq<char>, String>::empty(),
    {
        ServiceClient { base_url: trim_slashes(base_url), api_key, repo_ids: StringHashMap::new() }
    }

    /// The address of a request.
    pub fn url(&self, path: &str) -> (r: String)
        ensures
            r@ == self.base_url@ + path@,
    {
        concat(self.base_url.as_str(), path)
    }

    /// The header of administrative requests, if there is a key.
    pub fn api_key_header(&self) -> (r: Option<(&'static str, String)>)
        ensures
            match (self.api_key, r) {
                (Some(key), Some(header)) => header.0@ == "x-api-key"@ && header.1@ == key@,
                (None, None) => true,
                _ => false,
            },
    {
        match &self.api_key {
            Some(key) => Some(("x-api-key", key.clone())),
            None => None,
        }
    }

    /// The ID of a repository, if it is known.
    pub fn cached_repo_id(&self, canonical: &str) -> (r: Option<String>)
        ensures
            text::opt_view(r) == (if self.repo_ids@.dom().contains(canonical@) {
                Some(self.repo_ids@[canonical@]@)
            } else {
                None
            }),
    {
        match self.repo_ids.get(canonical) {
            Some(id) => Some(id.clone()),
            None => None,
        }
    }

    /// Remembers the ID of a repository.
    pub fn remember_repo_id(&mut self, canonical: &str, repo_id: String)
        ensures
            final(self).repo_ids@ == old(self).repo_ids@.insert(canonical@, repo_id),
            final(self).base_url == old(self).base_url,
            final(self).api_key == old(self).api_key,
    {
        self.repo_ids.insert(canonical.to_owned(), repo_id);
    }

    /// Forgets the ID of a repository.
    pub fn forget_repo_id(&mut self, canonical: &str)
        ensures
            final(self).repo_ids@ == old(self).repo_ids@.remove(canonical@),
            final(self).base_url == old(self).base_url,
            final(self).api_key == old(self).api_key,
    {
        self.repo_ids.remove(canonical);
    }
}

/// An address never has two slashes between the service and the path.
pub proof fn law_base_url_bare(s: Seq<char>)
    ensures
        without_slashes(s).len() > 0 ==> without_slashes(s).last() != '/',
        without_slashes(without_slashes(s)) == without_slashes(s),
    decreases s.len(),
{
    if s.len() > 0 && s.last() == '/' {
        law_base_url_bare(s.drop_last());
    }
}

// ---------------------------------------------------------------------------
// Errors
// ---------------------------------------------------------------------------

/// Whether an error is that of a service, with the given parts.
pub open spec fn is_service_error(
    e: CanopyError,
    code: Seq<char>,
    message: Seq<char>,
    hint: Seq<char>,
) -> bool {
    e matches CanopyError::ServiceError { code: c, message: m, hint: h } && c@ == code && m@
        == message && h@ == hint
}

/// The error of a service that could not be reached.
pub fn connection_error(cause: &str) -> (r: CanopyError)
    ensures
        is_service_error(r, "connection_error"@, cause@, "Is canopy-service running?"@),
{
    CanopyError::ServiceError {
        code: "connection_error".to_owned(),
        message: cause.to_owned(),
        hint: "Is canopy-service running?".to_owned(),
    }
}

/// The error of a reply that could not be read.
pub fn parse_error(cause: &str) -> (r: CanopyError)
    ensures
        is_service_error(r, "parse_error"@, cause@, "Unexpected response from service"@),
{
    CanopyError::ServiceError {
        code: "parse_error".to_owned(),
        message: cause.to_owned(),
        hint: "Unexpected response from service".to_owned(),
    }
}

/// The error of a reply without success: what the service says, or its status
/// where it says nothing that can be read.
pub fn reply_error(status: u16, status_text: &str, envelope: Option<ErrorEnvelope>) -> (r:
    CanopyError)
    ensures
        match envelope {
            Some(e) => is_service_error(r, e.code@, e.message@, e.hint@),
            None => is_service_error(
                r,
                "http_"@ + strings::decimal(status as nat),
                "HTTP "@ + status_text@ + " from service"@,
                "Check service logs"@,
            ),
        },
{
    match envelope {
        Some(e) => CanopyError::ServiceError { code: e.code, message: e.message, hint: e.hint },
        None => CanopyError::ServiceError {
            code: concat("http_", decimal_string(status as u64).as_str()),
            message: concat3("HTTP ", status_text, " from service"),
            hint: "Check service logs".to_owned(),
        },
    }
}

// ---------------------------------------------------------------------------
// Waiting
// ---------------------------------------------------------------------------

/// What a look at the repositories says of one.
#[derive(Debug)]
pub enum PollStep {
    Ready,
    /// Look again later.
    Wait,
    Failed(CanopyError),
}

/// The place of the first repository with an ID.
pub open spec fn shard_index(repos: Seq<RepoShard>, repo_id: Seq<char>) -> int
    decreases repos.len(),
{
    if repos.len() == 0 {
        0
    } else if repos[0].repo_id@ == repo_id {
        0
    } else {
        1 + shard_index(repos.drop_first(), repo_id)
    }
}

/// Whether this is what a look at the repositories says of one, after a while.
pub open spec fn is_poll_step(
    r: PollStep,
    repos: Seq<RepoShard>,
    repo_id: Seq<char>,
    elapsed_millis: u64,
    timeout_secs: u64,
) -> bool {
    let i = shard_index(repos, repo_id);
    if i >= repos.len() {
        r matches PollStep::Failed(e) && is_service_error(
            e,
            "repo_not_found"@,
            "Repo "@ + repo_id + " not found in service"@,
            "Register the repo first"@,
        )
    } else {
        match repos[i].status {
            ShardStatus::Ready => r is Ready,
            ShardStatus::Error => r matches PollStep::Failed(e) && is_service_error(
                e,
                "index_error"@,
                "Repo "@ + repo_id + " indexing failed"@,
                "Check service logs and retry with /reindex"@,
            ),
            _ => if elapsed_millis >= timeout_secs * 1000 {
                r matches PollStep::Failed(e) && is_service_error(
                    e,
                    "timeout"@,
                    "Repo "@ + repo_id + " still indexing after "@ + strings::decimal(
                        timeout_secs as nat,
                    ) + "s"@,
                    "Wait for indexing to complete or increase timeout"@,
                )
            } else {
                r is Wait
            },
        }
    }
}

fn find_shard(repos: &Vec<RepoShard>, repo_id: &str) -> (r: usize)
    ensures
        r == shard_index(repos@, repo_id@),
        r <= repos@.len(),
{
    let mut i: usize = 0;
    assert(repos@.skip(0) =~= repos@);
    while i < repos.len()
        invariant
            i <= repos@.len(),
            shard_index(repos@, repo_id@) == i + shard_index(repos@.skip(i as int), repo_id@),
        decreases repos@.len() - i,
    {
        assert(repos@.skip(i as int)[0] == repos@[i as int]);
        if str_eq(repos[i].repo_id.as_str(), repo_id) {
            return i;
        }
        assert(repos@.skip(i as int).drop_first() =~= repos@.skip(i + 1));
        i = i + 1;
    }
    i
}

/// What a look at the repositories says of one: whether it is ready, has failed,
/// or has to be looked at again, unless the time is up.
pub fn poll_ready(
    repos: &Vec<RepoShard>,
    repo_id: &str,
    elapsed_millis: u64,
    timeout_secs: u64,
) -> (r: PollStep)
    ensures
        is_poll_step(r, repos@, repo_id@, elapsed_millis, timeout_secs),
{
    let i: usize = find_shard(repos, repo_id);
    if i >= repos.len() {
        return PollStep::Failed(
            CanopyError::ServiceError {
                code: "repo_not_found".to_owned(),
                message: concat3("Repo ", repo_id, " not found in service"),
                hint: "Register the repo first".to_owned(),
            },
        );
    }
    match repos[i].status {
        ShardStatus::Ready => PollStep::Ready,
        ShardStatus::Error => PollStep::Failed(
            CanopyError::ServiceError {
                code: "index_error".to_owned(),
                message: concat3("Repo ", repo_id, " indexing failed"),
                hint: "Check service logs and retry with /reindex".to_owned(),
            },
        ),
        _ => {
            if (elapsed_millis as u128) >= (timeout_secs as u128) * 1000 {
                let mut message: String = concat3("Repo ", repo_id, " still indexing after ");
                message.append(decimal_string(timeout_secs).as_str());
                message.append("s");
                PollStep::Failed(
                    CanopyError::ServiceError {
                        code: "timeout".to_owned(),
                        message,
                        hint: "Wait for indexing to complete or increase timeout".to_owned(),
                    },
                )
            } else {
                PollStep::Wait
            }
        },
    }
}

// ---------------------------------------------------------------------------
// Asking again
// ---------------------------------------------------------------------------

/// A step on the way to a repository that is ready.
#[derive(Debug)]
pub enum ResolveStep {
    /// Wait until the repository with this ID is ready.
    EnsureReady { repo_id: String, fresh: bool },
    /// Forget the ID and register the repository anew.
    Refresh,
    Done(String),
    Failed(CanopyError),
}

/// The first step, once the repository's ID was looked up, or the step after a
/// fresh registration.
pub fn after_resolve(reply: Result<String, CanopyError>, fresh: bool) -> (r: ResolveStep)
    ensures
        match reply {
            Ok(id) => r matches ResolveStep::EnsureReady { repo_id, fresh: f } && repo_id@ == id@
                && f == fresh,
            Err(e) => r == ResolveStep::Failed(e),
        },
{
    match reply {
        Ok(id) => ResolveStep::EnsureReady { repo_id: id, fresh },
        Err(e) => ResolveStep::Failed(e),
    }
}

/// The step after the wait: where the service does not know the ID, the
/// repository is registered anew, but only once.
pub fn after_wait(repo_id: String, fresh: bool, reply: Result<(), CanopyError>) -> (r: ResolveStep)
    ensures
        match reply {
            Ok(_) => r == ResolveStep::Done(repo_id),
            Err(e) => if !fresh && error::has_code(e, "repo_not_found"@) {
                r is Refresh
            } else {
                r == ResolveStep::Failed(e)
            },
        },
{
    match reply {
        Ok(_) => ResolveStep::Done(repo_id),
        Err(e) => {
            if !fresh && is_error_code(&e, "repo_not_found") {
                ResolveStep::Refresh
            } else {
                ResolveStep::Failed(e)
            }
        },
    }
}

/// Whether a request is made again with a fresh ID: once, where the service does
/// not know the ID.
pub fn asks_again(error: &CanopyError, fresh: bool) -> (r: bool)
    ensures
        r == (!fresh && error::has_code(*error, "repo_not_found"@)),
{
    !fresh && is_error_code(error, "repo_not_found")
}

/// A repository is found by its ID: the first of those with it, where there is one.
pub proof fn law_first_shard(repos: Seq<RepoShard>, repo_id: Seq<char>)
    ensures
        0 <= shard_index(repos, repo_id) <= repos.len(),
        shard_index(repos, repo_id) < repos.len() ==> repos[shard_index(repos, repo_id)].repo_id@
            == repo_id,
        forall|k: int|
            0 <= k < shard_index(repos, repo_id) ==> (#[trigger] repos[k]).repo_id@ != repo_id,
    decreases repos.len(),
{
    if repos.len() > 0 && repos[0].repo_id@ != repo_id {
        let rest = repos.drop_first();
        law_first_shard(rest, repo_id);
        assert forall|k: int| 0 <= k < shard_index(repos, repo_id) implies (
        #[trigger] repos[k]).repo_id@ != repo_id by {
            if k > 0 {
                assert(rest[k - 1] == repos[k]);
            }
        }
    }
}

/// A wait ends well where the repository is ready, however long it took, and badly where
/// it is not there or has failed. Else it goes on, and ends badly only once the time is
/// up.
pub proof fn law_wait_ends(
    r: PollStep,
    repos: Seq<RepoShard>,
    repo_id: Seq<char>,
    i: int,
    elapsed_millis: u64,
    timeout_secs: u64,
)
    requires
        is_poll_step(r, repos, repo_id, elapsed_millis, timeout_secs),
    ensures
        (forall|k: int| 0 <= k < repos.len() ==> (#[trigger] repos[k]).repo_id@ != repo_id)
            ==> r is Failed,
        0 <= i < repos.len() && repos[i].repo_id@ == repo_id && (forall|k: int|
            0 <= k < i ==> (#[trigger] repos[k]).repo_id@ != repo_id) ==> {
            &&& r is Ready <==> repos[i].status == ShardStatus::Ready
            &&& repos[i].status == ShardStatus::Error ==> r is Failed
            &&& repos[i].status == ShardStatus::Pending || repos[i].status == ShardStatus::Indexing
                ==> (r is Wait <==> elapsed_millis < timeout_secs * 1000)
            &&& r is Wait ==> elapsed_millis < timeout_secs * 1000
        },
{
    law_first_shard(repos, repo_id);
    let at = shard_index(repos, repo_id);
    if 0 <= i < repos.len() && repos[i].repo_id@ == repo_id && (forall|k: int|
        0 <= k < i ==> (#[trigger] repos[k]).repo_id@ != repo_id) {
        if at < i {
            assert(repos[at].repo_id@ != repo_id);
        }
        if i < at {
            assert(repos[i].repo_id@ != repo_id);
        }
    }
}

/// The address of the service is what was given, without the slashes at its end alone.
pub proof fn law_base_url_kept(s: Seq<char>)
    ensures
        without_slashes(s).len() <= s.len(),
        without_slashes(s) == s.take(without_slashes(s).len() as int),
        forall|i: int| without_slashes(s).len() <= i < s.len() ==> s[i] == '/',
    decreases s.len(),
{
    if s.len() > 0 && s.last() == '/' {
        let rest = s.drop_last();
        law_base_url_kept(rest);
        let n = without_slashes(s).len() as int;
        assert(rest.take(n) =~= s.take(n));
        assert forall|i: int| n <= i < s.len() implies s[i] == '/' by {
            if i < rest.len() {
                assert(rest[i] == s[i]);
            }
        }
    } else {
        assert(s.take(s.len() as int) =~= s);
    }
}

} // verus!
