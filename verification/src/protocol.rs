//! Requests and responses of the service.

use vstd::prelude::*;
use crate::generation::RepoShard;
use crate::query::QueryParams;
use crate::text;

verus! {

broadcast use vstd::seq::group_seq_axioms;

#[derive(Debug)]
pub struct QueryRequest {
    pub repo: String,
    pub params: QueryParams,
}

/// Configuration for evidence pack assembly (limits and planning toggle).
#[derive(Debug)]
pub struct EvidencePackConfig {
    pub max_handles: Option<usize>,
    pub max_per_file: Option<usize>,
    pub plan: Option<bool>,
}

#[derive(Debug)]
pub struct EvidencePackRequest {
    pub repo: String,
    pub params: QueryParams,
    pub config: EvidencePackConfig,
}

#[derive(Debug)]
pub struct ExpandRequest {
    pub repo: String,
    pub handles: Vec<ExpandHandle>,
}

#[derive(Debug)]
pub struct ExpandHandle {
    pub id: String,
    pub generation: Option<u64>,
}

#[derive(Debug)]
pub struct ExpandResponse {
    pub contents: Vec<ExpandedContent>,
}

#[derive(Debug)]
pub struct ExpandedContent {
    pub handle_id: String,
    pub content: String,
}

/// What came of an expansion: the contents, and the handles that failed.
#[derive(Debug)]
pub struct ExpandOutcome {
    pub contents: Vec<(String, String)>,
    pub failed_ids: Vec<String>,
}

#[derive(Debug)]
pub struct AddRepoRequest {
    pub path: String,
    pub name: Option<String>,
}

#[derive(Debug)]
pub struct AddRepoResponse {
    pub repo_id: String,
    pub name: String,
}

#[derive(Debug)]
pub struct ReindexRequest {
    pub repo: String,
    pub glob: Option<String>,
}

#[derive(Debug)]
pub struct ReindexResponse {
    pub generation: u64,
    pub status: String,
    pub commit_sha: Option<String>,
}

#[derive(Debug)]
pub struct ServiceStatus {
    pub service: String,
    pub repos: Vec<RepoShard>,
}

/// The request to expand handles of a repository, all of one generation.
pub fn expand_request(repo_id: &str, handle_ids: &Vec<String>, generation: Option<u64>) -> (r:
    ExpandRequest)
    ensures
        r.repo@ == repo_id@,
        r.handles@.len() == handle_ids@.len(),
        forall|i: int|
            0 <= i < handle_ids@.len() ==> (#[trigger] r.handles@[i]).id@ == handle_ids@[i]@
                && r.handles@[i].generation == generation,
{
    let mut handles: Vec<ExpandHandle> = Vec::new();
    let mut i: usize = 0;
    while i < handle_ids.len()
        invariant
            i <= handle_ids@.len(),
            handles@.len() == i,
            forall|k: int|
                0 <= k < i ==> (#[trigger] handles@[k]).id@ == handle_ids@[k]@
                    && handles@[k].generation == generation,
        decreases handle_ids@.len() - i,
    {
        handles.push(ExpandHandle { id: handle_ids[i].clone(), generation });
        i = i + 1;
    }
    ExpandRequest { repo: repo_id.to_owned(), handles }
}

/// The contents of a response as pairs of handle ID and content.
pub fn expanded_pairs(response: &ExpandResponse) -> (r: Vec<(String, String)>)
    ensures
        r@.len() == response.contents@.len(),
        forall|i: int|
            0 <= i < r@.len() ==> (#[trigger] r@[i]).0@ == response.contents@[i].handle_id@
                && r@[i].1@ == response.contents@[i].content@,
{
    let mut pairs: Vec<(String, String)> = Vec::new();
    let mut i: usize = 0;
    while i < response.contents.len()
        invariant
            i <= response.contents@.len(),
            pairs@.len() == i,
            forall|k: int|
                0 <= k < i ==> (#[trigger] pairs@[k]).0@ == response.contents@[k].handle_id@
                    && pairs@[k].1@ == response.contents@[k].content@,
        decreases response.contents@.len() - i,
    {
        pairs.push(
            (response.contents[i].handle_id.clone(), response.contents[i].content.clone()),
        );
        i = i + 1;
    }
    pairs
}

} // verus!
