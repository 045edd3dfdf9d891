//! The first schema of the persisted configuration and data. It is only read,
//! to be migrated.

use std::collections::HashMap;
use vstd::prelude::*;

verus! {

/// The schema version of a stored file that names none.
pub fn default_version() -> (version: u8)
    ensures
        version == 1,
{
    1
}

/// The repository address of a stored pull request that names none.
pub fn default_repo_url() -> (url: String)
    ensures
        url@ == Seq::<char>::empty(),
{
    String::new()
}

/// The configuration of the first schema: the access token and the saved
/// searches.
#[derive(Debug)]
pub struct AppConfigV1 {
    pub version: u8,
    pub github_token: Option<String>,
    pub filters: Vec<GithubFilterV1>,
}

/// Snapshots of the first schema, one per filter, keyed by the filter's
/// 128-bit identifier.
#[derive(Debug)]
pub struct AppDataV1 {
    pub version: u8,
    pub pull_requests: HashMap<u128, PullRequestsDataV1>,
}

/// The pull requests that one saved search found, and when.
#[derive(Debug)]
pub struct PullRequestsDataV1 {
    pub last_updated: u64,
    pub pull_requests: Vec<PullRequestItemV1>,
}

/// A saved search. `id` is the filter's 128-bit identifier and
/// `fractional_index` the bytes of its position among the filters.
#[derive(Debug)]
pub struct GithubFilterV1 {
    pub id: u128,
    pub query: String,
    pub notify: bool,
    pub name: String,
    pub fractional_index: Vec<u8>,
}

/// One pull request as the first schema stored it, without a category.
#[derive(Debug)]
pub struct PullRequestItemV1 {
    pub id: u64,
    pub title: String,
    pub repository_url: String,
    pub user: PullRequestItemUserV1,
    pub url: String,
    pub created_at: String,
    pub updated_at: String,
    pub pull_request: PullRequestItemPullRequestV1,
}

/// The address of the pull request's page.
#[derive(Debug)]
pub struct PullRequestItemPullRequestV1 {
    pub html_url: String,
}

/// The author of a pull request.
#[derive(Debug)]
pub struct PullRequestItemUserV1 {
    pub login: String,
    pub avatar_url: String,
}

} // verus!
