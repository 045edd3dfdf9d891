//! The second schema of the persisted configuration and snapshot, which is the
//! one the running application works on.

use crate::app_data_v1::{AppConfigV1, AppDataV1};
use vstd::prelude::*;

verus! {

/// The review-state category of a pull request, as seen by the viewer.
#[derive(Debug, Clone, Copy, PartialEq, Eq, Structural)]
pub enum PullRequestCategoryV2 {
    MineApproved,
    MineChangesRequested,
    MinePending,
    ReviewRequested,
    Rereview,
    ReviewMissing,
}

/// How many approvals a repository asks for before a pull request of the
/// viewer counts as approved. `repo_name` is `owner/repository`.
#[derive(Debug)]
pub struct RepoConfigV2 {
    pub repo_name: String,
    pub needed_approvals: usize,
}

pub struct RepoConfigV2View {
    pub repo_name: Seq<char>,
    pub needed_approvals: usize,
}

impl View for RepoConfigV2 {
    type V = RepoConfigV2View;

    open spec fn view(&self) -> RepoConfigV2View {
        RepoConfigV2View { repo_name: self.repo_name@, needed_approvals: self.needed_approvals }
    }
}

impl DeepView for RepoConfigV2 {
    type V = RepoConfigV2View;

    open spec fn deep_view(&self) -> RepoConfigV2View {
        self@
    }
}

impl Clone for RepoConfigV2 {
    fn clone(&self) -> (copy: Self)
        ensures
            copy@ == self@,
    {
        RepoConfigV2 { repo_name: self.repo_name.clone(), needed_approvals: self.needed_approvals }
    }
}

/// The configuration: the access token, the viewer's login and the table of
/// required approvals per repository.
#[derive(Debug)]
pub struct AppConfigV2 {
    pub version: u8,
    pub github_token: Option<String>,
    pub username: Option<String>,
    pub repo_config: Vec<RepoConfigV2>,
}

pub struct AppConfigV2View {
    pub version: u8,
    pub github_token: Option<Seq<char>>,
    pub username: Option<Seq<char>>,
    pub repo_config: Seq<RepoConfigV2View>,
}

impl View for AppConfigV2 {
    type V = AppConfigV2View;

    open spec fn view(&self) -> AppConfigV2View {
        AppConfigV2View {
            version: self.version,
            github_token: self.github_token.deep_view(),
            username: self.username.deep_view(),
            repo_config: self.repo_config.deep_view(),
        }
    }
}

impl DeepView for AppConfigV2 {
    type V = AppConfigV2View;

    open spec fn deep_view(&self) -> AppConfigV2View {
        self@
    }
}

impl Clone for AppConfigV2 {
    fn clone(&self) -> (copy: Self)
        ensures
            copy@ == self@,
    {
        let repo_config = self.repo_config.clone();
        assert(repo_config.deep_view() =~= self.repo_config.deep_view());
        AppConfigV2 {
            version: self.version,
            github_token: self.github_token.clone(),
            username: self.username.clone(),
            repo_config,
        }
    }
}

impl AppConfigV2 {
    /// The configuration of a fresh installation: no token, no viewer, no
    /// repository policy.
    pub fn new() -> (config: Self)
        ensures
            config@ == AppConfigV2View::initial(),
    {
        let config = AppConfigV2 {
            version: 2,
            github_token: None,
            username: None,
            repo_config: Vec::new(),
        };
        assert(config.repo_config.deep_view() =~= Seq::empty());
        config
    }
}

/// Holds of the policies of the repositories other than `repo_name`.
pub open spec fn of_other_repo(repo_name: Seq<char>) -> spec_fn(RepoConfigV2View) -> bool {
    |policy: RepoConfigV2View| policy.repo_name != repo_name
}

/// The approvals that the first policy for `repo_name` asks for; one where
/// the table holds no policy for it.
pub open spec fn required_approvals(policies: Seq<RepoConfigV2View>, repo_name: Seq<char>) -> usize
    decreases policies.len(),
{
    if policies.len() == 0 {
        1
    } else if policies.first().repo_name == repo_name {
        policies.first().needed_approvals
    } else {
        required_approvals(policies.drop_first(), repo_name)
    }
}

/// Whether the table holds a policy for `repo_name`.
pub open spec fn has_policy(policies: Seq<RepoConfigV2View>, repo_name: Seq<char>) -> bool {
    exists|k: int| 0 <= k < policies.len() && (#[trigger] policies[k]).repo_name == repo_name
}

impl AppConfigV2View {
    /// The configuration of a fresh installation.
    pub open spec fn initial() -> AppConfigV2View {
        AppConfigV2View {
            version: 2,
            github_token: None,
            username: None,
            repo_config: Seq::empty(),
        }
    }

    /// The approvals required in `repo_name`: what its policy says, and one
    /// where it has none.
    pub open spec fn required_approvals(self, repo_name: Seq<char>) -> usize {
        required_approvals(self.repo_config, repo_name)
    }

    /// Whether `repo_name` has a policy.
    pub open spec fn has_policy(self, repo_name: Seq<char>) -> bool {
        has_policy(self.repo_config, repo_name)
    }

    /// The configuration after the policy of `repo_name` was set: earlier
    /// policies for it are gone and the new one stands last.
    pub open spec fn with_policy(self, repo_name: Seq<char>, needed_approvals: usize) -> Self {
        AppConfigV2View {
            repo_config: self.repo_config.filter(of_other_repo(repo_name)).push(
                RepoConfigV2View { repo_name, needed_approvals },
            ),
            ..self
        }
    }

    /// The configuration after `repo_name` was given the default policy if it
    /// had none.
    pub open spec fn with_default_policy(self, repo_name: Seq<char>) -> Self {
        if self.has_policy(repo_name) {
            self
        } else {
            self.with_policy(repo_name, 1)
        }
    }
}

impl AppConfigV2 {
    /// The place of the first policy for `repo_name`, if there is one.
    fn find_policy(&self, repo_name: &String) -> (place: Option<usize>)
        ensures
            match place {
                Some(k) => k < self.repo_config.len() && self@.repo_config[k as int].repo_name
                    == repo_name@ && self@.repo_config[k as int].needed_approvals
                    == self@.required_approvals(repo_name@),
                None => !self@.has_policy(repo_name@) && self@.required_approvals(repo_name@) == 1,
            },
    {
        let ghost policies = self@.repo_config;
        let mut k: usize = 0;
        proof {
            assert(policies.skip(0) =~= policies);
        }
        while k < self.repo_config.len()
            invariant
                k <= self.repo_config.len(),
                policies == self@.repo_config,
                policies.len() == self.repo_config.len(),
                forall|j: int| 0 <= j < k ==> (#[trigger] policies[j]).repo_name != repo_name@,
                required_approvals(policies, repo_name@) == required_approvals(
                    policies.skip(k as int),
                    repo_name@,
                ),
            decreases self.repo_config.len() - k,
        {
            proof {
                assert(policies.skip(k as int).drop_first() =~= policies.skip(k + 1));
                assert(policies[k as int] == self.repo_config[k as int]@);
            }
            if self.repo_config[k].repo_name == *repo_name {
                return Some(k);
            }
            k = k + 1;
        }
        None
    }

    /// The approvals required in `repo_name`: what its policy says, and one
    /// where it has none.
    pub fn needed_approvals(&self, repo_name: &String) -> (needed: usize)
        ensures
            needed == self@.required_approvals(repo_name@),
    {
        match self.find_policy(repo_name) {
            Some(k) => self.repo_config[k].needed_approvals,
            None => 1,
        }
    }

    /// Sets the policy of `repo_name`, in place of any earlier one.
    pub fn set_repo_config(&mut self, repo_name: String, needed_approvals: usize)
        ensures
            final(self)@ == old(self)@.with_policy(repo_name@, needed_approvals),
    {
        let ghost policies = self@.repo_config;
        let mut kept: Vec<RepoConfigV2> = Vec::new();
        let mut k: usize = 0;
        proof {
            reveal(Seq::filter);
            assert(policies.take(0) =~= Seq::empty());
            assert(kept.deep_view() =~= policies.take(0).filter(of_other_repo(repo_name@)));
        }
        while k < self.repo_config.len()
            invariant
                k <= self.repo_config.len(),
                *self == *old(self),
                policies == self@.repo_config,
                policies.len() == self.repo_config.len(),
                kept.deep_view() == policies.take(k as int).filter(of_other_repo(repo_name@)),
            decreases self.repo_config.len() - k,
        {
            let ghost so_far = kept.deep_view();
            proof {
                assert(policies.take(k + 1) =~= policies.take(k as int).push(policies[k as int]));
                policies.take(k as int).lemma_filter_push(
                    policies[k as int],
                    of_other_repo(repo_name@),
                );
                assert(policies[k as int] == self.repo_config[k as int]@);
            }
            if self.repo_config[k].repo_name != repo_name {
                let copy = self.repo_config[k].clone();
                kept.push(copy);
                proof {
                    assert(kept.deep_view() =~= so_far.push(copy@));
                }
            }
            k = k + 1;
        }
        let ghost others = kept.deep_view();
        let added = RepoConfigV2 { repo_name, needed_approvals };
        kept.push(added);
        proof {
            assert(policies.take(k as int) =~= policies);
            assert(kept.deep_view() =~= others.push(added@));
        }
        self.repo_config = kept;
    }

    /// Gives `repo_name` the default policy, one approval, if it has none.
    /// A repository that has a policy keeps it.
    pub fn ensure_default(&mut self, repo_name: String) -> (added: bool)
        ensures
            final(self)@ == old(self)@.with_default_policy(repo_name@),
            added == !old(self)@.has_policy(repo_name@),
    {
        match self.find_policy(&repo_name) {
            Some(k) => {
                proof {
                    assert(self@.repo_config[k as int].repo_name == repo_name@);
                }
                false
            },
            None => {
                self.set_repo_config(repo_name, 1);
                true
            },
        }
    }
}

/// A repository without a policy is asked for one approval.
pub proof fn lemma_required_without_policy(policies: Seq<RepoConfigV2View>, repo_name: Seq<char>)
    requires
        !has_policy(policies, repo_name),
    ensures
        required_approvals(policies, repo_name) == 1,
    decreases policies.len(),
{
    if policies.len() > 0 {
        let rest = policies.drop_first();
        assert(policies[0].repo_name != repo_name);
        assert forall|k: int| 0 <= k < rest.len() implies (#[trigger] rest[k]).repo_name
            != repo_name by {
            assert(rest[k] == policies[k + 1]);
        }
        lemma_required_without_policy(rest, repo_name);
    }
}

/// What a table asks for after the policy of one repository was set.
proof fn lemma_required_after_set(
    policies: Seq<RepoConfigV2View>,
    repo_name: Seq<char>,
    needed_approvals: usize,
    other: Seq<char>,
)
    ensures
        required_approvals(
            policies.filter(of_other_repo(repo_name)).push(
                RepoConfigV2View { repo_name, needed_approvals },
            ),
            other,
        ) == if other == repo_name {
            needed_approvals
        } else {
            required_approvals(policies, other)
        },
    decreases policies.len(),
{
    let entry = RepoConfigV2View { repo_name, needed_approvals };
    let keep = of_other_repo(repo_name);
    if policies.len() == 0 {
        reveal(Seq::filter);
        let set = policies.filter(keep).push(entry);
        assert(set =~= seq![entry]);
        assert(set.drop_first() =~= Seq::empty());
        assert(required_approvals(set.drop_first(), other) == 1);
        assert(required_approvals(policies, other) == 1);
    } else {
        let first = policies.first();
        let rest = policies.drop_first();
        assert(policies =~= seq![first] + rest);
        rest.lemma_filter_prepend(first, keep);
        lemma_required_after_set(rest, repo_name, needed_approvals, other);
        let set = policies.filter(keep).push(entry);
        if keep(first) {
            assert(set =~= seq![first] + rest.filter(keep).push(entry));
            assert(set.first() == first);
            assert(set.drop_first() =~= rest.filter(keep).push(entry));
            assert(first.repo_name != repo_name);
        } else {
            assert(policies.filter(keep) =~= rest.filter(keep));
            assert(set =~= rest.filter(keep).push(entry));
            assert(first.repo_name == repo_name);
        }
    }
}

impl AppConfigV2View {
    /// After the policy of a repository was set, that repository is asked for
    /// what was set, and every other repository for what it was asked before.
    pub proof fn lemma_with_policy(self, repo_name: Seq<char>, needed_approvals: usize, other: Seq<char>)
        ensures
            self.with_policy(repo_name, needed_approvals).required_approvals(other) == if other
                == repo_name {
                needed_approvals
            } else {
                self.required_approvals(other)
            },
            self.with_policy(repo_name, needed_approvals).has_policy(repo_name),
            self.with_policy(repo_name, needed_approvals).username == self.username,
            self.with_policy(repo_name, needed_approvals).github_token == self.github_token,
    {
        lemma_required_after_set(self.repo_config, repo_name, needed_approvals, other);
        let set = self.with_policy(repo_name, needed_approvals).repo_config;
        assert(set[set.len() - 1].repo_name == repo_name);
    }

    /// Setting the policy of one repository leaves every other repository
    /// that has a policy with a policy.
    pub proof fn lemma_with_policy_keeps_policies(
        self,
        repo_name: Seq<char>,
        needed_approvals: usize,
        other: Seq<char>,
    )
        requires
            self.has_policy(other),
        ensures
            self.with_policy(repo_name, needed_approvals).has_policy(other),
    {
        let set = self.with_policy(repo_name, needed_approvals).repo_config;
        if other == repo_name {
            assert(set[set.len() - 1].repo_name == repo_name);
        } else {
            let keep = of_other_repo(repo_name);
            let k = choose|k: int|
                0 <= k < self.repo_config.len() && (#[trigger] self.repo_config[k]).repo_name
                    == other;
            assert(keep(self.repo_config[k]));
            self.repo_config.lemma_filter_contains(keep, k);
            let kept = self.repo_config.filter(keep);
            let j = choose|j: int| 0 <= j < kept.len() && kept[j] == self.repo_config[k];
            assert(set[j].repo_name == other);
        }
    }

    /// Giving a repository the default policy a second time changes nothing.
    pub proof fn lemma_with_default_policy_twice(self, repo_name: Seq<char>)
        ensures
            self.with_default_policy(repo_name).with_default_policy(repo_name)
                == self.with_default_policy(repo_name),
    {
        self.lemma_with_default_policy(repo_name, repo_name);
    }

    /// Giving a repository the default policy changes what no repository is
    /// asked for: a policy that stands is kept, and the default is what a
    /// repository without a policy was asked for before.
    pub proof fn lemma_with_default_policy(self, repo_name: Seq<char>, other: Seq<char>)
        ensures
            self.with_default_policy(repo_name).required_approvals(other)
                == self.required_approvals(other),
            self.with_default_policy(repo_name).has_policy(repo_name),
            self.with_default_policy(repo_name).username == self.username,
            self.with_default_policy(repo_name).github_token == self.github_token,
    {
        if !self.has_policy(repo_name) {
            self.lemma_with_policy(repo_name, 1, other);
            lemma_required_without_policy(self.repo_config, repo_name);
        }
    }
}

/// One pull request with its category, as it stands in a snapshot.
#[derive(Debug)]
pub struct PullRequestItemV2 {
    pub id: u64,
    pub title: String,
    pub repository_url: String,
    pub login: String,
    pub avatar_url: String,
    pub url: String,
    pub created_at: String,
    pub updated_at: String,
    pub html_url: String,
    pub is_assigned: bool,
    pub category: PullRequestCategoryV2,
}

pub struct PullRequestItemV2View {
    pub id: u64,
    pub title: Seq<char>,
    pub repository_url: Seq<char>,
    pub login: Seq<char>,
    pub avatar_url: Seq<char>,
    pub url: Seq<char>,
    pub created_at: Seq<char>,
    pub updated_at: Seq<char>,
    pub html_url: Seq<char>,
    pub is_assigned: bool,
    pub category: PullRequestCategoryV2,
}

impl View for PullRequestItemV2 {
    type V = PullRequestItemV2View;

    open spec fn view(&self) -> PullRequestItemV2View {
        PullRequestItemV2View {
            id: self.id,
            title: self.title@,
            repository_url: self.repository_url@,
            login: self.login@,
            avatar_url: self.avatar_url@,
            url: self.url@,
            created_at: self.created_at@,
            updated_at: self.updated_at@,
            html_url: self.html_url@,
            is_assigned: self.is_assigned,
            category: self.category,
        }
    }
}

impl DeepView for PullRequestItemV2 {
    type V = PullRequestItemV2View;

    open spec fn deep_view(&self) -> PullRequestItemV2View {
        self@
    }
}

impl Clone for PullRequestItemV2 {
    fn clone(&self) -> (copy: Self)
        ensures
            copy@ == self@,
    {
        PullRequestItemV2 {
            id: self.id,
            title: self.title.clone(),
            repository_url: self.repository_url.clone(),
            login: self.login.clone(),
            avatar_url: self.avatar_url.clone(),
            url: self.url.clone(),
            created_at: self.created_at.clone(),
            updated_at: self.updated_at.clone(),
            html_url: self.html_url.clone(),
            is_assigned: self.is_assigned,
            category: self.category,
        }
    }
}

/// A snapshot: the categorized pull requests of one poll and the time of that
/// poll, in seconds since the Unix epoch.
#[derive(Debug)]
pub struct PullRequestsDataV2 {
    pub last_updated: u64,
    pub pull_requests: Vec<PullRequestItemV2>,
}

pub struct PullRequestsDataV2View {
    pub last_updated: u64,
    pub pull_requests: Seq<PullRequestItemV2View>,
}

impl View for PullRequestsDataV2 {
    type V = PullRequestsDataV2View;

    open spec fn view(&self) -> PullRequestsDataV2View {
        PullRequestsDataV2View {
            last_updated: self.last_updated,
            pull_requests: self.pull_requests.deep_view(),
        }
    }
}

impl DeepView for PullRequestsDataV2 {
    type V = PullRequestsDataV2View;

    open spec fn deep_view(&self) -> PullRequestsDataV2View {
        self@
    }
}

impl Clone for PullRequestsDataV2 {
    fn clone(&self) -> (copy: Self)
        ensures
            copy@ == self@,
    {
        let pull_requests = self.pull_requests.clone();
        assert(pull_requests.deep_view() =~= self.pull_requests.deep_view());
        PullRequestsDataV2 { last_updated: self.last_updated, pull_requests }
    }
}

impl PullRequestsDataV2View {
    /// The snapshot before the first poll: no pull request, time zero.
    pub open spec fn empty() -> PullRequestsDataV2View {
        PullRequestsDataV2View { last_updated: 0, pull_requests: Seq::empty() }
    }

    /// The identifiers of the pull requests, in the snapshot's order.
    pub open spec fn ids(self) -> Seq<u64> {
        self.pull_requests.map_values(|item: PullRequestItemV2View| item.id)
    }

    /// No identifier occurs twice.
    pub open spec fn wf(self) -> bool {
        self.ids().no_duplicates()
    }
}

impl PullRequestsDataV2 {
    /// The snapshot before the first poll.
    pub fn new() -> (data: Self)
        ensures
            data@ == PullRequestsDataV2View::empty(),
    {
        let data = PullRequestsDataV2 { last_updated: 0, pull_requests: Vec::new() };
        assert(data.pull_requests.deep_view() =~= Seq::empty());
        data
    }
}

/// The persisted data: the current snapshot under its schema version.
#[derive(Debug)]
pub struct AppDataV2 {
    pub version: u8,
    pub pull_requests: PullRequestsDataV2,
}

pub struct AppDataV2View {
    pub version: u8,
    pub pull_requests: PullRequestsDataV2View,
}

impl View for AppDataV2 {
    type V = AppDataV2View;

    open spec fn view(&self) -> AppDataV2View {
        AppDataV2View { version: self.version, pull_requests: self.pull_requests@ }
    }
}

impl DeepView for AppDataV2 {
    type V = AppDataV2View;

    open spec fn deep_view(&self) -> AppDataV2View {
        self@
    }
}

impl Clone for AppDataV2 {
    fn clone(&self) -> (copy: Self)
        ensures
            copy@ == self@,
    {
        AppDataV2 { version: self.version, pull_requests: self.pull_requests.clone() }
    }
}

impl AppDataV2View {
    /// The data of a fresh installation.
    pub open spec fn initial() -> AppDataV2View {
        AppDataV2View { version: 2, pull_requests: PullRequestsDataV2View::empty() }
    }
}

impl AppDataV2 {
    /// The data of a fresh installation: an empty snapshot.
    pub fn new() -> (data: Self)
        ensures
            data@ == AppDataV2View::initial(),
    {
        AppDataV2 { version: 2, pull_requests: PullRequestsDataV2::new() }
    }
}

/// Migrates a configuration of the first schema. The token is kept, the
/// filters are dropped and the table of repository policies starts empty.
/// `username` is the login that the token was found to belong to, if there is
/// a token.
pub fn convert_config_to_v2(config: AppConfigV1, username: Option<String>) -> (converted:
    AppConfigV2)
    ensures
        converted@ == (AppConfigV2View {
            version: 2,
            github_token: config.github_token.deep_view(),
            username: username.deep_view(),
            repo_config: Seq::empty(),
        }),
{
    let converted = AppConfigV2 {
        version: 2,
        github_token: config.github_token,
        username,
        repo_config: Vec::new(),
    };
    assert(converted.repo_config.deep_view() =~= Seq::empty());
    converted
}

/// Migrates data of the first schema: its snapshots were kept per filter and
/// are not carried over, so the result is the empty snapshot.
pub fn convert_data_to_v2(_data: AppDataV1) -> (converted: AppDataV2)
    ensures
        converted@ == AppDataV2View::initial(),
{
    AppDataV2::new()
}

} // verus!
