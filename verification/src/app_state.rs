//! The state of the application, the configuration and the current snapshot,
//! and the operations on it: classifying a poll's pull requests, replacing the
//! snapshot and keeping the table of repository policies.

use crate::app_data::{
    AppConfig, AppConfigView, AppData, AppDataView, PullRequestCategory, PullRequestItem,
    PullRequestItemView, PullRequestsData, PullRequestsDataView,
};
use crate::event_names::{
    AppConfigUpdatedPayload, AppConfigUpdatedPayloadView, AppDataUpdatedPayload,
    AppDataUpdatedPayloadView, AppEvent, AppEventView, FilterDataUpdatedPayload,
    FilterDataUpdatedPayloadView,
};
use crate::github_service::{repo_name_of, GithubPRWithReviews, GithubPRWithReviewsView};
use crate::notifications::{
    lemma_diff_of_unchanged_is_empty, spec_diff, spec_notifications, CategoryChangesView,
    NotificationView,
};
use crate::pr_predicates::{
    first_match, first_matching_category, lemma_category_depends_on, lemma_rule_chain_is_total,
    pr_categories, pr_repo_name, rule_chain, spec_category, viewer, viewer_login,
};
use vstd::prelude::*;

verus! {

/// A saved search as the user edits it.
#[derive(Debug)]
pub struct GithubFilterUpdate {
    pub query: String,
    pub notify: bool,
    pub name: String,
}

/// The two stores: the current snapshot and the configuration.
#[derive(Debug)]
pub struct AppState {
    pub data: AppData,
    pub config: AppConfig,
}

pub struct AppStateView {
    pub data: AppDataView,
    pub config: AppConfigView,
}

impl View for AppState {
    type V = AppStateView;

    open spec fn view(&self) -> AppStateView {
        AppStateView { data: self.data@, config: self.config@ }
    }
}

impl AppStateView {
    /// The state of a fresh installation.
    pub open spec fn initial() -> AppStateView {
        AppStateView { data: AppDataView::initial(), config: AppConfigView::initial() }
    }
}

impl AppState {
    /// The state of a fresh installation: an empty snapshot and an empty
    /// configuration.
    pub fn new() -> (state: Self)
        ensures
            state@ == AppStateView::initial(),
    {
        AppState { config: AppConfig::new(), data: AppData::new() }
    }

    /// Puts `new_snapshot` in the place of the current snapshot and hands the
    /// replaced one back. Nothing else changes.
    pub fn replace(&mut self, new_snapshot: PullRequestsData) -> (previous: PullRequestsData)
        ensures
            previous@ == old(self)@.data.pull_requests,
            final(self)@ == (AppStateView {
                data: AppDataView { pull_requests: new_snapshot@, ..old(self)@.data },
                ..old(self)@
            }),
    {
        let mut swapped = new_snapshot;
        std::mem::swap(&mut self.data.pull_requests, &mut swapped);
        swapped
    }
}

/// The text that names the instant `nanos` nanoseconds after the Unix epoch in
/// the format of RFC 3339, in UTC.
pub uninterp spec fn rfc3339_text(nanos: i64) -> Seq<char>;

/// `chrono::DateTime::to_rfc3339`, called on the UTC instant that
/// `chrono::DateTime::from_timestamp_nanos` makes of `nanos`. The text that
/// comes back is a function of the instant alone, which the contract names.
#[verifier::external_body]
fn format_rfc3339(nanos: i64) -> (text: String)
    ensures
        text@ == rfc3339_text(nanos),
{
    chrono::DateTime::from_timestamp_nanos(nanos).to_rfc3339()
}

/// The pull request as it stands in a snapshot, given the texts of its two
/// instants.
pub open spec fn categorized(
    pr: GithubPRWithReviewsView,
    config: AppConfigView,
    created_at: Seq<char>,
    updated_at: Seq<char>,
) -> PullRequestItemView {
    PullRequestItemView {
        id: pr.pr.id,
        title: pr.pr.title,
        url: pr.pr.url,
        repository_url: pr.pr.repository_url,
        login: pr.pr.login,
        avatar_url: pr.pr.avatar_url,
        html_url: pr.pr.html_url,
        created_at,
        updated_at,
        is_assigned: pr.pr.assignees.contains(viewer(config)),
        category: spec_category(pr, config),
    }
}

/// The pull request as it stands in a snapshot.
pub open spec fn spec_item(pr: GithubPRWithReviewsView, config: AppConfigView) -> PullRequestItemView {
    categorized(pr, config, rfc3339_text(pr.pr.created_at), rfc3339_text(pr.pr.updated_at))
}

/// The category of the pull request: that of the first rule of the chain whose
/// condition holds. Should no rule hold, the pull request counts as pending.
pub fn get_category_from_reviews(pr_with_reviews: &GithubPRWithReviews, config: &AppConfig) -> (category:
    PullRequestCategory)
    ensures
        category == spec_category(pr_with_reviews@, config@),
        Some(category) == first_match(rule_chain(), pr_with_reviews@, config@),
{
    let rules = pr_categories();
    proof {
        lemma_rule_chain_is_total(pr_with_reviews@, config@);
    }
    match first_matching_category(&rules, pr_with_reviews, config) {
        Some(category) => category,
        None => PullRequestCategory::MinePending,
    }
}

/// Whether the viewer is among the assignees.
fn is_assigned(pr_with_reviews: &GithubPRWithReviews, config: &AppConfig) -> (assigned: bool)
    ensures
        assigned == pr_with_reviews@.pr.assignees.contains(viewer(config@)),
{
    let username = viewer_login(config);
    let ghost assignees = pr_with_reviews@.pr.assignees;
    let mut i: usize = 0;
    while i < pr_with_reviews.pr.assignees.len()
        invariant
            i <= pr_with_reviews.pr.assignees.len(),
            assignees == pr_with_reviews.pr.assignees.deep_view(),
            username@ == viewer(config@),
            forall|j: int| 0 <= j < i ==> assignees[j] != username@,
        decreases pr_with_reviews.pr.assignees.len() - i,
    {
        if pr_with_reviews.pr.assignees[i] == username {
            assert(assignees[i as int] == username@);
            return true;
        }
        i = i + 1;
    }
    false
}

/// Makes the snapshot's entry of a pull request from the pull request as it
/// was fetched and the texts of its two instants: the category is worked out
/// and the viewer is looked up among the assignees.
pub fn categorized_item(
    pr_with_reviews: &GithubPRWithReviews,
    config: &AppConfig,
    created_at: String,
    updated_at: String,
) -> (item: PullRequestItem)
    ensures
        item@ == categorized(pr_with_reviews@, config@, created_at@, updated_at@),
{
    PullRequestItem {
        id: pr_with_reviews.pr.id,
        title: pr_with_reviews.pr.title.clone(),
        url: pr_with_reviews.pr.url.clone(),
        repository_url: pr_with_reviews.pr.repository_url.clone(),
        login: pr_with_reviews.pr.login.clone(),
        avatar_url: pr_with_reviews.pr.avatar_url.clone(),
        html_url: pr_with_reviews.pr.html_url.clone(),
        created_at,
        updated_at,
        is_assigned: is_assigned(pr_with_reviews, config),
        category: get_category_from_reviews(pr_with_reviews, config),
    }
}

/// Makes the snapshot's entry of a pull request as it was fetched.
pub fn map_to_app_data(github_pr_with_reviews: &GithubPRWithReviews, config: &AppConfig) -> (item:
    PullRequestItem)
    ensures
        item@ == spec_item(github_pr_with_reviews@, config@),
{
    let created_at = format_rfc3339(github_pr_with_reviews.pr.created_at);
    let updated_at = format_rfc3339(github_pr_with_reviews.pr.updated_at);
    categorized_item(github_pr_with_reviews, config, created_at, updated_at)
}

/// The entries of the snapshot that a response gives, in the response's order.
pub open spec fn spec_items(
    response: Seq<GithubPRWithReviewsView>,
    config: AppConfigView,
) -> Seq<PullRequestItemView> {
    Seq::new(response.len(), |i: int| spec_item(response[i], config))
}

/// The snapshot that a response gives at the time `now`.
pub open spec fn spec_snapshot(
    response: Seq<GithubPRWithReviewsView>,
    config: AppConfigView,
    now: u64,
) -> PullRequestsDataView {
    PullRequestsDataView { last_updated: now, pull_requests: spec_items(response, config) }
}

/// The keys of the repositories of a response, in its order: one for each
/// pull request whose address names a repository.
pub open spec fn repo_names(response: Seq<GithubPRWithReviewsView>) -> Seq<Seq<char>>
    decreases response.len(),
{
    if response.len() == 0 {
        Seq::empty()
    } else {
        let earlier = repo_names(response.drop_last());
        match repo_name_of(response.last().pr.repository_url) {
            Some(repo_name) => earlier.push(repo_name),
            None => earlier,
        }
    }
}

/// The configuration after each of `repos`, in turn, was given the default
/// policy if it had none.
pub open spec fn with_default_policies(config: AppConfigView, repos: Seq<Seq<char>>) -> AppConfigView
    decreases repos.len(),
{
    if repos.len() == 0 {
        config
    } else {
        with_default_policies(config, repos.drop_last()).with_default_policy(repos.last())
    }
}

/// The events of giving `repos` their default policies: one for each
/// repository that had no policy when its turn came, with the configuration
/// as it stood after that.
pub open spec fn provisioning_events(config: AppConfigView, repos: Seq<Seq<char>>) -> Seq<
    AppEventView,
>
    decreases repos.len(),
{
    if repos.len() == 0 {
        Seq::empty()
    } else {
        let earlier = provisioning_events(config, repos.drop_last());
        let before = with_default_policies(config, repos.drop_last());
        if before.has_policy(repos.last()) {
            earlier
        } else {
            earlier.push(
                AppEventView::AppConfigUpdated(
                    AppConfigUpdatedPayloadView { config: before.with_policy(repos.last(), 1) },
                ),
            )
        }
    }
}

/// The state after a poll that came back with `response` at the time `now`.
pub open spec fn state_after_response(
    state: AppStateView,
    response: Seq<GithubPRWithReviewsView>,
    now: u64,
) -> AppStateView {
    AppStateView {
        data: AppDataView {
            pull_requests: spec_snapshot(response, state.config, now),
            ..state.data
        },
        config: with_default_policies(state.config, repo_names(response)),
    }
}

/// The events of a poll that came back with `response` at the time `now`: the
/// policies that were added, then the old and the new snapshot, then the data
/// to be stored.
pub open spec fn events_of_response(
    state: AppStateView,
    response: Seq<GithubPRWithReviewsView>,
    now: u64,
) -> Seq<AppEventView> {
    let after = state_after_response(state, response, now);
    provisioning_events(state.config, repo_names(response)).push(
        AppEventView::FilterDataUpdated(
            FilterDataUpdatedPayloadView {
                new_data: after.data.pull_requests,
                old_data: state.data.pull_requests,
            },
        ),
    ).push(AppEventView::AppDataUpdated(AppDataUpdatedPayloadView { data: after.data }))
}

/// Takes in the response of a poll. Every pull request is classified against
/// the configuration as it stands at the start; the result replaces the
/// snapshot as a whole; every repository seen that has no policy gets the
/// default one. What comes back are the events to send, in their order.
pub fn new_pull_request_response(
    state: &mut AppState,
    response: &Vec<GithubPRWithReviews>,
    now: u64,
) -> (events: Vec<AppEvent>)
    ensures
        final(state)@ == state_after_response(old(state)@, response.deep_view(), now),
        events.deep_view() == events_of_response(old(state)@, response.deep_view(), now),
{
    let ghost fetched = response.deep_view();
    let ghost before = state@;
    let mut items: Vec<PullRequestItem> = Vec::new();
    let mut i: usize = 0;
    while i < response.len()
        invariant
            i <= response.len(),
            fetched == response.deep_view(),
            *state == *old(state),
            items.len() == i,
            forall|j: int| 0 <= j < i ==> (#[trigger] items[j])@ == spec_item(fetched[j], state@.config),
        decreases response.len() - i,
    {
        proof {
            assert(fetched[i as int] == response[i as int]@);
        }
        let item = map_to_app_data(&response[i], &state.config);
        items.push(item);
        i = i + 1;
    }
    let new_pr_data = PullRequestsData { last_updated: now, pull_requests: items };
    proof {
        assert(new_pr_data@.pull_requests =~= spec_items(fetched, before.config));
    }
    let old_pr_data = state.replace(new_pr_data.clone());

    let mut events: Vec<AppEvent> = Vec::new();
    let mut k: usize = 0;
    proof {
        assert(fetched.take(0) =~= Seq::empty());
        assert(events.deep_view() =~= Seq::empty());
    }
    while k < response.len()
        invariant
            k <= response.len(),
            fetched == response.deep_view(),
            state@.data == (AppDataView {
                pull_requests: spec_snapshot(fetched, before.config, now),
                ..before.data
            }),
            state@.config == with_default_policies(
                before.config,
                repo_names(fetched.take(k as int)),
            ),
            events.deep_view() == provisioning_events(
                before.config,
                repo_names(fetched.take(k as int)),
            ),
        decreases response.len() - k,
    {
        let ghost seen = repo_names(fetched.take(k as int));
        proof {
            assert(fetched[k as int] == response[k as int]@);
            assert(fetched.take(k + 1).drop_last() =~= fetched.take(k as int));
            assert(fetched.take(k + 1).last() == fetched[k as int]);
        }
        let ghost sent = events.deep_view();
        match pr_repo_name(&response[k]) {
            Some(repo) => {
                proof {
                    assert(seen.push(repo@).drop_last() =~= seen);
                    assert(seen.push(repo@).last() == repo@);
                }
                if state.config.ensure_default(repo) {
                    let event = AppEvent::AppConfigUpdated(
                        AppConfigUpdatedPayload { config: state.config.clone() },
                    );
                    events.push(event);
                    proof {
                        assert(events.deep_view() =~= sent.push(event@));
                    }
                }
            },
            None => {},
        }
        k = k + 1;
    }
    proof {
        assert(fetched.take(k as int) =~= fetched);
    }
    let ghost provisioned = events.deep_view();
    let first = AppEvent::FilterDataUpdated(
        FilterDataUpdatedPayload { new_data: new_pr_data, old_data: old_pr_data },
    );
    let second = AppEvent::AppDataUpdated(AppDataUpdatedPayload { data: state.data.clone() });
    events.push(first);
    events.push(second);
    proof {
        assert(events.deep_view() =~= provisioned.push(first@).push(second@));
    }
    events
}

/// A copy of the configuration.
pub fn get_config(state: &AppState) -> (config: AppConfig)
    ensures
        config@ == state@.config,
{
    AppConfig {
        version: state.config.version,
        username: state.config.username.clone(),
        github_token: state.config.github_token.clone(),
        repo_config: state.config.clone().repo_config,
    }
}

/// A copy of the data: the current snapshot under its schema version.
pub fn get_data(state: &AppState) -> (data: AppData)
    ensures
        data@ == state@.data,
{
    state.data.clone()
}

/// Sets the policy of a repository, in place of any earlier one, and says
/// what is to be stored.
pub fn save_repo_config(state: &mut AppState, repo_name: String, needed_approvals: usize) -> (event:
    AppConfigUpdatedPayload)
    ensures
        final(state)@ == (AppStateView {
            config: old(state)@.config.with_policy(repo_name@, needed_approvals),
            ..old(state)@
        }),
        event@.config == final(state)@.config,
{
    state.config.set_repo_config(repo_name, needed_approvals);
    AppConfigUpdatedPayload { config: state.config.clone() }
}

/// Sets the access token and the login of the viewer, and says what is to be
/// stored.
pub fn save_token(state: &mut AppState, token: String, username: String) -> (event:
    AppConfigUpdatedPayload)
    ensures
        final(state)@ == (AppStateView {
            config: AppConfigView {
                github_token: Some(token@),
                username: Some(username@),
                ..old(state)@.config
            },
            ..old(state)@
        }),
        event@.config == final(state)@.config,
{
    state.config.github_token = Some(token);
    state.config.username = Some(username);
    AppConfigUpdatedPayload { config: state.config.clone() }
}

/// The identifiers of the pull requests of a response, in its order.
pub open spec fn response_ids(response: Seq<GithubPRWithReviewsView>) -> Seq<u64> {
    Seq::new(response.len(), |i: int| response[i].pr.id)
}

/// The snapshot of a response holds the identifiers of the response, so it
/// repeats no identifier exactly if the response repeats none.
pub proof fn lemma_snapshot_ids(
    response: Seq<GithubPRWithReviewsView>,
    config: AppConfigView,
    now: u64,
)
    ensures
        spec_snapshot(response, config, now).ids() == response_ids(response),
        spec_snapshot(response, config, now).wf() <==> response_ids(response).no_duplicates(),
{
    assert(spec_snapshot(response, config, now).ids() =~= response_ids(response));
}

/// Giving repositories their default policies changes what no repository is
/// asked for, keeps every policy, leaves each of them with a policy, and
/// touches neither the viewer nor the token.
pub proof fn lemma_with_default_policies(
    config: AppConfigView,
    repos: Seq<Seq<char>>,
    other: Seq<char>,
)
    ensures
        with_default_policies(config, repos).required_approvals(other)
            == config.required_approvals(other),
        with_default_policies(config, repos).username == config.username,
        with_default_policies(config, repos).github_token == config.github_token,
        with_default_policies(config, repos).version == config.version,
        config.has_policy(other) ==> with_default_policies(config, repos).has_policy(other),
        repos.contains(other) ==> with_default_policies(config, repos).has_policy(other),
    decreases repos.len(),
{
    if repos.len() > 0 {
        let rest = repos.drop_last();
        let last = repos.last();
        let before = with_default_policies(config, rest);
        lemma_with_default_policies(config, rest, other);
        before.lemma_with_default_policy(last, other);
        if before.has_policy(other) && !before.has_policy(last) {
            before.lemma_with_policy_keeps_policies(last, 1, other);
        }
        if repos.contains(other) && other != last {
            let k = choose|k: int| 0 <= k < repos.len() && repos[k] == other;
            assert(rest[k] == other);
        }
    }
}

/// Where every repository has a policy already, nothing is added and nothing
/// is told.
pub proof fn lemma_nothing_to_provision(config: AppConfigView, repos: Seq<Seq<char>>)
    requires
        forall|k: int| 0 <= k < repos.len() ==> config.has_policy(#[trigger] repos[k]),
    ensures
        with_default_policies(config, repos) == config,
        provisioning_events(config, repos) == Seq::<AppEventView>::empty(),
    decreases repos.len(),
{
    if repos.len() > 0 {
        let rest = repos.drop_last();
        assert forall|k: int| 0 <= k < rest.len() implies config.has_policy(#[trigger] rest[k]) by {
            assert(rest[k] == repos[k]);
        }
        lemma_nothing_to_provision(config, rest);
        assert(config.has_policy(repos[repos.len() - 1]));
    }
}

/// Taking in a response changes what no repository is asked for, and leaves
/// the viewer and the token as they were.
pub proof fn lemma_response_keeps_policies(
    state: AppStateView,
    response: Seq<GithubPRWithReviewsView>,
    now: u64,
    repo_name: Seq<char>,
)
    ensures
        state_after_response(state, response, now).config.required_approvals(repo_name)
            == state.config.required_approvals(repo_name),
        state_after_response(state, response, now).config.username == state.config.username,
        state_after_response(state, response, now).config.github_token
            == state.config.github_token,
{
    lemma_with_default_policies(state.config, repo_names(response), repo_name);
}

/// A second pass over an unchanged response is silent: it leaves the
/// configuration and the pull requests of the snapshot as the first pass left
/// them, adds no policy, and the diff of the two snapshots is empty, so that
/// nothing is notified.
pub proof fn lemma_second_pass_is_silent(
    state: AppStateView,
    response: Seq<GithubPRWithReviewsView>,
    first: u64,
    second: u64,
)
    requires
        response_ids(response).no_duplicates(),
    ensures
        ({
            let once = state_after_response(state, response, first);
            let twice = state_after_response(once, response, second);
            &&& twice.config == once.config
            &&& twice.data.pull_requests.pull_requests == once.data.pull_requests.pull_requests
            &&& provisioning_events(once.config, repo_names(response)) == Seq::<
                AppEventView,
            >::empty()
            &&& spec_diff(once.data.pull_requests, twice.data.pull_requests) == Seq::<
                CategoryChangesView,
            >::empty()
            &&& spec_notifications(spec_diff(once.data.pull_requests, twice.data.pull_requests))
                == Seq::<NotificationView>::empty()
        }),
{
    let once = state_after_response(state, response, first);
    let twice = state_after_response(once, response, second);
    let repos = repo_names(response);
    assert forall|k: int| 0 <= k < repos.len() implies once.config.has_policy(#[trigger] repos[k]) by {
        assert(repos.contains(repos[k]));
        lemma_with_default_policies(state.config, repos, repos[k]);
    }
    lemma_nothing_to_provision(once.config, repos);
    assert forall|i: int| 0 <= i < response.len() implies spec_item(response[i], once.config)
        == spec_item(response[i], state.config) by {
        match repo_name_of(response[i].pr.repository_url) {
            Some(repo_name) => {
                lemma_with_default_policies(state.config, repos, repo_name);
            },
            None => {
                lemma_with_default_policies(state.config, repos, Seq::empty());
            },
        }
        lemma_category_depends_on(response[i], once.config, state.config);
    }
    assert(spec_items(response, once.config) =~= spec_items(response, state.config));
    lemma_snapshot_ids(response, state.config, first);
    lemma_diff_of_unchanged_is_empty(once.data.pull_requests, twice.data.pull_requests);
}

} // verus!
