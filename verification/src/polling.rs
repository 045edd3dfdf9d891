//! The recurring poll: when a pass is due, what it asks of the code-hosting
//! service, and what becomes of the state when the pass has ended.

use crate::app_data::AppConfig;
use crate::app_state::{
    events_of_response, lemma_response_keeps_policies, new_pull_request_response,
    state_after_response, AppState, AppStateView,
};
use crate::event_names::{AppEvent, AppEventView, PassFailedPayload, PassFailedPayloadView};
use crate::github_service::{GithubPRWithReviews, GithubPRWithReviewsView};
use crate::notifications::{decimal, decimal_string};
use vstd::prelude::*;
use vstd::string::StringExecFns;

verus! {

/// The seconds between two scheduled passes.
pub const POLLING_INTERVAL_SECONDS: u64 = 600;

/// The seconds after which a pass is given up.
pub const REFRESH_TIMEOUT_SECONDS: u64 = 30;

/// The search that finds the pull requests that involve the viewer.
pub const SEARCH_QUERY: &'static str = "is:pr is:open involves:@me draft:false";

/// The number of pull requests that one search asks for.
pub const RESULTS_PER_PAGE: u8 = 50;

/// The timing of the recurring poll.
#[derive(Debug, Clone, Copy)]
pub struct PollingJob {
    pub interval_seconds: u64,
    pub timeout_seconds: u64,
}

/// The recurring poll with its timing: a pass every ten minutes, given up
/// after half a minute.
pub fn start_polling_job() -> (job: PollingJob)
    ensures
        job.interval_seconds == POLLING_INTERVAL_SECONDS,
        job.timeout_seconds == REFRESH_TIMEOUT_SECONDS,
{
    PollingJob {
        interval_seconds: POLLING_INTERVAL_SECONDS,
        timeout_seconds: REFRESH_TIMEOUT_SECONDS,
    }
}

/// What a pass asks of the code-hosting service.
#[derive(Debug)]
pub struct SearchRequest {
    pub token: String,
    pub query: String,
    pub per_page: u8,
}

pub struct SearchRequestView {
    pub token: Seq<char>,
    pub query: Seq<char>,
    pub per_page: u8,
}

impl View for SearchRequest {
    type V = SearchRequestView;

    open spec fn view(&self) -> SearchRequestView {
        SearchRequestView { token: self.token@, query: self.query@, per_page: self.per_page }
    }
}

/// The search that a pass starts with. Without an access token there is no
/// pass: the result is `None`.
pub fn plan_refresh(config: &AppConfig) -> (request: Option<SearchRequest>)
    ensures
        match request {
            Some(search) => config@.github_token == Some(search@.token) && search@.query
                == SEARCH_QUERY@ && search@.per_page == RESULTS_PER_PAGE,
            None => config@.github_token is None,
        },
{
    match &config.github_token {
        Some(token) => Some(
            SearchRequest {
                token: token.clone(),
                query: SEARCH_QUERY.to_string(),
                per_page: RESULTS_PER_PAGE,
            },
        ),
        None => None,
    }
}

/// How a pass ended.
#[derive(Debug)]
pub enum PassOutcome {
    /// The search came back with these pull requests.
    Completed(Vec<GithubPRWithReviews>),
    /// The search failed as a whole, with this message.
    ProviderFailed(String),
    /// The pass took longer than the timeout and was given up.
    TimedOut,
}

pub enum PassOutcomeView {
    Completed(Seq<GithubPRWithReviewsView>),
    ProviderFailed(Seq<char>),
    TimedOut,
}

impl View for PassOutcome {
    type V = PassOutcomeView;

    open spec fn view(&self) -> PassOutcomeView {
        match self {
            PassOutcome::Completed(response) => PassOutcomeView::Completed(response.deep_view()),
            PassOutcome::ProviderFailed(message) => PassOutcomeView::ProviderFailed(message@),
            PassOutcome::TimedOut => PassOutcomeView::TimedOut,
        }
    }
}

impl PassOutcomeView {
    /// The error of the pass: none where it completed, the message of the
    /// search where that failed, and the message of the timeout where the
    /// pass was given up.
    pub open spec fn error(self) -> Option<Seq<char>> {
        match self {
            PassOutcomeView::Completed(_) => None,
            PassOutcomeView::ProviderFailed(message) => Some(message),
            PassOutcomeView::TimedOut => Some(timeout_message()),
        }
    }
}

impl PassOutcome {
    /// The error of the pass, if it did not complete.
    pub fn error(&self) -> (error: Option<String>)
        ensures
            error.deep_view() == self@.error(),
    {
        match self {
            PassOutcome::Completed(_) => None,
            PassOutcome::ProviderFailed(message) => Some(message.clone()),
            PassOutcome::TimedOut => Some(timeout_text()),
        }
    }
}

/// The message of a pass that was given up.
fn timeout_text() -> (message: String)
    ensures
        message@ == timeout_message(),
{
    "Refresh operation timed out after ".to_string().concat(
        decimal_string(REFRESH_TIMEOUT_SECONDS as usize).as_str(),
    ).concat("s")
}

/// The message of a pass that was given up.
pub open spec fn timeout_message() -> Seq<char> {
    "Refresh operation timed out after "@ + decimal(REFRESH_TIMEOUT_SECONDS as nat) + "s"@
}

/// The single event that tells of a failed pass.
pub open spec fn polling_error(message: Seq<char>) -> Seq<AppEventView> {
    seq![AppEventView::PollingError(PassFailedPayloadView { error: message })]
}

/// The state after a pass: a completed pass replaces the snapshot, any other
/// leaves the state as it was.
pub open spec fn state_after_pass(state: AppStateView, outcome: PassOutcomeView, now: u64) -> AppStateView {
    match outcome {
        PassOutcomeView::Completed(response) => state_after_response(state, response, now),
        PassOutcomeView::ProviderFailed(_) => state,
        PassOutcomeView::TimedOut => state,
    }
}

/// The events of a pass: those of the response where it completed, and one
/// error event where it did not.
pub open spec fn events_of_pass(state: AppStateView, outcome: PassOutcomeView, now: u64) -> Seq<
    AppEventView,
> {
    match outcome {
        PassOutcomeView::Completed(response) => events_of_response(state, response, now),
        _ => polling_error(outcome.error().unwrap()),
    }
}

/// The single event that tells of a failed pass.
fn single_error(message: String) -> (events: Vec<AppEvent>)
    ensures
        events.deep_view() == polling_error(message@),
{
    let mut events: Vec<AppEvent> = Vec::new();
    let event = AppEvent::PollingError(PassFailedPayload { error: message });
    events.push(event);
    proof {
        assert(events.deep_view() =~= polling_error(message@));
    }
    events
}

/// Ends a pass. The response of a completed pass is taken in at the time
/// `now`. A pass that failed or was given up changes nothing and is told of in
/// one error event.
pub fn refresh_all_filters(state: &mut AppState, outcome: PassOutcome, now: u64) -> (events: Vec<
    AppEvent,
>)
    ensures
        final(state)@ == state_after_pass(old(state)@, outcome@, now),
        events.deep_view() == events_of_pass(old(state)@, outcome@, now),
{
    match outcome {
        PassOutcome::Completed(response) => new_pull_request_response(state, &response, now),
        PassOutcome::ProviderFailed(message) => single_error(message),
        PassOutcome::TimedOut => single_error(timeout_text()),
    }
}

/// No pass, however it ends, changes what a repository is asked for, nor the
/// viewer, nor the token: a policy changes only where it is set.
pub proof fn lemma_pass_keeps_policies(
    state: AppStateView,
    outcome: PassOutcomeView,
    now: u64,
    repo_name: Seq<char>,
)
    ensures
        state_after_pass(state, outcome, now).config.required_approvals(repo_name)
            == state.config.required_approvals(repo_name),
        state_after_pass(state, outcome, now).config.username == state.config.username,
        state_after_pass(state, outcome, now).config.github_token == state.config.github_token,
{
    match outcome {
        PassOutcomeView::Completed(response) => {
            lemma_response_keeps_policies(state, response, now, repo_name);
        },
        _ => {},
    }
}

} // verus!
