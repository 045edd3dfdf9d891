use pr_sentinel::app_data::{
    AppConfig, PullRequestCategory, PullRequestItem, PullRequestsData, RepoConfig,
};
use pr_sentinel::app_state::{
    categorized_item, get_config, get_data, map_to_app_data, new_pull_request_response,
    save_repo_config, save_token, AppState,
};
use pr_sentinel::event_names::{
    AppEvent, EventNames, FilterDataUpdatedPayload, PollingErrorPayload,
};
use pr_sentinel::github_service::{
    GithubPRReviewResponse, GithubPRWithReviews, PullRequest, Review, ReviewState,
};
use pr_sentinel::notifications::{
    decimal_string, diff_snapshots, format_titles, notify_new_pull_requests,
    pull_request_notification, subject, NotificationResult,
};
use pr_sentinel::polling::{
    plan_refresh, refresh_all_filters, start_polling_job, PassOutcome, POLLING_INTERVAL_SECONDS,
    REFRESH_TIMEOUT_SECONDS,
};

fn fetched(id: u64, author: &str, repo: &str, approvals: &[&str]) -> GithubPRWithReviews {
    GithubPRWithReviews {
        pr: PullRequest {
            id,
            title: format!("Title {}", id),
            url: format!("https://api.github.com/repos/org/{}/issues/{}", repo, id),
            repository_url: format!("https://api.github.com/repos/org/{}", repo),
            login: author.to_string(),
            avatar_url: format!("https://avatars.githubusercontent.com/{}", author),
            html_url: format!("https://github.com/org/{}/pull/{}", repo, id),
            created_at: 1_700_000_000_000_000_000,
            updated_at: 1_700_000_000_500_000_000,
            assignees: vec!["someone".to_string(), "viewer".to_string()],
        },
        reviews: approvals
            .iter()
            .map(|user| Review {
                user: Some(user.to_string()),
                state: Some(ReviewState::Approved),
                submitted_at: Some(5),
            })
            .collect(),
        reviewers: GithubPRReviewResponse { users: Vec::new() },
    }
}

fn state_of_viewer() -> AppState {
    let mut state = AppState::new();
    save_token(&mut state, "SECRET-REDACTED".to_string(), "viewer".to_string());
    state
}

fn item(id: u64, title: &str, category: PullRequestCategory) -> PullRequestItem {
    PullRequestItem {
        id,
        title: title.to_string(),
        repository_url: "https://api.github.com/repos/org/web-app".to_string(),
        login: "someone".to_string(),
        avatar_url: String::new(),
        url: String::new(),
        created_at: String::new(),
        updated_at: String::new(),
        html_url: String::new(),
        is_assigned: false,
        category,
    }
}

fn snapshot(last_updated: u64, pull_requests: Vec<PullRequestItem>) -> PullRequestsData {
    PullRequestsData { last_updated, pull_requests }
}

fn ids_of(items: &Vec<PullRequestItem>) -> Vec<u64> {
    items.iter().map(|item| item.id).collect()
}

#[test]
fn fresh_state_is_empty() {
    let state = AppState::new();
    assert_eq!(state.config.version, 2);
    assert_eq!(state.config.github_token, None);
    assert_eq!(state.config.username, None);
    assert!(state.config.repo_config.is_empty());
    assert_eq!(state.data.version, 2);
    assert_eq!(state.data.pull_requests.last_updated, 0);
    assert!(state.data.pull_requests.pull_requests.is_empty());
}

#[test]
fn entry_of_a_snapshot_carries_the_pull_request() {
    let state = state_of_viewer();
    let pr = fetched(7, "viewer", "web-app", &["a"]);
    let entry = map_to_app_data(&pr, &state.config);
    assert_eq!(entry.id, 7);
    assert_eq!(entry.title, "Title 7");
    assert_eq!(entry.url, "https://api.github.com/repos/org/web-app/issues/7");
    assert_eq!(entry.repository_url, "https://api.github.com/repos/org/web-app");
    assert_eq!(entry.login, "viewer");
    assert_eq!(entry.avatar_url, "https://avatars.githubusercontent.com/viewer");
    assert_eq!(entry.html_url, "https://github.com/org/web-app/pull/7");
    assert_eq!(entry.created_at, "2023-11-14T22:13:20+00:00");
    assert_eq!(entry.updated_at, "2023-11-14T22:13:20.500+00:00");
    assert!(entry.is_assigned);
    assert_eq!(entry.category, PullRequestCategory::MineApproved);
}

#[test]
fn entry_takes_the_texts_it_is_given() {
    let state = state_of_viewer();
    let mut pr = fetched(8, "someone", "web-app", &[]);
    pr.pr.assignees = vec!["someone".to_string()];
    let entry = categorized_item(&pr, &state.config, "then".to_string(), "now".to_string());
    assert_eq!(entry.created_at, "then");
    assert_eq!(entry.updated_at, "now");
    assert!(!entry.is_assigned);
    assert_eq!(entry.category, PullRequestCategory::ReviewMissing);
}

#[test]
fn response_replaces_the_snapshot_and_adds_default_policies() {
    let mut state = state_of_viewer();
    save_repo_config(&mut state, "org/web-app".to_string(), 2);
    let response = vec![
        fetched(1, "viewer", "web-app", &["a"]),
        fetched(2, "viewer", "tools", &["a"]),
        fetched(3, "someone", "tools", &[]),
        fetched(4, "someone", "docs", &["a"]),
    ];
    let events = new_pull_request_response(&mut state, &response, 1234);

    let now = &state.data.pull_requests;
    assert_eq!(now.last_updated, 1234);
    assert_eq!(ids_of(&now.pull_requests), vec![1, 2, 3, 4]);
    assert_eq!(now.pull_requests[0].category, PullRequestCategory::MinePending);
    assert_eq!(now.pull_requests[1].category, PullRequestCategory::MineApproved);
    assert_eq!(now.pull_requests[2].category, PullRequestCategory::ReviewMissing);
    assert_eq!(now.pull_requests[3].category, PullRequestCategory::ReviewRequested);

    let names: Vec<&str> = state.config.repo_config.iter().map(|r| r.repo_name.as_str()).collect();
    assert_eq!(names, vec!["org/web-app", "org/tools", "org/docs"]);
    assert_eq!(state.config.needed_approvals(&"org/web-app".to_string()), 2);
    assert_eq!(state.config.needed_approvals(&"org/tools".to_string()), 1);
    assert_eq!(state.config.needed_approvals(&"org/docs".to_string()), 1);

    assert_eq!(events.len(), 4);
    assert_eq!(events[0].name(), EventNames::APP_CONFIG_UPDATED);
    assert_eq!(events[1].name(), "app-config-updated");
    assert_eq!(events[2].name(), "filter-data-updated");
    assert_eq!(events[3].name(), "app-data-updated");
    match &events[0] {
        AppEvent::AppConfigUpdated(payload) => assert_eq!(payload.config.repo_config.len(), 2),
        _ => panic!("the first event tells of the first added policy"),
    }
    match &events[1] {
        AppEvent::AppConfigUpdated(payload) => assert_eq!(payload.config.repo_config.len(), 3),
        _ => panic!("the second event tells of the second added policy"),
    }
    match &events[2] {
        AppEvent::FilterDataUpdated(payload) => {
            assert_eq!(payload.old_data.last_updated, 0);
            assert!(payload.old_data.pull_requests.is_empty());
            assert_eq!(payload.new_data.last_updated, 1234);
            assert_eq!(ids_of(&payload.new_data.pull_requests), vec![1, 2, 3, 4]);
        },
        _ => panic!("the third event carries both snapshots"),
    }
    match &events[3] {
        AppEvent::AppDataUpdated(payload) => {
            assert_eq!(payload.data.version, 2);
            assert_eq!(ids_of(&payload.data.pull_requests.pull_requests), vec![1, 2, 3, 4]);
        },
        _ => panic!("the last event carries the data to store"),
    }
}

#[test]
fn second_pass_without_change_is_silent() {
    let mut state = state_of_viewer();
    let response = vec![
        fetched(1, "viewer", "web-app", &["a"]),
        fetched(2, "someone", "tools", &[]),
    ];
    let first = new_pull_request_response(&mut state, &response, 100);
    assert_eq!(first.len(), 4);
    let second = new_pull_request_response(&mut state, &response, 200);
    assert_eq!(second.len(), 2);
    match &second[0] {
        AppEvent::FilterDataUpdated(payload) => {
            assert_eq!(payload.old_data.last_updated, 100);
            assert_eq!(payload.new_data.last_updated, 200);
            assert!(diff_snapshots(&payload.old_data, &payload.new_data).is_empty());
            assert!(notify_new_pull_requests(payload).is_empty());
        },
        _ => panic!("a pass tells of both snapshots"),
    }
    assert_eq!(state.config.repo_config.len(), 2);
}

#[test]
fn policy_that_was_set_is_never_reset_by_a_pass() {
    let mut state = state_of_viewer();
    let event = save_repo_config(&mut state, "org/tools".to_string(), 3);
    assert_eq!(event.config.repo_config.len(), 1);
    let response = vec![fetched(2, "viewer", "tools", &["a", "b"])];
    new_pull_request_response(&mut state, &response, 100);
    assert_eq!(state.config.needed_approvals(&"org/tools".to_string()), 3);
    assert_eq!(state.data.pull_requests.pull_requests[0].category, PullRequestCategory::MinePending);
    assert_eq!(state.config.repo_config.len(), 1);
}

#[test]
fn setting_a_policy_replaces_the_earlier_one() {
    let mut config = AppConfig::new();
    assert_eq!(config.needed_approvals(&"org/a".to_string()), 1);
    config.set_repo_config("org/a".to_string(), 2);
    config.set_repo_config("org/b".to_string(), 4);
    config.set_repo_config("org/a".to_string(), 3);
    assert_eq!(config.needed_approvals(&"org/a".to_string()), 3);
    assert_eq!(config.needed_approvals(&"org/b".to_string()), 4);
    assert_eq!(config.needed_approvals(&"org/c".to_string()), 1);
    let names: Vec<&str> = config.repo_config.iter().map(|r| r.repo_name.as_str()).collect();
    assert_eq!(names, vec!["org/b", "org/a"]);

    config.repo_config.push(RepoConfig { repo_name: "org/b".to_string(), needed_approvals: 9 });
    assert_eq!(config.needed_approvals(&"org/b".to_string()), 4);
    config.set_repo_config("org/b".to_string(), 0);
    assert_eq!(config.repo_config.len(), 2);
    assert_eq!(config.needed_approvals(&"org/b".to_string()), 0);
}

#[test]
fn default_policy_is_added_only_where_none_stands() {
    let mut config = AppConfig::new();
    assert!(config.ensure_default("org/a".to_string()));
    assert!(!config.ensure_default("org/a".to_string()));
    assert_eq!(config.repo_config.len(), 1);
    assert_eq!(config.repo_config[0].needed_approvals, 1);
    config.set_repo_config("org/a".to_string(), 5);
    assert!(!config.ensure_default("org/a".to_string()));
    assert_eq!(config.needed_approvals(&"org/a".to_string()), 5);
}

#[test]
fn token_and_viewer_are_saved() {
    let mut state = AppState::new();
    save_repo_config(&mut state, "org/a".to_string(), 2);
    let event = save_token(&mut state, "SECRET-REDACTED".to_string(), "viewer".to_string());
    assert_eq!(event.config.github_token.as_deref(), Some("SECRET-REDACTED"));
    assert_eq!(event.config.username.as_deref(), Some("viewer"));
    let copy = get_config(&state);
    assert_eq!(copy.version, 2);
    assert_eq!(copy.github_token.as_deref(), Some("SECRET-REDACTED"));
    assert_eq!(copy.username.as_deref(), Some("viewer"));
    assert_eq!(copy.repo_config.len(), 1);
    assert_eq!(copy.repo_config[0].repo_name, "org/a");
    assert_eq!(copy.repo_config[0].needed_approvals, 2);
}

#[test]
fn replace_hands_the_previous_snapshot_back() {
    let mut state = state_of_viewer();
    let first = state.replace(snapshot(10, vec![item(1, "one", PullRequestCategory::Rereview)]));
    assert_eq!(first.last_updated, 0);
    assert!(first.pull_requests.is_empty());
    let second = state.replace(snapshot(20, Vec::new()));
    assert_eq!(second.last_updated, 10);
    assert_eq!(ids_of(&second.pull_requests), vec![1]);
    let copy = get_data(&state);
    assert_eq!(copy.version, 2);
    assert_eq!(copy.pull_requests.last_updated, 20);
    assert!(copy.pull_requests.pull_requests.is_empty());
    assert_eq!(state.config.username.as_deref(), Some("viewer"));
}

#[test]
fn diff_names_what_changed_under_its_new_category() {
    let previous = snapshot(
        1,
        vec![
            item(1, "stays", PullRequestCategory::MinePending),
            item(2, "approved", PullRequestCategory::MinePending),
            item(3, "closed", PullRequestCategory::Rereview),
            item(4, "pending again", PullRequestCategory::MineApproved),
        ],
    );
    let new = snapshot(
        2,
        vec![
            item(5, "new", PullRequestCategory::ReviewMissing),
            item(1, "stays", PullRequestCategory::MinePending),
            item(2, "approved", PullRequestCategory::MineApproved),
            item(4, "pending again", PullRequestCategory::MinePending),
            item(6, "also new", PullRequestCategory::ReviewMissing),
        ],
    );
    let diff = diff_snapshots(&previous, &new);
    assert_eq!(diff.len(), 3);
    assert_eq!(diff[0].category, PullRequestCategory::MineApproved);
    assert_eq!(ids_of(&diff[0].pull_requests), vec![2]);
    assert_eq!(diff[1].category, PullRequestCategory::ReviewMissing);
    assert_eq!(ids_of(&diff[1].pull_requests), vec![5, 6]);
    assert_eq!(diff[2].category, PullRequestCategory::MinePending);
    assert_eq!(ids_of(&diff[2].pull_requests), vec![4]);
    let all: Vec<u64> = diff.iter().flat_map(|changes| ids_of(&changes.pull_requests)).collect();
    assert!(!all.contains(&3));
    assert!(!all.contains(&1));
}

#[test]
fn diff_against_nothing_names_everything() {
    let new = snapshot(
        2,
        vec![
            item(1, "a", PullRequestCategory::ReviewRequested),
            item(2, "b", PullRequestCategory::Rereview),
        ],
    );
    let diff = diff_snapshots(&PullRequestsData::new(), &new);
    assert_eq!(diff.len(), 2);
    assert_eq!(diff[0].category, PullRequestCategory::Rereview);
    assert_eq!(diff[1].category, PullRequestCategory::ReviewRequested);
    assert!(diff_snapshots(&new, &PullRequestsData::new()).is_empty());
}

#[test]
fn notifications_tell_of_four_categories() {
    let payload = FilterDataUpdatedPayload {
        old_data: snapshot(1, vec![item(2, "Fix the parser", PullRequestCategory::MinePending)]),
        new_data: snapshot(
            2,
            vec![
                item(1, "Add a cache", PullRequestCategory::ReviewMissing),
                item(2, "Fix the parser", PullRequestCategory::MineChangesRequested),
                item(3, "Bump versions", PullRequestCategory::ReviewRequested),
                item(4, "Rename module", PullRequestCategory::Rereview),
                item(5, "Drop feature", PullRequestCategory::MinePending),
                item(6, "Speed up", PullRequestCategory::MineApproved),
                item(7, "Add tests", PullRequestCategory::ReviewMissing),
            ],
        ),
    };
    let notifications = notify_new_pull_requests(&payload);
    assert_eq!(notifications.len(), 4);
    assert_eq!(notifications[0].title, "- PRs to re-review -");
    assert_eq!(notifications[0].body, "Rename module");
    assert_eq!(notifications[1].title, "- PRs approved -");
    assert_eq!(notifications[1].body, "Speed up");
    assert_eq!(notifications[2].title, "- PRs rejected -");
    assert_eq!(notifications[2].body, "Fix the parser");
    assert_eq!(notifications[3].title, "- PRs missing review -");
    assert_eq!(notifications[3].body, "Add a cache\n\nAdd tests");
}

#[test]
fn more_than_three_pull_requests_are_counted() {
    let three = vec![
        item(1, "a", PullRequestCategory::Rereview),
        item(2, "b", PullRequestCategory::Rereview),
        item(3, "c", PullRequestCategory::Rereview),
    ];
    let named = pull_request_notification(&three, "PRs to re-review");
    assert_eq!(named.title, "- PRs to re-review -");
    assert_eq!(named.body, "a\n\nb\n\nc");
    let mut twelve = Vec::new();
    for id in 0..12 {
        twelve.push(item(id, "t", PullRequestCategory::Rereview));
    }
    let counted = pull_request_notification(&twelve, "PRs approved");
    assert_eq!(counted.body, "12 PRs approved");
    assert_eq!(format_titles(&twelve), "t\n\nt\n\nt");
    assert_eq!(format_titles(&Vec::new()), "");
    assert_eq!(pull_request_notification(&Vec::new(), "x").body, "");
}

#[test]
fn numbers_are_written_in_decimal() {
    assert_eq!(decimal_string(0), "0");
    assert_eq!(decimal_string(7), "7");
    assert_eq!(decimal_string(10), "10");
    assert_eq!(decimal_string(4096), "4096");
    assert_eq!(decimal_string(1234567890), "1234567890");
}

#[test]
fn subjects_of_the_categories() {
    assert_eq!(subject(PullRequestCategory::Rereview), Some("PRs to re-review"));
    assert_eq!(subject(PullRequestCategory::MineApproved), Some("PRs approved"));
    assert_eq!(subject(PullRequestCategory::MineChangesRequested), Some("PRs rejected"));
    assert_eq!(subject(PullRequestCategory::ReviewMissing), Some("PRs missing review"));
    assert_eq!(subject(PullRequestCategory::MinePending), None);
    assert_eq!(subject(PullRequestCategory::ReviewRequested), None);
}

#[test]
fn report_of_a_notification_carries_either_message() {
    assert_eq!(NotificationResult::from_outcome(Ok("sent".to_string())).status, "sent");
    assert_eq!(NotificationResult::from_outcome(Err("failed".to_string())).status, "failed");
}

#[test]
fn pass_that_timed_out_changes_nothing() {
    let mut state = state_of_viewer();
    let response = vec![fetched(1, "viewer", "web-app", &["a"])];
    refresh_all_filters(&mut state, PassOutcome::Completed(response), 100);
    assert_eq!(state.data.pull_requests.last_updated, 100);

    let events = refresh_all_filters(&mut state, PassOutcome::TimedOut, 200);
    assert_eq!(events.len(), 1);
    assert_eq!(events[0].name(), "polling-error");
    match &events[0] {
        AppEvent::PollingError(payload) => {
            assert_eq!(payload.error, "Refresh operation timed out after 30s")
        },
        _ => panic!("a pass that was given up is told of as an error"),
    }
    assert_eq!(state.data.pull_requests.last_updated, 100);
    assert_eq!(ids_of(&state.data.pull_requests.pull_requests), vec![1]);
    assert_eq!(state.config.repo_config.len(), 1);

    let next = vec![fetched(1, "viewer", "web-app", &["a"]), fetched(2, "viewer", "web-app", &[])];
    let events = refresh_all_filters(&mut state, PassOutcome::Completed(next), 300);
    assert_eq!(events.len(), 2);
    assert_eq!(state.data.pull_requests.last_updated, 300);
    assert_eq!(ids_of(&state.data.pull_requests.pull_requests), vec![1, 2]);
}

#[test]
fn failed_search_is_told_once_and_changes_nothing() {
    let mut state = state_of_viewer();
    let events = refresh_all_filters(
        &mut state,
        PassOutcome::ProviderFailed("Bad credentials".to_string()),
        50,
    );
    assert_eq!(events.len(), 1);
    match &events[0] {
        AppEvent::PollingError(payload) => assert_eq!(payload.error, "Bad credentials"),
        _ => panic!("a failed search is told of as an error"),
    }
    assert_eq!(state.data.pull_requests.last_updated, 0);
    assert!(state.data.pull_requests.pull_requests.is_empty());
    assert!(state.config.repo_config.is_empty());
}

#[test]
fn pull_request_without_repository_gets_a_category_and_no_policy() {
    let mut state = state_of_viewer();
    let mut odd = fetched(9, "viewer", "web-app", &["a"]);
    odd.pr.repository_url = "https://api.github.com".to_string();
    let response = vec![odd, fetched(1, "viewer", "tools", &[])];
    let events = refresh_all_filters(&mut state, PassOutcome::Completed(response), 10);
    assert_eq!(ids_of(&state.data.pull_requests.pull_requests), vec![9, 1]);
    assert_eq!(state.data.pull_requests.pull_requests[0].category, PullRequestCategory::MineApproved);
    assert_eq!(state.data.pull_requests.pull_requests[1].category, PullRequestCategory::MinePending);
    let names: Vec<&str> = state.config.repo_config.iter().map(|r| r.repo_name.as_str()).collect();
    assert_eq!(names, vec!["org/tools"]);
    assert_eq!(events.len(), 3);
}

#[test]
fn error_of_a_pass() {
    assert_eq!(PassOutcome::Completed(Vec::new()).error(), None);
    assert_eq!(
        PassOutcome::ProviderFailed("Bad credentials".to_string()).error(),
        Some("Bad credentials".to_string())
    );
    assert_eq!(
        PassOutcome::TimedOut.error(),
        Some("Refresh operation timed out after 30s".to_string())
    );
}

#[test]
fn failure_of_a_saved_search_holds_its_fields() {
    let failure = PollingErrorPayload {
        filter_id: 7,
        filter_name: "Mine".to_string(),
        error: "Bad credentials".to_string(),
        timestamp: 1234,
    };
    assert_eq!(failure.filter_id, 7);
    assert_eq!(failure.filter_name, "Mine");
    assert_eq!(failure.error, "Bad credentials");
    assert_eq!(failure.timestamp, 1234);
}

#[test]
fn pass_needs_a_token() {
    let mut state = AppState::new();
    assert!(plan_refresh(&state.config).is_none());
    save_token(&mut state, "SECRET-REDACTED".to_string(), "viewer".to_string());
    let request = plan_refresh(&state.config).unwrap();
    assert_eq!(request.token, "SECRET-REDACTED");
    assert_eq!(request.query, "is:pr is:open involves:@me draft:false");
    assert_eq!(request.per_page, 50);
}

#[test]
fn poll_runs_every_ten_minutes_with_half_a_minute_to_end() {
    let job = start_polling_job();
    assert_eq!(job.interval_seconds, 600);
    assert_eq!(job.timeout_seconds, 30);
    assert_eq!(POLLING_INTERVAL_SECONDS, 600);
    assert_eq!(REFRESH_TIMEOUT_SECONDS, 30);
}
