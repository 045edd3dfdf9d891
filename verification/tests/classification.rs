use pr_sentinel::app_data::{AppConfig, PullRequestCategory, RepoConfig};
use pr_sentinel::app_state::get_category_from_reviews;
use pr_sentinel::github_service::{
    get_owner_and_repo, names_owner_and_repo, GithubPRReviewResponse, GithubPRWithReviews,
    PullRequest, Review, ReviewState,
};
use pr_sentinel::pr_predicates::{
    first_matching_category, get_latest_review, group_by_user, is_user_review_requested,
    latest_reviews, mine_approved, mine_changes_requested, needed_approvals, pr_categories,
    pr_repo_name, re_review, review_missing, CategoryPredicate, Predicate,
};

const WEB_APP: &str = "https://api.github.com/repos/org/web-app";

fn pull_request(id: u64, author: &str, repository_url: &str) -> PullRequest {
    PullRequest {
        id,
        title: format!("Pull request {}", id),
        url: format!("https://api.github.com/repos/org/web-app/issues/{}", id),
        repository_url: repository_url.to_string(),
        login: author.to_string(),
        avatar_url: "https://avatars.githubusercontent.com/u/1".to_string(),
        html_url: format!("https://github.com/org/web-app/pull/{}", id),
        created_at: 1_700_000_000_000_000_000,
        updated_at: 1_700_000_100_000_000_000,
        assignees: Vec::new(),
    }
}

fn review(user: &str, state: ReviewState, submitted_at: i64) -> Review {
    Review { user: Some(user.to_string()), state: Some(state), submitted_at: Some(submitted_at) }
}

fn with_reviews(id: u64, author: &str, reviews: Vec<Review>, asked: &[&str]) -> GithubPRWithReviews {
    GithubPRWithReviews {
        pr: pull_request(id, author, WEB_APP),
        reviews,
        reviewers: GithubPRReviewResponse { users: asked.iter().map(|u| u.to_string()).collect() },
    }
}

fn config(viewer: &str, needed_approvals: usize) -> AppConfig {
    AppConfig {
        version: 2,
        github_token: Some("SECRET-REDACTED".to_string()),
        username: Some(viewer.to_string()),
        repo_config: vec![RepoConfig { repo_name: "org/web-app".to_string(), needed_approvals }],
    }
}

#[test]
fn own_pull_request_needs_two_approvals() {
    let config = config("viewer", 2);
    let mut pr = with_reviews(10, "viewer", vec![review("a", ReviewState::Approved, 100)], &[]);
    assert_eq!(get_category_from_reviews(&pr, &config), PullRequestCategory::MinePending);
    pr.reviews.push(review("b", ReviewState::Approved, 200));
    assert_eq!(get_category_from_reviews(&pr, &config), PullRequestCategory::MineApproved);
}

#[test]
fn review_of_the_viewer_ends_review_missing() {
    let config = config("viewer", 1);
    let mut pr = with_reviews(20, "someone", Vec::new(), &["viewer"]);
    assert_eq!(get_category_from_reviews(&pr, &config), PullRequestCategory::ReviewMissing);

    pr.reviewers.users.clear();
    pr.reviews.push(review("viewer", ReviewState::Commented, 100));
    assert_eq!(get_category_from_reviews(&pr, &config), PullRequestCategory::ReviewRequested);

    pr.reviewers.users.push("viewer".to_string());
    pr.reviews.push(review("viewer", ReviewState::Dismissed, 200));
    assert_eq!(get_category_from_reviews(&pr, &config), PullRequestCategory::Rereview);
}

#[test]
fn dismissed_review_alone_asks_for_another_review() {
    let config = config("viewer", 1);
    let pr = with_reviews(
        21,
        "someone",
        vec![
            review("viewer", ReviewState::Approved, 100),
            review("viewer", ReviewState::Dismissed, 200),
        ],
        &[],
    );
    assert_eq!(get_category_from_reviews(&pr, &config), PullRequestCategory::Rereview);
}

#[test]
fn request_to_the_viewer_who_reviewed_asks_for_another_review() {
    let config = config("viewer", 1);
    let pr = with_reviews(
        22,
        "someone",
        vec![review("viewer", ReviewState::Approved, 100)],
        &["viewer"],
    );
    assert_eq!(get_category_from_reviews(&pr, &config), PullRequestCategory::Rereview);
}

#[test]
fn changes_requested_comes_before_approved() {
    let config = config("viewer", 1);
    let pr = with_reviews(
        23,
        "viewer",
        vec![
            review("a", ReviewState::Approved, 100),
            review("b", ReviewState::ChangesRequested, 50),
        ],
        &[],
    );
    assert_eq!(get_category_from_reviews(&pr, &config), PullRequestCategory::MineChangesRequested);
}

#[test]
fn later_approval_replaces_request_for_changes() {
    let config = config("viewer", 1);
    let pr = with_reviews(
        24,
        "viewer",
        vec![
            review("a", ReviewState::ChangesRequested, 100),
            review("a", ReviewState::Approved, 200),
        ],
        &[],
    );
    assert_eq!(get_category_from_reviews(&pr, &config), PullRequestCategory::MineApproved);
}

#[test]
fn comment_after_approval_keeps_the_approval() {
    let config = config("viewer", 1);
    let pr = with_reviews(
        25,
        "viewer",
        vec![
            review("a", ReviewState::Approved, 100),
            review("a", ReviewState::Commented, 200),
        ],
        &[],
    );
    assert_eq!(get_category_from_reviews(&pr, &config), PullRequestCategory::MineApproved);
    let standing = latest_reviews(&pr);
    assert_eq!(standing.len(), 1);
    assert_eq!(standing[0].0.state, Some(ReviewState::Approved));
    assert_eq!(standing[0].0.submitted_at, Some(100));
    assert!(!standing[0].1);
}

#[test]
fn request_takes_a_decisive_approval_back() {
    let config = config("viewer", 2);
    let reviews = vec![
        review("a", ReviewState::Approved, 100),
        review("b", ReviewState::Approved, 200),
    ];
    let approved = with_reviews(26, "viewer", reviews.clone(), &[]);
    assert_eq!(get_category_from_reviews(&approved, &config), PullRequestCategory::MineApproved);
    let asked_again = with_reviews(26, "viewer", reviews.clone(), &["b"]);
    assert_eq!(get_category_from_reviews(&asked_again, &config), PullRequestCategory::MinePending);
}

#[test]
fn request_takes_a_request_for_changes_back() {
    let config = config("viewer", 1);
    let pr = with_reviews(
        27,
        "viewer",
        vec![review("a", ReviewState::ChangesRequested, 100)],
        &["a"],
    );
    assert_eq!(get_category_from_reviews(&pr, &config), PullRequestCategory::MinePending);
}

#[test]
fn repository_without_policy_needs_one_approval() {
    let mut config = config("viewer", 5);
    config.repo_config.clear();
    let pr = with_reviews(28, "viewer", vec![review("a", ReviewState::Approved, 100)], &[]);
    assert_eq!(get_category_from_reviews(&pr, &config), PullRequestCategory::MineApproved);
}

#[test]
fn enough_reviews_of_others_leave_review_requested() {
    let config = config("viewer", 1);
    let pr = with_reviews(29, "someone", vec![review("a", ReviewState::Commented, 100)], &[]);
    assert_eq!(get_category_from_reviews(&pr, &config), PullRequestCategory::ReviewRequested);
    let two_needed = config_needing_two();
    assert_eq!(get_category_from_reviews(&pr, &two_needed), PullRequestCategory::ReviewMissing);
}

fn config_needing_two() -> AppConfig {
    config("viewer", 2)
}

#[test]
fn reviews_without_a_user_are_left_out() {
    let reviews = vec![
        Review { user: None, state: Some(ReviewState::Approved), submitted_at: Some(10) },
        review("a", ReviewState::Commented, 20),
        review("b", ReviewState::Approved, 30),
        review("a", ReviewState::Approved, 40),
    ];
    let groups = group_by_user(&reviews);
    assert_eq!(groups.len(), 2);
    assert_eq!(groups[0].0, "a");
    assert_eq!(groups[0].1.len(), 2);
    assert_eq!(groups[0].1[0].submitted_at, Some(20));
    assert_eq!(groups[0].1[1].submitted_at, Some(40));
    assert_eq!(groups[1].0, "b");
    assert_eq!(groups[1].1.len(), 1);

    let config = config("viewer", 2);
    let pr = with_reviews(30, "viewer", reviews, &[]);
    assert_eq!(get_category_from_reviews(&pr, &config), PullRequestCategory::MineApproved);
}

#[test]
fn latest_review_is_the_last_of_the_latest() {
    let reviews = vec![
        review("a", ReviewState::Commented, 300),
        review("a", ReviewState::Approved, 100),
        review("a", ReviewState::Dismissed, 300),
        Review { user: Some("a".to_string()), state: Some(ReviewState::Pending), submitted_at: None },
    ];
    let latest = get_latest_review(&reviews);
    assert_eq!(latest.state, Some(ReviewState::Dismissed));
    assert_eq!(latest.submitted_at, Some(300));

    let undated = vec![
        Review { user: None, state: Some(ReviewState::Pending), submitted_at: None },
        Review { user: None, state: Some(ReviewState::Commented), submitted_at: None },
    ];
    assert_eq!(get_latest_review(&undated).state, Some(ReviewState::Commented));
}

#[test]
fn standing_reviews_carry_the_request_flag() {
    let pr = with_reviews(
        31,
        "viewer",
        vec![
            review("a", ReviewState::Approved, 100),
            review("b", ReviewState::Commented, 200),
            review("b", ReviewState::Pending, 300),
        ],
        &["b", "c"],
    );
    let standing = latest_reviews(&pr);
    assert_eq!(standing.len(), 2);
    assert_eq!(standing[0].0.user.as_deref(), Some("a"));
    assert!(!standing[0].1);
    assert_eq!(standing[1].0.user.as_deref(), Some("b"));
    assert_eq!(standing[1].0.state, Some(ReviewState::Pending));
    assert!(standing[1].1);
    assert!(is_user_review_requested(&pr, &"c".to_string()));
    assert!(!is_user_review_requested(&pr, &"a".to_string()));
}

#[test]
fn viewer_without_a_name_owns_nothing() {
    let mut config = config("viewer", 1);
    config.username = None;
    let pr = with_reviews(32, "viewer", Vec::new(), &[]);
    assert_eq!(get_category_from_reviews(&pr, &config), PullRequestCategory::ReviewMissing);
}

#[test]
fn first_matching_rule_wins_and_no_rule_gives_none() {
    let config = config("viewer", 1);
    let mine = with_reviews(33, "viewer", Vec::new(), &[]);
    let rules = pr_categories();
    assert_eq!(rules.len(), 6);
    assert_eq!(
        first_matching_category(&rules, &mine, &config),
        Some(PullRequestCategory::MinePending)
    );
    let only_others = vec![
        CategoryPredicate {
            predicate: Predicate::ReviewMissing,
            category: PullRequestCategory::ReviewMissing,
        },
        CategoryPredicate {
            predicate: Predicate::ReviewRequested,
            category: PullRequestCategory::ReviewRequested,
        },
    ];
    assert_eq!(first_matching_category(&only_others, &mine, &config), None);
    let swapped = vec![
        CategoryPredicate {
            predicate: Predicate::MinePending,
            category: PullRequestCategory::MineApproved,
        },
        CategoryPredicate {
            predicate: Predicate::MinePending,
            category: PullRequestCategory::MinePending,
        },
    ];
    assert_eq!(
        first_matching_category(&swapped, &mine, &config),
        Some(PullRequestCategory::MineApproved)
    );
    assert!(Predicate::MinePending.holds(&mine, &config));
    assert!(!Predicate::ReviewRequested.holds(&mine, &config));
}

#[test]
fn owner_and_repository_are_the_fifth_and_sixth_piece() {
    let (owner, repo) = get_owner_and_repo(WEB_APP.to_string());
    assert_eq!(owner, "org");
    assert_eq!(repo, "web-app");
    let (owner, repo) = get_owner_and_repo("a/b/c/d//f/g".to_string());
    assert_eq!(owner, "");
    assert_eq!(repo, "f");
    let (owner, repo) = get_owner_and_repo("/////".to_string());
    assert_eq!(owner, "");
    assert_eq!(repo, "");
}

#[test]
fn pull_request_names_its_repository() {
    let pr = with_reviews(34, "viewer", Vec::new(), &[]);
    assert!(names_owner_and_repo(&pr.pr.repository_url));
    assert_eq!(pr_repo_name(&pr).as_deref(), Some("org/web-app"));
    let mut short = with_reviews(35, "viewer", Vec::new(), &[]);
    short.pr.repository_url = "https://api.github.com/repos/org".to_string();
    assert!(!names_owner_and_repo(&short.pr.repository_url));
    assert_eq!(pr_repo_name(&short), None);
    short.pr.repository_url = String::new();
    assert!(!names_owner_and_repo(&short.pr.repository_url));
    assert_eq!(pr_repo_name(&short), None);
}

#[test]
fn address_without_repository_is_asked_for_one_approval() {
    let config = config("viewer", 3);
    let mut mine = with_reviews(40, "viewer", vec![review("a", ReviewState::Approved, 1)], &[]);
    assert_eq!(needed_approvals(&mine, &config), 3);
    assert_eq!(get_category_from_reviews(&mine, &config), PullRequestCategory::MinePending);
    mine.pr.repository_url = "https://api.github.com/repos".to_string();
    assert_eq!(needed_approvals(&mine, &config), 1);
    assert_eq!(get_category_from_reviews(&mine, &config), PullRequestCategory::MineApproved);
    mine.pr.repository_url = String::new();
    assert_eq!(get_category_from_reviews(&mine, &config), PullRequestCategory::MineApproved);

    let mut theirs = with_reviews(41, "someone", Vec::new(), &[]);
    theirs.pr.repository_url = "no slashes".to_string();
    assert_eq!(get_category_from_reviews(&theirs, &config), PullRequestCategory::ReviewMissing);
    let mut nobody = config;
    nobody.username = None;
    assert_eq!(get_category_from_reviews(&theirs, &nobody), PullRequestCategory::ReviewMissing);
}

#[test]
fn later_dismissal_takes_the_approval_back() {
    let mut config = config("viewer", 1);
    config.repo_config.clear();
    let day: i64 = 86_400_000_000_000;
    let first_of_january: i64 = 1_704_067_200_000_000_000;
    let pr = with_reviews(
        42,
        "viewer",
        vec![
            review("A", ReviewState::Approved, first_of_january),
            review("A", ReviewState::Dismissed, first_of_january + day),
        ],
        &[],
    );
    let standing = latest_reviews(&pr);
    assert_eq!(standing.len(), 1);
    assert_eq!(standing[0].0.state, Some(ReviewState::Dismissed));
    assert_eq!(standing[0].0.submitted_at, Some(first_of_january + day));
    assert!(!mine_approved(&pr, &config));
    assert!(!mine_changes_requested(&pr, &config));
    assert_eq!(get_category_from_reviews(&pr, &config), PullRequestCategory::MinePending);
}

#[test]
fn later_dismissal_takes_the_request_for_changes_back() {
    let config = config("viewer", 1);
    let pr = with_reviews(
        43,
        "viewer",
        vec![
            review("a", ReviewState::ChangesRequested, 100),
            review("a", ReviewState::Dismissed, 200),
            review("a", ReviewState::Commented, 300),
        ],
        &[],
    );
    let standing = latest_reviews(&pr);
    assert_eq!(standing[0].0.state, Some(ReviewState::Dismissed));
    assert_eq!(get_category_from_reviews(&pr, &config), PullRequestCategory::MinePending);
}

#[test]
fn comment_after_dismissal_counts_where_the_user_never_voted() {
    let first_of_january: i64 = 1_704_067_200_000_000_000;
    let day: i64 = 86_400_000_000_000;
    let pr = with_reviews(
        47,
        "viewer",
        vec![
            review("A", ReviewState::Dismissed, first_of_january),
            review("A", ReviewState::Commented, first_of_january + day),
        ],
        &[],
    );
    let standing = latest_reviews(&pr);
    assert_eq!(standing.len(), 1);
    assert_eq!(standing[0].0.state, Some(ReviewState::Commented));
    assert_eq!(standing[0].0.submitted_at, Some(first_of_january + day));

    let pending_last = with_reviews(
        48,
        "viewer",
        vec![
            review("a", ReviewState::Commented, 50),
            review("a", ReviewState::Dismissed, 100),
            review("a", ReviewState::Pending, 200),
        ],
        &[],
    );
    let standing = latest_reviews(&pending_last);
    assert_eq!(standing[0].0.state, Some(ReviewState::Pending));
    assert_eq!(standing[0].0.submitted_at, Some(200));

    let dismissed_last = with_reviews(
        49,
        "viewer",
        vec![
            review("a", ReviewState::Commented, 50),
            review("a", ReviewState::Dismissed, 100),
        ],
        &[],
    );
    assert_eq!(latest_reviews(&dismissed_last)[0].0.state, Some(ReviewState::Dismissed));
    let config = config("viewer", 1);
    assert_eq!(get_category_from_reviews(&pr, &config), PullRequestCategory::MinePending);
}

#[test]
fn approval_after_dismissal_stands() {
    let config = config("viewer", 1);
    let pr = with_reviews(
        44,
        "viewer",
        vec![
            review("a", ReviewState::Dismissed, 200),
            review("a", ReviewState::Approved, 300),
            review("a", ReviewState::Pending, 400),
        ],
        &[],
    );
    let standing = latest_reviews(&pr);
    assert_eq!(standing[0].0.state, Some(ReviewState::Approved));
    assert_eq!(standing[0].0.submitted_at, Some(300));
    assert_eq!(get_category_from_reviews(&pr, &config), PullRequestCategory::MineApproved);
}

#[test]
fn rules_can_be_asked_one_by_one() {
    let config = config("viewer", 2);
    let theirs = with_reviews(
        45,
        "someone",
        vec![review("viewer", ReviewState::Commented, 100)],
        &["viewer"],
    );
    assert!(re_review(&theirs, &config));
    assert!(!review_missing(&theirs, &config));
    assert!(!mine_approved(&theirs, &config));
    let unseen = with_reviews(46, "someone", vec![review("a", ReviewState::Approved, 1)], &[]);
    assert!(!re_review(&unseen, &config));
    assert!(review_missing(&unseen, &config));
}

#[test]
fn missing_details_count_as_empty() {
    let kept = GithubPRWithReviews::with_details(pull_request(36, "viewer", WEB_APP), None, None);
    assert_eq!(kept.pr.id, 36);
    assert!(kept.reviews.is_empty());
    assert!(kept.reviewers.users.is_empty());
    let full = GithubPRWithReviews::with_details(
        pull_request(37, "viewer", WEB_APP),
        Some(GithubPRReviewResponse { users: vec!["a".to_string()] }),
        Some(vec![review("b", ReviewState::Approved, 1)]),
    );
    assert_eq!(full.reviewers.users, vec!["a".to_string()]);
    assert_eq!(full.reviews.len(), 1);
    assert_eq!(full.reviews[0].user.as_deref(), Some("b"));
}
