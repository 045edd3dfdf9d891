use pr_sentinel::app_data_v1::{
    default_repo_url, AppConfigV1, AppDataV1, GithubFilterV1, PullRequestItemPullRequestV1,
    PullRequestItemUserV1, PullRequestItemV1, PullRequestsDataV1,
};
use pr_sentinel::app_data_v2::{convert_config_to_v2, convert_data_to_v2};
use pr_sentinel::app_state::GithubFilterUpdate;
use pr_sentinel::file_storage::{config_schema, data_schema, StoredSchema, VersionOnly};
use std::collections::HashMap;

fn old_config(token: Option<&str>) -> AppConfigV1 {
    AppConfigV1 {
        version: 1,
        github_token: token.map(|t| t.to_string()),
        filters: vec![GithubFilterV1 {
            id: 0x1234_5678_9abc_def0_1234_5678_9abc_def0,
            query: "is:pr".to_string(),
            notify: true,
            name: "Mine".to_string(),
            fractional_index: vec![128],
        }],
    }
}

#[test]
fn old_configuration_keeps_its_token() {
    let converted = convert_config_to_v2(old_config(Some("SECRET-REDACTED")), Some("viewer".to_string()));
    assert_eq!(converted.version, 2);
    assert_eq!(converted.github_token.as_deref(), Some("SECRET-REDACTED"));
    assert_eq!(converted.username.as_deref(), Some("viewer"));
    assert!(converted.repo_config.is_empty());
    let without = convert_config_to_v2(old_config(None), None);
    assert_eq!(without.version, 2);
    assert_eq!(without.github_token, None);
    assert_eq!(without.username, None);
}

#[test]
fn old_data_is_not_carried_over() {
    let mut pull_requests = HashMap::new();
    pull_requests.insert(
        7u128,
        PullRequestsDataV1 {
            last_updated: 99,
            pull_requests: vec![PullRequestItemV1 {
                id: 1,
                title: "Old".to_string(),
                repository_url: default_repo_url(),
                user: PullRequestItemUserV1 {
                    login: "someone".to_string(),
                    avatar_url: String::new(),
                },
                url: String::new(),
                created_at: String::new(),
                updated_at: String::new(),
                pull_request: PullRequestItemPullRequestV1 { html_url: String::new() },
            }],
        },
    );
    let converted = convert_data_to_v2(AppDataV1 { version: 1, pull_requests });
    assert_eq!(converted.version, 2);
    assert_eq!(converted.pull_requests.last_updated, 0);
    assert!(converted.pull_requests.pull_requests.is_empty());
}

#[test]
fn versions_one_and_two_can_be_loaded() {
    assert_eq!(pr_sentinel::file_storage::default_version(), 1);
    assert_eq!(pr_sentinel::app_data_v1::default_version(), 1);
    assert_eq!(default_repo_url(), "");
    assert_eq!(config_schema(&VersionOnly { version: 1 }), Ok(StoredSchema::V1));
    assert_eq!(config_schema(&VersionOnly { version: 2 }), Ok(StoredSchema::V2));
    assert_eq!(
        config_schema(&VersionOnly { version: 3 }),
        Err("Unsupported config version".to_string())
    );
    assert_eq!(
        config_schema(&VersionOnly { version: 0 }),
        Err("Unsupported config version".to_string())
    );
    assert_eq!(data_schema(&VersionOnly { version: 1 }), Ok(StoredSchema::V1));
    assert_eq!(data_schema(&VersionOnly { version: 2 }), Ok(StoredSchema::V2));
    assert_eq!(
        data_schema(&VersionOnly { version: 255 }),
        Err("Unsupported data version".to_string())
    );
}

#[test]
fn log_lines_hold_time_level_and_message() {
    assert_eq!(
        pr_sentinel::log::error("No github token found", "2024-05-01 10:00:00 +02:00"),
        "2024-05-01 10:00:00 +02:00 [ERROR] No github token found"
    );
    assert_eq!(
        pr_sentinel::log::info("Fetching PRs", "2024-05-01 10:00:01 +02:00"),
        "2024-05-01 10:00:01 +02:00 [INFO] Fetching PRs"
    );
    assert_eq!(pr_sentinel::log::info("", ""), " [INFO] ");
}

#[test]
fn edited_filter_holds_its_fields() {
    let update = GithubFilterUpdate {
        query: "is:pr".to_string(),
        notify: false,
        name: "All".to_string(),
    };
    assert_eq!(update.query, "is:pr");
    assert!(!update.notify);
    assert_eq!(update.name, "All");
}
