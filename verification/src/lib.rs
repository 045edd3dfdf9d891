//! Classifies the pull requests that involve a viewer into review-state
//! categories, keeps the current snapshot of them and says what changed
//! between two snapshots.

pub mod app_data;
pub mod app_data_v1;
pub mod app_data_v2;
pub mod app_state;
pub mod event_names;
pub mod file_storage;
pub mod github_service;
pub mod log;
pub mod notifications;
pub mod polling;
pub mod pr_predicates;

pub use app_data::{AppConfig, AppData, PullRequestItem, PullRequestsData};
pub use app_state::AppState;
