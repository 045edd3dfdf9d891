//! The schema that the running application works on.

use crate::app_data_v2::{
    AppConfigV2, AppConfigV2View, AppDataV2, AppDataV2View, PullRequestCategoryV2,
    PullRequestItemV2, PullRequestItemV2View, PullRequestsDataV2, PullRequestsDataV2View,
    RepoConfigV2, RepoConfigV2View,
};
use vstd::prelude::*;

verus! {

pub type AppConfig = AppConfigV2;

pub type AppConfigView = AppConfigV2View;

pub type AppData = AppDataV2;

pub type AppDataView = AppDataV2View;

pub type PullRequestsData = PullRequestsDataV2;

pub type PullRequestsDataView = PullRequestsDataV2View;

pub type PullRequestItem = PullRequestItemV2;

pub type PullRequestItemView = PullRequestItemV2View;

pub type PullRequestCategory = PullRequestCategoryV2;

pub type RepoConfig = RepoConfigV2;

pub type RepoConfigView = RepoConfigV2View;

} // verus!
