//! The events by which the library tells its surroundings what changed, and
//! what each of them carries.

use crate::app_data::{
    AppConfig, AppConfigView, AppData, AppDataView, PullRequestsData, PullRequestsDataView,
};
use vstd::prelude::*;

verus! {

/// The names under which the events are sent.
pub struct EventNames;

impl EventNames {
    pub const POLLING_ERROR: &'static str = "polling-error";

    pub const FILTER_DATA_UPDATED: &'static str = "filter-data-updated";

    pub const APP_CONFIG_UPDATED: &'static str = "app-config-updated";

    pub const APP_DATA_UPDATED: &'static str = "app-data-updated";
}

/// The persisted data changed: `data` is what is to be stored.
#[derive(Debug)]
pub struct AppDataUpdatedPayload {
    pub data: AppData,
}

pub struct AppDataUpdatedPayloadView {
    pub data: AppDataView,
}

impl View for AppDataUpdatedPayload {
    type V = AppDataUpdatedPayloadView;

    open spec fn view(&self) -> AppDataUpdatedPayloadView {
        AppDataUpdatedPayloadView { data: self.data@ }
    }
}

/// A poll replaced the snapshot `old_data` by `new_data`.
#[derive(Debug)]
pub struct FilterDataUpdatedPayload {
    pub new_data: PullRequestsData,
    pub old_data: PullRequestsData,
}

pub struct FilterDataUpdatedPayloadView {
    pub new_data: PullRequestsDataView,
    pub old_data: PullRequestsDataView,
}

impl View for FilterDataUpdatedPayload {
    type V = FilterDataUpdatedPayloadView;

    open spec fn view(&self) -> FilterDataUpdatedPayloadView {
        FilterDataUpdatedPayloadView { new_data: self.new_data@, old_data: self.old_data@ }
    }
}

/// The configuration changed: `config` is what is to be stored.
#[derive(Debug)]
pub struct AppConfigUpdatedPayload {
    pub config: AppConfig,
}

pub struct AppConfigUpdatedPayloadView {
    pub config: AppConfigView,
}

impl View for AppConfigUpdatedPayload {
    type V = AppConfigUpdatedPayloadView;

    open spec fn view(&self) -> AppConfigUpdatedPayloadView {
        AppConfigUpdatedPayloadView { config: self.config@ }
    }
}

/// The failure of the poll of one saved search: the 128-bit identifier and
/// the name of the search, what went wrong, and when, in seconds since the
/// Unix epoch.
#[derive(Debug)]
pub struct PollingErrorPayload {
    pub filter_id: u128,
    pub filter_name: String,
    pub error: String,
    pub timestamp: u64,
}

pub struct PollingErrorPayloadView {
    pub filter_id: u128,
    pub filter_name: Seq<char>,
    pub error: Seq<char>,
    pub timestamp: u64,
}

impl View for PollingErrorPayload {
    type V = PollingErrorPayloadView;

    open spec fn view(&self) -> PollingErrorPayloadView {
        PollingErrorPayloadView {
            filter_id: self.filter_id,
            filter_name: self.filter_name@,
            error: self.error@,
            timestamp: self.timestamp,
        }
    }
}

/// A pass failed as a whole: `error` says why.
#[derive(Debug)]
pub struct PassFailedPayload {
    pub error: String,
}

pub struct PassFailedPayloadView {
    pub error: Seq<char>,
}

impl View for PassFailedPayload {
    type V = PassFailedPayloadView;

    open spec fn view(&self) -> PassFailedPayloadView {
        PassFailedPayloadView { error: self.error@ }
    }
}

/// An event with what it carries.
#[derive(Debug)]
pub enum AppEvent {
    PollingError(PassFailedPayload),
    FilterDataUpdated(FilterDataUpdatedPayload),
    AppConfigUpdated(AppConfigUpdatedPayload),
    AppDataUpdated(AppDataUpdatedPayload),
}

pub enum AppEventView {
    PollingError(PassFailedPayloadView),
    FilterDataUpdated(FilterDataUpdatedPayloadView),
    AppConfigUpdated(AppConfigUpdatedPayloadView),
    AppDataUpdated(AppDataUpdatedPayloadView),
}

impl View for AppEvent {
    type V = AppEventView;

    open spec fn view(&self) -> AppEventView {
        match self {
            AppEvent::PollingError(payload) => AppEventView::PollingError(payload@),
            AppEvent::FilterDataUpdated(payload) => AppEventView::FilterDataUpdated(payload@),
            AppEvent::AppConfigUpdated(payload) => AppEventView::AppConfigUpdated(payload@),
            AppEvent::AppDataUpdated(payload) => AppEventView::AppDataUpdated(payload@),
        }
    }
}

impl DeepView for AppEvent {
    type V = AppEventView;

    open spec fn deep_view(&self) -> AppEventView {
        self@
    }
}

impl AppEvent {
    /// The name under which the event is sent.
    pub fn name(&self) -> (name: &'static str)
        ensures
            name@ == match self {
                AppEvent::PollingError(_) => EventNames::POLLING_ERROR@,
                AppEvent::FilterDataUpdated(_) => EventNames::FILTER_DATA_UPDATED@,
                AppEvent::AppConfigUpdated(_) => EventNames::APP_CONFIG_UPDATED@,
                AppEvent::AppDataUpdated(_) => EventNames::APP_DATA_UPDATED@,
            },
    {
        match self {
            AppEvent::PollingError(_) => EventNames::POLLING_ERROR,
            AppEvent::FilterDataUpdated(_) => EventNames::FILTER_DATA_UPDATED,
            AppEvent::AppConfigUpdated(_) => EventNames::APP_CONFIG_UPDATED,
            AppEvent::AppDataUpdated(_) => EventNames::APP_DATA_UPDATED,
        }
    }
}

} // verus!
