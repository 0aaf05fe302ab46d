//! The decision of the self-update command; fetching releases and replacing
//! the binary happen outside the library.
use vstd::prelude::*;

verus! {

/// The `update` command.
#[derive(Clone, Copy, Debug, PartialEq, Eq)]
pub struct UpdateCommand;

/// What the `update` command does.
#[derive(Clone, Copy, Debug, PartialEq, Eq)]
pub enum UpdateAction {
    ListReleases,
    UpdateToLatest,
}

/// What an update attempt reported.
#[derive(Clone, Copy, Debug, PartialEq, Eq)]
pub enum UpdateStatus {
    UpToDate,
    Updated,
}

/// How the command ends.
#[derive(Clone, Copy, Debug, PartialEq, Eq)]
pub enum UpdateReport {
    AlreadyLatest,
    UpdatedTo,
    ListFailed,
    UpdateFailed,
    Listed,
}

impl UpdateCommand {
    /// `--list` shows the releases; otherwise the binary is updated.
    pub fn action(show_all_versions: bool) -> (r: UpdateAction)
        ensures
            r == (if show_all_versions { UpdateAction::ListReleases } else { UpdateAction::UpdateToLatest }),
    {
        if show_all_versions {
            UpdateAction::ListReleases
        } else {
            UpdateAction::UpdateToLatest
        }
    }

    /// The report after listing the releases.
    pub fn report_listing(fetched: bool) -> (r: UpdateReport)
        ensures
            r == (if fetched { UpdateReport::Listed } else { UpdateReport::ListFailed }),
    {
        if fetched {
            UpdateReport::Listed
        } else {
            UpdateReport::ListFailed
        }
    }

    /// The report after an update attempt: `None` for one that failed.
    pub fn report_update(outcome: Option<UpdateStatus>) -> (r: UpdateReport)
        ensures
            r == match outcome {
                Some(UpdateStatus::UpToDate) => UpdateReport::AlreadyLatest,
                Some(UpdateStatus::Updated) => UpdateReport::UpdatedTo,
                None => UpdateReport::UpdateFailed,
            },
    {
        match outcome {
            Some(UpdateStatus::UpToDate) => UpdateReport::AlreadyLatest,
            Some(UpdateStatus::Updated) => UpdateReport::UpdatedTo,
            None => UpdateReport::UpdateFailed,
        }
    }
}

} // verus!
