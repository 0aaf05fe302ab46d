use leo_constraints::update::{UpdateAction, UpdateCommand, UpdateReport, UpdateStatus};

#[test]
fn list_flag_selects_listing() {
    assert_eq!(UpdateCommand::action(true), UpdateAction::ListReleases);
    assert_eq!(UpdateCommand::action(false), UpdateAction::UpdateToLatest);
}

#[test]
fn reports_follow_outcome() {
    assert_eq!(UpdateCommand::report_update(Some(UpdateStatus::UpToDate)), UpdateReport::AlreadyLatest);
    assert_eq!(UpdateCommand::report_update(Some(UpdateStatus::Updated)), UpdateReport::UpdatedTo);
    assert_eq!(UpdateCommand::report_update(None), UpdateReport::UpdateFailed);
    assert_eq!(UpdateCommand::report_listing(false), UpdateReport::ListFailed);
    assert_eq!(UpdateCommand::report_listing(true), UpdateReport::Listed);
}
