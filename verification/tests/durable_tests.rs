use cove_core::durable::{ReplaceAction, ReplaceState};
use cove_core::CoveError;

fn drive(outcomes: &[Result<(), CoveError>]) -> (Vec<ReplaceAction>, Option<Result<(), CoveError>>) {
    let mut state = ReplaceState::start();
    let mut actions = Vec::new();
    let mut it = outcomes.iter();
    while let Some(action) = state.next_action() {
        actions.push(action);
        let outcome = it.next().cloned().unwrap_or(Ok(()));
        state = state.advance(outcome);
    }
    (actions, state.outcome())
}

fn io(msg: &str) -> CoveError {
    CoveError::Io(msg.to_string())
}

#[test]
fn successful_replace_writes_syncs_renames_and_syncs_parent() {
    let (actions, result) = drive(&[]);
    assert_eq!(
        actions,
        vec![
            ReplaceAction::WriteTemp,
            ReplaceAction::SyncTemp,
            ReplaceAction::RenameIntoPlace,
            ReplaceAction::SyncParentDir,
        ]
    );
    assert_eq!(result, Some(Ok(())));
}

#[test]
fn parent_sync_failure_is_ignored() {
    let (_, result) = drive(&[Ok(()), Ok(()), Ok(()), Err(io("dir"))]);
    assert_eq!(result, Some(Ok(())));
}

#[test]
fn write_failure_removes_temp_and_reports_it() {
    let (actions, result) = drive(&[Err(io("write")), Err(io("remove"))]);
    assert_eq!(actions, vec![ReplaceAction::WriteTemp, ReplaceAction::RemoveTemp]);
    assert_eq!(result, Some(Err(io("write"))));
}

#[test]
fn sync_failure_never_renames() {
    let (actions, result) = drive(&[Ok(()), Err(io("sync"))]);
    assert_eq!(
        actions,
        vec![ReplaceAction::WriteTemp, ReplaceAction::SyncTemp, ReplaceAction::RemoveTemp]
    );
    assert_eq!(result, Some(Err(io("sync"))));
}

#[test]
fn rename_failure_removes_temp() {
    let (actions, result) = drive(&[Ok(()), Ok(()), Err(io("rename"))]);
    assert_eq!(
        actions,
        vec![
            ReplaceAction::WriteTemp,
            ReplaceAction::SyncTemp,
            ReplaceAction::RenameIntoPlace,
            ReplaceAction::RemoveTemp,
        ]
    );
    assert_eq!(result, Some(Err(io("rename"))));
}

#[test]
fn unfinished_replace_has_no_outcome() {
    assert_eq!(ReplaceState::start().outcome(), None);
    assert_eq!(ReplaceState::Published.next_action(), None);
}
