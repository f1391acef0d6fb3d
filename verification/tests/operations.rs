use arca::error::ArcaError;
use arca::operations::{
    close_blocked_message, finished_phase, operation_label, operation_phase, CommandError, OperationPhase,
    OperationRegistry, TrackedStart,
};
use arca::progress::CoreProgressPhase;

#[test]
fn operation_handle_can_only_be_claimed_once() {
    let mut registry = OperationRegistry::default();
    let id = registry.begin("Test operation".to_owned()).unwrap();

    let claimed = registry.claim(id).unwrap();
    assert_eq!(claimed.id, id);

    let error = registry.claim(id).unwrap_err();
    assert_eq!(error.code, "usage");
    assert!(error.message.contains("already running"));
}

#[test]
fn finished_operation_handle_is_stale() {
    let mut registry = OperationRegistry::default();
    let id = registry.begin("Test operation".to_owned()).unwrap();
    let claimed = registry.claim(id).unwrap();

    assert!(registry.finish(claimed.id).unwrap().is_some());

    let error = registry.claim(id).unwrap_err();
    assert_eq!(error.code, "usage");
    assert!(error.message.contains("no longer active"));
}

#[test]
fn unclaimed_operation_can_be_discarded() {
    let mut registry = OperationRegistry::default();
    let id = registry.begin("Test operation".to_owned()).unwrap();

    assert!(registry.discard_unclaimed(id).unwrap().is_some());

    let error = registry.active(id).unwrap_err();
    assert_eq!(error.code, "usage");
    assert!(error.message.contains("no longer active"));
}

#[test]
fn claimed_operation_is_not_discarded() {
    let mut registry = OperationRegistry::default();
    let id = registry.begin("Test operation".to_owned()).unwrap();
    let claimed = registry.claim(id).unwrap();

    assert!(registry.discard_unclaimed(id).unwrap().is_none());
    assert_eq!(registry.active(id).unwrap().id, id);
    assert!(registry.finish(claimed.id).unwrap().is_some());
}

#[test]
fn queued_cancel_is_visible_after_claim() {
    let mut registry = OperationRegistry::default();
    let id = registry.begin("Test operation".to_owned()).unwrap();
    let queued = registry.active(id).unwrap();
    queued.record.cancellation.cancel();

    let claimed = registry.claim(id).unwrap();

    assert!(claimed.cancel_requested());
}

#[test]
fn operation_ids_count_up_from_one() {
    let mut registry = OperationRegistry::new();
    assert_eq!(registry.begin("first".to_owned()).unwrap(), 1);
    assert_eq!(registry.begin("second".to_owned()).unwrap(), 2);
    assert_eq!(registry.issued(), 2);
    assert_eq!(registry.active(1).unwrap().record.label, "first");
    assert_eq!(registry.active(2).unwrap().record.label, "second");
}

#[test]
fn discarding_an_unknown_operation_changes_nothing() {
    let mut registry = OperationRegistry::new();
    let id = registry.begin("kept".to_owned()).unwrap();
    assert!(registry.discard_unclaimed(id + 10).unwrap().is_none());
    assert!(registry.active(id).is_ok());
    assert!(registry.finish(id + 10).unwrap().is_none());
}

#[test]
fn cancel_request_reaches_the_queued_operation() {
    let mut registry = OperationRegistry::new();
    let id = registry.begin("Cancel me".to_owned()).unwrap();
    let operation = registry.request_cancel(id).unwrap();
    assert!(operation.cancel_requested());
    let error = registry.request_cancel(id + 1).unwrap_err();
    assert_eq!(error.code, "usage");
    assert_eq!(error.message, "operation is no longer active");
}

#[test]
fn committing_operation_cannot_be_canceled() {
    let mut registry = OperationRegistry::new();
    let id = registry.begin("Saving".to_owned()).unwrap();
    let operation = registry.active(id).unwrap();
    operation.record.committing.raise();
    let error = registry.request_cancel(id).unwrap_err();
    assert_eq!(error.code, "usage");
    assert_eq!(error.message, "operation is committing and cannot be canceled");
    assert!(!operation.cancel_requested());
    assert_eq!(registry.committing_labels().unwrap(), vec!["Saving".to_owned()]);
}

#[test]
fn committing_labels_skip_idle_operations() {
    let mut registry = OperationRegistry::new();
    registry.begin("Idle".to_owned()).unwrap();
    assert!(registry.committing_labels().unwrap().is_empty());
}

#[test]
fn deferred_exit_waits_for_active_operations() {
    let mut registry = OperationRegistry::new();
    let id = registry.begin("Busy".to_owned()).unwrap();
    registry.defer_exit(None).unwrap();
    assert_eq!(registry.take_deferred_exit_if_idle().unwrap(), None);
    registry.finish(id).unwrap();
    assert_eq!(registry.take_deferred_exit_if_idle().unwrap(), Some(0));
    assert_eq!(registry.take_deferred_exit_if_idle().unwrap(), None);
    registry.defer_exit(Some(3)).unwrap();
    assert_eq!(registry.take_deferred_exit_if_idle().unwrap(), Some(3));
}

#[test]
fn tracked_start_finishes_an_operation_canceled_while_queued() {
    let mut registry = OperationRegistry::new();
    let id = registry.begin("Queued".to_owned()).unwrap();
    registry.request_cancel(id).unwrap();
    match registry.begin_tracked(Some(id)).unwrap() {
        TrackedStart::CanceledBeforeStart(op) => assert_eq!(op.id, id),
        other => panic!("unexpected start {other:?}"),
    }
    assert!(registry.active(id).is_err());
    assert!(matches!(registry.begin_tracked(None).unwrap(), TrackedStart::Untracked));
}

#[test]
fn tracked_start_claims_a_queued_operation() {
    let mut registry = OperationRegistry::new();
    let id = registry.begin("Queued".to_owned()).unwrap();
    match registry.begin_tracked(Some(id)).unwrap() {
        TrackedStart::Running(op) => assert!(op.record.claimed),
        other => panic!("unexpected start {other:?}"),
    }
    assert!(registry.begin_tracked(Some(id)).is_err());
}

#[test]
fn blank_labels_get_a_default() {
    assert_eq!(operation_label("  \t".to_owned()), "Archive operation");
    assert_eq!(operation_label(String::new()), "Archive operation");
    assert_eq!(operation_label(" Extract ".to_owned()), " Extract ");
}

#[test]
fn finished_phase_follows_the_result() {
    assert_eq!(finished_phase(&Ok(()), true), OperationPhase::Finished);
    let interrupted = CommandError::interrupted("stopped".to_owned());
    assert_eq!(finished_phase(&Err(interrupted.clone()), true), OperationPhase::Canceled);
    assert_eq!(finished_phase(&Err(interrupted), false), OperationPhase::Failed);
    let usage = CommandError::usage("bad".to_owned());
    assert_eq!(finished_phase(&Err(usage), true), OperationPhase::Failed);
}

#[test]
fn core_phases_map_to_editor_phases() {
    assert_eq!(operation_phase(CoreProgressPhase::Starting), OperationPhase::Running);
    assert_eq!(operation_phase(CoreProgressPhase::Committing), OperationPhase::Committing);
    assert_eq!(operation_phase(CoreProgressPhase::Finished), OperationPhase::Finished);
}

#[test]
fn close_blocked_message_names_one_or_counts_many() {
    let one = vec!["Save".to_owned()];
    assert_eq!(close_blocked_message(&one, false), "Save is finishing changes. Close Arca after it finishes.");
    let many = vec!["A".to_owned(), "B".to_owned(), "C".to_owned()];
    assert_eq!(
        close_blocked_message(&many, true),
        "3 operations are finishing changes. Arca will exit after it finishes."
    );
}

#[test]
fn command_errors_carry_the_exit_class() {
    let error = CommandError::from_error(&ArcaError::Security("bad path".to_owned()));
    assert_eq!(error.code, "security");
    assert_eq!(error.message, "security policy violation: bad path");
    let error = CommandError::from_error(&ArcaError::Canceled("stop".to_owned()));
    assert_eq!(error.code, "interrupted");
    let error = CommandError::from_error(&ArcaError::NonUtf8Path("x".to_owned()));
    assert_eq!(error.code, "security");
    let error = CommandError::from_error(&ArcaError::Other("plain".to_owned()));
    assert_eq!(error.code, "general");
    assert_eq!(error.message, "plain");
}

#[test]
fn closing_waits_for_operations_that_publish() {
    let mut registry = OperationRegistry::default();
    assert_eq!(registry.close_request(Some(Some(3))), None);
    assert_eq!(registry.take_deferred_exit_if_idle().unwrap(), None);
    let id = registry.begin("Extract".to_owned()).unwrap();
    assert_eq!(registry.close_request(None), None);
    let operation = registry.active(id).unwrap();
    operation.record.committing.raise();
    assert_eq!(
        registry.close_request(None),
        Some("Extract is finishing changes. Close Arca after it finishes.".to_string())
    );
    assert_eq!(registry.take_deferred_exit_if_idle().unwrap(), None);
    assert_eq!(
        registry.close_request(Some(Some(3))),
        Some("Extract is finishing changes. Arca will exit after it finishes.".to_string())
    );
    assert_eq!(registry.take_deferred_exit_if_idle().unwrap(), None);
    registry.finish(id).unwrap();
    assert_eq!(registry.take_deferred_exit_if_idle().unwrap(), Some(3));
}

#[test]
fn close_requests_are_answered_from_the_committing_labels() {
    let mut registry = OperationRegistry::default();
    assert_eq!(registry.answer_close_request(&Vec::new(), Some(Some(3))), None);
    assert_eq!(registry.take_deferred_exit_if_idle().unwrap(), None);
    let labels = vec!["Extracting archive".to_owned()];
    assert_eq!(
        registry.answer_close_request(&labels, None).unwrap(),
        "Extracting archive is finishing changes. Close Arca after it finishes."
    );
    assert_eq!(registry.take_deferred_exit_if_idle().unwrap(), None);
    let labels = vec!["A".to_owned(), "B".to_owned()];
    assert_eq!(
        registry.answer_close_request(&labels, Some(None)).unwrap(),
        "2 operations are finishing changes. Arca will exit after it finishes."
    );
    assert_eq!(registry.take_deferred_exit_if_idle().unwrap(), Some(0));
    assert_eq!(registry.close_request(Some(Some(7))), None);
}

#[test]
fn close_blocked_message_counts_no_operation() {
    let none: Vec<String> = Vec::new();
    assert_eq!(close_blocked_message(&none, false), "0 operations are finishing changes. Close Arca after it finishes.");
}
