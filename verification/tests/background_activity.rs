use carbonpaper::background_activity::{
    active, apply_scheduler_state, blocked, classification_acknowledged, classification_committed,
    classification_deferred, classification_dispatch_rejected, classification_pending,
    classification_phase_for_pending, classification_started, clear_blocked,
    clear_classification_blocked, clear_classification_blocked_if_idle, describe,
    describe_classification, emit_summary, global_maintenance_finish, global_maintenance_start,
    index_finish, index_processed, index_progress, index_start, is_idle, maintenance_finish,
    maintenance_progress, maintenance_start, reconcile_classification_state, scheduler_no_work,
    update_blocked, ActivityState, BlockedReasons, ClassificationPhase, WorkSource,
};

#[test]
fn work_source_names_are_stable() {
    assert_eq!(WorkSource::Staged.as_str(), "staged");
    assert_eq!(WorkSource::Archive.as_str(), "archive");
}

#[test]
fn classification_phases_distinguish_commit_acknowledgement() {
    assert_eq!(ClassificationPhase::InFlight.as_str(), "in_flight");
    assert_eq!(ClassificationPhase::AckPending.as_str(), "ack_pending");
    assert_eq!(classification_phase_for_pending(0), ClassificationPhase::Idle);
    assert_eq!(
        classification_phase_for_pending(1),
        ClassificationPhase::AckPending
    );
}

#[test]
fn classification_state_preserves_in_flight_over_pending_receipts() {
    let mut state = ActivityState::new(0);
    state.classification = Some(active("classification", WorkSource::Staged, 0));
    state.classification_phase = ClassificationPhase::InFlight;
    state.classification_ack_pending = 2;
    reconcile_classification_state(&mut state);
    assert_eq!(state.classification_phase, ClassificationPhase::InFlight);
    assert!(state.classification.is_some());

    state.classification_phase = ClassificationPhase::Idle;
    reconcile_classification_state(&mut state);
    assert_eq!(state.classification_phase, ClassificationPhase::AckPending);
    assert!(state.classification.is_none());
}

#[test]
fn blocked_reason_changes_are_tracked_per_task() {
    let mut reasons = BlockedReasons::new();
    assert_eq!(
        update_blocked(&mut reasons, "semantic_index", "waiting_for_idle"),
        true
    );
    assert_eq!(
        update_blocked(&mut reasons, "semantic_index", "waiting_for_idle"),
        false
    );
    assert_eq!(
        update_blocked(&mut reasons, "clip_index", "waiting_for_idle"),
        true
    );
    assert_eq!(
        update_blocked(&mut reasons, "semantic_index", "retry_wait"),
        true
    );
}

#[test]
fn no_work_requires_every_background_subsystem_to_be_idle() {
    let mut state = ActivityState::new(0);
    assert!(is_idle(&state));
    state.classification_ack_pending = 1;
    assert!(!is_idle(&state));
    state.classification_ack_pending = 0;
    state.maintenance = Some(active("staging_reconcile", WorkSource::Staged, 0));
    assert!(!is_idle(&state));
    state.maintenance = None;
    state.global_maintenance = Some(active("migration", WorkSource::Archive, 0));
    assert!(!is_idle(&state));
    state.global_maintenance = None;
    state.last_blocked.insert("classification", "waiting_for_idle");
    assert!(!is_idle(&state));
    state.last_blocked.clear();
    assert!(is_idle(&state));
}

#[test]
fn classification_blocked_reason_clears_only_when_fully_idle() {
    let mut state = ActivityState::new(0);
    state.last_blocked.insert("classification", "waiting_for_idle");
    state.classification_phase = ClassificationPhase::AckPending;
    state.classification_ack_pending = 1;
    assert_ne!(state.classification_phase, ClassificationPhase::Idle);
    clear_classification_blocked_if_idle(&mut state);
    assert!(state.last_blocked.contains_key("classification"));

    state.classification_phase = ClassificationPhase::Idle;
    state.classification_ack_pending = 0;
    clear_classification_blocked(&mut state);
    assert!(!state.last_blocked.contains_key("classification"));
}

#[test]
fn scheduler_blocked_state_rearms_no_work_transition() {
    let mut state = ActivityState::new(0);
    state.no_work = true;

    let (transitions, became_idle) = apply_scheduler_state(
        &mut state,
        vec![("semantic_index".to_string(), "retry_wait".to_string())],
    );
    assert_eq!(transitions.len(), 1);
    assert_eq!(transitions[0].task, "semantic_index");
    assert_eq!(transitions[0].reason, "retry_wait");
    assert!(!became_idle);
    assert!(!state.no_work);
    assert_eq!(state.last_blocked.get("semantic_index"), Some("retry_wait"));

    let (transitions, became_idle) = apply_scheduler_state(&mut state, Vec::new());
    assert!(transitions.is_empty());
    assert!(became_idle);
    assert!(state.no_work);
    assert!(state.last_blocked.is_empty());
}

#[test]
fn indexing_is_followed_from_start_to_finish() {
    let mut state = ActivityState::new(0);
    index_start(&mut state, "clip_index", WorkSource::Archive, 1000);
    index_progress(&mut state, 3, 2000);
    assert_eq!(index_processed(&state), 3);
    assert!(!is_idle(&state));
    assert!(describe(&state.index, 3000).contains("clip_index"));
    let (summary, _) = emit_summary(&state, 3000);
    assert!(summary.contains("clip_index"), "{summary}");
    index_finish(&mut state);
    assert!(is_idle(&state));
    assert_eq!(index_processed(&state), 0);
}

#[test]
fn classification_goes_from_work_to_acknowledgement() {
    let mut state = ActivityState::new(0);
    classification_started(&mut state, 10);
    assert_eq!(state.classification_phase, ClassificationPhase::InFlight);
    classification_committed(&mut state, true, 1, 20);
    assert_eq!(state.classification_committed, 1);
    assert_eq!(state.classification_phase, ClassificationPhase::AckPending);
    assert!(describe_classification(&state, 30).contains("ack_pending"));
    classification_acknowledged(&mut state, 1, 40);
    assert_eq!(state.classification_phase, ClassificationPhase::Idle);
    classification_started(&mut state, 50);
    classification_deferred(&mut state);
    assert_eq!(state.classification_phase, ClassificationPhase::Idle);
    classification_started(&mut state, 60);
    classification_dispatch_rejected(&mut state);
    assert!(state.classification.is_none());
    classification_pending(&mut state, 2, false);
    assert_eq!(state.classification_ack_pending, 2);
}

#[test]
fn maintenance_tells_what_it_did() {
    let mut state = ActivityState::new(0);
    maintenance_start(&mut state, "staging_reconcile", 1000);
    maintenance_progress(&mut state, 7, 1500);
    assert_eq!(maintenance_finish(&mut state, 3000), (7, 2000));
    assert!(state.maintenance.is_none());
    global_maintenance_start(&mut state, "migration", 4000);
    assert!(!is_idle(&state));
    global_maintenance_finish(&mut state, 5000);
    assert!(is_idle(&state));
}

#[test]
fn reasons_are_told_once_until_they_change() {
    let mut state = ActivityState::new(0);
    assert!(blocked(&mut state, "clip_index", "waiting_for_idle"));
    assert!(!blocked(&mut state, "clip_index", "waiting_for_idle"));
    clear_blocked(&mut state, "clip_index");
    assert!(blocked(&mut state, "clip_index", "waiting_for_idle"));
    let gone = scheduler_no_work(&mut state, Vec::new());
    assert!(state.last_blocked.is_empty());
    assert!(gone.len() <= 1);
}
