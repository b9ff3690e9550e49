use carbonpaper::adaptive::AdaptiveRuntime;
use carbonpaper::background_activity::WorkSource;
use carbonpaper::background_policy::{ExecutionProfile, SchedulingMode};
use carbonpaper::background_scheduler::{
    deferred_release_note, select_admitted_task, select_next_runnable_task, select_next_task,
    selection_step, task_feature_enabled_with_config, AutomaticSliceContext,
    AutomaticSliceStopReason, BackgroundTaskKind, BackgroundTaskState, ScheduledSliceResult,
    SelectionStep, MAX_RETRY_DELAY_SECS, TASK_CLIP_INDEX, TASK_SEMANTIC_INDEX, TASK_SMART_CLUSTER,
};
use carbonpaper::scheduler_state::{
    environment_gate_reason, execute_slice, gate_reason, gate_reason_for_kind, has_pending,
    known_failures, queue_depths, refresh_backlog, retry_delay, settle_result,
    should_refresh_backlog, startup_wake, BackgroundSchedulerState, EnvironmentPolicy,
    FailureFacts, GateFacts, IdleState, KindGateFacts, PassAdmission, PassSelection, QueueDepths,
    SchedulerWake, SliceAction, SlicePlan, StartPlan,
};

#[test]
fn capture_postprocess_runs_during_activity_while_bulk_work_waits() {
    let mut idle = IdleState::new();
    for (ac_connected, fullscreen, bulk_reason) in [
        (true, false, "waiting_for_idle"),
        (false, false, "waiting_for_ac_power"),
        (true, true, "waiting_for_fullscreen"),
    ] {
        idle.ac_connected = ac_connected;
        idle.fullscreen_exclusive = fullscreen;
        assert_eq!(
            EnvironmentPolicy::Immediate.gate_reason(false, &idle, false),
            None,
        );
        assert_eq!(
            EnvironmentPolicy::IdleOnly.gate_reason(false, &idle, false),
            Some(bulk_reason),
        );
    }
}

#[test]
fn postprocess_and_bulk_work_keep_maintenance_and_foreground_guards() {
    let mut idle = IdleState::new();
    idle.is_idle = true;
    for policy in [EnvironmentPolicy::Immediate, EnvironmentPolicy::IdleOnly] {
        assert_eq!(policy.gate_reason(true, &idle, false), Some("maintenance"));
        assert_eq!(
            policy.gate_reason(false, &idle, true),
            Some("foreground_request"),
        );
        assert_eq!(policy.gate_reason(false, &idle, false), None);
    }
}

fn task(kind: &str, ready: i64, manual: bool, seq: u64) -> BackgroundTaskState {
    BackgroundTaskState {
        task_kind: kind.to_string(),
        ready_since_ms: ready,
        next_attempt_at_ms: 0,
        failure_count: 0,
        last_served_seq: seq,
        last_error: None,
        last_completed_at_ms: None,
        status: "queued".to_string(),
        manual_pending: manual,
        manual_in_flight: false,
    }
}

#[test]
fn manual_requests_win_until_automatic_work_ages() {
    let tasks = vec![
        task(TASK_SEMANTIC_INDEX, 0, false, 1),
        task(TASK_CLIP_INDEX, 100, true, 2),
    ];
    assert_eq!(
        select_next_task(&tasks, 200, 1_000),
        Some(BackgroundTaskKind::ClipIndex)
    );
    assert_eq!(
        select_next_task(&tasks, 2_000, 1_000),
        Some(BackgroundTaskKind::SemanticIndex)
    );
}

#[test]
fn an_aged_automatic_task_preempts_an_older_manual_row() {
    let tasks = vec![
        task(TASK_CLIP_INDEX, 0, true, 1),
        task(TASK_SEMANTIC_INDEX, 100, false, 2),
    ];
    assert_eq!(
        select_next_task(&tasks, 1_100, 1_000),
        Some(BackgroundTaskKind::SemanticIndex)
    );
}

#[test]
fn a_blocked_aged_automatic_task_does_not_hide_a_manual_smart_cluster_drain() {
    let tasks = vec![
        task(TASK_CLIP_INDEX, 0, false, 1),
        task(TASK_SMART_CLUSTER, 900, true, 2),
    ];
    let selected = select_next_runnable_task(&tasks, 2_000, 1_000, |task| task.manual_pending);
    assert_eq!(selected, Some((BackgroundTaskKind::SmartCluster, true)));
}

#[test]
fn an_explicit_smart_cluster_drain_precedes_aged_automatic_work() {
    let tasks = vec![
        task(TASK_CLIP_INDEX, 0, false, 1),
        task(TASK_SMART_CLUSTER, 900, true, 2),
    ];
    assert_eq!(
        select_next_runnable_task(&tasks, 2_000, 1_000, |_| true),
        Some((BackgroundTaskKind::SmartCluster, true))
    );
    assert_eq!(
        select_admitted_task(&tasks, &[true, true], 2_000, 1_000),
        Some((BackgroundTaskKind::SmartCluster, true))
    );
    assert_eq!(
        select_admitted_task(&tasks, &[true, false], 2_000, 1_000),
        Some((BackgroundTaskKind::ClipIndex, false))
    );
}

#[test]
fn each_eligible_row_is_asked_once_in_order() {
    let mut later = task(TASK_SEMANTIC_INDEX, 0, false, 1);
    later.status = "retry_wait".to_string();
    later.next_attempt_at_ms = 10_000;
    let tasks = vec![
        task(TASK_CLIP_INDEX, 0, false, 1),
        later,
        task(TASK_SMART_CLUSTER, 900, true, 2),
    ];
    let asked = std::cell::RefCell::new(Vec::new());
    let selected = select_next_runnable_task(&tasks, 2_000, 1_000, |task| {
        asked.borrow_mut().push(task.task_kind.clone());
        !task.manual_pending
    });
    assert_eq!(selected, Some((BackgroundTaskKind::ClipIndex, false)));
    assert_eq!(asked.into_inner(), vec![TASK_CLIP_INDEX, TASK_SMART_CLUSTER]);
    let runnable = [task(TASK_CLIP_INDEX, 0, false, 1)];
    assert_eq!(select_next_task(&runnable, 2_000, 1_000), selected.map(|choice| choice.0));
    let step = |answers: &[bool]| selection_step(&tasks, answers, 2_000, 1_000);
    assert!(matches!(step(&[]), SelectionStep::Ask { row: 0 }));
    assert!(matches!(step(&[true]), SelectionStep::Ask { row: 2 }));
    assert!(matches!(
        step(&[true, true]),
        SelectionStep::Done { choice: Some((BackgroundTaskKind::SmartCluster, true)) }
    ));
    assert!(matches!(step(&[false, false]), SelectionStep::Done { choice: None }));
}

#[test]
fn ineligible_retry_is_skipped() {
    let mut retry = task(TASK_CLIP_INDEX, 0, false, 0);
    retry.status = "retry_wait".to_string();
    retry.next_attempt_at_ms = 10_000;
    assert_eq!(select_next_task(&[retry], 9_999, 1_000), None);
}

#[test]
fn retry_backoff_is_bounded() {
    assert_eq!(retry_delay(1), 60);
    assert_eq!(retry_delay(2), 120);
    assert_eq!(retry_delay(99), MAX_RETRY_DELAY_SECS);
}

#[test]
fn automatic_semantic_work_requires_smart_clusters() {
    for kind in [
        BackgroundTaskKind::SemanticIndex,
        BackgroundTaskKind::SmartCluster,
    ] {
        assert!(!task_feature_enabled_with_config(kind, false, false));
        assert!(task_feature_enabled_with_config(kind, false, true));
    }
    assert!(task_feature_enabled_with_config(
        BackgroundTaskKind::ClipIndex,
        false,
        false
    ));
    assert!(task_feature_enabled_with_config(
        BackgroundTaskKind::AnnBuild,
        false,
        false
    ));
}

#[test]
fn manual_maintenance_remains_available_when_features_are_disabled() {
    for kind in [
        BackgroundTaskKind::SemanticIndex,
        BackgroundTaskKind::ClipIndex,
        BackgroundTaskKind::SmartCluster,
        BackgroundTaskKind::AnnBuild,
    ] {
        assert!(task_feature_enabled_with_config(kind, true, false));
    }
}

#[test]
fn only_automatic_single_model_indexers_receive_a_quantum() {
    assert_eq!(
        BackgroundTaskKind::ClipIndex.automatic_quantum(),
        Some(60_000)
    );
    assert_eq!(
        BackgroundTaskKind::SemanticIndex.automatic_quantum(),
        Some(30_000)
    );
    assert_eq!(BackgroundTaskKind::SmartCluster.automatic_quantum(), None);
}

#[test]
fn an_expired_quantum_still_admits_its_first_model_batch() {
    let mut context = AutomaticSliceContext::new(0, 0, 1_000);
    context.deadline_ms = context.started_ms;

    assert_eq!(context.stop_reason(0, false, false, 1_000), None);
    assert_eq!(
        context.stop_reason(0, false, true, 1_000),
        Some(AutomaticSliceStopReason::BudgetExpired)
    );
}

#[test]
fn a_quantum_context_uses_the_admission_generation_snapshot() {
    let context = AutomaticSliceContext::new(60_000, 3, 0);
    assert_eq!(
        context.stop_reason(4, false, false, 0),
        Some(AutomaticSliceStopReason::ManualRequestPending)
    );
}

#[test]
fn a_manual_request_stops_an_admitted_automatic_quantum() {
    let context = AutomaticSliceContext::new(60_000, 7, 0);
    assert_eq!(
        context.stop_reason(8, false, false, 0),
        Some(AutomaticSliceStopReason::ManualRequestPending)
    );
}

#[test]
fn an_external_background_request_stops_before_the_next_model_batch() {
    let context = AutomaticSliceContext::new(60_000, 0, 0);
    assert_eq!(
        context.stop_reason(0, true, false, 0),
        Some(AutomaticSliceStopReason::ExternalBackgroundRequest)
    );
}

#[test]
fn scheduler_waits_after_the_startup_pass_until_a_real_wake() {
    let mut first_pass = true;
    assert_eq!(startup_wake(&mut first_pass), Some(SchedulerWake::Startup));
    assert_eq!(startup_wake(&mut first_pass), None);
    assert!(!should_refresh_backlog(SchedulerWake::Notification));
    assert!(should_refresh_backlog(SchedulerWake::Startup));
    assert!(should_refresh_backlog(SchedulerWake::Tick));
}

#[test]
fn slices_tell_how_long_they_ran_and_why_they_ended() {
    let context = AutomaticSliceContext::new(60_000, 0, 1_000);
    assert_eq!(context.elapsed_ms(3_500), 2_500);
    assert_eq!(
        BackgroundTaskKind::parse(BackgroundTaskKind::AnnBuild.as_str()),
        Some(BackgroundTaskKind::AnnBuild)
    );
    assert_eq!(BackgroundTaskKind::parse("other"), None);
    assert!(!deferred_release_note("manual_request").is_empty());
    let slice = ScheduledSliceResult::complete(true).with_processed(4);
    assert!(slice.completed && slice.has_more);
    assert_eq!(slice.processed, 4);
    let skipped = ScheduledSliceResult::skipped("budget_expired");
    assert_eq!(skipped.skipped_reason.as_deref(), Some("budget_expired"));
}

fn gates() -> GateFacts {
    let mut idle = IdleState::new();
    idle.is_idle = true;
    GateFacts {
        silent_read_auth_required: false,
        session_valid: true,
        background_authorized: true,
        maintenance_active: false,
        idle,
        foreground_waiting: false,
    }
}

#[test]
fn gates_open_only_when_nothing_is_in_the_way() {
    assert_eq!(gate_reason(false, &gates()), None);
    assert_eq!(
        environment_gate_reason(EnvironmentPolicy::IdleOnly, None, &gates()),
        None
    );
    let mut locked = gates();
    locked.silent_read_auth_required = true;
    locked.session_valid = false;
    locked.background_authorized = false;
    assert!(gate_reason(false, &locked).is_some());
    let mut waiting = gates();
    waiting.foreground_waiting = true;
    assert_eq!(gate_reason(true, &waiting), Some("foreground_request"));
    let own = KindGateFacts {
        own_lease: None,
        staging_enabled: false,
        staged_ready: false,
        admission: None,
        scoring_ready: true,
        scoring_owned: false,
    };
    assert_eq!(
        gate_reason_for_kind(true, BackgroundTaskKind::ClipIndex, &own, &gates()),
        None
    );
}

fn no_failures() -> FailureFacts {
    FailureFacts {
        failure_count: Some(0),
        scoring: None,
        deterministic_worker_failure: false,
        ann_circuit_open: false,
        ann_retry_at_ms: None,
        read_wait_reason: None,
    }
}

#[test]
fn a_pass_selects_admits_runs_and_settles() {
    let mut state = BackgroundSchedulerState::default();
    assert!(matches!(state.start(false, &[]), StartPlan::Spawn { .. }));
    let tasks = vec![task(TASK_CLIP_INDEX, 0, false, 0)];
    assert!(has_pending(&tasks));
    assert_eq!(known_failures(&tasks, BackgroundTaskKind::ClipIndex), Some(0));
    assert_eq!(known_failures(&tasks, BackgroundTaskKind::AnnBuild), None);
    match state.select_pass(&tasks, &[true], 100) {
        PassSelection::Candidate { kind, manual } => {
            assert_eq!(kind, BackgroundTaskKind::ClipIndex);
            assert!(!manual);
        }
        PassSelection::NoWork { .. } => panic!("the queued task is runnable"),
    }
    assert!(matches!(
        state.admit_pass(false, false, Some("waiting_for_idle")),
        PassAdmission::Blocked { .. }
    ));
    match state.admit_pass(false, false, None) {
        PassAdmission::Admitted { seq } => assert_eq!(seq, state.service_seq),
        PassAdmission::Blocked { .. } => panic!("nothing is in the way"),
    }
    state.claimed(BackgroundTaskKind::ClipIndex, false);
    assert_eq!(state.running_task.as_deref(), Some("clip_index"));
    let outcome = Ok(ScheduledSliceResult::complete(true));
    let action = state.settle(
        BackgroundTaskKind::ClipIndex,
        false,
        &outcome,
        &no_failures(),
        1_000,
    );
    assert!(matches!(action, SliceAction::Succeed { has_more: true }));
    assert!(state.running_task.is_none());
}

#[test]
fn failed_slices_are_tried_again_later() {
    let mut state = BackgroundSchedulerState::default();
    state.claimed(BackgroundTaskKind::ClipIndex, false);
    let outcome = Err("worker returned an inference error".to_string());
    match state.settle(
        BackgroundTaskKind::ClipIndex,
        false,
        &outcome,
        &no_failures(),
        1_000,
    ) {
        SliceAction::Retry { failures, retry_at_ms, .. } => {
            assert_eq!(failures, 1);
            assert_eq!(retry_at_ms, 61_000);
        }
        other => panic!("unexpected {other:?}"),
    }
}

#[test]
fn queued_requests_count_up_only_when_manual() {
    let mut state = BackgroundSchedulerState::default();
    state.enqueue(Ok(()), false).unwrap();
    assert_eq!(state.manual_request_generation, 0);
    state.enqueue(Ok(()), true).unwrap();
    assert_eq!(state.manual_request_generation, 1);
    assert!(state.enqueue(Err("locked".to_string()), true).is_err());
    let status = state.status(
        Vec::new(),
        &AdaptiveRuntime::default(),
        true,
        SchedulingMode::Auto,
        queue_depths(true, Some(3), None, Some(-1)),
        vec![("clip_index".to_string(), 12)],
    );
    assert!(status.enabled);
    assert!(status.next_retry_at_ms.is_none());
    assert_eq!(status.execution_profile, ExecutionProfile::Paused);
    assert_eq!(
        status.queue_depths,
        Some(QueueDepths { semantic_index: 3, clip_index: 0, smart_cluster: 0 })
    );
    assert!(status.tasks.is_empty() && status.qualifications.is_empty());
    assert_eq!(status.backlog_age_ms, vec![("clip_index".to_string(), 12)]);
    let names: Vec<&str> = status.task_background_eligible.iter().map(|task| task.0).collect();
    assert_eq!(names, ["semantic_index", "clip_index", "smart_cluster", "ann_build"]);
    assert_eq!(status.pauses.total, 0);
    assert_eq!(queue_depths(false, Some(3), Some(4), Some(5)), None);
    assert_eq!(
        queue_depths(true, Some(3), Some(4), Some(5)),
        Some(QueueDepths { semantic_index: 3, clip_index: 4, smart_cluster: 5 })
    );
    state.stop();
    assert!(state.stopping);
}

#[test]
fn backlogs_wake_the_kinds_that_have_work() {
    assert!(refresh_backlog(0, 0, 0, true).is_empty());
    assert_eq!(refresh_backlog(1, 2, 0, true), vec!["semantic_index", "clip_index"]);
    assert_eq!(
        execute_slice(BackgroundTaskKind::SmartCluster, false, false, true),
        SlicePlan::Disabled
    );
    assert_eq!(
        execute_slice(BackgroundTaskKind::AnnBuild, false, true, true),
        SlicePlan::AnnBuild
    );
    assert_eq!(
        execute_slice(BackgroundTaskKind::ClipIndex, false, true, true),
        SlicePlan::Quantum
    );
    let state = BackgroundSchedulerState::default();
    assert_eq!(
        state.task_source(BackgroundTaskKind::ClipIndex, true, false, true),
        WorkSource::Archive
    );
}

#[test]
fn revoked_slices_are_put_down_as_skipped() {
    let settled = settle_result(
        Err("background_paused: revoked".to_string()),
        Some("input_resumed"),
        3,
    );
    let slice = settled.unwrap();
    assert_eq!(slice.processed, 3);
    assert!(slice.skipped_reason.is_some());
}
