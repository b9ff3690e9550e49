use carbonpaper::adaptive::{
    configured_mode, signals as application_signals, unit_sample, watch_duties, watch_interval_ms,
    ActiveExecution, AdaptiveRuntime, ApplicationFacts, WatchDuties, WatchFacts,
};
use carbonpaper::background_policy::{
    check_current, choose_profile, is_background, is_pause, memory_admits, AdmissionSignals,
    CostKey, CostSample, ExecutionEnvironment, ExecutionLease, ExecutionProfile, PauseStatistics,
    PerformanceBook, ResourcePolicy, ResourceSample, SchedulingMode, MEMORY_RESERVE_BYTES,
};
use carbonpaper::background_resources::{
    environment, file_time_ticks, peak_private_bytes, resource_sample, set_cpu_rate, ProcessUsage,
    RateAction, RateControl, RuntimeParts,
};
use carbonpaper::background_scheduler::BackgroundTaskKind;
use carbonpaper::names::{NameSet, Tally};

fn env() -> ExecutionEnvironment {
    ExecutionEnvironment {
        logical_cores: 4,
        physical_memory_bytes: 8 << 30,
        runtime: "test".into(),
    }
}

#[test]
fn the_environment_names_the_machine_and_its_programs() {
    let mut parts = RuntimeParts {
        os: "windows".to_string(),
        arch: "x86_64".to_string(),
        os_version: Some("11".to_string()),
        ml_protocol: 3,
        intra_threads: Some("2".to_string()),
        processor: Some(("Maker".to_string(), "Chip 9".to_string())),
        version: "1.2.0".to_string(),
    };
    let known = environment(8, 4096, &parts);
    assert_eq!((known.logical_cores, known.physical_memory_bytes), (8, 4096));
    assert_eq!(
        known.runtime,
        "windows:x86_64:11:ml3:ort1.24.2:budget-v2:spin0:2:Maker:Chip 9:1.2.0"
    );
    parts.os_version = None;
    parts.intra_threads = None;
    parts.processor = None;
    assert_eq!(
        parts.runtime_text(),
        "windows:x86_64::ml3:ort1.24.2:budget-v2:spin0:::1.2.0"
    );
}

#[test]
fn what_was_not_measured_stays_unknown() {
    let cores: Vec<u32> = [12.5f32, 80.0, -0.0].iter().map(|share| share.to_bits()).collect();
    let full = resource_sample(7, 30.0f32.to_bits(), &cores, 10, 4, Some(2.5f64.to_bits()));
    assert_eq!(full.at_ms, 7);
    assert_eq!(full.total_cpu_percent, Some(30.0f32.to_bits()));
    assert_eq!(full.busiest_core_percent, Some(80.0f32.to_bits()));
    assert_eq!(full.available_memory_bytes, Some(4));
    assert_eq!(full.disk_latency_ms, Some(2.5f64.to_bits()));
    let none = resource_sample(7, 0, &[], 0, 4, Some((-1.0f64).to_bits()));
    assert_eq!((none.total_cpu_percent, none.busiest_core_percent), (None, None));
    assert_eq!((none.available_memory_bytes, none.disk_latency_ms), (None, None));
    let signs = [(-0.0f32).to_bits(), 0.0f32.to_bits(), (-3.0f32).to_bits()];
    assert_eq!(
        resource_sample(7, 0, &signs, 0, 0, None).busiest_core_percent,
        Some(0.0f32.to_bits())
    );
}

#[test]
fn a_new_runtime_waits_for_nothing() {
    let runtime = AdaptiveRuntime::default();
    assert_eq!(runtime.resources.cooldown_until, 0);
    assert!(runtime.resources.stable_since.is_none());
    assert_eq!(runtime.pauses.total, 0);
    assert!(runtime.pauses.last_yield_ms.is_none());
}

fn key() -> CostKey {
    CostKey::new("text", "encode", "v1", 128, "cpu:threads=1")
}
fn sample(ms: f64) -> CostSample {
    CostSample {
        elapsed_ms: ms.to_bits(),
        cpu_ms: (ms / 2.0).to_bits(),
        peak_private_bytes: 300 << 20,
        additional_peak_bytes: 16 << 20,
        cpu_rate_percent: 5,
    }
}
fn signals(idle_secs: u64) -> AdmissionSignals {
    AdmissionSignals {
        enabled: true,
        authorized: true,
        ac_connected: true,
        protected_session: false,
        maintenance: false,
        foreground: false,
        idle_secs,
    }
}
fn sample_resources(at_ms: u64, cpu: f32, core: f32) -> ResourceSample {
    ResourceSample {
        at_ms,
        total_cpu_percent: Some(cpu.to_bits()),
        busiest_core_percent: Some(core.to_bits()),
        available_memory_bytes: Some(4 << 30),
        disk_latency_ms: Some(2.0f64.to_bits()),
    }
}
fn stable() -> ResourcePolicy {
    let mut p = ResourcePolicy::default();
    for i in 0..=10 {
        p.observe(sample_resources(i * 1000, 10.0, 25.0));
    }
    p
}

#[test]
fn revoked_staged_leases_are_pauses_while_integrity_and_model_errors_are_failures() {
    for error in [
        "app_bound_disabled",
        "app_bound_lease_expired",
        "app_bound_task_retired",
        "app_bound_dataset_mismatch",
        "staging generation changed",
        "Staged input changed before embedding commit",
    ] {
        assert!(is_pause(error), "{error}");
    }
    assert!(!is_pause("app_bound_access_denied"));
    assert!(!is_pause("app_bound_integrity"));
    assert!(!is_pause("model_mismatch: invalid tensor"));
}

#[test]
fn revised_memory_rule_has_fifteen_percent_margin_and_fixed_point_eight_gib_floor() {
    assert!(memory_admits(MEMORY_RESERVE_BYTES, 0));
    assert!(!memory_admits(MEMORY_RESERVE_BYTES - 1, 0));
    assert!(memory_admits(MEMORY_RESERVE_BYTES + 1150, 1000));
    assert!(!memory_admits(MEMORY_RESERVE_BYTES + 1149, 1000));
    assert!(!memory_admits(u64::MAX, u64::MAX));
}

#[test]
fn missing_metrics_and_load_flapping_cannot_keep_b_admitted() {
    let mut policy = stable();
    let mut missing = sample_resources(11_000, 10.0, 20.0);
    missing.total_cpu_percent = Some(f32::NAN.to_bits());
    policy.observe(missing);
    assert_eq!(
        policy.retain(11_000, 0, false),
        Some("resource_metrics_unavailable")
    );
    for i in 12..42 {
        policy.observe(sample_resources(
            i * 1000,
            if i % 5 == 0 { 40.0 } else { 10.0 },
            40.0,
        ));
        assert!(policy.admission(i * 1000, 0, false).is_some());
    }
}

#[test]
fn duty_ramps_only_until_a_pause_resets_the_run() {
    let mut policy = stable();
    assert_eq!(policy.duty_percent(10_000), 20);
    assert_eq!(policy.duty_percent(70_000), 30);
    assert_eq!(policy.duty_percent(130_000), 40);
    assert_eq!(policy.duty_percent(190_000), 50);
    assert_eq!(policy.duty_percent(900_000), 50);
    policy.reset_duty();
    assert_eq!(policy.duty_percent(901_000), 20);
}

#[test]
fn only_capped_valid_samples_qualify_and_input_scales_do_not_transfer() {
    let mut b = PerformanceBook::new(env());
    for _ in 0..20 {
        let mut s = sample(10.0);
        s.cpu_rate_percent = 100;
        b.record(key(), s, ExecutionProfile::Idle);
    }
    assert!(!b.eligible(&key()));
    for _ in 0..19 {
        b.record(key(), sample(200.0), ExecutionProfile::Idle);
    }
    assert!(!b.eligible(&key()));
    b.record(key(), sample(200.0), ExecutionProfile::Idle);
    assert!(b.eligible(&key()));
    assert!(!b.eligible(&CostKey {
        input_bucket: 256,
        ..key()
    }));
    assert!(!b.eligible(&key().cold()));
    for _ in 0..3 {
        b.record(key().cold(), sample(900.0), ExecutionProfile::Idle);
    }
    assert!(b.eligible(&key().cold()));
    assert!(b.task_eligible("text"));
    assert_eq!(b.additional_peak(&key()), 16 << 20);
    assert_eq!(b.qualifications().len(), 2);
    let mut changed = env();
    changed.logical_cores = 2;
    assert!(!PerformanceBook::restore(changed, Some(b)).eligible(&key()));
}

#[test]
fn slow_work_is_ineligible_and_overruns_require_fresh_idle_validation() {
    let mut b = PerformanceBook::new(env());
    for _ in 0..64 {
        b.record(key(), sample(700.0), ExecutionProfile::Idle);
    }
    assert!(!b.eligible(&key()));
    for _ in 0..64 {
        b.record(key(), sample(100.0), ExecutionProfile::Idle);
    }
    assert!(b.eligible(&key()));
    b.record(key(), sample(900.0), ExecutionProfile::Background);
    assert!(!b.eligible(&key()));
    for _ in 0..64 {
        b.record(key(), sample(100.0), ExecutionProfile::Background);
    }
    assert!(!b.eligible(&key()));
    for _ in 0..20 {
        b.record(key(), sample(100.0), ExecutionProfile::Idle);
    }
    assert!(b.eligible(&key()));
}

#[test]
fn typing_allows_qualified_b_but_unknown_work_waits_for_a() {
    let r = stable();
    assert_eq!(
        choose_profile(signals(0), SchedulingMode::Auto, true, &r, 10_000),
        Ok(ExecutionProfile::Background)
    );
    assert_eq!(
        choose_profile(signals(0), SchedulingMode::Auto, false, &r, 10_000),
        Err("waiting_for_evaluation")
    );
    assert_eq!(
        choose_profile(signals(60), SchedulingMode::Auto, false, &r, 10_000),
        Ok(ExecutionProfile::Idle)
    );
    assert_eq!(
        choose_profile(signals(0), SchedulingMode::IdleOnly, true, &r, 10_000),
        Err("waiting_for_idle")
    );
    for s in [
        AdmissionSignals {
            ac_connected: false,
            ..signals(600)
        },
        AdmissionSignals {
            foreground: true,
            ..signals(600)
        },
        AdmissionSignals {
            authorized: false,
            ..signals(600)
        },
        AdmissionSignals {
            protected_session: true,
            ..signals(600)
        },
        AdmissionSignals {
            enabled: false,
            ..signals(600)
        },
    ] {
        assert!(choose_profile(s, SchedulingMode::Auto, true, &r, 10_000).is_err());
    }
}

#[test]
fn pressure_requires_cooldown_then_ten_new_low_samples_and_missing_disk_blocks_io() {
    let mut r = stable();
    assert_eq!(r.admission(10_000, 0, true), None);
    r.observe(sample_resources(11_000, 51.0, 60.0));
    for i in 12..36 {
        r.observe(sample_resources(i * 1000, 5.0, 10.0));
        assert!(r.admission(i * 1000, 0, false).is_some());
    }
    r.observe(sample_resources(36_000, 5.0, 10.0));
    assert_eq!(r.admission(36_000, 0, false), None);
    r.latest.disk_latency_ms = None;
    assert_eq!(r.admission(36_000, 0, true), Some("waiting_for_disk"));
    assert_eq!(
        r.retain(39_000, 0, false),
        Some("resource_metrics_unavailable")
    );
}

#[test]
fn memory_pressure_requires_a_fresh_cooldown_and_admission_window() {
    let mut resources = stable();
    assert!(resources.retain(10_000, 4 << 30, false).is_some());
    resources.defer_after_pressure(10_000);
    for second in 11..35 {
        resources.observe(sample_resources(second * 1000, 5.0, 10.0));
        assert!(resources.admission(second * 1000, 0, false).is_some());
    }
    resources.observe(sample_resources(35_000, 5.0, 10.0));
    assert!(resources.admission(35_000, 0, false).is_none());
}

#[test]
fn busy_single_core_and_a_to_b_transition_are_not_hidden_by_low_total_cpu() {
    let mut r = stable();
    r.observe(sample_resources(11_000, 15.0, 96.0));
    assert!(r.retain(11_000, 0, false).is_none());
    r.observe(sample_resources(12_000, 15.0, 97.0));
    assert!(r.retain(12_000, 0, false).is_some());
    let mut lease = ExecutionLease::new("text", ExecutionProfile::Idle, 100);
    lease.revoke("input_resumed", 12_000);
    assert!(lease.check(12_000).is_err());
    assert_eq!(lease.profile, ExecutionProfile::Idle);
}

#[test]
fn leases_expire_with_their_units() {
    let mut lease = ExecutionLease::new("text", ExecutionProfile::Background, 20);
    lease.limit_unit(Some(500), 1000);
    assert!(lease.check(1400).is_ok());
    lease.allow_cold_load();
    assert!(lease.check(2400).is_ok());
    assert!(lease.check(2600).is_err());
    assert!(lease.reason().is_some());
    let mut none: Option<ExecutionLease> = None;
    assert!(check_current(&mut none, 0).is_ok());
    assert!(!is_background(&none));
    assert!(is_background(&Some(lease)));
}

#[test]
fn background_work_rests_by_its_duty() {
    let lease = ExecutionLease::new("text", ExecutionProfile::Background, 20);
    // A fifth of the time is work.
    assert_eq!(lease.rest_ns(1_000_000, 4), 4_000_000);
    let full = ExecutionLease::new("text", ExecutionProfile::Idle, 100);
    assert_eq!(full.rest_ns(1_000_000, 4), 0);
    // The nearest, and the even one of two that are equally near.
    let third = ExecutionLease::new("text", ExecutionProfile::Background, 30);
    assert_eq!(third.rest_ns(1, 4), 2);
    assert_eq!(third.rest_ns(2, 4), 5);
    let most = ExecutionLease::new("text", ExecutionProfile::Background, 80);
    assert_eq!(most.rest_ns(2, 4), 0);
    assert_eq!(most.rest_ns(6, 4), 2);
    // Used processor time is paid for where that takes longer.
    let mut used = ExecutionLease::new("text", ExecutionProfile::Background, 20);
    used.account_cpu(1_000_001);
    assert_eq!(used.cpu_micros, 1001);
    assert_eq!(used.rest_ns(1_000_000, 4), 1001 * 5000 - 1_000_000);
}

#[test]
fn pauses_are_counted_by_reason() {
    let mut pauses = PauseStatistics::default();
    pauses.note("input_resumed", Some(12));
    pauses.note("input_resumed", None);
    assert_eq!(pauses.total, 2);
    assert_eq!(pauses.reasons.get("input_resumed"), 2);
    assert_eq!(pauses.reasons.get("other"), 0);
    let copy = pauses.copy();
    assert_eq!((copy.total, copy.last_yield_ms), (pauses.total, pauses.last_yield_ms));
    assert_eq!((copy.reasons.get("input_resumed"), copy.reasons.get("other")), (2, 0));
}

#[test]
fn scheduling_modes_are_read() {
    assert_eq!(SchedulingMode::parse("auto"), Ok(SchedulingMode::Auto));
    assert_eq!(SchedulingMode::parse("idle_only"), Ok(SchedulingMode::IdleOnly));
    assert!(SchedulingMode::parse("sometimes").is_err());
    assert_eq!(configured_mode(None), SchedulingMode::default());
    assert_eq!(
        configured_mode(Some("idle_only".to_string())),
        SchedulingMode::IdleOnly
    );
}

fn facts() -> ApplicationFacts {
    ApplicationFacts {
        enabled: true,
        background_authorized: true,
        ac_connected: true,
        fullscreen_exclusive: false,
        game_mode_paused: false,
        acceleration_suppressed: false,
        maintenance: false,
        foreground_waiting: false,
        idle_secs: 600,
    }
}

#[test]
fn running_work_is_revoked_when_the_database_changes() {
    let mut runtime = AdaptiveRuntime::default();
    runtime
        .begin(
            BackgroundTaskKind::ClipIndex,
            false,
            (1, 1),
            application_signals(&facts(), false),
            SchedulingMode::Auto,
            1000,
        )
        .unwrap();
    assert_eq!(runtime.profile(false), ExecutionProfile::Idle);
    let begun = &runtime.active.as_ref().unwrap().lease;
    assert!(begun.reason().is_none() && begun.revoked_at.is_none() && begun.cpu_micros == 0);
    let watch = WatchFacts {
        application: facts(),
        db_generation: 2,
        manual_generation: 1,
        external_waiting: false,
        mode: SchedulingMode::Auto,
    };
    runtime.poll_active(&watch, 2000);
    let lease = &runtime.active.as_ref().unwrap().lease;
    assert!(lease.reason().is_some());
    runtime.finish(3000);
    assert!(runtime.active.is_none());
    assert_eq!(runtime.pauses.total, 1);
    assert_eq!(watch_interval_ms(true) > 0, true);
}

#[test]
fn units_cost_the_larger_of_two_peaks() {
    let before = ProcessUsage { cpu_ms: 0, private_bytes: 100, peak_private_bytes: 100 };
    let after = ProcessUsage { cpu_ms: 0, private_bytes: 120, peak_private_bytes: 150 };
    assert_eq!(after.peak_since(Some(before)), 150);
    let cost = unit_sample(before, after, 7, 3);
    assert_eq!(cost.elapsed_ms, 7);
    assert_eq!(cost.cpu_ms, 3);
    assert_eq!(file_time_ticks(1, 2), 0x1_0000_0002);
    assert_eq!(peak_private_bytes(5, 9), 9);
}

#[test]
fn processor_rates_are_capped_and_cleared() {
    let free = RateControl { enabled: false, hard_capped: false, cpu_rate: 0 };
    assert!(matches!(
        set_cpu_rate(free, Some(5)),
        Ok(RateAction::Cap { cpu_rate: 500 })
    ));
    assert!(matches!(set_cpu_rate(free, None), Ok(RateAction::Keep)));
    let capped = RateControl { enabled: true, hard_capped: true, cpu_rate: 500 };
    assert!(matches!(set_cpu_rate(capped, None), Ok(RateAction::Clear)));
}

#[test]
fn sets_and_tallies_hold_names() {
    let mut set = NameSet::new();
    set.insert("a");
    set.insert("a");
    assert!(set.contains("a"));
    set.remove("a");
    assert!(!set.contains("a"));
    let mut tally = Tally::new();
    tally.bump("a");
    tally.bump("a");
    tally.bump("b");
    assert_eq!(tally.get("a"), 2);
    assert_eq!(tally.get("b"), 1);
    assert_eq!(tally.get("c"), 0);
}

fn running(profile: ExecutionProfile) -> Option<ActiveExecution> {
    Some(ActiveExecution {
        lease: ExecutionLease::new("text", profile, 20),
        staged: false,
        db_generation: 1,
        manual_generation: 1,
        additional_peak: 0,
        disk: false,
    })
}

#[test]
fn operations_beside_the_user_have_to_have_proved_themselves() {
    let mut runtime = AdaptiveRuntime::default();
    // Work without a lease, and work on an idle machine, is not held up.
    assert!(runtime.admit_operation(&key(), true, false, 10_000).is_ok());
    assert!(runtime.operation_key("encode", "v1", 128, "cpu:threads=1").is_none());
    runtime.active = running(ExecutionProfile::Idle);
    assert!(runtime.admit_operation(&key(), true, false, 10_000).is_ok());
    assert!(runtime.active.as_ref().unwrap().disk);
    let own = runtime.operation_key("encode", "v1", 100, "cpu:threads=1").unwrap();
    assert_eq!((own.task.as_str(), own.input_bucket), ("text", 128));

    let refused = |runtime: &mut AdaptiveRuntime, cold: bool| {
        runtime.active = running(ExecutionProfile::Background);
        let error = runtime.admit_operation(&key(), cold, false, 10_000).unwrap_err();
        let lease = &runtime.active.as_ref().unwrap().lease;
        assert_eq!(error, format!("background_paused: {}", lease.reason().unwrap()));
        assert_eq!(lease.revoked_at, Some(10_000));
        // A lease that was taken back stays so.
        assert_eq!(runtime.admit_operation(&key(), cold, false, 10_001).unwrap_err(), error);
        error
    };
    assert_eq!(refused(&mut runtime, false), "background_paused: waiting_for_evaluation");
    runtime.book = Some(PerformanceBook::new(env()));
    assert_eq!(refused(&mut runtime, false), "background_paused: waiting_for_evaluation");
    for _ in 0..64 {
        runtime.record_cost(key(), sample(100.0), ExecutionProfile::Idle);
    }
    assert_eq!(refused(&mut runtime, false), "background_paused: resource_metrics_unavailable");
    assert_eq!(refused(&mut runtime, true), "background_paused: waiting_for_resident_model");
    assert_eq!(runtime.qualifications().len(), 1);
    assert!(runtime.qualifications()[0].eligible);

    runtime.resources = stable();
    runtime.active = running(ExecutionProfile::Background);
    runtime.start_unit(10_000);
    runtime.admit_operation(&key(), false, false, 10_000).unwrap();
    let active = runtime.active.as_ref().unwrap();
    assert_eq!(active.additional_peak, 16 << 20);
    assert_eq!(active.lease.unit_deadline, Some(11_000));
    // A unit that takes too long loses its qualification.
    let late = runtime.admit_operation(&key(), false, false, 11_001).unwrap_err();
    assert_eq!(late, "background_paused: cost_overrun");
    runtime.finish_unit(&key());
    assert!(runtime.active.as_ref().unwrap().lease.unit_deadline.is_none());
    assert!(!runtime.qualifications()[0].eligible);
    runtime.finish(11_001);
    assert!(runtime.waiting_for_idle.contains("text"));
}

#[test]
fn loading_a_model_is_given_a_second_more() {
    let mut runtime = AdaptiveRuntime::default();
    runtime.book = Some(PerformanceBook::new(env()));
    runtime.resources = stable();
    for _ in 0..64 {
        runtime.record_cost(key(), sample(100.0), ExecutionProfile::Idle);
        runtime.record_cost(key().cold(), sample(100.0), ExecutionProfile::Idle);
    }
    runtime.active = running(ExecutionProfile::Background);
    runtime.start_unit(10_000);
    runtime.admit_operation(&key(), true, false, 10_000).unwrap();
    let active = runtime.active.as_ref().unwrap();
    assert_eq!(active.lease.unit_deadline, Some(12_000));
    assert_eq!(active.additional_peak, 32 << 20);
    assert!(active.disk);
    runtime.cancel_active("stopping", 10_500);
    assert_eq!(runtime.active.as_ref().unwrap().lease.reason(), Some("stopping"));
}

#[test]
fn histories_are_written_until_that_succeeds() {
    let mut runtime = AdaptiveRuntime::default();
    assert!(!runtime.take_dirty());
    runtime.book = Some(PerformanceBook::new(env()));
    runtime.record_cost(key(), sample(100.0), ExecutionProfile::Idle);
    assert!(runtime.take_dirty());
    runtime.flushed(true);
    assert!(runtime.take_dirty());
    runtime.flushed(false);
    assert!(!runtime.take_dirty());
    assert_eq!(watch_duties(999, 29_999), WatchDuties { sample: false, flush: false });
    assert_eq!(watch_duties(1000, 30_000), WatchDuties { sample: true, flush: true });
    assert_eq!((watch_interval_ms(true), watch_interval_ms(false)), (250, 1000));
}
