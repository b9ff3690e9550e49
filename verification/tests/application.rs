use carbonpaper::analysis::{
    compute_storage_stats, directory_size, AnalysisState, ArchiveSizes, STORAGE_CACHE_TTL_MS,
};
use carbonpaper::app_bound::{
    capacity_bytes, check_enable, handed_on_arguments, handed_on_outcome, install_arguments,
    installer_outcome, must_register, plan_delegation, plan_startup, restart_arguments,
    schedule_restart, supported_build, uninstall_arguments, DelegatePlan, ProcessingStatus,
    RuntimeFlags, StartupPlan, StatusFacts,
};
use carbonpaper::autostart::{
    get_autostart_status, read_run_value, run_value, set_autostart, AutostartAction,
};
use carbonpaper::blind_index_repair::{
    after_look, after_start, while_watched, BlindIndexRepairProgress, BlindIndexRepairState,
    RepairClaim, RepairStep, MAINTENANCE_IN_PROGRESS,
};
use carbonpaper::codec::{push_bytes, push_le, push_zeros, read_le};
use carbonpaper::order::sort_ascending;
use carbonpaper::timestamps::{
    database_text, elapsed_since, either_moment, moment_text, parse_millis, parse_moment,
    parse_moment_millis, Moment,
};
use carbonpaper::workers::{
    failure_kind, handle_request, image_step, office_failure, parse_number, verify_report, Args,
    MlProvider, MlRequest, MlStep, OcrFailure, OfficeFailure,
};

fn strings(list: &[&str]) -> Vec<String> {
    list.iter().map(|s| s.to_string()).collect()
}

#[test]
fn archives_are_measured_by_their_parts() {
    assert_eq!(directory_size(&[1, 2, 3]), 6);
    let sizes = ArchiveSizes {
        models: 10,
        screenshots: 20,
        vectors: 3,
        database: 4,
        data_dir: 50,
    };
    let stats = compute_storage_stats("/root", &sizes, 9);
    assert_eq!(stats.total_bytes, 60);
    assert_eq!(stats.database_bytes, 7);
    assert_eq!(stats.other_bytes, 60 - 37);
    let full = ArchiveSizes {
        models: u64::MAX,
        screenshots: 1,
        vectors: 0,
        database: 0,
        data_dir: 1,
    };
    let stats = compute_storage_stats("/root", &full, 9);
    assert_eq!((stats.total_bytes, stats.other_bytes), (u64::MAX, 0));
}

#[test]
fn measurements_serve_for_five_hours() {
    let sizes = ArchiveSizes {
        models: 1,
        screenshots: 1,
        vectors: 1,
        database: 1,
        data_dir: 4,
    };
    let mut state = AnalysisState::default();
    assert!(state.get_cached_storage_stats(0).is_none());
    let stats = compute_storage_stats("/root", &sizes, 100);
    let shown = state.get_analysis_overview(stats, 100, Some((7, 3)));
    assert_eq!(shown.storage.disk_total_bytes, Some(7));
    let later = 100 + STORAGE_CACHE_TTL_MS;
    let again = state.cached_overview(false, later - 1, Some((7, 2))).unwrap();
    assert_eq!(again.storage.disk_available_bytes, Some(2));
    assert!(state.cached_overview(true, 101, None).is_none());
    assert!(state.cached_overview(false, later, None).is_none());
}

#[test]
fn protection_is_offered_until_it_was_seen() {
    let mut flags = RuntimeFlags::new();
    let mut facts = StatusFacts {
        supported_build: true,
        package_readable: true,
        background_processing_enabled: true,
        offer_seen: Some(false),
    };
    let none = || ProcessingStatus { installed: false, available: false, reason: None };
    assert!(flags.app_bound_status(none(), &facts).offer_enable);
    facts.offer_seen = Some(true);
    assert!(!flags.app_bound_status(none(), &facts).offer_enable);
    assert!(!flags.delegate_startup(Err("gone".to_string())));
    let broken = flags.app_bound_status(none(), &facts);
    assert!(broken.offer_enable && broken.processing.installed);
    assert_eq!(broken.processing.reason.as_deref(), Some("repair_required"));
    flags.app_bound_acknowledge_offer();
    assert!(!flags.app_bound_status(none(), &facts).offer_enable);
    assert!(flags.uses_protected_installation(false, false, false));
    assert!(!flags.is_protected_runtime(false, false));
    let mut development = RuntimeFlags::new();
    development.development_prepared(false);
    assert!(development.repair_needed && !development.protected_environment_ready);
    development.development_prepared(true);
    assert!(development.protected_environment_ready);
    flags.development_installed();
    assert!(flags.is_protected_runtime(false, false));
    assert!(!flags.is_protected_runtime(true, true));
}

#[test]
fn protected_programs_are_started_with_what_was_asked() {
    assert_eq!(plan_startup(&strings(&["--autostart"]), false), StartupPlan::Look);
    assert_eq!(plan_startup(&strings(&["--autostart"]), true), StartupPlan::Ordinary);
    assert_eq!(plan_startup(&strings(&["--cng-unlock"]), false), StartupPlan::Ordinary);
    assert_eq!(
        plan_startup(&strings(&["--repair-protected-runtime"]), false),
        StartupPlan::Repair
    );
    let mut started = RuntimeFlags::new();
    assert_eq!(started.begin_startup(&strings(&["--autostart"]), false), StartupPlan::Look);
    assert!(!started.repair_needed);
    assert_eq!(
        started.begin_startup(&strings(&["--repair-protected-runtime"]), false),
        StartupPlan::Repair
    );
    assert!(started.repair_needed);
    assert_eq!(started.environment_prepared(Err("x".to_string())), Err("x".to_string()));
    assert!(!started.protected_environment_ready);
    assert_eq!(started.environment_prepared(Ok(())), Ok(false));
    assert!(started.protected_environment_ready);
    assert_eq!(plan_delegation(None), DelegatePlan::Ordinary);
    assert_eq!(plan_delegation(Some(true)), DelegatePlan::Prepare);
    assert_eq!(plan_delegation(Some(false)), DelegatePlan::HandOn);
    assert_eq!(
        handed_on_arguments(&strings(&["--hidden", "--autostart", "x", "--hidden"])),
        strings(&["--autostart", "--hidden"])
    );
    assert_eq!(
        install_arguments("C:\\p", 7, true),
        strings(&["--source", "C:\\p", "--caller-pid", "7", "--enable"])
    );
    assert_eq!(install_arguments("C:\\p", 7, false).len(), 4);
    assert_eq!(
        uninstall_arguments(12),
        strings(&["--uninstall", "--caller-pid", "12"])
    );
    let mut flags = RuntimeFlags::new();
    assert_eq!(
        schedule_restart(&mut flags, false, 3),
        Some(restart_arguments(3))
    );
    assert!(schedule_restart(&mut flags, true, 3).is_none());
    assert!(flags.protected_environment_ready);
    assert_eq!(handed_on_outcome(None), Ok(true));
    assert_eq!(
        handed_on_outcome(Some(false)).unwrap_err(),
        "Protected application could not start"
    );
    assert_eq!(check_enable(true, false).unwrap_err(), "BACKGROUND_PROCESSING_DISABLED");
    assert!(check_enable(false, false).is_ok());
    assert_eq!(capacity_bytes(2), 2 * 1024 * 1024);
    assert!(supported_build(true, true) && !supported_build(true, false));
    assert!(installer_outcome(Ok(true)).is_ok());
    assert_eq!(installer_outcome(Err(Some(1223))).unwrap_err(), "APP_BOUND_CANCELLED");
    assert_eq!(installer_outcome(Ok(false)).unwrap_err(), "APP_BOUND_INSTALL_FAILED");
    assert!(!must_register(true, true, true) && must_register(true, true, false));
}

#[test]
fn the_application_is_listed_to_start() {
    assert_eq!(run_value("C:\\\"a\" b.exe"), "\"C:\\a b.exe\" --autostart");
    assert!(matches!(
        set_autostart(true, "a"),
        AutostartAction::Write { value } if value == "\"a\" --autostart"
    ));
    assert!(matches!(set_autostart(false, "a"), AutostartAction::Delete));
    let listed = read_run_value(Ok(None), Ok(Some("x".to_string())));
    assert_eq!(get_autostart_status(listed), Ok(true));
    assert_eq!(get_autostart_status(read_run_value(Ok(None), Ok(None))), Ok(false));
    assert_eq!(
        read_run_value(Err("no".to_string()), Ok(None)).unwrap_err(),
        "no"
    );
}

#[test]
fn repairs_run_one_at_a_time() {
    let mut state = BlindIndexRepairState::new();
    assert_eq!(after_look(&Ok(true), true), RepairStep::Wait);
    assert_eq!(after_look(&Ok(true), false), RepairStep::Start);
    assert_eq!(after_look(&Ok(false), false), RepairStep::Stop);
    assert_eq!(state.claim(), RepairClaim::Claimed);
    assert_eq!(state.claim(), RepairClaim::Running);
    assert_eq!(state.entered(false).unwrap_err(), MAINTENANCE_IN_PROGRESS);
    assert_eq!(
        after_start(&Err(MAINTENANCE_IN_PROGRESS.to_string())),
        RepairStep::Wait
    );
    assert_eq!(state.claim(), RepairClaim::Claimed);
    assert_eq!(state.entered(true).unwrap().phase, "scanning_valid_ocr");
    assert_eq!(while_watched(&state), RepairStep::Watch);
    let progress = BlindIndexRepairProgress {
        processed_postings: 1,
        total_postings: 2,
        changed_postings: 3,
        deleted_postings: 4,
        removed_ocr_ids: 5,
    };
    state.progressed(progress);
    assert_eq!(state.snapshot().processed, 1);
    assert_eq!(state.snapshot().phase, "repairing_blind_index");
    state.finished(Err("disk".to_string()));
    assert_eq!(state.snapshot().last_error.as_deref(), Some("disk"));
    assert_eq!(state.snapshot().removed_ocr_ids, 5);
    assert_eq!(while_watched(&state), RepairStep::Stop);
    let mut done = BlindIndexRepairState::new();
    done.finished(Ok(progress));
    assert_eq!(done.snapshot().phase, "completed");
    assert_eq!(while_watched(&done), RepairStep::Look);
}

#[test]
fn workers_read_their_arguments() {
    let args = Args::parse(&strings(&["--model-dir", "m", "--threads", "9"])).unwrap();
    assert_eq!((args.model_dir.as_str(), args.threads), ("m", 4));
    assert_eq!(args.provider(), MlProvider::Cpu);
    assert_eq!(
        Args::parse(&strings(&["--threads", "1"])).unwrap_err(),
        "--model-dir is required"
    );
    assert!(Args::parse(&strings(&["--model-dir", "m", "--threads", "x"])).is_err());
    assert!(Args::parse(&strings(&["--model-dir"])).is_err());
    assert!(Args::parse(&strings(&["--other"])).is_err());
    for text in ["0", "7", "+12", "18446744073709551615", "18446744073709551616", "", "+", "-1"] {
        assert_eq!(parse_number(text), text.parse::<usize>().ok(), "{text}");
    }
    assert_eq!(
        verify_report(MlProvider::DirectMl),
        "{\"status\":\"ok\",\"model_id\":\"ppocrv5-ch-mobile\",\"provider\":\"DirectMl\"}"
    );
}

#[test]
fn workers_answer_every_request() {
    assert!(matches!(
        handle_request(MlRequest::Ping { request_id: 3 }),
        MlStep::Pong { request_id: 3 }
    ));
    assert!(matches!(
        handle_request(MlRequest::Shutdown { request_id: 4 }),
        MlStep::ShuttingDown { request_id: 4 }
    ));
    let bad = MlRequest::Ocr { request_id: 5, timeout_ms: 0, image: b"no image".to_vec() };
    assert!(matches!(
        handle_request(bad),
        MlStep::Refuse { request_id: 5, kind: "image_decode", .. }
    ));
    let image = carbonpaper::images::encode_pixels(vec![128; 12], 2, 2, 100).unwrap();
    let good = MlRequest::Ocr { request_id: 6, timeout_ms: 0, image: image.jpeg_bytes };
    match handle_request(good) {
        MlStep::Read { request_id, timeout_ms, width, height, rgb } => {
            assert_eq!((request_id, timeout_ms, width, height), (6, 1, 2, 2));
            assert_eq!(rgb, vec![128; 12]);
        }
        other => panic!("unexpected {other:?}"),
    }
    assert!(matches!(
        image_step(1, 5, Ok((1, 1, vec![0; 3]))),
        MlStep::Read { timeout_ms: 5, .. }
    ));
    for (failure, kind) in [
        (OcrFailure::TimedOut, "timeout"),
        (OcrFailure::Cancelled, "cancelled"),
        (OcrFailure::QueueFull, "queue_full"),
        (OcrFailure::WorkerPanicked, "worker_panic"),
        (OcrFailure::WorkerStopped, "worker_stopped"),
        (OcrFailure::Ocr, "ocr"),
    ] {
        assert_eq!(failure_kind(failure), kind);
    }
    let told = OfficeFailure::Told { kind: "com".to_string(), message: "文".repeat(5000) };
    let (kind, message) = office_failure(told);
    assert_eq!((kind.as_str(), message.chars().count()), ("com", 4096));
    assert_eq!(office_failure(OfficeFailure::Panicked).0, "panic");
}

#[test]
fn moments_are_read_and_written() {
    let at = parse_moment("2024-03-01T12:30:15.250+02:00").unwrap();
    assert_eq!(at, Moment { seconds: 1_709_289_015, nanos: 250_000_000 });
    assert_eq!(parse_moment("2024-03-01 10:30:15").unwrap().seconds, 1_709_289_015);
    assert!(parse_moment("yesterday").is_none());
    assert_eq!(parse_moment_millis("2024-03-01T12:30:15.250+02:00"), Some(1_709_289_015_250));
    assert_eq!(parse_moment_millis("2024-03-01 10:30:15"), Some(1_709_289_015_000));
    assert_eq!(parse_millis("2024-03-01T10:30:15Z"), Some(1_709_289_015_000));
    assert!(parse_millis("?").is_none());
    let whole = Moment { seconds: 1_709_289_015, nanos: 0 };
    assert_eq!(moment_text(whole).as_deref(), Some("2024-03-01T10:30:15+00:00"));
    assert_eq!(database_text(whole).as_deref(), Some("2024-03-01 10:30:15"));
    assert!(moment_text(Moment { seconds: i64::MAX, nanos: 0 }).is_none());
    assert_eq!(elapsed_since(at, whole), Some(250_000_000));
    assert_eq!(elapsed_since(whole, at), None);
    assert!(at.has_reached(whole) && !whole.has_reached(at));
    assert_eq!(either_moment(None, Some((5, 6, 7))), Some(Moment { seconds: 5, nanos: 6 }));
    assert_eq!(either_moment(None, None), None);
}

#[test]
fn numbers_read_back_from_their_bytes() {
    let mut out = Vec::new();
    push_le(&mut out, 0x0102_0304, 4);
    push_zeros(&mut out, 2);
    push_bytes(&mut out, &[9]);
    assert_eq!(out, vec![4, 3, 2, 1, 0, 0, 9]);
    assert_eq!(read_le(&out, 0, 4), 0x0102_0304);
    assert_eq!(read_le(&out, 1, 2), 0x0203);
    assert_eq!(sort_ascending(&[3, 1, 2, 1]), vec![1, 1, 2, 3]);
}
