use carbonpaper::ann_protocol::AnnRequest;
use carbonpaper::background_scheduler::ScheduledSliceResult;
use carbonpaper::clip_ann::validate_manifest;
use carbonpaper::clip_contract::{
    CLIP_EMBEDDING_VERSION, CLIP_MODEL_ID, CLIP_VECTOR_SPACE_REVISION,
};
use carbonpaper::derived::DerivedAnnSnapshotRow;
use carbonpaper::digest::sha256_hex;
use carbonpaper::paths::PathParts;
use carbonpaper::resumable::{
    already_published, ann_key, begin_build, build_contract, build_request, check_checkpoint_name,
    check_names, check_scratch_path, checkpoint_file_name, checkpoint_made, chunk_copied, cleaned,
    copy_plan, counts_as_failure, flat_hashed, freeze_rows, header, io_rest_ns, is_foreign,
    manifest, materialize_empty, materialize_plan, must_wait_for_idle, page_written,
    prepare_builder, published, read_checkpoint, reclaim_builder, recover_publication,
    reported_cost, required_operations, resume_failed, sample_key, scratch_extension, slice_step,
    start_unit, step_failed, unit_phase, worker_is_stale, AnnBuildCheckpoint, AnnCheckpointFile,
    CopyPlan, Heard, MaterializePlan, RequestWatch, SliceStep, SnapshotFacts, UnitFacts, UnitPhase,
    UnitStart, WatchStep,
};

fn state() -> AnnBuildCheckpoint {
    AnnBuildCheckpoint {
        runtime_generation: Some(0),
        generation: 7,
        dataset_id: "test".into(),
        model_fingerprint: "clip-test".into(),
        covered_epoch: 10,
        scan_upper: "last".into(),
        scan_cursor: "last".into(),
        expected_rows: 10,
        frozen_rows: 10,
        key_bytes: 100,
        phase: "publish".into(),
        materialized_rows: 10,
        materialized_key_bytes: 100,
        flat_checksum: Some(sha256_hex(b"flat input")),
        graph_bytes: 10,
        complete: Some(AnnCheckpointFile {
            name: "clip_image-7.checkpoint-10-1.cpdann".into(),
            checksum: sha256_hex(b"graph"),
            rows: 10,
        }),
        previous: Some(AnnCheckpointFile {
            name: "clip_image-7.checkpoint-5-1.cpdann".into(),
            checksum: sha256_hex(b"prefix"),
            rows: 5,
        }),
        copy_offset: 5,
    }
}

#[test]
fn publication_recovers_partial_copies_and_preserves_complete_and_ready_files() {
    let mut state = state();
    assert_eq!(
        recover_publication(
            &mut state,
            Some(b"flat input"),
            Some(b"gra"),
            Some(b"graph")
        ),
        Ok(true)
    );
    assert_eq!(state.phase, "copy_ann");
    assert_eq!(state.copy_offset, 0);
    assert_eq!(state.complete.as_ref().unwrap().rows, 10);
    state.phase = "publish".into();
    assert_eq!(
        recover_publication(
            &mut state,
            Some(b"flat input"),
            Some(b"graph"),
            Some(b"graph")
        ),
        Ok(false)
    );
}

#[test]
fn publication_falls_back_to_frozen_input_or_the_previous_checkpoint() {
    let mut state = state();
    assert_eq!(
        recover_publication(
            &mut state,
            Some(b"flat input"),
            Some(b"corrupt copy"),
            Some(b"corrupt checkpoint"),
        ),
        Ok(true)
    );
    assert_eq!(state.phase, "build");
    assert_eq!(state.complete.as_ref().unwrap().rows, 5);
    assert!(state.previous.is_none());
    state.phase = "publish".into();
    assert_eq!(
        recover_publication(
            &mut state,
            Some(b"corrupt flat"),
            Some(b"corrupt copy"),
            Some(b"corrupt checkpoint"),
        ),
        Ok(true)
    );
    assert_eq!(state.phase, "materialize");
    assert_eq!(state.materialized_rows, 0);
    assert_eq!(state.materialized_key_bytes, 0);
    assert!(state.flat_checksum.is_none());
    assert_eq!(state.complete.as_ref().unwrap().rows, 5);
}

fn snapshot() -> SnapshotFacts {
    SnapshotFacts {
        epoch: 3,
        rows: 2,
        dimensions: 512,
        model: CLIP_MODEL_ID.to_string(),
        revision: CLIP_VECTOR_SPACE_REVISION.to_string(),
        version: CLIP_EMBEDDING_VERSION,
    }
}

#[test]
fn a_build_goes_through_its_phases() {
    let mut build = begin_build(&snapshot(), 9, 4, "set").unwrap();
    assert_eq!(unit_phase(&build), Ok(UnitPhase::Freeze));
    assert!(!is_foreign(Some(&build), "set"));
    assert!(is_foreign(Some(&build), "other"));
    build.frozen_rows = 2;
    build.key_bytes = 2;
    build.phase = "materialize".to_string();
    assert!(!materialize_empty(&mut build));
    assert_eq!(materialize_plan(&mut build, false), MaterializePlan::Create);
    let row = |key: &str| DerivedAnnSnapshotRow {
        subject_key: key.to_string(),
        dimensions: 512,
        vector_f32: vec![0; 2048],
    };
    page_written(&mut build, 1, &[row("a")]);
    assert_eq!(
        materialize_plan(&mut build, true),
        MaterializePlan::Resume { rows: 1, key_bytes: 1 }
    );
    page_written(&mut build, 2, &[row("b")]);
    assert_eq!(unit_phase(&build), Ok(UnitPhase::HashFlat));
    flat_hashed(&mut build, b"flat");
    assert_eq!(unit_phase(&build), Ok(UnitPhase::Build));
    assert!(prepare_builder(&mut build, Some(b"flat"), true));
    let name = checkpoint_file_name(9, 2, 1);
    assert_eq!(name, "clip_image-9.checkpoint-2-1.cpdann");
    assert!(check_checkpoint_name(&build, &name));
    assert!(checkpoint_made(&mut build, name, sha256_hex(b"graph"), 2, 5).is_none());
    assert_eq!(unit_phase(&build), Ok(UnitPhase::CopyAnn));
    assert_eq!(
        copy_plan(&mut build, true, None, 5, None),
        Ok(CopyPlan::Continue { offset: 0 })
    );
    chunk_copied(&mut build, 5);
    assert_eq!(
        copy_plan(&mut build, true, None, 5, Some(5)),
        Ok(CopyPlan::Continue { offset: 5 })
    );
    chunk_copied(&mut build, 0);
    assert_eq!(unit_phase(&build), Ok(UnitPhase::Publish));
    let made = manifest(&build, "2024-01-01T00:00:00+00:00".to_string()).unwrap();
    assert!(validate_manifest(&made).is_ok());
    assert_eq!(made.ann_checksum_sha256, sha256_hex(b"graph"));
    assert_eq!(published(&mut build).processed, 2);
    assert_eq!(unit_phase(&build), Ok(UnitPhase::Cleanup));
    cleaned(&mut build, true);
    assert_eq!(build.phase, "cleanup");
    cleaned(&mut build, false);
    assert_eq!(
        unit_phase(&build).unwrap_err(),
        "Unknown ANN checkpoint phase"
    );
}

#[test]
fn damaged_builds_go_back_to_what_is_sound() {
    let mut build = state();
    assert!(!prepare_builder(&mut build, Some(b"other"), true));
    assert_eq!(build.phase, "materialize");
    assert_eq!(build.materialized_rows, 0);
    let mut build = state();
    assert!(prepare_builder(&mut build, Some(b"flat input"), false));
    assert_eq!(build.complete.as_ref().unwrap().rows, 5);
    let mut build = state();
    assert!(step_failed(&mut build, "ANN checkpoint digest mismatch".to_string()).is_ok());
    assert_eq!(build.complete.as_ref().unwrap().rows, 5);
    let mut build = state();
    assert!(step_failed(&mut build, "out of memory".to_string()).is_err());
    let mut build = state();
    assert_eq!(copy_plan(&mut build, false, None, 0, None), Ok(CopyPlan::Recover));
    assert_eq!(build.phase, "build");
    let mut build = state();
    assert_eq!(
        copy_plan(&mut build, true, Some(b"graph"), 5, None),
        Ok(CopyPlan::Copied)
    );
    let mut build = state();
    build.complete = None;
    assert_eq!(
        copy_plan(&mut build, true, None, 5, None).unwrap_err(),
        "ANN checkpoint missing"
    );
    assert_eq!(
        manifest(&build, String::new()).unwrap_err(),
        "ANN complete checkpoint missing"
    );
    let mut build = state();
    assert!(
        resume_failed(&mut build, "ANN partial flat checkpoint mismatch".to_string()).is_ok()
    );
    assert_eq!(build.materialized_rows, 0);
    assert!(resume_failed(&mut build, "x".to_string()).is_err());
    let mut build = state();
    assert!(!already_published(&mut build, Some(6)));
    assert!(already_published(&mut build, Some(7)));
    assert_eq!(build.phase, "cleanup");
}

#[test]
fn names_stay_inside_their_directory() {
    let mut build = state();
    assert!(check_names(&build).is_ok());
    build.complete.as_mut().unwrap().name = "clip_image-7.checkpoint-../x".to_string();
    assert_eq!(
        check_names(&build).unwrap_err(),
        "ANN checkpoint filename is invalid"
    );
    assert!(!check_checkpoint_name(&build, "clip_image-8.checkpoint-1-1.cpdann"));
    assert_eq!(scratch_extension(4), "checkpoint-4.partial");
    let parts = |names: &[&str]| PathParts {
        parts: names.iter().map(|name| name.to_string()).collect(),
    };
    assert!(check_scratch_path(&parts(&["a", "b"]), &parts(&["a", "b"])).is_ok());
    assert!(check_scratch_path(&parts(&["b"]), &parts(&["a"])).is_err());
    assert!(check_scratch_path(&parts(&["a"]), &parts(&["a", "b"])).is_err());
    let written = header(&state()).unwrap();
    assert_eq!((written.generation, written.row_count), (7, 10));
    assert_eq!(written.expansion_search, 2400);
}

#[test]
fn units_start_only_where_something_is_to_do() {
    let facts = UnitFacts {
        enabled: true,
        build_free: true,
        retry_due: true,
        background: false,
        rebuild: true,
    };
    let mut own = begin_build(&snapshot(), 9, 4, "set").unwrap();
    assert!(matches!(start_unit(facts, None, "set"), UnitStart::Begin));
    assert!(matches!(start_unit(facts, Some(&own), "set"), UnitStart::Resume));
    assert!(matches!(start_unit(facts, Some(&own), "other"), UnitStart::Begin));
    own.phase = "complete".to_string();
    let none = UnitFacts { rebuild: false, ..facts };
    assert!(matches!(start_unit(none, Some(&own), "set"), UnitStart::Done));
    let beside = UnitFacts { background: true, ..facts };
    assert!(matches!(start_unit(beside, None, "set"), UnitStart::WaitForIdle));
    for (wrong, reason) in [
        (UnitFacts { enabled: false, ..facts }, "disabled"),
        (UnitFacts { build_free: false, ..facts }, "ann_busy"),
        (UnitFacts { retry_due: false, ..facts }, "retry_wait"),
    ] {
        match start_unit(wrong, None, "set") {
            UnitStart::Skip { reason: told } => assert_eq!(told, reason),
            other => panic!("unexpected {other:?}"),
        }
    }
    let foreign = SnapshotFacts { dimensions: 384, ..snapshot() };
    assert_eq!(
        begin_build(&foreign, 9, 4, "set").unwrap_err(),
        "ANN source model contract does not match current CLIP"
    );
    assert!(
        read_checkpoint(Err("invalid ANN checkpoint metadata: eof".to_string()))
            .unwrap()
            .is_none()
    );
    assert!(read_checkpoint(Err("locked".to_string())).is_err());
    assert!(must_wait_for_idle(&own, true, false));
    assert!(!must_wait_for_idle(&own, true, true));
    assert_eq!((freeze_rows(true), freeze_rows(false)), (1, 64));
    assert!(build_contract().starts_with(CLIP_VECTOR_SPACE_REVISION));
}

#[test]
fn costs_are_kept_by_operation_and_size() {
    let key = ann_key(&state(), "ann_insert");
    assert_eq!((key.task.as_str(), key.operation.as_str()), ("ann_build", "ann_insert"));
    assert_eq!(required_operations().len(), 6);
    assert_eq!(sample_key(&state(), "ann_insert", 10).task, "ann_build");
    let cost = reported_cost(1, 2, 10, 4);
    assert_eq!((cost.peak_private_bytes, cost.additional_peak_bytes), (10, 6));
    assert_eq!(io_rest_ns(true, 2_097_152), 1_000_000_000);
    assert_eq!(io_rest_ns(false, 2_097_152), 0);
    // The nearest, and the even one of two that are equally near.
    assert_eq!(io_rest_ns(true, 1), 477);
    assert_eq!(io_rest_ns(true, 2048), 976_562);
    assert_eq!(io_rest_ns(true, 6144), 2_929_688);
    assert!(worker_is_stale((7, 1), 7, 2, 0));
    assert!(!worker_is_stale((7, 1), 7, 1, 299_999));
    assert!(reclaim_builder(false, 300_000) && !reclaim_builder(false, 0));
    assert!(counts_as_failure("out of memory"));
    assert!(!counts_as_failure("background_paused: user"));
}

#[test]
fn requests_are_cancelled_and_then_killed() {
    let mut watch = RequestWatch {
        request_id: 3,
        background: true,
        started: 0,
        cancelled_at: None,
        error: None,
    };
    assert!(matches!(watch.poll(Heard::Nothing, None, 1000), WatchStep::Wait));
    assert!(matches!(
        watch.poll(Heard::Reply { request_id: 4 }, None, 1000),
        WatchStep::Fail { error } if error == "ANN worker response ID mismatch"
    ));
    assert!(matches!(
        watch.poll(Heard::Nothing, None, 1001),
        WatchStep::Cancel { overrun: true }
    ));
    assert!(matches!(watch.poll(Heard::Nothing, None, 1500), WatchStep::Wait));
    assert!(matches!(
        watch.poll(Heard::Nothing, None, 1501),
        WatchStep::Kill { error } if error == "background_paused: ANN cost overrun"
    ));
    assert!(matches!(
        watch.poll(Heard::Gone, None, 1501),
        WatchStep::Fail { error } if error == "ANN builder failed: worker disconnected"
    ));
    assert!(matches!(
        watch.poll(Heard::Reply { request_id: 3 }, None, 1501),
        WatchStep::Reply
    ));
    match build_request(&state(), 5, true, false, "flat".to_string(), Some("c".to_string())) {
        AnnRequest::Open { request_id, checkpoint_rows, checksum, .. } => {
            assert_eq!((request_id, checkpoint_rows), (5, 10));
            assert_eq!(checksum, Some(sha256_hex(b"graph")));
        }
        other => panic!("unexpected {other:?}"),
    }
    assert!(matches!(
        build_request(&state(), 5, false, true, "flat".to_string(), None),
        AnnRequest::Step { request_id: 5, background: true }
    ));
}

#[test]
fn slices_that_were_asked_for_go_on_until_their_end() {
    let more = || ScheduledSliceResult::complete(true);
    assert!(matches!(slice_step(true, more(), false, None), SliceStep::Continue));
    assert!(matches!(slice_step(false, more(), false, None), SliceStep::End { .. }));
    match slice_step(true, more(), true, Some("closed")) {
        SliceStep::End { result } => {
            assert_eq!(result.skipped_reason.as_deref(), Some("manual_deadline"));
            assert!(result.has_more && !result.completed);
        }
        SliceStep::Continue => panic!("the time is up"),
    }
    let done = ScheduledSliceResult::complete(false);
    assert!(matches!(
        slice_step(true, done, false, None),
        SliceStep::End { result } if result.completed
    ));
}
