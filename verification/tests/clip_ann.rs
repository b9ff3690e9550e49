use carbonpaper::ann_format::Header;
use carbonpaper::ann_sidecar::{FlatFileWriter, MappedFlatIndex};
use carbonpaper::ann_worker::GraphFacts;
use carbonpaper::clip_ann::{
    ann_failure_toast, ann_retry_due, apply_expansion_search, check_checksums, check_graph,
    classify_ann_failure, enabled, flat_file_name, graph_file_name, rebuild_at_age,
    rebuild_needed, record_ann_build_failure, startup_bootstrap_ready, truncate_ann_error,
    validate_manifest, write_ann_snapshot_page, ArmStatus, ClipAnnState, GenerationReader,
    StartupFollowUp, StartupOutcome, ANN_FILE_FORMAT_VERSION, ANN_PERMANENT_FAILURE_BACKOFF,
    MIN_REBUILD_INTERVAL_NS,
};
use carbonpaper::clip_contract::{
    clip_document_id, clip_job_spec, clip_memory_uri, clip_source_fingerprint, CLIP_DIMENSIONS,
    CLIP_EMBEDDING_VERSION, CLIP_MODEL_ID, CLIP_VECTOR_SPACE_REVISION,
};
use carbonpaper::clip_search::{
    ann_candidate_count, exact_candidates, expansion_search, query_generation, ANN_MAX_CANDIDATES,
};
use carbonpaper::derived::{
    DerivedAnnBuildState, DerivedAnnGeneration, DerivedAnnSnapshotRow, DerivedAnnTailRow,
    DerivedIndexKind,
};
use carbonpaper::digest::sha256_hex;
use carbonpaper::paths::PathParts;
use carbonpaper::ranking::{comes_before, BoundedTopK, ScoredSubject};
use carbonpaper::timestamps::{moment_text, parse_moment, Moment};

fn test_manifest(generation: u64, row_count: u64, dimensions: u32) -> DerivedAnnGeneration {
    DerivedAnnGeneration {
        index_kind: DerivedIndexKind::ClipImage,
        generation,
        covered_epoch: 1,
        flat_file_name: format!("clip_image-{generation}.cpdvec"),
        flat_checksum_sha256: "0".repeat(64),
        ann_file_name: format!("clip_image-{generation}.cpdann"),
        ann_checksum_sha256: "0".repeat(64),
        row_count,
        dimensions,
        model_id: CLIP_MODEL_ID.to_string(),
        model_revision: CLIP_VECTOR_SPACE_REVISION.to_string(),
        embedding_version: CLIP_EMBEDDING_VERSION,
        sidecar_format_version: carbonpaper::ann_format::FORMAT_VERSION,
        ann_format_version: ANN_FILE_FORMAT_VERSION,
        algorithm: carbonpaper::ann_format::ANN_ALGORITHM.to_string(),
        implementation_version: carbonpaper::ann_format::ANN_IMPLEMENTATION_VERSION.to_string(),
        metric: carbonpaper::ann_format::ANN_METRIC.to_string(),
        quantization: carbonpaper::ann_format::ANN_QUANTIZATION.to_string(),
        connectivity: carbonpaper::ann_format::ANN_CONNECTIVITY,
        expansion_add: carbonpaper::ann_format::ANN_EXPANSION_ADD,
        expansion_search: 96,
        created_at: "2024-01-01T00:00:00+00:00".to_string(),
    }
}

fn parts(path: &str) -> PathParts {
    PathParts { parts: path.split('/').map(str::to_string).collect() }
}

fn test_reader(data_dir: &str, generation: u64) -> GenerationReader {
    GenerationReader {
        manifest: test_manifest(generation, 1, 2),
        data_dir: parts(data_dir),
    }
}

fn flat_bytes(keys: &[&str], vectors: &[Vec<f32>]) -> Vec<u8> {
    let key_bytes = keys.iter().map(|key| key.len() as u64).sum();
    let header = Header::for_snapshot(
        14,
        1,
        keys.len() as u64,
        vectors[0].len() as u32,
        "clip_image",
        CLIP_MODEL_ID,
        CLIP_VECTOR_SPACE_REVISION,
        96,
        key_bytes,
    )
    .unwrap();
    let mut writer = FlatFileWriter::create(header).unwrap();
    let mut file = vec![0u8; writer.file_len() as usize];
    for (key, vector) in keys.iter().zip(vectors) {
        writer.push_key(key).unwrap();
        let bits: Vec<u32> = vector.iter().map(|v| v.to_bits()).collect();
        writer.push_vector(&bits).unwrap();
    }
    let mut writes = writer.take_writes();
    writes.extend(writer.finish().unwrap());
    for write in writes {
        let at = write.offset as usize;
        file[at..at + write.bytes.len()].copy_from_slice(&write.bytes);
    }
    file
}

fn score(query: &[f32], vector: &Vec<u32>) -> u32 {
    let sum: f32 = query
        .iter()
        .zip(vector)
        .map(|(q, v)| q * f32::from_bits(*v))
        .sum();
    sum.to_bits()
}

#[test]
fn candidate_count_is_bounded_and_overfetches() {
    assert_eq!(ann_candidate_count(10, 2), 10);
    assert!(ann_candidate_count(100_000, 200) >= 800);
    assert_eq!(ann_candidate_count(1_000_000, 20_000), ANN_MAX_CANDIDATES);
}

#[test]
fn expansion_covers_production_page_sizes() {
    assert_eq!(expansion_search(50_000), 2400);
    assert!(expansion_search(600_000) >= 2400);
}

#[test]
fn startup_bootstrap_waits_for_clip_migration_and_an_idle_maintenance_guard() {
    assert!(!startup_bootstrap_ready(false, false));
    assert!(!startup_bootstrap_ready(true, true));
    assert!(startup_bootstrap_ready(true, false));
}

#[test]
fn transient_failures_back_off_and_open_after_three_attempts() {
    let first = classify_ann_failure("temporary builder failure", 1);
    let second = classify_ann_failure("temporary builder failure", 2);
    let third = classify_ann_failure("temporary builder failure", 3);
    let fourth = classify_ann_failure("temporary builder failure", 4);

    assert_eq!(first.delay, 15 * 60);
    assert!(!first.circuit_open);
    assert!(!first.notify);
    assert_eq!(second.delay, 60 * 60);
    assert!(!second.circuit_open);
    assert_eq!(third.delay, 6 * 60 * 60);
    assert!(third.circuit_open);
    assert!(third.notify);
    assert_eq!(fourth.delay, 24 * 60 * 60);
    assert!(fourth.circuit_open);
}

#[test]
fn deterministic_failures_open_the_circuit_immediately() {
    for (error, code) in [
        (
            "carbonpaper-ml.exe was not found for ANN construction",
            "builder_missing",
        ),
        ("Failed to constrain ANN builder job", "job_object_failed"),
        ("ANN builder failed: out of memory", "out_of_memory"),
        ("Failed to write graph: os error 112", "disk_full"),
    ] {
        let policy = classify_ann_failure(error, 1);
        assert_eq!(policy.code, code);
        assert_eq!(policy.delay, ANN_PERMANENT_FAILURE_BACKOFF);
        assert!(policy.circuit_open);
        assert!(policy.notify);
    }
}

#[test]
fn retry_gate_respects_deadline_but_force_bypasses_it() {
    let now = Moment { seconds: 1_700_000_000, nanos: 0 };
    let later = |minutes: i64| Moment { seconds: now.seconds + minutes * 60, nanos: 0 };
    let state = DerivedAnnBuildState {
        consecutive_failures: 1,
        last_failure_at: moment_text(now).unwrap(),
        next_retry_at: moment_text(later(15)).unwrap(),
        last_error_code: "build_failed".to_string(),
        last_error: "temporary".to_string(),
        circuit_open: false,
        notification_sent: false,
    };
    assert!(!ann_retry_due(Some(&state), now, false));
    assert!(ann_retry_due(Some(&state), now, true));
    assert!(ann_retry_due(Some(&state), later(16), false));

    let mut corrupt = state;
    corrupt.next_retry_at = "not-a-timestamp".to_string();
    assert!(!ann_retry_due(Some(&corrupt), now, false));
    assert!(ann_retry_due(Some(&corrupt), now, true));
    assert!(ann_retry_due(None, now, false));
}

#[test]
fn failures_are_put_down_with_their_next_attempt() {
    let at = parse_moment("2024-01-01T00:00:00+00:00").unwrap();
    let record = record_ann_build_failure(None, "temporary builder failure", at);
    assert_eq!(record.consecutive_failures, 1);
    assert_eq!(record.failed_at, "2024-01-01T00:00:00+00:00");
    assert_eq!(record.next_retry_at, "2024-01-01T00:15:00+00:00");
    assert_eq!(record.error, "temporary builder failure");
    let previous = DerivedAnnBuildState {
        consecutive_failures: 2,
        last_failure_at: record.failed_at,
        next_retry_at: record.next_retry_at,
        last_error_code: record.code.to_string(),
        last_error: record.error,
        circuit_open: record.circuit_open,
        notification_sent: false,
    };
    let third = record_ann_build_failure(Some(&previous), "temporary builder failure", at);
    assert_eq!(third.consecutive_failures, 3);
    assert!(third.circuit_open && third.notify);
    assert_eq!(third.next_retry_at, "2024-01-01T06:00:00+00:00");
    let far = Moment { seconds: 253_402_300_799, nanos: 0 };
    let late = record_ann_build_failure(None, "temporary builder failure", far);
    assert_eq!(late.failed_at, "9999-12-31T23:59:59+00:00");
    assert_eq!(late.next_retry_at, "+10000-01-01T00:14:59+00:00");
    let last = Moment { seconds: 8_210_266_876_799 - 900, nanos: 0 };
    assert_eq!(
        record_ann_build_failure(None, "temporary builder failure", last).next_retry_at,
        "+262142-12-31T23:59:59+00:00"
    );
    assert_eq!(truncate_ann_error(&"图".repeat(1200)), "图".repeat(1000));
    let toast = ann_failure_toast(&previous, 5);
    assert_eq!(toast.id, "clip-ann-build-2024-01-01T00:00:00+00:00");
    assert_eq!(toast.timestamp, 1_704_067_200_000);
    let unreadable = DerivedAnnBuildState { last_failure_at: "?".to_string(), ..previous };
    assert_eq!(ann_failure_toast(&unreadable, 5).timestamp, 5);
}

#[test]
fn manifest_rejects_parent_paths_and_generation_mismatches() {
    assert!(validate_manifest(&test_manifest(7, 1, CLIP_DIMENSIONS as u32)).is_ok());

    let mut manifest = test_manifest(7, 1, CLIP_DIMENSIONS as u32);
    manifest.flat_file_name = "../evil.cpdvec".to_string();
    assert!(validate_manifest(&manifest).is_err());

    let mut manifest = test_manifest(7, 1, CLIP_DIMENSIONS as u32);
    manifest.flat_file_name = "clip_image-8.cpdvec".to_string();
    assert!(validate_manifest(&manifest).is_err());

    let mut manifest = test_manifest(7, 1, CLIP_DIMENSIONS as u32);
    manifest.ann_file_name = "clip_image-8.cpdann".to_string();
    assert!(validate_manifest(&manifest).is_err());
    assert_eq!(flat_file_name(7), "clip_image-7.cpdvec");
    assert_eq!(graph_file_name(7), "clip_image-7.cpdann");
}

#[test]
fn generations_are_checked_against_their_files() {
    let mut manifest = test_manifest(7, 1, 2);
    manifest.flat_checksum_sha256 = sha256_hex(b"flat");
    manifest.ann_checksum_sha256 = sha256_hex(b"graph");
    assert!(check_checksums(&manifest, b"flat", b"graph").is_ok());
    assert!(check_checksums(&manifest, b"flaT", b"graph").is_err());
    assert!(check_checksums(&manifest, b"flat", b"").is_err());
    let facts = GraphFacts {
        size: 1,
        dimensions: 2,
        inner_product: true,
        eight_bit: true,
        connectivity: 16,
    };
    assert!(check_graph(&manifest, facts, 96).is_ok());
    assert!(check_graph(&manifest, GraphFacts { size: 2, ..facts }, 96).is_err());
    assert!(check_graph(&manifest, GraphFacts { eight_bit: false, ..facts }, 96).is_err());
}

#[test]
fn restored_view_reapplies_expansion_search() {
    let mut options = usearch::IndexOptions::default();
    options.dimensions = 2;
    options.metric = usearch::MetricKind::IP;
    options.quantization = usearch::ScalarKind::I8;
    let index = usearch::Index::new(&options).unwrap();
    index.change_expansion_search(777);
    apply_expansion_search(index.expansion_search() as u64, 777).unwrap();
    assert_eq!(index.expansion_search(), 777);
    assert!(apply_expansion_search(64, 777).is_err());
}

#[test]
fn bounded_topk_matches_full_sort_including_tied_keys() {
    let rows = [
        (0.5f32, "z"),
        (0.9, "b"),
        (0.9, "a"),
        (0.4, "c"),
        (0.9, "d"),
        (0.9, "c"),
        (-0.1, "aa"),
    ];
    let mut full: Vec<(f32, &str)> = rows.to_vec();
    full.sort_unstable_by(|a, b| b.0.total_cmp(&a.0).then_with(|| a.1.cmp(b.1)));
    full.truncate(4);

    let mut bounded = BoundedTopK::new(4);
    for (score, subject_key) in rows {
        bounded.push(score.to_bits(), subject_key);
    }
    let kept: Vec<(f32, String)> = bounded
        .into_sorted()
        .into_iter()
        .map(|entry| (f32::from_bits(entry.score), entry.subject_key))
        .collect();
    let full: Vec<(f32, String)> = full.iter().map(|(s, k)| (*s, k.to_string())).collect();
    assert_eq!(kept, full);
}

#[test]
fn texts_are_ordered_as_strings_are() {
    let texts = ["", "a", "aa", "b", "é", "z", "图", "🎵", "\u{ffff}"];
    for a in texts {
        for b in texts {
            assert_eq!(comes_before(a, b), a < b, "{a} {b}");
        }
    }
}

#[test]
fn disarm_prevents_an_old_startup_token_from_installing() {
    let mut state = ClipAnnState::default();
    let token = state.begin_arm().unwrap();
    state.disarm();

    assert!(!state.install_from_arm(token, &parts("/data"), test_reader("/data", 11)));
    assert!(!state.has_generation());
}

#[test]
fn disarm_prevents_an_old_rebuild_token_from_installing() {
    let mut state = ClipAnnState::default();
    let token = state.lifecycle_token();
    state.disarm();

    assert!(!state
        .publish_from_lifecycle(token, &parts("/data"), test_reader("/data", 12), Ok(()))
        .unwrap());
    assert!(!state.has_generation());
}

#[test]
fn loads_settle_under_their_own_token() {
    let mut state = ClipAnnState::default();
    let token = state.begin_arm().unwrap();
    assert_eq!(state.status, ArmStatus::Loading);
    assert_eq!(ClipAnnState::startup_answer(state.status), None);
    assert!(!state.install_from_arm(token, &parts("/other"), test_reader("/data", 1)));
    assert!(state.install_from_arm(token, &parts("/data"), test_reader("/data", 1)));
    assert_eq!(state.generation_snapshot(&parts("/data")), Some(1));
    assert_eq!(state.generation_snapshot(&parts("/other")), None);
    let next = state.lifecycle_token();
    assert!(state
        .publish_from_lifecycle(next, &parts("/data"), test_reader("/data", 2), Err("full".to_string()))
        .is_err());
    assert_eq!(state.generation_snapshot(&parts("/data")), Some(1));
    assert_eq!(
        state.publish_from_lifecycle(next, &parts("/data"), test_reader("/data", 2), Ok(())),
        Ok(true)
    );
    assert_eq!(state.generation.as_ref().unwrap().manifest.generation, 2);

    let mut missing = ClipAnnState::default();
    let token = missing.begin_arm().unwrap();
    assert_eq!(
        missing.settle_startup(token, StartupOutcome::Missing),
        StartupFollowUp::Bootstrap
    );
    assert_eq!(ClipAnnState::startup_answer(missing.status), Some(false));
    let mut failed = ClipAnnState::default();
    let token = failed.begin_arm().unwrap();
    failed.settle_startup(token, StartupOutcome::Failed { error: "bad".to_string() });
    assert_eq!(failed.last_error.as_deref(), Some("bad"));
    assert!(!failed.record_error_if_current(token.wrapping_add(1), "x".to_string()));
}

#[test]
fn generations_are_built_again_when_the_tail_is_long_and_they_are_old() {
    let old = test_manifest(7, 100_000, 512);
    assert!(rebuild_at_age(None, false, true, 0, None));
    assert!(!rebuild_at_age(None, true, false, 0, None));
    assert!(rebuild_at_age(Some(&old), true, true, 0, Some(0)));
    assert!(rebuild_at_age(Some(&old), false, true, 5_000, Some(MIN_REBUILD_INTERVAL_NS)));
    assert!(!rebuild_at_age(Some(&old), false, true, 4_999, Some(MIN_REBUILD_INTERVAL_NS)));
    assert!(!rebuild_at_age(Some(&old), false, true, 5_000, Some(MIN_REBUILD_INTERVAL_NS - 1)));
    let made = parse_moment(&old.created_at).unwrap();
    let after = |seconds: i64| Moment { seconds: made.seconds + seconds, nanos: 0 };
    assert!(rebuild_needed(Some(&old), false, true, 5_000, after(43_200)));
    assert!(!rebuild_needed(Some(&old), false, true, 5_000, after(43_199)));
    assert!(enabled(None));
}

#[test]
fn flat_exact_stops_after_the_deadline() {
    let file = flat_bytes(&["a", "b"], &[vec![1.0, 0.0], vec![0.0, 1.0]]);
    let flat = MappedFlatIndex::open(&file).unwrap();
    let query = [1.0f32, 0.0];
    let error =
        exact_candidates(&flat, &[], 2, 1, |v| score(&query, v), || true).unwrap_err();
    assert_eq!(error, "query_deadline_exceeded_during_flat_exact");
    // Few rows are scored with one look at the clock.
    let asked = std::cell::Cell::new(0);
    let late = || {
        asked.set(asked.get() + 1);
        false
    };
    assert_eq!(exact_candidates(&flat, &[], 2, 1, |v| score(&query, v), late).unwrap().len(), 1);
    assert_eq!(asked.get(), 1);
}

#[test]
fn searches_take_the_tail_before_the_generation() {
    let file = flat_bytes(
        &["a", "b", "c"],
        &[vec![1.0, 0.0], vec![0.5, 0.5], vec![0.25, 0.75]],
    );
    let flat = MappedFlatIndex::open(&file).unwrap();
    let query = [1.0f32, 0.0];
    let tail = vec![
        DerivedAnnTailRow { subject_key: "a".to_string(), vector: None },
        DerivedAnnTailRow {
            subject_key: "d".to_string(),
            vector: Some(vec![0.75f32.to_bits(), 0.0f32.to_bits()]),
        },
    ];
    let names = |found: Vec<ScoredSubject>| -> Vec<String> {
        found.into_iter().map(|entry| entry.subject_key).collect()
    };
    let exact = exact_candidates(&flat, &tail, 2, 2, |v| score(&query, v), || false).unwrap();
    assert_eq!(names(exact), ["d", "b"]);
    let found = query_generation(&flat, &[1, 2, 3], &tail, 2, 2, |v| score(&query, v)).unwrap();
    assert_eq!(names(found), ["d", "b"]);
    // The order in which the graph lists its keys makes no difference.
    let again = query_generation(&flat, &[3, 1, 2], &tail, 2, 2, |v| score(&query, v)).unwrap();
    assert_eq!(names(again), ["d", "b"]);
}

#[test]
fn snapshot_pages_are_written_row_by_row() {
    let header = Header::for_snapshot(
        3,
        1,
        2,
        1,
        "clip_image",
        CLIP_MODEL_ID,
        CLIP_VECTOR_SPACE_REVISION,
        96,
        2,
    )
    .unwrap();
    let mut writer = FlatFileWriter::create(header).unwrap();
    let mut written = 0;
    let row = |key: &str, dimensions: u32, value: f32| DerivedAnnSnapshotRow {
        subject_key: key.to_string(),
        dimensions,
        vector_f32: value.to_le_bytes().to_vec(),
    };
    let page = vec![row("a", 1, 0.5), row("b", 1, 0.25)];
    write_ann_snapshot_page(&mut writer, 1, &mut written, &page).unwrap();
    assert_eq!(written, 2);
    assert!(writer.finish().is_ok());
    let header = Header::for_snapshot(
        3,
        1,
        1,
        1,
        "clip_image",
        CLIP_MODEL_ID,
        CLIP_VECTOR_SPACE_REVISION,
        96,
        1,
    )
    .unwrap();
    let mut writer = FlatFileWriter::create(header).unwrap();
    let mut written = 0;
    assert!(
        write_ann_snapshot_page(&mut writer, 1, &mut written, &[row("a", 2, 0.5)]).is_err()
    );
}

#[test]
fn document_id_reproduces_the_python_key_scheme() {
    assert_eq!(clip_memory_uri("abc123"), "memory://abc123");
    assert_eq!(
        clip_document_id("abc123"),
        "200c8cdc45dea346718762f394f2ac40"
    );
    assert_eq!(
        clip_document_id(&"deadbeef".repeat(8)),
        "16adb578e258ebbe026c81a1c1fae6cb"
    );
    assert_eq!(clip_document_id(""), "7f6e0a2288f241643c9cbe37e8f07cd3");
    assert_ne!(clip_document_id("abc123"), clip_document_id("abc124"));
}

#[test]
fn source_fingerprint_is_versioned_and_derived_from_the_hash_alone() {
    let fingerprint = clip_source_fingerprint("abc123");
    assert_eq!(fingerprint.len(), 64);
    assert_eq!(fingerprint, clip_source_fingerprint("abc123"));
    assert_ne!(fingerprint, clip_source_fingerprint("abc124"));
    assert_ne!(fingerprint, sha256_hex(b"abc123"));
}

#[test]
fn job_spec_keys_on_the_image_hash_and_records_the_vector_space() {
    let spec = clip_job_spec("abc123");
    assert_eq!(spec.index_kind, DerivedIndexKind::ClipImage);
    assert_eq!(spec.subject_key, "abc123");
    assert_eq!(spec.model_revision, CLIP_VECTOR_SPACE_REVISION);
    assert_eq!(spec.embedding_version, CLIP_EMBEDDING_VERSION);
    assert_eq!(spec.source_fingerprint, clip_source_fingerprint("abc123"));
}

#[test]
fn searches_go_to_the_generation_that_is_there() {
    let unit = |at: usize, value: f32| {
        let mut vector = vec![0.0f32; CLIP_DIMENSIONS];
        vector[at] = value;
        vector
    };
    let file = flat_bytes(&["a", "b"], &[unit(0, 1.0), unit(0, 0.5)]);
    let flat = MappedFlatIndex::open(&file).unwrap();
    let query = unit(0, 1.0);
    let here = parts("/data");
    let newer = || DerivedAnnTailRow {
        subject_key: "c".to_string(),
        vector: Some(unit(0, 0.75).iter().map(|x| x.to_bits()).collect()),
    };
    let mut state = ClipAnnState::default();
    let search = |state: &ClipAnnState, enabled, tail: Result<(), &str>, keys: Result<&[u64], &str>| {
        state.query(
            enabled,
            &here,
            &flat,
            CLIP_DIMENSIONS,
            2,
            |_| tail.map(|_| vec![newer()]).map_err(str::to_string),
            |_| keys.map(<[u64]>::to_vec).map_err(str::to_string),
            |v| score(&query, v),
        )
    };
    assert!(search(&state, true, Ok(()), Ok(&[1, 2])).unwrap().is_none());
    let token = state.begin_arm().unwrap();
    let mut reader = test_reader("/data", 11);
    reader.manifest.row_count = 2;
    assert!(state.install_from_arm(token, &here, reader));
    assert!(search(&state, false, Ok(()), Ok(&[1, 2])).unwrap().is_none());
    let answer = search(&state, true, Ok(()), Ok(&[1, 2])).unwrap().unwrap();
    let names: Vec<&str> = answer.candidates.iter().map(|c| c.subject_key.as_str()).collect();
    assert_eq!(names, ["a", "c"]);
    assert_eq!((answer.mode, answer.tail_rows), ("ann", 1));
    assert!(search(&state, true, Err("ann_tail_too_large:9"), Ok(&[1])).unwrap().is_none());
    assert_eq!(search(&state, true, Err("locked"), Ok(&[1])).unwrap_err(), "locked");
    assert_eq!(
        search(&state, true, Ok(()), Err("broken")).unwrap_err(),
        "ann_search_failed:broken"
    );
    assert_eq!(
        search(&state, true, Ok(()), Ok(&[0])).unwrap_err(),
        "ann_search_returned_invalid_key"
    );

    let exact = |tail: Result<(), &str>, width: usize, late: bool| {
        state.exact_from_generation(
            true,
            &here,
            &flat,
            width,
            1,
            |_| tail.map(|_| vec![newer()]).map_err(str::to_string),
            |v| score(&query, v),
            || late,
        )
    };
    let answer = exact(Ok(()), CLIP_DIMENSIONS, false).unwrap().unwrap();
    assert_eq!(answer.candidates[0].subject_key, "a");
    assert_eq!((answer.mode, answer.tail_rows, answer.candidates.len()), ("flat_exact", 1, 1));
    assert!(exact(Err("locked"), CLIP_DIMENSIONS, false).unwrap().is_none());
    assert!(exact(Ok(()), 2, false).unwrap().is_none());
    assert_eq!(
        exact(Ok(()), CLIP_DIMENSIONS, true).unwrap_err(),
        "query_deadline_exceeded_during_flat_exact"
    );
}
