use carbonpaper::clip_contract::{
    INVALID_VECTOR, LEGACY_VECTOR_DECODE_FAILED, ORPHAN_DOCUMENT_ID, RUN_FAILED,
    SCREENSHOT_DISAPPEARED, SNAPSHOT_ROW_MISSING,
};
use carbonpaper::clip_index::{
    accept_image, cached_offer_serves, check_decision, check_vector_count, chunk_encoded,
    claim_decision, counted_backfill_offer, deferred_backfill_offer, drain_result, drain_step,
    drain_until_done, encode_body, enqueue_captured_screenshot, estimated_seconds, expected_skip,
    indexable_hashes, load_image, locked_refusal, may_run, offer_source, pass_refusal,
    repair_again, representative, retry_moment, run_refusal, run_summary, scan_window,
    scope_from_state, split_census, stand_aside_for_foreground, terminal_backfill_offer,
    ClaimDecision, ClipIndexRunState, DrainNext, DrainStep, EnqueuePlan, OfferSource, PassFacts,
    PassMode, PassOutcome, RepairScope, StandAside, ASSUMED_PIXELS, BACKFILL_APPROVED,
    BACKFILL_DECLINED, DRAIN_BATCH, EMBED_TIMEOUT_SECS, ENCODE_CHUNK, ENCODE_FIXED_MICROS,
    REPAIR_SCAN_WINDOW, STOPPED_BY_USER,
};
use carbonpaper::prepared_pixels::{
    DecodedImage, PreparedCapture, PreparedCaptures, CAPTURE_PIXEL_BUDGET_BYTES,
    CAPTURE_PIXEL_TTL_MS,
};
use carbonpaper::timestamps::parse_moment;

const NOW: u64 = 1_000_000_000;

fn prepared(hash: &str, bytes: usize, age_ms: u64) -> PreparedCapture {
    PreparedCapture {
        image_hash: hash.to_string(),
        screenshot_id: 1,
        width: 1,
        height: 1,
        rgb: vec![0; bytes],
        prepared_at: NOW - age_ms,
    }
}

#[test]
fn prepared_pixels_below_the_budget_are_all_kept() {
    let mut cache = PreparedCaptures::new();
    cache.insert(prepared("a", 1024, 0));
    cache.insert(prepared("b", 1024, 0));
    cache.make_room(1024);
    assert_eq!(cache.len(), 2);
}

#[test]
fn the_oldest_prepared_capture_is_evicted_first() {
    let half = CAPTURE_PIXEL_BUDGET_BYTES / 2;
    let mut cache = PreparedCaptures::new();
    cache.insert(prepared("old", half, 600_000));
    cache.insert(prepared("new", half, 1_000));
    cache.make_room(half);
    assert!(!cache.contains_key("old"));
    assert!(cache.contains_key("new"));
}

#[test]
fn an_entry_larger_than_the_whole_budget_does_not_spin_the_eviction_loop() {
    let mut cache = PreparedCaptures::new();
    cache.insert(prepared("a", 1024, 0));
    cache.make_room(CAPTURE_PIXEL_BUDGET_BYTES + 1);
    assert_eq!(cache.len(), 0);
}

#[test]
fn expired_prepared_pixels_are_dropped() {
    let mut cache = PreparedCaptures::new();
    cache.insert(prepared("stale", 16, CAPTURE_PIXEL_TTL_MS + 1_000));
    cache.insert(prepared("fresh", 16, 5_000));
    cache.drop_expired(NOW);
    assert!(!cache.contains_key("stale"));
    assert!(cache.contains_key("fresh"));
}

#[test]
fn pixels_are_held_until_they_are_forgotten() {
    let mut cache = PreparedCaptures::new();
    let image = || DecodedImage { width: 2, height: 1, rgb: vec![1, 2, 3, 4, 5, 6] };
    cache.remember_captured_pixels(7, "h", Some(image()), NOW);
    assert_eq!(cache.prepared_screenshot_id("h", NOW), Some(7));
    assert_eq!(cache.prepared_image("h", NOW).unwrap().rgb, image().rgb);
    assert!(cache.prepared_image("h", NOW + CAPTURE_PIXEL_TTL_MS).is_none());
    assert!(cache.has_prepared_captures(NOW));
    cache.forget_prepared("h");
    assert!(!cache.has_prepared_captures(NOW));
    cache.remember_captured_pixels(7, "h", None, NOW);
    assert_eq!(cache.len(), 0);
}

#[test]
fn the_pixel_budget_holds_a_meaningful_number_of_captures() {
    let entry = 224 * 224 * 3;
    assert!(CAPTURE_PIXEL_BUDGET_BYTES / entry >= 400);
}

#[test]
fn one_image_per_chunk_bounds_the_foreground_wait() {
    assert_eq!(ENCODE_CHUNK, 1);
    assert!(DRAIN_BATCH >= ENCODE_CHUNK);
}

#[test]
fn the_embed_timeout_covers_a_cold_model_load() {
    assert!(EMBED_TIMEOUT_SECS >= 120);
}

#[test]
fn terminal_backfill_states_do_not_request_full_history_diagnostics() {
    let migrating = terminal_backfill_offer(false, None);
    assert!(!migrating.migration_settled);
    assert!(!migrating.should_ask);
    assert_eq!(migrating.never_indexed, 0);

    let decided = terminal_backfill_offer(true, Some(BACKFILL_DECLINED.to_string()));
    assert_eq!(decided.decision.as_deref(), Some(BACKFILL_DECLINED));
    assert!(!decided.should_ask);
    assert_eq!(decided.estimated_seconds, 0);

    let deferred = deferred_backfill_offer();
    assert!(deferred.migration_settled);
    assert!(deferred.diagnostics_deferred);
    assert!(!deferred.should_ask);
}

#[test]
fn the_assumed_size_is_the_measured_1080p_point() {
    let megapixels = ASSUMED_PIXELS as f64 / 1_000_000.0;
    assert!((megapixels - 1920.0 * 1080.0 / 1_000_000.0).abs() < 1e-9);
    let estimate = ENCODE_FIXED_MICROS as f64 / 1_000_000.0 + megapixels * 0.25;
    assert!((estimate - 0.67).abs() < 0.02);
    assert_eq!(estimated_seconds(100, 100 * ASSUMED_PIXELS), 67);
    assert_eq!(estimated_seconds(0, 0), 0);
    assert_eq!(estimated_seconds(10, 0), 2);
}

#[test]
fn the_repair_scan_window_is_a_bound_sqlite_modifier() {
    assert!(REPAIR_SCAN_WINDOW.starts_with('-'));
    assert!(REPAIR_SCAN_WINDOW.ends_with("days"));
}

#[test]
fn only_an_approved_backfill_widens_the_scan_to_the_whole_history() {
    assert_eq!(scope_from_state(false, None), RepairScope::Suspended);
    assert_eq!(
        scope_from_state(false, Some(BACKFILL_APPROVED)),
        RepairScope::Suspended
    );
    assert_eq!(scope_from_state(true, None), RepairScope::Recent);
    assert_eq!(
        scope_from_state(true, Some(BACKFILL_DECLINED)),
        RepairScope::Recent
    );
    assert_eq!(
        scope_from_state(true, Some(BACKFILL_APPROVED)),
        RepairScope::Full
    );
    assert_eq!(scope_from_state(true, Some("yes")), RepairScope::Recent);

    assert_eq!(scan_window(RepairScope::Full), None);
    assert_eq!(scan_window(RepairScope::Recent), Some(REPAIR_SCAN_WINDOW));
}

#[test]
fn a_skipped_row_is_not_reported_as_a_failed_one() {
    assert!(!expected_skip(LEGACY_VECTOR_DECODE_FAILED));
    assert!(!expected_skip(INVALID_VECTOR));
    assert!(expected_skip(ORPHAN_DOCUMENT_ID));
    assert!(expected_skip(SCREENSHOT_DISAPPEARED));
    assert!(expected_skip(SNAPSHOT_ROW_MISSING));
    assert!(!expected_skip(RUN_FAILED));
    let census = vec![
        (ORPHAN_DOCUMENT_ID.to_string(), 40),
        (INVALID_VECTOR.to_string(), 2),
        (RUN_FAILED.to_string(), 1),
    ];
    assert_eq!(split_census(&census), (40, 2));
    let offer = counted_backfill_offer(10, 0, 0, Some(&census), None);
    assert!(offer.should_ask);
    assert_eq!((offer.skipped_deleted, offer.failed_imports), (40, 2));
    assert_eq!(offer.estimated_seconds, 2);
}

#[test]
fn an_image_is_indexed_for_the_newest_screenshot_with_words() {
    let texts = vec![(3, "  ".to_string()), (2, "words".to_string())];
    assert_eq!(representative(&[3, 2, 1], &texts), Some(2));
    assert_eq!(representative(&[3, 1], &texts), None);
    let shared = vec![("h".to_string(), vec![3, 2]), ("i".to_string(), vec![1])];
    assert_eq!(indexable_hashes(&shared, &texts), vec![("h".to_string(), 2)]);
    assert!(matches!(
        enqueue_captured_screenshot("", true),
        EnqueuePlan::Nothing
    ));
    match enqueue_captured_screenshot("h", true) {
        EnqueuePlan::Ensure { spec } => assert_eq!(spec.subject_key, "h"),
        other => panic!("unexpected {other:?}"),
    }
    assert!(matches!(
        enqueue_captured_screenshot("h", false),
        EnqueuePlan::Exclude { code: "empty_source", .. }
    ));
}

fn facts() -> PassFacts {
    PassFacts {
        maintenance: false,
        idle: true,
        foreground_waiting: false,
        stop_requested: false,
    }
}

#[test]
fn passes_run_only_while_nothing_is_in_their_way() {
    assert!(may_run(PassMode::Idle, facts()));
    assert!(!may_run(PassMode::Idle, PassFacts { idle: false, ..facts() }));
    assert!(may_run(PassMode::Manual, PassFacts { idle: false, ..facts() }));
    assert!(!may_run(PassMode::Manual, PassFacts { maintenance: true, ..facts() }));
    assert!(pass_refusal(PassMode::Manual, facts(), None).is_none());
    assert_eq!(
        pass_refusal(PassMode::Manual, facts(), Some(STOPPED_BY_USER)),
        Some(STOPPED_BY_USER)
    );
    assert!(locked_refusal(true, false).is_none());
    assert!(locked_refusal(false, true).is_none());
    assert!(locked_refusal(false, false).is_some());
    assert!(repair_again(1, 1, false));
    assert!(!repair_again(1, 0, false));
    assert!(!repair_again(1, 1, true));
    assert!(!repair_again(4096, 1, false));
    assert!(matches!(stand_aside_for_foreground(facts(), 0), StandAside::Free));
    let waiting = PassFacts { foreground_waiting: true, ..facts() };
    assert!(matches!(stand_aside_for_foreground(waiting, 0), StandAside::Wait));
    assert!(matches!(
        stand_aside_for_foreground(waiting, 300_000),
        StandAside::GiveUp { .. }
    ));
}

#[test]
fn drains_count_what_they_did() {
    let mut outcome = PassOutcome::default();
    assert!(matches!(
        drain_step(&mut outcome, 3, PassMode::Manual, facts()),
        DrainStep::Encode { count: 1 }
    ));
    assert!(chunk_encoded(&mut outcome, 1, Some(1)));
    assert!(!chunk_encoded(&mut outcome, 1, None));
    assert_eq!((outcome.indexed, outcome.failed), (1, 1));
    let stop = PassFacts { stop_requested: true, ..facts() };
    assert!(matches!(
        drain_step(&mut outcome, 2, PassMode::Manual, stop),
        DrainStep::Release { reason: STOPPED_BY_USER }
    ));
    assert!(matches!(
        drain_step(&mut PassOutcome::default(), 0, PassMode::Manual, facts()),
        DrainStep::Done
    ));
    assert!(PassOutcome::default().asks_rebuild());
    assert!(!PassOutcome::refused("maintenance").asks_rebuild());
    let failed = |mode| drain_result(PassOutcome::default(), Some("x".to_string()), mode);
    assert_eq!(
        failed(PassMode::Manual).unwrap().stopped_because,
        Some("encode_failed")
    );
    assert_eq!(failed(PassMode::Idle).unwrap_err(), "x");
    let mut total = PassOutcome::default();
    let batch = PassOutcome { indexed: 2, ..PassOutcome::default() };
    assert_eq!(drain_until_done(&mut total, batch), DrainNext::Again);
    assert_eq!(total.indexed, 2);
    assert_eq!(
        drain_until_done(&mut total, PassOutcome::default()),
        DrainNext::Done
    );
    let summary = run_summary(total, Some((4, 1)));
    assert!(summary.started);
    assert_eq!((summary.indexed, summary.remaining, summary.stalled), (2, Some(4), Some(1)));
    let mut run = ClipIndexRunState::default();
    assert!(run_refusal(true, &run).is_none());
    assert!(run_refusal(false, &run).is_some());
    run.begin();
    run.report_chunk(2, 1);
    assert_eq!((run.progress().processed, run.progress().indexed), (2, 1));
    assert!(run.clip_index_stop_now());
    assert!(run.stopped_by_user());
    run.end();
    assert!(!run.is_running());
}

#[test]
fn jobs_are_claimed_for_what_is_still_there() {
    assert_eq!(claim_decision(false, None, &[1], true), ClaimDecision::Claim);
    assert_eq!(claim_decision(false, None, &[1], false), ClaimDecision::Exclude);
    assert_eq!(claim_decision(true, Some(1), &[1], true), ClaimDecision::Claim);
    assert_eq!(claim_decision(true, None, &[1], true), ClaimDecision::Leave);
    assert_eq!(
        claim_decision(true, Some(2), &[1], true),
        ClaimDecision::LeaveAndForget
    );
    let now = parse_moment("2024-01-01T00:00:00+00:00").unwrap();
    assert_eq!(retry_moment(now).as_deref(), Some("2024-01-01 00:30:00"));
}

#[test]
fn images_are_read_and_joined() {
    let picture = carbonpaper::images::encode_pixels(vec![128; 3], 1, 1, 100).unwrap();
    let image = load_image(&picture.jpeg_bytes).unwrap();
    assert_eq!((image.width, image.height), (1, 1));
    assert_eq!(image.rgb, vec![128, 128, 128]);
    assert!(load_image(b"no picture").is_err());
    assert!(accept_image(Ok((0, 1, Vec::new()))).is_err());
    let second = DecodedImage { width: 1, height: 1, rgb: vec![1, 2, 3] };
    let (inputs, body) = encode_body(&[image, second]);
    assert_eq!(body, vec![128, 128, 128, 1, 2, 3]);
    assert_eq!((inputs[1].offset, inputs[1].body_len, inputs[1].stride), (3, 3, 3));
    assert!(check_vector_count(2, 2).is_ok());
    assert!(check_vector_count(1, 2).is_err());
}

#[test]
fn offers_are_counted_only_where_they_are_wanted() {
    assert_eq!(offer_source(false, false, true, true), OfferSource::Terminal);
    assert_eq!(offer_source(true, true, true, true), OfferSource::Terminal);
    assert_eq!(offer_source(true, false, true, true), OfferSource::Count);
    assert_eq!(offer_source(true, false, false, true), OfferSource::Count);
    assert_eq!(offer_source(true, false, false, false), OfferSource::Deferred);
    assert!(cached_offer_serves(false, true, true, 0, 0, 29_999));
    assert!(!cached_offer_serves(true, true, true, 0, 0, 1));
    assert!(check_decision(BACKFILL_APPROVED).is_ok());
    assert!(check_decision("yes").is_err());
}
