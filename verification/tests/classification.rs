use carbonpaper::anchors::{
    import_anchors, import_found, legacy_entries, validate_anchors, Anchor, Anchors, LegacyAnchor,
    LegacyEntry, WEIGHT_MAX, WEIGHT_ONE, WEIGHT_TWO,
};
use carbonpaper::classification::{
    check_database, feedback_input, must_classify, scheduling_deferred, stored_category,
    AnchorSource, ClassificationState, FeedbackRound, FeedbackStep,
};
use carbonpaper::classification_runtime::{
    check_time, chunk_error, directml_preference, semantic_text_chunks, slot_deadline, slot_error,
    stand_aside, validate_texts, ChunkAnswers, ClassificationDiagnosticInner, ForegroundStep,
    SemanticLimits, MAX_TEXTS_PER_REQUEST,
};
use carbonpaper::classify::Sum;
use carbonpaper::classifier::{duplicate, winners, Classifier, IndexedAnchor, LearnCosines};
use carbonpaper::ieee;
use carbonpaper::scoring::{
    begin_query, best, boost, clean_ocr, informative, judge_title, learned_snippet, paired,
    process_prior, revalue, settle_category, settle_title, strip_app_suffix, top,
    validate_vectors, Input, QueryStart, Scores,
};

const ITEM_BYTES: usize = 8192;

#[test]
fn native_admission_is_bounded_and_deduplicated_until_the_job_drops() {
    let mut state = ClassificationState::default();
    let mut permits = Vec::new();
    for id in 1..=8 {
        permits.push(state.permit(0, id).unwrap());
    }
    assert!(state.permit(0, 9).is_none());
    assert!(state.permit(0, 1).is_none());
    state.release(permits.remove(0));
    let replacement = state.permit(0, 1).unwrap();
    state.release(replacement);
    for permit in permits {
        state.release(permit);
    }
    assert_eq!(state.available_permits(), 8);
    assert!(state.active.is_empty());
}

#[test]
fn scheduling_yields_preserve_retry_budgets_but_inference_failures_do_not() {
    for error in [
        "foreground_busy: search",
        "background_busy: indexing",
        "foreground_request",
        "MAINTENANCE_IN_PROGRESS",
        "authentication required",
    ] {
        assert!(scheduling_deferred(error), "{error}");
    }
    for error in [
        "model missing",
        "invalid weighted classification score",
        "classification inference timed out",
    ] {
        assert!(!scheduling_deferred(error), "{error}");
    }
}

#[test]
fn the_classifier_is_made_anew_for_other_anchors() {
    let mut state = ClassificationState::default();
    let first = AnchorSource { generation: 1, revision: 2 };
    let anchors = || anchors_of(vec![("work", vec![structured("report", "global", None)])]);
    let mut classifier = None;
    state.refresh_cache(&mut classifier, first, anchors(), ITEM_BYTES).unwrap();
    assert_eq!(classifier.as_ref().unwrap().anchors.len(), 1);
    classifier.as_mut().unwrap().index = Some(Vec::new());
    state.refresh_cache(&mut classifier, first, anchors(), ITEM_BYTES).unwrap();
    assert!(classifier.as_ref().unwrap().index.is_some());
    let broken = || {
        let mut found = anchors();
        found["work"][0].weight = f64::NAN.to_bits();
        found
    };
    let second = AnchorSource { generation: 1, revision: 3 };
    for _ in 0..2 {
        assert_eq!(
            state
                .refresh_cache(&mut classifier, second, broken(), ITEM_BYTES)
                .unwrap_err(),
            "invalid anchor weight"
        );
        assert_eq!(state.cache, Some(first));
        assert!(classifier.as_ref().unwrap().index.is_some());
    }
    state.refresh_cache(&mut classifier, second, anchors(), ITEM_BYTES).unwrap();
    assert_eq!(state.cache, Some(second));
    assert!(classifier.as_ref().unwrap().index.is_none());
    state.refresh_cache(&mut classifier, first, anchors(), ITEM_BYTES).unwrap();
    assert!(state.check_generation(1).is_ok());
    assert_eq!(
        state.check_generation(2).unwrap_err(),
        "classification database changed"
    );
    assert!(scheduling_deferred(&check_database(1, 2).unwrap_err()));
    state.anchors_stored(Ok(3)).unwrap();
    assert_eq!(state.cache, Some(AnchorSource { generation: 1, revision: 3 }));
    assert!(state.may_store_lesson(true).is_ok());
    assert!(state.may_store_lesson(false).is_err());
    assert!(state.cache.is_none());
    state.refresh_cache(&mut classifier, first, anchors(), ITEM_BYTES).unwrap();
    assert!(state.anchors_stored(Err("full".to_string())).is_err());
    assert!(state.cache.is_none());
    assert!(!state.start_feedback(false));
    assert!(state.start_feedback(true));
    assert!(!state.start_feedback(true));
    state.end_feedback();
    assert!(state.start_feedback(true));
}

#[test]
fn categories_are_stored_only_while_they_are_wanted() {
    assert!(must_classify(0, None));
    assert!(!must_classify(1, None));
    assert!(!must_classify(0, Some(false)));
    assert_eq!(stored_category(Some("a".to_string()), None).as_deref(), Some("a"));
    assert_eq!(stored_category(Some("a".to_string()), Some(false)), None);
    let texts = vec!["a".to_string(), "b".to_string()];
    let input = feedback_input(true, Some((Some("t".to_string()), None)), &texts).unwrap();
    assert_eq!(input.ocr_text, "a b");
    assert_eq!(input.process_name, "");
    assert_eq!(
        feedback_input(false, None, &texts).unwrap_err(),
        "feedback source changed"
    );
    assert_eq!(
        feedback_input(true, None, &texts).unwrap_err(),
        "feedback screenshot is no longer active"
    );
    let mut round = FeedbackRound::new();
    let mut learned = 0;
    while round.may_read(true, true) {
        if round.read(Ok(true)) == FeedbackStep::Learn {
            learned += 1;
        }
    }
    assert_eq!(learned, 8);
    assert_eq!(FeedbackRound::new().read(Ok(false)), FeedbackStep::Stop);
    assert_eq!(
        FeedbackRound::new().read(Err("x".to_string())),
        FeedbackStep::Stop
    );
}

fn structured(text: &str, scope: &str, process: Option<&str>) -> Anchor {
    Anchor::new(
        text.to_string(),
        "default",
        WEIGHT_ONE,
        scope,
        process.map(str::to_string),
        "now",
    )
}

fn anchors_of(list: Vec<(&str, Vec<Anchor>)>) -> Anchors {
    let found = list
        .into_iter()
        .map(|(category, rows)| {
            (
                category.to_string(),
                rows.into_iter()
                    .map(|anchor| LegacyAnchor::Structured { anchor })
                    .collect(),
            )
        })
        .collect();
    import_found(Some(found), &Vec::new(), "now", ITEM_BYTES).unwrap()
}

/// Reads an anchor from the text of its object.
fn read_anchor(object: &str) -> Result<Anchor, String> {
    let mut fields: serde_json::Map<String, serde_json::Value> =
        serde_json::from_str(object).map_err(|error| error.to_string())?;
    let mut text = |key: &str| match fields.remove(key) {
        None => Ok(None),
        Some(serde_json::Value::String(value)) => Ok(Some(value)),
        Some(other) => Err(format!("invalid type for {key}: {other}")),
    };
    let said = text("text")?.ok_or("missing field `text`")?;
    let source = text("source")?.unwrap_or("default".to_string());
    let scope = text("scope")?.unwrap_or("global".to_string());
    let process_name = text("process_name")?;
    let added_at = text("added_at")?.unwrap_or("today".to_string());
    let weight = match fields.remove("weight") {
        None => 1.0,
        Some(value) => value.as_f64().ok_or("invalid type for weight")?,
    };
    Ok(Anchor {
        text: said,
        source,
        weight: weight.to_bits(),
        scope,
        process_name,
        added_at,
        extra: fields.iter().map(|(key, value)| (key.clone(), value.to_string())).collect(),
    })
}

#[test]
fn what_a_screenshot_says_can_be_wiped() {
    let mut input = Input {
        title: "secret title".to_string(),
        ocr_text: "secret text".to_string(),
        process_name: "tool.exe".to_string(),
    };
    input.wipe();
    assert!(input.title.is_empty() && input.ocr_text.is_empty() && input.process_name.is_empty());
}

#[test]
fn legacy_formats_preserve_scopes_weights_and_unknown_metadata() {
    let import = |contents| {
        import_anchors(Some(contents), read_anchor, &Vec::new(), "now", ITEM_BYTES)
    };
    let anchors = import(r#"{"custom":["legacy",{"text":"learned","source":"user_feedback","weight":2,"scope":"local","process_name":"QQ.exe","added_at":"old","extra_key":"kept"}]}"#).unwrap();
    assert_eq!(anchors["custom"][0].source, "default");
    let learned = &anchors["custom"][1];
    assert_eq!(f64::from_bits(learned.weight), 2.0);
    assert_eq!(learned.added_at, "old");
    assert_eq!(learned.extra[0], ("extra_key".to_string(), "\"kept\"".to_string()));
    assert!(import("invalid json").is_err());
}

#[test]
fn entries_are_told_apart_by_their_form() {
    let contents = r#"{"z":["a",{"text":"b"},{"name":"c"},7,null,["d"]],"y":[]}"#;
    let rows = legacy_entries(contents).unwrap();
    let names: Vec<&str> = rows.iter().map(|row| row.0.as_str()).collect();
    assert_eq!(names, ["z", "y"]);
    assert!(matches!(&rows[0].1[0], LegacyEntry::Text { text } if text == "a"));
    assert!(matches!(&rows[0].1[1], LegacyEntry::Object { json } if json == r#"{"text":"b"}"#));
    assert_eq!(rows[0].1.len(), 6);
    assert!(rows[0].1[2..].iter().all(|entry| matches!(entry, LegacyEntry::Unusable)));
    let anchors =
        import_anchors(Some(contents), read_anchor, &Vec::new(), "now", ITEM_BYTES).unwrap();
    let texts: Vec<&str> = anchors["z"].iter().map(|a| a.text.as_str()).collect();
    assert_eq!(texts, ["a", "b"]);
    assert_eq!(f64::from_bits(anchors["z"][1].weight), 1.0);
    for contents in ["[]", r#"{"z":"a"}"#, ""] {
        let error = legacy_entries(contents).unwrap_err();
        assert!(error.starts_with("invalid anchors.json: "), "{error}");
        let error = import_anchors(Some(contents), read_anchor, &Vec::new(), "now", ITEM_BYTES)
            .unwrap_err();
        assert!(error.starts_with("invalid anchors.json: "), "{error}");
    }
    // One object that cannot be read fails the import.
    let error = import_anchors(
        Some(r#"{"z":["a",{"text":1}]}"#),
        read_anchor,
        &Vec::new(),
        "now",
        ITEM_BYTES,
    )
    .unwrap_err();
    assert_eq!(error, "invalid legacy anchor: invalid type for text: 1");
}

#[test]
fn imports_add_defaults_once_and_fail_as_a_whole() {
    let defaults = vec![
        ("a".to_string(), vec![" x ".to_string(), "y".to_string()]),
        ("b".to_string(), vec!["z".to_string()]),
    ];
    let found = vec![("a".to_string(), vec![LegacyAnchor::Text { text: "x".to_string() }])];
    let anchors = import_found(Some(found), &defaults, "now", ITEM_BYTES).unwrap();
    let categories: Vec<&String> = anchors.keys().collect();
    assert_eq!(categories, ["a", "b"]);
    let texts: Vec<&str> = anchors["a"].iter().map(|a| a.text.as_str()).collect();
    assert_eq!(texts, ["x", "y"]);
    let bad = vec![(
        "a".to_string(),
        vec![LegacyAnchor::Invalid { error: "no text".to_string() }],
    )];
    assert_eq!(
        import_found(Some(bad), &defaults, "now", ITEM_BYTES).unwrap_err(),
        "invalid legacy anchor: no text"
    );
    let read = import_anchors(Some("{}"), read_anchor, &defaults, "now", ITEM_BYTES).unwrap();
    assert_eq!(read.len(), 2);
    assert!(import_anchors(None, read_anchor, &defaults, "now", ITEM_BYTES).is_ok());
    assert!(import_found(None, &defaults, "now", ITEM_BYTES).is_ok());
    assert_eq!(
        import_found(None, &defaults, "now", 0).unwrap_err(),
        "anchor text exceeds embedding limit"
    );
    assert_eq!(
        import_found(None, &vec![(" ".to_string(), Vec::new())], "now", 9).unwrap_err(),
        "invalid anchor category"
    );
}

#[test]
fn weights_have_limits() {
    assert_eq!(WEIGHT_ONE, 1.0f64.to_bits());
    assert_eq!(WEIGHT_TWO, 2.0f64.to_bits());
    assert_eq!(WEIGHT_MAX, (f32::MAX as f64).to_bits());
    let mut anchors = anchors_of(vec![("a", vec![structured("x", "global", None)])]);
    for (weight, ok) in [
        (0.0, true),
        (-0.0, true),
        (f32::MAX as f64, true),
        (-1.0, false),
        (f64::INFINITY, false),
        (f64::NAN, false),
        (1e300, false),
    ] {
        anchors["a"][0].weight = weight.to_bits();
        assert_eq!(validate_anchors(&anchors, ITEM_BYTES).is_ok(), ok, "{weight}");
    }
    assert_eq!(
        validate_anchors(&anchors, ITEM_BYTES).unwrap_err(),
        "invalid anchor weight"
    );
}

#[test]
fn browser_cleanup_preserves_unicode_and_non_browser_titles() {
    assert_eq!(
        strip_app_suffix("Python教程 - Google Chrome", "chrome.exe"),
        "Python教程"
    );
    assert_eq!(
        strip_app_suffix(
            "bilibili视频 - 个人 - Microsoft\u{200b} Edge Beta",
            "msedge.exe"
        ),
        "bilibili视频"
    );
    assert_eq!(
        strip_app_suffix("记事本 - foo.txt", "notepad.exe"),
        "记事本 - foo.txt"
    );
}

#[test]
fn titles_are_not_cleaned_away() {
    assert_eq!(strip_app_suffix("x - Opera", " Opera.EXE "), "x - Opera");
    assert_eq!(strip_app_suffix("xy — Vivaldi 6", "vivaldi.exe"), "xy");
    assert_eq!(strip_app_suffix("no dash", "brave.exe"), "no dash");
    assert_eq!(settle_title("whole", " a "), "whole");
    assert_eq!(settle_title("whole", " ab "), "ab");
}

#[test]
fn readings_are_cleaned_of_numbers_and_single_characters() {
    assert_eq!(clean_ocr("a 12:30 word  2024/01/02 another x"), "word another");
    assert_eq!(clean_ocr("- . 1"), "");
    let many = vec!["word"; 60].join(" ");
    assert_eq!(clean_ocr(&many), vec!["word"; 24].join(" "));
    let long = vec!["abcdefghijklmnopqrst"; 20].join(" ");
    assert_eq!(clean_ocr(&long).chars().count(), 200);
    assert_eq!(learned_snippet("short"), None);
    assert_eq!(
        learned_snippet(" 1 2 3 4 5 6 7 8 9 0 1 2 ").as_deref(),
        Some("1 2 3 4 5 6 7 8 9 0 1 2")
    );
}

#[test]
fn only_texts_that_say_enough_are_learned_for_all() {
    assert!(informative("hello world"));
    assert!(informative("深度学习入门教程第一"));
    assert!(!informative("abc"));
    assert!(!informative("aaaaaaaaaa"));
    assert!(!informative("!!!! ???? ----"));
}

fn scores_of(list: &[(&str, f64)]) -> Scores {
    list.iter()
        .map(|(category, score)| (category.to_string(), score.to_bits()))
        .collect()
}

#[test]
fn the_first_best_score_wins() {
    let scores = scores_of(&[("a", 0.2), ("b", 0.7), ("c", 0.7), ("d", f64::NAN)]);
    assert_eq!(best(&scores), ("b".to_string(), 0.7f64.to_bits()));
    assert_eq!(
        best(&scores_of(&[])),
        ("未分类".to_string(), f64::NEG_INFINITY.to_bits())
    );
    let sorted = top(&scores_of(&[("a", 0.2), ("b", 0.7), ("c", 0.7)]), 2);
    assert_eq!(sorted[0].0, "b");
    assert_eq!(sorted[1].0, "c");
    let pairs = paired(
        &scores_of(&[("a", 0.5), ("b", 0.25)]),
        &scores_of(&[("b", 1.0)]),
    );
    assert_eq!(
        pairs,
        vec![
            (0.5f64.to_bits(), 0),
            (0.25f64.to_bits(), 1.0f64.to_bits())
        ]
    );
    let changed = revalue(&scores_of(&[("a", 0.5)]), &vec![0.75f64.to_bits()]);
    assert_eq!(changed["a"], 0.75f64.to_bits());
}

#[test]
fn numbers_are_compared_as_floating_point_does() {
    let values = [
        0.0, -0.0, 1.0, -1.0, 0.3, f64::INFINITY, f64::NEG_INFINITY, f64::NAN, -f64::NAN, 5e-324,
    ];
    for a in values {
        for b in values {
            assert_eq!(ieee::less(a.to_bits(), b.to_bits()), a < b, "{a} {b}");
            assert_eq!(ieee::at_least(a.to_bits(), b.to_bits()), a >= b, "{a} {b}");
            assert_eq!(
                ieee::before_in_total(a.to_bits(), b.to_bits()),
                a.total_cmp(&b).is_lt(),
                "{a} {b}"
            );
        }
        assert_eq!(ieee::finite(a.to_bits()), a.is_finite());
        assert_eq!(ieee::nan(a.to_bits()), a.is_nan());
    }
    assert!(!ieee::finite32(f32::NAN.to_bits()));
    assert!(ieee::finite32(f32::MAX.to_bits()));
    for (diversity, expected) in [(0, 0.0), (1, 0.15), (2, 0.30), (3, 0.30), (4, 0.50), (9, 0.5)] {
        assert_eq!(f64::from_bits(boost(diversity)), expected);
    }
}

#[test]
fn scores_settle_into_categories() {
    let settle = |score: f64| settle_category("a".to_string(), score.to_bits());
    assert_eq!(settle(0.38).unwrap(), "a");
    assert_eq!(settle(0.3799999).unwrap(), "未分类");
    assert!(settle(-0.1).is_err());
    assert_eq!(
        settle(f64::NAN).unwrap_err(),
        "invalid weighted classification score"
    );
    let priors = vec![("code.exe".to_string(), "编程开发".to_string())];
    assert_eq!(process_prior(&priors, " Code.EXE ").as_deref(), Some("编程开发"));
    assert_eq!(process_prior(&priors, "other.exe"), None);
}

fn input(title: &str, ocr: &str, process: &str) -> Input {
    Input {
        title: title.to_string(),
        ocr_text: ocr.to_string(),
        process_name: process.to_string(),
    }
}

#[test]
fn queries_begin_with_what_there_is() {
    assert!(matches!(
        begin_query(&input("t", "", ""), 0, false),
        QueryStart::Empty { reason: "empty_anchor_index" }
    ));
    assert!(matches!(
        begin_query(&input(" ", "\n", ""), 1, true),
        QueryStart::Empty { reason: "empty_input" }
    ));
    match begin_query(&input(" ", "text", ""), 1, false) {
        QueryStart::Texts { texts } => assert_eq!(texts.title, "text"),
        other => panic!("unexpected {other:?}"),
    }
    match begin_query(&input("T1 - Google Chrome", "", "chrome.exe"), 1, true) {
        QueryStart::Texts { texts } => {
            assert_eq!(texts.clean_title, "T1");
            assert!(texts.local_is_whole_title);
        }
        other => panic!("unexpected {other:?}"),
    }
}

fn dot(left: &[f32], right: &[f32]) -> f64 {
    left.iter().zip(right).map(|(a, b)| a * b).sum::<f32>() as f64
}

fn bits(values: &[f32]) -> Vec<u32> {
    values.iter().map(|v| v.to_bits()).collect()
}

fn index(classifier: &mut Classifier, vectors: &[(&str, Vec<f32>)]) {
    let mut build = classifier.begin_index(2);
    loop {
        let texts = build.next_batch();
        if texts.is_empty() {
            break;
        }
        let encoded = texts
            .iter()
            .map(|text| bits(&vectors.iter().find(|entry| entry.0 == text).unwrap().1))
            .collect();
        build.encoded(encoded).unwrap();
    }
    classifier.finish_index(build);
}

fn cosines(rows: &[IndexedAnchor], query: &[f32]) -> Vec<u64> {
    rows.iter()
        .map(|row| {
            let vector: Vec<f32> = row.vector.iter().map(|b| f32::from_bits(*b)).collect();
            dot(&vector, query).to_bits()
        })
        .collect()
}

fn sum(s: Sum) -> u64 {
    let of = f64::from_bits;
    match s {
        Sum::Weigh { cosine, weight } => of(cosine) + 0.05 * (f64::from(of(weight) as f32) - 1.0),
        Sum::Blend { global, factor, local } => of(global) + of(factor) * of(local),
        Sum::Mix { title, text } => 0.8 * of(title) + 0.2 * of(text),
        Sum::Raise { score } => of(score) + 0.12,
    }
    .to_bits()
}

fn social() -> Classifier {
    let anchors = anchors_of(vec![
        (
            "社交通讯",
            vec![
                structured("global", "global", None),
                structured("local", "local", Some("qq.exe")),
            ],
        ),
        ("编程开发", vec![structured("code", "global", None)]),
    ]);
    let mut classifier = Classifier::new(anchors, ITEM_BYTES).unwrap();
    index(
        &mut classifier,
        &[
            ("global", vec![0.35, 0.93675]),
            ("local", vec![0.5, 0.866]),
            ("code", vec![0.3, 0.954]),
        ],
    );
    classifier
}

#[test]
fn strong_local_agreement_vetoes_ocr_and_process_prior_is_additive() {
    let classifier = social();
    let rows = classifier.index.as_ref().unwrap();
    let asked = input("query", "should not be encoded", " QQ.EXE ");
    let compared = cosines(rows, &[1.0, 0.0]);
    let title = classifier.score_title(rows, &asked, true, &compared, &compared, &sum);
    assert!(title.verdict.needs_ocr && title.verdict.veto);
    assert!(title.verdict.snippet.is_none());
    let priors = vec![("qq.exe".to_string(), "社交通讯".to_string())];
    let result = classifier
        .conclude(rows, title, &asked.process_name, None, &priors, &sum)
        .unwrap();
    assert_eq!(result.category, "社交通讯");
    assert!((f64::from_bits(result.score) - 0.545).abs() < 0.00001);
    assert!(!result.used_ocr && result.local_veto_active);
    assert_eq!(result.local_categories, vec!["社交通讯".to_string()]);
    assert_eq!(result.process_prior_applied.as_deref(), Some("社交通讯"));
}

#[test]
fn the_text_counts_for_a_fifth_where_the_title_says_too_little() {
    let classifier = social();
    let rows = classifier.index.as_ref().unwrap();
    let asked = input("query", "some words to compare", "other.exe");
    let compared = cosines(rows, &[1.0, 0.0]);
    let title = classifier.score_title(rows, &asked, false, &compared, &compared, &sum);
    assert_eq!(title.verdict.snippet.as_deref(), Some("some words to compare"));
    assert_eq!(
        f64::from_bits(title.scores["社交通讯"]),
        f64::from(0.35f32)
    );
    let text = cosines(rows, &[0.0, 1.0]);
    let result = classifier
        .conclude(rows, title, &asked.process_name, Some(&text), &Vec::new(), &sum)
        .unwrap();
    assert!(result.used_ocr);
    assert_eq!(result.category, "社交通讯");
    let expected = 0.8 * f64::from(0.35f32) + 0.2 * f64::from(0.93675f32);
    assert_eq!(f64::from_bits(result.score), expected);
    assert_eq!(result.top_scores.len(), 2);
    assert_eq!(result.top_scores[1].0, "编程开发");
    let bad = classifier.score_title(rows, &asked, false, &compared, &compared, &sum);
    let broken = |_: Sum| f64::NAN.to_bits();
    assert_eq!(
        classifier
            .conclude(rows, bad, "x", Some(&text), &Vec::new(), &broken)
            .unwrap_err(),
        "invalid weighted classification score"
    );
}

#[test]
fn low_scores_have_the_reading_compared() {
    let scores = scores_of(&[("a", 0.4), ("b", 0.1)]);
    let local = scores_of(&[("a", 0.1), ("b", 0.2)]);
    let asked = input("t", "some words to compare", "");
    let verdict = judge_title(&scores, &local, &asked, false);
    assert!(verdict.needs_ocr && !verdict.veto);
    assert_eq!(verdict.snippet.as_deref(), Some("some words to compare"));
    let sure = scores_of(&[("a", 0.55)]);
    assert!(judge_title(&sure, &local, &asked, false).snippet.is_none());
    let numbers = input("t", "12 34", "");
    assert_eq!(
        judge_title(&scores, &local, &numbers, false).snippet.as_deref(),
        Some("12 34")
    );
}

fn learn_cosines(title: f64, snippet: f64, rows: usize) -> LearnCosines {
    LearnCosines {
        title: vec![title.to_bits(); rows],
        clean_title: vec![title.to_bits(); rows],
        snippet: vec![snippet.to_bits(); rows],
        title_to_snippet: 0.1f64.to_bits(),
    }
}

#[test]
fn feedback_is_learned_once_and_taken_back() {
    let anchors = anchors_of(vec![
        ("旧类别", vec![structured("a long enough title", "local", Some("App.exe"))]),
        ("新类别", vec![structured("base", "global", None)]),
    ]);
    let mut classifier = Classifier::new(anchors, ITEM_BYTES).unwrap();
    index(
        &mut classifier,
        &[("a long enough title", vec![1.0, 0.0]), ("base", vec![0.0, 1.0])],
    );
    let said = input(
        "a long enough title",
        "the words that were read from it",
        " app.exe ",
    );
    let result = classifier
        .learn(
            "新类别",
            &said,
            Some("旧类别"),
            &learn_cosines(0.0, 0.0, 2),
            "now",
            ITEM_BYTES,
        )
        .unwrap();
    assert!(result.negative_removed);
    assert!(result.title_local_added && result.title_global_added && result.ocr_local_added);
    assert!(!result.title_local_dedup);
    assert!(!classifier.anchors.contains_key("旧类别"));
    assert!(classifier.index.is_none());
    let rows = &classifier.anchors["新类别"];
    assert_eq!(rows.len(), 4);
    assert_eq!(rows[1].process_name.as_deref(), Some("app.exe"));
    assert_eq!(f64::from_bits(rows[1].weight), 2.0);
    assert_eq!(rows[2].scope, "global");
    assert_eq!(f64::from_bits(rows[3].weight), 1.5);
    assert_eq!(rows[3].source, "ocr_feedback");

    index(
        &mut classifier,
        &[
            ("base", vec![0.0, 1.0]),
            ("a long enough title", vec![1.0, 0.0]),
            ("the words that were read from it", vec![0.6, 0.8]),
        ],
    );
    let again = classifier
        .learn(
            "新类别",
            &said,
            None,
            &learn_cosines(0.96, 0.96, 4),
            "now",
            ITEM_BYTES,
        )
        .unwrap();
    assert!(again.title_local_dedup && again.title_global_dedup && again.ocr_local_dedup);
    assert_eq!(classifier.anchors["新类别"].len(), 4);
    assert_eq!(classifier.remove_local("新类别", "APP.EXE"), 2);
    assert_eq!(classifier.remove_local("新类别", "app.exe"), 0);
    assert_eq!(classifier.remove_local("新类别", " "), 0);
    assert_eq!(classifier.anchors["新类别"].len(), 2);
}

#[test]
fn inference_failure_does_not_apply_partial_negative_feedback() {
    let anchors = anchors_of(vec![("old", vec![structured("query", "local", Some("app.exe"))])]);
    let mut classifier = Classifier::new(anchors, ITEM_BYTES).unwrap();
    index(&mut classifier, &[("query", vec![1.0])]);
    let said = input("query", "", "app.exe");
    // A text that is longer than vectors are made of.
    assert!(classifier
        .learn("new", &said, Some("old"), &learn_cosines(0.0, 0.0, 1), "now", 3)
        .is_err());
    assert_eq!(classifier.anchors["old"].len(), 1);
    assert!(!classifier.anchors.contains_key("new"));
    assert!(classifier.index.is_some());
    assert!(classifier
        .learn(" ", &said, Some("old"), &learn_cosines(0.0, 0.0, 1), "now", ITEM_BYTES)
        .is_err());
    assert!(validate_vectors(&vec![vec![f32::NAN.to_bits()]], 1, Some(1)).is_err());
    assert!(validate_vectors(&vec![bits(&[1.0, 0.0])], 1, Some(3)).is_err());
}

#[test]
fn blank_titles_teach_nothing() {
    let anchors = anchors_of(vec![("a", vec![structured("x", "global", None)])]);
    let mut classifier = Classifier::new(anchors, ITEM_BYTES).unwrap();
    let result = classifier
        .learn("b", &input(" ", "", ""), Some("a"), &learn_cosines(0.0, 0.0, 0), "now", 9)
        .unwrap();
    assert!(!result.negative_removed && !result.title_global_added);
    assert_eq!(classifier.anchors.len(), 1);
}

#[test]
fn indexes_take_only_sound_vectors() {
    let anchors = anchors_of(vec![(
        "a",
        vec![
            structured("x", "global", None),
            structured("  ", "global", None),
            structured("y", "global", None),
        ],
    )]);
    let mut classifier = Classifier::new(anchors, ITEM_BYTES).unwrap();
    let mut build = classifier.begin_index(1);
    assert_eq!(build.next_batch(), vec!["x".to_string()]);
    assert!(build.encoded(vec![]).is_err());
    build.encoded(vec![bits(&[1.0, 0.0])]).unwrap();
    assert_eq!(build.next_batch(), vec!["y".to_string()]);
    assert!(build.encoded(vec![bits(&[1.0])]).is_err());
    build.encoded(vec![bits(&[0.0, 1.0])]).unwrap();
    assert!(build.next_batch().is_empty());
    classifier.finish_index(build);
    assert!(classifier.check_vector(vec![bits(&[1.0, 2.0])]).is_ok());
    assert!(classifier.check_vector(vec![bits(&[1.0])]).is_err());
    let rows = classifier.index.as_ref().unwrap();
    assert!(duplicate(rows, "a", &vec![0.96f64.to_bits(), 0], false, ""));
    assert!(!duplicate(rows, "a", &vec![0.95f64.to_bits(), 0], false, ""));
    assert!(!duplicate(rows, "b", &vec![0.96f64.to_bits(), 0], false, ""));
    // Ties go to the first anchor, and low cosines count for nothing.
    let tied = vec![0.5f64.to_bits(), 0.5f64.to_bits()];
    assert_eq!(winners(rows, &tied, "", false), vec![0]);
    let low = vec![0.29f64.to_bits(), 0.3f64.to_bits()];
    assert_eq!(winners(rows, &low, "", false), vec![1]);
    assert!(winners(rows, &low, "x", true).is_empty());
}

#[test]
fn directml_preference_yields_to_game_mode_suppression() {
    assert!(!directml_preference(false, false));
    assert!(directml_preference(true, false));
    assert!(!directml_preference(true, true));
}

fn limits() -> SemanticLimits {
    SemanticLimits {
        batch: 32,
        text_item_bytes: 8192,
        text_bytes: 256 * 1024,
    }
}

#[test]
fn embedding_request_limits_bound_reverse_ipc_work() {
    let limits = limits();
    assert!(validate_texts(&["text".to_string()], &limits).is_ok());
    assert!(validate_texts(&[], &limits).is_err());
    assert!(validate_texts(&vec![String::new(); MAX_TEXTS_PER_REQUEST], &limits).is_ok());
    assert!(validate_texts(&vec![String::new(); MAX_TEXTS_PER_REQUEST + 1], &limits).is_err());
    assert!(validate_texts(&["x".repeat(limits.text_item_bytes + 1)], &limits).is_err());
    let multibyte_payload = vec!["中".repeat(1_000); 100];
    let error = validate_texts(&multibyte_payload, &limits).unwrap_err();
    assert!(error.contains("payload"), "{error}");
}

#[test]
fn production_batches_stay_within_the_semantic_worker_limit() {
    let batch = limits().batch;
    let texts: Vec<String> = (0..batch * 6 + 11).map(|i| i.to_string()).collect();
    let chunks = semantic_text_chunks(&texts, batch);
    let sizes: Vec<usize> = chunks.iter().map(|chunk| chunk.len()).collect();
    let mut expected = vec![batch; 6];
    expected.push(11);
    assert_eq!(sizes, expected);
    assert!(sizes.iter().all(|size| *size <= batch));
    assert_eq!(chunks.concat(), texts);
}

#[test]
fn rust_failures_are_recorded_without_a_fallback_counter() {
    let mut diagnostic = ClassificationDiagnosticInner::default();
    diagnostic.record_rust_failure("worker_stopped: test", 12.0f64.to_bits());
    assert_eq!(diagnostic.failure_count, 1);
    assert!(diagnostic.last_error.is_some());
    diagnostic.record_rust_success(5);
    let status = diagnostic.backend_status();
    assert_eq!((status.failure_count, status.success_count), (1, 1));
    assert!(status.last_error.is_none());
    assert_eq!(status.last_elapsed_ms, Some(5));
}

#[test]
fn requests_stand_aside_for_the_user() {
    assert!(matches!(stand_aside(false, 0, 0, 50), ForegroundStep::GoOn));
    assert!(matches!(
        stand_aside(true, 0, 1000, 50),
        ForegroundStep::Wait { ms: 50 }
    ));
    assert!(matches!(
        stand_aside(true, 0, 20, 50),
        ForegroundStep::Wait { ms: 20 }
    ));
    for (stood, left) in [(15_000, 1000), (0, 0)] {
        match stand_aside(true, stood, left, 50) {
            ForegroundStep::GiveUp { error } => assert!(scheduling_deferred(&error)),
            other => panic!("unexpected {other:?}"),
        }
    }
    assert!(scheduling_deferred(&slot_error()));
    assert_eq!(slot_deadline(1000, 9000), 9000);
    assert_eq!(slot_deadline(1000, 90_000), 16_000);
    assert!(check_time(1).is_ok());
    assert!(check_time(0).is_err());
    assert!(scheduling_deferred(&chunk_error("x".to_string(), true)));
    assert_eq!(chunk_error("x".to_string(), false), "x");
}

#[test]
fn answers_are_held_against_what_was_asked() {
    let mut answers = ChunkAnswers::new();
    assert_eq!(
        answers.finish(0).unwrap_err(),
        "protocol: BGE response did not contain any vector dimensions"
    );
    assert_eq!(
        answers.answered(2, 3, &vec![3]).unwrap_err(),
        "protocol: BGE response contains 1 vectors for 2 texts in chunk 1"
    );
    assert!(answers.answered(1, 3, &vec![4]).unwrap_err().contains("mismatched"));
    answers.answered(2, 3, &vec![3, 3]).unwrap();
    assert_eq!(
        answers.answered(1, 4, &vec![4]).unwrap_err(),
        "protocol: BGE response dimension changed between chunks: expected 3, got 4"
    );
    assert_eq!(
        answers.finish(3).unwrap_err(),
        "protocol: BGE response contains 2 vectors for 3 texts"
    );
    assert_eq!(answers.finish(2), Ok(3));
}
