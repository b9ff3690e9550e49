use carbonpaper::capture::{
    check_box, check_foreground_fullscreen, command_line_text, extent,
    get_process_name_from_path, is_browser_process, is_excluded, is_system_window_class,
    needs_scaling, normalized, ocr_answer, ocr_channel, ocr_request, save_request,
    ActiveWindowInfo, CaptureConfig, CaptureLoop, CaptureState, ExclusionSettings, ForegroundFacts,
    Frame, FrameEvent, IconCache, LoopGate, SaveOutcome, ScreenRect, Trigger, WindowFacts,
};
use carbonpaper::images::{
    bgra_to_rgb, bgra_to_rgba, compute_dhash, dhash_of, encode_capture, encode_pixels,
    hamming_distance, icon_text, image_data, is_redundant,
};
use carbonpaper::text;

#[test]
fn test_hamming_distance_identical() {
    let hash = [0u64; 4];
    assert_eq!(hamming_distance(&hash, &hash), 0);
}

#[test]
fn test_hamming_distance_all_different() {
    let a = [0u64; 4];
    let b = [u64::MAX; 4];
    assert_eq!(hamming_distance(&a, &b), 256);
}

#[test]
fn test_hamming_distance_one_bit() {
    let a = [0u64; 4];
    let mut b = [0u64; 4];
    b[0] = 1;
    assert_eq!(hamming_distance(&a, &b), 1);
}

#[test]
fn test_get_process_name_from_path_exe() {
    assert_eq!(
        get_process_name_from_path(r"C:\Program Files\app.exe"),
        "app.exe"
    );
}

#[test]
fn test_get_process_name_from_path_empty() {
    assert_eq!(get_process_name_from_path(""), "");
}

#[test]
fn test_get_process_name_from_path_no_dir() {
    assert_eq!(get_process_name_from_path("notepad.exe"), "notepad.exe");
}

#[test]
fn test_get_process_name_from_path_mixed_case() {
    assert_eq!(
        get_process_name_from_path(r"C:\Windows\System32\Notepad.EXE"),
        "notepad.exe"
    );
}

#[test]
fn names_are_found_in_unusual_paths() {
    assert_eq!(get_process_name_from_path("C:/Tools/App.exe/"), "app.exe");
    assert_eq!(get_process_name_from_path(r"C:\Tools\App.exe\."), "app.exe");
    assert_eq!(get_process_name_from_path(r"C:\Tools\.."), "");
    assert_eq!(get_process_name_from_path("C:"), "");
    assert_eq!(get_process_name_from_path(r"C:app.exe"), "app.exe");
    assert_eq!(get_process_name_from_path(r"\\server\share"), "");
    assert_eq!(
        get_process_name_from_path(r"\\server\share\x.exe"),
        "x.exe"
    );
    assert_eq!(get_process_name_from_path(r"C:\Programme\ÄPP.EXE"), "äpp.exe");
}

#[test]
fn test_compute_dhash_uniform_image() {
    let rgb = vec![255u8; 16 * 16 * 3];
    let hash = compute_dhash(&rgb, 16, 16, 8).unwrap();
    assert_eq!(hash, [0u64; 4]);
}

#[test]
fn test_compute_dhash_uniform_black() {
    let rgb = vec![0u8; 16 * 16 * 3];
    let hash = compute_dhash(&rgb, 16, 16, 8).unwrap();
    assert_eq!(hash, [0u64; 4]);
}

#[test]
fn a_hash_without_samples_has_no_bit() {
    assert_eq!(compute_dhash(&[200; 3 * 4 * 4], 4, 4, 0).unwrap(), [0u64; 4]);
    assert_eq!(dhash_of(&[], 0), [0u64; 4]);
}

#[test]
fn a_falling_brightness_sets_every_bit() {
    let mut rgb = Vec::new();
    for _ in 0..17 {
        for column in 0..17u8 {
            let value = 250 - 10 * column;
            rgb.extend([value, value, value]);
        }
    }
    assert_eq!(compute_dhash(&rgb, 17, 17, 16).unwrap(), [u64::MAX; 4]);
    assert!(compute_dhash(&rgb[..10], 17, 17, 16).is_none());
    // One row of nine samples for each of eight rows.
    let mut gray = vec![0u8; 72];
    gray[9] = 1;
    assert_eq!(dhash_of(&gray, 8), [1 << 8, 0, 0, 0]);
}

#[test]
fn test_is_redundant_empty_history() {
    let hash = [0u64; 4];
    assert!(!is_redundant(&hash, &[], 10));
}

#[test]
fn test_is_redundant_identical() {
    let hash = [0u64; 4];
    assert!(is_redundant(&hash, &[hash], 10));
}

#[test]
fn test_is_redundant_above_threshold() {
    let a = [0u64; 4];
    let b = [u64::MAX; 4];
    assert!(!is_redundant(&a, &[b], 10));
}

#[test]
fn pixels_lose_their_alpha_and_padding() {
    // Two rows of one pixel, each in a row of eight bytes.
    let raw = [1u8, 2, 3, 255, 0, 0, 0, 0, 4, 5, 6, 255, 0, 0, 0, 0];
    assert_eq!(bgra_to_rgb(&raw, 8, 1, 2), vec![3, 2, 1, 6, 5, 4]);
    let once = bgra_to_rgba(&[1, 2, 3, 4, 5, 6, 7, 8]);
    assert_eq!(once, vec![3, 2, 1, 4, 7, 6, 5, 8]);
    assert_eq!(bgra_to_rgba(&once), vec![1, 2, 3, 4, 5, 6, 7, 8]);
}

#[test]
fn images_are_told_in_base_64() {
    assert_eq!(image_data(b""), "");
    assert_eq!(image_data(b"f"), "Zg==");
    assert_eq!(image_data(b"fo"), "Zm8=");
    assert_eq!(image_data(b"foobar"), "Zm9vYmFy");
    let icon = icon_text(&[9u8; 4 * 32 * 32], 32).unwrap();
    assert!(icon.starts_with("iVBORw0KGgo"), "{icon}");
    let other = icon_text(&[7u8; 4 * 32 * 32], 32).unwrap();
    assert_ne!(icon, other);
}

#[test]
fn large_captures_are_scaled_down() {
    let rgb = vec![120u8; 3 * 40 * 20];
    let whole = encode_capture(rgb.clone(), 40, 20, None, 65).unwrap();
    assert_eq!((whole.width, whole.height), (40, 20));
    assert_eq!(&whole.jpeg_bytes[..2], &[0xFF, 0xD8]);
    let small = encode_capture(rgb.clone(), 40, 20, Some((20, 10)), 65).unwrap();
    assert_eq!((small.width, small.height), (20, 10));
    assert_eq!(small.rgb.len(), 3 * 20 * 10);
    let same = encode_capture(rgb.clone(), 40, 20, Some((40, 20)), 65).unwrap();
    assert_eq!((same.width, same.height), (40, 20));
    assert_eq!(same.rgb, rgb);
    let thin = encode_capture(rgb.clone(), 40, 20, Some((3, 1)), 65).unwrap();
    assert_eq!((thin.width, thin.height), (2, 1));
    assert!(encode_pixels(rgb, 400, 200, 65).is_none());
}

#[test]
fn only_captures_that_are_too_large_are_scaled() {
    assert!(!needs_scaling(1600, 900, 1600));
    assert!(needs_scaling(1601, 900, 1600));
    assert!(needs_scaling(900, 1601, 1600));
    assert!(check_box((1600, 900), 1920, 1080, 1600));
    assert!(check_box((1599, 899), 1920, 1080, 1600));
    assert!(!check_box((1601, 900), 1920, 1080, 1600));
    assert!(!check_box((1600, 700), 1920, 1080, 1600));
    assert!(!check_box((800, 450), 1920, 1080, 1600));
    let frame = || Frame {
        content: (4, 2),
        texture: (4, 2),
        pitch: 16,
        raw: vec![90; 32],
    };
    let mut state = CaptureState::new();
    state.begin_session(7, Some((4, 2)));
    let whole = state
        .capture_frame(FrameEvent::Arrived { frame: frame() }, (0, 0), 4, 65)
        .unwrap();
    assert_eq!((whole.width, whole.height), (4, 2));
    let small = state
        .capture_frame(FrameEvent::Arrived { frame: frame() }, (2, 1), 2, 65)
        .unwrap();
    assert_eq!((small.width, small.height), (2, 1));
    let again = state.capture_frame(FrameEvent::TimedOut, (0, 0), 4, 65).unwrap();
    assert_eq!(again.rgb, small.rgb);
}

#[test]
fn frames_become_captures() {
    let mut state = CaptureState::new();
    assert!(state.need_create(7, Some((2, 1))));
    assert!(!state.begin_session(7, Some((0, 1))));
    assert!(state.begin_session(7, Some((2, 1))));
    assert!(!state.need_create(7, Some((2, 1))));
    assert!(state.need_create(7, None));
    assert!(state.need_create(8, Some((2, 1))));
    assert!(state.take_frame(FrameEvent::TimedOut, None, 65).is_none());
    let frame = Frame {
        content: (2, 1),
        texture: (2, 1),
        pitch: 8,
        raw: vec![1, 2, 3, 255, 4, 5, 6, 255],
    };
    let first = state
        .take_frame(FrameEvent::Arrived { frame }, None, 65)
        .unwrap();
    assert_eq!(first.rgb, vec![3, 2, 1, 6, 5, 4]);
    let again = state.take_frame(FrameEvent::TimedOut, None, 65).unwrap();
    assert_eq!(again.jpeg_bytes, first.jpeg_bytes);
    let resized = Frame {
        content: (2, 2),
        texture: (2, 1),
        pitch: 8,
        raw: vec![0; 16],
    };
    assert!(state
        .take_frame(FrameEvent::Arrived { frame: resized }, None, 65)
        .is_none());
    assert!(state.wgc_state.is_none());
    state.begin_session(7, Some((2, 1)));
    assert!(state.take_frame(FrameEvent::Failed, None, 65).is_none());
    assert!(state.wgc_state.is_none());
    state.begin_session(7, Some((2, 1)));
    state.clear_wgc_session();
    assert!(state.wgc_state.is_none());
}

fn window(title: &str) -> ActiveWindowInfo {
    ActiveWindowInfo {
        hwnd_raw: 1,
        title: title.to_string(),
        rect: ScreenRect { left: 0, top: 0, right: 100, bottom: 50 },
        pid: 4,
    }
}

fn nothing_known() -> WindowFacts {
    WindowFacts { protected: false, process_path: None, command_line: None }
}

#[test]
fn captures_are_stored_with_their_window() {
    let captured = encode_pixels(vec![128; 3], 1, 1, 90).unwrap();
    let request = save_request(
        &captured,
        &window("title"),
        "C:\\Apps\\Tool.EXE",
        Some("icon".to_string()),
        "20240101_000000".to_string(),
    );
    assert_eq!(request.image_data, image_data(&captured.jpeg_bytes));
    assert_eq!(
        request.image_hash,
        carbonpaper::digest::md5_hash(&captured.jpeg_bytes)
    );
    assert_eq!((request.width, request.height), (1, 1));
    assert_eq!(request.process_name, "tool.exe");
    assert_eq!(request.monitor, (0, 0, 100, 50));
    assert_eq!(request.source, "capture");
    let reading = ocr_request(4, &request, 9);
    assert_eq!((reading.command, reading.screenshot_id), ("process_ocr", 4));
    assert_eq!(reading.image_hash, request.image_hash);
    assert_eq!(reading.timestamp, 9);
    let unknown = save_request(&captured, &window("t"), "", None, String::new());
    assert_eq!(unknown.process_name, "");
}

#[test]
fn private_and_empty_windows_are_left_out() {
    let settings = ExclusionSettings::default();
    assert!(is_excluded(&window(""), &settings, &nothing_known()));
    assert!(is_excluded(&window("News - InPrivate"), &settings, &nothing_known()));
    assert!(is_excluded(&window("网页 隐身"), &settings, &nothing_known()));
    assert!(is_excluded(&window("Search results"), &settings, &nothing_known()));
    assert!(!is_excluded(&window("Research"), &settings, &nothing_known()));
    let protected = WindowFacts { protected: true, ..nothing_known() };
    assert!(is_excluded(&window("Bank"), &settings, &protected));
    let private = WindowFacts {
        command_line: Some("firefox.exe -private".to_string()),
        ..nothing_known()
    };
    assert!(is_excluded(&window("Mozilla Firefox"), &settings, &private));
    assert!(!is_excluded(&window("Editor"), &settings, &private));
}

#[test]
fn user_exclusions_are_trimmed_and_lowered() {
    let mut state = CaptureState::default();
    state.update_exclusion_settings(
        Some(vec![" Game.EXE ".to_string(), "  ".to_string()]),
        Some(vec!["Secret".to_string()]),
        Some(false),
    );
    let settings = &state.exclusion_settings;
    assert_eq!(settings.user_excluded_processes.names, vec!["game.exe"]);
    let facts = WindowFacts {
        protected: true,
        process_path: Some(r"C:\Games\GAME.exe".to_string()),
        command_line: None,
    };
    assert!(is_excluded(&window("Level 1"), settings, &facts));
    assert!(is_excluded(&window("My SECRET file"), settings, &nothing_known()));
    let protected = WindowFacts { protected: true, ..nothing_known() };
    assert!(!is_excluded(&window("Bank"), settings, &protected));
    let text = state.exclusion_text().unwrap();
    assert!(text.contains('\n'));
    let mut again = CaptureState::default();
    again.read_exclusion_settings(&text);
    for names in [&again.exclusion_settings, &state.exclusion_settings] {
        assert!(names.user_excluded_processes.contains("game.exe"));
        assert!(!names.ignore_protected_windows);
    }
    assert_eq!(again.exclusion_text(), state.exclusion_text());
    state.update_exclusion_settings(None, Some(Vec::new()), None);
    assert!(state.exclusion_settings.user_excluded_processes.contains("game.exe"));
    assert!(!state.exclusion_settings.ignore_protected_windows);
    assert!(normalized(&vec!["\u{3000}".to_string()]).names.is_empty());
}

#[test]
fn programs_and_windows_are_recognized() {
    assert!(is_browser_process("Chrome.EXE"));
    assert!(is_browser_process("arc"));
    assert!(!is_browser_process("notepad.exe"));
    assert!(is_system_window_class("Progman"));
    assert!(!is_system_window_class("Notepad"));
    assert_eq!(
        command_line_text(&["A.exe".to_string(), "--Incognito".to_string()]).as_deref(),
        Some("a.exe --incognito")
    );
    assert!(command_line_text(&[]).is_none());
}

#[test]
fn full_screens_are_found() {
    let monitor = ScreenRect { left: 0, top: 0, right: 1920, bottom: 1080 };
    let facts = |window: Option<ScreenRect>| {
        Some(ForegroundFacts {
            process_path: Some(r"C:\g.exe".to_string()),
            window_class: "Game".to_string(),
            window,
            monitor: Some(monitor),
        })
    };
    let found = check_foreground_fullscreen(facts(Some(monitor))).unwrap();
    assert_eq!(found, ("g.exe".to_string(), "Game".to_string(), true));
    let smaller = ScreenRect { bottom: 1079, ..monitor };
    assert!(!check_foreground_fullscreen(facts(Some(smaller))).unwrap().2);
    assert!(!check_foreground_fullscreen(facts(None)).unwrap().2);
    assert!(check_foreground_fullscreen(None).is_none());
    assert_eq!(extent(monitor), (1920, 1080));
}

#[test]
fn the_loop_captures_new_windows_and_then_by_the_clock() {
    let config = CaptureConfig::default();
    let mut state = CaptureState::new();
    let mut turn = CaptureLoop::new(config, 1_000_000);
    assert_eq!(state.gate(), LoopGate::Go);
    assert_eq!(turn.trigger(&state, 5, true, 1_000_000), Trigger::Skip);
    assert_eq!(turn.last_hwnd_raw, 5);
    assert_eq!(turn.trigger(&state, 5, false, 1_000_000), Trigger::Interval);
    assert!(turn.captured(5, [0; 4], 1_000_000));
    assert_eq!(
        turn.stored(5, Ok(("ok".to_string(), Some(9))), 1_000_000),
        SaveOutcome::Stored { screenshot_id: 9 }
    );
    assert_eq!(turn.trigger(&state, 5, false, 1_009_999), Trigger::Skip);
    assert_eq!(turn.trigger(&state, 6, false, 1_009_999), Trigger::FocusChange);
    assert_eq!(Trigger::FocusChange.settle_ms(), 500);
    assert_eq!(Trigger::FocusChange.as_str(), "focus_change");
    turn.missed(6);
    assert_eq!(turn.trigger(&state, 6, false, 1_010_000), Trigger::Interval);
    assert!(!turn.captured(6, [1, 0, 0, 0], 1_010_000));
    assert_eq!(turn.last_capture_time, 1_010_000);
    state.begin_ocr(9, vec![1, 2]);
    assert_eq!(state.ocr_image_cache.get(9), Some(&vec![1, 2]));
    assert_eq!(turn.trigger(&state, 7, false, 1_020_000), Trigger::Skip);
    state.capture_on_ocr_busy = true;
    assert_eq!(turn.trigger(&state, 8, false, 1_020_000), Trigger::FocusChange);
    assert_eq!(state.end_ocr(9), 0);
    assert!(state.ocr_image_cache.get(9).is_none());
    state.game_mode_capture_paused = true;
    assert_eq!(state.gate(), LoopGate::Skip);
    state.stopped = true;
    assert_eq!(state.gate(), LoopGate::Stop);
}

#[test]
fn the_last_hashes_are_remembered() {
    let mut turn = CaptureLoop::new(CaptureConfig::default(), 0);
    for word in 0..4 {
        let mut hash = [0u64; 4];
        hash[word] = u64::MAX;
        assert!(turn.captured(1, hash, 0));
    }
    assert_eq!(turn.history_hashes.len(), 3);
    assert!(turn.captured(1, [u64::MAX, 0, 0, 0], 0));
    assert!(!turn.captured(1, [u64::MAX, 0, 0, 0], 0));
    turn.finished(3, 4);
    assert_eq!((turn.last_hwnd_raw, turn.last_capture_time), (3, 4));
}

#[test]
fn captures_that_were_not_stored_are_dropped() {
    let mut turn = CaptureLoop::new(CaptureConfig::default(), 0);
    assert_eq!(
        turn.stored(1, Ok(("duplicate".to_string(), Some(2))), 1),
        SaveOutcome::Dropped
    );
    assert_eq!(turn.stored(1, Ok(("ok".to_string(), None)), 1), SaveOutcome::Dropped);
    assert_eq!(turn.stored(1, Err("full".to_string()), 1), SaveOutcome::Dropped);
}

#[test]
fn icons_are_remembered_even_when_there_is_none() {
    let mut cache = IconCache::new();
    assert!(cache.get("a.exe").is_none());
    cache.insert("a.exe", None);
    assert_eq!(cache.get("a.exe"), Some(&None));
    cache.insert("b.exe", Some("icon".to_string()));
    assert_eq!(cache.get("b.exe"), Some(&Some("icon".to_string())));
}

#[test]
fn readings_need_a_pipe_and_a_token() {
    assert_eq!(ocr_channel(None, None).unwrap_err(), "Monitor pipe not available");
    assert_eq!(
        ocr_channel(Some("p".to_string()), None).unwrap_err(),
        "Auth token not available"
    );
    assert!(ocr_channel(Some("p".to_string()), Some("t".to_string())).is_ok());
    assert_eq!(ocr_answer(r#"{"error":"x"}"#).unwrap_err(), "Python OCR error: x");
    let reading = ocr_answer(
        r#"{"error":null,"ocr_results":[1],"category":"work","category_confidence":0.5}"#,
    )
    .unwrap();
    assert_eq!(reading.results.as_deref(), Some("[1]"));
    assert_eq!(reading.category.as_deref(), Some("work"));
    assert_eq!(reading.confidence.as_deref(), Some("0.5"));
    let empty = ocr_answer(r#"{"category":1}"#).unwrap();
    assert!(empty.results.is_none() && empty.category.is_none() && empty.confidence.is_none());
    assert!(ocr_answer("nothing").is_err());
}

#[test]
fn white_space_is_that_of_unicode() {
    for code in 0..0x11_0000u32 {
        if let Some(c) = char::from_u32(code) {
            assert_eq!(text::white(c), c.is_whitespace(), "{code:x}");
        }
    }
    for s in ["", "  ", " a b ", "\u{3000}x\u{a0}", "a\tb\n"] {
        assert_eq!(text::trim(s), s.trim());
        let words: Vec<String> = s.split_whitespace().map(str::to_string).collect();
        assert_eq!(text::split_words(s), words);
        assert_eq!(text::join_spaced(&words), words.join(" "));
    }
}

#[test]
fn texts_are_searched_and_cut() {
    assert!(text::contains("图像标签", "像标"));
    assert!(!text::contains("ab", "abc"));
    assert!(text::contains("ab", ""));
    assert!(text::starts_with("abc", "ab"));
    assert_eq!(text::prefix("图像标签", 2), "图像");
    assert_eq!(text::decimal_string(1_234_567_890), "1234567890");
    assert_eq!(text::to_lower_ascii("ÄB"), "Äb");
}

#[test]
fn exclusions_are_read_from_their_file() {
    let mut state = CaptureState::default();
    state.read_exclusion_settings(r#"{"processes":[" Game.EXE ",4,""],"ignore_protected":false}"#);
    let settings = &state.exclusion_settings;
    assert!(settings.user_excluded_processes.contains("game.exe"));
    assert_eq!(settings.user_excluded_processes.names.len(), 1);
    assert!(!settings.ignore_protected_windows);
    // What is no JSON, missing or of another type changes nothing.
    for text in ["{", "[]", r#"{"processes":"x","titles":{},"ignore_protected":"true"}"#] {
        state.read_exclusion_settings(text);
        assert!(state.exclusion_settings.user_excluded_processes.contains("game.exe"), "{text}");
        assert!(!state.exclusion_settings.ignore_protected_windows, "{text}");
    }
    state.read_exclusion_settings(r#"{"processes":[],"titles":["Secret"]}"#);
    assert!(!state.exclusion_settings.user_excluded_processes.contains("game.exe"));
    assert!(state.exclusion_settings.user_excluded_titles.contains("secret"));
}
