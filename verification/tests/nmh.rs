use carbonpaper::nmh::{
    ancestor_chain, asks_for_capture, build_register_request, build_unregister_request,
    cmd_pipe_name, compute_nmh_pipe_name, detect_browser, forward_answer, generate_cmd_pipe_name,
    handle_message, is_native_messaging_launcher_wrapper, nm_message, nm_message_length,
    pipe_failure_text, read_answer, read_auth_token, read_extension_message, read_pipe_frame,
    registration_result, request_command, select_browser_ancestor, serves_request, still_registered,
    write_pipe_frame, BrowserInfo, CommandServer, ExtensionMessage, IPC_MAX_MESSAGE_BYTES,
    IPC_PROTOCOL_VERSION, MessagePlan, NM_MAX_MESSAGE_BYTES, PipeFailure, ProcessEntry,
    Registration, RegistrationReport, ServerStep,
};

#[test]
fn test_generate_cmd_pipe_name_format() {
    let name = generate_cmd_pipe_name();
    assert!(
        name.starts_with(r"\\.\pipe\carbon_nmh_cmd_r_"),
        "unexpected pipe name: {}",
        name
    );
    let suffix = name.trim_start_matches(r"\\.\pipe\carbon_nmh_cmd_r_");
    assert_eq!(suffix.len(), 32);
    assert!(suffix.chars().all(|c| c.is_ascii_hexdigit()));
}

#[test]
fn test_generate_cmd_pipe_name_unique() {
    assert_ne!(generate_cmd_pipe_name(), generate_cmd_pipe_name());
}

#[test]
fn pipe_names_are_made_of_their_bytes() {
    assert_eq!(
        cmd_pipe_name(&[0, 255, 16]),
        r"\\.\pipe\carbon_nmh_cmd_r_00ff10"
    );
    assert_ne!(cmd_pipe_name(&[1]), cmd_pipe_name(&[2]));
}

#[test]
fn test_select_browser_ancestor_skips_native_messaging_cmd_wrapper() {
    let ancestors = vec![
        (100, "cmd.exe".to_string()),
        (200, "msedge.exe".to_string()),
    ];
    assert_eq!(
        select_browser_ancestor(&ancestors),
        Some((200, "msedge.exe".to_string()))
    );
}

#[test]
fn test_select_browser_ancestor_uses_topmost_consecutive_browser_process() {
    let ancestors = vec![
        (100, "cmd.exe".to_string()),
        (200, "chrome.exe".to_string()),
        (300, "chrome.exe".to_string()),
        (400, "explorer.exe".to_string()),
    ];
    assert_eq!(
        select_browser_ancestor(&ancestors),
        Some((300, "chrome.exe".to_string()))
    );
}

#[test]
fn test_select_browser_ancestor_rejects_wrapper_only_chain() {
    let ancestors = vec![(100, "cmd.exe".to_string())];
    assert_eq!(select_browser_ancestor(&ancestors), None);
}

#[test]
fn test_build_register_request_shape() {
    let browser = BrowserInfo {
        pid: 12345,
        exe_name: "360chromex.exe".to_string(),
        exe_path: r"C:\Program Files\360\360chromex.exe".to_string(),
    };
    let req = build_register_request("tok", r"\\.\pipe\carbon_nmh_cmd_r_abc", &browser, 77);
    assert_eq!(req.command, "register_nmh");
    assert_eq!(req.ipc_protocol_version, IPC_PROTOCOL_VERSION);
    assert_eq!(req.auth_token, "tok");
    assert_eq!(req.browser_pid, 12345);
    assert_eq!(req.browser_exe_name, "360chromex.exe");
    assert_eq!(req.browser_exe_path, r"C:\Program Files\360\360chromex.exe");
    assert_eq!(req.cmd_pipe_name, r"\\.\pipe\carbon_nmh_cmd_r_abc");
    assert_eq!(req.nmh_pid, 77);
}

#[test]
fn test_build_unregister_request_shape() {
    let req = build_unregister_request("tok", r"\\.\pipe\carbon_nmh_cmd_r_abc", 77);
    assert_eq!(req.command, "unregister_nmh");
    assert_eq!(req.auth_token, "tok");
    assert_eq!(req.cmd_pipe_name, r"\\.\pipe\carbon_nmh_cmd_r_abc");
    assert_eq!(req.nmh_pid, 77);
}

#[test]
fn the_browser_is_found_among_running_programs() {
    let processes = vec![
        ProcessEntry::new(10, 9, "nmh.exe"),
        ProcessEntry::new(9, 8, "CMD.EXE"),
        ProcessEntry::new(8, 7, "Chrome.exe"),
        ProcessEntry::new(7, 6, "chrome.exe"),
        ProcessEntry::new(6, 0, "explorer.exe"),
    ];
    let chain = ancestor_chain(&processes, 10);
    assert_eq!(chain.len(), 4);
    assert_eq!(chain[0], (9, "cmd.exe".to_string()));
    assert_eq!(
        detect_browser(&processes, 10),
        Some((7, "chrome.exe".to_string()))
    );
    assert_eq!(detect_browser(&processes, 99), None);
    assert!(is_native_messaging_launcher_wrapper("Cmd"));
    // A program that is its own parent has no ancestors.
    assert!(ancestor_chain(&vec![ProcessEntry::new(3, 3, "x")], 3).is_empty());
    // A loop of parents ends.
    let ring = vec![ProcessEntry::new(1, 2, "a"), ProcessEntry::new(2, 1, "b")];
    assert_eq!(ancestor_chain(&ring, 1).len(), 16);
}

#[test]
fn tokens_are_trimmed() {
    assert_eq!(read_auth_token(Some(" tok\n")).as_deref(), Some("tok"));
    assert_eq!(read_auth_token(Some(" \n")), None);
    assert_eq!(read_auth_token(None), None);
}

#[test]
fn data_pipes_belong_to_a_user() {
    let name = compute_nmh_pipe_name(Ok("S-1-5-21".to_string())).unwrap();
    assert!(name.starts_with(r"\\.\pipe\carbon_nmh_"));
    assert_eq!(name.len(), r"\\.\pipe\carbon_nmh_".len() + 16);
    assert_eq!(
        &name[r"\\.\pipe\carbon_nmh_".len()..],
        &carbonpaper::digest::sha256_hex(b"S-1-5-21carbonpaper_nmh_salt")[..16]
    );
    assert_ne!(name, compute_nmh_pipe_name(Ok("S-1-5-22".to_string())).unwrap());
    assert_eq!(
        compute_nmh_pipe_name(Err("no token".to_string())).unwrap_err(),
        "no token"
    );
}

#[test]
fn frames_are_read_as_they_were_written() {
    let frame = write_pipe_frame(b"{}").unwrap();
    assert_eq!(frame, vec![2, 0, 0, 0, b'{', b'}']);
    assert_eq!(read_pipe_frame(&frame[..4]).unwrap(), 2);
    assert_eq!(
        read_pipe_frame(&[0, 0, 0, 0]).unwrap_err(),
        "Invalid IPC v2 frame length: 0 (max 16777216)"
    );
    assert_eq!(
        read_pipe_frame(&[1, 0, 0, 1]).unwrap_err(),
        "Invalid IPC v2 frame length: 16777217 (max 16777216)"
    );
    assert_eq!(
        write_pipe_frame(&vec![0; IPC_MAX_MESSAGE_BYTES + 1]).unwrap_err(),
        "IPC request too large: 16777217 bytes (max 16777216)"
    );
    assert_eq!(nm_message(b"{}"), frame);
    assert_eq!(nm_message_length(&[0, 0, 0, 0]), Ok(None));
    assert_eq!(nm_message_length(&[5, 0, 0, 0]), Ok(Some(5)));
    let large = (NM_MAX_MESSAGE_BYTES as u32 + 1).to_le_bytes();
    assert_eq!(nm_message_length(&large).unwrap_err(), "Message too large");
}

#[test]
fn failures_are_reported_once() {
    let mut registration = Registration::new();
    let failed = || Err("CarbonPaper not running yet (no auth token)".to_string());
    assert!(matches!(
        registration.attempted(false, failed()),
        RegistrationReport::Failed { .. }
    ));
    assert!(matches!(
        registration.attempted(false, failed()),
        RegistrationReport::Silent
    ));
    assert_eq!(registration.delay_secs(), 3);
    assert!(matches!(
        registration.attempted(false, Ok(())),
        RegistrationReport::Registered
    ));
    assert_eq!(registration.delay_secs(), 60);
    assert!(matches!(
        registration.attempted(true, Ok(())),
        RegistrationReport::Silent
    ));
    assert!(matches!(
        registration.attempted(true, failed()),
        RegistrationReport::Failed { .. }
    ));
    registration.registered = true;
    assert!(registration.must_unregister(&Some("t".to_string())));
    assert!(!registration.must_unregister(&None));
}

#[test]
fn registrations_succeed_only_when_told_so() {
    assert_eq!(
        registration_result(None).unwrap_err(),
        "CarbonPaper not running yet (no auth token)"
    );
    assert!(registration_result(Some((Some("success"), None))).is_ok());
    assert_eq!(
        registration_result(Some((Some("error"), Some("x")))).unwrap_err(),
        "x"
    );
    assert_eq!(
        registration_result(Some((None, None))).unwrap_err(),
        "unknown error"
    );
}

fn message(kind: &str) -> ExtensionMessage {
    ExtensionMessage {
        kind: Some(kind.to_string()),
        image_data: Some("data".to_string()),
        image_hash: Some("hash".to_string()),
        width: Some(3),
        height: None,
        page_url: Some("u".to_string()),
        page_title: None,
        page_icon: None,
        visible_links: Some("[1]".to_string()),
        browser_name: Some("chrome.exe".to_string()),
    }
}

#[test]
fn messages_are_checked_and_passed_on() {
    let browser = Some(BrowserInfo {
        pid: 1,
        exe_name: "fork.exe".to_string(),
        exe_path: String::new(),
    });
    match handle_message(message("save_screenshot"), "tok", &browser, false, 5) {
        MessagePlan::Save { register_first, request } => {
            assert!(register_first);
            assert_eq!(request.command, "save_extension_screenshot");
            assert_eq!(request.browser_name, "fork.exe");
            assert_eq!((request.width, request.height), (3, 0));
            assert_eq!(request.page_url, "u");
            assert_eq!(request.page_title, "");
            assert_eq!(request.visible_links.as_deref(), Some("[1]"));
        }
        other => panic!("unexpected {other:?}"),
    }
    match handle_message(message("save_screenshot"), "tok", &None, false, 5) {
        MessagePlan::Save { register_first, request } => {
            assert!(!register_first);
            assert_eq!(request.browser_name, "chrome.exe");
        }
        other => panic!("unexpected {other:?}"),
    }
    let mut no_image = message("save_screenshot");
    no_image.image_data = None;
    assert!(matches!(
        handle_message(no_image, "tok", &None, true, 5),
        MessagePlan::Refuse { error } if error == "Missing image_data"
    ));
    let mut no_hash = message("save_screenshot");
    no_hash.image_hash = None;
    assert!(matches!(
        handle_message(no_hash, "tok", &None, true, 5),
        MessagePlan::Refuse { error } if error == "Missing image_hash"
    ));
    assert!(matches!(
        handle_message(message("ping"), "tok", &None, true, 5),
        MessagePlan::Pong
    ));
    assert!(matches!(
        handle_message(message("x"), "tok", &None, true, 5),
        MessagePlan::Refuse { error } if error == "Unknown message type: x"
    ));
}

#[test]
fn a_lost_application_is_noticed() {
    let told = pipe_failure_text(PipeFailure::Connect, "p", "refused");
    assert_eq!(told, "Cannot connect to CarbonPaper (pipe p): refused");
    assert!(!still_registered(true, Some("error"), Some(&told)));
    assert!(!still_registered(true, Some("error"), Some("Authentication failed: x")));
    assert!(still_registered(true, Some("error"), Some("Pipe write failed: x")));
    assert!(still_registered(true, Some("ok"), Some(&told)));
    assert!(!still_registered(false, Some("ok"), None));
    for (failure, text) in [
        (PipeFailure::Serialization, "Serialization failed: x"),
        (PipeFailure::Write, "Pipe write failed: x"),
        (PipeFailure::Flush, "Pipe flush failed: x"),
        (PipeFailure::Read, "Pipe read failed: x"),
        (PipeFailure::Response, "Invalid response JSON: x"),
    ] {
        assert_eq!(pipe_failure_text(failure, "p", "x"), text);
    }
}

#[test]
fn the_command_pipe_is_made_again_after_failures() {
    let mut server = CommandServer::new();
    match server.created(Err(5)) {
        ServerStep::Wait { ms, report } => {
            assert_eq!(ms, 2000);
            assert_eq!(
                report.as_deref(),
                Some("Failed to create command pipe (Win32 error 5); capture requests unavailable")
            );
        }
        ServerStep::Serve => panic!("there is no pipe"),
    }
    assert!(matches!(
        server.created(Err(5)),
        ServerStep::Wait { report: None, .. }
    ));
    assert!(matches!(server.created(Ok(())), ServerStep::Serve));
    assert!(!server.create_failure_reported);
    assert!(matches!(server.connected(Err(535)), ServerStep::Serve));
    assert!(matches!(
        server.connected(Err(1)),
        ServerStep::Wait { ms: 100, report: None }
    ));
    assert!(asks_for_capture(Some("request_capture")));
    assert!(!asks_for_capture(None));
    assert!(forward_answer(Ok(())).is_none());
    assert_eq!(
        forward_answer(Err("closed".to_string())).unwrap(),
        "Failed to forward capture request to extension: closed"
    );
}

#[test]
fn messages_are_read_from_their_bytes() {
    let msg = read_extension_message(
        br#"{"type":"save_screenshot","image_data":"d","image_hash":7,"width":3.5,"height":-2,
            "page_url":"u","page_title":null,"visible_links":[ {"text":"a","score":1e2} ]}"#,
    )
    .unwrap();
    assert_eq!(msg.kind.as_deref(), Some("save_screenshot"));
    assert_eq!(msg.image_data.as_deref(), Some("d"));
    assert_eq!(msg.image_hash, None);
    assert_eq!((msg.width, msg.height), (None, Some(-2)));
    assert_eq!(msg.page_url.as_deref(), Some("u"));
    assert_eq!((msg.page_title, msg.page_icon, msg.browser_name), (None, None, None));
    let links: serde_json::Value = serde_json::from_str(&msg.visible_links.unwrap()).unwrap();
    assert_eq!(links[0]["text"].as_str(), Some("a"));
    assert_eq!(links[0]["score"].as_f64(), Some(100.0));
    // What is no object has no fields; what is no JSON is no message.
    assert!(read_extension_message(b"[1]").unwrap().kind.is_none());
    assert!(read_extension_message(b"{").is_err());
    assert!(read_extension_message(b"\xff").is_err());
    assert!(read_extension_message(b"").is_err());
}

#[test]
fn answers_are_read_from_their_bytes() {
    let answer = read_answer(br#"{"status":"error","error":"x","id":4}"#).unwrap();
    assert_eq!(answer.status.as_deref(), Some("error"));
    assert_eq!(answer.error.as_deref(), Some("x"));
    let written: serde_json::Value = serde_json::from_str(&answer.written).unwrap();
    assert_eq!(written["id"].as_i64(), Some(4));
    let plain = read_answer(b" 3 ").unwrap();
    assert_eq!((plain.status, plain.error, plain.written.as_str()), (None, None, "3"));
    assert!(read_answer(b"nothing").is_err());
}

#[test]
fn only_requests_for_a_capture_are_served() {
    assert_eq!(request_command(r#"{"command":"x"}"#).as_deref(), Some("x"));
    assert_eq!(request_command(r#"{"command":1}"#), None);
    assert_eq!(request_command("command"), None);
    assert!(serves_request(Some(br#"{"command":"request_capture"}"#)));
    // Bytes that are no text stand for a mark; the request is read all the same.
    assert!(serves_request(Some(b"{\"command\":\"request_capture\",\"a\":\"\xff\"}")));
    assert!(!serves_request(Some(br#"{"command":"ping"}"#)));
    assert!(!serves_request(Some(b"")));
    assert!(!serves_request(None));
}
