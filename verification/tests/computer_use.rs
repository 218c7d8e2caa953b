use waku_core::computer_use::{
    abi_supported, admit_operation, bridge_config, bridge_server_name, check,
    computer_use_instructions, dispatch_plan, find_server, initialize_result, library_name,
    mcp_connect_step, message_too_long, owns_registration, preview_png_bytes, preview_update,
    publishes_preview, response_json, server_connected, session_registration,
    session_registration_path, tool_identity, HostOs, McpCall, McpStep, OperationWait,
    PreviewError, PreviewFrames, Registration, INSTRUCTION_KEY,
};
use waku_core::json::{Json, JsonNumber};

fn value(text: &str) -> serde_json::Value {
    serde_json::from_str(text).unwrap()
}

fn to_json(value: &serde_json::Value) -> Json {
    match value {
        serde_json::Value::Null => Json::Null,
        serde_json::Value::Bool(b) => Json::Bool(*b),
        serde_json::Value::Number(n) => Json::Number(if let Some(u) = n.as_u64() {
            JsonNumber::PosInt(u)
        } else if let Some(i) = n.as_i64() {
            JsonNumber::NegInt(i)
        } else {
            JsonNumber::Float(n.as_f64().unwrap_or(0.0).to_bits())
        }),
        serde_json::Value::String(s) => Json::String(s.clone()),
        serde_json::Value::Array(items) => Json::Array(items.iter().map(to_json).collect()),
        serde_json::Value::Object(map) => {
            Json::Object(map.iter().map(|(k, v)| (k.clone(), to_json(v))).collect())
        }
    }
}

fn from_json(value: &Json) -> serde_json::Value {
    match value {
        Json::Null => serde_json::Value::Null,
        Json::Bool(b) => serde_json::Value::Bool(*b),
        Json::Number(JsonNumber::PosInt(u)) => serde_json::Value::from(*u),
        Json::Number(JsonNumber::NegInt(i)) => serde_json::Value::from(*i),
        Json::Number(JsonNumber::Float(bits)) => serde_json::Value::from(f64::from_bits(*bits)),
        Json::String(s) => serde_json::Value::String(s.clone()),
        Json::Array(items) => serde_json::Value::Array(items.iter().map(from_json).collect()),
        Json::Object(entries) => serde_json::Value::Object(
            entries.iter().map(|(k, v)| (k.clone(), from_json(v))).collect(),
        ),
    }
}

fn json(value: serde_json::Value) -> Json {
    to_json(&value)
}

#[test]
fn previews_preserve_native_window_handles_and_capture_dimensions() {
    let mut state = value(r#"{"structuredContent": {"window_id": 8589934593, "screenshot_width": 1200,
        "screenshot_height": 800, "app_name": "Editor", "screenshot_frame_valid": true},
        "content": [{"type": "image", "mimeType": "image/png", "data": "cG5n"}]}"#);
    let preview = from_json(&preview_update(&json(state.clone())).unwrap());
    assert_eq!(preview["target"]["windowId"], 8589934593_u64);
    assert_eq!(preview["target"]["width"], 1200);
    assert_eq!(preview["imageUrl"], "data:image/png;base64,cG5n");
    let mut failed = state.clone();
    failed["isError"] = value(r#"true"#);
    assert!(preview_update(&json(failed)).is_none());
    state["structuredContent"]["screenshot_frame_valid"] = value(r#"false"#);
    assert!(preview_update(&json(state)).is_none());
}

#[test]
fn previews_default_their_labels_and_pick_the_first_png() {
    let state = value(r#"{"structuredContent": {"window_id": 3, "screenshot_width": 10,
        "screenshot_height": 20},
        "content": [{"type": "text", "text": "x"}, {"type": "image", "mimeType": "image/jpeg", "data": "j"},
                    {"type": "image", "mimeType": "image/png", "data": "AAA"},
                    {"type": "image", "mimeType": "image/png", "data": "BBB"}]}"#);
    let preview = from_json(&preview_update(&json(state)).unwrap());
    assert_eq!(
        preview,
        value(r#"{
            "target": {"windowId": 3, "bundleId": "", "appName": "App", "windowTitle": "",
                       "width": 10, "height": 20},
            "imageUrl": "data:image/png;base64,AAA"
        }"#)
    );
    let no_png = value(r#"{"structuredContent": {"window_id": 3, "screenshot_width": 10,
        "screenshot_height": 20}, "content": []}"#);
    assert!(preview_update(&json(no_png)).is_none());
}

#[test]
fn preview_keeps_the_ready_frame_until_the_latest_decode_succeeds() {
    let mut frames = PreviewFrames::default();
    let first = frames.begin();
    assert!(frames.complete(first, Some("first")));
    let stale = frames.begin();
    let latest = frames.begin();
    assert_eq!(frames.current, Some("first"));
    assert!(!frames.complete(stale, Some("stale")));
    assert!(!frames.complete(latest, None));
    assert_eq!(frames.current, Some("first"));
    let next = frames.begin();
    assert!(frames.complete(next, Some("next")));
    assert!(!frames.complete(latest, Some("late")));
    assert_eq!(frames.current, Some("next"));
}

#[test]
fn preview_images_must_be_non_empty_png_data_urls() {
    assert_eq!(preview_png_bytes("data:image/png;base64,cG5n").unwrap(), b"png");
    assert_eq!(
        preview_png_bytes("data:image/jpeg;base64,cG5n"),
        Err(PreviewError::NotPngDataUrl)
    );
    assert_eq!(
        preview_png_bytes("data:image/png;base64,!!"),
        Err(PreviewError::InvalidBase64)
    );
    assert_eq!(preview_png_bytes("data:image/png;base64,"), Err(PreviewError::Empty));
    assert_eq!(PreviewError::Empty.message(), "Computer Use preview is empty");
}

#[test]
fn the_sdk_library_is_named_per_platform() {
    assert_eq!(library_name(HostOs::Windows), "cua_driver_sdk.dll");
    assert_eq!(library_name(HostOs::MacOs), "libcua_driver_sdk.dylib");
    assert_eq!(library_name(HostOs::Other), "libcua_driver_sdk.so");
}

#[test]
fn sdk_statuses_fail_with_the_sdk_text() {
    assert!(check(0, b"ignored").is_ok());
    assert_eq!(check(3, b"denied").unwrap_err(), "Cua Driver failed (3): denied");
    assert_eq!(check(-2, b"\xffx").unwrap_err(), "Cua Driver failed (-2): \u{fffd}x");
    assert_eq!(
        check(i32::MIN, b"").unwrap_err(),
        "Cua Driver failed (-2147483648): "
    );
    assert!(abi_supported(0, true).is_ok());
    assert_eq!(abi_supported(1, true).unwrap_err(), "Cua Driver SDK ABI 1.1 is required");
    assert_eq!(abi_supported(0, false).unwrap_err(), "Cua Driver SDK ABI 1.1 is required");
}

#[test]
fn a_stop_cancels_once_and_the_outcome_is_not_trusted() {
    assert_eq!(
        admit_operation(true).unwrap_err(),
        "Computer Use stopped before the action started"
    );
    assert!(admit_operation(false).is_ok());
    let mut wait = OperationWait::new();
    assert!(!wait.poll_timed_out(false));
    assert!(wait.poll_timed_out(true));
    assert!(!wait.poll_timed_out(true));
    assert_eq!(
        wait.finish(Ok(b"{}".to_vec())).unwrap_err(),
        "Computer Use stopped; action completion is unknown. Inspect fresh state before retrying."
    );
    let calm = OperationWait::new();
    assert_eq!(calm.finish(Ok(b"{}".to_vec())).unwrap(), b"{}");
    assert_eq!(calm.finish(Err("boom".to_owned())).unwrap_err(), "boom");
}

#[test]
fn mcp_requests_are_routed_by_method() {
    let initialize = json(value(r#"{"jsonrpc": "2.0", "id": 1, "method": "initialize"}"#));
    assert!(matches!(dispatch_plan(&initialize), Ok(McpCall::Initialize)));
    assert_eq!(
        from_json(&initialize_result()),
        value(r#"{
            "protocolVersion": "2025-06-18", "capabilities": {"tools": {}},
            "serverInfo": {"name": "Waku Cua Driver", "version": "0.28.0"}
        }"#)
    );
    let list = json(value(r#"{"method": "tools/list"}"#));
    assert!(matches!(dispatch_plan(&list), Ok(McpCall::ListTools)));
    let call = json(value(r#"{"method": "tools/call", "params": {"name": "click", "arguments": {"x": 1}}}"#));
    match dispatch_plan(&call) {
        Ok(McpCall::CallTool { name, arguments }) => {
            assert_eq!(name, "click");
            assert_eq!(from_json(arguments.unwrap()), value(r#"{"x": 1}"#));
        }
        other => panic!("expected a tool call, got {other:?}"),
    }
    let bare = json(value(r#"{"method": "tools/call", "params": {"name": "list_apps"}}"#));
    assert!(matches!(dispatch_plan(&bare), Ok(McpCall::CallTool { arguments: None, .. })));
    let nameless = json(value(r#"{"method": "tools/call", "params": {}}"#));
    assert_eq!(dispatch_plan(&nameless).unwrap_err(), "tools/call requires a name");
    assert!(matches!(dispatch_plan(&json(value(r#"{"method": "ping"}"#))), Ok(McpCall::Ping)));
    assert_eq!(
        dispatch_plan(&json(value(r#"{"method": "resources/list"}"#))).unwrap_err(),
        "unsupported MCP method"
    );
    assert!(publishes_preview(&json(value(r#"{"params": {"name": "get_window_state"}}"#))));
    assert!(!publishes_preview(&call));
    assert!(message_too_long(32 * 1024 * 1024 + 1));
    assert!(!message_too_long(32 * 1024 * 1024));
}

#[test]
fn responses_carry_the_request_id() {
    assert_eq!(
        from_json(&response_json(json(value(r#"7"#)), Ok(json(value(r#"{}"#))))),
        value(r#"{"jsonrpc": "2.0", "id": 7, "result": {}}"#)
    );
    assert_eq!(
        from_json(&response_json(json(value(r#""a""#)), Err("bad".to_owned()))),
        value(r#"{"jsonrpc": "2.0", "id": "a", "error": {"code": -32603, "message": "bad"}}"#)
    );
}

#[test]
fn the_helper_registers_by_pid_in_its_process_directory() {
    let registration = Registration { directory: Some("/tmp/cu".to_owned()), pid: 42 };
    assert_eq!(registration.pid_marker().as_deref(), Some("/tmp/cu/42"));
    assert_eq!(registration.cancel_marker().as_deref(), Some("/tmp/cu/cancel-42"));
    assert_eq!(registration.preview_path(8589934593).as_deref(), Some("/tmp/cu/preview-8589934593.json"));
    assert!(registration.cancelled(true));
    assert!(!registration.cancelled(false));
    let loose = Registration { directory: None, pid: 42 };
    assert!(loose.cancel_marker().is_none());
    assert!(!loose.cancelled(true));
}

#[test]
fn bridge_tools_are_recognized_by_their_server_name() {
    let server = format!("waku_js_repl_{}", "0123456789abcdef0123456789ABCDEF");
    assert_eq!(
        tool_identity(&format!("{server}_js")),
        Some((server.clone(), "js"))
    );
    assert_eq!(
        tool_identity(&format!("{server}_js_reset")),
        Some((server.clone(), "js_reset"))
    );
    assert_eq!(tool_identity(&format!("{server}_other")), None);
    assert_eq!(tool_identity("waku_js_repl_short_js"), None);
    assert_eq!(tool_identity(&format!("waku_js_repl_{}_js", "g".repeat(32))), None);
    assert_eq!(tool_identity(&format!("other_repl_{}_js", "a".repeat(32))), None);
    let fresh = bridge_server_name();
    assert_eq!(fresh.len(), 45);
    assert_eq!(tool_identity(&format!("{fresh}_js")), Some((fresh.clone(), "js")));
    assert_ne!(fresh, bridge_server_name());
}

#[test]
fn the_bridge_registers_a_local_repl_server() {
    assert_eq!(
        from_json(&bridge_config("/app/repl", "/w", "/tmp/sessions")),
        value(r#"{
            "type": "local",
            "command": ["/app/repl"],
            "cwd": "/w",
            "codemode": false,
            "environment": {"WAKU_COMPUTER_USE_SESSIONS_DIRECTORY": "/tmp/sessions"},
            "timeout": {"startup": 10000, "catalog": 10000, "execution": 300000}
        }"#)
    );
    assert_eq!(
        session_registration_path("/tmp/sessions", "ses_1?"),
        "/tmp/sessions/c2VzXzE_.json"
    );
    let registration = session_registration("/app/server", "/tmp/cu", "/w");
    assert_eq!(
        from_json(&registration),
        value(r#"{"server_path": "/app/server", "process_directory": "/tmp/cu", "cwd": "/w"}"#)
    );
    assert!(owns_registration(Some(&registration), "/tmp/cu"));
    assert!(!owns_registration(Some(&registration), "/tmp/other"));
    assert!(!owns_registration(None, "/tmp/cu"));
    assert_eq!(INSTRUCTION_KEY, "waku-computer-use");
    let text = computer_use_instructions("waku_js_repl_x", "/skills/SKILL.md");
    assert!(text.starts_with("Computer Use is enabled for this Waku session. Use the `js` and `js_reset` tools from MCP server `waku_js_repl_x`."));
    assert!(text.contains("read the bundled skill at /skills/SKILL.md for the complete native API"));
    assert!(text.contains("`await setupComputerUseRuntime({ globals: globalThis })`"));
}

#[test]
fn the_bridge_waits_for_its_server_to_connect() {
    let servers = match json(value(r#"[
        {"name": "other", "status": {"status": "connected"}},
        {"name": "mine", "status": {"status": "pending"}}
    ]"#)) {
        Json::Array(items) => items,
        _ => unreachable!(),
    };
    let mine = find_server(&servers, "mine");
    assert!(mine.is_some());
    assert!(!server_connected(mine));
    assert!(server_connected(find_server(&servers, "other")));
    assert!(find_server(&servers, "gone").is_none());
    assert!(matches!(mcp_connect_step(mine, false), McpStep::Wait));
    assert!(matches!(mcp_connect_step(mine, true), McpStep::TimedOut));
    assert!(matches!(mcp_connect_step(None, true), McpStep::TimedOut));
    let failed = json(value(r#"{"name": "mine", "status": {"status": "failed", "error": "no node"}}"#));
    assert!(matches!(
        mcp_connect_step(Some(&failed), false),
        McpStep::Failed(m) if m == "OpenCode 2 could not start Waku Computer Use: no node"
    ));
    let auth = json(value(r#"{"status": {"status": "needs_auth"}}"#));
    assert!(matches!(
        mcp_connect_step(Some(&auth), false),
        McpStep::Failed(m) if m == "OpenCode 2 could not start Waku Computer Use: MCP server unavailable"
    ));
    let up = json(value(r#"{"status": {"status": "connected"}}"#));
    assert!(matches!(mcp_connect_step(Some(&up), true), McpStep::Connected));
}
