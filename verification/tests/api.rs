use waku_core::api::{
    active_session_ids, active_sessions, cancel_form, cancel_inbox, classify, command,
    command_plugins, command_plugins_ready, commands_settled, create_session, data,
    delete_session, encode_path_segment, export_session, fork, get_session, health, interrupt,
    interrupt_answer,
    list_agents, list_commands, list_messages, list_models, list_sessions, list_skills,
    location_query, message_list_query, page_next, prompt, queue_inbox, reply_form,
    reply_permission, session_list_query, steer_inbox, switch_agent, switch_model, ApiError,
    Delivery, ForkRequestBoundary, ModelRef, Order, PermissionReply, Query,
};
use waku_core::json::{Json, JsonNumber};
use waku_core::wire::{is_blank_body, parse_http_response};

fn value(text: &str) -> serde_json::Value {
    serde_json::from_str(text).unwrap()
}

fn to_json(value: &serde_json::Value) -> Json {
    match value {
        serde_json::Value::Null => Json::Null,
        serde_json::Value::Bool(b) => Json::Bool(*b),
        serde_json::Value::Number(n) => Json::Number(if let Some(u) = n.as_u64() {
            JsonNumber::PosInt(u)
        } else if let Some(i) = n.as_i64() {
            JsonNumber::NegInt(i)
        } else {
            JsonNumber::Float(n.as_f64().unwrap_or(0.0).to_bits())
        }),
        serde_json::Value::String(s) => Json::String(s.clone()),
        serde_json::Value::Array(items) => Json::Array(items.iter().map(to_json).collect()),
        serde_json::Value::Object(map) => {
            Json::Object(map.iter().map(|(k, v)| (k.clone(), to_json(v))).collect())
        }
    }
}

fn from_json(value: &Json) -> serde_json::Value {
    match value {
        Json::Null => serde_json::Value::Null,
        Json::Bool(b) => serde_json::Value::Bool(*b),
        Json::Number(JsonNumber::PosInt(u)) => serde_json::Value::from(*u),
        Json::Number(JsonNumber::NegInt(i)) => serde_json::Value::from(*i),
        Json::Number(JsonNumber::Float(bits)) => serde_json::Value::from(f64::from_bits(*bits)),
        Json::String(s) => serde_json::Value::String(s.clone()),
        Json::Array(items) => serde_json::Value::Array(items.iter().map(from_json).collect()),
        Json::Object(entries) => serde_json::Value::Object(
            entries.iter().map(|(k, v)| (k.clone(), from_json(v))).collect(),
        ),
    }
}

fn parse(text: &str) -> Json {
    to_json(&serde_json::from_str::<serde_json::Value>(text).unwrap())
}

/// What a request's body serializes to.
fn body_of(body: &Option<Json>) -> serde_json::Value {
    from_json(body.as_ref().expect("a body"))
}

/// The JSON answer of a complete success response, as the client reads it.
fn answer(raw: &[u8]) -> Json {
    let body = parse_http_response(raw).unwrap();
    if is_blank_body(&body) {
        return Json::Null;
    }
    to_json(&serde_json::from_slice::<serde_json::Value>(&body).unwrap())
}

#[test]
fn path_segments_keep_only_unreserved_characters() {
    assert_eq!(encode_path_segment("ses_A-1.b~"), "ses_A-1.b~");
    assert_eq!(encode_path_segment("/a b"), "%2Fa%20b");
    assert_eq!(encode_path_segment("location[directory]"), "location%5Bdirectory%5D");
    assert_eq!(encode_path_segment("é"), "%C3%A9");
    assert_eq!(encode_path_segment(""), "");
}

#[test]
fn queries_start_with_a_question_mark_and_join_with_ampersands() {
    let mut query = Query::new();
    assert_eq!(Query::default().finish(), "");
    query.push("a", "1 2");
    query.push("b/c", "d");
    assert_eq!(query.finish(), "?a=1%202&b%2Fc=d");
    assert_eq!(Order::Asc.as_str(), "asc");
    assert_eq!(Order::Desc.as_str(), "desc");
}

#[test]
fn session_list_uses_a_flat_directory_filter() {
    assert_eq!(
        session_list_query(Some("/Users/e/dev/waku"), None, Order::Desc, 50, None),
        "?limit=50&directory=%2FUsers%2Fe%2Fdev%2Fwaku&order=desc"
    );
}

/// The order is baked into the opaque cursor, so sending both is a 400.
#[test]
fn a_cursor_replaces_the_order_parameter() {
    let query = session_list_query(None, None, Order::Asc, 50, Some("Y3Vyc29y"));
    assert!(query.contains("cursor=Y3Vyc29y"));
    assert!(!query.contains("order="));
    let query = message_list_query(Order::Asc, Some(200), Some("Y3Vyc29y"));
    assert!(query.contains("limit=200"));
    assert!(!query.contains("order="));
}

#[test]
fn list_queries_carry_every_filter_in_order() {
    assert_eq!(
        session_list_query(Some("/w"), Some("ses_p"), Order::Asc, 5, Some("c")),
        "?limit=5&directory=%2Fw&parentID=ses_p&cursor=c"
    );
    assert_eq!(message_list_query(Order::Asc, None, None), "?order=asc");
}

/// Everything but `GET /api/session` scopes with deepObject brackets; a flat
/// `directory=` there silently lists `$HOME`.
#[test]
fn catalogue_routes_scope_with_deep_object_brackets() {
    assert_eq!(
        location_query(Some("/Users/e/dev/waku")),
        "?location%5Bdirectory%5D=%2FUsers%2Fe%2Fdev%2Fwaku"
    );
    assert_eq!(location_query(None), "");
}

#[test]
fn catalogue_requests_use_their_routes() {
    let request = list_models(Some("/w"));
    assert_eq!((request.method, request.path.as_str()), ("GET", "/api/model?location%5Bdirectory%5D=%2Fw"));
    assert_eq!(request.timeout_ms, 10000);
    assert_eq!(list_agents(None).path, "/api/agent");
    assert_eq!(list_skills(None).path, "/api/skill");
    assert_eq!(list_commands(None).path, "/api/command");
    assert_eq!(command_plugins(Some("/w")).path, "/api/plugin?location%5Bdirectory%5D=%2Fw");
    let health = health();
    assert_eq!((health.method, health.path.as_str(), health.timeout_ms), ("GET", "/api/health", 2000));
    assert!(health.body.is_none());
    let active = active_sessions();
    assert_eq!(active.path, "/api/session/active");
}

#[test]
fn session_routes_encode_their_ids() {
    let request = get_session("ses/x");
    assert_eq!((request.method, request.path.as_str()), ("GET", "/api/session/ses%2Fx"));
    assert_eq!(delete_session("ses_1").method, "DELETE");
    assert_eq!(delete_session("ses_1").path, "/api/session/ses_1");
    let steer = steer_inbox("ses_1", "msg 2");
    assert_eq!((steer.method, steer.path.as_str()), ("POST", "/api/session/ses_1/inbox/msg%202/steer"));
    assert!(steer.body.is_none());
    assert_eq!(queue_inbox("ses_1", "msg_2").path, "/api/session/ses_1/inbox/msg_2/queue");
    let cancel = cancel_inbox("ses_1", "msg_2");
    assert_eq!((cancel.method, cancel.path.as_str()), ("DELETE", "/api/session/ses_1/inbox/msg_2"));
    let interrupt = interrupt("ses_1");
    assert_eq!((interrupt.method, interrupt.path.as_str()), ("POST", "/api/session/ses_1/interrupt"));
    assert!(interrupt.body.is_none());
    assert_eq!(cancel_form("ses_1", "frm_1").path, "/api/session/ses_1/form/frm_1/cancel");
    let messages = list_messages("ses_1", Order::Asc, Some(200), None);
    assert_eq!(messages.path, "/api/session/ses_1/message?limit=200&order=asc");
    assert_eq!(messages.timeout_ms, 60000);
    assert_eq!(export_session("ses_1", true).path, "/api/session/ses_1/export?sanitize=true");
    assert_eq!(
        list_sessions(Some("/w"), None, Order::Desc, 5, None).path,
        "/api/session?limit=5&directory=%2Fw&order=desc"
    );
}

#[test]
fn request_bodies_have_the_shapes_the_service_expects() {
    let model = ModelRef {
        id: "deepseek-v4-flash".to_owned(),
        provider_id: "opencode-go".to_owned(),
        variant: None,
    };
    let created = create_session("ses_1", Some("build"), Some(&model), "/w");
    assert_eq!(created.path, "/api/session");
    assert_eq!(
        body_of(&created.body),
        value(r#"{
            "id": "ses_1",
            "location": {"directory": "/w"},
            "agent": "build",
            "model": {"id": "deepseek-v4-flash", "providerID": "opencode-go"}
        }"#)
    );
    assert_eq!(
        body_of(&prompt("ses_1", "hi", Some(Delivery::Queue)).body),
        value(r#"{"text": "hi", "delivery": "queue"}"#)
    );
    assert_eq!(body_of(&prompt("ses_1", "hi", None).body), value(r#"{"text": "hi"}"#));
    let switched = switch_model(
        "ses_1",
        &ModelRef { variant: Some("high".to_owned()), ..model },
    );
    assert_eq!(
        body_of(&switched.body),
        value(r#"{"model": {"id": "deepseek-v4-flash", "providerID": "opencode-go", "variant": "high"}}"#)
    );
    assert_eq!(body_of(&switch_agent("ses_1", "plan").body), value(r#"{"agent": "plan"}"#));
    let forked = fork("ses_1", &ForkRequestBoundary::Before { message_id: "msg_1".to_owned() });
    assert_eq!(forked.timeout_ms, 120000);
    assert_eq!(
        body_of(&forked.body),
        value(r#"{"boundary": {"type": "before", "messageID": "msg_1"}}"#)
    );
    assert_eq!(
        body_of(&fork("ses_1", &ForkRequestBoundary::Through).body),
        value(r#"{"boundary": {"type": "through"}}"#)
    );
    let answer = parse(r#"{"agree": true, "name": "waku"}"#);
    let replied = reply_form("ses_1", "frm_1", answer);
    assert_eq!(replied.path, "/api/session/ses_1/form/frm_1/reply");
    assert_eq!(
        body_of(&replied.body),
        value(r#"{"answer": {"agree": true, "name": "waku"}}"#)
    );
}

#[test]
fn native_command_accepts_an_empty_acknowledgement() {
    let request = command("ses_test", "review", "main", Some(Delivery::Steer));
    assert_eq!(request.path, "/api/session/ses_test/command");
    assert_eq!(
        body_of(&request.body),
        value(r#"{"command": "review", "text": "main", "delivery": "steer"}"#)
    );
    assert!(matches!(answer(b"HTTP/1.1 204 No Content\r\n\r\n"), Json::Null));
}

/// `always` writes a rule into the user's own permission config, so it is
/// refused before any request goes out.
#[test]
fn saving_a_permission_rule_is_refused_without_a_request() {
    let error = reply_permission("ses_1", "per_1", PermissionReply::Always).unwrap_err();
    assert!(matches!(error, ApiError::Transport(_)));
    let once = reply_permission("ses_1", "per_1", PermissionReply::Once).unwrap();
    assert_eq!(once.path, "/api/session/ses_1/permission/per_1/reply");
    assert_eq!(body_of(&once.body), value(r#"{"reply": "once"}"#));
    assert_eq!(
        error.message(),
        "OpenCode 2 permission replies must not save a persistent rule"
    );
}

#[test]
fn a_structured_error_body_keeps_its_tag_and_status() {
    let body = r#"{"_tag":"SessionNotFoundError","sessionID":"ses_x","message":"Session not found: ses_x"}"#;
    let raw = format!(
        "HTTP/1.1 404 Not Found\r\nContent-Type: application/json\r\nContent-Length: {}\r\n\r\n{body}",
        body.len()
    );
    assert_eq!(get_session("ses_x").path, "/api/session/ses_x");
    let failure = parse_http_response(raw.as_bytes()).unwrap_err();
    let error = classify(&failure, Some(&parse(body)));
    assert_eq!(error.tag(), Some("SessionNotFoundError"));
    assert_eq!(error.status(), Some(404));
    assert!(error.is_not_found());
    assert!(!error.is_unresolvable_location());
    assert_eq!(
        error.message(),
        "OpenCode 2 SessionNotFoundError (HTTP 404): Session not found: ses_x"
    );
}

/// A location-scoped route handed an unresolvable directory answers a
/// bodyless 500, which is a bad workspace rather than a server fault.
#[test]
fn a_bodyless_500_reads_as_an_unresolvable_workspace() {
    let request = list_models(Some("/nope/nope"));
    assert_eq!(request.path, "/api/model?location%5Bdirectory%5D=%2Fnope%2Fnope");
    let failure =
        parse_http_response(b"HTTP/1.1 500 Internal Server Error\r\nContent-Length: 0\r\n\r\n")
            .unwrap_err();
    let error = classify(&failure, None);
    assert!(error.is_unresolvable_location(), "{error:?}");
    assert_eq!(error.status(), Some(500));
}

#[test]
fn unstructured_and_transport_failures_keep_what_they_have() {
    let failure = parse_http_response(b"HTTP/1.1 502 Bad Gateway\r\n\r\nupstream").unwrap_err();
    let error = classify(&failure, None);
    assert!(matches!(&error, ApiError::Http { status: 502, body } if body == "upstream"));
    assert_eq!(error.message(), "OpenCode 2 request failed with HTTP 502: upstream");
    assert!(!error.is_unresolvable_location());
    assert_eq!(error.tag(), None);
    // A body that is JSON but not the structured error stays text.
    let failure = parse_http_response(b"HTTP/1.1 500 X\r\n\r\n{\"_tag\":1}").unwrap_err();
    assert!(matches!(classify(&failure, Some(&parse("{\"_tag\":1}"))), ApiError::Http { status: 500, .. }));
    // The structured error is also read from its positional form.
    let failure = parse_http_response(b"HTTP/1.1 409 X\r\n\r\n[\"Busy\",\"later\"]").unwrap_err();
    let error = classify(&failure, Some(&parse("[\"Busy\",\"later\"]")));
    assert_eq!(error.tag(), Some("Busy"));
    let blank = ApiError::Http { status: 500, body: " \n".to_owned() };
    assert!(blank.is_unresolvable_location());
    assert_eq!(blank.message(), "OpenCode 2 request failed with HTTP 500");
    let failure = parse_http_response(b"HTTP/1.1 200 OK\r\n").unwrap_err();
    let error = classify(&failure, None);
    assert!(matches!(&error, ApiError::Transport(m) if m == "OpenCode returned an invalid HTTP response"));
    assert_eq!(error.status(), None);
    assert!(!error.is_not_found());
}

#[test]
fn the_data_envelope_is_unwrapped_per_route() {
    assert_eq!(
        from_json(&data(parse(r#"{"location": {}, "data": [1]}"#), "model catalogue").unwrap()),
        value(r#"[1]"#)
    );
    assert!(matches!(
        data(parse(r#"{"location": {}}"#), "model catalogue"),
        Err(ApiError::Transport(m)) if m == "OpenCode 2 returned no model catalogue in its response"
    ));
    assert!(matches!(
        data(parse("[1]"), "session"),
        Err(ApiError::Transport(m)) if m == "OpenCode 2 returned an unreadable session response"
    ));
}

/// Both cursors are minted on every page, so only an empty page ends the
/// walk.
#[test]
fn pagination_terminates_on_an_empty_page_not_an_absent_cursor() {
    let full = parse(r#"{"data": [{"name": "init"}], "cursor": {"previous": "cA", "next": "bg"}}"#);
    let items = full.get("data").and_then(Json::as_array).unwrap().len();
    assert_eq!(items, 1);
    assert_eq!(page_next(items, Some("bg".to_owned())).as_deref(), Some("bg"));

    let empty = parse(r#"{"data": [], "cursor": {"previous": "cA", "next": "bg"}}"#);
    let items = empty.get("data").and_then(Json::as_array).unwrap().len();
    assert_eq!(items, 0);
    assert!(page_next(items, Some("bg".to_owned())).is_none());
}

#[test]
fn active_sessions_are_the_keys_of_the_payload() {
    let response = answer(
        b"HTTP/1.1 200 OK\r\nContent-Length: 41\r\n\r\n{\"data\":{\"ses_a\":{\"type\":\"running\"}}}\r\n\r\n",
    );
    let active = active_session_ids(&data(response, "active sessions").unwrap()).unwrap();
    assert_eq!(active, vec!["ses_a".to_owned()]);
    assert!(matches!(
        active_session_ids(&Json::Null),
        Err(ApiError::Transport(m)) if m == "OpenCode 2 returned an unreadable active session map"
    ));
}

#[test]
fn command_catalog_waits_for_cold_location_builtins() {
    let plugins = [
        parse(r#"{"data": []}"#),
        parse(r#"{"data": [{"id": "opencode.command", "state": {"status": "active"}}]}"#),
        parse(
            r#"{"data": [
                {"id": "opencode.command", "state": {"status": "active"}},
                {"id": "opencode.config.command", "state": {"status": "active"}},
                {"id": "opencode.config.skill", "state": {"status": "active"}}
            ]}"#,
        ),
    ];
    let catalogues = [
        parse(r#"{"data": []}"#),
        parse(r#"{"data": [{"name": "init"}, {"name": "review"}]}"#),
        parse(r#"{"data": [{"name": "init"}, {"name": "review"}, {"name": "custom"}]}"#),
    ];
    let mut kept = None;
    for (registry, catalogue) in plugins.iter().zip(catalogues) {
        let ready = command_plugins_ready(registry);
        let latest = match data(catalogue, "command catalogue").unwrap() {
            Json::Array(items) => items,
            other => panic!("expected a list, got {other:?}"),
        };
        if commands_settled(ready, latest.len()) {
            kept = Some(latest);
            break;
        }
    }
    let names: Vec<&str> = kept
        .as_ref()
        .unwrap()
        .iter()
        .map(|command| command.get("name").and_then(Json::as_str).unwrap())
        .collect();
    assert_eq!(names, ["init", "review", "custom"]);
}

#[test]
fn plugin_readiness_needs_every_publisher_settled() {
    assert_eq!(command_plugins_ready(&parse(r#"{"nope": []}"#)), None);
    let failed_and_renamed = parse(
        r#"{"data": [
            {"id": "command", "state": {"status": "failed"}},
            {"id": "config-command", "state": {"status": "active"}},
            {"id": "config-skill", "state": {"status": "active"}}
        ]}"#,
    );
    assert_eq!(command_plugins_ready(&failed_and_renamed), Some(true));
    let loading = parse(
        r#"{"data": [
            {"id": "command", "state": {"status": "loading"}},
            {"id": "config-command", "state": {"status": "active"}},
            {"id": "config-skill", "state": {"status": "active"}}
        ]}"#,
    );
    assert_eq!(command_plugins_ready(&loading), Some(false));
    assert!(commands_settled(None, 1));
    assert!(!commands_settled(None, 0));
    assert!(!commands_settled(Some(false), 3));
}

#[test]
fn encoded_values_cannot_break_a_query_apart() {
    let encoded = encode_path_segment("a/b?c=d&e[f]#g %");
    assert_eq!(encoded, "a%2Fb%3Fc%3Dd%26e%5Bf%5D%23g%20%25");
    assert!(encoded
        .chars()
        .all(|c| c.is_ascii_alphanumeric() || "%-._~".contains(c)));
}

#[test]
fn a_query_of_several_pushes_is_one_question_mark_then_ampersands() {
    let mut query = Query::new();
    query.push("a", "1");
    query.push("b", "2");
    query.push("c", "3 4");
    assert_eq!(query.finish(), "?a=1&b=2&c=3%204");
}

#[test]
fn an_interrupt_answer_is_read_bare_and_never_unwrapped() {
    assert!(matches!(interrupt_answer(&parse(r#"{"interrupted": true}"#), ""), Ok(true)));
    assert!(matches!(
        interrupt_answer(&parse(r#"{"interrupted": false, "extra": 1}"#), ""),
        Ok(false)
    ));
    assert!(matches!(interrupt_answer(&parse("[true]"), ""), Ok(true)));
    match interrupt_answer(
        &parse(r#"{"data": {"interrupted": true}}"#),
        "missing field `interrupted`",
    ) {
        Err(ApiError::Transport(m)) => {
            assert_eq!(m, "OpenCode 2 returned an invalid interrupt: missing field `interrupted`")
        }
        other => panic!("an enveloped answer is refused, not {other:?}"),
    }
    assert!(matches!(
        interrupt_answer(&parse(r#"{"interrupted": 1}"#), "x"),
        Err(ApiError::Transport(_))
    ));
    assert!(matches!(interrupt_answer(&parse("[true, false]"), "x"), Err(ApiError::Transport(_))));
    assert!(matches!(interrupt_answer(&parse("true"), "x"), Err(ApiError::Transport(_))));
}
