use waku_core::hub::SubscriberTable;
use waku_core::json::{Json, JsonNumber};
use waku_core::reader::{
    envelope_step, frame_step, is_envelope, restart_reader, EnvelopeStep, FrameStep, ReaderState,
    ReaderStep,
};
use waku_core::service::{
    accept_health, acquire_step, channel_candidates, connect_finished, connect_plan,
    context_windows, join_path, model_context_windows, probe, read_registration,
    registration_path, route, spawn_poll_step, state_directory, vacate, AcquireStep, ConnectPlan,
    HealthRejection, Route, ServiceRegistration, SlotState, SpawnStep,
};
use waku_core::sse::{SseFrame, SseParser};

fn value(text: &str) -> serde_json::Value {
    serde_json::from_str(text).unwrap()
}

fn to_json(value: &serde_json::Value) -> Json {
    match value {
        serde_json::Value::Null => Json::Null,
        serde_json::Value::Bool(b) => Json::Bool(*b),
        serde_json::Value::Number(n) => Json::Number(if let Some(u) = n.as_u64() {
            JsonNumber::PosInt(u)
        } else if let Some(i) = n.as_i64() {
            JsonNumber::NegInt(i)
        } else {
            JsonNumber::Float(n.as_f64().unwrap_or(0.0).to_bits())
        }),
        serde_json::Value::String(s) => Json::String(s.clone()),
        serde_json::Value::Array(items) => Json::Array(items.iter().map(to_json).collect()),
        serde_json::Value::Object(map) => {
            Json::Object(map.iter().map(|(k, v)| (k.clone(), to_json(v))).collect())
        }
    }
}

fn json(value: serde_json::Value) -> Json {
    to_json(&value)
}

fn registration(pid: u32) -> ServiceRegistration {
    ServiceRegistration {
        id: "796c624d-c94e-4086-b245-0a9560a14019".to_owned(),
        version: Some("0.0.0-beta-19192".to_owned()),
        url: "http://127.0.0.1:49374".to_owned(),
        pid,
        password: "secret".to_owned(),
    }
}

#[test]
fn tui_remote_control_events_never_reach_a_session() {
    for kind in [
        "tui.prompt.append",
        "tui.command.execute",
        "tui.session.select",
        "tui.toast.show",
    ] {
        assert_eq!(
            route(&json(value(&format!(r#"{{"type": "{kind}", "data": {{"sessionID": "ses_a"}}}}"#)))),
            Route::Drop,
            "{kind} is a remote-control command, not session traffic"
        );
    }
}

#[test]
fn form_created_is_routed_from_its_nested_session_id() {
    assert_eq!(
        route(&json(value(r#"{
            "id": "evt_1",
            "type": "form.created",
            "data": {"form": {"id": "frm_1", "sessionID": "ses_a"}}
        }"#))),
        Route::Session("ses_a".to_owned())
    );
    // Never broadcast a form Waku cannot attribute.
    assert_eq!(
        route(&json(value(r#"{"type": "form.created", "data": {"form": {"id": "frm_1"}}}"#))),
        Route::Drop
    );
}

#[test]
fn session_events_are_routed_and_session_less_ones_broadcast() {
    assert_eq!(
        route(&json(value(r#"{"type": "message.part.updated", "data": {"sessionID": "ses_b"}}"#))),
        Route::Session("ses_b".to_owned())
    );
    assert_eq!(
        route(&json(value(r#"{"type": "catalog.updated", "data": {}}"#))),
        Route::Broadcast
    );
    assert_eq!(
        route(&json(value(r#"{"type": "server.connected", "data": {}}"#))),
        Route::Broadcast
    );
}

#[test]
fn routing_tolerates_odd_envelopes() {
    // No type at all reads as the empty type: routed by its session.
    assert_eq!(
        route(&json(value(r#"{"data": {"sessionID": "ses_c"}}"#))),
        Route::Session("ses_c".to_owned())
    );
    // A session id that is not a string is no session id.
    assert_eq!(
        route(&json(value(r#"{"type": "x", "data": {"sessionID": 7}}"#))),
        Route::Broadcast
    );
    assert_eq!(route(&json(value(r#"[1, 2]"#))), Route::Broadcast);
    // `tui.` is a prefix test, not a substring one.
    assert_eq!(
        route(&json(value(r#"{"type": "x.tui.y", "data": {"sessionID": "s"}}"#))),
        Route::Session("s".to_owned())
    );
}

/// The first frame of every connection has no `created`; a required field
/// there would fail every connect.
#[test]
fn server_connected_envelope_without_created_deserializes() {
    let envelope =
        json(value(r#"{"id": "evt_07679afe8001k2gZiwt8bRYXqB", "type": "server.connected", "data": {}}"#));
    assert!(is_envelope(&envelope), "server.connected must parse");
    assert_eq!(envelope.get("type").and_then(Json::as_str), Some("server.connected"));
    assert!(envelope.get("created").is_none());

    let ordinary = json(
        value(r#"{"id": "evt_2", "type": "session.updated", "created": 1757000000.0, "data": {}}"#),
    );
    assert!(is_envelope(&ordinary));
    assert!(matches!(
        ordinary.get("created"),
        Some(Json::Number(JsonNumber::Float(bits))) if f64::from_bits(*bits) == 1_757_000_000.0
    ));
    // An envelope with no type at all is not routable traffic.
    assert!(!is_envelope(&json(value(r#"{"id": "evt_3"}"#))));
}

#[test]
fn envelope_shapes_follow_the_record_rules() {
    assert!(is_envelope(&json(value(r#"{"id": "e", "type": "t", "created": null}"#))));
    assert!(!is_envelope(&json(value(r#"{"id": "e", "type": "t", "created": "soon"}"#))));
    assert!(!is_envelope(&json(value(r#"{"id": 1, "type": "t"}"#))));
    assert!(is_envelope(&json(value(r#"["e", "t", 5]"#))));
    assert!(is_envelope(&json(value(r#"["e", "t", null]"#))));
    assert!(!is_envelope(&json(value(r#"["e", "t"]"#))));
    assert!(!is_envelope(&json(value(r#"["e", "t", 5, 6]"#))));
    assert!(!is_envelope(&json(value(r#""e""#))));
}

#[test]
fn event_stream_framing_matches_the_live_service() {
    let stream = [
        "data: {\"id\":\"evt_1\",\"type\":\"server.connected\",\"data\":{}}\n\n",
        ": heartbeat\n\n",
        "data: {\"id\":\"evt_2\",\n",
        "data: \"type\":\"session.updated\"}\n\n",
        "event: effect/httpapi/stream/failure\ndata: {\"_tag\":\"Fail\"}\n\n",
    ]
    .concat();
    let mut parser = SseParser::new();
    let frames: Vec<SseFrame> =
        stream.split_inclusive('\n').filter_map(|line| parser.feed(line)).collect();

    assert!(matches!(frames[0], SseFrame::Data(_)));
    assert_eq!(frames[1], SseFrame::Comment);
    let SseFrame::Data(joined) = &frames[2] else {
        panic!("expected a joined multi-line data frame, got {:?}", frames[2]);
    };
    assert_eq!(
        serde_json::from_str::<serde_json::Value>(joined).unwrap()["type"],
        value(r#""session.updated""#)
    );
    assert!(matches!(frames[3], SseFrame::Named { .. }));
}

#[test]
fn the_reader_skips_heartbeats_and_disconnects_on_failure_frames() {
    assert!(matches!(frame_step(SseFrame::Comment), FrameStep::Skip));
    assert!(matches!(
        frame_step(SseFrame::Named { event: "e".to_owned(), data: "d".to_owned() }),
        FrameStep::Disconnect
    ));
    assert!(matches!(frame_step(SseFrame::Data("x".to_owned())), FrameStep::Decode(d) if d == "x"));
    let catalog = json(value(r#"{"id": "e", "type": "catalog.updated", "data": {}}"#));
    assert!(matches!(
        envelope_step(&catalog),
        EnvelopeStep::Deliver { refresh_models: true, route: Route::Broadcast }
    ));
    let message = json(value(r#"{"id": "e", "type": "message.updated", "data": {"sessionID": "s"}}"#));
    assert!(matches!(
        envelope_step(&message),
        EnvelopeStep::Deliver { refresh_models: false, route: Route::Session(s) } if s == "s"
    ));
    assert!(matches!(envelope_step(&json(value(r#"{"type": "x"}"#))), EnvelopeStep::Disconnect));
}

#[test]
fn reconnects_back_off_and_give_up_after_three_failed_rediscoveries() {
    let mut state = ReaderState::new();
    assert_eq!(state.disconnected(1, true), ReaderStep::Retry { sleep_ms: 250 });
    assert_eq!(state.disconnected(2, true), ReaderStep::Retry { sleep_ms: 500 });
    assert_eq!(state.disconnected(3, true), ReaderStep::Retry { sleep_ms: 1000 });
    assert_eq!(state.disconnected(4, true), ReaderStep::Retry { sleep_ms: 2000 });
    assert_eq!(state.disconnected(5, true), ReaderStep::Retry { sleep_ms: 4000 });
    assert_eq!(state.disconnected(6, true), ReaderStep::Retry { sleep_ms: 8000 });
    assert_eq!(state.disconnected(7, true), ReaderStep::Retry { sleep_ms: 8000 });
    // The stream came back: the resync owed for the last break comes out once.
    assert_eq!(state.connected(), Some(7));
    assert_eq!(state.connected(), None);
    assert_eq!(state.disconnected(8, false), ReaderStep::Retry { sleep_ms: 250 });
    assert_eq!(state.disconnected(9, false), ReaderStep::Retry { sleep_ms: 500 });
    assert_eq!(state.disconnected(10, false), ReaderStep::GiveUp);
    assert!(!restart_reader(true, 3));
    assert!(restart_reader(false, 1));
    assert!(!restart_reader(false, 0));
}

#[test]
fn health_is_rejected_when_it_names_a_different_process() {
    // A stale descriptor still parses, and its port can already have been
    // reused by a healthy listener that is not this service.
    assert!(
        accept_health(
            &registration(58286),
            &json(value(r#"{"healthy": true, "version": "0.0.0-beta-19192", "pid": 99999}"#))
        )
        .is_err()
    );
    assert!(
        accept_health(
            &registration(58286),
            &json(value(r#"{"healthy": false, "pid": 58286}"#))
        )
        .is_err()
    );
    assert!(
        accept_health(
            &registration(58286),
            &json(value(r#"{"healthy": true, "version": "0.0.0-beta-19192", "pid": 58286}"#))
        )
        .is_ok()
    );
}

#[test]
fn health_rejections_say_why() {
    let other = accept_health(&registration(1), &json(value(r#"{"healthy": true}"#))).unwrap_err();
    assert_eq!(
        other.message(),
        "the OpenCode 2 service on http://127.0.0.1:49374 is not the process its registration names"
    );
    let sick = accept_health(&registration(1), &json(value(r#"{"healthy": "yes", "pid": 1}"#))).unwrap_err();
    assert!(matches!(sick, HealthRejection::Unhealthy));
    assert_eq!(sick.message(), "the OpenCode 2 service reported itself unhealthy");
}

#[test]
fn probing_a_registration_authenticates_as_the_service_user() {
    let endpoint = probe(&registration(1)).unwrap();
    assert_eq!(endpoint.host, "127.0.0.1");
    assert_eq!(endpoint.port, 49374);
    assert_eq!(endpoint.auth.as_deref(), Some("Basic b3BlbmNvZGU6c2VjcmV0"));
}

#[test]
fn registration_debug_never_prints_the_password() {
    let rendered = registration(58286).debug_text();
    assert!(!rendered.contains("secret"), "{rendered}");
    assert!(rendered.contains("<redacted>"));
}

#[test]
fn registration_debug_matches_the_derived_layout() {
    let mut plain = registration(7);
    plain.version = None;
    plain.id = "a\"b".to_owned();
    assert_eq!(
        plain.debug_text(),
        "ServiceRegistration { id: \"a\\\"b\", version: None, url: \"http://127.0.0.1:49374\", pid: 7, password: \"<redacted>\" }"
    );
}

#[test]
fn context_windows_are_keyed_the_way_a_selected_model_is_stored() {
    let response = json(value(r#"{
        "location": {"directory": "/Users/egoist"},
        "data": [
            {"id": "omen-alpha", "providerID": "opencode-go", "limit": {"context": 500000, "output": 128000}},
            {"id": "no-limit", "providerID": "opencode-go"}
        ]
    }"#));
    let windows = context_windows(&response);
    let lookup: std::collections::HashMap<String, u64> = windows.into_iter().collect();
    assert_eq!(lookup.get("opencode-go/omen-alpha"), Some(&500_000));
    assert_eq!(lookup.len(), 1);
}

#[test]
fn a_later_model_with_the_same_key_replaces_an_earlier_one() {
    let response = json(value(r#"{
        "data": [
            {"id": "m", "providerID": "p", "limit": {"context": 1}},
            {"id": "n", "providerID": "p", "limit": {"context": 2}},
            {"id": "m", "providerID": "p", "limit": {"context": 3}},
            {"id": "k", "providerID": "p", "limit": {"context": -4}}
        ]
    }"#));
    assert_eq!(
        context_windows(&response),
        vec![("p/m".to_owned(), 3), ("p/n".to_owned(), 2)]
    );
    assert!(context_windows(&json(value(r#"{"data": {}}"#))).is_empty());
    assert!(model_context_windows(None).is_none());
    assert_eq!(model_context_windows(Some(&response)).unwrap().len(), 2);
}

#[test]
fn hub_delivers_only_to_the_owning_session() {
    let mut hub = SubscriberTable::new();
    let mine_id = hub.subscribe("ses_a");
    let theirs_id = hub.subscribe("ses_b");
    assert_eq!(hub.session_count(), 2);

    let delivered = |hub: &SubscriberTable, envelope: serde_json::Value| hub.recipients(&route(&json(envelope)));
    assert_eq!(
        delivered(&hub, value(r#"{"type": "message.updated", "data": {"sessionID": "ses_a"}}"#)),
        vec![mine_id]
    );
    // The user's own TUI session shares this stream and must go nowhere.
    assert!(delivered(&hub, value(r#"{"type": "message.updated", "data": {"sessionID": "ses_tui"}}"#)).is_empty());
    assert!(delivered(&hub, value(r#"{"type": "tui.prompt.append", "data": {"sessionID": "ses_b"}}"#)).is_empty());
    // A resync is broadcast to every subscriber.
    assert_eq!(hub.recipients(&Route::Broadcast), vec![mine_id, theirs_id]);

    hub.unsubscribe("ses_a", mine_id);
    assert_eq!(hub.session_count(), 1);
    assert!(delivered(&hub, value(r#"{"type": "message.updated", "data": {"sessionID": "ses_a"}}"#)).is_empty());
}

#[test]
fn two_subscribers_of_one_session_are_told_apart() {
    let mut hub = SubscriberTable::new();
    let first = hub.subscribe("s");
    let second = hub.subscribe("s");
    assert_ne!(first, second);
    assert_eq!(hub.session_count(), 1);
    assert_eq!(hub.recipients(&Route::Session("s".to_owned())), vec![first, second]);
    hub.unsubscribe("s", first);
    assert_eq!(hub.recipients(&Route::Session("s".to_owned())), vec![second]);
    // Unsubscribing an unknown token or session changes nothing.
    hub.unsubscribe("s", 999);
    hub.unsubscribe("nobody", second);
    assert_eq!(hub.session_count(), 1);
    hub.unsubscribe("s", second);
    assert_eq!(hub.session_count(), 0);
    assert!(hub.recipients(&Route::Drop).is_empty());
}

#[test]
fn the_registration_lives_under_the_state_directory() {
    assert_eq!(
        registration_path(Some("/x/state"), Some("/home/u")),
        "/x/state/opencode/service.json"
    );
    // An empty XDG_STATE_HOME counts as unset.
    assert_eq!(
        registration_path(Some(""), Some("/home/u")),
        "/home/u/.local/state/opencode/service.json"
    );
    assert_eq!(
        registration_path(None, Some("/home/u/")),
        "/home/u/.local/state/opencode/service.json"
    );
    assert_eq!(registration_path(None, None), ".local/state/opencode/service.json");
    assert_eq!(state_directory(None, Some("/h")), "/h/.local/state/opencode");
    assert_eq!(join_path("", "a"), "a");
}

#[test]
fn channel_descriptors_are_tried_in_path_order() {
    let names = vec![
        "service-nightly.json".to_owned(),
        "service.json".to_owned(),
        "service-beta.json".to_owned(),
        "notes.txt".to_owned(),
        "service-beta.json.bak".to_owned(),
        "service-alpha.json".to_owned(),
    ];
    assert_eq!(
        channel_candidates("/s/opencode", &names),
        vec![
            "/s/opencode/service-alpha.json".to_owned(),
            "/s/opencode/service-beta.json".to_owned(),
            "/s/opencode/service-nightly.json".to_owned(),
        ]
    );
    assert!(channel_candidates("/s", &Vec::new()).is_empty());
}

#[test]
fn the_mainstream_descriptor_shadows_every_channel() {
    let found = read_registration(Some(registration(1)), vec![Some(registration(2))]);
    assert_eq!(found.map(|r| r.pid), Some(1));
    let found = read_registration(None, vec![None, Some(registration(2)), Some(registration(3))]);
    assert_eq!(found.map(|r| r.pid), Some(2));
    assert!(read_registration(None, vec![None, None]).is_none());
}

#[test]
fn one_caller_connects_while_the_others_wait() {
    let mut slot = SlotState::Vacant;
    assert_eq!(acquire_step(&mut slot), AcquireStep::Connect);
    assert_eq!(slot, SlotState::Starting);
    assert_eq!(acquire_step(&mut slot), AcquireStep::Wait);
    connect_finished(&mut slot, false);
    assert_eq!(slot, SlotState::Vacant);
    assert_eq!(acquire_step(&mut slot), AcquireStep::Connect);
    connect_finished(&mut slot, true);
    assert_eq!(acquire_step(&mut slot), AcquireStep::Revalidate);
    vacate(&mut slot, false);
    assert_eq!(slot, SlotState::Running);
    vacate(&mut slot, true);
    assert_eq!(slot, SlotState::Vacant);
    assert_eq!(connect_plan(true, false), ConnectPlan::Adopt);
    assert_eq!(connect_plan(false, false), ConnectPlan::Decline);
    assert_eq!(connect_plan(false, true), ConnectPlan::Spawn);
}

#[test]
fn a_started_service_is_polled_until_its_deadline() {
    assert!(matches!(spawn_poll_step(true, true, Some("exit status: 1")), SpawnStep::Ready));
    assert!(matches!(spawn_poll_step(false, false, Some("exit status: 1")), SpawnStep::Sleep));
    assert!(matches!(
        spawn_poll_step(false, true, Some("exit status: 1")),
        SpawnStep::Fail(m) if m == "`opencode2 serve --service` exited (exit status: 1) without registering a healthy service"
    ));
    assert!(matches!(
        spawn_poll_step(false, true, None),
        SpawnStep::Fail(m) if m == "timed out starting the OpenCode 2 background service"
    ));
}

#[test]
fn the_password_never_changes_how_a_registration_prints() {
    let mut other = registration(58286);
    other.password = "a completely different credential".to_owned();
    assert_eq!(registration(58286).debug_text(), other.debug_text());
}

#[test]
fn each_live_subscriber_hears_a_broadcast_once() {
    let mut hub = SubscriberTable::new();
    let a = hub.subscribe("s");
    let b = hub.subscribe("s");
    let c = hub.subscribe("t");
    hub.unsubscribe("s", a);
    let d = hub.subscribe("s");
    let all = hub.recipients(&Route::Broadcast);
    for token in [b, c, d] {
        assert_eq!(all.iter().filter(|x| **x == token).count(), 1);
    }
    assert_eq!(all.iter().filter(|x| **x == a).count(), 0);
    assert_eq!(all.len(), 3);
    let to_s = hub.recipients(&Route::Session("s".to_owned()));
    assert_eq!(to_s, vec![b, d]);
}
