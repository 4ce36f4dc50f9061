//! Turns: streamed and polled, from setup to the end.

use orx::collections::StrSet;
use orx::config::OpenCodeVersion;
use orx::export::{
    data_array, export_in_range, export_messages, finish_v2_turn, merge_v2_export, v2_u64,
    v2_wire_parts, TURN_ERROR,
};
use orx::json::{Json, JsonNumber};
use orx::native::{display_json, parse_json, serialize_json};
use orx::polling::{
    event_counts, poll_request, prompt_admitted, run_turn_v2, wait_outcome, PollEvent, PollPhase,
    WaitOutcome,
};
use orx::requests::Endpoint;
use orx::session::{
    finish_turn, on_data, surface_card, DataStep, PromptStep, TurnStream, BAD_PERMISSION,
    BAD_QUESTION, STALE,
};
use orx::setup::{
    begin_turn, opencode_setup_attempt, opencode_setup_response, session_opened,
    setup_attempt_failed, setup_succeeded, SetupAction, SetupError, SetupNext, NO_ID, NO_PORT,
    RECONNECTING,
};
use orx::turn::{Flush, TurnCtx};
use orx::wire::{DeliveryState, PermissionMode, WirePrompt};

fn doc(text: &str) -> Json {
    parse_json(text).expect("a document")
}

fn texts(ctx: &TurnCtx) -> Vec<(&str, Option<&str>)> {
    ctx.assistant
        .parts
        .iter()
        .map(|p| (p.id.as_str(), p.text.as_deref()))
        .collect()
}

#[test]
fn documents_display_and_serialize() {
    let d = doc(r#"{"b": [1, -2, 1.5, "x\"y"], "a": null, "c": true}"#);
    assert_eq!(
        display_json(&d),
        r#"{"a":null,"b":[1,-2,1.5,"x\"y"],"c":true}"#
    );
    assert_eq!(
        serialize_json(&d).as_deref(),
        Some(r#"{"a":null,"b":[1,-2,1.5,"x\"y"],"c":true}"#)
    );
    assert!(parse_json("{").is_none());
    assert!(parse_json("not json").is_none());
}

#[test]
fn documents_read_from_text_are_written_out_unchanged() {
    for text in [
        "0.1",
        "-0.0",
        "5e-324",
        "1.7976931348623157e308",
        "-9223372036854775808",
        "18446744073709551615",
        r#"{"a":[],"b":{"c":0.30000000000000004}}"#,
    ] {
        let d = doc(text);
        let again = doc(&display_json(&d));
        assert_eq!(d, again);
    }
}

#[test]
fn written_objects_are_in_key_order() {
    let number = |text: &str| {
        Json::Number(JsonNumber {
            unsigned: None,
            signed: None,
            cut_unsigned: 0,
            cut_signed: 0,
            text: text.to_string(),
        })
    };
    let d = Json::Object(vec![
        ("b".to_string(), number("1")),
        ("a".to_string(), number("not a number")),
        ("b".to_string(), number("2")),
    ]);
    assert_eq!(display_json(&d), r#"{"a":null,"b":2}"#);
}

#[test]
fn counts_are_read_leniently() {
    assert_eq!(v2_u64(Some(&doc("12"))), 12);
    assert_eq!(v2_u64(Some(&doc("12.9"))), 12);
    assert_eq!(v2_u64(Some(&doc("-3"))), 0);
    assert_eq!(v2_u64(Some(&doc("18446744073709551615"))), u64::MAX);
    assert_eq!(v2_u64(Some(&doc("\"12\""))), 0);
    assert_eq!(v2_u64(None), 0);
}

#[test]
fn lists_come_with_or_without_an_envelope() {
    assert_eq!(data_array(&doc(r#"{"data": [1, 2]}"#)).len(), 2);
    assert_eq!(data_array(&doc("[1]")).len(), 1);
    assert!(data_array(&doc(r#"{"data": 3}"#)).is_empty());
    assert_eq!(
        export_messages(&doc(r#"{"data": {"messages": [{}, {}]}}"#)).len(),
        2
    );
    assert!(export_messages(&doc(r#"{"messages": [{}]}"#)).is_empty());
}

#[test]
fn failed_tools_show_their_error() {
    let parts = v2_wire_parts(&doc(
        r#"{"content": [
            {"type": "image"},
            {"type": "reasoning", "text": "hm"},
            {"type": "tool", "name": "a", "state": {"error": {"code": 7}}},
            {"type": "tool", "name": "b", "state": {"error": {"message": "no"}}},
            {"type": "tool", "name": "c", "state": {"error": null}},
            {"type": "tool", "name": "d", "state": {"error": {"message": ""}}},
            {"type": "tool", "name": "e", "state": {"error": "null",
                "content": [{"type": "text", "text": "x"}, {"type": "image"}, {"type": "text", "text": "y"}]}}
        ]}"#,
    ));
    let ids: Vec<_> = parts.iter().map(|p| p.id.as_str()).collect();
    assert_eq!(ids, ["msg:1", "msg:2", "msg:3", "msg:4", "msg:5", "msg:6"]);
    let error = |i: usize| parts[i].state.as_ref().unwrap().error.as_deref();
    assert_eq!(error(1), Some(r#"{"code":7}"#));
    assert_eq!(error(2), Some("no"));
    assert_eq!(error(3), None);
    assert_eq!(error(4), None);
    assert_eq!(error(5), Some("\"null\""));
    assert_eq!(parts[5].state.as_ref().unwrap().output.as_deref(), Some("x\ny"));
    assert_eq!(parts[1].state.as_ref().unwrap().status, "running");
}

fn export(text: &str) -> Vec<Json> {
    export_messages(&doc(text))
}

#[test]
fn exports_merge_without_duplicates() {
    let messages = export(
        r#"{"data": {"messages": [
            {"id": "old", "type": "assistant", "time": {"created": 1000000000000}, "content": [{"type": "text", "text": "then"}]},
            {"id": "u", "type": "user", "time": {"created": 2000000000000}, "content": [{"type": "text", "text": "ask"}]},
            {"id": "new", "type": "assistant", "time": {"created": 2000000000000}, "content": [{"type": "text", "text": "now"}]}
        ]}}"#,
    );
    let mut ctx = TurnCtx::new();
    merge_v2_export(&mut ctx, &messages, 1500000000000);
    assert_eq!(texts(&ctx), [("new:0", Some("now"))]);
    assert_eq!(ctx.flush, Flush::Soon);
    merge_v2_export(&mut ctx, &messages, 1500000000000);
    assert_eq!(texts(&ctx), [("new:0", Some("now"))]);
}

#[test]
fn only_the_latest_message_stands_in_for_a_recent_one() {
    let messages = export(
        r#"{"data": {"messages": [
            {"id": "a", "type": "assistant", "time": {"created": 1000}, "content": [{"type": "text", "text": "1"}]},
            {"id": "b", "type": "assistant", "time": {"created": 2000}, "content": [{"type": "text", "text": "2"}]}
        ]}}"#,
    );
    let mut ctx = TurnCtx::new();
    merge_v2_export(&mut ctx, &messages, 9000000000000);
    assert_eq!(texts(&ctx), [("b:0", Some("2"))]);
}

#[test]
fn polled_turns_end_with_their_last_message() {
    let mut ctx = TurnCtx::new();
    let failed = export(
        r#"{"data": {"messages": [{"type": "assistant", "error": {"code": 5}}]}}"#,
    );
    assert_eq!(
        finish_v2_turn(&mut ctx, &failed, Some("New name"), 0),
        Err(r#"{"code":5}"#.to_string())
    );
    let failure = ctx.failure.as_ref().unwrap();
    assert_eq!(failure.code, "opencode_terminal");
    assert_eq!(failure.message, r#"{"code":5}"#);
    assert!(ctx.native_retry_exhausted);

    let mut ctx = TurnCtx::new();
    let finished = export(
        r#"{"data": {"messages": [{"type": "assistant", "finish": "error"}]}}"#,
    );
    assert_eq!(
        finish_v2_turn(&mut ctx, &finished, Some("New name"), 0),
        Err(TURN_ERROR.to_string())
    );

    let mut ctx = TurnCtx::new();
    let compacted = export(
        r#"{"data": {"messages": [
            {"type": "assistant", "error": null, "tokens": {"input": 1, "output": 2, "reasoning": 3, "cache": {"read": 4, "write": 5.5}}},
            {"type": "compaction", "time": {"created": 2000000000000}}
        ]}}"#,
    );
    assert!(export_in_range(&compacted));
    assert!(finish_v2_turn(&mut ctx, &compacted, Some("New name"), 1500000000000).is_err());
    assert!(ctx.title.is_none());
    assert_eq!(ctx.failure.as_ref().unwrap().code, "opencode_compacted");
    assert_eq!(ctx.context_usage.unwrap().used_tokens, 15);
    let mut ctx = TurnCtx::new();
    assert_eq!(
        finish_v2_turn(&mut ctx, &compacted, Some("Sweep over seeds"), 2500000000000),
        Ok(())
    );
    assert!(ctx.failure.is_none());
    assert_eq!(ctx.title.as_deref(), Some("Sweep over seeds"));
    for seed in [None, Some("New session - 2026-01-01T00:00:00.000Z")] {
        assert_eq!(
            finish_v2_turn(&mut ctx, &compacted, seed, 2500000000000),
            Ok(())
        );
        assert_eq!(ctx.title.as_deref(), Some("Sweep over seeds"));
    }
    assert!(!export_in_range(&export(
        r#"{"data": {"messages": [{"type": "assistant", "tokens": {"input": 18446744073709551615, "output": 1}}]}}"#
    )));
}

#[test]
fn pieces_of_the_stream_make_lines() {
    let mut stream = TurnStream::new();
    assert!(stream.feed("event: x\ndata: {\"a\"").is_empty());
    assert_eq!(stream.feed(":1}\r\n\ndata: two\nda"), ["{\"a\":1}", "two"]);
    assert_eq!(stream.buf, "da");
    let mut whole = TurnStream::new();
    assert_eq!(
        whole.feed("event: x\ndata: {\"a\":1}\r\n\ndata: two\nda"),
        ["{\"a\":1}", "two"]
    );
    assert_eq!(whole.buf, stream.buf);
}

const ASKED: &str = r#"{"type":"permission.asked","properties":{"sessionID":"s","id":"per_1","permission":"bash"}}"#;

#[test]
fn permissions_follow_the_policy() {
    let mut ctx = TurnCtx::new();
    let mut stream = TurnStream::new();
    match on_data(&mut ctx, &mut stream, "s", ASKED, 0) {
        DataStep::Done(PromptStep::Consumed) => {}
        other => panic!("{other:?}"),
    }
    assert_eq!(ctx.assistant.parts[0].id, "per_1");
    assert_eq!(ctx.flush, Flush::Now);

    let mut ctx = TurnCtx::new();
    ctx.permission_mode = Some(PermissionMode::Auto);
    match on_data(&mut ctx, &mut stream, "s", ASKED, 0) {
        DataStep::Done(PromptStep::AutoReply(id, card)) => {
            assert_eq!(id, "per_1");
            assert!(ctx.assistant.parts.is_empty());
            surface_card(&mut ctx, card);
            assert_eq!(ctx.assistant.parts[0].id, "per_1");
        }
        other => panic!("{other:?}"),
    }
}

#[test]
fn questions_always_surface() {
    let mut ctx = TurnCtx::new();
    ctx.permission_mode = Some(PermissionMode::Auto);
    let mut stream = TurnStream::new();
    for data in [
        r#"{"type":"message.part.updated","properties":{"part":{"id":"p","type":"tool","tool":"plan_exit","sessionID":"s","callID":"c1"}}}"#,
        r#"{"type":"question.asked","properties":{"sessionID":"s","id":"que_1","tool":{"callID":"c1"},"questions":[{"question":"Leave?"}]}}"#,
    ] {
        assert!(matches!(
            on_data(&mut ctx, &mut stream, "s", data, 0),
            DataStep::Done(_)
        ));
    }
    let prompt = ctx.assistant.parts[0].prompt.as_ref().unwrap();
    assert!(prompt.plan_exit);
    assert_eq!(prompt.question.as_deref(), Some("Leave?"));
}

#[test]
fn prompts_that_make_no_sense_are_told() {
    let mut ctx = TurnCtx::new();
    let mut stream = TurnStream::new();
    on_data(
        &mut ctx,
        &mut stream,
        "s",
        r#"{"type":"permission.asked","properties":{"sessionID":"s"}}"#,
        0,
    );
    on_data(
        &mut ctx,
        &mut stream,
        "s",
        r#"{"type":"question.asked","properties":{"sessionID":"s","id":"q"}}"#,
        0,
    );
    assert_eq!(ctx.errors, [BAD_PERMISSION, BAD_QUESTION]);
    assert!(ctx.assistant.parts.is_empty());
}

#[test]
fn foreign_and_broken_data_is_ignored() {
    let mut ctx = TurnCtx::new();
    let mut stream = TurnStream::new();
    assert!(matches!(
        on_data(&mut ctx, &mut stream, "other", ASKED, 0),
        DataStep::Done(PromptStep::NotConsumed)
    ));
    assert!(ctx.assistant.parts.is_empty());
    assert!(matches!(
        on_data(&mut ctx, &mut stream, "s", "{broken", 0),
        DataStep::Ignored
    ));
    assert!(matches!(
        on_data(
            &mut ctx,
            &mut stream,
            "s",
            r#"{"type":"session.status","properties":{"sessionID":"s","status":{"type":"retry","attempt":9223372036854775807}}}"#,
            0
        ),
        DataStep::OutOfRange
    ));
    assert!(ctx.retry.is_none());
}

#[test]
fn cards_without_a_request_are_numbered() {
    let mut ctx = TurnCtx::new();
    surface_card(&mut ctx, WirePrompt::default());
    surface_card(&mut ctx, WirePrompt::default());
    let ids: Vec<_> = ctx.assistant.parts.iter().map(|p| p.id.as_str()).collect();
    assert_eq!(ids, ["prompt-0", "prompt-1"]);
}

#[test]
fn replies_end_the_turn() {
    let mut ctx = TurnCtx::new();
    ctx.show_retry_status("native", "again", 2, None, None);
    assert_eq!(
        finish_turn(
            &mut ctx,
            &doc(r#"{"info":{"time":{"created":100}},"parts":[{"id":"p1","type":"text","text":"hi"},{"type":"text"}]}"#),
            100
        ),
        Ok(())
    );
    assert_eq!(texts(&ctx), [("p1", Some("hi"))]);
    assert_eq!(ctx.delivery_state(), DeliveryState::Accepted);
    assert!(ctx.retry.is_none());

    let mut ctx = TurnCtx::new();
    assert_eq!(
        finish_turn(
            &mut ctx,
            &doc(r#"{"info":{"time":{"created":99}},"parts":[{"id":"p1","type":"text","text":"hi"}]}"#),
            100
        ),
        Err(STALE.to_string())
    );
    assert!(ctx.assistant.parts.is_empty());
    assert_eq!(ctx.failure.as_ref().unwrap().code, "opencode_stale_response");

    let mut ctx = TurnCtx::new();
    assert_eq!(
        finish_turn(&mut ctx, &doc(r#"{"info":{"error":{"message":"no"}}}"#), 100),
        Err("no".to_string())
    );
    assert_eq!(ctx.failure.as_ref().unwrap().code, "opencode_terminal");
    assert!(ctx.native_retry_exhausted);
}

#[test]
fn setup_responses_are_classified() {
    assert!(opencode_setup_response(204, None).is_ok());
    for (status, header, retryable, after, text) in [
        (503, Some("7"), true, Some(7), "OpenCode setup returned HTTP 503 Service Unavailable"),
        (429, Some("soon"), true, None, "OpenCode setup returned HTTP 429 Too Many Requests"),
        (408, None, true, None, "OpenCode setup returned HTTP 408 Request Timeout"),
        (404, Some("+3"), false, Some(3), "OpenCode setup returned HTTP 404 Not Found"),
        (777, None, false, None, "OpenCode setup returned HTTP 777 <unknown status code>"),
    ] {
        let error = opencode_setup_response(status, header).unwrap_err();
        assert_eq!(error.retry_wish(), (retryable, after));
        assert_eq!(error.message(), text);
    }
    let error = |connect, timeout, request| SetupError::Request {
        connect,
        timeout,
        request,
        message: "refused".into(),
    };
    assert_eq!(error(true, false, false).retry_wish(), (true, None));
    assert_eq!(error(false, true, false).retry_wish(), (true, None));
    assert_eq!(error(false, false, true).retry_wish(), (true, None));
    assert_eq!(error(false, false, false).retry_wish(), (false, None));
    assert_eq!(error(true, false, false).message(), "refused");
    assert_eq!(
        SetupError::Protocol("odd".into()).retry_wish(),
        (false, None)
    );
    assert_eq!(SetupError::Other("disk".into()).retry_wish(), (true, None));
    assert_eq!(SetupError::Other("disk".into()).message(), "disk");
}

fn at(version: OpenCodeVersion) -> Endpoint<'static> {
    Endpoint {
        base: "http://127.0.0.1:4096",
        version,
    }
}

#[test]
fn attempts_open_one_session() {
    let mut ctx = TurnCtx::new();
    let v1 = at(OpenCodeVersion::V1);
    for (live, port) in [
        (None, Some(4096)),
        (Some((4096, v1)), Some(4097)),
        (Some((4096, v1)), None),
    ] {
        match opencode_setup_attempt(&ctx, live, port) {
            Err(SetupError::Protocol(m)) => assert_eq!(m, NO_PORT),
            other => panic!("{other:?}"),
        }
    }
    match opencode_setup_attempt(&ctx, Some((4096, v1)), Some(4096)) {
        Ok(SetupAction::Open(request)) => {
            assert_eq!(request.url, "http://127.0.0.1:4096/session");
            assert_eq!(request.body, Some(doc("{}")));
        }
        other => panic!("{other:?}"),
    }
    match session_opened(&mut ctx, v1, &doc(r#"{"data": {}}"#)) {
        Err(SetupError::Protocol(m)) => assert_eq!(m, NO_ID),
        other => panic!("{other:?}"),
    }
    match session_opened(&mut ctx, v1, &doc(r#"{"id": "ses_1"}"#)) {
        Ok(SetupAction::Subscribe(id, request)) => {
            assert_eq!(id, "ses_1");
            assert_eq!(request.url, "http://127.0.0.1:4096/event");
            assert!(request.body.is_none());
        }
        other => panic!("{other:?}"),
    }
    assert_eq!(ctx.native_session_id.as_deref(), Some("ses_1"));
    match opencode_setup_attempt(&ctx, Some((4096, at(OpenCodeVersion::V2))), Some(4096)) {
        Ok(SetupAction::Ready(id)) => assert_eq!(id, "ses_1"),
        other => panic!("{other:?}"),
    }
    let mut fresh = TurnCtx::new();
    fresh.plan_mode = true;
    fresh.model = Some("prov/a/b".into());
    fresh.reasoning_level = Some("high".into());
    match opencode_setup_attempt(&fresh, Some((1, at(OpenCodeVersion::V2))), Some(1)) {
        Ok(SetupAction::Open(request)) => {
            assert_eq!(request.url, "http://127.0.0.1:4096/api/session");
            assert_eq!(
                request.body,
                Some(doc(
                    r#"{"agent":"plan","model":{"providerID":"prov","id":"a/b","variant":"high"}}"#
                ))
            );
        }
        other => panic!("{other:?}"),
    }
}

#[test]
fn failed_attempts_are_repeated_or_given_up() {
    let mut ctx = TurnCtx::new();
    let error = SetupError::Http {
        status: 503,
        retry_after: None,
    };
    assert_eq!(
        setup_attempt_failed(&mut ctx, &error, Some((1, 250)), 3, 1000),
        SetupNext::Wait(250)
    );
    let retry = ctx.retry.as_ref().unwrap();
    assert_eq!(retry.source, "orx");
    assert_eq!(retry.message, RECONNECTING);
    assert_eq!(retry.attempt, 2);
    assert_eq!(retry.max_attempts, Some(3));
    assert_eq!(retry.next_at_ms, Some(1250));
    assert!(ctx.failure.is_none());
    setup_succeeded(&mut ctx);
    assert!(ctx.retry.is_none());
    assert_eq!(
        setup_attempt_failed(&mut ctx, &error, None, 3, 1000),
        SetupNext::GiveUp
    );
    let failure = ctx.failure.as_ref().unwrap();
    assert_eq!(failure.code, "opencode_setup");
    assert_eq!(
        failure.message,
        "OpenCode setup returned HTTP 503 Service Unavailable"
    );
    assert_eq!(ctx.delivery_state(), DeliveryState::NotSent);
    assert_eq!(
        setup_attempt_failed(
            &mut ctx,
            &SetupError::Protocol("odd".into()),
            Some((1, 250)),
            3,
            1000
        ),
        SetupNext::GiveUp
    );
}

#[test]
fn lost_sessions_are_restarted() {
    let mut ctx = TurnCtx::new();
    ctx.text = "go on".into();
    ctx.native_session_id = Some("ses_1".into());
    begin_turn(&mut ctx, true, Some("before"));
    assert_eq!(ctx.text, "go on");
    assert_eq!(ctx.native_session_id.as_deref(), Some("ses_1"));
    begin_turn(&mut ctx, false, Some("before"));
    assert_eq!(ctx.text, "before\n\ngo on");
    assert_eq!(ctx.native_session_id, None);
    begin_turn(&mut ctx, false, Some("again"));
    assert_eq!(ctx.text, "before\n\ngo on");
}

#[test]
fn waiting_tells_idle_from_busy() {
    assert!(matches!(wait_outcome(None), WaitOutcome::Busy));
    assert!(matches!(wait_outcome(Some((200, None))), WaitOutcome::Idle));
    assert!(matches!(wait_outcome(Some((500, None))), WaitOutcome::Busy));
    assert!(matches!(wait_outcome(Some((429, None))), WaitOutcome::Busy));
    match wait_outcome(Some((404, Some("4")))) {
        WaitOutcome::Failed(e) => assert_eq!(e.retry_wish(), (false, Some(4))),
        other => panic!("{other:?}"),
    }
}

#[test]
fn polled_turns_run_to_their_end() {
    let base = "http://h";
    let mut ctx = TurnCtx::new();
    prompt_admitted(&mut ctx);
    assert_eq!(ctx.delivery_state(), DeliveryState::Accepted);
    let mut shown = StrSet::new();
    let mut phase = PollPhase::Permissions;
    let permission = r#"{"data":[{"id":"per_1","action":"edit","resources":["a.rs"]},{"action":"x"}]}"#;
    let form = r#"{"data":[{"id":"frm_1","title":"Go?","fields":[{"key":"go","type":"boolean"}]}]}"#;
    let empty = r#"{"data":[]}"#;
    let exported = r#"{"data":{"info":{"title":"Sweep over seeds"},"messages":[{"id":"m","type":"assistant","time":{"created":5000000000000},"content":[{"type":"text","text":"done"}]}]}}"#;
    let mut urls = Vec::new();
    for (event, next) in [
        (PollEvent::Read(doc(permission)), "Forms"),
        (PollEvent::Read(doc(form)), "Wait"),
        (PollEvent::Waited(true), "Export(true)"),
        (PollEvent::Read(doc(exported)), "PendingPermissions"),
        (PollEvent::Read(doc(permission)), "Pause"),
        (PollEvent::Paused, "Permissions"),
        (PollEvent::Read(doc(permission)), "Forms"),
        (PollEvent::Read(doc(form)), "Wait"),
        (PollEvent::Waited(false), "Export(false)"),
        (PollEvent::Read(doc(exported)), "Permissions"),
        (PollEvent::Read(doc(empty)), "Forms"),
        (PollEvent::Read(doc(empty)), "Wait"),
        (PollEvent::Waited(true), "Export(true)"),
        (PollEvent::Read(doc(exported)), "PendingPermissions"),
        (PollEvent::Read(doc(empty)), "PendingForms"),
        (PollEvent::Read(doc(empty)), "LastExport"),
        (PollEvent::Read(doc(exported)), "Conclude"),
    ] {
        assert!(event_counts(&phase, &event));
        if let Some(request) = poll_request(&phase, base, "ses") {
            urls.push(request.url);
        }
        let (after, ended) = run_turn_v2(&mut ctx, &mut shown, phase, event, 1);
        assert!(ended.is_none());
        assert_eq!(format!("{after:?}"), next);
        phase = after;
    }
    assert_eq!(urls[0], "http://h/api/session/ses/permission");
    assert_eq!(urls[1], "http://h/api/session/ses/form");
    assert_eq!(urls[2], "http://h/api/session/ses/wait");
    let ids: Vec<_> = ctx.assistant.parts.iter().map(|p| p.id.as_str()).collect();
    assert_eq!(ids, ["per_1", "frm_1", "m:0"]);
    let card = ctx.assistant.parts[0].prompt.as_ref().unwrap();
    assert_eq!(card.tool.as_deref(), Some("edit"));
    assert_eq!(
        card.tool_input,
        Some(doc(r#"{"resources":["a.rs"],"message":null}"#))
    );
    assert!(ctx.title.is_none());
    let (after, ended) = run_turn_v2(
        &mut ctx,
        &mut shown,
        phase,
        PollEvent::Read(doc(exported)),
        1,
    );
    assert!(matches!(after, PollPhase::Over));
    assert_eq!(ended, Some(Ok(())));
    assert_eq!(ctx.title.as_deref(), Some("Sweep over seeds"));
}

#[test]
fn approving_turns_grant_without_cards() {
    let mut ctx = TurnCtx::new();
    ctx.permission_mode = Some(PermissionMode::Auto);
    let mut shown = StrSet::new();
    let list = doc(r#"[{"id":"per_1"},{"id":"per_2"}]"#);
    let (phase, _) = run_turn_v2(
        &mut ctx,
        &mut shown,
        PollPhase::Permissions,
        PollEvent::Read(list),
        0,
    );
    let request = poll_request(&phase, "http://h", "ses").unwrap();
    assert_eq!(
        request.url,
        "http://h/api/session/ses/permission/per_1/reply"
    );
    assert_eq!(request.body, Some(doc(r#"{"reply":"always"}"#)));
    let (phase, _) = run_turn_v2(&mut ctx, &mut shown, phase, PollEvent::Granted, 0);
    assert_eq!(
        poll_request(&phase, "http://h", "ses").unwrap().url,
        "http://h/api/session/ses/permission/per_2/reply"
    );
    let (phase, _) = run_turn_v2(&mut ctx, &mut shown, phase, PollEvent::Granted, 0);
    assert!(matches!(phase, PollPhase::Forms));
    assert!(ctx.assistant.parts.is_empty());
}

#[test]
fn a_failed_grant_shows_its_card_once_and_the_turn_goes_on() {
    let mut ctx = TurnCtx::new();
    ctx.permission_mode = Some(PermissionMode::Auto);
    let mut shown = StrSet::new();
    let list = r#"[{"id":"per_1","action":"bash"},{"id":"per_2","action":"edit"}]"#;
    for _ in 0..2 {
        let (phase, _) = run_turn_v2(
            &mut ctx,
            &mut shown,
            PollPhase::Permissions,
            PollEvent::Read(doc(list)),
            0,
        );
        let (phase, ended) = run_turn_v2(&mut ctx, &mut shown, phase, PollEvent::Refused, 0);
        assert!(ended.is_none());
        assert_eq!(
            poll_request(&phase, "http://h", "ses").unwrap().url,
            "http://h/api/session/ses/permission/per_2/reply"
        );
        let (phase, _) = run_turn_v2(&mut ctx, &mut shown, phase, PollEvent::Granted, 0);
        assert!(matches!(phase, PollPhase::Forms));
        assert_eq!(ctx.assistant.parts.len(), 1);
        assert_eq!(ctx.assistant.parts[0].id, "per_1");
        let card = ctx.assistant.parts[0].prompt.as_ref().unwrap();
        assert_eq!(card.tool.as_deref(), Some("bash"));
    }
}
