//! Requests to the agent's server, and answered cards.

use orx::config::OpenCodeVersion;
use orx::json::Json;
use orx::native::parse_json;
use orx::requests::{
    after_reply, answer_form, events_request, message_request, post_permission, prompt_request,
    reply_inline, reply_question, resume_from_prompt, session_request, v2_export, wait_request,
    Endpoint, ReplyStep, ResumeStep, FORM_CHANGED, NOT_RUNNING, NO_REPLY_ID, NO_SERVER, NO_SESSION,
    NO_TRANSCRIPT,
};
use orx::turn::TurnCtx;
use orx::wire::{PromptAnswer, WirePrompt};

fn doc(text: &str) -> Json {
    parse_json(text).expect("a document")
}

fn prompt(kind: &str) -> WirePrompt {
    WirePrompt {
        kind: kind.into(),
        native_id: Some("req_1".into()),
        ..Default::default()
    }
}

fn answer(approve: bool, answers: &[&str]) -> PromptAnswer {
    PromptAnswer {
        session_id: "s".into(),
        prompt_id: "p".into(),
        approve,
        resume_mode: None,
        answers: answers.iter().map(|a| a.to_string()).collect(),
        note: None,
        annotations: Vec::new(),
    }
}

fn at(version: OpenCodeVersion) -> Endpoint<'static> {
    Endpoint {
        base: "http://h",
        version,
    }
}

#[test]
fn permission_replies_differ_by_generation() {
    let v1 = post_permission("http://h", OpenCodeVersion::V1, "ses", "per", "once");
    assert_eq!(v1.url, "http://h/session/ses/permissions/per");
    assert_eq!(v1.body, Some(doc(r#"{"response":"once"}"#)));
    let v2 = post_permission("http://h", OpenCodeVersion::V2, "ses", "per", "reject");
    assert_eq!(v2.url, "http://h/api/session/ses/permission/per/reply");
    assert_eq!(v2.body, Some(doc(r#"{"reply":"reject"}"#)));
}

fn sent(step: Result<ReplyStep, String>) -> (String, Option<Json>) {
    match step {
        Ok(ReplyStep::Send(r)) => (r.url, r.body),
        other => panic!("{other:?}"),
    }
}

#[test]
fn questions_are_answered_or_rejected() {
    let q = prompt("question");
    let reply = |version, answers: &[&str]| {
        reply_question("http://h", version, "ses", &q, &answer(true, answers))
    };
    assert_eq!(
        sent(reply(OpenCodeVersion::V1, &[])),
        ("http://h/question/req_1/reject".into(), Some(doc("{}")))
    );
    assert_eq!(
        sent(reply(OpenCodeVersion::V1, &["a", "b"])),
        (
            "http://h/question/req_1/reply".into(),
            Some(doc(r#"{"answers":[["a","b"]]}"#))
        )
    );
    assert_eq!(
        sent(reply(OpenCodeVersion::V2, &[])),
        (
            "http://h/api/session/ses/form/req_1/cancel".into(),
            Some(doc("{}"))
        )
    );
    match reply(OpenCodeVersion::V2, &["a"]) {
        Ok(ReplyStep::ReadForm(r)) => {
            assert_eq!(r.url, "http://h/api/session/ses/form/req_1/state");
            assert!(r.body.is_none());
        }
        other => panic!("{other:?}"),
    }
    let bare = WirePrompt::default();
    assert_eq!(
        reply_question("http://h", OpenCodeVersion::V1, "ses", &bare, &answer(true, &[]))
            .unwrap_err(),
        NO_REPLY_ID
    );
}

#[test]
fn forms_are_answered_by_label() {
    let state = doc(
        r#"{"data":{"fields":[{"key":"go","type":"boolean"}]}}"#,
    );
    let labels = |l: &str| vec![l.to_string()];
    let ok = answer_form("http://h", "ses", "frm", &state, &labels("Yes")).unwrap();
    assert_eq!(ok.url, "http://h/api/session/ses/form/frm/reply");
    assert_eq!(ok.body, Some(doc(r#"{"answer":{"go":true}}"#)));
    assert_eq!(
        answer_form("http://h", "ses", "frm", &state, &labels("Maybe")).unwrap_err(),
        FORM_CHANGED
    );
    let bare = doc(r#"{"fields":[{"key":"go","type":"boolean"}]}"#);
    assert!(answer_form("http://h", "ses", "frm", &bare, &labels("No")).is_ok());
}

#[test]
fn replies_need_a_live_turn() {
    let yes = answer(true, &["a"]);
    let v1 = Some(at(OpenCodeVersion::V1));
    let permission = prompt("permission");
    let (url, body) = sent(reply_inline(&permission, &yes, true, v1, Some("ses")));
    assert_eq!(url, "http://h/session/ses/permissions/req_1");
    assert_eq!(body, Some(doc(r#"{"response":"always"}"#)));
    let (_, body) = sent(reply_inline(
        &permission,
        &answer(false, &[]),
        true,
        v1,
        Some("ses"),
    ));
    assert_eq!(body, Some(doc(r#"{"response":"reject"}"#)));
    let (url, _) = sent(reply_inline(&prompt("question"), &yes, true, v1, Some("ses")));
    assert_eq!(url, "http://h/question/req_1/reply");
    let error = |p: &WirePrompt, busy, endpoint, session| {
        reply_inline(p, &yes, busy, endpoint, session).unwrap_err()
    };
    assert_eq!(
        error(&WirePrompt::default(), true, v1, Some("ses")),
        NO_REPLY_ID
    );
    assert_eq!(error(&permission, false, v1, Some("ses")), NOT_RUNNING);
    assert_eq!(error(&permission, true, None, Some("ses")), NO_SERVER);
    assert_eq!(error(&permission, true, v1, None), NO_SESSION);
    assert_eq!(error(&prompt("question"), true, v1, None), NO_SESSION);
    assert_eq!(
        error(&prompt("plan"), true, v1, Some("ses")),
        "opencode cannot reply to a `plan` prompt inline"
    );
}

#[test]
fn failed_deliveries_restore_the_plan() {
    let mut exit = prompt("question");
    exit.plan_exit = true;
    let start = resume_from_prompt(&exit, &answer(true, &["YES"]));
    assert_eq!(start, ResumeStep::StorePlan(false));
    assert_eq!(after_reply(start, true), ResumeStep::Handled);
    assert_eq!(after_reply(start, false), ResumeStep::RestorePlan);
    assert_eq!(
        resume_from_prompt(&exit, &answer(true, &["no"])),
        ResumeStep::StorePlan(true)
    );
    let plain = resume_from_prompt(&prompt("question"), &answer(true, &["yes"]));
    assert_eq!(plain, ResumeStep::Reply);
    assert_eq!(after_reply(plain, false), ResumeStep::Failed);
}

#[test]
fn messages_carry_the_choices() {
    let mut ctx = TurnCtx::new();
    ctx.text = "hi".into();
    let bare = message_request(&ctx, "http://h", "ses");
    assert_eq!(bare.url, "http://h/session/ses/message");
    assert_eq!(
        bare.body,
        Some(doc(
            r#"{"parts":[{"type":"text","text":"hi"}],"agent":"build"}"#
        ))
    );
    ctx.model = Some("prov/model".into());
    ctx.reasoning_level = Some("max".into());
    ctx.plan_mode = true;
    assert_eq!(
        message_request(&ctx, "http://h", "ses").body,
        Some(doc(
            r#"{"parts":[{"type":"text","text":"hi"}],"agent":"plan",
                "model":{"providerID":"prov","modelID":"model"},"variant":"max"}"#
        ))
    );
    ctx.model = Some("bare".into());
    ctx.reasoning_level = Some("default".into());
    assert_eq!(
        message_request(&ctx, "http://h", "ses").body,
        Some(doc(
            r#"{"parts":[{"type":"text","text":"hi"}],"agent":"plan"}"#
        ))
    );
    let prompted = prompt_request(&ctx, "http://h", "ses");
    assert_eq!(prompted.url, "http://h/api/session/ses/prompt");
    assert_eq!(prompted.body, Some(doc(r#"{"text":"hi"}"#)));
    assert_eq!(
        wait_request("http://h", "ses").url,
        "http://h/api/session/ses/wait"
    );
}

#[test]
fn sessions_and_exports_have_addresses() {
    let mut ctx = TurnCtx::new();
    assert_eq!(v2_export(&ctx, "http://h").unwrap_err(), NO_TRANSCRIPT);
    assert!(session_request(&ctx, "http://h", OpenCodeVersion::V1).is_some());
    ctx.native_session_id = Some("ses".into());
    assert_eq!(
        v2_export(&ctx, "http://h").unwrap().url,
        "http://h/api/session/ses/export"
    );
    assert!(session_request(&ctx, "http://h", OpenCodeVersion::V1).is_none());
    assert_eq!(
        events_request("http://h", OpenCodeVersion::V1).unwrap().url,
        "http://h/event"
    );
    assert!(events_request("http://h", OpenCodeVersion::V2).is_none());
}
