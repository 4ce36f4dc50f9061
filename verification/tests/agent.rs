//! The agent's catalog, cards, events and forms.

use orx::cards::{
    is_opencode_seed_title, opencode_agent, opencode_auto_approve, opencode_response_error,
    opencode_response_is_current, opencode_variant, permission_card, plan_exit_transition,
    question_card, to_wire_part, REASONING_DEFAULT_ID,
};
use orx::catalog::{
    model_id_lines, model_provider, parse_verbose_models, variant_ids, ModelInfo,
};
use orx::collections::{StrMap, StrSet};
use orx::config::{
    apply_configured_labels, available_local_models, is_loopback_url, local_providers,
    normalize_debug_config, opencode_version_of, provider_enabled, OpenCodeVersion,
};
use orx::events::handle_event;
use orx::export::{v2_created_ms, v2_message_error, v2_wire_parts};
use orx::forms::{v2_form_answer, v2_form_card};
use orx::json::Json;
use orx::native::parse_json;
use orx::probes::is_auth_rejection;
use orx::turn::TurnCtx;
use orx::wire::{DeliveryState, PermissionMode, PromptAnswer, WirePrompt};

fn doc(text: &str) -> Json {
    parse_json(text).expect("a document")
}

fn ids(m: &ModelInfo) -> Option<Vec<&str>> {
    m.reasoning_levels
        .as_ref()
        .map(|c| c.iter().map(|c| c.id.as_str()).collect())
}

fn event(
    ctx: &mut TurnCtx,
    session: &str,
    text: &str,
    messages: &mut StrSet,
    sessions: &mut StrMap,
) {
    handle_event(ctx, session, &doc(text), messages, sessions, 0);
}

const VERBOSE_SAMPLE: &str = r#"opencode/fable-5
{
  "id": "fable-5",
  "providerID": "opencode",
  "capabilities": {
    "reasoning": true,
    "input": { "text": true }
  },
  "variants": {
    "low": { "effort": "low" },
    "medium": { "effort": "medium" },
    "high": { "effort": "high" },
    "xhigh": { "effort": "xhigh" },
    "max": { "effort": "max" }
  }
}
opencode/gemini-3-flash
{
  "id": "gemini-3-flash",
  "providerID": "opencode",
  "variants": {
    "minimal": { "effort": "minimal" },
    "low": { "effort": "low" },
    "medium": { "effort": "medium" },
    "high": { "effort": "high" }
  }
}
opencode/glm-5
{
  "id": "glm-5",
  "providerID": "opencode",
  "variants": {}
}
"#;

#[test]
fn local_models_require_an_enabled_loopback_server_and_matching_model() {
    let base = "http://127.0.0.1:43117/v1";
    let config = doc(&format!(
        r#"{{
            "enabled_providers": ["local"],
            "provider": {{
                "local": {{"options": {{"baseURL": "{base}"}}, "models": {{
                    "loaded": {{}}, "missing": {{}}, "alias": {{"id": "loaded"}}
                }}}},
                "disabled": {{"options": {{"baseURL": "{base}"}}}},
                "cloud": {{"options": {{"baseURL": "https://example.com/v1"}}}}
            }}
        }}"#
    ));
    let providers = local_providers(&config);
    assert_eq!(providers.len(), 1);
    let available = available_local_models(&providers, &vec![Some(vec!["loaded".to_string()])]);
    let mut expected = StrSet::new();
    expected.insert("local/loaded");
    expected.insert("local/alias");
    assert!(available.is_subset(&expected) && expected.is_subset(&available));
    assert!(!provider_enabled(&config, "openai"));
    assert!(available_local_models(&providers, &vec![None]).is_empty());
    let disabled = doc(&format!(
        r#"{{"enabled_providers": ["local"], "disabled_providers": ["local"],
            "provider": {{"local": {{"options": {{"baseURL": "{base}"}}}}}}}}"#
    ));
    assert!(local_providers(&disabled).is_empty());
    for url in [
        "http://localhost:1234/v1",
        "http://127.0.0.1:8000/v1",
        "http://[::1]:11434/v1",
    ] {
        assert!(is_loopback_url(url));
    }
    for url in [
        "https://localhost.example/v1",
        "http://127.0.0.1@example.com/v1",
        "http://192.168.1.1/v1",
        "file:///tmp/models",
    ] {
        assert!(!is_loopback_url(url));
    }
}

#[test]
fn plain_catalog_keeps_configured_local_labels() {
    let mut models = vec![
        ModelInfo::new("local/mlx/qwen"),
        ModelInfo::new("cloud/fable").with_label(Some("Fable"), None),
    ];
    apply_configured_labels(
        &mut models,
        &doc(r#"{"provider":{"local":{"models":{"mlx/qwen":{"name":"Qwen · LM Studio (local)"}}}}}"#),
    );
    assert_eq!(
        models[0].display_name.as_deref(),
        Some("Qwen · LM Studio (local)")
    );
    assert_eq!(models[1].display_name.as_deref(), Some("Fable"));
}

#[test]
fn verbose_models_parse_per_model_variants() {
    let models = parse_verbose_models(VERBOSE_SAMPLE);
    assert_eq!(
        models.iter().map(|m| m.id.as_str()).collect::<Vec<_>>(),
        [
            "opencode/fable-5",
            "opencode/gemini-3-flash",
            "opencode/glm-5"
        ]
    );
    assert_eq!(
        ids(&models[0]),
        Some(vec!["default", "low", "medium", "high", "xhigh", "max"])
    );
    assert_eq!(
        ids(&models[1]),
        Some(vec!["default", "minimal", "low", "medium", "high"])
    );
}

#[test]
fn variants_are_ordered_weakest_to_strongest() {
    let model = doc(
        r#"{"variants": { "max": {}, "low": {}, "xhigh": {}, "high": {}, "medium": {} }}"#,
    );
    assert_eq!(
        variant_ids(&model).unwrap(),
        ["low", "medium", "high", "xhigh", "max"]
    );
    let odd = doc(r#"{ "variants": { "zzz": {}, "high": {}, "aaa": {} } }"#);
    assert_eq!(variant_ids(&odd).unwrap(), ["high", "aaa", "zzz"]);
}

#[test]
fn a_native_default_variant_does_not_duplicate_the_sentinel() {
    let out = "prov/a\n{\n  \"variants\": { \"default\": {}, \"high\": {} }\n}\n";
    let models = parse_verbose_models(out);
    assert_eq!(ids(&models[0]), Some(vec!["default", "high"]));
}

#[test]
fn empty_variants_map_hides_the_picker() {
    let models = parse_verbose_models(VERBOSE_SAMPLE);
    assert_eq!(ids(&models[2]), Some(vec![]));
    assert!(models[2].reasoning_levels.is_some());
}

#[test]
fn unparseable_verbose_output_yields_nothing() {
    assert!(parse_verbose_models("").is_empty());
    assert!(parse_verbose_models("error: unknown flag --verbose").is_empty());
    assert!(parse_verbose_models(
        "DESCRIPTION\n  List all available models\n\nUSAGE\n  opencode2 models [flags]\n"
    )
    .is_empty());
    assert!(parse_verbose_models("opencode/foo\nnot json\n").is_empty());
}

#[test]
fn plain_model_lines_have_no_variants() {
    let list = model_id_lines("opencode/a\n\n  github-copilot/b  \njunk\n");
    assert_eq!(list, ["opencode/a", "github-copilot/b"]);
    assert!(ModelInfo::new("opencode/a").reasoning_levels.is_none());
}

#[test]
fn brace_inside_a_string_does_not_swallow_later_models() {
    let out = format!(
        "{}{}{}",
        "prov/a\n{\n  \"name\": \"Weird { name\",\n  \"variants\": { \"high\": {} }\n}\n",
        "prov/b\n{\n  \"name\": \"esc \\\" and } brace\",\n  \"variants\": {}\n}\n",
        "prov/c\n{\n  \"variants\": { \"low\": {}, \"max\": {} }\n}\n",
    );
    let models = parse_verbose_models(&out);
    assert_eq!(
        models.iter().map(|m| m.id.as_str()).collect::<Vec<_>>(),
        ["prov/a", "prov/b", "prov/c"]
    );
    assert_eq!(ids(&models[0]), Some(vec!["default", "high"]));
    assert_eq!(ids(&models[1]), Some(vec![]));
    assert_eq!(ids(&models[2]), Some(vec!["default", "low", "max"]));
}

#[test]
fn variant_is_sent_unless_it_is_the_default_sentinel() {
    assert_eq!(opencode_variant(Some("high")), Some("high"));
    assert_eq!(opencode_variant(Some("minimal")), Some("minimal"));
    assert_eq!(opencode_variant(Some("none")), Some("none"));
    assert_eq!(opencode_variant(Some("brand-new")), Some("brand-new"));
    assert_eq!(opencode_variant(Some(REASONING_DEFAULT_ID)), None);
    assert_eq!(opencode_variant(None), None);
}

#[test]
fn advertised_variants_all_map_back() {
    let unknown = "prov/x\n{\n  \"variants\": { \"high\": {}, \"turbo\": {} }\n}\n";
    for model in parse_verbose_models(VERBOSE_SAMPLE)
        .into_iter()
        .chain(parse_verbose_models(unknown))
    {
        for choice in model.reasoning_levels.into_iter().flatten() {
            if choice.id == REASONING_DEFAULT_ID {
                continue;
            }
            assert_eq!(
                opencode_variant(Some(&choice.id)),
                Some(choice.id.as_str()),
                "{} advertises {} but the mapper drops it",
                model.id,
                choice.id
            );
        }
    }
}

#[test]
fn plan_mode_uses_the_plan_agent_others_build() {
    assert_eq!(opencode_agent(true), "plan");
    assert_eq!(opencode_agent(false), "build");
}

#[test]
fn plan_and_permissions_form_four_independent_combinations() {
    for (plan_mode, permission_mode, agent, auto_approve) in [
        (false, Some(PermissionMode::Ask), "build", false),
        (false, Some(PermissionMode::Auto), "build", true),
        (true, Some(PermissionMode::Ask), "plan", false),
        (true, Some(PermissionMode::Auto), "plan", true),
    ] {
        assert_eq!(opencode_agent(plan_mode), agent);
        assert_eq!(opencode_auto_approve(permission_mode), auto_approve);
    }
}

#[test]
fn debug_config_array_folds_to_v1_shape() {
    let v1 = doc(r#"{"model": "a/b", "provider": {"a": {}}}"#);
    assert_eq!(normalize_debug_config(&v1), v1);
    let v2 = doc(
        r#"[
            {"type": "global", "path": "p1", "info": {
                "model": {"providerID": "freebuff", "model": "glm-5-3-flash"},
                "providers": {"freebuff": {"options": {"baseURL": "http://127.0.0.1:8080/v1"}}}
            }},
            {"type": "other", "path": "p2"},
            {"type": "project", "path": "p3", "info": {"model": "x/y"}}
        ]"#,
    );
    let folded = normalize_debug_config(&v2);
    assert_eq!(folded.str_at("model"), Some("freebuff/glm-5-3-flash"));
    assert!(folded
        .get("provider")
        .and_then(|p| p.get("freebuff"))
        .and_then(|p| p.get("options"))
        .and_then(|o| o.get("baseURL"))
        .is_some());
    assert_ne!(folded.str_at("model"), Some("x/y"));
    assert!(normalize_debug_config(&doc("[]")).as_object().is_some());
}

#[test]
fn version_follows_the_binary_stem() {
    assert_eq!(
        opencode_version_of("C:/npm/opencode2.cmd"),
        OpenCodeVersion::V2
    );
    assert_eq!(
        opencode_version_of("/usr/bin/opencode2"),
        OpenCodeVersion::V2
    );
    assert_eq!(
        opencode_version_of("C:/npm/opencode.cmd"),
        OpenCodeVersion::V1
    );
    assert_eq!(
        opencode_version_of("/usr/bin/opencode"),
        OpenCodeVersion::V1
    );
}

#[test]
fn v2_form_cards_round_trip_answers() {
    let form = doc(
        r#"{
            "id": "frm_1",
            "sessionID": "ses_1",
            "title": "Which model?",
            "fields": [
                {"key": "model", "type": "multiselect", "title": "Model",
                 "options": [
                     {"value": "a", "label": "Alpha", "description": "first"},
                     {"value": "b", "label": "Beta"}
                 ]},
                {"key": "confirm", "type": "boolean", "title": "Sure?"}
            ]
        }"#,
    );
    let card = v2_form_card(&form).expect("card");
    assert_eq!(card.kind, "question");
    assert_eq!(card.native_id.as_deref(), Some("frm_1"));
    assert!(card.multi_select);
    let labels: Vec<_> = card.options.iter().map(|o| o.label.as_str()).collect();
    assert!(labels.contains(&"Alpha"));
    assert!(labels.contains(&"Sure?: Yes"));
    let answer = v2_form_answer(&form, &vec!["Alpha".to_string(), "Sure?: Yes".to_string()])
        .expect("answer");
    assert_eq!(answer.get("model"), Some(&doc(r#"["a"]"#)));
    assert_eq!(answer.get("confirm"), Some(&doc("true")));
    assert!(v2_form_answer(&form, &vec!["Stale".to_string()]).is_none());
    let solo = doc(
        r#"{
            "id": "frm_2", "sessionID": "ses_1", "title": "Go?",
            "fields": [{"key": "go", "type": "boolean", "title": "Go"}]
        }"#,
    );
    let card = v2_form_card(&solo).expect("card");
    assert!(card.options.iter().any(|o| o.label == "Yes"));
    assert_eq!(
        v2_form_answer(&solo, &vec!["No".to_string()]).and_then(|a| a.get("go").map(Json::copy)),
        Some(doc("false"))
    );
}

#[test]
fn v2_export_parts_map_with_stable_ids() {
    let message = doc(
        r#"{
            "id": "msg_1",
            "time": {"created": 1000},
            "type": "assistant",
            "content": [
                {"type": "text", "text": "hello"},
                {"type": "tool", "id": "too_1", "name": "read",
                 "state": {"status": "completed", "input": {"path": "a"},
                           "content": [{"type": "text", "text": "out"}]}}
            ]
        }"#,
    );
    let parts = v2_wire_parts(&message);
    assert_eq!(parts.len(), 2);
    assert_eq!(parts[0].id, "msg_1:0");
    assert_eq!(parts[0].text.as_deref(), Some("hello"));
    assert_eq!(parts[1].id, "too_1");
    assert_eq!(parts[1].tool.as_deref(), Some("read"));
    let state = parts[1].state.as_ref().expect("state");
    assert_eq!(state.status, "completed");
    assert_eq!(state.output.as_deref(), Some("out"));
    assert!(v2_message_error(&message).is_none());
    assert!(v2_message_error(&doc(r#"{"error": {"message": "boom"}}"#)).is_some());
    assert!(v2_message_error(&doc(r#"{"error": null}"#)).is_none());
    assert_eq!(
        v2_created_ms(&doc(r#"{"time": {"created": 1787000000000.0}}"#)),
        1787000000000
    );
    assert_eq!(
        v2_created_ms(&doc(r#"{"time": {"created": 1787000000.0}}"#)),
        1787000000000
    );
}

#[test]
fn permission_card_reads_id_permission_metadata() {
    let props = doc(
        r#"{
            "id": "per_abc123",
            "sessionID": "ses_x",
            "permission": "bash",
            "patterns": [],
            "metadata": { "command": "orx runs r1" },
            "always": [],
            "tool": { "messageID": "m1", "callID": "c1" }
        }"#,
    );
    let card = permission_card(&props).expect("should parse");
    assert_eq!(card.kind, "permission");
    assert_eq!(card.tool.as_deref(), Some("bash"));
    assert_eq!(card.native_id.as_deref(), Some("per_abc123"));
    assert_eq!(
        card.tool_input.as_ref().and_then(|m| m.str_at("command")),
        Some("orx runs r1")
    );
    assert!(permission_card(&doc(r#"{ "permission": "bash" }"#)).is_none());
}

#[test]
fn question_card_reads_first_question_and_opencode_multiple_field() {
    let props = doc(
        r#"{
            "id": "que_xyz",
            "sessionID": "ses_x",
            "questions": [{
                "question": "Which backend?",
                "header": "Backend",
                "options": [
                    { "label": "modal", "description": "per-second" },
                    { "label": "k8s", "description": "your cluster" }
                ],
                "multiple": true
            }]
        }"#,
    );
    let card = question_card(&props, &StrSet::new()).expect("should parse");
    assert_eq!(card.kind, "question");
    assert_eq!(card.native_id.as_deref(), Some("que_xyz"));
    assert_eq!(card.question.as_deref(), Some("Which backend?"));
    assert_eq!(card.header.as_deref(), Some("Backend"));
    assert_eq!(card.options.len(), 2);
    assert_eq!(card.options[0].label, "modal");
    assert_eq!(card.options[0].description.as_deref(), Some("per-second"));
    assert!(card.multi_select);
    let other_shaped = doc(
        r#"{
            "id": "que_1",
            "questions": [{ "question": "q", "header": "h", "options": [], "multiSelect": true }]
        }"#,
    );
    assert!(
        !question_card(&other_shaped, &StrSet::new())
            .unwrap()
            .multi_select
    );
    assert!(question_card(&doc(r#"{ "id": "que_1" }"#), &StrSet::new()).is_none());
}

#[test]
fn question_card_recognizes_plan_exit_by_tool_call_id() {
    let props = doc(
        r#"{
            "id": "que_exit",
            "tool": { "messageID": "m1", "callID": "call_plan" },
            "questions": [{
                "question": "Switch to build?",
                "header": "Build Agent",
                "options": [{ "label": "Yes" }, { "label": "No" }],
                "multiple": false
            }]
        }"#,
    );
    let mut calls = StrSet::new();
    calls.insert("call_plan");
    assert!(question_card(&props, &calls).unwrap().plan_exit);
    assert!(!question_card(&props, &StrSet::new()).unwrap().plan_exit);
}

#[test]
fn native_plan_exit_yes_leaves_plan_no_keeps_it() {
    let mut prompt = WirePrompt {
        plan_exit: true,
        ..Default::default()
    };
    let response = |choice: &str| PromptAnswer {
        session_id: "session".into(),
        prompt_id: "question".into(),
        approve: true,
        resume_mode: None,
        answers: vec![choice.into()],
        note: None,
        annotations: Vec::new(),
    };
    assert_eq!(plan_exit_transition(&prompt, &response("Yes")), Some(false));
    assert_eq!(plan_exit_transition(&prompt, &response("No")), Some(true));
    prompt.plan_exit = false;
    assert_eq!(plan_exit_transition(&prompt, &response("Yes")), None);
}

#[test]
fn message_updated_reports_summed_tokens_without_window() {
    let mut ctx = TurnCtx::new();
    let mut msgs = StrSet::new();
    event(
        &mut ctx,
        "ses_x",
        r#"{
            "type": "message.updated",
            "properties": { "info": {
                "id": "msg_1",
                "sessionID": "ses_x",
                "role": "assistant",
                "tokens": { "input": 1200, "output": 340, "reasoning": 50, "cache": { "read": 8000, "write": 200 } }
            }}
        }"#,
        &mut msgs,
        &mut StrMap::new(),
    );
    let usage = ctx.context_usage.expect("usage reported");
    assert_eq!(usage.used_tokens, 1200 + 340 + 50 + 8000 + 200);
    assert_eq!(usage.context_window, None);
}

#[test]
fn message_updated_without_tokens_reports_nothing() {
    let mut ctx = TurnCtx::new();
    let mut msgs = StrSet::new();
    event(
        &mut ctx,
        "ses_x",
        r#"{
            "type": "message.updated",
            "properties": { "info": { "id": "msg_1", "sessionID": "ses_x", "role": "assistant" }}
        }"#,
        &mut msgs,
        &mut StrMap::new(),
    );
    assert!(ctx.context_usage.is_none());
    event(
        &mut ctx,
        "ses_x",
        r#"{
            "type": "message.updated",
            "properties": { "info": { "id": "msg_1", "sessionID": "ses_x", "role": "assistant",
                "tokens": { "input": 0, "output": 0, "reasoning": 0, "cache": { "read": 0, "write": 0 } }}}
        }"#,
        &mut msgs,
        &mut StrMap::new(),
    );
    assert!(ctx.context_usage.is_none());
}

#[test]
fn compaction_recovery_does_not_surface_a_terminal_error_or_summary() {
    let mut ctx = TurnCtx::new();
    let mut messages = StrSet::new();
    let mut sessions = StrMap::new();
    for text in [
        r#"{"type":"session.error","properties":{"sessionID":"ses_x","error":{"name":"ContextOverflowError","data":{"message":"Too many tokens"}}}}"#,
        r#"{"type":"message.updated","properties":{"info":{"id":"summary","sessionID":"ses_x","role":"assistant","summary":true}}}"#,
        r#"{"type":"message.part.updated","properties":{"part":{"id":"summary_text","messageID":"summary","sessionID":"ses_x","type":"text","text":"Internal summary"}}}"#,
        r#"{"type":"message.part.delta","properties":{"sessionID":"ses_x","messageID":"summary","partID":"summary_text","field":"text","delta":"hidden"}}"#,
        r#"{"type":"message.updated","properties":{"info":{"id":"answer","sessionID":"ses_x","role":"assistant"}}}"#,
        r#"{"type":"message.part.updated","properties":{"part":{"id":"answer_text","messageID":"answer","sessionID":"ses_x","type":"text","text":"Run finished"}}}"#,
    ] {
        event(&mut ctx, "ses_x", text, &mut messages, &mut sessions);
    }
    assert_eq!(ctx.delivery_state(), DeliveryState::Accepted);
    assert_eq!(ctx.assistant.parts.len(), 1);
    assert_eq!(ctx.assistant.parts[0].text.as_deref(), Some("Run finished"));
    assert_eq!(
        opencode_response_error(&doc(r#"{"info":{"role":"assistant","finish":"stop"}}"#)),
        None
    );
    assert_eq!(
        opencode_response_error(&doc(
            r#"{"info":{"error":{"name":"APIError","data":{"message":"Invalid API key"}}}}"#
        ))
        .as_deref(),
        Some("Invalid API key")
    );
    assert!(opencode_response_error(&doc(r#"{"info":{"summary":true}}"#)).is_some());
}

#[test]
fn stale_final_response_is_rejected() {
    assert!(opencode_response_is_current(
        &doc(r#"{"info":{"time":{"created":100}}}"#),
        100
    ));
    assert!(!opencode_response_is_current(
        &doc(r#"{"info":{"time":{"created":99}}}"#),
        100
    ));
}

#[test]
fn auth_rejections_are_recognized_but_other_failures_are_not() {
    assert!(is_auth_rejection(
        "Error: API key not valid. Please pass a valid API key."
    ));
    assert!(is_auth_rejection("Incorrect API key provided: sk-abc"));
    assert!(is_auth_rejection("{\"type\":\"authentication_error\"}"));
    assert!(is_auth_rejection("HTTP 401 Unauthorized"));
    assert!(!is_auth_rejection("Error: fetch failed (ENOTFOUND)"));
    assert!(!is_auth_rejection(
        "    at plugin.ts:401:12\ncontext: 1401 tokens"
    ));
    assert!(!is_auth_rejection("ok"));
    assert!(!is_auth_rejection("model not found: google/nope"));
}

#[test]
fn model_provider_is_the_prefix() {
    assert_eq!(model_provider("google/gemini-2.5-flash"), "google");
    assert_eq!(model_provider("opencode/big-pickle"), "opencode");
    assert_eq!(model_provider("bare"), "bare");
}

#[test]
fn seed_title_is_recognized_but_real_titles_pass() {
    assert!(is_opencode_seed_title(
        "New session - 2026-07-09T23:50:40.501Z"
    ));
    assert!(is_opencode_seed_title(
        "  New session - 2026-07-09T23:50:40.501Z"
    ));
    assert!(!is_opencode_seed_title("Fix the login redirect"));
    assert!(!is_opencode_seed_title("New session handling in the store"));
    assert!(!is_opencode_seed_title(""));
}

#[test]
fn only_active_session_statuses_confirm_turn_acceptance() {
    let mut ctx = TurnCtx::new();
    ctx.mark_delivery(DeliveryState::Unknown);
    let mut messages = StrSet::new();
    let mut sessions = StrMap::new();
    event(
        &mut ctx,
        "ses_x",
        r#"{"type":"session.status","properties":{"sessionID":"ses_x","status":{"type":"idle"}}}"#,
        &mut messages,
        &mut sessions,
    );
    assert_eq!(ctx.delivery_state(), DeliveryState::Unknown);
    event(
        &mut ctx,
        "ses_x",
        r#"{"type":"session.status","properties":{"sessionID":"ses_x","status":{"type":"retry","attempt":1}}}"#,
        &mut messages,
        &mut sessions,
    );
    assert_eq!(ctx.delivery_state(), DeliveryState::Accepted);
}

#[test]
fn subagent_parts_stream_into_the_task_row_children() {
    let mut ctx = TurnCtx::new();
    let mut msgs = StrSet::new();
    let mut subs = StrMap::new();
    event(
        &mut ctx,
        "ses_main",
        r#"{"type":"message.updated","properties":{"info":{"id":"msg_1","sessionID":"ses_main","role":"assistant"}}}"#,
        &mut msgs,
        &mut subs,
    );
    event(
        &mut ctx,
        "ses_main",
        r#"{"type":"message.part.updated","properties":{"part":{
            "id":"prt_task","type":"tool","tool":"task","sessionID":"ses_main","messageID":"msg_1",
            "state":{"status":"running","input":{"description":"analyze"}}}}}"#,
        &mut msgs,
        &mut subs,
    );
    event(
        &mut ctx,
        "ses_main",
        r#"{"type":"session.created","properties":{"info":{"id":"ses_child","parentID":"ses_main"}}}"#,
        &mut msgs,
        &mut subs,
    );
    assert_eq!(subs.get("ses_child"), Some("prt_task"));
    event(
        &mut ctx,
        "ses_main",
        r#"{"type":"message.updated","properties":{"info":{"id":"msg_c","sessionID":"ses_child","role":"assistant"}}}"#,
        &mut msgs,
        &mut subs,
    );
    event(
        &mut ctx,
        "ses_main",
        r#"{"type":"message.part.updated","properties":{"part":{
            "id":"prt_bash","type":"tool","tool":"bash","sessionID":"ses_child","messageID":"msg_c",
            "state":{"status":"completed","input":{"command":"ls"},"output":"a.rs"}}}}"#,
        &mut msgs,
        &mut subs,
    );
    assert_eq!(ctx.assistant.parts.len(), 1, "{:?}", ctx.assistant.parts);
    let task = &ctx.assistant.parts[0];
    assert_eq!(task.id, "prt_task");
    assert_eq!(task.tool.as_deref(), Some("task"));
    let bash = task
        .children
        .iter()
        .find(|p| p.id == "prt_task:prt_bash")
        .expect("sub bash nested under the task row");
    assert_eq!(bash.state.as_ref().unwrap().output.as_deref(), Some("a.rs"));

    let final_task = to_wire_part(&doc(
        r#"{
            "id":"prt_task","type":"tool","tool":"task","sessionID":"ses_main","messageID":"msg_1",
            "state":{"status":"completed","input":{"description":"analyze"},"output":"done"}
        }"#,
    ))
    .unwrap();
    assert!(
        final_task.children.is_empty(),
        "rebuilt part has no children"
    );
    ctx.upsert_part_preserving_children(final_task);
    let task = &ctx.assistant.parts[0];
    assert_eq!(task.state.as_ref().unwrap().status, "completed");
    assert_eq!(task.children.len(), 1, "children survive the final merge");
}
