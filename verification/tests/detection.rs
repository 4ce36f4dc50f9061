//! Detection of the agent, and its throwaway runs.

use orx::catalog::{plain_catalog, variant_ids, verbose_blocks, verbose_catalog, ModelInfo};
use orx::config::{
    local_probe, loopback_parts, normalize_debug_config, opencode_providers, OpenCodeVersion,
};
use orx::detect::{
    conclude, opencode_auth_path, prepare, Findings, HarnessAuthState, HarnessInfo, OpenCode,
    KEY_REJECTED, LOCAL_DOWN, LOCAL_MISSING, LOCAL_UNLISTED, NOT_INSTALLED, NOT_SIGNED_IN,
    NO_CONFIG, NO_MODELS,
};
use orx::json::Json;
use orx::native::parse_json;
use orx::probes::{
    dead_providers, debug_config_args, key_checks, one_shot_message, opencode_child,
    opencode_debug_config, opencode_one_shot, probe_rejects_key, ChildOutput, Verdicts,
};

fn doc(text: &str) -> Json {
    parse_json(text).expect("a document")
}

fn strings(v: &[&str]) -> Vec<String> {
    v.iter().map(|s| s.to_string()).collect()
}

fn findings(models: &[&str], config: &str, signed_in: &[&str]) -> Findings {
    Findings {
        installed: true,
        install_broken: false,
        broken_note: "does not run".into(),
        models: models.iter().map(|id| ModelInfo::new(id)).collect(),
        config: doc(config),
        signed_in: strings(signed_in),
        api_keys: Vec::new(),
        advertised: Vec::new(),
        store_error: None,
    }
}

fn detect(f: Findings, dead: &[&str]) -> HarnessInfo {
    OpenCode.detect(f, &strings(dead)).expect("an agent")
}

fn ids(info: &HarnessInfo) -> Vec<&str> {
    info.models.iter().map(|m| m.id.as_str()).collect()
}

const LOCAL: &str = r#"{"model": "cloud/b", "provider": {"box": {
    "options": {"baseURL": "http://localhost:1/v1", "apiKey": "k"}, "models": {"m": {"name": "Mine"}, "n": {}}}}}"#;

#[test]
fn signed_in_agents_list_their_models() {
    let info = detect(
        findings(
            &["cloud/a", "orx-local-x/y", "cloud/b"],
            r#"{"model": "cloud/b", "disabled_providers": ["off"]}"#,
            &["cloud", "off", "more"],
        ),
        &[],
    );
    assert!(info.agent_ready && info.authenticated);
    assert_eq!(info.auth_method.as_deref(), Some("oauth"));
    assert_eq!(info.account.as_deref(), Some("cloud, more"));
    assert_eq!(info.agent_note, None);
    assert_eq!(info.auth_state, HarnessAuthState::Unknown);
    assert_eq!(ids(&info), ["cloud/b", "orx-local-x/y", "cloud/a"]);
    assert_eq!(info.id, "opencode");
    assert_eq!(info.name, "OpenCode");
}

#[test]
fn environment_keys_count_for_enabled_providers() {
    let mut f = findings(&["openai/x"], r#"{"enabled_providers": ["openai"]}"#, &[]);
    f.api_keys = strings(&["GROQ_API_KEY"]);
    let info = detect(f, &[]);
    assert!(!info.authenticated);
    assert_eq!(info.auth_method, None);
    let mut f = findings(&["openai/x"], r#"{"enabled_providers": ["openai"]}"#, &[]);
    f.api_keys = strings(&["OPENAI_API_KEY"]);
    let info = detect(f, &[]);
    assert!(info.authenticated && info.agent_ready);
    assert_eq!(info.auth_method.as_deref(), Some("apiKey"));
    assert_eq!(info.account, None);
}

#[test]
fn local_models_need_their_server() {
    let local = |advertised: &[&str], models: &[&str]| {
        let mut f = findings(models, LOCAL, &[]);
        f.advertised = vec![Some(strings(advertised))];
        f
    };
    let info = detect(local(&["m"], &["box/m", "box/n", "cloud/b"]), &[]);
    assert!(info.agent_ready && !info.authenticated);
    assert_eq!(info.auth_method.as_deref(), Some("local"));
    assert_eq!(ids(&info), ["box/m"]);
    assert_eq!(info.models[0].display_name.as_deref(), Some("Mine"));
    assert_eq!(info.agent_note.as_deref(), Some(LOCAL_MISSING));
    assert_eq!(
        detect(local(&["m"], &["cloud/b"]), &[]).agent_note.as_deref(),
        Some(LOCAL_UNLISTED)
    );
    assert_eq!(
        detect(local(&[], &["box/m"]), &[]).agent_note.as_deref(),
        Some(LOCAL_DOWN)
    );
    assert_eq!(
        detect(findings(&["box/m"], LOCAL, &[]), &[])
            .agent_note
            .as_deref(),
        Some(LOCAL_DOWN)
    );
}

#[test]
fn rejected_keys_hide_models() {
    let f = || findings(&["a/1", "b/1"], "{}", &["a", "b"]);
    let info = detect(f(), &["a"]);
    assert!(info.agent_ready);
    assert_eq!(ids(&info), ["b/1"]);
    assert_eq!(info.account.as_deref(), Some("a (key rejected), b"));
    assert_eq!(
        info.agent_note,
        Some(format!("a{KEY_REJECTED}"))
    );
    let info = detect(f(), &["a", "b"]);
    assert!(!info.agent_ready && info.models.is_empty());
    assert_eq!(info.auth_state, HarnessAuthState::NeedsLogin);
    assert_eq!(info.agent_note, Some(format!("a, b{KEY_REJECTED}")));
    let mut f = findings(&["a/1", "box/n"], LOCAL, &["a"]);
    f.advertised = vec![None];
    assert_eq!(
        detect(f, &["a"]).agent_note,
        Some(format!("{LOCAL_MISSING} a{KEY_REJECTED}"))
    );
}

#[test]
fn idle_agents_say_why() {
    let note = |f: Findings| detect(f, &[]).agent_note.unwrap();
    let base = || findings(&[], "{}", &[]);
    assert_eq!(note(base()), NOT_SIGNED_IN);
    assert_eq!(note(findings(&[], "{}", &["a"])), NO_MODELS);
    assert_eq!(note(findings(&[], "null", &["a"])), NO_CONFIG);
    assert_eq!(
        note(Findings {
            installed: false,
            ..base()
        }),
        NOT_INSTALLED
    );
    assert_eq!(
        note(Findings {
            install_broken: true,
            ..base()
        }),
        "does not run"
    );
    assert_eq!(
        note(Findings {
            store_error: Some("unreadable".into()),
            ..base()
        }),
        "unreadable"
    );
}

#[test]
fn cloud_providers_are_the_ones_to_probe() {
    let mut f = findings(&["box/m", "a/1"], LOCAL, &["a", "box"]);
    f.advertised = vec![Some(strings(&["m"]))];
    let detection = prepare(f);
    assert_eq!(detection.cloud, ["a"]);
    assert_eq!(detection.providers, ["a", "box"]);
    assert!(conclude(detection, &Vec::new()).agent_ready);
}

#[test]
fn verdicts_are_kept_once_the_child_answered() {
    let models = vec![ModelInfo::new("a/1"), ModelInfo::new("a/2"), ModelInfo::new("b/1")];
    let providers = strings(&["a", "none", "b"]);
    let mut verdicts = Verdicts::new();
    let checks = key_checks(7, &providers, &models, &verdicts);
    assert_eq!(checks.len(), 2);
    assert_eq!(checks[0].model, "a/1");
    assert_eq!(checks[0].key, "7:a");
    assert_eq!(checks[0].cached, None);
    assert_eq!(
        dead_providers(&checks, &vec![Some(true), None]),
        ["a"]
    );
    verdicts.record(&checks[0].key, Some(true));
    verdicts.record(&checks[1].key, None);
    let again = key_checks(7, &providers, &models, &verdicts);
    assert_eq!(again[0].cached, Some(true));
    assert_eq!(again[1].cached, None);
    assert_eq!(dead_providers(&again, &vec![None, Some(false)]), ["a"]);
    assert_eq!(key_checks(8, &providers, &models, &verdicts)[0].cached, None);
}

fn output(success: bool, stdout: &str, stderr: &str) -> Option<ChildOutput> {
    Some(ChildOutput {
        success,
        stdout: stdout.into(),
        stderr: stderr.into(),
    })
}

#[test]
fn probes_read_both_streams() {
    assert_eq!(probe_rejects_key(&None), None);
    assert_eq!(
        probe_rejects_key(&output(false, "", "Invalid API key")),
        Some(true)
    );
    assert_eq!(
        probe_rejects_key(&output(false, "status 401", "")),
        Some(true)
    );
    assert_eq!(
        probe_rejects_key(&output(true, "unauthorized", "")),
        Some(false)
    );
    assert_eq!(probe_rejects_key(&output(false, "ok", "")), Some(false));
    assert_eq!(
        opencode_one_shot(&output(true, "Title", "")).as_deref(),
        Some("Title")
    );
    assert_eq!(opencode_one_shot(&output(false, "Title", "")), None);
    assert_eq!(opencode_one_shot(&None), None);
    assert_eq!(one_shot_message("be short", "name it"), "be short\n\nname it");
}

#[test]
fn children_get_the_arguments_of_their_generation() {
    assert_eq!(
        opencode_child(OpenCodeVersion::V1, Some("a/1"), "hi"),
        ["run", "--agent", "plan", "--pure", "--model", "a/1", "hi"]
    );
    assert_eq!(
        opencode_child(OpenCodeVersion::V2, None, "hi"),
        ["run", "--agent", "plan", "hi"]
    );
    assert_eq!(
        debug_config_args(OpenCodeVersion::V1),
        [
            strings(&["debug", "config", "--pure"]),
            strings(&["debug", "config"])
        ]
    );
    assert_eq!(
        debug_config_args(OpenCodeVersion::V2),
        [strings(&["debug", "config"])]
    );
    assert!(opencode_debug_config(Some("usage: ...")).is_none());
    assert!(opencode_debug_config(None).is_none());
    assert_eq!(
        opencode_debug_config(Some(r#"[{"info": {"model": "x/y"}}]"#)),
        Some(doc(r#"{"model": "x/y"}"#))
    );
}

#[test]
fn catalogs_fall_back_to_the_plain_listing() {
    assert!(verbose_catalog(None).is_none());
    assert!(verbose_catalog(Some("usage")).is_none());
    let verbose = verbose_catalog(Some("a/b\n{\n  \"name\": \"B\"\n}\n")).unwrap();
    assert_eq!(verbose[0].id, "a/b");
    assert_eq!(verbose[0].display_name.as_deref(), Some("B"));
    assert!(verbose[0].reasoning_levels.is_none());
    let plain = plain_catalog(Some("a/b\nc\n d/e \n"));
    let ids: Vec<_> = plain.iter().map(|m| m.id.as_str()).collect();
    assert_eq!(ids, ["a/b", "d/e"]);
    assert!(plain_catalog(None).is_empty());
}

#[test]
fn broken_blocks_keep_their_model() {
    let out = "a/b\n{ broken\n}\nc/d\n{\n \"unclosed\": \"{\n}\ne/f\n";
    let blocks = verbose_blocks(out);
    assert_eq!(blocks.len(), 2);
    assert_eq!(blocks[0], ("a/b".to_string(), "{ broken\n}\n".to_string()));
    assert_eq!(blocks[1].1, "{\n \"unclosed\": \"{\n}\n");
    let models = verbose_catalog(Some(out)).unwrap();
    assert_eq!(models[0].id, "a/b");
    assert!(models[0].reasoning_levels.is_none());
}

#[test]
fn variants_may_come_as_an_array() {
    assert_eq!(
        variant_ids(&doc(r#"{"variants": ["max", 3, "none"]}"#)).unwrap(),
        ["none", "max"]
    );
    assert!(variant_ids(&doc(r#"{"variants": []}"#)).unwrap().is_empty());
    assert!(variant_ids(&doc(r#"{"variants": "max"}"#)).is_none());
    assert!(variant_ids(&doc("{}")).is_none());
}

#[test]
fn earlier_sources_win() {
    let folded = normalize_debug_config(&doc(
        r#"[
            {"info": {"model": 3, "providers": {"b": 1}, "disabled_providers": ["x"]}},
            {"info": {"model": {"providerID": "p", "modelID": "m"}, "providers": {"a": 2, "b": 3}}},
            {"info": {"disabled_providers": [], "enabled_providers": null}}
        ]"#,
    ));
    assert_eq!(
        folded,
        doc(
            r#"{"model": "p/m", "provider": {"a": 2, "b": 1}, "disabled_providers": ["x"], "enabled_providers": null}"#
        )
    );
}

#[test]
fn probes_of_local_servers_take_the_key() {
    let probe = local_probe(&doc(r#"{"options": {"baseURL": "u", "apiKey": "k"}}"#)).unwrap();
    assert_eq!(probe.base_url, "u");
    assert_eq!(probe.api_key, "k");
    assert_eq!(
        local_probe(&doc(r#"{"options": {"baseURL": "u"}}"#)).unwrap().api_key,
        ""
    );
    assert!(local_probe(&doc(r#"{"options": {}}"#)).is_none());
    assert!(loopback_parts("https", Some("127.0.0.2")));
    assert!(!loopback_parts("https", Some("127.0.0.1.evil")));
    assert!(!loopback_parts("ftp", Some("localhost")));
    assert!(!loopback_parts("http", None));
}

#[test]
fn the_agent_describes_itself() {
    let agent = OpenCode;
    assert_eq!(agent.id(), "opencode");
    assert_eq!(agent.name(), "OpenCode");
    assert!(agent.supports_chat());
    assert_eq!(agent.session_skills_dir(), Some(".opencode/skills"));
    assert_eq!(agent.config_home(), ["opencode"]);
    assert_eq!(
        agent.skill_target(),
        ["opencode", "skills", "orx", "SKILL.md"]
    );
    let options = agent.options();
    let choices: Vec<_> = options
        .permission_choices
        .iter()
        .map(|c| (c.id.as_str(), c.label.as_str()))
        .collect();
    assert_eq!(
        choices,
        [("default", "Default"), ("auto-approve", "Auto-approve")]
    );
    assert_eq!(options.permission_default, "default");
    assert!(options.reasoning_choices.is_empty());
}

#[test]
fn credentials_are_found() {
    assert_eq!(
        opencode_auth_path(Some("/data"), Some("/home/me")).unwrap(),
        ["/data", "opencode", "auth.json"]
    );
    assert_eq!(
        opencode_auth_path(None, Some("/home/me")).unwrap(),
        ["/home/me", ".local", "share", "opencode", "auth.json"]
    );
    assert!(opencode_auth_path(None, None).is_none());
    assert_eq!(
        opencode_providers(Some(&doc(r#"{"b": {"type": "api"}, "a": {}}"#))),
        ["a", "b"]
    );
    assert!(opencode_providers(Some(&doc("[]"))).is_empty());
    assert!(opencode_providers(None).is_empty());
}
