//! Paths, commands, quoting, texts and updates.

use orx::collections::{StrMap, StrSet};
use orx::sys::{
    command, crosses_devices, detach, external_path, is_exdev, kill_tree, new_process_group, pid_alive,
    pid_command, ps_quote, sh_quote, Grouping, Platform,
};
use orx::text::{
    contains_text, decimal_of, eq_ignore_case, join_texts, lines_of, lower_of, parse_i32,
    parse_u64, replace_char, rsplit_once_text, signed_decimal_of, split_once_text, text_less,
    trim_text, words_of,
};
use orx::update::{
    apply, aside_name, check_enabled, fresh_script_name, installer_name, installer_run, lock_name,
    move_running_executable, run, script_name, Effect, Outcome, Receipt, Record, Release,
    UpdateArgs, UpdateEvent, UpdateState, UpdateStep, UpdateTarget, ALREADY_RUNNING, BAD_NAME,
    DISABLED,
};

#[test]
fn verbatim_paths_become_regular() {
    let windows = |p| external_path(p, Platform::Windows);
    assert_eq!(windows(r"\\?\C:\repo"), r"C:\repo");
    assert_eq!(windows(r"\\?\UNC\host\share"), r"\\host\share");
    assert_eq!(windows(r"C:\repo"), r"C:\repo");
    assert_eq!(
        external_path(r"\\?\C:\repo", Platform::Unix),
        r"\\?\C:\repo"
    );
    assert_eq!(external_path("/a/b", Platform::Unix), "/a/b");
}

#[test]
fn batch_files_run_in_a_shell() {
    for program in [
        r"C:\npm\opencode.CMD",
        "tool.bat",
        r"a.b\x.cmd\",
        r"C:x.cmd",
        r"x.cmd\.",
        r"x.cmd/.\./",
        r"\\server\share\x.cmd",
        r"\\x.cmd",
        r"\\?\C:\x.cmd",
        r"\\?\UNC\server\share\x.bat",
        r"\\.\device\x.bat",
    ] {
        let line = command(program, Platform::Windows);
        assert_eq!(line.program, "cmd.exe");
        assert_eq!(line.args, ["/D", "/S", "/C", program]);
    }
    for program in [
        "opencode.exe",
        ".cmd",
        r"dir.cmd\tool",
        "cmd",
        r"C:.cmd",
        r"\\server\x.cmd",
        r"\\server\x.cmd\",
        r"\\?\x.cmd",
        r"\\?\UNC\server\x.cmd",
        r"\\?\C:\x.cmd\.",
        r"\\.\x.cmd",
        r"x.cmd\..",
        ".",
        "",
    ] {
        let line = command(program, Platform::Windows);
        assert_eq!(line.program, program);
        assert!(line.args.is_empty());
    }
    assert_eq!(command("x.cmd", Platform::Unix).program, "x.cmd");
}

#[test]
fn children_get_their_own_group() {
    assert_eq!(new_process_group(Platform::Unix), Grouping::OwnGroup);
    assert_eq!(
        new_process_group(Platform::Windows),
        Grouping::Flags(0x0000_0200 | 0x0800_0000)
    );
    assert_eq!(new_process_group(Platform::Other), Grouping::Nothing);
    assert_eq!(detach(Platform::Unix), Grouping::OwnGroup);
    assert_eq!(
        detach(Platform::Windows),
        Grouping::Flags(0x0000_0200 | 0x0800_0000)
    );
}

#[test]
fn processes_are_looked_up() {
    let ps = pid_command(" 12\n", Platform::Unix).unwrap();
    assert_eq!(ps.program, "ps");
    assert_eq!(ps.args, ["-o", "stat=", "-p", "12"]);
    let tasklist = pid_command("12", Platform::Windows).unwrap();
    assert_eq!(tasklist.program, "tasklist");
    assert_eq!(tasklist.args, ["/FI", "PID eq 12", "/FO", "CSV", "/NH"]);
    assert!(pid_command(" ", Platform::Unix).is_none());
    assert!(pid_command("12", Platform::Other).is_none());
    assert!(pid_alive("12", Platform::Unix, Some("Ss\n")));
    assert!(!pid_alive("12", Platform::Unix, Some("Z+\n")));
    assert!(!pid_alive("12", Platform::Unix, Some(" \n")));
    assert!(!pid_alive("12", Platform::Unix, None));
    assert!(pid_alive("12", Platform::Windows, Some("\"x.exe\",\"12\"")));
    assert!(!pid_alive(
        "12",
        Platform::Windows,
        Some("INFO: No tasks are running with 12")
    ));
    assert!(!pid_alive("12", Platform::Windows, Some("\"x.exe\",\"13\"")));
    assert!(!pid_alive("", Platform::Unix, Some("S")));
}

#[test]
fn process_trees_are_ended() {
    let kill = kill_tree("12\n", Platform::Unix);
    assert_eq!(kill.len(), 2);
    assert_eq!(kill[0].args, ["-TERM", "--", "-12"]);
    assert_eq!(kill[1].args, ["-TERM", "12"]);
    let taskkill = kill_tree("12", Platform::Windows);
    assert_eq!(taskkill[0].program, "taskkill");
    assert_eq!(taskkill[0].args, ["/PID", "12", "/T", "/F"]);
    assert!(kill_tree("", Platform::Unix).is_empty());
    assert!(kill_tree("12", Platform::Other).is_empty());
}

#[test]
fn renames_between_volumes_are_recognized() {
    assert!(is_exdev(Some(18), Platform::Unix));
    assert!(!is_exdev(Some(2), Platform::Unix));
    assert!(is_exdev(Some(17), Platform::Windows));
    assert!(!is_exdev(Some(18), Platform::Windows));
    assert!(!is_exdev(Some(18), Platform::Other));
    assert!(!is_exdev(None, Platform::Unix));
    assert!(crosses_devices(Some(99), Platform::Unix, 99));
}

#[test]
fn quotes_hold_any_text() {
    assert_eq!(ps_quote("it's"), "'it''s'");
    assert_eq!(ps_quote(""), "''");
    assert_eq!(ps_quote("$x"), "'$x'");
    assert_eq!(sh_quote("it's"), r"'it'\''s'");
    assert_eq!(sh_quote("a b"), "'a b'");
}

#[test]
fn texts_are_taken_apart() {
    assert_eq!(trim_text("\u{2003} a b\t\n"), "a b");
    assert_eq!(lines_of("a\r\nb\n\nc"), ["a", "b", "", "c"]);
    assert_eq!(lines_of("a\r"), ["a\r"]);
    assert_eq!(words_of("  a  b "), ["a", "b"]);
    assert_eq!(
        split_once_text("a/b/c", '/'),
        Some(("a".into(), "b/c".into()))
    );
    assert_eq!(
        rsplit_once_text("a/b/c", '/'),
        Some(("a/b".into(), "c".into()))
    );
    assert_eq!(split_once_text("abc", '/'), None);
    assert!(contains_text("abcabd", "abd"));
    assert!(!contains_text("abcab", "abd"));
    assert_eq!(lower_of("ÀBc"), "Àbc");
    assert!(eq_ignore_case("YeS", "yes"));
    assert_eq!(replace_char("a'b", '\'', "--"), "a--b");
    assert_eq!(
        join_texts(&vec!["a".to_string(), "b".to_string()], ", "),
        "a, b"
    );
    assert!(text_less("Z", "a") && text_less("a", "ab") && !text_less("b", "ab"));
}

#[test]
fn numbers_are_read_and_written() {
    assert_eq!(parse_u64("18446744073709551615"), Some(u64::MAX));
    assert_eq!(parse_u64("18446744073709551616"), None);
    assert_eq!(parse_u64("+7"), Some(7));
    assert_eq!(parse_u64("-7"), None);
    assert_eq!(parse_u64(""), None);
    assert_eq!(parse_u64("+"), None);
    assert_eq!(parse_u64(" 7"), None);
    assert_eq!(parse_i32("-2147483648"), Some(i32::MIN));
    assert_eq!(parse_i32("-2147483649"), None);
    assert_eq!(parse_i32("2147483648"), None);
    assert_eq!(parse_i32("-"), None);
    assert_eq!(decimal_of(0), "0");
    assert_eq!(decimal_of(1024), "1024");
    assert_eq!(signed_decimal_of(-12), "-12");
}

#[test]
fn collections_remember_the_last_value() {
    let mut set = StrSet::new();
    assert!(set.is_empty());
    assert!(set.insert("a"));
    assert!(!set.insert("a"));
    assert!(set.contains("a") && !set.contains("b"));
    let mut map = StrMap::new();
    map.insert("k", "1");
    map.insert("k", "2");
    assert_eq!(map.get("k"), Some("2"));
    assert_eq!(map.get("x"), None);
}

fn args(dry_run: bool, background: bool) -> UpdateArgs {
    UpdateArgs {
        dry_run,
        background,
        force: false,
    }
}

#[test]
fn outcomes_are_recorded_and_told() {
    assert_eq!(check_enabled(Some("1")).unwrap_err(), DISABLED);
    assert!(check_enabled(Some("0")).is_ok());
    assert!(check_enabled(None).is_ok());
    let (record, told) = run(args(false, false), Ok(Outcome::Contended));
    assert_eq!(record, Record::Contended);
    assert_eq!(told.unwrap_err(), ALREADY_RUNNING);
    let (record, told) = run(args(false, true), Ok(Outcome::Contended));
    assert_eq!(record, Record::Contended);
    assert!(told.is_ok());
    let (record, told) = run(args(false, false), Ok(Outcome::Done));
    assert_eq!(record, Record::Attempt(true));
    assert!(told.is_ok());
    let (record, told) = run(args(false, false), Err("no".into()));
    assert_eq!(record, Record::Attempt(false));
    assert_eq!(told.unwrap_err(), "no");
    let (record, told) = run(args(true, false), Err("no".into()));
    assert_eq!(record, Record::Nothing);
    assert!(told.is_err());
}

#[test]
fn files_of_an_update_have_names() {
    assert_eq!(lock_name(Some("app")), "update-app.lock");
    assert_eq!(lock_name(None), "update-unknown.lock");
    assert_eq!(installer_name("orx", Platform::Unix), "orx-installer.sh");
    assert_eq!(
        installer_name("orx", Platform::Windows),
        "orx-installer.ps1"
    );
    assert_eq!(script_name("1", Platform::Unix), "orx-installer-1.sh");
    assert_eq!(
        aside_name("orx.exe", "1"),
        "orx.exe.orx-previous-1.exe"
    );
    let first = fresh_script_name(Platform::Unix);
    let second = fresh_script_name(Platform::Unix);
    assert_ne!(first, second);
    let mark = first
        .strip_prefix("orx-installer-")
        .and_then(|n| n.strip_suffix(".sh"))
        .unwrap();
    assert_eq!(mark.len(), 36);
    for (i, c) in mark.chars().enumerate() {
        if [8, 13, 18, 23].contains(&i) {
            assert_eq!(c, '-');
        } else {
            assert!(c.is_ascii_digit() || ('a'..='f').contains(&c));
        }
    }
    assert!(move_running_executable(Some("orx.exe"))
        .unwrap()
        .starts_with("orx.exe.orx-previous-"));
    assert_eq!(move_running_executable(None).unwrap_err(), BAD_NAME);
}

fn receipt(modify_path: bool) -> Receipt {
    Receipt {
        install_prefix: "/opt/orx".into(),
        modify_path,
    }
}

#[test]
fn installers_are_pinned_to_the_prefix() {
    let run = installer_run("/tmp/i.sh", &receipt(true), Platform::Unix, false);
    assert_eq!(run.command.program, "sh");
    assert_eq!(run.command.args, ["/tmp/i.sh"]);
    assert_eq!(
        run.env,
        [("CARGO_DIST_FORCE_INSTALL_DIR".to_string(), "/opt/orx".to_string())]
    );
    assert!(run.removed.is_empty() && !run.silent);
    let run = installer_run("i.ps1", &receipt(false), Platform::Windows, true);
    assert_eq!(run.command.program, "powershell.exe");
    assert_eq!(run.command.args[5..], ["-File", "i.ps1"]);
    let names: Vec<_> = run.env.iter().map(|(k, _)| k.as_str()).collect();
    assert_eq!(
        names,
        [
            "CARGO_DIST_FORCE_INSTALL_DIR",
            "CARGO_DIST_NO_MODIFY_PATH",
            "INSTALLER_NO_MODIFY_PATH",
            "OPENRESEARCH_CLI_NO_MODIFY_PATH"
        ]
    );
    assert_eq!(run.removed, ["PSModulePath"]);
    assert!(run.silent);
}

fn release(outdated: bool) -> Release {
    Release {
        version: "2.0.0".into(),
        tag: "v2.0.0".into(),
        outdated,
    }
}

fn said(step: &UpdateStep) -> Vec<String> {
    step.effects.iter().map(|e| format!("{e:?}")).collect()
}

#[test]
fn updates_stop_early() {
    let unix = Platform::Unix;
    let go = |a, state, event| apply(a, "1.0.0", unix, state, event);
    let step = go(args(false, false), UpdateState::Lock, UpdateEvent::Locked(false));
    assert_eq!(step.end, Some(Ok(Outcome::Contended)));
    let step = go(
        args(false, false),
        UpdateState::Preflight,
        UpdateEvent::Failed("homebrew".into()),
    );
    assert_eq!(step.end, Some(Err("homebrew".into())));
    let step = go(
        args(false, false),
        UpdateState::Latest(receipt(true)),
        UpdateEvent::Found(release(false)),
    );
    assert_eq!(step.end, Some(Ok(Outcome::Done)));
    assert_eq!(
        said(&step),
        [
            "CacheLatest(\"2.0.0\")",
            "Say(\"orx 1.0.0 is up to date.\")"
        ]
    );
    let step = go(
        args(true, true),
        UpdateState::Latest(receipt(true)),
        UpdateEvent::Found(release(true)),
    );
    assert_eq!(step.end, Some(Ok(Outcome::Done)));
    assert_eq!(
        said(&step)[1],
        "Say(\"orx 1.0.0 → 2.0.0 is available. Re-run without --dry-run to update.\")"
    );
    let step = go(
        args(false, true),
        UpdateState::Latest(receipt(true)),
        UpdateEvent::Found(release(false)),
    );
    assert_eq!(said(&step), ["CacheLatest(\"2.0.0\")"]);
}

#[test]
fn bundles_update_themselves() {
    let step = apply(
        args(false, false),
        "1.0.0",
        Platform::Unix,
        UpdateState::Preflight,
        UpdateEvent::Checked(UpdateTarget::AppBundle("/Applications/orx.app".into())),
    );
    assert!(matches!(&step.state, UpdateState::Bundle(root) if root == "/Applications/orx.app"));
    let done = apply(
        args(false, false),
        "1.0.0",
        Platform::Unix,
        step.state,
        UpdateEvent::BundleUpdated,
    );
    assert_eq!(done.end, Some(Ok(Outcome::Done)));
}

fn to_install(platform: Platform) -> UpdateState {
    let a = args(false, false);
    let mut state = UpdateState::Lock;
    for event in [
        UpdateEvent::Locked(true),
        UpdateEvent::Checked(UpdateTarget::Installer(receipt(true))),
        UpdateEvent::Found(release(true)),
        UpdateEvent::Stored("script".into()),
        UpdateEvent::MovedAside("old.exe".into()),
    ] {
        state = apply(a, "1.0.0", platform, state, event).state;
    }
    assert!(matches!(state, UpdateState::Install(..)));
    state
}

#[test]
fn installations_succeed_or_are_undone() {
    let a = args(false, false);
    let go = |platform, event| apply(a, "1.0.0", platform, to_install(platform), event);
    let done = go(
        Platform::Unix,
        UpdateEvent::Exited(true, "exit status: 0".into()),
    );
    assert_eq!(done.end, Some(Ok(Outcome::Done)));
    assert_eq!(
        said(&done),
        [
            "RecordInstalled(\"2.0.0\")",
            "Say(\"✓ Updated orx 1.0.0 → 2.0.0.\")"
        ]
    );
    let done = go(
        Platform::Windows,
        UpdateEvent::Exited(true, "exit code: 0".into()),
    );
    assert!(matches!(&done.effects[0], Effect::DeletePrevious(p) if p == "old.exe"));
    let failed = go(
        Platform::Unix,
        UpdateEvent::Exited(false, "exit status: 2".into()),
    );
    assert_eq!(
        failed.end,
        Some(Err(
            "The installer exited with exit status: 2. The previous orx is untouched.".into()
        ))
    );
    let failed = go(Platform::Unix, UpdateEvent::NotRun("no sh".into()));
    assert_eq!(
        failed.end,
        Some(Err("Could not run the installer: no sh".into()))
    );
    let failed = go(Platform::Windows, UpdateEvent::NotRun("denied".into()));
    assert_eq!(failed.end, None);
    let restored = apply(
        a,
        "1.0.0",
        Platform::Windows,
        failed.state,
        UpdateEvent::Restored,
    );
    assert_eq!(
        restored.end,
        Some(Err(
            "Could not run the installer: denied. The previous orx was restored.".into()
        ))
    );
    let failed = go(
        Platform::Windows,
        UpdateEvent::Exited(false, "exit code: 1".into()),
    );
    let lost = apply(
        a,
        "1.0.0",
        Platform::Windows,
        failed.state,
        UpdateEvent::NotRestored("locked".into()),
    );
    assert_eq!(
        lost.end,
        Some(Err(
            "The installer exited with exit code: 1, and restoring the previous orx failed: locked. It is at old.exe."
                .into()
        ))
    );
}
