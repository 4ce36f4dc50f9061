//! Runs on this machine.

use orx::localbox::{
    cancel_job, cancelled, exit_code_state, hardware_info, inspect_job, launcher, mem_total_kb,
    memory_counts, parse_nvidia_smi_csv, pid_record, probe_text, run_dir, run_job, stream_logs,
    Found, Inspection, LocalJobSpec, MachineProbe, DIED,
};
use orx::sys::Platform;

#[test]
fn nvidia_smi_csv_two_gpus() {
    let parsed =
        parse_nvidia_smi_csv("NVIDIA A100-SXM4-80GB, 81920\nNVIDIA A100-SXM4-80GB, 81920\n");
    assert_eq!(parsed.len(), 2);
    assert_eq!(parsed[0].name, "NVIDIA A100-SXM4-80GB");
    assert_eq!(parsed[0].mem_mib, Some(81920));
}

#[test]
fn nvidia_smi_csv_empty_and_malformed() {
    assert!(parse_nvidia_smi_csv("").is_empty());
    assert!(parse_nvidia_smi_csv("\n  \n").is_empty());
    let odd = parse_nvidia_smi_csv("Tesla T4");
    assert_eq!(odd.len(), 1, "GPU kept even without a memory field");
    assert_eq!(odd[0].name, "Tesla T4");
    assert_eq!(odd[0].mem_mib, None);
}

fn spec(env: &[(&str, &str)], secret: &[(&str, &str)]) -> LocalJobSpec {
    let pairs = |v: &[(&str, &str)]| {
        v.iter()
            .map(|(k, v)| (k.to_string(), v.to_string()))
            .collect()
    };
    LocalJobSpec {
        run_id: "lifecycle".into(),
        script: "[ -n \"$TINKER_API_KEY\" ] && echo hello-$ORX_TEST_VAR".into(),
        env: pairs(env),
        secret_env: pairs(secret),
    }
}

#[test]
fn run_directories_are_sanitized() {
    assert_eq!(run_dir("run-1_A"), ["local-runs", "run-1_A"]);
    assert_eq!(run_dir("../../etc/passwd"), ["local-runs", "etcpasswd"]);
    assert_eq!(run_dir(""), ["local-runs", ""]);
    assert_eq!(run_dir("über"), ["local-runs", "ber"]);
}

#[test]
fn launchers_export_and_record() {
    let spec = spec(
        &[("ORX_TEST_VAR", "it's 42")],
        &[("TINKER_API_KEY", "s3cr3t-value")],
    );
    let text = launcher(&spec, "/data/local-runs/lifecycle", Platform::Unix);
    assert_eq!(
        text,
        "#!/usr/bin/env bash\nexport ORX_TEST_VAR='it'\\''s 42'\nexport PYTHONUNBUFFERED='1'\n\
         cd '/data/local-runs/lifecycle' || exit 97\n(\n\
         [ -n \"$TINKER_API_KEY\" ] && echo hello-$ORX_TEST_VAR\n) > log 2>&1\n\
         echo $? > exit_code\n"
    );
    let windows = launcher(&spec, "C:\\data", Platform::Windows);
    assert!(windows.starts_with(
        "$ErrorActionPreference = 'Stop'\r\n$env:ORX_TEST_VAR = 'it''s 42'\r\n\
         $env:PYTHONUNBUFFERED = '1'\r\n$log = Join-Path"
    ));
    assert!(windows.ends_with("exit $exitCode\r\n"));
    assert!(windows.contains("try {\r\n"));
}

#[test]
fn a_chosen_buffering_is_kept() {
    let text = launcher(&spec(&[("PYTHONUNBUFFERED", "")], &[]), "/d", Platform::Unix);
    assert!(text.contains("export PYTHONUNBUFFERED=''\n"));
    assert!(!text.contains("export PYTHONUNBUFFERED='1'"));
}

#[test]
fn jobs_keep_their_secrets_out_of_files() {
    let spec = spec(
        &[("ORX_TEST_VAR", "42")],
        &[("TINKER_API_KEY", "s3cr3t-value")],
    );
    let plan = run_job(&spec, "/d", Platform::Unix);
    assert_eq!(plan.files.len(), 1);
    assert_eq!(plan.files[0].name, "run.sh");
    assert_eq!(plan.files[0].mode, Some(0o600));
    assert_eq!(plan.dir_mode, Some(0o700));
    assert!(!plan.files[0].content.contains("s3cr3t-value"));
    assert_eq!(
        plan.env,
        [("TINKER_API_KEY".to_string(), "s3cr3t-value".to_string())]
    );
    assert_eq!(plan.command.program, "bash");
    assert_eq!(plan.command.args, ["run.sh"]);
    let windows = run_job(&spec, "C:\\d", Platform::Windows);
    assert_eq!(windows.files[0].name, "run.ps1");
    assert_eq!(windows.files[1].name, "payload.ps1");
    assert_eq!(windows.files[1].content, spec.script);
    assert_eq!(windows.dir_mode, None);
    assert_eq!(windows.command.program, "powershell.exe");
    assert_eq!(windows.command.args[6], "run.ps1");
    assert_eq!(pid_record(4711), "4711\n");
}

#[test]
fn exit_codes_are_read() {
    let state = exit_code_state(Some("0\n")).unwrap();
    assert_eq!(state.stage, "COMPLETED");
    assert_eq!(state.message, None);
    let failed = exit_code_state(Some(" 3 ")).unwrap();
    assert_eq!(failed.stage, "ERROR");
    assert_eq!(failed.message.as_deref(), Some("exited with code 3"));
    let odd = exit_code_state(Some("nonsense")).unwrap();
    assert_eq!(odd.message.as_deref(), Some("exited with code -1"));
    let negative = exit_code_state(Some("-2147483648")).unwrap();
    assert_eq!(
        negative.message.as_deref(),
        Some("exited with code -2147483648")
    );
    assert!(exit_code_state(Some("  \n")).is_none());
    assert!(exit_code_state(None).is_none());
}

#[test]
fn inspections_follow_the_run() {
    let code = |s: &str| Found::ExitCode(Some(s.to_string()));
    let done = inspect_job(Inspection::ExitCode, &code("0")).unwrap();
    assert_eq!(done.stage, "COMPLETED");
    assert_eq!(
        inspect_job(Inspection::ExitCode, &code("")).unwrap_err(),
        Inspection::Process
    );
    for alive in [None, Some(true)] {
        let state = inspect_job(Inspection::Process, &Found::Process(alive)).unwrap();
        assert_eq!(state.stage, "RUNNING");
        assert_eq!(state.message, None);
    }
    let mut at = inspect_job(Inspection::Process, &Found::Process(Some(false))).unwrap_err();
    for left in [3, 2] {
        assert_eq!(at, Inspection::Again(left));
        at = inspect_job(at, &Found::ExitCode(None)).unwrap_err();
    }
    assert_eq!(at, Inspection::Again(1));
    assert_eq!(
        inspect_job(Inspection::Again(1), &code("7")).unwrap().message.as_deref(),
        Some("exited with code 7")
    );
    for blank in [Found::ExitCode(None), code(" \n")] {
        let dead = inspect_job(at, &blank).unwrap();
        assert_eq!(dead.stage, "ERROR");
        assert_eq!(dead.message.as_deref(), Some(DIED));
    }
    assert_eq!(DIED, "process died without an exit code (killed?)");
}

#[test]
fn logs_stream_past_what_was_seen() {
    let (lines, seen) = stream_logs(Some("hello-42\n"), 0);
    assert_eq!(seen, 1);
    assert_eq!(lines, ["hello-42"]);
    assert_eq!(stream_logs(Some("hello-42\n"), seen), (vec![], 1));
    let (more, seen) = stream_logs(Some("hello-42\r\nnext\nhalf"), seen);
    assert_eq!(more, ["next", "half"]);
    assert_eq!(seen, 3);
    assert_eq!(stream_logs(None, 5), (vec![], 5));
    assert_eq!(stream_logs(Some("a\n"), 5), (vec![], 5));
}

#[test]
fn cancelling_ends_the_process_tree() {
    let (pid, commands) = cancel_job(" 42\n", Platform::Unix);
    assert_eq!(pid, "42");
    assert_eq!(commands[0].args, ["-TERM", "--", "-42"]);
    assert_eq!(commands[1].args, ["-TERM", "42"]);
    assert!(cancelled(&pid, true).is_ok());
    assert_eq!(
        cancelled(&pid, false).unwrap_err(),
        "Could not terminate local process tree 42"
    );
}

fn probe() -> MachineProbe {
    MachineProbe {
        macos: false,
        os: "linux",
        arch: "x86_64",
        cpu_count: 8,
        hostname: Some("gpu-box\n".into()),
        memsize: Some("17179869184\n".into()),
        meminfo: Some("MemTotal:       32763528 kB\nMemFree: 1 kB\n".into()),
        brand: Some("Apple M2 Pro\n".into()),
        gpus: Some("Tesla T4, 15360\n".into()),
    }
}

#[test]
fn hardware_degrades_field_by_field() {
    let linux = hardware_info(&probe());
    assert_eq!(linux.hostname, "gpu-box");
    assert_eq!(linux.os, "linux");
    assert_eq!(linux.arch, "x86_64");
    assert_eq!(linux.cpu_count, 8);
    assert_eq!(linux.chip, None);
    assert_eq!(linux.mem_bytes, Some(32763528 * 1024));
    assert_eq!(linux.gpus[0].name, "Tesla T4");
    assert_eq!(linux.gpus[0].mem_mib, Some(15360));
    let mac = hardware_info(&MachineProbe {
        macos: true,
        gpus: None,
        hostname: Some("  \n".into()),
        ..probe()
    });
    assert_eq!(mac.hostname, "unknown");
    assert_eq!(mac.chip.as_deref(), Some("Apple M2 Pro"));
    assert_eq!(mac.mem_bytes, Some(17179869184));
    assert!(mac.gpus.is_empty());
    let bare = hardware_info(&MachineProbe {
        meminfo: None,
        gpus: Some("\n".into()),
        hostname: None,
        ..probe()
    });
    assert_eq!(bare.mem_bytes, None);
    assert_eq!(bare.hostname, "unknown");
    assert!(bare.gpus.is_empty());
}

#[test]
fn memory_totals_are_read() {
    assert_eq!(mem_total_kb("A: 1\nMemTotal:   12 kB\n"), Some(12));
    assert_eq!(mem_total_kb("MemTotal:\nMemTotal: 5 kB"), None);
    assert_eq!(mem_total_kb("MemTotal: many kB"), None);
    assert_eq!(mem_total_kb(""), None);
    assert!(memory_counts(&probe()));
    assert!(!memory_counts(&MachineProbe {
        meminfo: Some("MemTotal: 18446744073709551615 kB".into()),
        ..probe()
    }));
    assert_eq!(probe_text(Some(" x \n")).as_deref(), Some("x"));
    assert_eq!(probe_text(Some(" \n")), None);
    assert_eq!(probe_text(None), None);
}
