//! Runs on this machine: the files and the process of a run, what its
//! directory tells of it, and the machine's hardware.

use vstd::prelude::*;

use crate::sys;
use crate::sys::{CommandLine, CommandV, Platform};
use crate::text;

verus! {

// ---------------------------------------------------------------------------
// The run's directory
// ---------------------------------------------------------------------------

/// A character that a run id may keep in a path.
pub open spec fn is_safe(c: char) -> bool {
    ||| 'a' <= c && c <= 'z'
    ||| 'A' <= c && c <= 'Z'
    ||| '0' <= c && c <= '9'
    ||| c == '-'
    ||| c == '_'
}

/// The run id without the characters that a path may not keep.
pub open spec fn safe_id(run_id: Seq<char>) -> Seq<char> {
    run_id.filter(|c: char| is_safe(c))
}

/// The components of a run's directory, below the data directory.
pub open spec fn run_components(run_id: Seq<char>) -> Seq<Seq<char>> {
    seq!["local-runs"@, safe_id(run_id)]
}

fn keeps(c: char) -> (r: bool)
    ensures
        r == is_safe(c),
{
    ('a' <= c && c <= 'z') || ('A' <= c && c <= 'Z') || ('0' <= c && c <= '9') || c == '-' || c
        == '_'
}

/// The components of a run's directory, below the data directory.
pub fn run_dir(run_id: &str) -> (r: Vec<String>)
    ensures
        text::texts(r@) == run_components(run_id@),
{
    let v: Vec<char> = text::chars_of(run_id);
    let mut safe: String = String::new();
    let mut i: usize = 0;
    proof {
        reveal(Seq::filter);
        assert(v@.take(0) =~= Seq::empty());
        assert(safe@ =~= safe_id(v@.take(0)));
    }
    while i < v.len()
        invariant
            i <= v@.len(),
            safe@ == safe_id(v@.take(i as int)),
        decreases v@.len() - i,
    {
        proof {
            reveal(Seq::filter);
        }
        assert(v@.take(i + 1).drop_last() =~= v@.take(i as int));
        assert(v@.take(i + 1).last() == v@[i as int]);
        if keeps(v[i]) {
            safe.push(v[i]);
        }
        i += 1;
    }
    assert(v@.take(i as int) =~= v@);
    let mut path: Vec<String> = Vec::new();
    assert(text::texts(path@) =~= Seq::empty());
    text::push_text(&mut path, "local-runs");
    text::push_text(&mut path, safe.as_str());
    assert(text::texts(path@) =~= run_components(run_id@));
    path
}

// ---------------------------------------------------------------------------
// Jobs
// ---------------------------------------------------------------------------

/// A run.
#[derive(Debug)]
pub struct LocalJobSpec {
    /// Names the run's directory.
    pub run_id: String,
    /// What is run: a POSIX shell script on Unix, a PowerShell script on
    /// Windows.
    pub script: String,
    /// Exported by the launcher.
    pub env: Vec<(String, String)>,
    /// Inherited by the launcher, and written nowhere.
    pub secret_env: Vec<(String, String)>,
}

/// The names and values of environment variables.
pub open spec fn env_texts(env: Seq<(String, String)>) -> Seq<(Seq<char>, Seq<char>)> {
    Seq::new(env.len(), |i: int| (env[i].0@, env[i].1@))
}

/// A variable has this name.
pub open spec fn has_name(env: Seq<(Seq<char>, Seq<char>)>, name: Seq<char>) -> bool {
    exists|i: int| 0 <= i < env.len() && (#[trigger] env[i]).0 == name
}

/// The variable that keeps Python from holding its output back.
pub const UNBUFFERED: &'static str = "PYTHONUNBUFFERED";

/// The environment with Python's output not held back, unless it says
/// otherwise.
pub open spec fn unbuffered(env: Seq<(Seq<char>, Seq<char>)>) -> Seq<(Seq<char>, Seq<char>)> {
    if has_name(env, UNBUFFERED@) {
        env
    } else {
        env.push((UNBUFFERED@, "1"@))
    }
}

/// The line that exports a variable.
pub open spec fn export_line(variable: (Seq<char>, Seq<char>), platform: Platform) -> Seq<char> {
    if platform == Platform::Windows {
        "$env:"@ + variable.0 + " = "@ + sys::ps_quoted(variable.1)
    } else {
        "export "@ + variable.0 + "="@ + sys::sh_quoted(variable.1)
    }
}

/// The lines that export the variables.
pub open spec fn export_lines(env: Seq<(Seq<char>, Seq<char>)>, platform: Platform) -> Seq<
    Seq<char>,
> {
    env.map_values(|v: (Seq<char>, Seq<char>)| export_line(v, platform))
}

/// What the Windows launcher does once the variables are set.
pub const WINDOWS_BODY: &'static str = "\r\n$log = Join-Path -Path $PSScriptRoot -ChildPath 'log'\r\n$exitFile = Join-Path -Path $PSScriptRoot -ChildPath 'exit_code'\r\n$global:LASTEXITCODE = 0\r\n$exitCode = 0\r\ntry {\r\n    $payload = Join-Path -Path $PSScriptRoot -ChildPath 'payload.ps1'\r\n    $items = @(& powershell.exe -NoLogo -NoProfile -NonInteractive -ExecutionPolicy Bypass -File $payload *>&1)\r\n    $pipelineSuccess = $?\r\n    $nativeExitCode = $LASTEXITCODE\r\n    $text = $items | Out-String\r\n    $encoding = New-Object System.Text.UTF8Encoding($false)\r\n    [System.IO.File]::WriteAllText($log, [string]$text, $encoding)\r\n    if ($null -ne $nativeExitCode -and $nativeExitCode -ne 0) { $exitCode = [int]$nativeExitCode }\r\n    elseif (-not $pipelineSuccess) { $exitCode = 1 }\r\n} catch {\r\n    $encoding = New-Object System.Text.UTF8Encoding($false)\r\n    [System.IO.File]::WriteAllText($log, $_.ToString() + [Environment]::NewLine, $encoding)\r\n    $exitCode = 1\r\n}\r\nSet-Content -LiteralPath $exitFile -Value $exitCode\r\nexit $exitCode\r\n";

/// What the Windows launcher starts with.
pub const WINDOWS_HEAD: &'static str = "$ErrorActionPreference = 'Stop'\r\n";

/// The launcher: it sets the variables, runs the script with its output in
/// the log, and writes the exit code. On Windows the script is a file of its
/// own.
pub open spec fn launcher_text(
    env: Seq<(Seq<char>, Seq<char>)>,
    dir: Seq<char>,
    script: Seq<char>,
    platform: Platform,
) -> Seq<char> {
    if platform == Platform::Windows {
        WINDOWS_HEAD@ + text::join(export_lines(env, platform), "\r\n"@) + WINDOWS_BODY@
    } else {
        "#!/usr/bin/env bash\n"@ + text::join(export_lines(env, platform), "\n"@) + "\ncd "@
            + sys::sh_quoted(dir) + " || exit 97\n(\n"@ + script
            + "\n) > log 2>&1\necho $? > exit_code\n"@
    }
}

fn names(env: &Vec<(String, String)>, name: &str) -> (r: bool)
    ensures
        r == has_name(env_texts(env@), name@),
{
    let ghost all = env_texts(env@);
    let mut i: usize = 0;
    while i < env.len()
        invariant
            i <= env@.len(),
            all == env_texts(env@),
            forall|j: int| 0 <= j < i ==> (#[trigger] all[j]).0 != name@,
        decreases env@.len() - i,
    {
        assert(all[i as int].0 == env@[i as int].0@);
        if text::str_eq(env[i].0.as_str(), name) {
            return true;
        }
        i += 1;
    }
    false
}

fn line_for(name: &str, value: &str, platform: Platform) -> (r: String)
    ensures
        r@ == export_line((name@, value@), platform),
{
    if platform == Platform::Windows {
        let start: String = text::concat3("$env:", name, " = ");
        let quoted: String = sys::ps_quote(value);
        text::concat2(start.as_str(), quoted.as_str())
    } else {
        let start: String = text::concat3("export ", name, "=");
        let quoted: String = sys::sh_quote(value);
        text::concat2(start.as_str(), quoted.as_str())
    }
}

/// The lines that export the variables, with Python's output not held back.
fn exports(env: &Vec<(String, String)>, platform: Platform) -> (r: Vec<String>)
    ensures
        text::texts(r@) == export_lines(unbuffered(env_texts(env@)), platform),
{
    let ghost given = export_lines(env_texts(env@), platform);
    let mut lines: Vec<String> = Vec::new();
    let mut i: usize = 0;
    assert(text::texts(lines@) =~= given.take(0));
    while i < env.len()
        invariant
            i <= env@.len(),
            given == export_lines(env_texts(env@), platform),
            given.len() == env@.len(),
            text::texts(lines@) == given.take(i as int),
        decreases env@.len() - i,
    {
        let ghost before = text::texts(lines@);
        let line: String = line_for(env[i].0.as_str(), env[i].1.as_str(), platform);
        assert(env_texts(env@)[i as int] == (env@[i as int].0@, env@[i as int].1@));
        assert(given[i as int] == line@);
        lines.push(line);
        assert(text::texts(lines@) =~= before.push(line@));
        i += 1;
        assert(text::texts(lines@) =~= given.take(i as int));
    }
    assert(given.take(i as int) =~= given);
    if !names(env, UNBUFFERED) {
        let line: String = line_for(UNBUFFERED, "1", platform);
        lines.push(line);
        assert(text::texts(lines@) =~= given.push(line@));
        assert(export_lines(unbuffered(env_texts(env@)), platform) =~= given.push(line@));
    }
    lines
}

/// The launcher of a run.
pub fn launcher(spec: &LocalJobSpec, dir: &str, platform: Platform) -> (r: String)
    ensures
        r@ == launcher_text(unbuffered(env_texts(spec.env@)), dir@, spec.script@, platform),
{
    let lines: Vec<String> = exports(&spec.env, platform);
    if platform == Platform::Windows {
        let set: String = text::join_texts(&lines, "\r\n");
        text::concat3(WINDOWS_HEAD, set.as_str(), WINDOWS_BODY)
    } else {
        let set: String = text::join_texts(&lines, "\n");
        let head: String = text::concat3("#!/usr/bin/env bash\n", set.as_str(), "\ncd ");
        let quoted: String = sys::sh_quote(dir);
        let there: String = text::concat3(head.as_str(), quoted.as_str(), " || exit 97\n(\n");
        text::concat3(
            there.as_str(),
            spec.script.as_str(),
            "\n) > log 2>&1\necho $? > exit_code\n",
        )
    }
}

/// A file of a run.
#[derive(Debug)]
pub struct RunFile {
    pub name: String,
    pub content: String,
    /// The access mode on Unix.
    pub mode: Option<u32>,
}

/// The model of a [`RunFile`].
#[verifier::ext_equal]
pub struct FileV {
    pub name: Seq<char>,
    pub content: Seq<char>,
    pub mode: Option<u32>,
}

impl View for RunFile {
    type V = FileV;

    open spec fn view(&self) -> FileV {
        FileV { name: self.name@, content: self.content@, mode: self.mode }
    }
}

/// The models of a sequence of files.
pub open spec fn file_models(v: Seq<RunFile>) -> Seq<FileV> {
    Seq::new(v.len(), |i: int| v[i]@)
}

/// Only the owner may use the directory.
pub const OWNER_DIR: u32 = 0o700;

/// Only the owner may read and write the file.
pub const OWNER_FILE: u32 = 0o600;

/// How a run is started: the files in its directory, the directory's access
/// mode on Unix, the command, and the variables that it inherits.
#[derive(Debug)]
pub struct JobPlan {
    pub files: Vec<RunFile>,
    pub dir_mode: Option<u32>,
    pub command: CommandLine,
    pub env: Vec<(String, String)>,
}

/// The files of a run.
pub open spec fn run_files(launcher: Seq<char>, script: Seq<char>, platform: Platform) -> Seq<
    FileV,
> {
    if platform == Platform::Windows {
        seq![
            (FileV { name: "run.ps1"@, content: launcher, mode: None }),
            (FileV { name: "payload.ps1"@, content: script, mode: None }),
        ]
    } else {
        seq![(FileV { name: "run.sh"@, content: launcher, mode: Some(OWNER_FILE) })]
    }
}

/// The command that starts a run, in its directory.
pub open spec fn run_command(platform: Platform) -> CommandV {
    if platform == Platform::Windows {
        CommandV {
            program: "powershell.exe"@,
            args: seq![
                "-NoLogo"@,
                "-NoProfile"@,
                "-NonInteractive"@,
                "-ExecutionPolicy"@,
                "Bypass"@,
                "-File"@,
                "run.ps1"@,
            ],
        }
    } else {
        CommandV { program: "bash"@, args: seq!["run.sh"@] }
    }
}

/// The arguments with which Windows runs a script.
pub fn powershell_args(script: &str) -> (r: Vec<String>)
    ensures
        text::texts(r@) == seq![
            "-NoLogo"@,
            "-NoProfile"@,
            "-NonInteractive"@,
            "-ExecutionPolicy"@,
            "Bypass"@,
            "-File"@,
            script@,
        ],
{
    let mut args: Vec<String> = Vec::new();
    assert(text::texts(args@) =~= Seq::empty());
    text::push_text(&mut args, "-NoLogo");
    text::push_text(&mut args, "-NoProfile");
    text::push_text(&mut args, "-NonInteractive");
    text::push_text(&mut args, "-ExecutionPolicy");
    text::push_text(&mut args, "Bypass");
    text::push_text(&mut args, "-File");
    text::push_text(&mut args, script);
    assert(text::texts(args@) =~= seq![
        "-NoLogo"@,
        "-NoProfile"@,
        "-NonInteractive"@,
        "-ExecutionPolicy"@,
        "Bypass"@,
        "-File"@,
        script@,
    ]);
    args
}

fn copy_env(env: &Vec<(String, String)>) -> (r: Vec<(String, String)>)
    ensures
        env_texts(r@) == env_texts(env@),
{
    let ghost all = env_texts(env@);
    let mut out: Vec<(String, String)> = Vec::new();
    let mut i: usize = 0;
    assert(env_texts(out@) =~= all.take(0));
    while i < env.len()
        invariant
            i <= env@.len(),
            all == env_texts(env@),
            all.len() == env@.len(),
            env_texts(out@) == all.take(i as int),
        decreases env@.len() - i,
    {
        let ghost before = env_texts(out@);
        let entry: (String, String) = (env[i].0.clone(), env[i].1.clone());
        assert(all[i as int] == (entry.0@, entry.1@));
        out.push(entry);
        assert(env_texts(out@) =~= before.push((entry.0@, entry.1@)));
        i += 1;
        assert(env_texts(out@) =~= all.take(i as int));
    }
    assert(all.take(i as int) =~= all);
    out
}

/// What is written of a run.
pub open spec fn job_files(
    env: Seq<(Seq<char>, Seq<char>)>,
    dir: Seq<char>,
    script: Seq<char>,
    platform: Platform,
) -> Seq<FileV> {
    run_files(launcher_text(unbuffered(env), dir, script, platform), script, platform)
}

/// The access mode of a run's directory, where there are such modes.
pub open spec fn job_dir_mode(platform: Platform) -> Option<u32> {
    if platform == Platform::Windows {
        None
    } else {
        Some(OWNER_DIR)
    }
}

/// How a run is started in its directory.
pub fn run_job(spec: &LocalJobSpec, dir: &str, platform: Platform) -> (r: JobPlan)
    ensures
        file_models(r.files@) == job_files(env_texts(spec.env@), dir@, spec.script@, platform),
        r.dir_mode == job_dir_mode(platform),
        r.command@ == run_command(platform),
        env_texts(r.env@) == env_texts(spec.secret_env@),
{
    let text: String = launcher(spec, dir, platform);
    let env: Vec<(String, String)> = copy_env(&spec.secret_env);
    let mut files: Vec<RunFile> = Vec::new();
    if platform == Platform::Windows {
        files.push(RunFile { name: "run.ps1".to_owned(), content: text, mode: None });
        files.push(
            RunFile { name: "payload.ps1".to_owned(), content: spec.script.clone(), mode: None },
        );
        assert(file_models(files@) =~= run_files(text@, spec.script@, platform));
        JobPlan {
            files,
            dir_mode: None,
            command: CommandLine {
                program: "powershell.exe".to_owned(),
                args: powershell_args("run.ps1"),
            },
            env,
        }
    } else {
        files.push(RunFile { name: "run.sh".to_owned(), content: text, mode: Some(OWNER_FILE) });
        assert(file_models(files@) =~= run_files(text@, spec.script@, platform));
        let mut args: Vec<String> = Vec::new();
        assert(text::texts(args@) =~= Seq::empty());
        text::push_text(&mut args, "run.sh");
        assert(text::texts(args@) =~= seq!["run.sh"@]);
        JobPlan {
            files,
            dir_mode: Some(OWNER_DIR),
            command: CommandLine { program: "bash".to_owned(), args },
            env,
        }
    }
}

/// What is recorded of the started process.
pub fn pid_record(pid: u32) -> (r: String)
    ensures
        r@ == text::decimal(pid as nat) + "\n"@,
{
    let number: String = text::decimal_of(pid as u64);
    text::concat2(number.as_str(), "\n")
}

// ---------------------------------------------------------------------------
// What the directory tells
// ---------------------------------------------------------------------------

/// The state of a run.
#[derive(Debug)]
pub struct JobState {
    pub stage: String,
    pub message: Option<String>,
}

/// The model of a [`JobState`].
#[verifier::ext_equal]
pub struct StateV {
    pub stage: Seq<char>,
    pub message: Option<Seq<char>>,
}

impl View for JobState {
    type V = StateV;

    open spec fn view(&self) -> StateV {
        StateV { stage: self.stage@, message: text::opt_text(self.message) }
    }
}

/// The model of an optional state.
pub open spec fn opt_state(s: Option<JobState>) -> Option<StateV> {
    match s {
        Some(s) => Some(s@),
        None => None,
    }
}

/// The run is going on.
pub open spec fn running() -> StateV {
    StateV { stage: "RUNNING"@, message: None }
}

/// The exit code in a file: -1 if it holds no number.
pub open spec fn exit_code(raw: Seq<char>) -> int {
    match text::parse_signed32(text::trim(raw)) {
        Some(code) => code,
        None => -1,
    }
}

/// How a run ended, by the file with its exit code. An empty file is being
/// written, and tells nothing yet.
pub open spec fn ended(raw: Option<Seq<char>>) -> Option<StateV> {
    match raw {
        Some(content) => if text::trim(content).len() == 0 {
            None
        } else if exit_code(content) == 0 {
            Some(StateV { stage: "COMPLETED"@, message: None })
        } else {
            Some(
                StateV {
                    stage: "ERROR"@,
                    message: Some(
                        "exited with code "@ + text::signed_decimal(exit_code(content)),
                    ),
                },
            )
        },
        None => None,
    }
}

/// How a run ended, by the file with its exit code, if it could be read.
pub fn exit_code_state(raw: Option<&str>) -> (r: Option<JobState>)
    ensures
        opt_state(r) == ended(text::opt_str(raw)),
{
    match raw {
        Some(content) => {
            let shown: String = text::trim_text(content);
            if shown.as_str().is_empty() {
                return None;
            }
            let code: i32 = match text::parse_i32(shown.as_str()) {
                Some(code) => code,
                None => -1,
            };
            if code == 0 {
                Some(JobState { stage: "COMPLETED".to_owned(), message: None })
            } else {
                let number: String = text::signed_decimal_of(code as i64);
                Some(
                    JobState {
                        stage: "ERROR".to_owned(),
                        message: Some(text::concat2("exited with code ", number.as_str())),
                    },
                )
            }
        },
        None => None,
    }
}

/// Told of a process that is gone without an exit code.
pub const DIED: &'static str = "process died without an exit code (killed?)";

/// How often the exit code is read again once the process is gone.
pub const REREADS: u8 = 3;

/// How many milliseconds lie between two such readings.
pub const REREAD_MS: u64 = 10;

/// How far a run has been inspected.
#[derive(Clone, Copy, Debug, PartialEq, Eq, Structural)]
pub enum Inspection {
    /// The exit code is to be read.
    ExitCode,
    /// The process is to be looked at.
    Process,
    /// The process is gone: the exit code is to be read again, so many times,
    /// with a pause behind each.
    Again(u8),
}

/// What was found.
#[derive(Debug)]
pub enum Found {
    /// The content of the file with the exit code, if it could be read.
    ExitCode(Option<String>),
    /// Whether the recorded process is alive; nothing if none is recorded.
    Process(Option<bool>),
}

/// The model of [`Found`].
#[verifier::ext_equal]
pub enum FoundV {
    ExitCode(Option<Seq<char>>),
    Process(Option<bool>),
}

impl View for Found {
    type V = FoundV;

    open spec fn view(&self) -> FoundV {
        match *self {
            Found::ExitCode(raw) => FoundV::ExitCode(text::opt_text(raw)),
            Found::Process(alive) => FoundV::Process(alive),
        }
    }
}

/// The run was killed or has crashed.
pub open spec fn died() -> StateV {
    StateV { stage: "ERROR"@, message: Some(DIED@) }
}

/// The state of a run, or what is to be looked at next. An exit code decides.
/// Without one, a run whose process is alive or not yet recorded is going on;
/// once the process is gone the exit code may just have been written, so it is
/// read again before the run counts as killed.
pub open spec fn inspected(at: Inspection, found: FoundV) -> Result<StateV, Inspection> {
    match (at, found) {
        (Inspection::ExitCode, FoundV::ExitCode(raw)) => match ended(raw) {
            Some(state) => Ok(state),
            None => Err(Inspection::Process),
        },
        (Inspection::Process, FoundV::Process(alive)) => if alive == Some(false) {
            Err(Inspection::Again(REREADS))
        } else {
            Ok(running())
        },
        (Inspection::Again(n), FoundV::ExitCode(raw)) => match ended(raw) {
            Some(state) => Ok(state),
            None => if n > 1 {
                Err(Inspection::Again((n - 1) as u8))
            } else {
                Ok(died())
            },
        },
        _ => Err(at),
    }
}

/// The model of the result of an inspection.
pub open spec fn inspection_model(r: Result<JobState, Inspection>) -> Result<StateV, Inspection> {
    match r {
        Ok(s) => Ok(s@),
        Err(i) => Err(i),
    }
}

fn running_state() -> (r: JobState)
    ensures
        r@ == running(),
{
    JobState { stage: "RUNNING".to_owned(), message: None }
}

/// The state of a run, or what is to be looked at next.
pub fn inspect_job(at: Inspection, found: &Found) -> (r: Result<JobState, Inspection>)
    ensures
        inspection_model(r) == inspected(at, found@),
{
    match (at, found) {
        (Inspection::ExitCode, Found::ExitCode(raw)) => {
            match exit_code_state(text::opt_as_str(raw)) {
                Some(state) => Ok(state),
                None => Err(Inspection::Process),
            }
        },
        (Inspection::Process, Found::Process(alive)) => {
            match alive {
                Some(false) => Err(Inspection::Again(REREADS)),
                _ => Ok(running_state()),
            }
        },
        (Inspection::Again(n), Found::ExitCode(raw)) => {
            match exit_code_state(text::opt_as_str(raw)) {
                Some(state) => Ok(state),
                None => {
                    if n > 1 {
                        Err(Inspection::Again(n - 1))
                    } else {
                        Ok(JobState { stage: "ERROR".to_owned(), message: Some(DIED.to_owned()) })
                    }
                },
            }
        },
        _ => Err(at),
    }
}

/// The lines of a log behind the first `skip`, and how many lines have been
/// seen then. Without a log nothing has been printed yet.
pub open spec fn new_lines(log: Option<Seq<char>>, skip: u64) -> (Seq<Seq<char>>, u64) {
    match log {
        Some(content) => {
            let lines = text::lines(content);
            if skip < lines.len() {
                (lines.skip(skip as int), lines.len() as u64)
            } else {
                (Seq::empty(), skip)
            }
        },
        None => (Seq::empty(), skip),
    }
}

/// The lines of a log behind the first `skip`, and how many lines have been
/// seen then.
pub fn stream_logs(log: Option<&str>, skip: u64) -> (r: (Vec<String>, u64))
    ensures
        (text::texts(r.0@), r.1) == new_lines(text::opt_str(log), skip),
{
    let mut out: Vec<String> = Vec::new();
    assert(text::texts(out@) =~= Seq::empty());
    match log {
        Some(content) => {
            let lines: Vec<String> = text::lines_of(content);
            let ghost all = text::texts(lines@);
            assert(all.len() == lines@.len());
            if skip < lines.len() as u64 {
                let from: usize = skip as usize;
                let mut i: usize = from;
                assert(text::texts(out@) =~= all.subrange(from as int, i as int));
                while i < lines.len()
                    invariant
                        from <= i <= lines@.len(),
                        all == text::texts(lines@),
                        all.len() == lines@.len(),
                        text::texts(out@) == all.subrange(from as int, i as int),
                    decreases lines@.len() - i,
                {
                    let ghost before = text::texts(out@);
                    let line: String = lines[i].clone();
                    out.push(line);
                    assert(text::texts(out@) =~= before.push(line@));
                    i += 1;
                    assert(text::texts(out@) =~= all.subrange(from as int, i as int));
                }
                assert(all.subrange(from as int, i as int) =~= all.skip(skip as int));
                (out, lines.len() as u64)
            } else {
                (out, skip)
            }
        },
        None => (out, skip),
    }
}

/// How a run is cancelled: the process that is recorded, and the commands that
/// end it with its descendants.
pub fn cancel_job(pid: &str, platform: Platform) -> (r: (String, Vec<CommandLine>))
    ensures
        r.0@ == text::trim(pid@),
        sys::command_models(r.1@) == sys::kill_attempts(text::trim(pid@), platform),
{
    let id: String = text::trim_text(pid);
    let commands: Vec<CommandLine> = sys::kill_tree(id.as_str(), platform);
    (id, commands)
}

/// What comes of cancelling a run: an error unless one of the commands
/// succeeded.
pub fn cancelled(pid: &str, killed: bool) -> (r: Result<(), String>)
    ensures
        match r {
            Ok(_) => killed,
            Err(e) => !killed && e@ == "Could not terminate local process tree "@ + pid@,
        },
{
    if killed {
        Ok(())
    } else {
        Err(text::concat2("Could not terminate local process tree ", pid))
    }
}

// ---------------------------------------------------------------------------
// Hardware
// ---------------------------------------------------------------------------

/// A graphics card.
#[derive(Debug, Clone)]
pub struct Gpu {
    pub name: String,
    pub mem_mib: Option<u64>,
}

/// The model of a [`Gpu`].
#[verifier::ext_equal]
pub struct GpuV {
    pub name: Seq<char>,
    pub mem_mib: Option<u64>,
}

impl View for Gpu {
    type V = GpuV;

    open spec fn view(&self) -> GpuV {
        GpuV { name: self.name@, mem_mib: self.mem_mib }
    }
}

/// The models of a sequence of graphics cards.
pub open spec fn gpu_models(v: Seq<Gpu>) -> Seq<GpuV> {
    Seq::new(v.len(), |i: int| v[i]@)
}

/// What this machine is.
#[derive(Debug, Clone)]
pub struct LocalHardware {
    pub hostname: String,
    pub os: &'static str,
    pub arch: &'static str,
    /// The name of the processor, where it is known.
    pub chip: Option<String>,
    pub cpu_count: usize,
    pub mem_bytes: Option<u64>,
    pub gpus: Vec<Gpu>,
}

/// The model of [`LocalHardware`].
#[verifier::ext_equal]
pub struct HardwareV {
    pub hostname: Seq<char>,
    pub os: Seq<char>,
    pub arch: Seq<char>,
    pub chip: Option<Seq<char>>,
    pub cpu_count: usize,
    pub mem_bytes: Option<u64>,
    pub gpus: Seq<GpuV>,
}

impl View for LocalHardware {
    type V = HardwareV;

    open spec fn view(&self) -> HardwareV {
        HardwareV {
            hostname: self.hostname@,
            os: self.os@,
            arch: self.arch@,
            chip: text::opt_text(self.chip),
            cpu_count: self.cpu_count,
            mem_bytes: self.mem_bytes,
            gpus: gpu_models(self.gpus@),
        }
    }
}

/// A number of 64 bits in decimal.
pub open spec fn parse_count(s: Seq<char>) -> Option<u64> {
    match text::parse_unsigned(s, u64::MAX as nat) {
        Some(n) => Some(n as u64),
        None => None,
    }
}

/// The graphics card of a line: a name, a comma and its memory. A line that is
/// different still gives a card, without its memory.
pub open spec fn gpu_of(line: Seq<char>) -> GpuV {
    match text::rsplit_once(line, ',') {
        Some((name, mem)) => GpuV { name: text::trim(name), mem_mib: parse_count(text::trim(mem)) },
        None => GpuV { name: text::trim(line), mem_mib: None },
    }
}

/// The graphics cards of a listing: one for each line that is not blank.
pub open spec fn gpus_of(lines: Seq<Seq<char>>) -> Seq<GpuV>
    decreases lines.len(),
{
    if lines.len() == 0 {
        Seq::empty()
    } else if text::trim(lines.last()).len() == 0 {
        gpus_of(lines.drop_last())
    } else {
        gpus_of(lines.drop_last()).push(gpu_of(lines.last()))
    }
}

fn gpu_in(line: &str) -> (r: Gpu)
    ensures
        r@ == gpu_of(line@),
{
    match text::rsplit_once_text(line, ',') {
        Some((name, mem)) => {
            let shown: String = text::trim_text(mem.as_str());
            Gpu {
                name: text::trim_text(name.as_str()),
                mem_mib: text::parse_u64(shown.as_str()),
            }
        },
        None => Gpu { name: text::trim_text(line), mem_mib: None },
    }
}

/// The graphics cards of a listing.
pub fn parse_nvidia_smi_csv(out: &str) -> (r: Vec<Gpu>)
    ensures
        gpu_models(r@) == gpus_of(text::lines(out@)),
{
    let lines: Vec<String> = text::lines_of(out);
    let ghost all = text::texts(lines@);
    let mut gpus: Vec<Gpu> = Vec::new();
    let mut i: usize = 0;
    assert(all.take(0) =~= Seq::empty());
    assert(gpu_models(gpus@) =~= Seq::empty());
    while i < lines.len()
        invariant
            i <= lines@.len(),
            all == text::texts(lines@),
            gpu_models(gpus@) == gpus_of(all.take(i as int)),
        decreases lines@.len() - i,
    {
        assert(all.take(i + 1).drop_last() =~= all.take(i as int));
        assert(all.take(i + 1).last() == lines@[i as int]@);
        let shown: String = text::trim_text(lines[i].as_str());
        if !shown.as_str().is_empty() {
            let ghost before = gpu_models(gpus@);
            let gpu: Gpu = gpu_in(lines[i].as_str());
            gpus.push(gpu);
            assert(gpu_models(gpus@) =~= before.push(gpu@));
        }
        i += 1;
    }
    assert(all.take(i as int) =~= all);
    gpus
}

/// The first line that starts with this.
pub open spec fn first_line(lines: Seq<Seq<char>>, start: Seq<char>) -> Option<Seq<char>>
    decreases lines.len(),
{
    if lines.len() == 0 {
        None
    } else if text::starts_with(lines[0], start) {
        Some(lines[0])
    } else {
        first_line(lines.drop_first(), start)
    }
}

/// The kilobytes of memory in a listing such as `/proc/meminfo`: the second
/// word of the line with the total.
pub open spec fn total_kb(raw: Seq<char>) -> Option<u64> {
    match first_line(text::lines(raw), "MemTotal:"@) {
        Some(line) => {
            let words = text::words(line);
            if words.len() > 1 {
                parse_count(words[1])
            } else {
                None
            }
        },
        None => None,
    }
}

fn line_starting(raw: &str, start: &str) -> (r: Option<String>)
    ensures
        text::opt_text(r) == first_line(text::lines(raw@), start@),
{
    let lines: Vec<String> = text::lines_of(raw);
    let ghost all = text::texts(lines@);
    let mut i: usize = 0;
    assert(all.skip(0) =~= all);
    while i < lines.len()
        invariant
            i <= lines@.len(),
            all == text::texts(lines@),
            all == text::lines(raw@),
            first_line(all, start@) == first_line(all.skip(i as int), start@),
        decreases lines@.len() - i,
    {
        assert(all.skip(i as int)[0] == lines@[i as int]@);
        assert(all.skip(i as int).drop_first() =~= all.skip(i + 1));
        if text::starts_with_text(lines[i].as_str(), start) {
            return Some(lines[i].clone());
        }
        i += 1;
    }
    None
}

/// The kilobytes of memory in a listing such as `/proc/meminfo`.
pub fn mem_total_kb(raw: &str) -> (r: Option<u64>)
    ensures
        r == total_kb(raw@),
{
    match line_starting(raw, "MemTotal:") {
        Some(line) => {
            let words: Vec<String> = text::words_of(line.as_str());
            assert(text::texts(words@).len() == words@.len());
            if words.len() > 1 {
                assert(text::texts(words@)[1] == words@[1]@);
                text::parse_u64(words[1].as_str())
            } else {
                None
            }
        },
        None => None,
    }
}

/// What a command that succeeded printed, if that is anything.
pub open spec fn printed(out: Option<Seq<char>>) -> Option<Seq<char>> {
    match out {
        Some(o) => if text::trim(o).len() == 0 {
            None
        } else {
            Some(text::trim(o))
        },
        None => None,
    }
}

/// What a command that succeeded printed, if that is anything.
pub fn probe_text(out: Option<&str>) -> (r: Option<String>)
    ensures
        text::opt_text(r) == printed(text::opt_str(out)),
{
    match out {
        Some(o) => {
            let shown: String = text::trim_text(o);
            if shown.as_str().is_empty() {
                None
            } else {
                Some(shown)
            }
        },
        None => None,
    }
}

/// What was found out about the machine: the output of each command that
/// succeeded, and the content of each file that could be read.
#[derive(Debug)]
pub struct MachineProbe {
    pub macos: bool,
    pub os: &'static str,
    pub arch: &'static str,
    pub cpu_count: usize,
    pub hostname: Option<String>,
    /// macOS: `sysctl -n hw.memsize`.
    pub memsize: Option<String>,
    /// Elsewhere: `/proc/meminfo`.
    pub meminfo: Option<String>,
    /// macOS: `sysctl -n machdep.cpu.brand_string`.
    pub brand: Option<String>,
    /// `nvidia-smi`, with names and memory as comma-separated values.
    pub gpus: Option<String>,
}

/// The memory of the machine in bytes.
pub open spec fn memory_of(p: MachineProbe) -> Option<int> {
    if p.macos {
        match printed(text::opt_text(p.memsize)) {
            Some(s) => match parse_count(s) {
                Some(n) => Some(n as int),
                None => None,
            },
            None => None,
        }
    } else {
        match text::opt_text(p.meminfo) {
            Some(raw) => match total_kb(raw) {
                Some(kb) => Some(kb * 1024),
                None => None,
            },
            None => None,
        }
    }
}

/// The memory of the machine can be counted in bytes.
pub open spec fn memory_in_range(p: MachineProbe) -> bool {
    memory_of(p) matches Some(n) ==> n <= u64::MAX
}

/// The memory of the machine can be counted in bytes.
pub fn memory_counts(p: &MachineProbe) -> (r: bool)
    ensures
        r == memory_in_range(*p),
{
    if p.macos {
        return true;
    }
    match &p.meminfo {
        Some(raw) => match mem_total_kb(raw.as_str()) {
            Some(kb) => kb <= u64::MAX / 1024,
            None => true,
        },
        None => true,
    }
}

/// What this machine is, by what was found out. What could not be found out
/// is left open, each thing by itself.
pub open spec fn hardware_of(p: MachineProbe) -> HardwareV {
    HardwareV {
        hostname: match printed(text::opt_text(p.hostname)) {
            Some(name) => name,
            None => "unknown"@,
        },
        os: p.os@,
        arch: p.arch@,
        chip: if p.macos {
            printed(text::opt_text(p.brand))
        } else {
            None
        },
        cpu_count: p.cpu_count,
        mem_bytes: match memory_of(p) {
            Some(n) => Some(n as u64),
            None => None,
        },
        gpus: match printed(text::opt_text(p.gpus)) {
            Some(out) => gpus_of(text::lines(out)),
            None => Seq::empty(),
        },
    }
}

/// What this machine is, by what was found out.
pub fn hardware_info(p: &MachineProbe) -> (r: LocalHardware)
    requires
        memory_in_range(*p),
    ensures
        r@ == hardware_of(*p),
{
    let hostname: String = match probe_text(text::opt_as_str(&p.hostname)) {
        Some(name) => name,
        None => "unknown".to_owned(),
    };
    let chip: Option<String> = if p.macos {
        probe_text(text::opt_as_str(&p.brand))
    } else {
        None
    };
    let mem_bytes: Option<u64> = if p.macos {
        match probe_text(text::opt_as_str(&p.memsize)) {
            Some(s) => text::parse_u64(s.as_str()),
            None => None,
        }
    } else {
        match &p.meminfo {
            Some(raw) => match mem_total_kb(raw.as_str()) {
                Some(kb) => Some(kb * 1024),
                None => None,
            },
            None => None,
        }
    };
    let gpus: Vec<Gpu> = match probe_text(text::opt_as_str(&p.gpus)) {
        Some(out) => parse_nvidia_smi_csv(out.as_str()),
        None => {
            let none: Vec<Gpu> = Vec::new();
            assert(gpu_models(none@) =~= Seq::empty());
            none
        },
    };
    LocalHardware {
        hostname,
        os: p.os,
        arch: p.arch,
        chip,
        cpu_count: p.cpu_count,
        mem_bytes,
        gpus,
    }
}

// ---------------------------------------------------------------------------
// Laws
// ---------------------------------------------------------------------------

/// A run's directory is one component below the directory of all runs: its
/// name has neither separators nor dots, whatever the run id.
pub proof fn run_dirs_stay_in_place(run_id: Seq<char>)
    ensures
        forall|i: int| 0 <= i < safe_id(run_id).len() ==> is_safe(#[trigger] safe_id(run_id)[i]),
        !safe_id(run_id).contains('/'),
        !safe_id(run_id).contains('\\'),
        !safe_id(run_id).contains('.'),
{
    broadcast use vstd::seq_lib::group_filter_ensures;

    let pred = |c: char| is_safe(c);
    let id = safe_id(run_id);
    assert(id == run_id.filter(pred));
    assert forall|i: int| 0 <= i < id.len() implies is_safe(#[trigger] id[i]) by {
        assert(pred(id[i]));
    }
}

/// A run id of safe characters names its directory as it is.
pub proof fn safe_ids_are_kept(run_id: Seq<char>)
    requires
        forall|i: int| 0 <= i < run_id.len() ==> is_safe(#[trigger] run_id[i]),
    ensures
        safe_id(run_id) == run_id,
    decreases run_id.len(),
{
    reveal(Seq::filter);
    if run_id.len() > 0 {
        let init = run_id.drop_last();
        assert forall|i: int| 0 <= i < init.len() implies is_safe(#[trigger] init[i]) by {
            assert(init[i] == run_id[i]);
        }
        safe_ids_are_kept(init);
        assert(is_safe(run_id[run_id.len() - 1]));
        assert(safe_id(run_id) =~= run_id);
    } else {
        assert(safe_id(run_id) =~= run_id);
    }
}

/// Python's output is never held back unless the run says so.
pub proof fn output_is_not_held_back(env: Seq<(Seq<char>, Seq<char>)>)
    ensures
        has_name(unbuffered(env), UNBUFFERED@),
        !has_name(env, UNBUFFERED@) ==> unbuffered(env).last() == (UNBUFFERED@, "1"@),
{
    if !has_name(env, UNBUFFERED@) {
        assert(unbuffered(env)[env.len() as int].0 == UNBUFFERED@);
    }
}

/// What is written of a run does not depend on its secrets.
pub proof fn secrets_are_not_written(
    a: LocalJobSpec,
    b: LocalJobSpec,
    dir: Seq<char>,
    platform: Platform,
)
    requires
        a.env@ == b.env@,
        a.script@ == b.script@,
    ensures
        run_files(
            launcher_text(unbuffered(env_texts(a.env@)), dir, a.script@, platform),
            a.script@,
            platform,
        ) == run_files(
            launcher_text(unbuffered(env_texts(b.env@)), dir, b.script@, platform),
            b.script@,
            platform,
        ),
{
}

/// A POSIX shell that runs the launcher reads each exported value as it was
/// given, whatever characters it has.
pub proof fn exported_values_read_back(name: Seq<char>, value: Seq<char>, rest: Seq<char>)
    requires
        rest.len() == 0 || (rest[0] != '\'' && rest[0] != '\\'),
    ensures
        ({
            let line = export_line((name, value), Platform::Unix) + rest;
            let at = ("export "@ + name + "="@).len() as int;
            line[at] == '\'' && sys::sh_read(line.skip(at + 1), true) == Some((value, rest))
        }),
{
    let start = "export "@ + name + "="@;
    let line = export_line((name, value), Platform::Unix) + rest;
    let at = start.len() as int;
    sys::sh_quoting_reads_back(value, rest);
    assert(sys::sh_quoted(value).len() > 0) by {
        reveal_strlit("'");
    }
    assert(line[at] == (sys::sh_quoted(value) + rest)[0]);
    assert(line.skip(at + 1) =~= (sys::sh_quoted(value) + rest).skip(1));
}

/// A line that was seen is not shown again: another look at the same log gives
/// nothing new, and at a longer one only what was added.
pub proof fn logs_are_shown_once(
    log: Seq<char>,
    longer: Seq<char>,
    more: Seq<Seq<char>>,
    skip: u64,
)
    requires
        text::lines(longer) == text::lines(log) + more,
        text::lines(longer).len() <= u64::MAX,
        skip <= text::lines(log).len(),
    ensures
        ({
            let (_, seen) = new_lines(Some(log), skip);
            &&& seen == text::lines(log).len()
            &&& new_lines(Some(log), seen) == (Seq::<Seq<char>>::empty(), seen)
            &&& new_lines(Some(longer), seen).0 == more
            &&& new_lines(None, seen) == (Seq::<Seq<char>>::empty(), seen)
        }),
{
    let (_, seen) = new_lines(Some(log), skip);
    assert((text::lines(log) + more).skip(text::lines(log).len() as int) =~= more);
    if more.len() == 0 {
        assert(more =~= Seq::empty());
    }
}

/// An exit code decides, whenever it is read.
pub proof fn exit_codes_decide(at: Inspection, raw: Seq<char>)
    requires
        at is ExitCode || at is Again,
        text::trim(raw).len() > 0,
    ensures
        inspected(at, FoundV::ExitCode(Some(raw))) is Ok,
        exit_code(raw) == 0 <==> inspected(at, FoundV::ExitCode(Some(raw))) == Ok::<
            StateV,
            Inspection,
        >(StateV { stage: "COMPLETED"@, message: None }),
{
    reveal_strlit("COMPLETED");
    reveal_strlit("ERROR");
    assert("COMPLETED"@.len() != "ERROR"@.len());
}

/// How far an inspection is from its end.
pub open spec fn steps_left(at: Inspection) -> nat {
    match at {
        Inspection::ExitCode => 257,
        Inspection::Process => 256,
        Inspection::Again(n) => n as nat,
    }
}

/// Every inspection comes to an end: what is found at a step that fits it
/// gives the state or brings the end nearer.
pub proof fn inspections_end(at: Inspection, found: FoundV)
    requires
        match at {
            Inspection::ExitCode => found is ExitCode,
            Inspection::Process => found is Process,
            Inspection::Again(_) => found is ExitCode,
        },
    ensures
        inspected(at, found) matches Err(next) ==> steps_left(next) < steps_left(at),
{
}

/// What an inspection comes to that starts at a step and finds these things,
/// one after the other.
pub open spec fn inspection(at: Inspection, found: Seq<FoundV>) -> Result<StateV, Inspection>
    decreases found.len(),
{
    if found.len() == 0 {
        Err(at)
    } else {
        match inspected(at, found[0]) {
            Ok(state) => Ok(state),
            Err(next) => inspection(next, found.drop_first()),
        }
    }
}

proof fn lemma_rereads(n: u8, raws: Seq<Option<Seq<char>>>)
    requires
        0 < n == raws.len(),
        forall|i: int| 0 <= i < raws.len() ==> ended(#[trigger] raws[i]) is None,
    ensures
        inspection(
            Inspection::Again(n),
            raws.map_values(|raw: Option<Seq<char>>| FoundV::ExitCode(raw)),
        ) == Ok::<StateV, Inspection>(died()),
    decreases n,
{
    let found = raws.map_values(|raw: Option<Seq<char>>| FoundV::ExitCode(raw));
    assert(found[0] == FoundV::ExitCode(raws[0]));
    if n > 1 {
        let rest = raws.drop_first();
        assert forall|i: int| 0 <= i < rest.len() implies ended(#[trigger] rest[i]) is None by {
            assert(rest[i] == raws[i + 1]);
        }
        lemma_rereads((n - 1) as u8, rest);
        assert(found.drop_first() =~= rest.map_values(
            |raw: Option<Seq<char>>| FoundV::ExitCode(raw),
        ));
    }
}

/// A run whose recorded process is gone and that has no exit code, however
/// often it is read, was killed or has crashed.
pub proof fn dead_runs_without_a_code_were_killed(
    first: Option<Seq<char>>,
    raws: Seq<Option<Seq<char>>>,
)
    requires
        ended(first) is None,
        raws.len() == REREADS,
        forall|i: int| 0 <= i < raws.len() ==> ended(#[trigger] raws[i]) is None,
    ensures
        inspection(
            Inspection::ExitCode,
            seq![FoundV::ExitCode(first), FoundV::Process(Some(false))] + raws.map_values(
                |raw: Option<Seq<char>>| FoundV::ExitCode(raw),
            ),
        ) == Ok::<StateV, Inspection>(died()),
{
    let again = raws.map_values(|raw: Option<Seq<char>>| FoundV::ExitCode(raw));
    let found = seq![FoundV::ExitCode(first), FoundV::Process(Some(false))] + again;
    reveal_with_fuel(inspection, 3);
    lemma_rereads(REREADS, raws);
    assert(found.drop_first().drop_first() =~= again);
}

/// A graphics card is never dropped: each line that is not blank gives one.
pub proof fn graphics_cards_are_kept(lines: Seq<Seq<char>>, line: Seq<char>)
    requires
        text::trim(line).len() > 0,
    ensures
        gpus_of(lines.push(line)) == gpus_of(lines).push(gpu_of(line)),
{
    assert(lines.push(line).drop_last() =~= lines);
}

/// A run id keeps its letters, digits, hyphens and underscores, in order, and
/// loses every other character. The runs are in a directory of their own.
pub proof fn run_ids_keep_their_safe_characters(run_id: Seq<char>, c: char)
    ensures
        ({
            let safe = 'a' <= c <= 'z' || 'A' <= c <= 'Z' || '0' <= c <= '9' || c == '-' || c
                == '_';
            let path = run_components(run_id.push(c));
            &&& path.len() == 2
            &&& path[0] == "local-runs"@
            &&& safe ==> path[1] == run_components(run_id)[1].push(c)
            &&& !safe ==> path[1] == run_components(run_id)[1]
        }),
{
    reveal(Seq::filter);
    assert(run_id.push(c).drop_last() =~= run_id);
}

/// The variables of a run stay as they are given, and at most one is added.
pub proof fn variables_are_kept(env: Seq<(Seq<char>, Seq<char>)>)
    ensures
        unbuffered(env).take(env.len() as int) == env,
        unbuffered(env).len() <= env.len() + 1,
        (exists|i: int| 0 <= i < env.len() && (#[trigger] env[i]).0 == "PYTHONUNBUFFERED"@)
            ==> unbuffered(env) == env,
        (forall|i: int| 0 <= i < env.len() ==> (#[trigger] env[i]).0 != "PYTHONUNBUFFERED"@)
            ==> unbuffered(env) == env.push(("PYTHONUNBUFFERED"@, "1"@)),
{
    assert(unbuffered(env).take(env.len() as int) =~= env);
}

proof fn lemma_joined(lines: Seq<Seq<char>>, sep: Seq<char>, i: int)
    requires
        0 <= i < lines.len(),
    ensures
        text::contains(text::join(lines, sep), lines[i]),
    decreases lines.len(),
{
    let all = text::join(lines, sep);
    let none = Seq::<char>::empty();
    if lines.len() == 1 {
        assert(all == lines.last());
        assert(none + lines[i] + none =~= all);
        text::phrases_are_found(none, lines[i], none);
    } else {
        let init = lines.drop_last();
        let start = text::join(init, sep) + sep;
        if i == lines.len() - 1 {
            assert(start + lines[i] + none =~= all);
            text::phrases_are_found(start, lines[i], none);
        } else {
            assert(init[i] == lines[i]);
            lemma_joined(init, sep, i);
            let k = choose|k: int| text::occurs_at(text::join(init, sep), lines[i], k);
            let n = lines[i].len();
            assert(all.subrange(k, k + n) =~= text::join(init, sep).subrange(k, k + n));
            assert(text::occurs_at(all, lines[i], k));
        }
    }
}

proof fn lemma_deeper(a: Seq<char>, s: Seq<char>, b: Seq<char>, p: Seq<char>)
    requires
        text::contains(s, p),
    ensures
        text::contains(a + s + b, p),
{
    let k = choose|k: int| text::occurs_at(s, p, k);
    let all = a + s + b;
    let n = a.len() as int;
    assert(all.subrange(n + k, n + k + p.len()) =~= s.subrange(k, k + p.len()));
    assert(text::occurs_at(all, p, n + k));
}

/// Every variable is set by the launcher, in a line of its own.
pub proof fn launchers_set_every_variable(
    env: Seq<(Seq<char>, Seq<char>)>,
    dir: Seq<char>,
    script: Seq<char>,
    i: int,
)
    requires
        0 <= i < env.len(),
    ensures
        text::contains(
            launcher_text(env, dir, script, Platform::Unix),
            "export "@ + env[i].0 + "="@ + sys::sh_quoted(env[i].1),
        ),
        text::contains(
            launcher_text(env, dir, script, Platform::Windows),
            "$env:"@ + env[i].0 + " = "@ + sys::ps_quoted(env[i].1),
        ),
{
    let unix = export_lines(env, Platform::Unix);
    let windows = export_lines(env, Platform::Windows);
    lemma_joined(unix, "\n"@, i);
    lemma_joined(windows, "\r\n"@, i);
    let head = "#!/usr/bin/env bash\n"@;
    let tail = "\ncd "@ + sys::sh_quoted(dir) + " || exit 97\n(\n"@ + script
        + "\n) > log 2>&1\necho $? > exit_code\n"@;
    assert(launcher_text(env, dir, script, Platform::Unix) =~= head + text::join(unix, "\n"@)
        + tail);
    lemma_deeper(head, text::join(unix, "\n"@), tail, unix[i]);
    lemma_deeper(WINDOWS_HEAD@, text::join(windows, "\r\n"@), WINDOWS_BODY@, windows[i]);
    assert(windows[i] == "$env:"@ + env[i].0 + " = "@ + sys::ps_quoted(env[i].1));
    assert(unix[i] == "export "@ + env[i].0 + "="@ + sys::sh_quoted(env[i].1));
}

/// On Unix the launcher ends in this order: it goes to the run's directory or
/// stops, runs the script as it was given with all its output in the log, and
/// writes the script's exit code. On Windows the script is a file of its own.
pub proof fn launchers_run_the_script_in_its_place(
    env: Seq<(Seq<char>, Seq<char>)>,
    dir: Seq<char>,
    script: Seq<char>,
)
    ensures
        ({
            let unix = launcher_text(env, dir, script, Platform::Unix);
            let tail = "\ncd "@ + sys::sh_quoted(dir) + " || exit 97\n(\n"@ + script
                + "\n) > log 2>&1\necho $? > exit_code\n"@;
            &&& tail.len() <= unix.len()
            &&& unix.skip(unix.len() - tail.len()) == tail
            &&& text::starts_with(unix, "#!/usr/bin/env bash\n"@)
            &&& run_files(unix, script, Platform::Unix) == seq![
                (FileV { name: "run.sh"@, content: unix, mode: Some(0o600u32) }),
            ]
            &&& run_files(unix, script, Platform::Windows) == seq![
                (FileV { name: "run.ps1"@, content: unix, mode: None }),
                (FileV { name: "payload.ps1"@, content: script, mode: None }),
            ]
        }),
{
    let unix = launcher_text(env, dir, script, Platform::Unix);
    let head = "#!/usr/bin/env bash\n"@ + text::join(export_lines(env, Platform::Unix), "\n"@);
    let tail = "\ncd "@ + sys::sh_quoted(dir) + " || exit 97\n(\n"@ + script
        + "\n) > log 2>&1\necho $? > exit_code\n"@;
    assert(unix =~= head + tail);
    assert(unix.skip(unix.len() - tail.len()) =~= tail);
    let first = "#!/usr/bin/env bash\n"@;
    assert(unix.take(first.len() as int) =~= first);
}

/// What is started is the launcher that was written.
pub proof fn the_launcher_is_started(launcher: Seq<char>, script: Seq<char>, platform: Platform)
    ensures
        run_command(platform).args.last() == run_files(launcher, script, platform)[0].name,
        run_files(launcher, script, platform)[0].content == launcher,
        platform == Platform::Windows ==> run_command(platform).program == "powershell.exe"@,
        platform != Platform::Windows ==> run_command(platform).program == "bash"@
            && run_command(platform).args.len() == 1,
{
}

/// How a run ended is told by its exit code: zero is success, any other code
/// is an error that names it, and what is no code is an error too.
pub proof fn exit_codes_tell_how_it_ended(raw: Seq<char>, code: int)
    requires
        i32::MIN <= code <= i32::MAX,
        text::trim(raw) == text::signed_decimal(code),
    ensures
        code == 0 ==> ended(Some(raw)) == Some((StateV { stage: "COMPLETED"@, message: None })),
        code != 0 ==> ended(Some(raw)) == Some(
            (StateV {
                stage: "ERROR"@,
                message: Some("exited with code "@ + text::signed_decimal(code)),
            }),
        ),
        ended(None) is None,
{
    text::signed_numbers_read_back(code, raw, 0);
    text::decimal_reads_back(
        (if code < 0 {
            -code
        } else {
            code
        }) as nat,
    );
}

/// A file that holds no code is an error, and an empty one is none yet.
pub proof fn garbage_is_no_success(raw: Seq<char>, i: int)
    ensures
        text::trim(raw).len() == 0 ==> ended(Some(raw)) is None,
        0 < i < text::trim(raw).len() && !('0' <= text::trim(raw)[i] <= '9') ==> (ended(Some(raw))
            matches Some(state) && state.stage == "ERROR"@ && state.message == Some(
            "exited with code -1"@,
        )),
{
    let t = text::trim(raw);
    text::signed_numbers_read_back(0, t, i);
    if 0 < i < t.len() && !('0' <= t[i] <= '9') {
        reveal_strlit("exited with code -1");
        reveal_strlit("exited with code ");
        let one = text::signed_decimal(-1);
        assert(one =~= seq!['-', '1']);
        assert("exited with code "@ + one =~= "exited with code -1"@);
    }
}

/// A run without an exit code is going on while its process is alive, and as
/// long as no process is recorded; once the process is gone, the code is read
/// again before the run counts as ended.
pub proof fn runs_go_on_while_they_live(raw: Option<Seq<char>>, n: u8)
    requires
        ended(raw) is None,
    ensures
        ({
            let on = Ok::<StateV, Inspection>(StateV { stage: "RUNNING"@, message: None });
            &&& inspected(Inspection::ExitCode, FoundV::ExitCode(raw)) == Err::<
                StateV,
                Inspection,
            >(Inspection::Process)
            &&& inspected(Inspection::Process, FoundV::Process(Some(true))) == on
            &&& inspected(Inspection::Process, FoundV::Process(None)) == on
            &&& inspected(Inspection::Process, FoundV::Process(Some(false))) matches Err(
                Inspection::Again(k),
            ) && k > 0
            &&& n > 1 ==> inspected(Inspection::Again(n), FoundV::ExitCode(raw)) == Err::<
                StateV,
                Inspection,
            >(Inspection::Again((n - 1) as u8))
            &&& n <= 1 ==> (inspected(Inspection::Again(n), FoundV::ExitCode(raw)) matches Ok(state)
                && state.stage == "ERROR"@ && state.message is Some)
        }),
{
}

/// A graphics card is read from its line: the name, which may have commas, and
/// behind the last comma its memory, if that is a number.
pub proof fn graphics_cards_are_read(name: Seq<char>, n: u64, note: Seq<char>)
    requires
        name.len() > 0,
        !text::is_white(name[0]),
        !text::is_white(name.last()),
    ensures
        gpu_of(name + seq![',', ' '] + text::decimal(n as nat)) == (GpuV {
            name,
            mem_mib: Some(n),
        }),
        !name.contains(',') ==> gpu_of(name) == (GpuV { name, mem_mib: None }),
        note.len() > 0 && !text::is_white(note[0]) && !text::is_white(note.last())
            && !note.contains(',') && note[0] != '+' && !('0' <= note[0] <= '9') ==> gpu_of(
            name + seq![','] + note,
        ) == (GpuV { name, mem_mib: None }),
{
    text::trimmed_texts_stay(name);
    let digits = text::decimal(n as nat);
    text::decimal_reads_back(n as nat);
    let mem = seq![' '] + digits;
    if mem.contains(',') {
        let k = choose|k: int| 0 <= k < mem.len() && mem[k] == ',';
        assert(text::is_digit(digits[k - 1]));
    }
    lemma_behind_comma(name, mem);
    assert(name + seq![',', ' '] + digits =~= name + seq![','] + mem);
    assert(text::trim_start(mem) == digits) by {
        assert(mem.drop_first() =~= digits);
        assert(mem[0] == ' ');
        assert(text::is_digit(digits[0]));
        assert(text::trim_start(digits) == digits);
    }
    assert(text::is_digit(digits[digits.len() - 1]));
    assert(text::trim_end(digits) == digits);
    text::numbers_read_back(n as nat, u64::MAX as nat, note, 0);
    if !name.contains(',') {
        text::splits_read_back(name, ',');
        if text::rsplit_once(name, ',') is Some {
            let (a, b) = text::rsplit_once(name, ',')->0;
            assert(name[a.len() as int] == ',');
        }
    }
    if note.len() > 0 && !text::is_white(note[0]) && !text::is_white(note.last())
        && !note.contains(',') && note[0] != '+' && !('0' <= note[0] <= '9') {
        lemma_behind_comma(name, note);
        text::trimmed_texts_stay(note);
    }
}

proof fn lemma_behind_comma(a: Seq<char>, b: Seq<char>)
    requires
        !b.contains(','),
    ensures
        text::rsplit_once(a + seq![','] + b, ',') == Some((a, b)),
{
    let s = a + seq![','] + b;
    let n = a.len() as int;
    text::splits_read_back(s, ',');
    assert(s[n] == ',');
    assert(s.contains(','));
    let (x, y) = text::rsplit_once(s, ',')->0;
    let m = x.len() as int;
    assert(s[m] == ',');
    if m < n {
        assert(y[n - m - 1] == s[n]);
        assert(y.contains(','));
    }
    if m > n {
        assert(b[m - n - 1] == s[m]);
        assert(b.contains(','));
    }
    assert(a =~= s.take(n));
    assert(x =~= s.take(m));
    assert(b =~= s.skip(n + 1));
    assert(y =~= s.skip(m + 1));
}

/// A blank line is no graphics card.
pub proof fn blank_lines_are_no_cards(lines: Seq<Seq<char>>, line: Seq<char>)
    requires
        text::trim(line).len() == 0,
    ensures
        gpus_of(lines.push(line)) == gpus_of(lines),
        gpus_of(Seq::empty()) == Seq::<GpuV>::empty(),
{
    assert(lines.push(line).drop_last() =~= lines);
}

proof fn lemma_line_found(lines: Seq<Seq<char>>, start: Seq<char>, i: int)
    requires
        0 <= i < lines.len(),
        text::starts_with(lines[i], start),
        forall|j: int| 0 <= j < i ==> !text::starts_with(#[trigger] lines[j], start),
    ensures
        first_line(lines, start) == Some(lines[i]),
    decreases lines.len(),
{
    if i > 0 {
        assert(!text::starts_with(lines[0], start));
        let rest = lines.drop_first();
        assert(rest[i - 1] == lines[i]);
        assert forall|j: int| 0 <= j < i - 1 implies !text::starts_with(
            #[trigger] rest[j],
            start,
        ) by {
            assert(rest[j] == lines[j + 1]);
        }
        lemma_line_found(rest, start, i - 1);
    }
}

/// The memory of a machine is the number behind the word for its total, in the
/// first line that begins with it, wherever that line stands. It is counted in
/// kilobytes there.
pub proof fn the_total_is_found(raw: Seq<char>, i: int, kb: u64, rest: Seq<char>)
    requires
        0 <= i < text::lines(raw).len(),
        text::lines(raw)[i] == "MemTotal:"@ + seq![' '] + text::decimal(kb as nat) + seq![' ']
            + rest,
        forall|j: int|
            0 <= j < i ==> !text::starts_with(#[trigger] text::lines(raw)[j], "MemTotal:"@),
    ensures
        total_kb(raw) == Some(kb),
{
    let lines = text::lines(raw);
    let line = lines[i];
    let word = "MemTotal:"@;
    let digits = text::decimal(kb as nat);
    reveal_strlit("MemTotal:");
    assert(line.take(word.len() as int) =~= word);
    lemma_line_found(lines, word, i);
    text::decimal_reads_back(kb as nat);
    assert forall|k: int| 0 <= k < digits.len() implies !text::is_white(#[trigger] digits[k]) by {
        assert(text::is_digit(digits[k]));
    }
    text::words_are_read_one_by_one(' ', word, digits + seq![' '] + rest);
    assert(line =~= word + seq![' '] + (digits + seq![' '] + rest));
    text::words_are_read_one_by_one(' ', digits, rest);
    assert(text::words(line)[1] == digits);
    text::numbers_read_back(kb as nat, u64::MAX as nat, rest, 0);
}

/// What is told of a machine: what the tools printed, without the white space
/// around it. The memory is in bytes: on a Mac that is what is printed, and
/// elsewhere it is kilobytes. What is not known is left open, but for the name.
pub proof fn machines_are_told(p: MachineProbe, kb: u64, bytes: u64)
    requires
        memory_in_range(p),
    ensures
        ({
            let told = hardware_of(p);
            let shown = |out: Option<String>|
                match out {
                    Some(o) => if text::trim(o@).len() == 0 {
                        None
                    } else {
                        Some(text::trim(o@))
                    },
                    None => None,
                };
            &&& shown(p.hostname) is Some ==> Some(told.hostname) == shown(p.hostname)
            &&& shown(p.hostname) is None ==> told.hostname == "unknown"@
            &&& p.macos ==> told.chip == shown(p.brand)
            &&& !p.macos ==> told.chip is None
            &&& told.cpu_count == p.cpu_count
            &&& told.os == p.os@ && told.arch == p.arch@
            &&& p.macos && shown(p.memsize) == Some(text::decimal(bytes as nat))
                ==> told.mem_bytes == Some(bytes)
            &&& !p.macos && (p.meminfo matches Some(raw) && total_kb(raw@) == Some(kb)) ==> (
            told.mem_bytes matches Some(n) && n == kb * 1024)
            &&& !p.macos && p.meminfo is None ==> told.mem_bytes is None
            &&& p.gpus is None ==> told.gpus.len() == 0
        }),
{
    text::numbers_read_back(bytes as nat, u64::MAX as nat, Seq::empty(), 0);
}

/// Every variable of a run is set by the launcher that is written for it, and
/// so is the one that keeps Python's output from being held back.
pub proof fn written_launchers_set_every_variable(
    env: Seq<(Seq<char>, Seq<char>)>,
    dir: Seq<char>,
    script: Seq<char>,
    i: int,
)
    ensures
        ({
            let unix = job_files(env, dir, script, Platform::Unix);
            let windows = job_files(env, dir, script, Platform::Windows);
            &&& unix.len() == 1
            &&& windows.len() == 2
            &&& windows[1].content == script
            &&& 0 <= i < env.len() ==> text::contains(
                unix[0].content,
                "export "@ + env[i].0 + "="@ + sys::sh_quoted(env[i].1),
            ) && text::contains(
                windows[0].content,
                "$env:"@ + env[i].0 + " = "@ + sys::ps_quoted(env[i].1),
            )
            &&& (forall|k: int|
                0 <= k < env.len() ==> (#[trigger] env[k]).0 != "PYTHONUNBUFFERED"@)
                ==> text::contains(
                unix[0].content,
                "export "@ + "PYTHONUNBUFFERED"@ + "="@ + sys::sh_quoted("1"@),
            )
        }),
{
    let full = unbuffered(env);
    variables_are_kept(env);
    if 0 <= i < env.len() {
        assert(full[i] == full.take(env.len() as int)[i]);
        launchers_set_every_variable(full, dir, script, i);
    }
    if forall|k: int| 0 <= k < env.len() ==> (#[trigger] env[k]).0 != "PYTHONUNBUFFERED"@ {
        launchers_set_every_variable(full, dir, script, env.len() as int);
    }
}

/// What is written of a run is the owner's alone on Unix.
pub proof fn runs_belong_to_their_owner(platform: Platform)
    ensures
        platform != Platform::Windows ==> job_dir_mode(platform) == Some(0o700u32),
        platform == Platform::Windows ==> job_dir_mode(platform) is None,
        platform == Platform::Windows ==> run_command(platform).args == seq![
            "-NoLogo"@,
            "-NoProfile"@,
            "-NonInteractive"@,
            "-ExecutionPolicy"@,
            "Bypass"@,
            "-File"@,
            "run.ps1"@,
        ],
        platform != Platform::Windows ==> run_command(platform).args == seq!["run.sh"@],
{
}

/// Only a memory that cannot be counted in bytes is too large.
pub proof fn countable_memory_is_told(p: MachineProbe)
    ensures
        p.macos ==> memory_in_range(p),
        p.meminfo is None ==> memory_in_range(p),
        p.meminfo matches Some(raw) ==> ((total_kb(raw@) matches Some(kb) ==> kb * 1024 <= u64::MAX)
            ==> memory_in_range(p)),
{
}

/// A run that was killed is told as an error that says so.
pub proof fn killed_runs_are_told()
    ensures
        died().stage == "ERROR"@,
        died().message == Some("process died without an exit code (killed?)"@),
{
}

} // verus!
