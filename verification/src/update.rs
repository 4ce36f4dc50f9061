//! Updating in place: what an update does step by step, and what is recorded
//! of it.

use vstd::prelude::*;

use crate::localbox;
use crate::sys::{CommandLine, CommandV, Platform};
use crate::text;

verus! {

// ---------------------------------------------------------------------------
// The command
// ---------------------------------------------------------------------------

/// How the update was asked for.
#[derive(Clone, Copy, Debug, PartialEq, Eq, Structural)]
pub struct UpdateArgs {
    /// Only tell what would be done.
    pub dry_run: bool,
    /// Nobody is watching.
    pub background: bool,
    /// Update an installation that would be refused otherwise.
    pub force: bool,
}

/// What came of an update that did not fail.
#[derive(Clone, Copy, Debug, PartialEq, Eq, Structural)]
pub enum Outcome {
    Done,
    /// Another update is going on.
    Contended,
}

/// What is recorded of an update, so that one that keeps failing backs off.
#[derive(Clone, Copy, Debug, PartialEq, Eq, Structural)]
pub enum Record {
    Nothing,
    Contended,
    Attempt(bool),
}

/// Told where updates are switched off.
pub const DISABLED: &'static str = "Updates are disabled for this install (OPENRESEARCH_CLI_DISABLE_UPDATE=1).";

/// Told where another update is going on.
pub const ALREADY_RUNNING: &'static str = "Another `orx update` is already running.";

/// Updates are refused where the switch says so, before anything is tried.
pub fn check_enabled(switch: Option<&str>) -> (r: Result<(), String>)
    ensures
        match r {
            Ok(_) => text::opt_str(switch) != Some("1"@),
            Err(e) => text::opt_str(switch) == Some("1"@) && e@ == DISABLED@,
        },
{
    if text::opt_is(switch, "1") {
        Err(DISABLED.to_owned())
    } else {
        Ok(())
    }
}

/// What is recorded: nothing of a dry run, and of an update that another one
/// was in the way of only that.
pub open spec fn recorded(dry_run: bool, result: Result<Outcome, Seq<char>>) -> Record {
    if dry_run {
        Record::Nothing
    } else {
        match result {
            Ok(Outcome::Contended) => Record::Contended,
            Ok(Outcome::Done) => Record::Attempt(true),
            Err(_) => Record::Attempt(false),
        }
    }
}

/// What the user is told in the end. That another update is going on is an
/// error only where somebody is watching.
pub open spec fn reported(background: bool, result: Result<Outcome, Seq<char>>) -> Result<
    (),
    Seq<char>,
> {
    match result {
        Ok(Outcome::Contended) => if background {
            Ok(())
        } else {
            Err(ALREADY_RUNNING@)
        },
        Ok(Outcome::Done) => Ok(()),
        Err(e) => Err(e),
    }
}

/// The model of the result of an update.
pub open spec fn result_model(r: Result<Outcome, String>) -> Result<Outcome, Seq<char>> {
    match r {
        Ok(o) => Ok(o),
        Err(e) => Err(e@),
    }
}

/// The model of the result of the command.
pub open spec fn unit_model(r: Result<(), String>) -> Result<(), Seq<char>> {
    match r {
        Ok(_) => Ok(()),
        Err(e) => Err(e@),
    }
}

/// End the command: what is recorded, and what the user is told.
pub fn run(args: UpdateArgs, result: Result<Outcome, String>) -> (r: (Record, Result<(), String>))
    ensures
        r.0 == recorded(args.dry_run, result_model(result)),
        unit_model(r.1) == reported(args.background, result_model(result)),
{
    let record: Record = if args.dry_run {
        Record::Nothing
    } else {
        match &result {
            Ok(Outcome::Contended) => Record::Contended,
            Ok(Outcome::Done) => Record::Attempt(true),
            Err(_) => Record::Attempt(false),
        }
    };
    let told: Result<(), String> = match result {
        Ok(Outcome::Contended) => if args.background {
            Ok(())
        } else {
            Err(ALREADY_RUNNING.to_owned())
        },
        Ok(Outcome::Done) => Ok(()),
        Err(e) => Err(e),
    };
    (record, told)
}

// ---------------------------------------------------------------------------
// Names and commands
// ---------------------------------------------------------------------------

/// The lock that one update of a channel holds.
pub fn lock_name(channel: Option<&str>) -> (r: String)
    ensures
        r@ == "update-"@ + (match text::opt_str(channel) {
            Some(c) => c,
            None => "unknown"@,
        }) + ".lock"@,
{
    let channel: &str = match channel {
        Some(c) => c,
        None => "unknown",
    };
    text::concat3("update-", channel, ".lock")
}

/// The extension of a script.
pub open spec fn script_extension(platform: Platform) -> Seq<char> {
    if platform == Platform::Windows {
        ".ps1"@
    } else {
        ".sh"@
    }
}

fn extension_for(platform: Platform) -> (r: &'static str)
    ensures
        r@ == script_extension(platform),
{
    if platform == Platform::Windows {
        ".ps1"
    } else {
        ".sh"
    }
}

/// The release's installer.
pub fn installer_name(app: &str, platform: Platform) -> (r: String)
    ensures
        r@ == app@ + "-installer"@ + script_extension(platform),
{
    text::concat3(app, "-installer", extension_for(platform))
}

/// A lower-case hexadecimal digit.
pub open spec fn is_hex(c: char) -> bool {
    ('0' <= c && c <= '9') || ('a' <= c && c <= 'f')
}

/// A UUID in its usual form: groups of hexadecimal digits with hyphens
/// between them.
pub open spec fn is_uuid(s: Seq<char>) -> bool {
    &&& s.len() == 36
    &&& forall|i: int|
        0 <= i < 36 ==> if i == 8 || i == 13 || i == 18 || i == 23 {
            #[trigger] s[i] == '-'
        } else {
            is_hex(s[i])
        }
}

/// `uuid::Uuid::new_v4` and its `Display`: a random UUID, hyphenated and in
/// lower case. Which one is left to chance. It does not return where the
/// machine has no random numbers to give.
#[verifier::external_body]
fn random_uuid() -> (r: String)
    ensures
        is_uuid(r@),
{
    uuid::Uuid::new_v4().to_string()
}

/// The file that an installer is stored in, given something that tells it
/// apart.
pub open spec fn script_file(mark: Seq<char>, platform: Platform) -> Seq<char> {
    "orx-installer-"@ + mark + script_extension(platform)
}

/// The file that an installer is stored in.
pub fn script_name(mark: &str, platform: Platform) -> (r: String)
    ensures
        r@ == script_file(mark@, platform),
{
    text::concat3("orx-installer-", mark, extension_for(platform))
}

/// A new file to store an installer in.
pub fn fresh_script_name(platform: Platform) -> (r: String)
    ensures
        exists|mark: Seq<char>| is_uuid(mark) && r@ == script_file(mark, platform),
{
    let mark: String = random_uuid();
    let r: String = script_name(mark.as_str(), platform);
    assert(is_uuid(mark@) && r@ == script_file(mark@, platform));
    r
}

/// The name under which the running program is kept aside.
pub open spec fn aside_file(name: Seq<char>, mark: Seq<char>) -> Seq<char> {
    name + ".orx-previous-"@ + mark + ".exe"@
}

/// The name under which the running program is kept aside.
pub fn aside_name(name: &str, mark: &str) -> (r: String)
    ensures
        r@ == aside_file(name@, mark@),
{
    let start: String = text::concat3(name, ".orx-previous-", mark);
    text::concat2(start.as_str(), ".exe")
}

/// Told where the running program has no usable name.
pub const BAD_NAME: &'static str = "The running orx binary has an invalid filename.";

/// A new name under which the running program is kept aside. It has to have a
/// name of its own.
pub fn move_running_executable(name: Option<&str>) -> (r: Result<String, String>)
    ensures
        match (r, text::opt_str(name)) {
            (Ok(aside), Some(n)) => exists|mark: Seq<char>|
                is_uuid(mark) && aside@ == aside_file(n, mark),
            (Err(e), None) => e@ == BAD_NAME@,
            _ => false,
        },
{
    match name {
        Some(n) => {
            let mark: String = random_uuid();
            let aside: String = aside_name(n, mark.as_str());
            assert(is_uuid(mark@) && aside@ == aside_file(n@, mark@));
            Ok(aside)
        },
        None => Err(BAD_NAME.to_owned()),
    }
}

/// What is known of an installation.
#[derive(Debug)]
pub struct Receipt {
    pub install_prefix: String,
    /// The installer may change the search path.
    pub modify_path: bool,
}

/// The model of a [`Receipt`].
#[verifier::ext_equal]
pub struct ReceiptV {
    pub install_prefix: Seq<char>,
    pub modify_path: bool,
}

impl View for Receipt {
    type V = ReceiptV;

    open spec fn view(&self) -> ReceiptV {
        ReceiptV { install_prefix: self.install_prefix@, modify_path: self.modify_path }
    }
}

/// How the installer is run.
#[derive(Debug)]
pub struct InstallerRun {
    pub command: CommandLine,
    /// Variables that are set for it.
    pub env: Vec<(String, String)>,
    /// Variables that are kept from it.
    pub removed: Vec<String>,
    /// Its output is thrown away.
    pub silent: bool,
}

/// The command that runs an installer.
pub open spec fn installer_command(script: Seq<char>, platform: Platform) -> CommandV {
    if platform == Platform::Windows {
        CommandV {
            program: "powershell.exe"@,
            args: seq![
                "-NoLogo"@,
                "-NoProfile"@,
                "-NonInteractive"@,
                "-ExecutionPolicy"@,
                "Bypass"@,
                "-File"@,
                script,
            ],
        }
    } else {
        CommandV { program: "sh"@, args: seq![script] }
    }
}

/// The variables for an installer: where to install, and that the search path
/// stays as it is, in the spellings of all installers.
pub open spec fn installer_env(receipt: ReceiptV) -> Seq<(Seq<char>, Seq<char>)> {
    let place = seq![("CARGO_DIST_FORCE_INSTALL_DIR"@, receipt.install_prefix)];
    if receipt.modify_path {
        place
    } else {
        place.push(("CARGO_DIST_NO_MODIFY_PATH"@, "1"@)).push(
            ("INSTALLER_NO_MODIFY_PATH"@, "1"@),
        ).push(("OPENRESEARCH_CLI_NO_MODIFY_PATH"@, "1"@))
    }
}

/// The variables that are kept from an installer: on Windows a module path
/// that is meant for another PowerShell.
pub open spec fn installer_removed(platform: Platform) -> Seq<Seq<char>> {
    if platform == Platform::Windows {
        seq!["PSModulePath"@]
    } else {
        Seq::empty()
    }
}

fn push_variable(env: &mut Vec<(String, String)>, name: &str, value: &str)
    ensures
        localbox::env_texts(final(env)@) == localbox::env_texts(old(env)@).push((name@, value@)),
{
    let ghost before = localbox::env_texts(env@);
    env.push((name.to_owned(), value.to_owned()));
    assert(localbox::env_texts(env@) =~= before.push((name@, value@)));
}

/// How the installer is run.
pub fn installer_run(
    script: &str,
    receipt: &Receipt,
    platform: Platform,
    background: bool,
) -> (r: InstallerRun)
    ensures
        r.command@ == installer_command(script@, platform),
        localbox::env_texts(r.env@) == installer_env(receipt@),
        text::texts(r.removed@) == installer_removed(platform),
        r.silent == background,
{
    let mut removed: Vec<String> = Vec::new();
    assert(text::texts(removed@) =~= Seq::empty());
    let command: CommandLine = if platform == Platform::Windows {
        text::push_text(&mut removed, "PSModulePath");
        CommandLine {
            program: "powershell.exe".to_owned(),
            args: localbox::powershell_args(script),
        }
    } else {
        let mut args: Vec<String> = Vec::new();
        assert(text::texts(args@) =~= Seq::empty());
        text::push_text(&mut args, script);
        assert(text::texts(args@) =~= seq![script@]);
        CommandLine { program: "sh".to_owned(), args }
    };
    assert(text::texts(removed@) =~= installer_removed(platform));
    let mut env: Vec<(String, String)> = Vec::new();
    assert(localbox::env_texts(env@) =~= Seq::empty());
    push_variable(&mut env, "CARGO_DIST_FORCE_INSTALL_DIR", receipt.install_prefix.as_str());
    assert(localbox::env_texts(env@) =~= seq![
        ("CARGO_DIST_FORCE_INSTALL_DIR"@, receipt.install_prefix@),
    ]);
    if !receipt.modify_path {
        push_variable(&mut env, "CARGO_DIST_NO_MODIFY_PATH", "1");
        push_variable(&mut env, "INSTALLER_NO_MODIFY_PATH", "1");
        push_variable(&mut env, "OPENRESEARCH_CLI_NO_MODIFY_PATH", "1");
    }
    InstallerRun { command, env, removed, silent: background }
}

// ---------------------------------------------------------------------------
// The steps of an update
// ---------------------------------------------------------------------------

/// A release.
#[derive(Debug)]
pub struct Release {
    pub version: String,
    pub tag: String,
    /// What is installed is older.
    pub outdated: bool,
}

/// The model of a [`Release`].
#[verifier::ext_equal]
pub struct ReleaseV {
    pub version: Seq<char>,
    pub tag: Seq<char>,
    pub outdated: bool,
}

impl View for Release {
    type V = ReleaseV;

    open spec fn view(&self) -> ReleaseV {
        ReleaseV { version: self.version@, tag: self.tag@, outdated: self.outdated }
    }
}

/// What is updated.
#[derive(Debug)]
pub enum UpdateTarget {
    /// An application bundle.
    AppBundle(String),
    /// What an installer installed.
    Installer(Receipt),
}

/// Where an update is.
#[derive(Debug)]
pub enum UpdateState {
    /// The lock is to be taken.
    Lock,
    /// The installation is to be looked at.
    Preflight,
    /// This bundle is to be updated.
    Bundle(String),
    /// The latest release is to be asked for.
    Latest(Receipt),
    /// The release's installer is to be stored.
    Download(Receipt, Release),
    /// The running program is to be moved aside, for this installer.
    MoveAside(Receipt, Release, String),
    /// This installer is to be run; the program may be kept aside.
    Install(Receipt, Release, String, Option<String>),
    /// This went wrong, and the program is to be put back from here.
    Restore(String, String),
    /// Nothing is left to do.
    Over,
}

/// The model of an [`UpdateState`].
#[verifier::ext_equal]
pub enum UpdateStateV {
    Lock,
    Preflight,
    Bundle(Seq<char>),
    Latest(ReceiptV),
    Download(ReceiptV, ReleaseV),
    MoveAside(ReceiptV, ReleaseV, Seq<char>),
    Install(ReceiptV, ReleaseV, Seq<char>, Option<Seq<char>>),
    Restore(Seq<char>, Seq<char>),
    Over,
}

impl View for UpdateState {
    type V = UpdateStateV;

    open spec fn view(&self) -> UpdateStateV {
        match *self {
            UpdateState::Lock => UpdateStateV::Lock,
            UpdateState::Preflight => UpdateStateV::Preflight,
            UpdateState::Bundle(root) => UpdateStateV::Bundle(root@),
            UpdateState::Latest(r) => UpdateStateV::Latest(r@),
            UpdateState::Download(r, l) => UpdateStateV::Download(r@, l@),
            UpdateState::MoveAside(r, l, s) => UpdateStateV::MoveAside(r@, l@, s@),
            UpdateState::Install(r, l, s, p) => UpdateStateV::Install(
                r@,
                l@,
                s@,
                text::opt_text(p),
            ),
            UpdateState::Restore(what, p) => UpdateStateV::Restore(what@, p@),
            UpdateState::Over => UpdateStateV::Over,
        }
    }
}

/// What happened during an update.
#[derive(Debug)]
pub enum UpdateEvent {
    /// The lock was taken, or another update holds it.
    Locked(bool),
    /// What there is to update.
    Checked(UpdateTarget),
    /// The bundle was updated.
    BundleUpdated,
    /// The latest release.
    Found(Release),
    /// Where the installer is stored.
    Stored(String),
    /// Where the program is kept aside.
    MovedAside(String),
    /// The installer could not be run, and why.
    NotRun(String),
    /// The installer ended, well or not, with this status.
    Exited(bool, String),
    /// The program was put back.
    Restored,
    /// The program was not put back, and why.
    NotRestored(String),
    /// The step did not succeed, and why.
    Failed(String),
}

/// The model of an [`UpdateEvent`].
#[verifier::ext_equal]
pub enum UpdateEventV {
    Locked(bool),
    Bundled(Seq<char>),
    Receipted(ReceiptV),
    BundleUpdated,
    Found(ReleaseV),
    Stored(Seq<char>),
    MovedAside(Seq<char>),
    NotRun(Seq<char>),
    Exited(bool, Seq<char>),
    Restored,
    NotRestored(Seq<char>),
    Failed(Seq<char>),
}

impl View for UpdateEvent {
    type V = UpdateEventV;

    open spec fn view(&self) -> UpdateEventV {
        match *self {
            UpdateEvent::Locked(taken) => UpdateEventV::Locked(taken),
            UpdateEvent::Checked(UpdateTarget::AppBundle(root)) => UpdateEventV::Bundled(root@),
            UpdateEvent::Checked(UpdateTarget::Installer(r)) => UpdateEventV::Receipted(r@),
            UpdateEvent::BundleUpdated => UpdateEventV::BundleUpdated,
            UpdateEvent::Found(l) => UpdateEventV::Found(l@),
            UpdateEvent::Stored(s) => UpdateEventV::Stored(s@),
            UpdateEvent::MovedAside(p) => UpdateEventV::MovedAside(p@),
            UpdateEvent::NotRun(e) => UpdateEventV::NotRun(e@),
            UpdateEvent::Exited(ok, status) => UpdateEventV::Exited(ok, status@),
            UpdateEvent::Restored => UpdateEventV::Restored,
            UpdateEvent::NotRestored(e) => UpdateEventV::NotRestored(e@),
            UpdateEvent::Failed(e) => UpdateEventV::Failed(e@),
        }
    }
}

/// What an update does on the side.
#[derive(Debug)]
pub enum Effect {
    /// Print this.
    Say(String),
    /// Print this as a message about what is going on.
    Tell(String),
    /// Remember the latest version.
    CacheLatest(String),
    /// Delete the program that is kept aside, once it has ended.
    DeletePrevious(String),
    /// Remember the installed version.
    RecordInstalled(String),
}

/// The model of an [`Effect`].
#[verifier::ext_equal]
pub enum EffectV {
    Say(Seq<char>),
    Tell(Seq<char>),
    CacheLatest(Seq<char>),
    DeletePrevious(Seq<char>),
    RecordInstalled(Seq<char>),
}

impl View for Effect {
    type V = EffectV;

    open spec fn view(&self) -> EffectV {
        match *self {
            Effect::Say(t) => EffectV::Say(t@),
            Effect::Tell(t) => EffectV::Tell(t@),
            Effect::CacheLatest(v) => EffectV::CacheLatest(v@),
            Effect::DeletePrevious(p) => EffectV::DeletePrevious(p@),
            Effect::RecordInstalled(v) => EffectV::RecordInstalled(v@),
        }
    }
}

/// The models of a sequence of effects.
pub open spec fn effect_models(v: Seq<Effect>) -> Seq<EffectV> {
    Seq::new(v.len(), |i: int| v[i]@)
}

/// What an event comes to: the state then, what is done on the side, and the
/// end if that is reached.
#[derive(Debug)]
pub struct UpdateStep {
    pub state: UpdateState,
    pub effects: Vec<Effect>,
    pub end: Option<Result<Outcome, String>>,
}

/// The model of an [`UpdateStep`].
#[verifier::ext_equal]
pub struct UpdateStepV {
    pub state: UpdateStateV,
    pub effects: Seq<EffectV>,
    pub end: Option<Result<Outcome, Seq<char>>>,
}

impl View for UpdateStep {
    type V = UpdateStepV;

    open spec fn view(&self) -> UpdateStepV {
        UpdateStepV {
            state: self.state@,
            effects: effect_models(self.effects@),
            end: match self.end {
                Some(r) => Some(result_model(r)),
                None => None,
            },
        }
    }
}

/// The update goes on in this state.
pub open spec fn going_on(state: UpdateStateV) -> UpdateStepV {
    UpdateStepV { state, effects: Seq::empty(), end: None }
}

/// The update is over.
pub open spec fn over(effects: Seq<EffectV>, end: Result<Outcome, Seq<char>>) -> UpdateStepV {
    UpdateStepV { state: UpdateStateV::Over, effects, end: Some(end) }
}

/// Two versions with an arrow between them.
pub open spec fn versions(current: Seq<char>, latest: Seq<char>) -> Seq<char> {
    current + " → "@ + latest
}

/// The effects, with one more where somebody is watching.
pub open spec fn watched(effects: Seq<EffectV>, background: bool, more: EffectV) -> Seq<EffectV> {
    if background {
        effects
    } else {
        effects.push(more)
    }
}

/// What the latest release comes to: it is remembered, and installed if it is
/// newer and this is no dry run.
pub open spec fn release_found(
    args: UpdateArgs,
    current: Seq<char>,
    receipt: ReceiptV,
    latest: ReleaseV,
) -> UpdateStepV {
    let cached = seq![EffectV::CacheLatest(latest.version)];
    if !latest.outdated {
        over(
            watched(
                cached,
                args.background,
                EffectV::Say("orx "@ + current + " is up to date."@),
            ),
            Ok(Outcome::Done),
        )
    } else if args.dry_run {
        over(
            cached.push(
                EffectV::Say(
                    "orx "@ + versions(current, latest.version)
                        + " is available. Re-run without --dry-run to update."@,
                ),
            ),
            Ok(Outcome::Done),
        )
    } else {
        UpdateStepV {
            state: UpdateStateV::Download(receipt, latest),
            effects: watched(
                cached,
                args.background,
                EffectV::Tell("Updating orx "@ + versions(current, latest.version) + " ..."@),
            ),
            end: None,
        }
    }
}

/// What comes of an installer that went wrong: a program that was moved aside
/// is put back first.
pub open spec fn install_failed(
    what: Seq<char>,
    untouched: Seq<char>,
    previous: Option<Seq<char>>,
) -> UpdateStepV {
    match previous {
        Some(p) => going_on(UpdateStateV::Restore(what, p)),
        None => over(Seq::empty(), Err(what + untouched)),
    }
}

/// What comes of an installer that succeeded: the program that was moved aside
/// is deleted, and the version is remembered.
pub open spec fn installed(
    args: UpdateArgs,
    current: Seq<char>,
    latest: ReleaseV,
    previous: Option<Seq<char>>,
) -> UpdateStepV {
    let cleaned = match previous {
        Some(p) => seq![EffectV::DeletePrevious(p)],
        None => Seq::empty(),
    };
    over(
        watched(
            cleaned.push(EffectV::RecordInstalled(latest.version)),
            args.background,
            EffectV::Say("✓ Updated orx "@ + versions(current, latest.version) + "."@),
        ),
        Ok(Outcome::Done),
    )
}

/// What an event comes to in an update. An event that does not belong to the
/// state does nothing.
pub open spec fn update_effect(
    args: UpdateArgs,
    current: Seq<char>,
    platform: Platform,
    state: UpdateStateV,
    event: UpdateEventV,
) -> UpdateStepV {
    match (state, event) {
        (UpdateStateV::Lock, UpdateEventV::Locked(taken)) => if taken {
            going_on(UpdateStateV::Preflight)
        } else {
            over(Seq::empty(), Ok(Outcome::Contended))
        },
        (UpdateStateV::Preflight, UpdateEventV::Bundled(root)) => going_on(
            UpdateStateV::Bundle(root),
        ),
        (UpdateStateV::Preflight, UpdateEventV::Receipted(r)) => going_on(UpdateStateV::Latest(r)),
        (UpdateStateV::Preflight, UpdateEventV::Failed(e)) => over(Seq::empty(), Err(e)),
        (UpdateStateV::Bundle(_), UpdateEventV::BundleUpdated) => over(
            Seq::empty(),
            Ok(Outcome::Done),
        ),
        (UpdateStateV::Bundle(_), UpdateEventV::Failed(e)) => over(Seq::empty(), Err(e)),
        (UpdateStateV::Latest(r), UpdateEventV::Found(latest)) => release_found(
            args,
            current,
            r,
            latest,
        ),
        (UpdateStateV::Latest(_), UpdateEventV::Failed(e)) => over(Seq::empty(), Err(e)),
        (UpdateStateV::Download(r, latest), UpdateEventV::Stored(script)) => going_on(
            if platform == Platform::Windows {
                UpdateStateV::MoveAside(r, latest, script)
            } else {
                UpdateStateV::Install(r, latest, script, None)
            },
        ),
        (UpdateStateV::Download(_, _), UpdateEventV::Failed(e)) => over(Seq::empty(), Err(e)),
        (UpdateStateV::MoveAside(r, latest, script), UpdateEventV::MovedAside(previous)) => going_on(
            UpdateStateV::Install(r, latest, script, Some(previous)),
        ),
        (UpdateStateV::MoveAside(_, _, _), UpdateEventV::Failed(e)) => over(Seq::empty(), Err(e)),
        (UpdateStateV::Install(_, _, _, previous), UpdateEventV::NotRun(error)) => install_failed(
            "Could not run the installer: "@ + error,
            Seq::empty(),
            previous,
        ),
        (UpdateStateV::Install(_, latest, _, previous), UpdateEventV::Exited(ok, status)) => if ok {
            installed(args, current, latest, previous)
        } else {
            install_failed(
                "The installer exited with "@ + status,
                ". The previous orx is untouched."@,
                previous,
            )
        },
        (UpdateStateV::Restore(what, _), UpdateEventV::Restored) => over(
            Seq::empty(),
            Err(what + ". The previous orx was restored."@),
        ),
        (UpdateStateV::Restore(what, previous), UpdateEventV::NotRestored(error)) => over(
            Seq::empty(),
            Err(
                what + ", and restoring the previous orx failed: "@ + error + ". It is at "@
                    + previous + "."@,
            ),
        ),
        _ => going_on(state),
    }
}

fn go_on(state: UpdateState) -> (r: UpdateStep)
    ensures
        r@ == going_on(state@),
{
    let effects: Vec<Effect> = Vec::new();
    assert(effect_models(effects@) =~= Seq::empty());
    UpdateStep { state, effects, end: None }
}

fn end_with(effects: Vec<Effect>, end: Result<Outcome, String>) -> (r: UpdateStep)
    ensures
        r@ == over(effect_models(effects@), result_model(end)),
{
    UpdateStep { state: UpdateState::Over, effects, end: Some(end) }
}

fn end(result: Result<Outcome, String>) -> (r: UpdateStep)
    ensures
        r@ == over(Seq::empty(), result_model(result)),
{
    let effects: Vec<Effect> = Vec::new();
    assert(effect_models(effects@) =~= Seq::empty());
    end_with(effects, result)
}

fn add_effect(effects: &mut Vec<Effect>, effect: Effect)
    ensures
        effect_models(final(effects)@) == effect_models(old(effects)@).push(effect@),
{
    let ghost before = effect_models(effects@);
    effects.push(effect);
    assert(effect_models(effects@) =~= before.push(effect@));
}

fn versions_text(current: &str, latest: &str) -> (r: String)
    ensures
        r@ == versions(current@, latest@),
{
    text::concat3(current, " → ", latest)
}

fn found_release(args: UpdateArgs, current: &str, receipt: Receipt, latest: Release) -> (r:
    UpdateStep)
    ensures
        r@ == release_found(args, current@, receipt@, latest@),
{
    let mut effects: Vec<Effect> = Vec::new();
    assert(effect_models(effects@) =~= Seq::empty());
    add_effect(&mut effects, Effect::CacheLatest(latest.version.clone()));
    assert(effect_models(effects@) =~= seq![EffectV::CacheLatest(latest.version@)]);
    if !latest.outdated {
        if !args.background {
            add_effect(
                &mut effects,
                Effect::Say(text::concat3("orx ", current, " is up to date.")),
            );
        }
        return end_with(effects, Ok(Outcome::Done));
    }
    let both: String = versions_text(current, latest.version.as_str());
    if args.dry_run {
        add_effect(
            &mut effects,
            Effect::Say(
                text::concat3(
                    "orx ",
                    both.as_str(),
                    " is available. Re-run without --dry-run to update.",
                ),
            ),
        );
        return end_with(effects, Ok(Outcome::Done));
    }
    if !args.background {
        add_effect(
            &mut effects,
            Effect::Tell(text::concat3("Updating orx ", both.as_str(), " ...")),
        );
    }
    UpdateStep { state: UpdateState::Download(receipt, latest), effects, end: None }
}

fn failed_install(what: String, untouched: &str, previous: Option<String>) -> (r: UpdateStep)
    ensures
        r@ == install_failed(what@, untouched@, text::opt_text(previous)),
{
    match previous {
        Some(p) => go_on(UpdateState::Restore(what, p)),
        None => end(Err(text::concat2(what.as_str(), untouched))),
    }
}

fn done_install(args: UpdateArgs, current: &str, latest: Release, previous: Option<String>) -> (r:
    UpdateStep)
    ensures
        r@ == installed(args, current@, latest@, text::opt_text(previous)),
{
    let mut effects: Vec<Effect> = Vec::new();
    assert(effect_models(effects@) =~= Seq::empty());
    match previous {
        Some(p) => {
            add_effect(&mut effects, Effect::DeletePrevious(p));
            assert(effect_models(effects@) =~= seq![EffectV::DeletePrevious(p@)]);
        },
        None => {},
    }
    let both: String = versions_text(current, latest.version.as_str());
    add_effect(&mut effects, Effect::RecordInstalled(latest.version));
    if !args.background {
        add_effect(
            &mut effects,
            Effect::Say(text::concat3("✓ Updated orx ", both.as_str(), ".")),
        );
    }
    end_with(effects, Ok(Outcome::Done))
}

/// Deal with what happened during an update.
pub fn apply(
    args: UpdateArgs,
    current: &str,
    platform: Platform,
    state: UpdateState,
    event: UpdateEvent,
) -> (r: UpdateStep)
    ensures
        r@ == update_effect(args, current@, platform, state@, event@),
{
    match (state, event) {
        (UpdateState::Lock, UpdateEvent::Locked(taken)) => {
            if taken {
                go_on(UpdateState::Preflight)
            } else {
                end(Ok(Outcome::Contended))
            }
        },
        (UpdateState::Preflight, UpdateEvent::Checked(UpdateTarget::AppBundle(root))) => go_on(
            UpdateState::Bundle(root),
        ),
        (UpdateState::Preflight, UpdateEvent::Checked(UpdateTarget::Installer(r))) => go_on(
            UpdateState::Latest(r),
        ),
        (UpdateState::Preflight, UpdateEvent::Failed(e)) => end(Err(e)),
        (UpdateState::Bundle(_), UpdateEvent::BundleUpdated) => end(Ok(Outcome::Done)),
        (UpdateState::Bundle(_), UpdateEvent::Failed(e)) => end(Err(e)),
        (UpdateState::Latest(r), UpdateEvent::Found(latest)) => found_release(
            args,
            current,
            r,
            latest,
        ),
        (UpdateState::Latest(_), UpdateEvent::Failed(e)) => end(Err(e)),
        (UpdateState::Download(r, latest), UpdateEvent::Stored(script)) => {
            if platform == Platform::Windows {
                go_on(UpdateState::MoveAside(r, latest, script))
            } else {
                go_on(UpdateState::Install(r, latest, script, None))
            }
        },
        (UpdateState::Download(_, _), UpdateEvent::Failed(e)) => end(Err(e)),
        (UpdateState::MoveAside(r, latest, script), UpdateEvent::MovedAside(previous)) => go_on(
            UpdateState::Install(r, latest, script, Some(previous)),
        ),
        (UpdateState::MoveAside(_, _, _), UpdateEvent::Failed(e)) => end(Err(e)),
        (UpdateState::Install(_, _, _, previous), UpdateEvent::NotRun(error)) => {
            let what: String = text::concat2("Could not run the installer: ", error.as_str());
            proof {
                reveal_strlit("");
                assert(""@ =~= Seq::empty());
            }
            failed_install(what, "", previous)
        },
        (UpdateState::Install(_, latest, _, previous), UpdateEvent::Exited(ok, status)) => {
            if ok {
                done_install(args, current, latest, previous)
            } else {
                let what: String = text::concat2("The installer exited with ", status.as_str());
                failed_install(what, ". The previous orx is untouched.", previous)
            }
        },
        (UpdateState::Restore(what, _), UpdateEvent::Restored) => end(
            Err(text::concat2(what.as_str(), ". The previous orx was restored.")),
        ),
        (UpdateState::Restore(what, previous), UpdateEvent::NotRestored(error)) => {
            let why: String = text::concat3(
                what.as_str(),
                ", and restoring the previous orx failed: ",
                error.as_str(),
            );
            let at: String = text::concat3(why.as_str(), ". It is at ", previous.as_str());
            end(Err(text::concat2(at.as_str(), ".")))
        },
        (state, _) => go_on(state),
    }
}

// ---------------------------------------------------------------------------
// Laws
// ---------------------------------------------------------------------------

/// A dry run is never recorded, and an update that another one was in the way
/// of never counts as an attempt.
pub proof fn only_attempts_are_recorded(dry_run: bool, result: Result<Outcome, Seq<char>>)
    ensures
        recorded(dry_run, result) is Attempt <==> !dry_run && result
            != Ok::<Outcome, Seq<char>>(Outcome::Contended),
        recorded(dry_run, result) == Record::Attempt(true) ==> result
            == Ok::<Outcome, Seq<char>>(Outcome::Done),
{
}

/// A dry run installs nothing: it gets no further than the latest release.
pub proof fn dry_runs_install_nothing(
    args: UpdateArgs,
    current: Seq<char>,
    platform: Platform,
    state: UpdateStateV,
    event: UpdateEventV,
)
    requires
        args.dry_run,
        state is Lock || state is Preflight || state is Bundle || state is Latest || state is Over,
    ensures
        ({
            let after = update_effect(args, current, platform, state, event).state;
            after is Lock || after is Preflight || after is Bundle || after is Latest
                || after is Over
        }),
{
}

/// Where nobody is watching, nothing is printed.
pub proof fn background_updates_are_silent(
    args: UpdateArgs,
    current: Seq<char>,
    platform: Platform,
    state: UpdateStateV,
    event: UpdateEventV,
    i: int,
)
    requires
        args.background,
        !args.dry_run,
        0 <= i < update_effect(args, current, platform, state, event).effects.len(),
    ensures
        ({
            let effect = update_effect(args, current, platform, state, event).effects[i];
            !(effect is Say) && !(effect is Tell)
        }),
{
}

/// A program that was moved aside is either deleted after a successful
/// installation or put back: an installer that fails never ends the update
/// without that.
pub proof fn moved_programs_are_put_back(
    args: UpdateArgs,
    current: Seq<char>,
    platform: Platform,
    receipt: ReceiptV,
    latest: ReleaseV,
    script: Seq<char>,
    previous: Seq<char>,
    event: UpdateEventV,
)
    ensures
        ({
            let state = UpdateStateV::Install(receipt, latest, script, Some(previous));
            let step = update_effect(args, current, platform, state, event);
            match step.end {
                Some(r) => r == Ok::<Outcome, Seq<char>>(Outcome::Done)
                    && step.effects.contains(EffectV::DeletePrevious(previous)),
                None => step.state == state || (step.state matches UpdateStateV::Restore(_, p) && p
                    == previous),
            }
        }),
{
    let state = UpdateStateV::Install(receipt, latest, script, Some(previous));
    let step = update_effect(args, current, platform, state, event);
    if step.end is Some {
        assert(step.effects[0] == EffectV::DeletePrevious(previous));
    }
}

/// Only Windows moves the running program aside.
pub proof fn only_windows_moves_the_program(
    args: UpdateArgs,
    current: Seq<char>,
    platform: Platform,
    state: UpdateStateV,
    event: UpdateEventV,
)
    requires
        platform != Platform::Windows,
        !(state is MoveAside),
    ensures
        !(update_effect(args, current, platform, state, event).state is MoveAside),
{
}

/// That nobody is watching changes what is printed and nothing else: two
/// updates that differ only in that come to the same state and the same end,
/// step by step, and do the same on the side but for what they print.
pub proof fn watching_only_changes_what_is_printed(
    args: UpdateArgs,
    other: UpdateArgs,
    current: Seq<char>,
    platform: Platform,
    state: UpdateStateV,
    event: UpdateEventV,
)
    requires
        other.dry_run == args.dry_run,
    ensures
        ({
            let a = update_effect(args, current, platform, state, event);
            let b = update_effect(other, current, platform, state, event);
            let work = |e: EffectV| !(e is Say) && !(e is Tell);
            &&& a.state == b.state
            &&& a.end == b.end
            &&& a.effects.filter(work) == b.effects.filter(work)
        }),
{
    let a = update_effect(args, current, platform, state, event);
    let b = update_effect(other, current, platform, state, event);
    let work = |e: EffectV| !(e is Say) && !(e is Tell);
    if a.effects.len() > b.effects.len() {
        assert(a.effects.drop_last() =~= b.effects);
        lemma_unprinted(a.effects, work);
    }
    if b.effects.len() > a.effects.len() {
        assert(b.effects.drop_last() =~= a.effects);
        lemma_unprinted(b.effects, work);
    }
    if a.effects.len() == b.effects.len() {
        assert(a.effects =~= b.effects);
    }
}

proof fn lemma_unprinted(effects: Seq<EffectV>, work: spec_fn(EffectV) -> bool)
    requires
        effects.len() > 0,
        !work(effects.last()),
    ensures
        effects.filter(work) == effects.drop_last().filter(work),
{
    reveal(Seq::filter);
}

/// A newer release is installed, whoever is watching: unless this is a dry
/// run, its installer is stored next, for the same installation, and the
/// update does not end. Whoever watches is told from which version to which.
pub proof fn newer_releases_are_installed(
    args: UpdateArgs,
    current: Seq<char>,
    platform: Platform,
    receipt: ReceiptV,
    latest: ReleaseV,
)
    requires
        latest.outdated,
        !args.dry_run,
    ensures
        ({
            let step = update_effect(
                args,
                current,
                platform,
                UpdateStateV::Latest(receipt),
                UpdateEventV::Found(latest),
            );
            &&& step.state == UpdateStateV::Download(receipt, latest)
            &&& step.end is None
            &&& step.effects.len() == (if args.background {
                1nat
            } else {
                2nat
            })
            &&& step.effects[0] == EffectV::CacheLatest(latest.version)
            &&& !args.background ==> step.effects[1] == EffectV::Tell(
                "Updating orx "@ + current + " → "@ + latest.version + " ..."@,
            )
        }),
{
    assert("Updating orx "@ + versions(current, latest.version) + " ..."@ =~= "Updating orx "@
        + current + " → "@ + latest.version + " ..."@);
}

/// A release that is not newer ends the update well, and so does a dry run;
/// either way the release is remembered and nothing is installed. A dry run
/// always tells what there would be to install.
pub proof fn nothing_newer_ends_well(
    args: UpdateArgs,
    current: Seq<char>,
    platform: Platform,
    receipt: ReceiptV,
    latest: ReleaseV,
)
    requires
        !latest.outdated || args.dry_run,
    ensures
        ({
            let step = update_effect(
                args,
                current,
                platform,
                UpdateStateV::Latest(receipt),
                UpdateEventV::Found(latest),
            );
            &&& step.state is Over
            &&& step.end == Some(Ok::<Outcome, Seq<char>>(Outcome::Done))
            &&& step.effects.len() > 0
            &&& step.effects[0] == EffectV::CacheLatest(latest.version)
            &&& step.effects.len() == (if !latest.outdated && args.background {
                1nat
            } else {
                2nat
            })
            &&& latest.outdated ==> step.effects[1] == EffectV::Say(
                "orx "@ + current + " → "@ + latest.version
                    + " is available. Re-run without --dry-run to update."@,
            )
            &&& !latest.outdated && !args.background ==> step.effects[1] == EffectV::Say(
                "orx "@ + current + " is up to date."@,
            )
        }),
{
    assert("orx "@ + versions(current, latest.version)
        + " is available. Re-run without --dry-run to update."@ =~= "orx "@ + current + " → "@
        + latest.version + " is available. Re-run without --dry-run to update."@);
}

/// Where nothing fails, an update goes from the lock over the installation and
/// the latest release to its installer and runs it: the receipt, the release
/// and the installer that a later step has are those that the earlier ones
/// found. On Windows the running program is moved aside first.
pub proof fn updates_run_the_installer_they_stored(
    args: UpdateArgs,
    current: Seq<char>,
    platform: Platform,
    receipt: ReceiptV,
    latest: ReleaseV,
    script: Seq<char>,
    previous: Seq<char>,
)
    requires
        latest.outdated,
        !args.dry_run,
    ensures
        ({
            let step = |state: UpdateStateV, event: UpdateEventV|
                update_effect(args, current, platform, state, event).state;
            let s1 = step(UpdateStateV::Lock, UpdateEventV::Locked(true));
            let s2 = step(s1, UpdateEventV::Receipted(receipt));
            let s3 = step(s2, UpdateEventV::Found(latest));
            let s4 = step(s3, UpdateEventV::Stored(script));
            let s5 = step(s4, UpdateEventV::MovedAside(previous));
            &&& platform == Platform::Windows ==> s5 == UpdateStateV::Install(
                receipt,
                latest,
                script,
                Some(previous),
            )
            &&& platform != Platform::Windows ==> s4 == UpdateStateV::Install(
                receipt,
                latest,
                script,
                None,
            )
            &&& step(s1, UpdateEventV::Bundled(script)) == UpdateStateV::Bundle(script)
        }),
{
}

/// An installer that succeeds ends the update well: the new version is
/// remembered, and a program that was moved aside is deleted.
pub proof fn installed_versions_are_remembered(
    args: UpdateArgs,
    current: Seq<char>,
    platform: Platform,
    receipt: ReceiptV,
    latest: ReleaseV,
    script: Seq<char>,
    previous: Option<Seq<char>>,
    status: Seq<char>,
)
    ensures
        ({
            let step = update_effect(
                args,
                current,
                platform,
                UpdateStateV::Install(receipt, latest, script, previous),
                UpdateEventV::Exited(true, status),
            );
            &&& step.state is Over
            &&& step.end == Some(Ok::<Outcome, Seq<char>>(Outcome::Done))
            &&& step.effects.contains(EffectV::RecordInstalled(latest.version))
            &&& previous matches Some(p) ==> step.effects.contains(EffectV::DeletePrevious(p))
            &&& !args.background ==> step.effects.contains(
                EffectV::Say("✓ Updated orx "@ + current + " → "@ + latest.version + "."@),
            )
            &&& forall|i: int|
                0 <= i < step.effects.len() ==> {
                    let e = #[trigger] step.effects[i];
                    &&& e matches EffectV::RecordInstalled(v) ==> v == latest.version
                    &&& e matches EffectV::DeletePrevious(p) ==> previous == Some(p)
                    &&& !(e is CacheLatest) && !(e is Tell)
                }
        }),
{
    let step = update_effect(
        args,
        current,
        platform,
        UpdateStateV::Install(receipt, latest, script, previous),
        UpdateEventV::Exited(true, status),
    );
    let n: int = if previous is Some {
        1
    } else {
        0
    };
    assert(step.effects[n] == EffectV::RecordInstalled(latest.version));
    if previous is Some {
        assert(step.effects[0] == EffectV::DeletePrevious(previous->0));
    }
    if !args.background {
        assert("✓ Updated orx "@ + versions(current, latest.version) + "."@ =~= "✓ Updated orx "@
            + current + " → "@ + latest.version + "."@);
        assert(step.effects[n + 1] == EffectV::Say(
            "✓ Updated orx "@ + current + " → "@ + latest.version + "."@,
        ));
    }
}

/// An installer that fails, or cannot be run, ends the update with an error
/// that tells why, and nothing is remembered or deleted. Where the program was
/// moved aside it is put back first, and the error tells whether that worked,
/// and where the program is if not.
pub proof fn failed_installs_tell_why(
    args: UpdateArgs,
    current: Seq<char>,
    platform: Platform,
    receipt: ReceiptV,
    latest: ReleaseV,
    script: Seq<char>,
    previous: Seq<char>,
    why: Seq<char>,
    error: Seq<char>,
)
    ensures
        ({
            let step = |p: Option<Seq<char>>, event: UpdateEventV|
                update_effect(
                    args,
                    current,
                    platform,
                    UpdateStateV::Install(receipt, latest, script, p),
                    event,
                );
            let then = |state: UpdateStateV, event: UpdateEventV|
                update_effect(args, current, platform, state, event);
            let exited = UpdateEventV::Exited(false, why);
            let unrun = UpdateEventV::NotRun(why);
            let told = |s: UpdateStepV, e: Seq<char>|
                s.state is Over && s.effects.len() == 0 && s.end == Some(
                    Err::<Outcome, Seq<char>>(e),
                );
            let ended = "The installer exited with "@ + why;
            let not_run = "Could not run the installer: "@ + why;
            &&& told(step(None, exited), ended + ". The previous orx is untouched."@)
            &&& told(step(None, unrun), not_run)
            &&& step(Some(previous), exited).end is None
            &&& step(Some(previous), unrun).end is None
            &&& step(Some(previous), exited).effects.len() == 0
            &&& step(Some(previous), unrun).effects.len() == 0
            &&& told(
                then(step(Some(previous), exited).state, UpdateEventV::Restored),
                ended + ". The previous orx was restored."@,
            )
            &&& told(
                then(step(Some(previous), unrun).state, UpdateEventV::Restored),
                not_run + ". The previous orx was restored."@,
            )
            &&& told(
                then(step(Some(previous), exited).state, UpdateEventV::NotRestored(error)),
                ended + ", and restoring the previous orx failed: "@ + error + ". It is at "@
                    + previous + "."@,
            )
            &&& told(
                then(step(Some(previous), unrun).state, UpdateEventV::NotRestored(error)),
                not_run + ", and restoring the previous orx failed: "@ + error + ". It is at "@
                    + previous + "."@,
            )
        }),
{
    assert("Could not run the installer: "@ + why + Seq::<char>::empty()
        =~= "Could not run the installer: "@ + why);
}

/// A step that fails ends the update with its reason, and so does a bundle;
/// where another update holds the lock, this one is out of its way at once.
/// Only the installer is told apart.
pub proof fn failed_steps_end_the_update(
    args: UpdateArgs,
    current: Seq<char>,
    platform: Platform,
    state: UpdateStateV,
    why: Seq<char>,
)
    ensures
        ({
            let step = |event: UpdateEventV| update_effect(args, current, platform, state, event);
            let failed = step(UpdateEventV::Failed(why));
            &&& state is Preflight || state is Bundle || state is Latest || state is Download
                || state is MoveAside ==> failed.state is Over && failed.effects.len() == 0
                && failed.end == Some(Err::<Outcome, Seq<char>>(why))
            &&& state is Lock ==> step(UpdateEventV::Locked(false)).state is Over && step(
                UpdateEventV::Locked(false),
            ).end == Some(Ok::<Outcome, Seq<char>>(Outcome::Contended)) && step(
                UpdateEventV::Locked(true),
            ).end is None
            &&& state is Bundle ==> step(UpdateEventV::BundleUpdated).state is Over && step(
                UpdateEventV::BundleUpdated,
            ).end == Some(Ok::<Outcome, Seq<char>>(Outcome::Done))
        }),
{
}

/// What is recorded and told of an update that is over: success and failure
/// are attempts, and that another update was going on is none. The user is told
/// what went wrong, and of another update only where somebody is watching.
pub proof fn attempts_are_recorded_as_they_went(background: bool, why: Seq<char>)
    ensures
        recorded(false, Ok(Outcome::Done)) == Record::Attempt(true),
        recorded(false, Err(why)) == Record::Attempt(false),
        recorded(false, Ok(Outcome::Contended)) == Record::Contended,
        recorded(true, Ok(Outcome::Done)) == Record::Nothing,
        recorded(true, Err(why)) == Record::Nothing,
        recorded(true, Ok(Outcome::Contended)) == Record::Nothing,
        reported(background, Ok(Outcome::Done)) == Ok::<(), Seq<char>>(()),
        reported(background, Err(why)) == Err::<(), Seq<char>>(why),
        reported(true, Ok(Outcome::Contended)) == Ok::<(), Seq<char>>(()),
        reported(false, Ok(Outcome::Contended)) == Err::<(), Seq<char>>(
            "Another `orx update` is already running."@,
        ),
{
}

/// The installer installs where the receipt says: its variables name that
/// directory, and tell it to leave the search path alone exactly if the receipt
/// does not allow changing it, under the name that each installer reads.
pub proof fn installers_keep_to_the_receipt(receipt: ReceiptV)
    ensures
        installer_env(receipt).contains(
            ("CARGO_DIST_FORCE_INSTALL_DIR"@, receipt.install_prefix),
        ),
        receipt.modify_path ==> installer_env(receipt).len() == 1,
        !receipt.modify_path ==> installer_env(receipt).len() == 4,
        !receipt.modify_path ==> installer_env(receipt).contains(
            ("CARGO_DIST_NO_MODIFY_PATH"@, "1"@),
        ),
        !receipt.modify_path ==> installer_env(receipt).contains(
            ("INSTALLER_NO_MODIFY_PATH"@, "1"@),
        ),
        !receipt.modify_path ==> installer_env(receipt).contains(
            ("OPENRESEARCH_CLI_NO_MODIFY_PATH"@, "1"@),
        ),
{
    let env = installer_env(receipt);
    assert(env[0] == ("CARGO_DIST_FORCE_INSTALL_DIR"@, receipt.install_prefix));
    if !receipt.modify_path {
        assert(env[1] == ("CARGO_DIST_NO_MODIFY_PATH"@, "1"@));
        assert(env[2] == ("INSTALLER_NO_MODIFY_PATH"@, "1"@));
        assert(env[3] == ("OPENRESEARCH_CLI_NO_MODIFY_PATH"@, "1"@));
    }
}

/// The stored installer is what is run, by the shell that its extension is
/// for: PowerShell on Windows, without a module path that is meant for another
/// one, and the plain shell elsewhere.
pub proof fn installers_run_in_their_shell(script: Seq<char>, platform: Platform)
    ensures
        installer_command(script, platform).args.len() > 0,
        installer_command(script, platform).args.last() == script,
        platform == Platform::Windows ==> installer_command(script, platform).program
            == "powershell.exe"@ && script_extension(platform) == ".ps1"@ && installer_removed(
            platform,
        ) == seq!["PSModulePath"@],
        platform == Platform::Windows ==> installer_command(script, platform).args.drop_last()
            == seq![
            "-NoLogo"@,
            "-NoProfile"@,
            "-NonInteractive"@,
            "-ExecutionPolicy"@,
            "Bypass"@,
            "-File"@,
        ],
        platform != Platform::Windows ==> installer_command(script, platform).program == "sh"@
            && installer_command(script, platform).args.len() == 1 && script_extension(platform)
            == ".sh"@ && installer_removed(platform).len() == 0,
{
}

/// Two marks give two files: what is stored or kept aside never takes the place
/// of another one's.
pub proof fn marks_tell_files_apart(a: Seq<char>, b: Seq<char>, name: Seq<char>, platform: Platform)
    requires
        a != b,
    ensures
        script_file(a, platform) != script_file(b, platform),
        aside_file(name, a) != aside_file(name, b),
{
    let ext = script_extension(platform);
    let start = "orx-installer-"@;
    if script_file(a, platform) == script_file(b, platform) {
        lemma_between(start, a, b, ext);
    }
    if aside_file(name, a) == aside_file(name, b) {
        lemma_between(name + ".orx-previous-"@, a, b, ".exe"@);
    }
}

proof fn lemma_between(start: Seq<char>, a: Seq<char>, b: Seq<char>, end: Seq<char>)
    requires
        start + a + end == start + b + end,
    ensures
        a == b,
{
    let s = start + a + end;
    let t = start + b + end;
    assert(s.len() == t.len());
    assert(a =~= s.subrange(start.len() as int, (start.len() + a.len()) as int));
    assert(b =~= t.subrange(start.len() as int, (start.len() + b.len()) as int));
}

} // verus!
