//! What differs between operating systems: paths, commands and quoting.

use vstd::prelude::*;

use crate::text;

verus! {

/// The kinds of operating systems.
#[derive(Clone, Copy, Debug, PartialEq, Eq, Structural)]
pub enum Platform {
    Unix,
    Windows,
    Other,
}

/// A command with its arguments.
#[derive(Debug)]
pub struct CommandLine {
    pub program: String,
    pub args: Vec<String>,
}

/// The model of a [`CommandLine`].
#[verifier::ext_equal]
pub struct CommandV {
    pub program: Seq<char>,
    pub args: Seq<Seq<char>>,
}

impl View for CommandLine {
    type V = CommandV;

    open spec fn view(&self) -> CommandV {
        CommandV { program: self.program@, args: text::texts(self.args@) }
    }
}

/// The model of an optional command.
pub open spec fn opt_command(c: Option<CommandLine>) -> Option<CommandV> {
    match c {
        Some(c) => Some(c@),
        None => None,
    }
}

/// The models of a sequence of commands.
pub open spec fn command_models(v: Seq<CommandLine>) -> Seq<CommandV> {
    Seq::new(v.len(), |i: int| v[i]@)
}

// ---------------------------------------------------------------------------
// Paths
// ---------------------------------------------------------------------------

/// What a verbatim path on a network share starts with.
pub const VERBATIM_UNC: &'static str = "\\\\?\\UNC\\";

/// What a verbatim path starts with.
pub const VERBATIM: &'static str = "\\\\?\\";

/// What a path on a network share starts with.
pub const UNC: &'static str = "\\\\";

/// A path as command-line tools spell it: on Windows a verbatim path is
/// written as a regular one.
pub open spec fn regular_path(path: Seq<char>, platform: Platform) -> Seq<char> {
    if platform != Platform::Windows {
        path
    } else if text::starts_with(path, VERBATIM_UNC@) {
        UNC@ + path.skip(VERBATIM_UNC@.len() as int)
    } else if text::starts_with(path, VERBATIM@) {
        path.skip(VERBATIM@.len() as int)
    } else {
        path
    }
}

/// A path as command-line tools spell it.
pub fn external_path(path: &str, platform: Platform) -> (r: String)
    ensures
        r@ == regular_path(path@, platform),
{
    if platform == Platform::Windows {
        match text::strip_prefix_text(path, VERBATIM_UNC) {
            Some(rest) => {
                return text::concat2(UNC, rest.as_str());
            },
            None => {},
        }
        match text::strip_prefix_text(path, VERBATIM) {
            Some(rest) => {
                return rest;
            },
            None => {},
        }
    }
    path.to_owned()
}

// ---------------------------------------------------------------------------
// Commands
// ---------------------------------------------------------------------------

/// A character between the components of a Windows path. In a verbatim path
/// a slash is none.
pub open spec fn is_separator(c: char, verbatim: bool) -> bool {
    c == '\\' || (c == '/' && !verbatim)
}

/// How many characters stand before the first separator.
pub open spec fn first_len(path: Seq<char>, verbatim: bool) -> nat
    decreases path.len(),
{
    if path.len() == 0 || is_separator(path[0], verbatim) {
        0
    } else {
        1 + first_len(path.drop_first(), verbatim)
    }
}

/// How many characters the server and the share have that a path starts with.
pub open spec fn share_len(path: Seq<char>, verbatim: bool) -> nat {
    let server = first_len(path, verbatim);
    let share = first_len(path.skip(server as int + 1), verbatim);
    if server < path.len() && share > 0 {
        server + 1 + share
    } else {
        server
    }
}

/// The path starts with a drive.
pub open spec fn has_drive(path: Seq<char>) -> bool {
    path.len() >= 2 && ('a' <= path[0] <= 'z' || 'A' <= path[0] <= 'Z') && path[1] == ':'
}

/// How many characters the prefix of a verbatim path has: a share, a drive, or
/// the first component.
pub open spec fn verbatim_len(path: Seq<char>) -> nat {
    let rest = path.skip(4);
    if text::starts_with(path, VERBATIM_UNC@) {
        8 + share_len(path.skip(8), true)
    } else if has_drive(rest) && (rest.len() == 2 || is_separator(rest[2], false)) {
        6
    } else {
        4 + first_len(rest, true)
    }
}

/// How many characters the prefix of a path has that starts with two
/// separators: a device, or a server with a share.
pub open spec fn network_len(path: Seq<char>) -> nat {
    let rest = path.skip(2);
    if rest.len() >= 2 && rest[0] == '.' && is_separator(rest[1], false) {
        4 + first_len(path.skip(4), false)
    } else if 0 < first_len(rest, false) < share_len(rest, false) {
        2 + share_len(rest, false)
    } else {
        0
    }
}

/// How many characters the prefix of a Windows path has: a drive, a share or a
/// device, which is no component.
pub open spec fn prefix_len(path: Seq<char>) -> nat {
    if text::starts_with(path, VERBATIM@) {
        verbatim_len(path)
    } else if path.len() >= 2 && is_separator(path[0], false) && is_separator(path[1], false) {
        network_len(path)
    } else if has_drive(path) {
        2
    } else {
        0
    }
}

/// The path ends in a component that is a single dot, which stands for nothing.
pub open spec fn ends_in_dot(path: Seq<char>, verbatim: bool) -> bool {
    !verbatim && path.len() > 0 && path.last() == '.' && (path.len() == 1 || is_separator(
        path[path.len() - 2],
        verbatim,
    ))
}

/// The path without the separators and the single dots at its end.
pub open spec fn without_tail(path: Seq<char>, verbatim: bool) -> Seq<char>
    decreases path.len(),
{
    if path.len() > 0 && (is_separator(path.last(), verbatim) || ends_in_dot(path, verbatim)) {
        without_tail(path.drop_last(), verbatim)
    } else {
        path
    }
}

/// How many characters stand behind the last separator.
pub open spec fn name_len(path: Seq<char>, verbatim: bool) -> nat
    decreases path.len(),
{
    if path.len() == 0 || is_separator(path.last(), verbatim) {
        0
    } else {
        1 + name_len(path.drop_last(), verbatim)
    }
}

/// The last component of a path without a prefix.
pub open spec fn last_name(path: Seq<char>, verbatim: bool) -> Seq<char> {
    let p = without_tail(path, verbatim);
    p.skip(p.len() - name_len(p, verbatim))
}

/// The last component of a Windows path.
pub open spec fn last_component(path: Seq<char>) -> Seq<char> {
    last_name(path.skip(prefix_len(path) as int), text::starts_with(path, VERBATIM@))
}

/// What stands behind the last dot of a file name. A leading dot starts no
/// extension.
pub open spec fn extension(name: Seq<char>) -> Option<Seq<char>> {
    match text::rsplit_once(name, '.') {
        Some((before, ext)) => if before.len() == 0 {
            None
        } else {
            Some(ext)
        },
        None => None,
    }
}

/// The program is a batch file, which Windows cannot run by itself.
pub open spec fn is_batch(program: Seq<char>) -> bool {
    match extension(last_component(program)) {
        Some(ext) => text::lower_text(ext) == text::lower_text("cmd"@) || text::lower_text(ext)
            == text::lower_text("bat"@),
        None => false,
    }
}

/// How a program is run: on Windows a batch file is run by `cmd.exe`.
pub open spec fn command_for(program: Seq<char>, platform: Platform) -> CommandV {
    if platform == Platform::Windows && is_batch(program) {
        CommandV { program: "cmd.exe"@, args: seq!["/D"@, "/S"@, "/C"@, program] }
    } else {
        CommandV { program, args: Seq::empty() }
    }
}

proof fn lemma_name_len(path: Seq<char>, verbatim: bool)
    ensures
        name_len(path, verbatim) <= path.len(),
    decreases path.len(),
{
    if path.len() > 0 && !is_separator(path.last(), verbatim) {
        lemma_name_len(path.drop_last(), verbatim);
    }
}

fn separates(c: char, verbatim: bool) -> (r: bool)
    ensures
        r == is_separator(c, verbatim),
{
    c == '\\' || (c == '/' && !verbatim)
}

/// How many characters stand between a place and the first separator.
fn first_from(v: &Vec<char>, from: usize, verbatim: bool) -> (r: usize)
    requires
        from <= v@.len(),
    ensures
        r == first_len(v@.skip(from as int), verbatim),
        from + r <= v@.len(),
        from + r < v@.len() ==> is_separator(v@[from + r], verbatim),
{
    let mut i: usize = from;
    while i < v.len() && !separates(v[i], verbatim)
        invariant
            from <= i <= v@.len(),
            first_len(v@.skip(from as int), verbatim) == (i - from) + first_len(
                v@.skip(i as int),
                verbatim,
            ),
        decreases v@.len() - i,
    {
        assert(v@.skip(i as int)[0] == v@[i as int]);
        assert(v@.skip(i as int).drop_first() =~= v@.skip(i + 1));
        i += 1;
    }
    if i < v.len() {
        assert(v@.skip(i as int)[0] == v@[i as int]);
    }
    i - from
}

/// How many characters the server and the share have that stand at a place.
fn share_from(v: &Vec<char>, from: usize, verbatim: bool) -> (r: usize)
    requires
        from <= v@.len(),
    ensures
        r == share_len(v@.skip(from as int), verbatim),
        from + r <= v@.len(),
{
    let server: usize = first_from(v, from, verbatim);
    if server < v.len() - from {
        let share: usize = first_from(v, from + server + 1, verbatim);
        assert(v@.skip(from as int).skip(server + 1) =~= v@.skip(from + server + 1));
        if share > 0 {
            return server + 1 + share;
        }
    }
    server
}

fn drive_at(v: &Vec<char>, from: usize) -> (r: bool)
    requires
        from <= v@.len(),
    ensures
        r == has_drive(v@.skip(from as int)),
{
    if v.len() - from < 2 {
        return false;
    }
    assert(v@.skip(from as int)[0] == v@[from as int]);
    assert(v@.skip(from as int)[1] == v@[from + 1]);
    let c: char = v[from];
    (('a' <= c && c <= 'z') || ('A' <= c && c <= 'Z')) && v[from + 1] == ':'
}

fn prefix_of(path: &str) -> (r: usize)
    ensures
        r == prefix_len(path@),
        r <= path@.len(),
{
    let v: Vec<char> = text::chars_of(path);
    proof {
        reveal_strlit("\\\\?\\UNC\\");
        reveal_strlit("\\\\?\\");
        assert(v@.skip(0) =~= v@);
    }
    if text::starts_with_text(path, VERBATIM) {
        if text::starts_with_text(path, VERBATIM_UNC) {
            return 8 + share_from(&v, 8, true);
        }
        let end: bool = v.len() == 6 || (v.len() > 6 && separates(v[6], false));
        assert(v@.len() > 6 ==> v@.skip(4)[2] == v@[6]);
        if drive_at(&v, 4) && end {
            return 6;
        }
        return 4 + first_from(&v, 4, true);
    }
    if v.len() >= 2 && separates(v[0], false) && separates(v[1], false) {
        let ghost rest = v@.skip(2);
        assert(v@.len() > 2 ==> rest[0] == v@[2]);
        assert(v@.len() > 3 ==> rest[1] == v@[3]);
        if v.len() >= 4 && v[2] == '.' && separates(v[3], false) {
            return 4 + first_from(&v, 4, false);
        }
        let server: usize = first_from(&v, 2, false);
        let share: usize = share_from(&v, 2, false);
        return if server > 0 && server < share {
            2 + share
        } else {
            0
        };
    }
    if drive_at(&v, 0) {
        2
    } else {
        0
    }
}

/// The last component of a path without a prefix.
fn name_of(path: &str, verbatim: bool) -> (r: String)
    ensures
        r@ == last_name(path@, verbatim),
{
    let v: Vec<char> = text::chars_of(path);
    let mut end: usize = v.len();
    assert(v@.take(end as int) =~= v@);
    while end > 0 && (separates(v[end - 1], verbatim) || (!verbatim && v[end - 1] == '.' && (end == 1
        || separates(v[end - 2], verbatim))))
        invariant
            end <= v@.len(),
            without_tail(v@, verbatim) == without_tail(v@.take(end as int), verbatim),
        decreases end,
    {
        let ghost p = v@.take(end as int);
        assert(p.last() == v@[end - 1]);
        assert(end > 1 ==> p[end - 2] == v@[end - 2]);
        assert(p.drop_last() =~= v@.take(end - 1));
        end -= 1;
    }
    let ghost p = v@.take(end as int);
    proof {
        assert(end > 0 ==> p.last() == v@[end - 1]);
        assert(end > 1 ==> p[end - 2] == v@[end - 2]);
        assert(without_tail(v@, verbatim) == p);
        lemma_name_len(p, verbatim);
    }
    let mut from: usize = end;
    assert(p.take(end as int) =~= p);
    while from > 0 && !separates(v[from - 1], verbatim)
        invariant
            from <= end <= v@.len(),
            p == v@.take(end as int),
            name_len(p, verbatim) == (end - from) + name_len(p.take(from as int), verbatim),
        decreases from,
    {
        assert(p.take(from as int).last() == v@[from - 1]);
        assert(p.take(from as int).drop_last() =~= p.take(from - 1));
        from -= 1;
    }
    proof {
        if from > 0 {
            assert(p.take(from as int).last() == v@[from - 1]);
        }
        assert(name_len(p, verbatim) == end - from);
        assert(p.skip(p.len() - name_len(p, verbatim)) =~= v@.subrange(from as int, end as int));
    }
    text::slice_text(&v, from, end)
}

fn component_of(path: &str) -> (r: String)
    ensures
        r@ == last_component(path@),
{
    let v: Vec<char> = text::chars_of(path);
    let n: usize = prefix_of(path);
    let body: String = text::slice_text(&v, n, v.len());
    assert(body@ =~= path@.skip(n as int));
    name_of(body.as_str(), text::starts_with_text(path, VERBATIM))
}

fn batch(program: &str) -> (r: bool)
    ensures
        r == is_batch(program@),
{
    let name: String = component_of(program);
    match text::rsplit_once_text(name.as_str(), '.') {
        Some((before, ext)) => !before.as_str().is_empty() && (text::eq_ignore_case(
            ext.as_str(),
            "cmd",
        ) || text::eq_ignore_case(ext.as_str(), "bat")),
        None => false,
    }
}

/// How a program is run.
pub fn command(program: &str, platform: Platform) -> (r: CommandLine)
    ensures
        r@ == command_for(program@, platform),
{
    let mut args: Vec<String> = Vec::new();
    assert(text::texts(args@) =~= Seq::empty());
    if platform == Platform::Windows && batch(program) {
        text::push_text(&mut args, "/D");
        text::push_text(&mut args, "/S");
        text::push_text(&mut args, "/C");
        text::push_text(&mut args, program);
        assert(text::texts(args@) =~= seq!["/D"@, "/S"@, "/C"@, program@]);
        CommandLine { program: "cmd.exe".to_owned(), args }
    } else {
        CommandLine { program: program.to_owned(), args }
    }
}

/// Windows: the child is the first of a new process group.
pub const CREATE_NEW_PROCESS_GROUP: u32 = 0x0000_0200;

/// Windows: the child gets no console window.
pub const CREATE_NO_WINDOW: u32 = 0x0800_0000;

/// How a child is put into a process group of its own.
#[derive(Clone, Copy, Debug, PartialEq, Eq, Structural)]
pub enum Grouping {
    /// It leads the group with its own id.
    OwnGroup,
    /// It is created with these flags.
    Flags(u32),
    /// It stays where it is.
    Nothing,
}

/// How a child gets a process group of its own.
pub open spec fn grouping(platform: Platform) -> Grouping {
    match platform {
        Platform::Unix => Grouping::OwnGroup,
        Platform::Windows => Grouping::Flags(
            (CREATE_NEW_PROCESS_GROUP + CREATE_NO_WINDOW) as u32,
        ),
        Platform::Other => Grouping::Nothing,
    }
}

/// How a child is put into a process group of its own, so that it can be ended
/// with its descendants.
pub fn new_process_group(platform: Platform) -> (r: Grouping)
    ensures
        r == grouping(platform),
{
    match platform {
        Platform::Unix => Grouping::OwnGroup,
        Platform::Windows => Grouping::Flags(CREATE_NEW_PROCESS_GROUP + CREATE_NO_WINDOW),
        Platform::Other => Grouping::Nothing,
    }
}

/// How a child is detached, so that it outlives this process.
pub fn detach(platform: Platform) -> (r: Grouping)
    ensures
        r == grouping(platform),
{
    new_process_group(platform)
}

// ---------------------------------------------------------------------------
// Processes
// ---------------------------------------------------------------------------

/// The command that tells of a process. There is none for an empty id.
pub open spec fn pid_query(pid: Seq<char>, platform: Platform) -> Option<CommandV> {
    let id = text::trim(pid);
    if id.len() == 0 {
        None
    } else {
        match platform {
            Platform::Unix => Some(
                CommandV { program: "ps"@, args: seq!["-o"@, "stat="@, "-p"@, id] },
            ),
            Platform::Windows => Some(
                CommandV {
                    program: "tasklist"@,
                    args: seq!["/FI"@, "PID eq "@ + id, "/FO"@, "CSV"@, "/NH"@],
                },
            ),
            Platform::Other => None,
        }
    }
}

/// The process is alive, by what the command printed. A zombie is not alive.
pub open spec fn shows_alive(pid: Seq<char>, platform: Platform, printed: Option<Seq<char>>) -> bool {
    let id = text::trim(pid);
    match printed {
        Some(out) => {
            let shown = text::trim(out);
            match platform {
                Platform::Unix => id.len() > 0 && shown.len() > 0 && shown[0] != 'Z',
                Platform::Windows => id.len() > 0 && shown.len() > 0 && !text::contains(
                    shown,
                    "No tasks"@,
                ) && text::contains(shown, id),
                Platform::Other => false,
            }
        },
        None => false,
    }
}

/// The command that tells of a process.
pub fn pid_command(pid: &str, platform: Platform) -> (r: Option<CommandLine>)
    ensures
        opt_command(r) == pid_query(pid@, platform),
{
    let id: String = text::trim_text(pid);
    if id.as_str().is_empty() {
        return None;
    }
    let mut args: Vec<String> = Vec::new();
    assert(text::texts(args@) =~= Seq::empty());
    match platform {
        Platform::Unix => {
            text::push_text(&mut args, "-o");
            text::push_text(&mut args, "stat=");
            text::push_text(&mut args, "-p");
            text::push_text(&mut args, id.as_str());
            assert(text::texts(args@) =~= seq!["-o"@, "stat="@, "-p"@, id@]);
            Some(CommandLine { program: "ps".to_owned(), args })
        },
        Platform::Windows => {
            let filter: String = text::concat2("PID eq ", id.as_str());
            text::push_text(&mut args, "/FI");
            text::push_text(&mut args, filter.as_str());
            text::push_text(&mut args, "/FO");
            text::push_text(&mut args, "CSV");
            text::push_text(&mut args, "/NH");
            assert(text::texts(args@) =~= seq!["/FI"@, filter@, "/FO"@, "CSV"@, "/NH"@]);
            Some(CommandLine { program: "tasklist".to_owned(), args })
        },
        Platform::Other => None,
    }
}

/// The process is alive, by what the command printed if it succeeded.
pub fn pid_alive(pid: &str, platform: Platform, printed: Option<&str>) -> (r: bool)
    ensures
        r == shows_alive(pid@, platform, text::opt_str(printed)),
{
    let id: String = text::trim_text(pid);
    match printed {
        Some(out) => {
            let shown: String = text::trim_text(out);
            if id.as_str().is_empty() || shown.as_str().is_empty() {
                return false;
            }
            match platform {
                Platform::Unix => {
                    let v: Vec<char> = text::chars_of(shown.as_str());
                    v[0] != 'Z'
                },
                Platform::Windows => !text::contains_text(shown.as_str(), "No tasks")
                    && text::contains_text(shown.as_str(), id.as_str()),
                Platform::Other => false,
            }
        },
        None => false,
    }
}

/// The commands that end a process and its descendants, each to be tried only
/// if those before it failed. There are none for an empty id.
pub open spec fn kill_attempts(pid: Seq<char>, platform: Platform) -> Seq<CommandV> {
    let id = text::trim(pid);
    if id.len() == 0 {
        Seq::empty()
    } else {
        match platform {
            Platform::Unix => seq![
                (CommandV { program: "kill"@, args: seq!["-TERM"@, "--"@, "-"@ + id] }),
                (CommandV { program: "kill"@, args: seq!["-TERM"@, id] }),
            ],
            Platform::Windows => seq![
                (CommandV { program: "taskkill"@, args: seq!["/PID"@, id, "/T"@, "/F"@] }),
            ],
            Platform::Other => Seq::empty(),
        }
    }
}

/// The commands that end a process and its descendants.
pub fn kill_tree(pid: &str, platform: Platform) -> (r: Vec<CommandLine>)
    ensures
        command_models(r@) == kill_attempts(pid@, platform),
{
    let id: String = text::trim_text(pid);
    let mut out: Vec<CommandLine> = Vec::new();
    assert(command_models(out@) =~= Seq::empty());
    if id.as_str().is_empty() {
        return out;
    }
    match platform {
        Platform::Unix => {
            let group: String = text::concat2("-", id.as_str());
            let mut first: Vec<String> = Vec::new();
            assert(text::texts(first@) =~= Seq::empty());
            text::push_text(&mut first, "-TERM");
            text::push_text(&mut first, "--");
            text::push_text(&mut first, group.as_str());
            assert(text::texts(first@) =~= seq!["-TERM"@, "--"@, "-"@ + id@]);
            let mut second: Vec<String> = Vec::new();
            assert(text::texts(second@) =~= Seq::empty());
            text::push_text(&mut second, "-TERM");
            text::push_text(&mut second, id.as_str());
            assert(text::texts(second@) =~= seq!["-TERM"@, id@]);
            out.push(CommandLine { program: "kill".to_owned(), args: first });
            out.push(CommandLine { program: "kill".to_owned(), args: second });
        },
        Platform::Windows => {
            let mut args: Vec<String> = Vec::new();
            assert(text::texts(args@) =~= Seq::empty());
            text::push_text(&mut args, "/PID");
            text::push_text(&mut args, id.as_str());
            text::push_text(&mut args, "/T");
            text::push_text(&mut args, "/F");
            assert(text::texts(args@) =~= seq!["/PID"@, id@, "/T"@, "/F"@]);
            out.push(CommandLine { program: "taskkill".to_owned(), args });
        },
        Platform::Other => {},
    }
    assert(command_models(out@) =~= kill_attempts(pid@, platform));
    out
}

// ---------------------------------------------------------------------------
// Errors
// ---------------------------------------------------------------------------

/// Windows: the paths of a rename are on different volumes.
pub const ERROR_NOT_SAME_DEVICE: i32 = 17;

/// The numbers that systems give the error of a rename between volumes: 18
/// almost everywhere, others on HelenOS, Emscripten and WASI, Haiku and Hurd.
pub open spec fn is_exdev_number(code: i32) -> bool {
    code == 18 || code == 27 || code == 75 || code == -2147459061 || code == 1073741842
}

/// `libc::EXDEV`, the number of the error that a rename between volumes gives.
/// It depends on the machine: all that is said of it is that it is one of the
/// numbers that systems have for it.
#[verifier::external_body]
fn exdev() -> (r: i32)
    ensures
        is_exdev_number(r),
{
    libc::EXDEV
}

/// The number of the error that a rename between volumes gives: the machine's
/// on Unix, none where there is no such error.
pub open spec fn cross_device(platform: Platform, exdev: i32) -> Option<i32> {
    match platform {
        Platform::Unix => Some(exdev),
        Platform::Windows => Some(ERROR_NOT_SAME_DEVICE),
        Platform::Other => None,
    }
}

/// The error is that of a rename between volumes, given the machine's number
/// of it.
pub fn crosses_devices(raw: Option<i32>, platform: Platform, exdev: i32) -> (r: bool)
    ensures
        r == (raw is Some && raw == cross_device(platform, exdev)),
{
    match (raw, platform) {
        (Some(code), Platform::Unix) => code == exdev,
        (Some(code), Platform::Windows) => code == ERROR_NOT_SAME_DEVICE,
        _ => false,
    }
}

/// The error is that of a rename between volumes. On Unix the machine decides
/// which number that is.
pub fn is_exdev(raw: Option<i32>, platform: Platform) -> (r: bool)
    ensures
        platform == Platform::Windows ==> r == (raw == Some(ERROR_NOT_SAME_DEVICE)),
        platform == Platform::Other ==> !r,
        platform == Platform::Unix && r ==> (raw matches Some(code) && is_exdev_number(code)),
        exists|code: i32| #[trigger]
            is_exdev_number(code) && r == (raw is Some && raw == cross_device(platform, code)),
{
    let code: i32 = exdev();
    let r: bool = crosses_devices(raw, platform, code);
    assert(is_exdev_number(code) && r == (raw is Some && raw == cross_device(platform, code)));
    r
}

// ---------------------------------------------------------------------------
// Quoting
// ---------------------------------------------------------------------------

/// A text in single quotes for PowerShell: each quote in it is doubled.
pub open spec fn ps_quoted(value: Seq<char>) -> Seq<char> {
    "'"@ + text::replace(value, '\'', "''"@) + "'"@
}

/// A text in single quotes for PowerShell.
pub fn ps_quote(value: &str) -> (r: String)
    ensures
        r@ == ps_quoted(value@),
{
    let inner: String = text::replace_char(value, '\'', "''");
    text::concat3("'", inner.as_str(), "'")
}

/// A text in single quotes for a POSIX shell: for each quote in it the quotes
/// are closed, the quote is escaped, and they are opened again.
pub open spec fn sh_quoted(value: Seq<char>) -> Seq<char> {
    "'"@ + text::replace(value, '\'', "'\\''"@) + "'"@
}

/// A text in single quotes for a POSIX shell.
pub fn sh_quote(value: &str) -> (r: String)
    ensures
        r@ == sh_quoted(value@),
{
    let inner: String = text::replace_char(value, '\'', "'\\''");
    text::concat3("'", inner.as_str(), "'")
}

// ---------------------------------------------------------------------------
// Laws
// ---------------------------------------------------------------------------

/// What PowerShell reads behind an opening quote: the value up to the closing
/// quote, and what follows it. Two quotes stand for one.
pub open spec fn ps_read(s: Seq<char>) -> Option<(Seq<char>, Seq<char>)>
    decreases s.len(),
{
    if s.len() == 0 {
        None
    } else if s[0] == '\'' {
        if s.len() > 1 && s[1] == '\'' {
            match ps_read(s.skip(2)) {
                Some((value, rest)) => Some((seq!['\''] + value, rest)),
                None => None,
            }
        } else {
            Some((Seq::empty(), s.skip(1)))
        }
    } else {
        match ps_read(s.skip(1)) {
            Some((value, rest)) => Some((seq![s[0]] + value, rest)),
            None => None,
        }
    }
}

/// What a POSIX shell reads as a word that starts in single quotes: quoted
/// runs and escaped characters, one behind the other, and what follows them.
pub open spec fn sh_read(s: Seq<char>, quoted: bool) -> Option<(Seq<char>, Seq<char>)>
    decreases s.len(),
{
    if quoted {
        if s.len() == 0 {
            None
        } else if s[0] == '\'' {
            sh_read(s.skip(1), false)
        } else {
            match sh_read(s.skip(1), true) {
                Some((value, rest)) => Some((seq![s[0]] + value, rest)),
                None => None,
            }
        }
    } else if s.len() > 0 && s[0] == '\'' {
        sh_read(s.skip(1), true)
    } else if s.len() > 1 && s[0] == '\\' {
        match sh_read(s.skip(2), false) {
            Some((value, rest)) => Some((seq![s[1]] + value, rest)),
            None => None,
        }
    } else {
        Some((Seq::empty(), s))
    }
}

proof fn lemma_replace_front(s: Seq<char>, c: char, by: Seq<char>)
    requires
        s.len() > 0,
    ensures
        text::replace(s, c, by) == (if s[0] == c {
            by
        } else {
            seq![s[0]]
        }) + text::replace(s.drop_first(), c, by),
    decreases s.len(),
{
    let front = if s[0] == c {
        by
    } else {
        seq![s[0]]
    };
    reveal_with_fuel(text::replace, 2);
    if s.len() == 1 {
        assert(s.drop_last() =~= Seq::empty());
        assert(s.drop_first() =~= Seq::empty());
        assert(text::replace(s, c, by) =~= front + text::replace(s.drop_first(), c, by));
    } else {
        lemma_replace_front(s.drop_last(), c, by);
        assert(s.drop_last().drop_first() =~= s.drop_first().drop_last());
        assert(s.drop_first().last() == s.last());
        assert(text::replace(s, c, by) =~= front + text::replace(s.drop_first(), c, by));
    }
}

/// PowerShell reads a quoted text as that text, and goes on behind it.
pub proof fn ps_quoting_reads_back(value: Seq<char>, rest: Seq<char>)
    requires
        rest.len() == 0 || rest[0] != '\'',
    ensures
        (ps_quoted(value) + rest)[0] == '\'',
        ps_read((ps_quoted(value) + rest).skip(1)) == Some((value, rest)),
{
    reveal_strlit("'");
    let body = text::replace(value, '\'', "''"@);
    assert((ps_quoted(value) + rest).skip(1) =~= body + "'"@ + rest);
    lemma_ps(value, rest);
}

proof fn lemma_ps(value: Seq<char>, rest: Seq<char>)
    requires
        rest.len() == 0 || rest[0] != '\'',
    ensures
        ps_read(text::replace(value, '\'', "''"@) + "'"@ + rest) == Some((value, rest)),
    decreases value.len(),
{
    reveal_strlit("'");
    reveal_strlit("''");
    let s = text::replace(value, '\'', "''"@) + "'"@ + rest;
    if value.len() == 0 {
        assert(s =~= seq!['\''] + rest);
        assert(s.skip(1) =~= rest);
        assert(value =~= Seq::empty());
    } else {
        let tail = value.drop_first();
        lemma_replace_front(value, '\'', "''"@);
        lemma_ps(tail, rest);
        let later = text::replace(tail, '\'', "''"@) + "'"@ + rest;
        if value[0] == '\'' {
            assert(s =~= seq!['\'', '\''] + later);
            assert(s.skip(2) =~= later);
        } else {
            assert(s =~= seq![value[0]] + later);
            assert(s.skip(1) =~= later);
        }
        assert(seq![value[0]] + tail =~= value);
    }
}

/// A POSIX shell reads a quoted text as that text, and goes on behind it.
pub proof fn sh_quoting_reads_back(value: Seq<char>, rest: Seq<char>)
    requires
        rest.len() == 0 || (rest[0] != '\'' && rest[0] != '\\'),
    ensures
        (sh_quoted(value) + rest)[0] == '\'',
        sh_read((sh_quoted(value) + rest).skip(1), true) == Some((value, rest)),
{
    reveal_strlit("'");
    let body = text::replace(value, '\'', "'\\''"@);
    assert((sh_quoted(value) + rest).skip(1) =~= body + "'"@ + rest);
    lemma_sh(value, rest);
}

/// Quotes that are closed, an escaped quote, and quotes that are opened again
/// read as one quote.
proof fn lemma_sh_escape(later: Seq<char>)
    ensures
        sh_read(seq!['\'', '\\', '\'', '\''] + later, true) == (match sh_read(later, true) {
            Some((value, rest)) => Some((seq!['\''] + value, rest)),
            None => None::<(Seq<char>, Seq<char>)>,
        }),
{
    let s0 = seq!['\'', '\\', '\'', '\''] + later;
    let s1 = s0.skip(1);
    let s2 = s1.skip(2);
    assert(s0[0] == '\'');
    assert(sh_read(s0, true) == sh_read(s1, false));
    assert(s1[0] == '\\' && s1[1] == '\'');
    assert(s2[0] == '\'');
    assert(s2.skip(1) =~= later);
    assert(sh_read(s2, false) == sh_read(later, true));
}

proof fn lemma_sh(value: Seq<char>, rest: Seq<char>)
    requires
        rest.len() == 0 || (rest[0] != '\'' && rest[0] != '\\'),
    ensures
        sh_read(text::replace(value, '\'', "'\\''"@) + "'"@ + rest, true) == Some((value, rest)),
    decreases value.len(),
{
    reveal_strlit("'");
    reveal_strlit("'\\''");
    let s = text::replace(value, '\'', "'\\''"@) + "'"@ + rest;
    if value.len() == 0 {
        assert(s =~= seq!['\''] + rest);
        assert(s.skip(1) =~= rest);
        assert(value =~= Seq::empty());
        assert(sh_read(rest, false) == Some((Seq::<char>::empty(), rest)));
    } else {
        let tail = value.drop_first();
        let later = text::replace(tail, '\'', "'\\''"@) + "'"@ + rest;
        lemma_replace_front(value, '\'', "'\\''"@);
        lemma_sh(tail, rest);
        assert(seq![value[0]] + tail =~= value);
        if value[0] == '\'' {
            assert(s =~= seq!['\'', '\\', '\'', '\''] + later);
            lemma_sh_escape(later);
        } else {
            assert(s =~= seq![value[0]] + later);
            assert(s.skip(1) =~= later);
        }
    }
}

/// Only verbatim paths are rewritten, and only on Windows.
pub proof fn regular_paths_stay(path: Seq<char>, platform: Platform)
    requires
        platform != Platform::Windows || !text::starts_with(path, VERBATIM@),
    ensures
        regular_path(path, platform) == path,
{
    reveal_strlit("\\\\?\\UNC\\");
    reveal_strlit("\\\\?\\");
    if platform == Platform::Windows && text::starts_with(path, VERBATIM_UNC@) {
        assert(path.take(VERBATIM@.len() as int) =~= VERBATIM_UNC@.take(VERBATIM@.len() as int)) by {
            assert(path.take(VERBATIM_UNC@.len() as int) == VERBATIM_UNC@);
            assert(path.take(VERBATIM_UNC@.len() as int).take(VERBATIM@.len() as int)
                =~= path.take(VERBATIM@.len() as int));
        }
        assert(VERBATIM_UNC@.take(VERBATIM@.len() as int) =~= VERBATIM@);
    }
}

/// A verbatim path is spelled as a regular one on Windows: without what marks
/// it as verbatim, and on a network share with what marks that.
pub proof fn verbatim_paths_become_regular(rest: Seq<char>)
    ensures
        regular_path("\\\\?\\UNC\\"@ + rest, Platform::Windows) == "\\\\"@ + rest,
        !text::starts_with(rest, "UNC\\"@) ==> regular_path("\\\\?\\"@ + rest, Platform::Windows)
            == rest,
{
    reveal_strlit("\\\\?\\UNC\\");
    reveal_strlit("\\\\?\\");
    reveal_strlit("UNC\\");
    let share = "\\\\?\\UNC\\"@ + rest;
    let plain = "\\\\?\\"@ + rest;
    assert(share.take(8) =~= "\\\\?\\UNC\\"@);
    assert(share.skip(8) =~= rest);
    assert(plain.take(4) =~= "\\\\?\\"@);
    assert(plain.skip(4) =~= rest);
    if !text::starts_with(rest, "UNC\\"@) && text::starts_with(plain, "\\\\?\\UNC\\"@) {
        assert(rest.take(4) =~= plain.take(8).skip(4));
        assert("\\\\?\\UNC\\"@.skip(4) =~= "UNC\\"@);
    }
}

proof fn lemma_name_behind(dir: Seq<char>, sep: char, file: Seq<char>)
    requires
        is_separator(sep, false),
        file.len() > 0,
        forall|i: int| 0 <= i < file.len() ==> !is_separator(#[trigger] file[i], false),
        file != seq!['.'],
    ensures
        last_name(dir + seq![sep] + file, false) == file,
{
    let path = dir + seq![sep] + file;
    let n = file.len() as int;
    assert(path.last() == file.last());
    assert(!is_separator(file[n - 1], false));
    if ends_in_dot(path, false) {
        if n == 1 {
            assert(file =~= seq!['.']);
        } else {
            assert(path[path.len() - 2] == file[n - 2]);
            assert(!is_separator(file[n - 2], false));
        }
    }
    assert(without_tail(path, false) == path);
    lemma_name_of(dir + seq![sep], file);
    assert(path.skip(path.len() - n) =~= file);
}

proof fn lemma_name_of(before: Seq<char>, file: Seq<char>)
    requires
        before.len() == 0 || is_separator(before.last(), false),
        forall|i: int| 0 <= i < file.len() ==> !is_separator(#[trigger] file[i], false),
    ensures
        name_len(before + file, false) == file.len(),
    decreases file.len(),
{
    let path = before + file;
    if file.len() == 0 {
        assert(path =~= before);
    } else {
        let init = file.drop_last();
        assert forall|i: int| 0 <= i < init.len() implies !is_separator(
            #[trigger] init[i],
            false,
        ) by {
            assert(init[i] == file[i]);
        }
        lemma_name_of(before, init);
        assert(path.drop_last() =~= before + init);
        assert(path.last() == file[file.len() - 1]);
    }
}

/// The last component of a path is what stands behind its last separator, of
/// either kind, with a drive before it or without one.
pub proof fn names_stand_behind_the_separator(dir: Seq<char>, sep: char, file: Seq<char>)
    requires
        dir.len() > 0,
        dir[0] != '\\',
        dir[0] != '/',
        sep == '\\' || sep == '/',
        file.len() > 0,
        forall|i: int| 0 <= i < file.len() ==> #[trigger] file[i] != '\\' && file[i] != '/',
        file != seq!['.'],
    ensures
        last_component(dir + seq![sep] + file) == file,
{
    reveal_strlit("\\\\?\\");
    let path = dir + seq![sep] + file;
    assert(path[0] == dir[0]);
    if text::starts_with(path, VERBATIM@) {
        assert(path.take(VERBATIM@.len() as int)[0] == '\\');
    }
    assert forall|i: int| 0 <= i < file.len() implies !is_separator(#[trigger] file[i], false) by {}
    if dir.len() == 1 {
        assert(path[1] == sep);
    }
    if has_drive(path) {
        assert(path.skip(2) =~= dir.skip(2) + seq![sep] + file);
        lemma_name_behind(dir.skip(2), sep, file);
    } else {
        assert(path.skip(0) =~= path);
        lemma_name_behind(dir, sep, file);
    }
}

/// A batch file is known by its extension, in any case, and runs in the
/// command interpreter on Windows, which is told to run just that. Any other
/// program, and any program elsewhere, runs by itself.
pub proof fn batch_files_run_in_the_interpreter(
    dir: Seq<char>,
    name: Seq<char>,
    ext: Seq<char>,
    platform: Platform,
)
    requires
        dir.len() > 0,
        dir[0] != '\\',
        dir[0] != '/',
        name.len() > 0,
        forall|i: int| 0 <= i < name.len() ==> #[trigger] name[i] != '\\' && name[i] != '/',
        forall|i: int|
            0 <= i < ext.len() ==> #[trigger] ext[i] != '\\' && ext[i] != '/' && ext[i] != '.',
    ensures
        ({
            let program = dir + seq!['\\'] + (name + seq!['.'] + ext);
            let lower = text::lower_text(ext);
            let run = command_for(program, platform);
            &&& platform == Platform::Windows && (lower == "cmd"@ || lower == "bat"@) ==> run
                == (CommandV { program: "cmd.exe"@, args: seq!["/D"@, "/S"@, "/C"@, program] })
            &&& platform != Platform::Windows || !(lower == "cmd"@ || lower == "bat"@) ==> run
                == (CommandV { program, args: Seq::empty() })
        }),
{
    reveal_strlit("cmd");
    reveal_strlit("bat");
    assert(text::lower_text("cmd"@) =~= "cmd"@);
    assert(text::lower_text("bat"@) =~= "bat"@);
    let file = name + seq!['.'] + ext;
    assert forall|i: int| 0 <= i < file.len() implies #[trigger] file[i] != '\\' && file[i]
        != '/' by {
        if i < name.len() {
            assert(file[i] == name[i]);
        } else if i > name.len() {
            assert(file[i] == ext[i - name.len() - 1]);
        }
    }
    if file == seq!['.'] {
        assert(file.len() == 1);
    }
    names_stand_behind_the_separator(dir, '\\', file);
    text::splits_read_back(file, '.');
    assert(file[name.len() as int] == '.');
    let (a, b) = text::rsplit_once(file, '.')->0;
    let m = a.len() as int;
    let n = name.len() as int;
    assert(file[m] == '.');
    if m < n {
        assert(b[n - m - 1] == file[n]);
        assert(b.contains('.'));
    }
    if m > n {
        assert(ext[m - n - 1] == '.');
    }
    assert(b =~= file.skip(m + 1));
    assert(ext =~= file.skip(n + 1));
}

/// A process is asked after by its id, with the tool that the platform has for
/// that; without an id nothing is asked.
pub proof fn processes_are_asked_after_by_id(pid: Seq<char>)
    ensures
        ({
            let id = text::trim(pid);
            &&& id.len() == 0 ==> pid_query(pid, Platform::Unix) is None && pid_query(
                pid,
                Platform::Windows,
            ) is None
            &&& id.len() > 0 ==> (pid_query(pid, Platform::Unix) matches Some(c) && c.program
                == "ps"@ && c.args == seq!["-o"@, "stat="@, "-p"@, id])
            &&& id.len() > 0 ==> (pid_query(pid, Platform::Windows) matches Some(c) && c.program
                == "tasklist"@ && c.args[0] == "/FI"@ && c.args[1] == "PID eq "@ + id)
        }),
{
}

/// A process is alive if the tool shows it, and on Unix no zombie. Where the
/// tool shows nothing, says that there is no such task, or failed, it is not.
pub proof fn shown_processes_are_alive(
    pid: Seq<char>,
    shown: Seq<char>,
    before: Seq<char>,
    behind: Seq<char>,
)
    requires
        pid.len() > 0,
        !text::is_white(pid[0]),
        !text::is_white(pid.last()),
        shown.len() > 0,
        !text::is_white(shown[0]),
        !text::is_white(shown.last()),
    ensures
        shows_alive(pid, Platform::Unix, Some(shown)) <==> shown[0] != 'Z',
        shown == before + pid + behind && !text::contains(shown, "No tasks"@) ==> shows_alive(
            pid,
            Platform::Windows,
            Some(shown),
        ),
        text::contains(shown, "No tasks"@) || !text::contains(shown, pid) ==> !shows_alive(
            pid,
            Platform::Windows,
            Some(shown),
        ),
        !shows_alive(pid, Platform::Unix, None),
        !shows_alive(pid, Platform::Windows, None),
        !shows_alive(pid, Platform::Unix, Some(Seq::empty())),
        !shows_alive(Seq::empty(), Platform::Unix, Some(shown)),
{
    text::trimmed_texts_stay(pid);
    text::trimmed_texts_stay(shown);
    text::trimmed_texts_stay(Seq::empty());
    text::phrases_are_found(before, pid, behind);
}

/// A process is ended with its descendants: on Unix by a signal to the group
/// that it leads, and if there is none to the process alone; on Windows with
/// the whole tree. Without an id nothing is ended.
pub proof fn processes_end_with_their_descendants(pid: Seq<char>)
    ensures
        ({
            let id = text::trim(pid);
            let unix = kill_attempts(pid, Platform::Unix);
            let windows = kill_attempts(pid, Platform::Windows);
            &&& id.len() == 0 ==> unix.len() == 0 && windows.len() == 0
            &&& id.len() > 0 ==> {
                &&& unix.len() == 2
                &&& unix[0].program == "kill"@ && unix[0].args == seq![
                    "-TERM"@,
                    "--"@,
                    "-"@ + id,
                ]
                &&& unix[1].program == "kill"@ && unix[1].args == seq!["-TERM"@, id]
                &&& windows.len() == 1
                &&& windows[0].program == "taskkill"@ && windows[0].args == seq![
                    "/PID"@,
                    id,
                    "/T"@,
                    "/F"@,
                ]
            }
        }),
{
}

/// A child gets a group of its own: on Unix it leads one, and on Windows it is
/// created with a new group and without a window.
pub proof fn children_get_their_own_group()
    ensures
        grouping(Platform::Unix) == Grouping::OwnGroup,
        grouping(Platform::Windows) == Grouping::Flags(0x0800_0200),
        grouping(Platform::Other) == Grouping::Nothing,
{
}

/// A rename between volumes is known by the platform's own number for it.
pub proof fn crossing_volumes_has_a_number(exdev: i32)
    ensures
        cross_device(Platform::Unix, exdev) == Some(exdev),
        cross_device(Platform::Windows, exdev) == Some(17i32),
        cross_device(Platform::Other, exdev) is None,
{
}

/// What names a drive or a share is no component: a drive with nothing behind
/// it has no last component, and neither has a share.
pub proof fn drives_and_shares_are_no_components(letter: char, server: Seq<char>, share: Seq<char>)
    requires
        'a' <= letter <= 'z' || 'A' <= letter <= 'Z',
        server.len() > 0,
        share.len() > 0,
        forall|i: int| 0 <= i < server.len() ==> #[trigger] server[i] != '\\' && server[i] != '/',
        forall|i: int| 0 <= i < share.len() ==> #[trigger] share[i] != '\\' && share[i] != '/',
        server[0] != '?',
        server[0] != '.',
    ensures
        last_component(seq![letter, ':']) == Seq::<char>::empty(),
        last_component(seq!['\\', '\\'] + server + seq!['\\'] + share) == Seq::<char>::empty(),
{
    reveal_strlit("\\\\?\\");
    let drive = seq![letter, ':'];
    if text::starts_with(drive, VERBATIM@) {
        assert(drive.len() >= 4);
    }
    let none = Seq::<char>::empty();
    assert(drive.skip(2) =~= none);
    assert(last_name(none, false) =~= none);
    let path = seq!['\\', '\\'] + server + seq!['\\'] + share;
    if text::starts_with(path, VERBATIM@) {
        assert(path[2] == server[0]);
        assert(path.take(4)[2] == '?');
    }
    let rest = path.skip(2);
    assert(rest =~= server + (seq!['\\'] + share));
    lemma_first(server, seq!['\\'] + share);
    assert(rest.skip(server.len() as int + 1) =~= share + none);
    lemma_first(share, none);
    assert(share + none =~= share);
    assert(share_len(rest, false) == server.len() + 1 + share.len());
    assert(rest[0] == server[0]);
    assert(prefix_len(path) == path.len());
    assert(path.skip(path.len() as int) =~= none);
}

proof fn lemma_first(name: Seq<char>, rest: Seq<char>)
    requires
        forall|i: int| 0 <= i < name.len() ==> #[trigger] name[i] != '\\' && name[i] != '/',
        rest.len() > 0 ==> rest[0] == '\\',
    ensures
        first_len(name + rest, false) == name.len(),
    decreases name.len(),
{
    let s = name + rest;
    if name.len() == 0 {
        assert(s =~= rest);
    } else {
        let more = name.drop_first();
        assert forall|i: int| 0 <= i < more.len() implies #[trigger] more[i] != '\\' && more[i]
            != '/' by {
            assert(more[i] == name[i + 1]);
        }
        lemma_first(more, rest);
        assert(s.drop_first() =~= more + rest);
        assert(s[0] == name[0]);
    }
}

/// A device is no component.
pub proof fn devices_are_no_components(name: Seq<char>)
    requires
        forall|i: int| 0 <= i < name.len() ==> #[trigger] name[i] != '\\' && name[i] != '/',
    ensures
        last_component(seq!['\\', '\\', '.', '\\'] + name) == Seq::<char>::empty(),
{
    reveal_strlit("\\\\?\\");
    let path = seq!['\\', '\\', '.', '\\'] + name;
    if text::starts_with(path, VERBATIM@) {
        assert(path.take(4)[2] == '?');
    }
    let rest = path.skip(2);
    assert(rest[0] == '.' && rest[1] == '\\');
    let none = Seq::<char>::empty();
    assert(path.skip(4) =~= name + none);
    lemma_first(name, none);
    assert(prefix_len(path) == path.len());
    assert(path.skip(path.len() as int) =~= none);
    assert(last_name(none, false) =~= none);
}

proof fn lemma_verbatim_name(before: Seq<char>, file: Seq<char>)
    requires
        before.len() > 0,
        before.last() == '\\',
        forall|i: int| 0 <= i < file.len() ==> #[trigger] file[i] != '\\',
    ensures
        name_len(before + file, true) == file.len(),
    decreases file.len(),
{
    let path = before + file;
    if file.len() == 0 {
        assert(path =~= before);
    } else {
        let init = file.drop_last();
        assert forall|i: int| 0 <= i < init.len() implies #[trigger] init[i] != '\\' by {
            assert(init[i] == file[i]);
        }
        lemma_verbatim_name(before, init);
        assert(path.drop_last() =~= before + init);
        assert(path.last() == file[file.len() - 1]);
    }
}

/// In a verbatim path only the backslash separates: the last component is what
/// stands behind the last one, with every other character as it is.
pub proof fn verbatim_names_are_taken_as_they_are(letter: char, dir: Seq<char>, file: Seq<char>)
    requires
        'a' <= letter <= 'z' || 'A' <= letter <= 'Z',
        file.len() > 0,
        forall|i: int| 0 <= i < file.len() ==> #[trigger] file[i] != '\\',
    ensures
        last_component(
            seq!['\\', '\\', '?', '\\', letter, ':', '\\'] + dir + seq!['\\'] + file,
        ) == file,
{
    reveal_strlit("\\\\?\\");
    reveal_strlit("\\\\?\\UNC\\");
    let path = seq!['\\', '\\', '?', '\\', letter, ':', '\\'] + dir + seq!['\\'] + file;
    assert(path.take(4) =~= VERBATIM@);
    if text::starts_with(path, VERBATIM_UNC@) {
        assert(path.take(8)[5] == 'N');
    }
    let rest = path.skip(4);
    assert(rest[0] == letter && rest[1] == ':' && rest[2] == '\\');
    assert(prefix_len(path) == 6);
    let before = seq!['\\'] + dir + seq!['\\'];
    assert(path.skip(6) =~= before + file);
    assert((before + file).last() == file[file.len() - 1]);
    assert(without_tail(before + file, true) == before + file);
    lemma_verbatim_name(before, file);
    assert((before + file).skip(before.len() as int) =~= file);
}

/// Separators and single dots at the end of a path stand for nothing: the last
/// component is the same without them.
pub proof fn trailing_separators_stand_for_nothing(path: Seq<char>, sep: char)
    requires
        sep == '\\' || sep == '/',
    ensures
        last_name(path.push(sep), false) == last_name(path, false),
        last_name(path.push(sep).push('.'), false) == last_name(path, false),
        last_name(path.push('\\'), true) == last_name(path, true),
        last_name(Seq::empty(), false) == Seq::<char>::empty(),
{
    assert(path.push(sep).drop_last() =~= path);
    let dotted = path.push(sep).push('.');
    assert(dotted.drop_last() =~= path.push(sep));
    assert(dotted[dotted.len() - 2] == sep);
    assert(path.push('\\').drop_last() =~= path);
    let none = Seq::<char>::empty();
    assert(last_name(none, false) =~= none);
}

} // verus!
