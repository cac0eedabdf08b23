//! Keeping the relay program on other machines up to date, and cleaning up behind it.
//!
//! A relay that may be running is never overwritten: the new one is put beside it, and a marker
//! tells it, once everything is in place, to change over by itself.

use vstd::prelude::*;
use crate::decimal::{integer_text, parse_unsigned, signed_text, unsigned_of, unsigned_text};
use crate::shell::{quoted, shell_quote, slice_texts, wrap_remote_probe_args, RemoteKind, RemoteOs};
use crate::text::{
    all_white_space, contains, ends_with, first_word, first_word_of, has_text, join, joined, lemma_first_word,
    lemma_lines, lemma_pieces_of_joined, lemma_trimmed, lines, lines_of, opt_text, same_text, strip_prefix, texts,
    trim, trimmed, white_space,
};

verus! {

/// The operating system of a relay build.
#[derive(Debug, Clone, Copy, PartialEq, Eq, Structural)]
pub enum Os {
    Windows,
    Darwin,
    Linux,
}

/// The processor of a relay build.
#[derive(Debug, Clone, Copy, PartialEq, Eq, Structural)]
pub enum Arch {
    Amd64,
    Arm64,
}

pub open spec fn platform_of(os: RemoteOs) -> (Os, Arch) {
    match os {
        RemoteOs::Win => (Os::Windows, Arch::Amd64),
        RemoteOs::Mac => (Os::Darwin, Arch::Arm64),
        RemoteOs::Lnx => (Os::Linux, Arch::Amd64),
    }
}

/// The relay build for a profile's host.
pub fn remote_os_to_platform(os: RemoteOs) -> (r: (Os, Arch))
    ensures
        r == platform_of(os),
{
    match os {
        RemoteOs::Win => (Os::Windows, Arch::Amd64),
        RemoteOs::Mac => (Os::Darwin, Arch::Arm64),
        RemoteOs::Lnx => (Os::Linux, Arch::Amd64),
    }
}

/// What follows `marker` in the first line that begins with it.
pub open spec fn marked(lines: Seq<Seq<char>>, marker: Seq<char>) -> Option<Seq<char>>
    decreases lines.len(),
{
    if lines.len() == 0 {
        None
    } else if marker.is_prefix_of(lines[0]) {
        Some(lines[0].skip(marker.len() as int))
    } else {
        marked(lines.drop_first(), marker)
    }
}

fn marked_line(output: &str, marker: &str) -> (r: Option<String>)
    ensures
        opt_text(r) == marked(lines_of(output@), marker@),
{
    let all = lines(output);
    let ghost model = texts(all@);
    let mut i: usize = 0;
    assert(model.skip(0) =~= model);
    while i < all.len()
        invariant
            i <= all@.len(),
            model == texts(all@),
            model == lines_of(output@),
            marked(model, marker@) == marked(model.skip(i as int), marker@),
        decreases all@.len() - i,
    {
        assert(model.skip(i as int)[0] == all@[i as int]@);
        match strip_prefix(all[i].as_str(), marker) {
            Some(rest) => {
                return Some(rest);
            },
            None => {
                assert(model.skip(i as int).drop_first() =~= model.skip(i + 1));
                i += 1;
            },
        }
    }
    None
}

/// The time that the probe reported.
pub open spec fn mtime_of(output: Seq<char>) -> Option<nat> {
    match marked(lines_of(output), "SOM_MTIME:"@) {
        Some(rest) => unsigned_of(trimmed(rest), u64::MAX as nat),
        None => None,
    }
}

/// Reads the time, in seconds, that the probe reported. Noise before it is skipped.
pub fn parse_mtime_output(output: &str) -> (r: Option<u64>)
    ensures
        match r {
            Some(t) => mtime_of(output@) == Some(t as nat),
            None => mtime_of(output@) is None,
        },
{
    match marked_line(output, "SOM_MTIME:") {
        Some(rest) => {
            let text = trim(rest.as_str());
            parse_unsigned(text.as_str(), u64::MAX)
        },
        None => None,
    }
}

/// The client that the probe reported: a user and an address.
pub open spec fn client_id_of(output: Seq<char>) -> Option<Seq<char>> {
    match marked(lines_of(output), "SOM_CLIENT_ID:"@) {
        Some(rest) => match first_word_of(rest) {
            Some(id) => if "@"@.is_suffix_of(id) {
                None
            } else {
                Some(id)
            },
            None => None,
        },
        None => None,
    }
}

/// Reads the client that the probe reported; a client without an address is none.
pub fn read_this_client_id(output: &str) -> (r: Option<String>)
    ensures
        opt_text(r) == client_id_of(output@),
{
    match marked_line(output, "SOM_CLIENT_ID:") {
        Some(rest) => match first_word(rest.as_str()) {
            Some(id) => if ends_with(id.as_str(), "@") {
                None
            } else {
                Some(id)
            },
            None => None,
        },
        None => None,
    }
}

/// The arguments that run a script on the other side.
pub open spec fn script_args(host_args: Seq<Seq<char>>, script: Seq<char>) -> Seq<Seq<char>> {
    host_args.push("sh"@) + seq!["-lc"@, quoted(script)]
}

fn wrap_script(host_args: &Vec<String>, script: &str) -> (r: Vec<String>)
    ensures
        texts(r@) == script_args(texts(host_args@), script@),
{
    let word = shell_quote(script);
    let extra: [&str; 2] = ["-lc", word.as_str()];
    assert(slice_texts(extra@) =~= seq!["-lc"@, quoted(script@)]);
    wrap_remote_probe_args(host_args.as_slice(), "sh", &extra)
}

pub open spec fn client_id_script() -> Seq<char> {
    "echo \"SOM_CLIENT_ID:$(whoami)@$SSH_CLIENT\""@
}

pub open spec fn mtime_script(os: Os) -> Seq<char> {
    if os == Os::Darwin {
        "echo \"SOM_MTIME:$(stat -f %m ~/.local/bin/somsrv 2>/dev/null)\""@
    } else {
        "echo \"SOM_MTIME:$(stat -c %Y ~/.local/bin/somsrv 2>/dev/null)\""@
    }
}

/// The arguments that ask for the relay's age.
pub fn mtime_probe_args(host_args: &Vec<String>, os: Os) -> (r: Vec<String>)
    ensures
        texts(r@) == script_args(texts(host_args@), mtime_script(os)),
{
    if os == Os::Darwin {
        wrap_script(host_args, "echo \"SOM_MTIME:$(stat -f %m ~/.local/bin/somsrv 2>/dev/null)\"")
    } else {
        wrap_script(host_args, "echo \"SOM_MTIME:$(stat -c %Y ~/.local/bin/somsrv 2>/dev/null)\"")
    }
}

/// The arguments that ask for this client's name.
pub fn client_id_probe_args(host_args: &Vec<String>) -> (r: Vec<String>)
    ensures
        texts(r@) == script_args(texts(host_args@), client_id_script()),
{
    wrap_script(host_args, "echo \"SOM_CLIENT_ID:$(whoami)@$SSH_CLIENT\"")
}

/// What a host is told apart from others by: the arguments that lead to it.
pub open spec fn host_key(host_args: Seq<Seq<char>>) -> Seq<char> {
    joined(host_args, " "@)
}

/// The hosts that the relay was set up on, each of which has a lock: the one whose number is the
/// place of the host in the list. Whoever sets up the relay on a host holds its lock, so that no two
/// do it at the same time.
#[derive(Debug)]
pub struct DeployLocks {
    hosts: Vec<String>,
}

impl View for DeployLocks {
    type V = Seq<Seq<char>>;

    closed spec fn view(&self) -> Seq<Seq<char>> {
        texts(self.hosts@)
    }
}

impl DeployLocks {
    /// No host has two locks.
    pub open spec fn well_formed(self) -> bool {
        self@.no_duplicates()
    }

    pub fn new() -> (r: DeployLocks)
        ensures
            r@ == Seq::<Seq<char>>::empty(),
            r.well_formed(),
    {
        let hosts: Vec<String> = Vec::new();
        let locks = DeployLocks { hosts };
        assert(locks@ =~= Seq::<Seq<char>>::empty());
        locks
    }
}

/// The number of the lock of a host, which gets one where it has none yet.
pub fn deploy_lock_for_host(locks: &mut DeployLocks, host_args: &Vec<String>) -> (r: usize)
    requires
        old(locks).well_formed(),
    ensures
        final(locks).well_formed(),
        final(locks)@ == (if old(locks)@.contains(host_key(texts(host_args@))) {
            old(locks)@
        } else {
            old(locks)@.push(host_key(texts(host_args@)))
        }),
        old(locks)@.is_prefix_of(final(locks)@),
        r < final(locks)@.len(),
        final(locks)@[r as int] == host_key(texts(host_args@)),
{
    let key = join(host_args, " ");
    let ghost before = locks@;
    let mut i: usize = 0;
    while i < locks.hosts.len()
        invariant
            i <= locks.hosts@.len(),
            locks@ == before,
            *locks == *old(locks),
            locks.well_formed(),
            key@ == host_key(texts(host_args@)),
            before == old(locks)@,
            before.len() == locks.hosts@.len(),
            forall|j: int| 0 <= j < i ==> #[trigger] before[j] != key@,
        decreases locks.hosts@.len() - i,
    {
        assert(before[i as int] == locks.hosts@[i as int]@);
        if same_text(locks.hosts[i].as_str(), key.as_str()) {
            assert(before.contains(key@));
            return i;
        }
        i += 1;
    }
    let ghost given = key@;
    locks.hosts.push(key);
    assert(locks@ =~= before.push(given));
    i
}

/// One lock per host, for as long as the list is kept, and none shared by two hosts. `a` is the lock
/// that one host was given and `b` that another, or the same, was given later.
pub proof fn lemma_one_lock_per_host(before: Seq<Seq<char>>, after: Seq<Seq<char>>, a: int, b: int)
    requires
        before.is_prefix_of(after),
        after.no_duplicates(),
        0 <= a < before.len(),
        0 <= b < after.len(),
    ensures
        a == b <==> before[a] == after[b],
{
    assert(before[a] == after[a]);
}

/// Why setting up the relay failed, in words for the user.
pub open spec fn deploy_reason(detail: Seq<char>) -> Seq<char> {
    if has_text(detail, "No such file or directory"@) {
        "the somsrv program wasn't found on the server after copying it there"@
    } else if has_text(detail, "Permission denied"@) {
        "the server refused permission while setting up somsrv"@
    } else if has_text(detail, "no embedded somsrv binary for"@) {
        "Som doesn't have a somsrv build for that server's platform"@
    } else if has_text(detail, "failed to spawn"@) {
        "couldn't even start ssh/scp — check that they're installed and on your PATH"@
    } else if has_text(detail, "scp exited with"@) {
        "copying somsrv to the server failed"@
    } else {
        "couldn't reach or set up the server"@
    }
}

pub open spec fn deploy_error_text(profile_name: Seq<char>, detail: Seq<char>) -> Seq<char> {
    "Couldn't set up the \""@ + profile_name + "\" tab: "@ + deploy_reason(detail) + ".\n\nDetails:\n"@
        + detail
}

/// The message that a failed setup is reported with.
pub fn human_readable_deploy_error(profile_name: &str, detail: &str) -> (r: String)
    ensures
        r@ == deploy_error_text(profile_name@, detail@),
{
    let reason = if contains(detail, "No such file or directory") {
        "the somsrv program wasn't found on the server after copying it there"
    } else if contains(detail, "Permission denied") {
        "the server refused permission while setting up somsrv"
    } else if contains(detail, "no embedded somsrv binary for") {
        "Som doesn't have a somsrv build for that server's platform"
    } else if contains(detail, "failed to spawn") {
        "couldn't even start ssh/scp — check that they're installed and on your PATH"
    } else if contains(detail, "scp exited with") {
        "copying somsrv to the server failed"
    } else {
        "couldn't reach or set up the server"
    };
    let mut out = String::from_str("Couldn't set up the \"");
    out.append(profile_name);
    out.append("\" tab: ");
    out.append(reason);
    out.append(".\n\nDetails:\n");
    out.append(detail);
    out
}

/// How urgent a notification is.
#[derive(Debug, Clone, Copy, PartialEq, Eq, Structural)]
pub enum NotificationSeverity {
    Info,
    Warning,
    Error,
}

/// Where a notification is shown.
#[derive(Debug, Clone, Copy, PartialEq, Eq, Structural)]
pub enum NotificationScope {
    /// Whatever tab is shown.
    Global,
    /// With the tab of one item.
    Tab(u64),
}

/// A notification.
#[derive(Debug)]
pub struct Toast {
    pub scope: NotificationScope,
    /// Notifications with the same id replace each other.
    pub id: String,
    pub severity: NotificationSeverity,
    pub message: String,
}

pub open spec fn toast_is(t: Toast, kind: Seq<char>, item: u64, severity: NotificationSeverity, message: Seq<char>) -> bool {
    &&& t.scope == NotificationScope::Tab(item)
    &&& t.id@ == "somsrv-deploy-"@ + kind + "-"@ + integer_text(item as int)
    &&& t.severity == severity
    &&& t.message@ == "Som: "@ + message
}

/// The notification that reports on a setup.
pub fn show_somsrv_toast(item: u64, id_kind: &str, severity: NotificationSeverity, message: &str) -> (r: Toast)
    ensures
        toast_is(r, id_kind@, item, severity, message@),
{
    let mut id = String::from_str("somsrv-deploy-");
    id.append(id_kind);
    id.append("-");
    let number = unsigned_text(item);
    id.append(number.as_str());
    let mut text = String::from_str("Som: ");
    text.append(message);
    Toast { scope: NotificationScope::Tab(item), id, severity, message: text }
}

pub open spec fn redeployed_text(profile_name: Seq<char>) -> Seq<char> {
    "Redeployed somsrv on the \""@ + profile_name
        + "\" server — restart this tab to use it, or keep working as-is."@
}

/// The notification that follows a setup: one where something was replaced, one where it failed,
/// none where nothing was to do.
pub fn deploy_toast(profile_name: &str, item: u64, result: &Result<bool, String>) -> (r: Option<Toast>)
    ensures
        match *result {
            Ok(true) => r matches Some(t) && toast_is(
                t,
                "redeployed"@,
                item,
                NotificationSeverity::Info,
                redeployed_text(profile_name@),
            ),
            Ok(false) => r is None,
            Err(detail) => r matches Some(t) && toast_is(
                t,
                "error"@,
                item,
                NotificationSeverity::Error,
                deploy_error_text(profile_name@, detail@),
            ),
        },
{
    match result {
        Ok(replaced) => if *replaced {
            let mut message = String::from_str("Redeployed somsrv on the \"");
            message.append(profile_name);
            message.append("\" server — restart this tab to use it, or keep working as-is.");
            Some(
                show_somsrv_toast(item, "redeployed", NotificationSeverity::Info, message.as_str()),
            )
        } else {
            None
        },
        Err(detail) => {
            let message = human_readable_deploy_error(profile_name, detail.as_str());
            Some(show_somsrv_toast(item, "error", NotificationSeverity::Error, message.as_str()))
        },
    }
}

/// The place on the other side that a file is copied to; a host is needed.
pub open spec fn upload_destination(host_args: Seq<Seq<char>>, path: Seq<char>) -> Option<Seq<char>> {
    if host_args.len() == 0 {
        None
    } else {
        Some(host_args.last() + ":"@ + path)
    }
}

/// The destination argument of `scp`.
pub fn scp_destination(host_args: &Vec<String>, remote_path: &str) -> (r: Option<String>)
    ensures
        opt_text(r) == upload_destination(texts(host_args@), remote_path@),
{
    if host_args.len() == 0 {
        None
    } else {
        assert(texts(host_args@).last() == host_args@[host_args@.len() - 1]@);
        let mut out = host_args[host_args.len() - 1].clone();
        out.append(":");
        out.append(remote_path);
        Some(out)
    }
}

/// Whether the relay on the other side is to be replaced: always where there is none, else where
/// this program, whose age in nanoseconds is given, is newer.
pub fn needs_deploy(local_nanos: i128, remote_seconds: Option<u64>) -> (r: bool)
    ensures
        r == (match remote_seconds {
            Some(s) => local_nanos > s * 1_000_000_000,
            None => true,
        }),
{
    match remote_seconds {
        Some(s) => {
            let nanos: i128 = (s as i128) * 1_000_000_000;
            local_nanos > nanos
        },
        None => true,
    }
}

/// Where the relay is to be brought up to date.
#[derive(Debug)]
pub struct DeployRequest {
    /// The arguments that reach the host.
    pub host_args: Vec<String>,
    /// The same, as they are shown in messages.
    pub host_label: String,
    pub remote_kind: RemoteKind,
    pub os: RemoteOs,
}

#[verifier::ext_equal]
pub struct RequestModel {
    pub host_args: Seq<Seq<char>>,
    pub host_label: Seq<char>,
    pub remote_kind: RemoteKind,
    pub os: RemoteOs,
}

impl View for DeployRequest {
    type V = RequestModel;

    open spec fn view(&self) -> RequestModel {
        RequestModel {
            host_args: texts(self.host_args@),
            host_label: self.host_label@,
            remote_kind: self.remote_kind,
            os: self.os,
        }
    }
}

/// Which reply is waited for. `fresh` tells whether there was no relay on the host.
#[derive(Debug, Clone, Copy, PartialEq, Eq, Structural)]
pub enum DeployStep {
    /// The relay is built on the same machine's other system.
    Building,
    /// This program's age is read.
    ReadingTime,
    /// The relay's age is asked for.
    Probing,
    /// The relay for the host is put into a file.
    Staging { fresh: bool },
    MakingDirectory,
    Uploading { fresh: bool },
    MakingExecutable { fresh: bool },
    /// The running relay is told to change over.
    Marking,
    /// The file is removed.
    Cleaning,
    Finished,
}

/// What is to be done next.
#[derive(Debug)]
pub enum DeployAction {
    /// Read this program's age, in nanoseconds since the epoch.
    ReadTime,
    /// Run a command on the host.
    Run { args: Vec<String> },
    /// Put the relay for a platform into a file.
    Stage { os: Os, arch: Arch },
    /// Copy the file to the host.
    Upload { path: String, destination: String },
    /// Remove the file.
    Remove { path: String },
    /// Done: whether the relay was replaced, or why that failed.
    Finish { result: Result<bool, String> },
}

#[verifier::ext_equal]
pub enum ActionModel {
    ReadTime,
    Run { args: Seq<Seq<char>> },
    Stage { os: Os, arch: Arch },
    Upload { path: Seq<char>, destination: Seq<char> },
    Remove { path: Seq<char> },
    Finish { result: Result<bool, Seq<char>> },
}

pub open spec fn result_model(r: Result<bool, String>) -> Result<bool, Seq<char>> {
    match r {
        Ok(b) => Ok(b),
        Err(e) => Err(e@),
    }
}

impl View for DeployAction {
    type V = ActionModel;

    open spec fn view(&self) -> ActionModel {
        match self {
            DeployAction::ReadTime => ActionModel::ReadTime,
            DeployAction::Run { args } => ActionModel::Run { args: texts(args@) },
            DeployAction::Stage { os, arch } => ActionModel::Stage { os: *os, arch: *arch },
            DeployAction::Upload { path, destination } => ActionModel::Upload {
                path: path@,
                destination: destination@,
            },
            DeployAction::Remove { path } => ActionModel::Remove { path: path@ },
            DeployAction::Finish { result } => ActionModel::Finish { result: result_model(*result) },
        }
    }
}

/// What came back.
#[derive(Debug)]
pub enum DeployReply {
    /// This program's age.
    Time(i128),
    /// What a command printed.
    Output(String),
    /// The file that the relay was put into.
    Path(String),
    /// It was done.
    Done,
    /// It failed, for this reason.
    Failed(String),
}

pub enum ReplyModel {
    Time(int),
    Output(Seq<char>),
    Path(Seq<char>),
    Done,
    Failed(Seq<char>),
}

impl View for DeployReply {
    type V = ReplyModel;

    open spec fn view(&self) -> ReplyModel {
        match self {
            DeployReply::Time(t) => ReplyModel::Time(*t as int),
            DeployReply::Output(o) => ReplyModel::Output(o@),
            DeployReply::Path(p) => ReplyModel::Path(p@),
            DeployReply::Done => ReplyModel::Done,
            DeployReply::Failed(e) => ReplyModel::Failed(e@),
        }
    }
}

/// Why it failed.
pub open spec fn reason_of(reply: ReplyModel) -> Seq<char> {
    match reply {
        ReplyModel::Failed(e) => e,
        _ => ""@,
    }
}

/// The state of a setup.
#[verifier::ext_equal]
pub struct DeployModel {
    pub step: DeployStep,
    /// This program's age.
    pub local: int,
    /// The file that the relay was put into.
    pub path: Seq<char>,
    /// How the setup ends once the file is removed.
    pub outcome: Result<bool, Seq<char>>,
}

pub open spec fn live_path() -> Seq<char> {
    "~/.local/bin/somsrv"@
}

pub open spec fn new_path() -> Seq<char> {
    "~/.local/bin/somsrv.new"@
}

pub open spec fn target_path(fresh: bool) -> Seq<char> {
    if fresh {
        live_path()
    } else {
        new_path()
    }
}

pub open spec fn build_script() -> Seq<char> {
    "cd ~/som && git pull && (source ~/.cargo/env 2>/dev/null; cargo build --release -p somsrv) && mkdir -p ~/.local/bin && cp target/release/somsrv ~/.local/bin/somsrv"@
}

pub open spec fn mark_script() -> Seq<char> {
    "touch ~/.local/bin/somsrv.redeploy-pending"@
}

/// What a failure of a step is reported as, before the reason.
pub open spec fn failure_prefix(step: DeployStep) -> Seq<char> {
    match step {
        DeployStep::MakingDirectory => "failed to create ~/.local/bin on "@,
        DeployStep::Uploading { fresh } => if fresh {
            "failed to upload somsrv to "@
        } else {
            "failed to upload somsrv.new to "@
        },
        DeployStep::MakingExecutable { fresh } => if fresh {
            "failed to chmod somsrv on "@
        } else {
            "failed to chmod somsrv.new on "@
        },
        _ => "failed to write the redeploy marker on "@,
    }
}

pub open spec fn failure_text(step: DeployStep, host_label: Seq<char>, reason: Seq<char>) -> Seq<char> {
    failure_prefix(step) + host_label + ": "@ + reason
}

pub open spec fn finish_with(m: DeployModel, result: Result<bool, Seq<char>>) -> (DeployModel, ActionModel) {
    (DeployModel { step: DeployStep::Finished, outcome: result, ..m }, ActionModel::Finish { result })
}

/// Removes the file and ends with `result`.
pub open spec fn clean_up(m: DeployModel, result: Result<bool, Seq<char>>) -> (DeployModel, ActionModel) {
    (
        DeployModel { step: DeployStep::Cleaning, outcome: result, ..m },
        ActionModel::Remove { path: m.path },
    )
}

/// Copies the file to the host.
pub open spec fn upload(req: RequestModel, m: DeployModel, fresh: bool) -> (DeployModel, ActionModel) {
    let step = DeployStep::Uploading { fresh };
    match upload_destination(req.host_args, target_path(fresh)) {
        Some(destination) => (
            DeployModel { step, ..m },
            ActionModel::Upload { path: m.path, destination },
        ),
        None => clean_up(
            m,
            Err(failure_text(step, req.host_label, "scp_to_remote called with empty host_args"@)),
        ),
    }
}

/// Where a setup begins.
pub open spec fn deploy_start(req: RequestModel) -> (DeployModel, ActionModel) {
    let m = DeployModel { step: DeployStep::ReadingTime, local: 0, path: Seq::empty(), outcome: Ok(false) };
    if req.remote_kind == RemoteKind::Wsl {
        (
            DeployModel { step: DeployStep::Building, ..m },
            ActionModel::Run { args: script_args(req.host_args, build_script()) },
        )
    } else {
        (m, ActionModel::ReadTime)
    }
}

/// What follows a reply.
pub open spec fn deploy_next(req: RequestModel, m: DeployModel, reply: ReplyModel) -> (
    DeployModel,
    ActionModel,
) {
    let failed = reply is Failed;
    let reason = reason_of(reply);
    match m.step {
        DeployStep::Building => if failed {
            finish_with(m, Err(reason))
        } else {
            finish_with(m, Ok(true))
        },
        DeployStep::ReadingTime => match reply {
            ReplyModel::Time(t) => (
                DeployModel { step: DeployStep::Probing, local: t, ..m },
                ActionModel::Run { args: script_args(req.host_args, mtime_script(platform_of(req.os).0)) },
            ),
            _ => finish_with(m, Err("failed to read this running som.exe's own mtime: "@ + reason)),
        },
        DeployStep::Probing => {
            let remote = match reply {
                ReplyModel::Output(o) => mtime_of(o),
                _ => None,
            };
            let due = match remote {
                Some(s) => m.local > s * 1_000_000_000,
                None => true,
            };
            if due {
                (
                    DeployModel { step: DeployStep::Staging { fresh: remote is None }, ..m },
                    ActionModel::Stage { os: platform_of(req.os).0, arch: platform_of(req.os).1 },
                )
            } else {
                finish_with(m, Ok(false))
            }
        },
        DeployStep::Staging { fresh } => match reply {
            ReplyModel::Path(path) => {
                let staged = DeployModel { path, ..m };
                if fresh {
                    (
                        DeployModel { step: DeployStep::MakingDirectory, ..staged },
                        ActionModel::Run {
                            args: req.host_args.push("mkdir"@) + seq!["-p"@, "~/.local/bin"@],
                        },
                    )
                } else {
                    upload(req, staged, false)
                }
            },
            _ => finish_with(m, Err(reason)),
        },
        DeployStep::MakingDirectory => if failed {
            clean_up(m, Err(failure_text(m.step, req.host_label, reason)))
        } else {
            upload(req, m, true)
        },
        DeployStep::Uploading { fresh } => if failed {
            clean_up(m, Err(failure_text(m.step, req.host_label, reason)))
        } else {
            (
                DeployModel { step: DeployStep::MakingExecutable { fresh }, ..m },
                ActionModel::Run {
                    args: req.host_args.push("chmod"@) + seq!["+x"@, target_path(fresh)],
                },
            )
        },
        DeployStep::MakingExecutable { fresh } => if failed {
            clean_up(m, Err(failure_text(m.step, req.host_label, reason)))
        } else if fresh {
            clean_up(m, Ok(true))
        } else {
            (
                DeployModel { step: DeployStep::Marking, ..m },
                ActionModel::Run { args: script_args(req.host_args, mark_script()) },
            )
        },
        DeployStep::Marking => if failed {
            clean_up(m, Err(failure_text(m.step, req.host_label, reason)))
        } else {
            clean_up(m, Ok(true))
        },
        DeployStep::Cleaning => finish_with(m, m.outcome),
        DeployStep::Finished => finish_with(m, m.outcome),
    }
}

/// A relay on the host is overwritten only where there was none: its own path is copied to only
/// behind the step that makes its directory, which follows only a probe that found no relay.
pub proof fn lemma_running_relay_kept(req: RequestModel, m: DeployModel, reply: ReplyModel)
    ensures
        deploy_next(req, m, reply).0.step == (DeployStep::Uploading { fresh: true }) ==> m.step
            is MakingDirectory,
        deploy_next(req, m, reply).0.step is MakingDirectory ==> m.step == (DeployStep::Staging {
            fresh: true,
        }),
        deploy_next(req, m, reply).0.step == (DeployStep::Staging { fresh: true }) ==> m.step is Probing
            && !(reply matches ReplyModel::Output(o) && mtime_of(o) is Some),
        deploy_next(req, m, reply).1 matches ActionModel::Upload { destination, .. } ==> exists|fresh: bool|
            #![trigger target_path(fresh)]
            deploy_next(req, m, reply).0.step == (DeployStep::Uploading { fresh }) && Some(destination)
                == upload_destination(req.host_args, target_path(fresh)),
{
    if deploy_next(req, m, reply).1 is Upload {
        assert(target_path(true) == live_path());
        assert(target_path(false) == new_path());
    }
}

/// The running relay is told to change over only when the new one is in place and can be run.
pub proof fn lemma_marked_last(req: RequestModel, m: DeployModel, reply: ReplyModel)
    ensures
        deploy_next(req, m, reply).0.step is Marking ==> m.step == (DeployStep::MakingExecutable {
            fresh: false,
        }) && !(reply is Failed),
        deploy_next(req, m, reply).0.step == (DeployStep::MakingExecutable { fresh: false }) ==> m.step == (
        DeployStep::Uploading { fresh: false }) && !(reply is Failed),
{
}

/// Whatever happens after the relay was put into a file, the file is removed before the setup ends.
pub proof fn lemma_file_removed(req: RequestModel, m: DeployModel, reply: ReplyModel)
    ensures
        ({
            let next = deploy_next(req, m, reply);
            m.step is MakingDirectory || m.step is Uploading || m.step is MakingExecutable || m.step is Marking
                ==> next.0.path == m.path && next.0.step !is Finished && (next.0.step is Cleaning
                ==> next.1 == ActionModel::Remove { path: m.path })
        }),
{
}

/// How many steps are left at most.
pub open spec fn deploy_steps_left(step: DeployStep) -> nat {
    match step {
        DeployStep::ReadingTime => 8,
        DeployStep::Probing => 7,
        DeployStep::Staging { .. } => 6,
        DeployStep::MakingDirectory => 5,
        DeployStep::Uploading { .. } => 4,
        DeployStep::MakingExecutable { .. } => 3,
        DeployStep::Marking => 2,
        DeployStep::Cleaning => 1,
        DeployStep::Building => 1,
        DeployStep::Finished => 0,
    }
}

/// A setup ends, whatever is replied.
pub proof fn lemma_deploy_ends(req: RequestModel, m: DeployModel, reply: ReplyModel)
    ensures
        m.step !is Finished ==> deploy_steps_left(deploy_next(req, m, reply).0.step) < deploy_steps_left(m.step),
{
}

/// A setup in progress.
#[derive(Debug)]
pub struct DeployRun {
    pub request: DeployRequest,
    pub step: DeployStep,
    pub local: i128,
    pub path: String,
    pub outcome: Result<bool, String>,
}

impl View for DeployRun {
    type V = DeployModel;

    open spec fn view(&self) -> DeployModel {
        DeployModel {
            step: self.step,
            local: self.local as int,
            path: self.path@,
            outcome: result_model(self.outcome),
        }
    }
}

fn clone_result(r: &Result<bool, String>) -> (c: Result<bool, String>)
    ensures
        result_model(c) == result_model(*r),
{
    match r {
        Ok(b) => Ok(*b),
        Err(e) => Err(e.clone()),
    }
}

fn failure_message(step: DeployStep, host_label: &str, reason: &str) -> (r: String)
    ensures
        r@ == failure_text(step, host_label@, reason@),
{
    let mut out = String::from_str(match step {
        DeployStep::MakingDirectory => "failed to create ~/.local/bin on ",
        DeployStep::Uploading { fresh } => if fresh {
            "failed to upload somsrv to "
        } else {
            "failed to upload somsrv.new to "
        },
        DeployStep::MakingExecutable { fresh } => if fresh {
            "failed to chmod somsrv on "
        } else {
            "failed to chmod somsrv.new on "
        },
        _ => "failed to write the redeploy marker on ",
    });
    out.append(host_label);
    out.append(": ");
    out.append(reason);
    out
}

impl DeployRun {
    fn finish(&mut self, result: Result<bool, String>) -> (r: DeployAction)
        ensures
            final(self).request == old(self).request,
            (final(self)@, r@) == finish_with(old(self)@, result_model(result)),
    {
        self.step = DeployStep::Finished;
        self.outcome = clone_result(&result);
        DeployAction::Finish { result }
    }

    fn clean(&mut self, result: Result<bool, String>) -> (r: DeployAction)
        ensures
            final(self).request == old(self).request,
            (final(self)@, r@) == clean_up(old(self)@, result_model(result)),
    {
        self.step = DeployStep::Cleaning;
        self.outcome = result;
        DeployAction::Remove { path: self.path.clone() }
    }

    fn clean_after_failure(&mut self, reason: &str) -> (r: DeployAction)
        ensures
            final(self).request == old(self).request,
            (final(self)@, r@) == clean_up(
                old(self)@,
                Err(failure_text(old(self)@.step, old(self).request@.host_label, reason@)),
            ),
    {
        let message = failure_message(self.step, self.request.host_label.as_str(), reason);
        self.clean(Err(message))
    }

    fn start_upload(&mut self, fresh: bool) -> (r: DeployAction)
        ensures
            final(self).request == old(self).request,
            (final(self)@, r@) == upload(old(self).request@, old(self)@, fresh),
    {
        let target = if fresh {
            "~/.local/bin/somsrv"
        } else {
            "~/.local/bin/somsrv.new"
        };
        match scp_destination(&self.request.host_args, target) {
            Some(destination) => {
                self.step = DeployStep::Uploading { fresh };
                DeployAction::Upload { path: self.path.clone(), destination }
            },
            None => {
                let message = failure_message(
                    DeployStep::Uploading { fresh },
                    self.request.host_label.as_str(),
                    "scp_to_remote called with empty host_args",
                );
                self.clean(Err(message))
            },
        }
    }

    fn command(&self, program: &str, first: &str, second: &str) -> (r: DeployAction)
        ensures
            r@ == (ActionModel::Run {
                args: self.request@.host_args.push(program@) + seq![first@, second@],
            }),
    {
        let extra: [&str; 2] = [first, second];
        assert(slice_texts(extra@) =~= seq![first@, second@]);
        DeployAction::Run {
            args: wrap_remote_probe_args(self.request.host_args.as_slice(), program, &extra),
        }
    }

    /// Begins to bring the relay up to date.
    pub fn start(request: DeployRequest) -> (r: (DeployRun, DeployAction))
        ensures
            r.0.request == request,
            (r.0@, r.1@) == deploy_start(request@),
    {
        let is_wsl = request.remote_kind == RemoteKind::Wsl;
        let run = DeployRun {
            request,
            step: if is_wsl {
                DeployStep::Building
            } else {
                DeployStep::ReadingTime
            },
            local: 0,
            path: String::new(),
            outcome: Ok(false),
        };
        let action = if is_wsl {
            DeployAction::Run {
                args: wrap_script(
                    &run.request.host_args,
                    "cd ~/som && git pull && (source ~/.cargo/env 2>/dev/null; cargo build --release -p somsrv) && mkdir -p ~/.local/bin && cp target/release/somsrv ~/.local/bin/somsrv",
                ),
            }
        } else {
            DeployAction::ReadTime
        };
        (run, action)
    }

    /// Takes a reply and says what to do next.
    pub fn next(&mut self, reply: DeployReply) -> (r: DeployAction)
        ensures
            final(self).request == old(self).request,
            (final(self)@, r@) == deploy_next(old(self).request@, old(self)@, reply@),
            r matches DeployAction::Stage { os, arch } ==> {
                &&& old(self).request.os == RemoteOs::Win ==> os == Os::Windows && arch == Arch::Amd64
                &&& old(self).request.os == RemoteOs::Mac ==> os == Os::Darwin && arch == Arch::Arm64
                &&& old(self).request.os == RemoteOs::Lnx ==> os == Os::Linux && arch == Arch::Amd64
            },
    {
        let reason = match &reply {
            DeployReply::Failed(e) => e.clone(),
            _ => String::from_str(""),
        };
        let failed = match &reply {
            DeployReply::Failed(_) => true,
            _ => false,
        };
        match self.step {
            DeployStep::Building => if failed {
                self.finish(Err(reason))
            } else {
                self.finish(Ok(true))
            },
            DeployStep::ReadingTime => match reply {
                DeployReply::Time(t) => {
                    let (os, _arch) = remote_os_to_platform(self.request.os);
                    self.step = DeployStep::Probing;
                    self.local = t;
                    DeployAction::Run { args: mtime_probe_args(&self.request.host_args, os) }
                },
                _ => {
                    let mut message = String::from_str("failed to read this running som.exe's own mtime: ");
                    message.append(reason.as_str());
                    self.finish(Err(message))
                },
            },
            DeployStep::Probing => {
                let remote = match &reply {
                    DeployReply::Output(o) => parse_mtime_output(o.as_str()),
                    _ => None,
                };
                if needs_deploy(self.local, remote) {
                    let (os, arch) = remote_os_to_platform(self.request.os);
                    self.step = DeployStep::Staging { fresh: remote.is_none() };
                    DeployAction::Stage { os, arch }
                } else {
                    self.finish(Ok(false))
                }
            },
            DeployStep::Staging { fresh } => match reply {
                DeployReply::Path(path) => {
                    self.path = path;
                    if fresh {
                        self.step = DeployStep::MakingDirectory;
                        self.command("mkdir", "-p", "~/.local/bin")
                    } else {
                        self.start_upload(false)
                    }
                },
                _ => self.finish(Err(reason)),
            },
            DeployStep::MakingDirectory => if failed {
                self.clean_after_failure(reason.as_str())
            } else {
                self.start_upload(true)
            },
            DeployStep::Uploading { fresh } => if failed {
                self.clean_after_failure(reason.as_str())
            } else {
                self.step = DeployStep::MakingExecutable { fresh };
                self.command("chmod", "+x", if fresh {
                    "~/.local/bin/somsrv"
                } else {
                    "~/.local/bin/somsrv.new"
                })
            },
            DeployStep::MakingExecutable { fresh } => if failed {
                self.clean_after_failure(reason.as_str())
            } else if fresh {
                self.clean(Ok(true))
            } else {
                self.step = DeployStep::Marking;
                DeployAction::Run {
                    args: wrap_script(
                        &self.request.host_args,
                        "touch ~/.local/bin/somsrv.redeploy-pending",
                    ),
                }
            },
            DeployStep::Marking => if failed {
                self.clean_after_failure(reason.as_str())
            } else {
                self.clean(Ok(true))
            },
            DeployStep::Cleaning => {
                let outcome = clone_result(&self.outcome);
                self.finish(outcome)
            },
            DeployStep::Finished => {
                let outcome = clone_result(&self.outcome);
                self.finish(outcome)
            },
        }
    }
}

/// A session that a relay holds.
#[derive(Debug)]
pub struct SessionInfo {
    pub profile_name: String,
    pub pane_id: String,
    pub client_id: Option<String>,
}

pub open spec fn session_ids(sessions: Seq<SessionInfo>) -> Seq<Seq<char>> {
    sessions.map_values(|s: SessionInfo| s.pane_id@)
}

/// The ids that are not among the live ones, in order.
pub open spec fn orphans(ids: Seq<Seq<char>>, live: Seq<Seq<char>>) -> Seq<Seq<char>> {
    ids.filter(|id: Seq<char>| !live.contains(id))
}

fn is_live(id: &str, live: &[String]) -> (r: bool)
    ensures
        r == texts(live@).contains(id@),
{
    let mut i: usize = 0;
    while i < live.len()
        invariant
            i <= live@.len(),
            forall|j: int| 0 <= j < i ==> #[trigger] texts(live@)[j] != id@,
        decreases live@.len() - i,
    {
        if crate::text::same_text(live[i].as_str(), id) {
            assert(texts(live@)[i as int] == id@);
            return true;
        }
        i += 1;
    }
    false
}

/// The sessions that no tab can come back to: their ids are not among the live ones.
pub fn orphaned_pane_ids<'a>(sessions: &'a [SessionInfo], live_pane_ids: &[String]) -> (r: Vec<&'a str>)
    ensures
        slice_texts(r@) == orphans(session_ids(sessions@), texts(live_pane_ids@)),
{
    let mut out: Vec<&'a str> = Vec::new();
    let ghost ids = session_ids(sessions@);
    let ghost live = texts(live_pane_ids@);
    let mut i: usize = 0;
    assert(slice_texts(out@) =~= orphans(ids.take(0), live)) by {
        reveal(Seq::filter);
    }
    while i < sessions.len()
        invariant
            i <= sessions@.len(),
            ids == session_ids(sessions@),
            live == texts(live_pane_ids@),
            slice_texts(out@) == orphans(ids.take(i as int), live),
        decreases sessions@.len() - i,
    {
        let ghost before = out@;
        let id = sessions[i].pane_id.as_str();
        proof {
            assert(ids[i as int] == id@);
            assert(ids.take(i + 1).drop_last() =~= ids.take(i as int));
            reveal(Seq::filter);
        }
        if !is_live(id, live_pane_ids) {
            out.push(id);
            assert(slice_texts(out@) =~= slice_texts(before).push(id@));
        }
        i += 1;
    }
    assert(ids.take(i as int) =~= ids);
    out
}

/// No live session is ever an orphan, and every other session is.
pub proof fn lemma_orphans(ids: Seq<Seq<char>>, live: Seq<Seq<char>>, id: Seq<char>)
    ensures
        orphans(ids, live).contains(id) <==> ids.contains(id) && !live.contains(id),
    decreases ids.len(),
{
    reveal(Seq::filter);
    if ids.len() > 0 {
        let rest = ids.drop_last();
        lemma_orphans(rest, live, id);
        let before = orphans(rest, live);
        let all = orphans(ids, live);
        if ids.contains(id) && !live.contains(id) {
            if ids.last() == id {
                assert(all.last() == id);
                assert(all.contains(id));
            } else {
                let k = choose|k: int| 0 <= k < ids.len() && ids[k] == id;
                assert(rest[k] == id);
                assert(rest.contains(id));
                let m = choose|m: int| 0 <= m < before.len() && before[m] == id;
                assert(all[m] == id);
            }
        }
        if all.contains(id) {
            let m = choose|m: int| 0 <= m < all.len() && all[m] == id;
            if m < before.len() {
                assert(before[m] == id);
                assert(before.contains(id));
                let k = choose|k: int| 0 <= k < rest.len() && rest[k] == id;
                assert(ids[k] == id);
            } else {
                assert(id == ids.last());
                assert(ids[ids.len() - 1] == id);
            }
        }
    }
}

pub open spec fn list_script(client: Seq<char>) -> Seq<char> {
    "~/.local/bin/somsrv --list-sessions "@ + quoted(client)
}

pub open spec fn kill_script(client: Seq<char>, id: Seq<char>) -> Seq<char> {
    "~/.local/bin/somsrv --kill-session "@ + quoted(client) + " "@ + quoted(id)
}

/// Which reply is waited for.
#[derive(Debug, Clone, Copy, PartialEq, Eq, Structural)]
pub enum CleanupStep {
    /// This client's name.
    Identifying,
    /// The sessions that the relay holds for this client.
    Listing,
    /// The end of a session: the one before position `next`.
    Killing { next: usize },
    Finished,
}

/// What is to be done next. Failures are answered with `Failed` and end the cleanup or, while
/// sessions are being ended, are passed over.
#[derive(Debug)]
pub enum CleanupAction {
    /// Run a command; the reply is what it printed.
    Run { args: Vec<String> },
    /// Run a command that lists sessions; the reply is the sessions.
    List { args: Vec<String> },
    Finish,
}

#[verifier::ext_equal]
pub enum CleanupActionModel {
    Run { args: Seq<Seq<char>> },
    List { args: Seq<Seq<char>> },
    Finish,
}

impl View for CleanupAction {
    type V = CleanupActionModel;

    open spec fn view(&self) -> CleanupActionModel {
        match self {
            CleanupAction::Run { args } => CleanupActionModel::Run { args: texts(args@) },
            CleanupAction::List { args } => CleanupActionModel::List { args: texts(args@) },
            CleanupAction::Finish => CleanupActionModel::Finish,
        }
    }
}

/// What came back.
#[derive(Debug)]
pub enum CleanupReply {
    Output(String),
    Sessions(Vec<SessionInfo>),
    Failed,
}

pub enum CleanupReplyModel {
    Output(Seq<char>),
    Sessions(Seq<Seq<char>>),
    Failed,
}

impl View for CleanupReply {
    type V = CleanupReplyModel;

    open spec fn view(&self) -> CleanupReplyModel {
        match self {
            CleanupReply::Output(o) => CleanupReplyModel::Output(o@),
            CleanupReply::Sessions(s) => CleanupReplyModel::Sessions(session_ids(s@)),
            CleanupReply::Failed => CleanupReplyModel::Failed,
        }
    }
}

/// The state of a cleanup.
#[verifier::ext_equal]
pub struct CleanupModel {
    pub host_args: Seq<Seq<char>>,
    pub live: Seq<Seq<char>>,
    pub client: Seq<char>,
    /// The sessions that are to be ended.
    pub doomed: Seq<Seq<char>>,
    pub step: CleanupStep,
}

pub open spec fn kill_from(m: CleanupModel, next: int) -> (CleanupModel, CleanupActionModel) {
    if 0 <= next < m.doomed.len() {
        (
            CleanupModel { step: CleanupStep::Killing { next: (next + 1) as usize }, ..m },
            CleanupActionModel::Run {
                args: script_args(m.host_args, kill_script(m.client, m.doomed[next])),
            },
        )
    } else {
        (CleanupModel { step: CleanupStep::Finished, ..m }, CleanupActionModel::Finish)
    }
}

/// What follows a reply.
pub open spec fn cleanup_next(m: CleanupModel, reply: CleanupReplyModel) -> (CleanupModel, CleanupActionModel) {
    let over = (CleanupModel { step: CleanupStep::Finished, ..m }, CleanupActionModel::Finish);
    match m.step {
        CleanupStep::Identifying => match reply {
            CleanupReplyModel::Output(o) => match client_id_of(o) {
                Some(client) => (
                    CleanupModel { step: CleanupStep::Listing, client, ..m },
                    CleanupActionModel::List { args: script_args(m.host_args, list_script(client)) },
                ),
                None => over,
            },
            _ => over,
        },
        CleanupStep::Listing => match reply {
            CleanupReplyModel::Sessions(ids) => kill_from(
                CleanupModel { doomed: orphans(ids, m.live), ..m },
                0,
            ),
            _ => over,
        },
        CleanupStep::Killing { next } => kill_from(m, next as int),
        CleanupStep::Finished => over,
    }
}

/// No session that a tab can come back to is ever ended.
pub proof fn lemma_live_sessions_kept(m: CleanupModel, reply: CleanupReplyModel)
    requires
        forall|i: int| 0 <= i < m.doomed.len() ==> !m.live.contains(#[trigger] m.doomed[i]),
    ensures
        ({
            let next = cleanup_next(m, reply);
            &&& next.0.live == m.live
            &&& forall|i: int| 0 <= i < next.0.doomed.len() ==> !m.live.contains(#[trigger] next.0.doomed[i])
            &&& next.1 is Run ==> exists|id: Seq<char>|
                !m.live.contains(id) && next.1 == (CleanupActionModel::Run {
                    args: script_args(m.host_args, #[trigger] kill_script(m.client, id)),
                })
        }),
{
    let next = cleanup_next(m, reply);
    if m.step is Listing && reply is Sessions {
        let ids = reply->Sessions_0;
        let doomed = orphans(ids, m.live);
        assert forall|i: int| 0 <= i < doomed.len() implies !m.live.contains(#[trigger] doomed[i]) by {
            assert(doomed.contains(doomed[i]));
            lemma_orphans(ids, m.live, doomed[i]);
        }
        if doomed.len() > 0 {
            assert(!m.live.contains(doomed[0]));
            assert(kill_script(m.client, doomed[0]) == kill_script(m.client, doomed[0]));
        }
    }
    if let CleanupStep::Killing { next: k } = m.step {
        if k < m.doomed.len() {
            assert(!m.live.contains(m.doomed[k as int]));
            assert(kill_script(m.client, m.doomed[k as int]) == kill_script(m.client, m.doomed[k as int]));
        }
    }
}

/// A cleanup in progress.
#[derive(Debug)]
pub struct CleanupRun {
    pub host_args: Vec<String>,
    pub live_pane_ids: Vec<String>,
    pub client: String,
    pub doomed: Vec<String>,
    pub step: CleanupStep,
}

impl View for CleanupRun {
    type V = CleanupModel;

    open spec fn view(&self) -> CleanupModel {
        CleanupModel {
            host_args: texts(self.host_args@),
            live: texts(self.live_pane_ids@),
            client: self.client@,
            doomed: texts(self.doomed@),
            step: self.step,
        }
    }
}

impl CleanupRun {
    /// Begins to end the sessions of a host that no tab can come back to. Only a host that is
    /// reached by `ssh` keeps sessions.
    pub fn kill_orphaned_holders(
        host_args: Vec<String>,
        remote_kind: RemoteKind,
        live_pane_ids: Vec<String>,
    ) -> (r: (CleanupRun, CleanupAction))
        ensures
            r.0@ == (CleanupModel {
                host_args: texts(host_args@),
                live: texts(live_pane_ids@),
                client: Seq::empty(),
                doomed: Seq::empty(),
                step: if remote_kind == RemoteKind::Ssh {
                    CleanupStep::Identifying
                } else {
                    CleanupStep::Finished
                },
            }),
            r.1@ == (if remote_kind == RemoteKind::Ssh {
                CleanupActionModel::Run {
                    args: script_args(texts(host_args@), client_id_script()),
                }
            } else {
                CleanupActionModel::Finish
            }),
    {
        let is_ssh = remote_kind == RemoteKind::Ssh;
        let run = CleanupRun {
            host_args,
            live_pane_ids,
            client: String::new(),
            doomed: Vec::new(),
            step: if is_ssh {
                CleanupStep::Identifying
            } else {
                CleanupStep::Finished
            },
        };
        assert(texts(run.doomed@) =~= Seq::<Seq<char>>::empty());
        let action = if is_ssh {
            CleanupAction::Run { args: client_id_probe_args(&run.host_args) }
        } else {
            CleanupAction::Finish
        };
        (run, action)
    }

    fn kill(&mut self, next: usize) -> (r: CleanupAction)
        ensures
            (final(self)@, r@) == kill_from(old(self)@, next as int),
    {
        assert(texts(self.doomed@).len() == self.doomed@.len());
        if next < self.doomed.len() {
            assert(texts(self.doomed@)[next as int] == self.doomed@[next as int]@);
            let mut script = String::from_str("~/.local/bin/somsrv --kill-session ");
            let client = shell_quote(self.client.as_str());
            script.append(client.as_str());
            script.append(" ");
            let id = shell_quote(self.doomed[next].as_str());
            script.append(id.as_str());
            self.step = CleanupStep::Killing { next: next + 1 };
            CleanupAction::Run { args: wrap_script(&self.host_args, script.as_str()) }
        } else {
            self.step = CleanupStep::Finished;
            CleanupAction::Finish
        }
    }

    /// Takes a reply and says what to do next.
    pub fn next(&mut self, reply: CleanupReply) -> (r: CleanupAction)
        ensures
            (final(self)@, r@) == cleanup_next(old(self)@, reply@),
    {
        match self.step {
            CleanupStep::Identifying => {
                let client = match &reply {
                    CleanupReply::Output(o) => read_this_client_id(o.as_str()),
                    _ => None,
                };
                match client {
                    Some(client) => {
                        let mut script = String::from_str("~/.local/bin/somsrv --list-sessions ");
                        let word = shell_quote(client.as_str());
                        script.append(word.as_str());
                        self.client = client;
                        self.step = CleanupStep::Listing;
                        CleanupAction::List { args: wrap_script(&self.host_args, script.as_str()) }
                    },
                    None => {
                        self.step = CleanupStep::Finished;
                        CleanupAction::Finish
                    },
                }
            },
            CleanupStep::Listing => match reply {
                CleanupReply::Sessions(sessions) => {
                    let ids = orphaned_pane_ids(sessions.as_slice(), self.live_pane_ids.as_slice());
                    let mut doomed: Vec<String> = Vec::new();
                    let mut i: usize = 0;
                    assert(texts(doomed@) =~= slice_texts(ids@).take(0));
                    while i < ids.len()
                        invariant
                            i <= ids@.len(),
                            texts(doomed@) == slice_texts(ids@).take(i as int),
                        decreases ids@.len() - i,
                    {
                        crate::text::push_text(&mut doomed, ids[i]);
                        assert(slice_texts(ids@).take(i + 1) =~= slice_texts(ids@).take(i as int).push(
                            ids@[i as int]@,
                        ));
                        i += 1;
                    }
                    assert(slice_texts(ids@).take(i as int) =~= slice_texts(ids@));
                    self.doomed = doomed;
                    self.kill(0)
                },
                _ => {
                    self.step = CleanupStep::Finished;
                    CleanupAction::Finish
                },
            },
            CleanupStep::Killing { next } => self.kill(next),
            CleanupStep::Finished => CleanupAction::Finish,
        }
    }
}

/// How the exit code of a process is shown.
pub open spec fn exit_code_text(code: Option<i32>) -> Seq<char> {
    match code {
        Some(code) => "Some("@ + integer_text(code as int) + ")"@,
        None => "None"@,
    }
}

fn show_exit_code(code: Option<i32>) -> (r: String)
    ensures
        r@ == exit_code_text(code),
{
    match code {
        Some(code) => {
            let number = signed_text(code as i64);
            "Some(".to_owned().concat(number.as_str()).concat(")")
        },
        None => "None".to_owned(),
    }
}

/// The program that runs commands on a host of a kind; there is none for this machine itself.
pub fn remote_program(kind: RemoteKind) -> (r: Result<&'static str, String>)
    ensures
        match kind {
            RemoteKind::Ssh => r matches Ok(name) && name@ == "ssh"@,
            RemoteKind::Wsl => r matches Ok(name) && name@ == "wsl"@,
            RemoteKind::Local => r matches Err(reason) && reason@
                == "run_remote_command called with RemoteKind::Local"@,
        },
{
    match kind {
        RemoteKind::Ssh => Ok("ssh"),
        RemoteKind::Wsl => Ok("wsl"),
        RemoteKind::Local => Err("run_remote_command called with RemoteKind::Local".to_owned()),
    }
}

/// What came of a process: what it printed, or how it failed.
pub fn command_outcome(program: &str, success: bool, code: Option<i32>, stdout: String, stderr: &str) -> (r: Result<
    String,
    String,
>)
    ensures
        match r {
            Ok(output) => success && output == stdout,
            Err(reason) => !success && reason@ == program@ + " exited with "@ + exit_code_text(code) + ": "@
                + stderr@,
        },
{
    if success {
        return Ok(stdout);
    }
    let shown = show_exit_code(code);
    Err(program.to_owned().concat(" exited with ").concat(shown.as_str()).concat(": ").concat(stderr))
}

/// The build that is put on a host is the one for its system, whatever came before.
pub proof fn lemma_build_for_host(req: RequestModel, m: DeployModel, reply: ReplyModel)
    ensures
        deploy_next(req, m, reply).1 matches ActionModel::Stage { os, arch } ==> {
            &&& req.os == RemoteOs::Win ==> os == Os::Windows && arch == Arch::Amd64
            &&& req.os == RemoteOs::Mac ==> os == Os::Darwin && arch == Arch::Arm64
            &&& req.os == RemoteOs::Lnx ==> os == Os::Linux && arch == Arch::Amd64
        },
        deploy_start(req).1 !is Stage,
{
}

/// The state that a setup is in after a number of replies, and the action that is then due.
pub open spec fn deploy_after(req: RequestModel, replies: Seq<ReplyModel>) -> (DeployModel, ActionModel)
    decreases replies.len(),
{
    if replies.len() == 0 {
        deploy_start(req)
    } else {
        deploy_next(req, deploy_after(req, replies.drop_last()).0, replies.last())
    }
}

/// The command that asks a host for the age of its relay. Systems do not agree on how that is asked.
pub open spec fn asks_age(host_args: Seq<Seq<char>>, os: RemoteOs) -> Seq<Seq<char>> {
    host_args + seq![
        "sh"@,
        "-lc"@,
        quoted(
            if os == RemoteOs::Mac {
                "echo \"SOM_MTIME:$(stat -f %m ~/.local/bin/somsrv 2>/dev/null)\""@
            } else {
                "echo \"SOM_MTIME:$(stat -c %Y ~/.local/bin/somsrv 2>/dev/null)\""@
            },
        ),
    ]
}

/// A host without a relay: its age is asked for, the build is put into a file, the directory is made,
/// the file is copied to the relay's own place and made executable, the file is removed, and the relay
/// has been replaced.
pub proof fn lemma_first_setup(
    req: RequestModel,
    time: int,
    probe: ReplyModel,
    path: Seq<char>,
    made: ReplyModel,
    copied: ReplyModel,
    executable: ReplyModel,
    removed: ReplyModel,
)
    requires
        req.remote_kind != RemoteKind::Wsl,
        req.host_args.len() > 0,
        !(probe matches ReplyModel::Output(o) && mtime_of(o) is Some),
        made !is Failed,
        copied !is Failed,
        executable !is Failed,
    ensures
        ({
            let r0 = Seq::<ReplyModel>::empty();
            let r1 = r0.push(ReplyModel::Time(time));
            let r2 = r1.push(probe);
            let r3 = r2.push(ReplyModel::Path(path));
            let r4 = r3.push(made);
            let r5 = r4.push(copied);
            let r6 = r5.push(executable);
            let r7 = r6.push(removed);
            &&& deploy_after(req, r0).1 == ActionModel::ReadTime
            &&& deploy_after(req, r1).1 == ActionModel::Run { args: asks_age(req.host_args, req.os) }
            &&& deploy_after(req, r2).1 is Stage
            &&& deploy_after(req, r3).1 == (ActionModel::Run {
                args: req.host_args + seq!["mkdir"@, "-p"@, "~/.local/bin"@],
            })
            &&& deploy_after(req, r4).1 == (ActionModel::Upload {
                path,
                destination: req.host_args.last() + ":~/.local/bin/somsrv"@,
            })
            &&& deploy_after(req, r5).1 == (ActionModel::Run {
                args: req.host_args + seq!["chmod"@, "+x"@, "~/.local/bin/somsrv"@],
            })
            &&& deploy_after(req, r6).1 == (ActionModel::Remove { path })
            &&& deploy_after(req, r7).1 == (ActionModel::Finish { result: Ok(true) })
        }),
{
    let r0 = Seq::<ReplyModel>::empty();
    let r1 = r0.push(ReplyModel::Time(time));
    let r2 = r1.push(probe);
    let r3 = r2.push(ReplyModel::Path(path));
    let r4 = r3.push(made);
    let r5 = r4.push(copied);
    let r6 = r5.push(executable);
    let r7 = r6.push(removed);
    assert(r1.drop_last() =~= r0 && r2.drop_last() =~= r1 && r3.drop_last() =~= r2 && r4.drop_last() =~= r3
        && r5.drop_last() =~= r4 && r6.drop_last() =~= r5 && r7.drop_last() =~= r6);
    assert(deploy_after(req, r1) == deploy_next(req, deploy_after(req, r0).0, ReplyModel::Time(time)));
    assert(deploy_after(req, r2) == deploy_next(req, deploy_after(req, r1).0, probe));
    assert(deploy_after(req, r3) == deploy_next(req, deploy_after(req, r2).0, ReplyModel::Path(path)));
    assert(deploy_after(req, r4) == deploy_next(req, deploy_after(req, r3).0, made));
    assert(deploy_after(req, r5) == deploy_next(req, deploy_after(req, r4).0, copied));
    assert(deploy_after(req, r6) == deploy_next(req, deploy_after(req, r5).0, executable));
    assert(deploy_after(req, r7) == deploy_next(req, deploy_after(req, r6).0, removed));
    let host = req.host_args;
    lemma_places(host.last());
    assert(script_args(host, mtime_script(platform_of(req.os).0)) =~= asks_age(host, req.os));
    assert(host.push("mkdir"@) + seq!["-p"@, "~/.local/bin"@] =~= host + seq!["mkdir"@, "-p"@, "~/.local/bin"@]);
    assert(host.push("chmod"@) + seq!["+x"@, "~/.local/bin/somsrv"@] =~= host + seq![
        "chmod"@,
        "+x"@,
        "~/.local/bin/somsrv"@,
    ]);
}

proof fn lemma_places(host: Seq<char>)
    ensures
        host + ":"@ + "~/.local/bin/somsrv"@ == host + ":~/.local/bin/somsrv"@,
        host + ":"@ + "~/.local/bin/somsrv.new"@ == host + ":~/.local/bin/somsrv.new"@,
{
    reveal_strlit(":");
    reveal_strlit("~/.local/bin/somsrv");
    reveal_strlit("~/.local/bin/somsrv.new");
    reveal_strlit(":~/.local/bin/somsrv");
    reveal_strlit(":~/.local/bin/somsrv.new");
    assert(host + ":"@ + "~/.local/bin/somsrv"@ =~= host + ":~/.local/bin/somsrv"@);
    assert(host + ":"@ + "~/.local/bin/somsrv.new"@ =~= host + ":~/.local/bin/somsrv.new"@);
}

/// A host whose relay is older than this program: the file is copied beside the relay, made executable
/// there, and the relay is then told to change over. Its own place is not touched.
pub proof fn lemma_update_setup(
    req: RequestModel,
    time: int,
    output: Seq<char>,
    path: Seq<char>,
    copied: ReplyModel,
    executable: ReplyModel,
    marked_reply: ReplyModel,
    removed: ReplyModel,
)
    requires
        req.remote_kind != RemoteKind::Wsl,
        req.host_args.len() > 0,
        mtime_of(output) matches Some(age) && time > age * 1_000_000_000,
        copied !is Failed,
        executable !is Failed,
        marked_reply !is Failed,
    ensures
        ({
            let r2 = seq![ReplyModel::Time(time), ReplyModel::Output(output)];
            let r3 = r2.push(ReplyModel::Path(path));
            let r4 = r3.push(copied);
            let r5 = r4.push(executable);
            let r6 = r5.push(marked_reply);
            let r7 = r6.push(removed);
            &&& deploy_after(req, r2).1 is Stage
            &&& deploy_after(req, r3).1 == (ActionModel::Upload {
                path,
                destination: req.host_args.last() + ":~/.local/bin/somsrv.new"@,
            })
            &&& deploy_after(req, r4).1 == (ActionModel::Run {
                args: req.host_args + seq!["chmod"@, "+x"@, "~/.local/bin/somsrv.new"@],
            })
            &&& deploy_after(req, r5).1 == (ActionModel::Run {
                args: req.host_args + seq!["sh"@, "-lc"@, quoted("touch ~/.local/bin/somsrv.redeploy-pending"@)],
            })
            &&& deploy_after(req, r6).1 == (ActionModel::Remove { path })
            &&& deploy_after(req, r7).1 == (ActionModel::Finish { result: Ok(true) })
        }),
{
    let r0 = Seq::<ReplyModel>::empty();
    let r1 = r0.push(ReplyModel::Time(time));
    let r2 = seq![ReplyModel::Time(time), ReplyModel::Output(output)];
    let r3 = r2.push(ReplyModel::Path(path));
    let r4 = r3.push(copied);
    let r5 = r4.push(executable);
    let r6 = r5.push(marked_reply);
    let r7 = r6.push(removed);
    assert(r1.drop_last() =~= r0 && r2.drop_last() =~= r1 && r3.drop_last() =~= r2 && r4.drop_last() =~= r3
        && r5.drop_last() =~= r4 && r6.drop_last() =~= r5 && r7.drop_last() =~= r6);
    assert(deploy_after(req, r1) == deploy_next(req, deploy_after(req, r0).0, ReplyModel::Time(time)));
    assert(deploy_after(req, r2) == deploy_next(req, deploy_after(req, r1).0, ReplyModel::Output(output)));
    assert(deploy_after(req, r3) == deploy_next(req, deploy_after(req, r2).0, ReplyModel::Path(path)));
    assert(deploy_after(req, r4) == deploy_next(req, deploy_after(req, r3).0, copied));
    assert(deploy_after(req, r5) == deploy_next(req, deploy_after(req, r4).0, executable));
    assert(deploy_after(req, r6) == deploy_next(req, deploy_after(req, r5).0, marked_reply));
    assert(deploy_after(req, r7) == deploy_next(req, deploy_after(req, r6).0, removed));
    let host = req.host_args;
    lemma_places(host.last());
    assert(host.push("chmod"@) + seq!["+x"@, "~/.local/bin/somsrv.new"@] =~= host + seq![
        "chmod"@,
        "+x"@,
        "~/.local/bin/somsrv.new"@,
    ]);
    assert(script_args(host, mark_script()) =~= host + seq![
        "sh"@,
        "-lc"@,
        quoted("touch ~/.local/bin/somsrv.redeploy-pending"@),
    ]);
}

/// A host whose relay is no older than this program is left alone.
pub proof fn lemma_up_to_date(req: RequestModel, time: int, output: Seq<char>)
    requires
        req.remote_kind != RemoteKind::Wsl,
        mtime_of(output) matches Some(age) && time <= age * 1_000_000_000,
    ensures
        deploy_after(req, seq![ReplyModel::Time(time), ReplyModel::Output(output)]).1 == (ActionModel::Finish {
            result: Ok(false),
        }),
{
    let r0 = Seq::<ReplyModel>::empty();
    let r1 = r0.push(ReplyModel::Time(time));
    let r2 = seq![ReplyModel::Time(time), ReplyModel::Output(output)];
    assert(r1.drop_last() =~= r0 && r2.drop_last() =~= r1);
    assert(deploy_after(req, r1) == deploy_next(req, deploy_after(req, r0).0, ReplyModel::Time(time)));
    assert(deploy_after(req, r2) == deploy_next(req, deploy_after(req, r1).0, ReplyModel::Output(output)));
}

/// On the other system of this machine the relay is built from its sources, and that is all.
pub proof fn lemma_built_there(req: RequestModel, reply: ReplyModel)
    requires
        req.remote_kind == RemoteKind::Wsl,
    ensures
        deploy_after(req, Seq::empty()).1 == (ActionModel::Run {
            args: req.host_args + seq![
                "sh"@,
                "-lc"@,
                quoted(
                    "cd ~/som && git pull && (source ~/.cargo/env 2>/dev/null; cargo build --release -p somsrv) && mkdir -p ~/.local/bin && cp target/release/somsrv ~/.local/bin/somsrv"@,
                ),
            ],
        }),
        deploy_after(req, seq![reply]).1 == (ActionModel::Finish {
            result: match reply {
                ReplyModel::Failed(reason) => Err(reason),
                _ => Ok(true),
            },
        }),
{
    assert(seq![reply].drop_last() =~= Seq::<ReplyModel>::empty());
    assert(deploy_after(req, seq![reply]) == deploy_next(req, deploy_after(req, Seq::empty()).0, reply));
    assert(script_args(req.host_args, build_script()) =~= req.host_args + seq![
        "sh"@,
        "-lc"@,
        quoted(build_script()),
    ]);
}

/// What goes wrong is reported with the step that it went wrong in, the host and the reason, once the
/// file has been removed.
pub proof fn lemma_failure_reported(req: RequestModel, m: DeployModel, reason: Seq<char>, removed: ReplyModel)
    ensures
        ({
            let failed = deploy_next(req, m, ReplyModel::Failed(reason));
            let after = deploy_next(req, failed.0, removed);
            let told = |what: Seq<char>| {
                &&& failed.1 == (ActionModel::Remove { path: m.path })
                &&& after.1 == (ActionModel::Finish { result: Err(what + req.host_label + ": "@ + reason) })
            };
            &&& m.step is MakingDirectory ==> told("failed to create ~/.local/bin on "@)
            &&& m.step == (DeployStep::Uploading { fresh: true }) ==> told("failed to upload somsrv to "@)
            &&& m.step == (DeployStep::Uploading { fresh: false }) ==> told("failed to upload somsrv.new to "@)
            &&& m.step == (DeployStep::MakingExecutable { fresh: true }) ==> told("failed to chmod somsrv on "@)
            &&& m.step == (DeployStep::MakingExecutable { fresh: false }) ==> told("failed to chmod somsrv.new on "@)
            &&& m.step is Marking ==> told("failed to write the redeploy marker on "@)
            &&& m.step is Staging ==> failed.1 == (ActionModel::Finish { result: Err(reason) })
            &&& m.step is ReadingTime ==> failed.1 == (ActionModel::Finish {
                result: Err("failed to read this running som.exe's own mtime: "@ + reason),
            })
            &&& m.step is Cleaning || m.step is Finished ==> failed.1 == (ActionModel::Finish { result: m.outcome })
        }),
{
}

/// What is marked stands in the first line that begins with the marker, whatever stands in the lines
/// before it.
pub proof fn lemma_marked_line(lines: Seq<Seq<char>>, marker: Seq<char>, i: int)
    requires
        0 <= i < lines.len(),
        marker.is_prefix_of(lines[i]),
        forall|j: int| 0 <= j < i ==> !marker.is_prefix_of(#[trigger] lines[j]),
    ensures
        marked(lines, marker) matches Some(rest) && marker + rest == lines[i],
    decreases lines.len(),
{
    if i > 0 {
        assert(!marker.is_prefix_of(lines[0]));
        let rest = lines.drop_first();
        assert forall|j: int| 0 <= j < i - 1 implies !marker.is_prefix_of(#[trigger] rest[j]) by {
            assert(!marker.is_prefix_of(lines[j + 1]));
        }
        lemma_marked_line(rest, marker, i - 1);
    } else {
        assert(marker + lines[0].skip(marker.len() as int) =~= lines[0]);
    }
}

/// The age that a host reports is the number behind the marker, whatever the login shell printed
/// before it.
pub proof fn lemma_age_read(noise: Seq<Seq<char>>, age: nat)
    requires
        age <= u64::MAX,
        forall|i: int|
            0 <= i < noise.len() ==> !(#[trigger] noise[i]).contains('\n') && !"SOM_MTIME:"@.is_prefix_of(noise[i]),
    ensures
        mtime_of(joined(noise.push("SOM_MTIME:"@ + integer_text(age as int)).push(Seq::empty()), seq!['\n'])) == Some(age),
{
    let marker = "SOM_MTIME:"@;
    let digits = integer_text(age as int);
    let line = marker + digits;
    let parts = noise.push(line).push(Seq::empty());
    reveal_strlit("SOM_MTIME:");
    crate::decimal::lemma_unsigned_round_trip(age, u64::MAX as nat);
    crate::decimal::lemma_digits_of(age);
    crate::decimal::lemma_integer_text_plain(age as int, '\n');
    assert(!line.contains('\n')) by {
        assert forall|k: int| 0 <= k < line.len() implies line[k] != '\n' by {
            if k >= marker.len() {
                assert(digits.contains(digits[k - marker.len()]));
            }
        }
    }
    assert forall|i: int| 0 <= i < parts.len() implies !(#[trigger] parts[i]).contains('\n') by {
        if i < noise.len() {
            assert(parts[i] == noise[i]);
        }
    }
    lemma_lines(parts);
    let n = noise.len() as int;
    let all = lines_of(joined(parts, seq!['\n']));
    assert(crate::decimal::is_digit(digits[0]));
    assert(crate::decimal::is_digit(digits[digits.len() - 1]));
    assert(line.last() == digits.last());
    assert(parts[n] == line);
    assert(all[n] == line);
    assert forall|j: int| 0 <= j < n implies !marker.is_prefix_of(#[trigger] all[j]) by {
        assert(parts[j] == noise[j]);
        if marker.is_prefix_of(all[j]) {
            assert(marker.is_prefix_of(noise[j])) by {
                if noise[j].len() > 0 && noise[j].last() == '\r' {
                    assert(all[j].push('\r') == noise[j]);
                    assert(noise[j].subrange(0, marker.len() as int) =~= all[j].subrange(0, marker.len() as int));
                }
            }
        }
    }
    lemma_marked_line(all, marker, n);
    let rest = marked(all, marker)->0;
    assert(rest =~= digits) by {
        assert(line.skip(marker.len() as int) =~= digits);
        assert((marker + rest).skip(marker.len() as int) =~= rest);
    }
    lemma_trimmed(Seq::empty(), digits, Seq::empty());
    assert(Seq::<char>::empty() + digits + Seq::<char>::empty() =~= digits);
}

/// This client is known to a host by the first word behind the marker; a name without an address is
/// none.
pub proof fn lemma_client_read(output: Seq<char>, before: Seq<char>, id: Seq<char>, after: Seq<char>)
    requires
        marked(lines_of(output), "SOM_CLIENT_ID:"@) == Some(before + id + after),
        all_white_space(before),
        id.len() > 0,
        forall|i: int| 0 <= i < id.len() ==> !white_space(#[trigger] id[i]),
        after.len() > 0 ==> white_space(after[0]),
    ensures
        client_id_of(output) == (if id.last() == '@' {
            None
        } else {
            Some(id)
        }),
{
    lemma_first_word(before, id, after);
    reveal_strlit("@");
    assert("@"@.len() == 1);
    assert(id.subrange(id.len() - 1, id.len() as int) =~= seq![id.last()]);
    assert("@"@ =~= seq!['@']);
    if id.last() == '@' {
        assert("@"@.is_suffix_of(id));
    } else if "@"@.is_suffix_of(id) {
        assert("@"@[0] == id.subrange(id.len() - 1, id.len() as int)[0]);
    }
}

/// A cleanup asks who this client is, then for the sessions that the relay holds for it, then ends
/// those that no tab can come back to, one after the other and each once, whatever comes of it, and
/// then is over.
pub proof fn lemma_cleanup_course(m: CleanupModel, reply: CleanupReplyModel)
    ensures
        ({
            let next = cleanup_next(m, reply);
            let runs = |script: Seq<char>| m.host_args + seq!["sh"@, "-lc"@, quoted(script)];
            &&& m.step is Identifying ==> match reply {
                CleanupReplyModel::Output(o) => match client_id_of(o) {
                    Some(client) => next.0.step is Listing && next.0.client == client && next.1 == (
                    CleanupActionModel::List {
                        args: runs("~/.local/bin/somsrv --list-sessions "@ + quoted(client)),
                    }),
                    None => next.1 is Finish,
                },
                _ => next.1 is Finish,
            }
            &&& m.step is Listing ==> match reply {
                CleanupReplyModel::Sessions(ids) => {
                    &&& forall|id: Seq<char>|
                        #[trigger] next.0.doomed.contains(id) <==> ids.contains(id) && !m.live.contains(id)
                    &&& next.0.doomed.len() == 0 ==> next.1 is Finish
                    &&& next.0.doomed.len() > 0 ==> next.0.step == (CleanupStep::Killing { next: 1 }) && next.1 == (
                    CleanupActionModel::Run {
                        args: runs(
                            "~/.local/bin/somsrv --kill-session "@ + quoted(m.client) + " "@ + quoted(
                                next.0.doomed[0],
                            ),
                        ),
                    })
                },
                _ => next.1 is Finish,
            }
            &&& m.step matches CleanupStep::Killing { next: k } ==> {
                &&& k < m.doomed.len() && m.doomed.len() < usize::MAX ==> next.0.step == (CleanupStep::Killing {
                    next: (k + 1) as usize,
                }) && next.1 == (CleanupActionModel::Run {
                    args: runs(
                        "~/.local/bin/somsrv --kill-session "@ + quoted(m.client) + " "@ + quoted(m.doomed[k as int]),
                    ),
                })
                &&& k >= m.doomed.len() ==> next.1 is Finish
                &&& next.0.doomed == m.doomed
            }
            &&& m.step is Finished ==> next.1 is Finish
            &&& next.1 is Finish ==> next.0.step is Finished
            &&& next.0.host_args == m.host_args
        }),
{
    assert forall|script: Seq<char>| #[trigger] script_args(m.host_args, script) == m.host_args + seq![
        "sh"@,
        "-lc"@,
        quoted(script),
    ] by {
        assert(script_args(m.host_args, script) =~= m.host_args + seq!["sh"@, "-lc"@, quoted(script)]);
    }
    if m.step is Listing && reply is Sessions {
        let ids = reply->Sessions_0;
        assert forall|id: Seq<char>| #[trigger] cleanup_next(m, reply).0.doomed.contains(id) <==> ids.contains(id)
            && !m.live.contains(id) by {
            lemma_orphans(ids, m.live, id);
        }
    }
}

/// Hosts that are reached in different ways have different locks, as long as no argument holds a blank.
pub proof fn lemma_hosts_told_apart(one: Seq<Seq<char>>, other: Seq<Seq<char>>)
    requires
        one.len() >= 1,
        other.len() >= 1,
        forall|i: int| 0 <= i < one.len() ==> !(#[trigger] one[i]).contains(' '),
        forall|i: int| 0 <= i < other.len() ==> !(#[trigger] other[i]).contains(' '),
        host_key(one) == host_key(other),
    ensures
        one == other,
{
    reveal_strlit(" ");
    assert(" "@ =~= seq![' ']);
    lemma_pieces_of_joined(one, ' ');
    lemma_pieces_of_joined(other, ' ');
}

/// The user is told the profile that could not be set up and all that is known of why, and the reason
/// in words where it is a known one.
pub proof fn lemma_deploy_error_told(profile_name: Seq<char>, detail: Seq<char>)
    ensures
        ({
            let says = |reason: Seq<char>| deploy_error_text(profile_name, detail) == "Couldn't set up the \""@
                + profile_name + "\" tab: "@ + reason + ".\n\nDetails:\n"@ + detail;
            let missing = has_text(detail, "No such file or directory"@);
            let refused = has_text(detail, "Permission denied"@);
            let unbuilt = has_text(detail, "no embedded somsrv binary for"@);
            let unstarted = has_text(detail, "failed to spawn"@);
            let uncopied = has_text(detail, "scp exited with"@);
            &&& missing ==> says("the somsrv program wasn't found on the server after copying it there"@)
            &&& refused && !missing ==> says("the server refused permission while setting up somsrv"@)
            &&& unbuilt && !missing && !refused ==> says("Som doesn't have a somsrv build for that server's platform"@)
            &&& unstarted && !missing && !refused && !unbuilt ==> says(
                "couldn't even start ssh/scp — check that they're installed and on your PATH"@,
            )
            &&& uncopied && !missing && !refused && !unbuilt && !unstarted ==> says(
                "copying somsrv to the server failed"@,
            )
            &&& !missing && !refused && !unbuilt && !unstarted && !uncopied ==> says(
                "couldn't reach or set up the server"@,
            )
        }),
{
}

} // verus!
