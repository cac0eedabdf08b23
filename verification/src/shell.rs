//! The command lines that terminals are started with.
//!
//! A pane that is to outlive the window runs its shell behind a relay program. For a local shell
//! the relay wraps the command line; for a shell on another machine the relay is what the remote
//! side is told to run.

use vstd::prelude::*;
use crate::decimal::{integer_text, unsigned_text};
use crate::pane_id::{fresh_pane_id, is_pane_id};
use crate::text::{
    chars_of, clone_list, clone_opt, contains, lemma_replaced_concat, occurs_at, opt_text, push_all, push_text,
    replace_char, same_text, text_between, texts, with_char_replaced,
};

verus! {

/// Where a profile's shell runs.
#[derive(Debug, Clone, Copy, PartialEq, Eq, Structural)]
pub enum RemoteKind {
    Local,
    Ssh,
    Wsl,
}

/// The operating system of a profile's host.
#[derive(Debug, Clone, Copy, PartialEq, Eq, Structural)]
pub enum RemoteOs {
    Win,
    Mac,
    Lnx,
}

/// The shape of the text cursor.
#[derive(Debug, Clone, Copy, PartialEq, Eq, Structural)]
pub enum CursorShape {
    Block,
    Underline,
    Bar,
    Hollow,
}

/// A profile that tabs can be opened with.
#[derive(Debug)]
pub struct TabProfile {
    pub name: String,
    pub icon: Option<String>,
    pub shell: Option<String>,
    pub home: Option<String>,
    /// Panes outlive the window.
    pub tmux: bool,
    /// Panes show rich content.
    pub srp: bool,
    /// Panes can be scripted.
    pub lua: bool,
    pub os: RemoteOs,
}

/// A program and its arguments.
#[derive(Debug)]
pub struct ShellCommand {
    pub program: String,
    pub args: Vec<String>,
}

/// What a terminal runs.
#[derive(Debug)]
pub enum Shell {
    System,
    Program(String),
    WithArguments { program: String, args: Vec<String>, title_override: Option<String> },
}

#[verifier::ext_equal]
pub enum ShellModel {
    System,
    Program(Seq<char>),
    WithArguments { program: Seq<char>, args: Seq<Seq<char>>, title_override: Option<Seq<char>> },
}

impl View for Shell {
    type V = ShellModel;

    open spec fn view(&self) -> ShellModel {
        match self {
            Shell::System => ShellModel::System,
            Shell::Program(p) => ShellModel::Program(p@),
            Shell::WithArguments { program, args, title_override } => ShellModel::WithArguments {
                program: program@,
                args: texts(args@),
                title_override: opt_text(*title_override),
            },
        }
    }
}

pub open spec fn remote_kind_of(program: Seq<char>) -> RemoteKind {
    if program == "ssh"@ {
        RemoteKind::Ssh
    } else if program == "wsl"@ || program == "wsl.exe"@ {
        RemoteKind::Wsl
    } else {
        RemoteKind::Local
    }
}

/// Where a program takes its shell from.
pub fn classify_remote(program: &str) -> (r: RemoteKind)
    ensures
        r == remote_kind_of(program@),
{
    if same_text(program, "ssh") {
        RemoteKind::Ssh
    } else if same_text(program, "wsl") || same_text(program, "wsl.exe") {
        RemoteKind::Wsl
    } else {
        RemoteKind::Local
    }
}

/// The name that the relay program knows a cursor shape by.
pub open spec fn cursor_shape_name(shape: CursorShape) -> Seq<char> {
    match shape {
        CursorShape::Block => "block"@,
        CursorShape::Underline => "underline"@,
        CursorShape::Bar => "bar"@,
        CursorShape::Hollow => "hollow"@,
    }
}

pub fn cursor_shape_arg(shape: CursorShape) -> (r: &'static str)
    ensures
        r@ == cursor_shape_name(shape),
{
    match shape {
        CursorShape::Block => "block",
        CursorShape::Underline => "underline",
        CursorShape::Bar => "bar",
        CursorShape::Hollow => "hollow",
    }
}

/// Whether any of the profile's features needs the relay.
pub fn wants_srp(profile: &TabProfile) -> (r: bool)
    ensures
        r == (profile.tmux || profile.srp || profile.lua),
{
    profile.tmux || profile.srp || profile.lua
}

pub open spec fn cursor_args(shape: CursorShape) -> Seq<Seq<char>> {
    seq!["--cursor-shape"@, cursor_shape_name(shape)]
}

pub open spec fn scrollback_args(scrollback: Option<usize>) -> Seq<Seq<char>> {
    match scrollback {
        Some(n) => seq!["--scrollback"@, integer_text(n as int)],
        None => Seq::empty(),
    }
}

pub open spec fn cell_size_args(size: Option<(u16, u16)>) -> Seq<Seq<char>> {
    match size {
        Some((w, h)) => seq![
            "--cell-pixel-size"@,
            integer_text(w as int) + ";"@ + integer_text(h as int),
        ],
        None => Seq::empty(),
    }
}

/// The relay's arguments for a local shell.
pub open spec fn local_args(
    profile: Seq<char>,
    pane_id: Seq<char>,
    program: Seq<char>,
    args: Seq<Seq<char>>,
    shape: CursorShape,
    scrollback: Option<usize>,
    cell_size: Option<(u16, u16)>,
) -> Seq<Seq<char>> {
    seq![profile, pane_id, program] + args + cursor_args(shape) + scrollback_args(scrollback)
        + cell_size_args(cell_size)
}

/// The arguments of `ssh` or `wsl` for a shell behind the relay on the other side.
pub open spec fn remote_args(
    profile: Seq<char>,
    pane_id: Seq<char>,
    args: Seq<Seq<char>>,
    shape: CursorShape,
    scrollback: Option<usize>,
    kind: RemoteKind,
) -> Seq<Seq<char>> {
    (if kind == RemoteKind::Ssh {
        seq!["-tt"@]
    } else {
        Seq::empty()
    }) + args + seq!["~/.local/bin/somsrv"@, profile, pane_id, "$SHELL"@] + cursor_args(shape)
        + scrollback_args(scrollback) + seq!["--"@, "-l"@]
}

fn push_settings(out: &mut Vec<String>, shape: CursorShape, scrollback: Option<usize>)
    ensures
        texts(final(out)@) == texts(old(out)@) + cursor_args(shape) + scrollback_args(scrollback),
{
    push_text(out, "--cursor-shape");
    push_text(out, cursor_shape_arg(shape));
    assert(texts(out@) =~= texts(old(out)@) + cursor_args(shape));
    match scrollback {
        Some(n) => {
            push_text(out, "--scrollback");
            let text = unsigned_text(n as u64);
            push_text(out, text.as_str());
        },
        None => {},
    }
    assert(texts(out@) =~= texts(old(out)@) + cursor_args(shape) + scrollback_args(scrollback));
}

/// Wraps a local command line in the relay's.
pub fn wrap_command_args(
    profile_name: &str,
    pane_id: &str,
    program: String,
    args: Vec<String>,
    cursor_shape: CursorShape,
    scrollback: Option<usize>,
    cell_pixel_size: Option<(u16, u16)>,
) -> (r: Vec<String>)
    ensures
        texts(r@) == local_args(
            profile_name@,
            pane_id@,
            program@,
            texts(args@),
            cursor_shape,
            scrollback,
            cell_pixel_size,
        ),
{
    let mut out: Vec<String> = Vec::new();
    push_text(&mut out, profile_name);
    push_text(&mut out, pane_id);
    push_text(&mut out, program.as_str());
    assert(texts(out@) =~= seq![profile_name@, pane_id@, program@]);
    push_all(&mut out, &args);
    push_settings(&mut out, cursor_shape, scrollback);
    match cell_pixel_size {
        Some((w, h)) => {
            push_text(&mut out, "--cell-pixel-size");
            let mut size = unsigned_text(w as u64);
            size.append(";");
            let height = unsigned_text(h as u64);
            size.append(height.as_str());
            push_text(&mut out, size.as_str());
        },
        None => {},
    }
    assert(texts(out@) =~= local_args(
        profile_name@,
        pane_id@,
        program@,
        texts(args@),
        cursor_shape,
        scrollback,
        cell_pixel_size,
    ));
    out
}

/// Appends the relay to the arguments of `ssh` or `wsl`. Only `ssh` has to be asked for a
/// terminal on the other side.
pub fn wrap_remote_command_args(
    profile_name: &str,
    pane_id: &str,
    args: Vec<String>,
    cursor_shape: CursorShape,
    scrollback: Option<usize>,
    remote_kind: RemoteKind,
) -> (r: Vec<String>)
    ensures
        texts(r@) == remote_args(
            profile_name@,
            pane_id@,
            texts(args@),
            cursor_shape,
            scrollback,
            remote_kind,
        ),
{
    let mut out: Vec<String> = Vec::new();
    assert(texts(out@) =~= Seq::<Seq<char>>::empty());
    if remote_kind == RemoteKind::Ssh {
        push_text(&mut out, "-tt");
        assert(texts(out@) =~= seq!["-tt"@]);
    }
    push_all(&mut out, &args);
    push_text(&mut out, "~/.local/bin/somsrv");
    push_text(&mut out, profile_name);
    push_text(&mut out, pane_id);
    push_text(&mut out, "$SHELL");
    push_settings(&mut out, cursor_shape, scrollback);
    push_text(&mut out, "--");
    push_text(&mut out, "-l");
    assert(texts(out@) =~= remote_args(
        profile_name@,
        pane_id@,
        texts(args@),
        cursor_shape,
        scrollback,
        remote_kind,
    ));
    out
}

/// The program that `ssh` or `scp` is started as: the system's own where it was found, else
/// whatever the name resolves to.
pub fn windows_openssh_binary(name: &str, system_binary: Option<String>) -> (r: String)
    ensures
        r@ == (match system_binary {
            Some(path) => path@,
            None => name@,
        }),
{
    match system_binary {
        Some(path) => path,
        None => String::from_str(name),
    }
}

/// Why a command line could not be built.
#[derive(Debug)]
pub enum ShellError {
    /// The relay program was not found.
    NoServer(String),
    /// The profile's shell runs on this machine.
    NotRemote,
}

impl ShellError {
    /// The error as text.
    pub fn message(&self) -> (r: String)
        ensures
            r@ == (match self {
                ShellError::NoServer(reason) => reason@,
                ShellError::NotRemote => "plain_ssh_shell is only meaningful for SSH/WSL profiles"@,
            }),
    {
        match self {
            ShellError::NoServer(reason) => reason.clone(),
            ShellError::NotRemote => String::from_str(
                "plain_ssh_shell is only meaningful for SSH/WSL profiles",
            ),
        }
    }
}

/// The command line of a profile's shell behind the relay. `command` is the profile's own command
/// line, `server_path` where the relay program lies, and `system_ssh` the system's own `ssh`.
pub fn tmux_wrapped_shell(
    profile: &TabProfile,
    command: ShellCommand,
    server_path: Result<String, String>,
    system_ssh: Option<String>,
    pane_id: &str,
    cursor_shape: CursorShape,
    scrollback: Option<usize>,
    cell_pixel_size: Option<(u16, u16)>,
) -> (r: Result<(String, Vec<String>), ShellError>)
    ensures
        ({
            let kind = remote_kind_of(command.program@);
            let program = match system_ssh {
                Some(path) if kind == RemoteKind::Ssh => path@,
                _ => command.program@,
            };
            match r {
                Ok((p, args)) => match kind {
                    RemoteKind::Local => server_path is Ok && p@ == server_path->Ok_0@ && texts(args@)
                        == local_args(
                        profile.name@,
                        pane_id@,
                        command.program@,
                        texts(command.args@),
                        cursor_shape,
                        scrollback,
                        cell_pixel_size,
                    ),
                    _ => p@ == program && texts(args@) == if profile.tmux || profile.srp || profile.lua {
                        remote_args(
                            profile.name@,
                            pane_id@,
                            texts(command.args@),
                            cursor_shape,
                            scrollback,
                            kind,
                        )
                    } else {
                        texts(command.args@)
                    },
                },
                Err(ShellError::NoServer(reason)) => kind == RemoteKind::Local && server_path is Err
                    && reason@ == server_path->Err_0@,
                Err(ShellError::NotRemote) => false,
            }
        }),
{
    let kind = classify_remote(command.program.as_str());
    match kind {
        RemoteKind::Local => match server_path {
            Ok(path) => {
                let args = wrap_command_args(
                    profile.name.as_str(),
                    pane_id,
                    command.program,
                    command.args,
                    cursor_shape,
                    scrollback,
                    cell_pixel_size,
                );
                Ok((path, args))
            },
            Err(reason) => Err(ShellError::NoServer(reason)),
        },
        _ => {
            let program = if kind == RemoteKind::Ssh {
                windows_openssh_binary(command.program.as_str(), system_ssh)
            } else {
                command.program
            };
            if wants_srp(profile) {
                let args = wrap_remote_command_args(
                    profile.name.as_str(),
                    pane_id,
                    command.args,
                    cursor_shape,
                    scrollback,
                    kind,
                );
                Ok((program, args))
            } else {
                Ok((program, command.args))
            }
        },
    }
}

/// The command line of a remote profile's shell without the relay.
pub fn plain_ssh_shell(command: ShellCommand, system_ssh: Option<String>) -> (r: Result<
    (String, Vec<String>),
    ShellError,
>)
    ensures
        ({
            let kind = remote_kind_of(command.program@);
            match r {
                Ok((p, args)) => kind != RemoteKind::Local && texts(args@) == texts(command.args@) && p@
                    == (match system_ssh {
                    Some(path) if kind == RemoteKind::Ssh => path@,
                    _ => command.program@,
                }),
                Err(e) => kind == RemoteKind::Local && e is NotRemote,
            }
        }),
{
    match classify_remote(command.program.as_str()) {
        RemoteKind::Local => Err(ShellError::NotRemote),
        RemoteKind::Ssh => Ok(
            (windows_openssh_binary(command.program.as_str(), system_ssh), command.args),
        ),
        RemoteKind::Wsl => Ok((command.program, command.args)),
    }
}

/// Where the relay lies on another machine.
pub open spec fn remote_relay() -> Seq<char> {
    "~/.local/bin/somsrv"@
}

/// Where the relay stands among arguments that end as those of a shell behind the relay on another
/// machine do: counted from the end, so that nothing the user wrote before it is taken for it.
pub open spec fn wrapped_relay(args: Seq<Seq<char>>) -> Option<int> {
    let n = args.len();
    if n >= 8 && args[n - 1] == "-l"@ && args[n - 2] == "--"@ {
        let at = if args[n - 4] == "--scrollback"@ {
            n - 10
        } else {
            n - 8
        };
        if at >= 0 && args[at] == remote_relay() && args[at + 3] == "$SHELL"@ {
            Some(at)
        } else {
            None
        }
    } else {
        None
    }
}

/// Where the first argument that is the relay stands, or the number of arguments.
pub open spec fn relay_position(args: Seq<Seq<char>>) -> int
    decreases args.len(),
{
    if args.len() == 0 || args[0] == remote_relay() {
        0
    } else {
        1 + relay_position(args.drop_first())
    }
}

/// Whether a program is the relay: its file is named so, whatever the directories are.
pub open spec fn is_relay(program: Seq<char>) -> bool {
    exists|i: int|
        #[trigger] occurs_at(program, "somsrv"@, i) && forall|j: int|
            i <= j < program.len() ==> program[j] != '/' && program[j] != '\\'
}

/// Where the pane id stands in a command line behind the relay: two behind the relay among the
/// arguments of a shell on another machine, whatever program they are for, and second among those
/// of the relay itself.
pub open spec fn pane_id_position(program: Seq<char>, args: Seq<Seq<char>>) -> Option<int> {
    match wrapped_relay(args) {
        Some(at) => Some(at + 2),
        None => if remote_kind_of(program) != RemoteKind::Local {
            if relay_position(args) + 2 < args.len() {
                Some(relay_position(args) + 2)
            } else {
                None
            }
        } else if is_relay(program) && args.len() >= 2 {
            Some(1)
        } else {
            None
        },
    }
}

/// The same shell with another pane id, where it runs behind the relay.
pub open spec fn with_pane_id(shell: ShellModel, id: Seq<char>) -> Option<ShellModel> {
    match shell {
        ShellModel::WithArguments { program, args, title_override } => match pane_id_position(
            program,
            args,
        ) {
            Some(p) => Some(
                ShellModel::WithArguments { program, args: args.update(p, id), title_override },
            ),
            None => None,
        },
        _ => None,
    }
}

proof fn lemma_relay_position(args: Seq<Seq<char>>, p: int)
    requires
        0 <= p <= args.len(),
        p < args.len() ==> args[p] == remote_relay(),
        forall|j: int| 0 <= j < p ==> #[trigger] args[j] != remote_relay(),
    ensures
        relay_position(args) == p,
    decreases args.len(),
{
    if p > 0 {
        assert(args[0] != remote_relay());
        assert forall|j: int| 0 <= j < p - 1 implies #[trigger] args.drop_first()[j] != remote_relay() by {
            assert(args.drop_first()[j] == args[j + 1]);
        }
        lemma_relay_position(args.drop_first(), p - 1);
    }
}

proof fn lemma_relay_found(args: Seq<Seq<char>>)
    ensures
        0 <= relay_position(args) <= args.len(),
        relay_position(args) < args.len() ==> args[relay_position(args)] == remote_relay(),
        forall|j: int| 0 <= j < relay_position(args) ==> #[trigger] args[j] != remote_relay(),
    decreases args.len(),
{
    if args.len() > 0 && args[0] != remote_relay() {
        let rest = args.drop_first();
        lemma_relay_found(rest);
        assert forall|j: int| 0 <= j < relay_position(args) implies #[trigger] args[j] != remote_relay() by {
            if j > 0 {
                assert(rest[j - 1] == args[j]);
            }
        }
    }
}

/// Whether a program is the relay.
fn names_relay(program: &str) -> (r: bool)
    ensures
        r == is_relay(program@),
{
    let chars = chars_of(program);
    let mut from: usize = chars.len();
    while from > 0 && chars[from - 1] != '/' && chars[from - 1] != '\\'
        invariant
            from <= chars@.len(),
            forall|j: int| from <= j < chars@.len() ==> chars@[j] != '/' && chars@[j] != '\\',
        decreases from,
    {
        from -= 1;
    }
    let name = text_between(&chars, from, chars.len());
    let found = contains(name.as_str(), "somsrv");
    proof {
        let p = program@;
        let needle = "somsrv"@;
        reveal_strlit("somsrv");
        if found {
            let i = choose|i: int| occurs_at(name@, needle, i);
            assert(p.subrange(from + i, from + i + needle.len()) =~= name@.subrange(i, i + needle.len()));
            assert(occurs_at(p, needle, from + i));
        }
        if is_relay(p) {
            let i = choose|i: int|
                #[trigger] occurs_at(p, needle, i) && forall|j: int|
                    i <= j < p.len() ==> p[j] != '/' && p[j] != '\\';
            if i < from {
                assert(p[from - 1] == '/' || p[from - 1] == '\\');
                assert(false);
            }
            assert(name@.subrange(i - from, i - from + needle.len()) =~= p.subrange(i, i + needle.len()));
            assert(occurs_at(name@, needle, i - from));
        }
    }
    found
}

fn find_wrapped_relay(args: &Vec<String>) -> (r: Option<usize>)
    ensures
        match r {
            Some(at) => wrapped_relay(texts(args@)) == Some(at as int) && at + 3 < args@.len(),
            None => wrapped_relay(texts(args@)) is None,
        },
{
    let n = args.len();
    if n < 8 || !same_text(args[n - 1].as_str(), "-l") || !same_text(args[n - 2].as_str(), "--") {
        return None;
    }
    let back: usize = if same_text(args[n - 4].as_str(), "--scrollback") {
        10
    } else {
        8
    };
    if n < back {
        return None;
    }
    let at = n - back;
    if same_text(args[at].as_str(), "~/.local/bin/somsrv") && same_text(args[at + 3].as_str(), "$SHELL") {
        Some(at)
    } else {
        None
    }
}

fn find_relay(args: &Vec<String>) -> (r: usize)
    ensures
        r == relay_position(texts(args@)),
        r <= args@.len(),
{
    let mut i: usize = 0;
    while i < args.len() && !same_text(args[i].as_str(), "~/.local/bin/somsrv")
        invariant
            i <= args@.len(),
            forall|j: int| 0 <= j < i ==> #[trigger] texts(args@)[j] != remote_relay(),
        decreases args@.len() - i,
    {
        i += 1;
    }
    proof {
        lemma_relay_position(texts(args@), i as int);
    }
    i
}

/// The shell with `id` in place of its pane id; nothing for a shell that is not behind the relay.
pub fn rebuild_tmux_shell(shell: &Shell, id: &str) -> (r: Option<Shell>)
    ensures
        (match r {
            Some(s) => Some(s@),
            None => None,
        }) == with_pane_id(shell@, id@),
{
    match shell {
        Shell::WithArguments { program, args, title_override } => {
            let count = args.len();
            let p: usize = match find_wrapped_relay(args) {
                Some(at) => at + 2,
                None => match classify_remote(program.as_str()) {
                    RemoteKind::Local => {
                        if !names_relay(program.as_str()) || count < 2 {
                            return None;
                        }
                        1
                    },
                    _ => {
                        let at = find_relay(args);
                        if count - at <= 2 {
                            return None;
                        }
                        at + 2
                    },
                },
            };
            let mut new_args = clone_list(args);
            proof {
                assert(texts(args@).len() == args@.len());
                assert(texts(new_args@).len() == new_args@.len());
            }
            let ghost before = new_args@;
            new_args.set(p, String::from_str(id));
            proof {
                assert(texts(new_args@) =~= texts(args@).update(p as int, id@)) by {
                    assert forall|j: int| 0 <= j < new_args@.len() implies #[trigger] texts(new_args@)[j]
                        == texts(args@).update(p as int, id@)[j] by {
                        if j != p {
                            assert(texts(before)[j] == texts(args@)[j]);
                        }
                    }
                }
            }
            Some(
                Shell::WithArguments {
                    program: program.clone(),
                    args: new_args,
                    title_override: clone_opt(title_override),
                },
            )
        },
        _ => None,
    }
}

/// The shell of a pane that is split off: the same, with a pane id of its own, which is returned
/// too. Nothing for a shell that is not behind the relay.
pub fn rebuild_tmux_shell_with_fresh_pane_id(shell: &Shell) -> (r: Option<(Shell, String)>)
    ensures
        r is Some <==> with_pane_id(shell@, Seq::empty()) is Some,
        r matches Some((s, id)) ==> is_pane_id(id@) && with_pane_id(shell@, id@) == Some(s@),
{
    let id = fresh_pane_id();
    match rebuild_tmux_shell(shell, id.as_str()) {
        Some(s) => Some((s, id)),
        None => None,
    }
}

/// The contents of a list of string slices.
pub open spec fn slice_texts(list: Seq<&str>) -> Seq<Seq<char>> {
    list.map_values(|s: &str| s@)
}

/// The arguments that run a program on the other side.
pub fn wrap_remote_probe_args(host_args: &[String], remote_program: &str, extra: &[&str]) -> (r: Vec<
    String,
>)
    ensures
        texts(r@) == texts(host_args@).push(remote_program@) + slice_texts(extra@),
{
    let mut out: Vec<String> = Vec::new();
    let mut i: usize = 0;
    assert(texts(out@) =~= texts(host_args@).take(0));
    while i < host_args.len()
        invariant
            i <= host_args@.len(),
            texts(out@) == texts(host_args@).take(i as int),
        decreases host_args@.len() - i,
    {
        push_text(&mut out, host_args[i].as_str());
        assert(texts(host_args@).take(i + 1) =~= texts(host_args@).take(i as int).push(
            host_args@[i as int]@,
        ));
        i += 1;
    }
    assert(texts(host_args@).take(i as int) =~= texts(host_args@));
    push_text(&mut out, remote_program);
    let ghost before = texts(out@);
    let mut k: usize = 0;
    assert(texts(out@) =~= before + slice_texts(extra@).take(0));
    while k < extra.len()
        invariant
            k <= extra@.len(),
            texts(out@) == before + slice_texts(extra@).take(k as int),
        decreases extra@.len() - k,
    {
        push_text(&mut out, extra[k]);
        assert(slice_texts(extra@).take(k + 1) =~= slice_texts(extra@).take(k as int).push(
            extra@[k as int]@,
        ));
        assert(texts(out@) =~= before + slice_texts(extra@).take(k + 1));
        k += 1;
    }
    assert(slice_texts(extra@).take(k as int) =~= slice_texts(extra@));
    out
}

/// A script as one quoted word.
pub open spec fn quoted(script: Seq<char>) -> Seq<char> {
    seq!['\''] + with_char_replaced(script, '\'', "'\\''"@) + seq!['\'']
}

/// Quotes a script so that a shell on the other side takes it as one word.
pub fn shell_quote(script: &str) -> (r: String)
    ensures
        r@ == quoted(script@),
{
    let mut out = String::new();
    out.push('\'');
    let inner = replace_char(script, '\'', "'\\''");
    out.append(inner.as_str());
    out.push('\'');
    assert(out@ =~= quoted(script@));
    out
}

/// What a shell reads a word as that is made of single-quoted pieces and escaped characters.
/// Anything else, and a quote that is left open, is no such word.
pub open spec fn shell_word(s: Seq<char>, in_quotes: bool) -> Option<Seq<char>>
    decreases s.len(),
{
    if s.len() == 0 {
        if in_quotes {
            None
        } else {
            Some(Seq::empty())
        }
    } else if s[0] == '\'' {
        shell_word(s.skip(1), !in_quotes)
    } else if in_quotes {
        match shell_word(s.skip(1), true) {
            Some(rest) => Some(seq![s[0]] + rest),
            None => None,
        }
    } else if s[0] == '\\' && s.len() >= 2 {
        match shell_word(s.skip(2), false) {
            Some(rest) => Some(seq![s[1]] + rest),
            None => None,
        }
    } else {
        None
    }
}

proof fn lemma_shell_word_inside(script: Seq<char>)
    ensures
        shell_word(with_char_replaced(script, '\'', "'\\''"@) + seq!['\''], true) == Some(script),
    decreases script.len(),
{
    let with = "'\\''"@;
    reveal_strlit("'\\''");
    let s = with_char_replaced(script, '\'', with) + seq!['\''];
    if script.len() == 0 {
        assert(s =~= seq!['\'']);
        assert(s.skip(1) =~= Seq::<char>::empty());
        reveal_with_fuel(shell_word, 2);
        assert(script =~= Seq::<char>::empty());
    } else {
        let first = seq![script[0]];
        let rest = script.skip(1);
        assert(script =~= first + rest);
        lemma_replaced_concat(first, rest, '\'', with);
        lemma_shell_word_inside(rest);
        let tail = with_char_replaced(rest, '\'', with) + seq!['\''];
        reveal_with_fuel(with_char_replaced, 2);
        assert(first.drop_last() =~= Seq::<char>::empty());
        if script[0] == '\'' {
            assert(with_char_replaced(first, '\'', with) =~= with);
            assert(s =~= with + tail);
            assert(s.skip(1).skip(2).skip(1) =~= tail);
            assert(s[0] == '\'');
            assert(s.skip(1)[0] == '\\' && s.skip(1)[1] == '\'');
            assert(s.skip(1).skip(2)[0] == '\'');
            assert(shell_word(s.skip(1).skip(2), false) == shell_word(tail, true));
            assert(shell_word(s.skip(1), false) == Some(seq!['\''] + rest));
        } else {
            assert(with_char_replaced(first, '\'', with) =~= first);
            assert(s =~= first + tail);
            assert(s.skip(1) =~= tail);
        }
        assert(first + rest =~= script);
    }
}

/// A quoted script reaches the other side as one word, and as what it was.
pub proof fn lemma_shell_quote_read_back(script: Seq<char>)
    ensures
        shell_word(quoted(script), false) == Some(script),
{
    lemma_shell_word_inside(script);
    assert(quoted(script).skip(1) =~= with_char_replaced(script, '\'', "'\\''"@) + seq!['\'']);
}

/// A split of a local pane behind the relay runs the same command line with its own pane id.
pub proof fn lemma_rebuild_local(
    server: Seq<char>,
    profile: Seq<char>,
    pane_id: Seq<char>,
    fresh: Seq<char>,
    program: Seq<char>,
    args: Seq<Seq<char>>,
    shape: CursorShape,
    scrollback: Option<usize>,
    cell_size: Option<(u16, u16)>,
    title_override: Option<Seq<char>>,
)
    requires
        is_relay(server),
    ensures
        with_pane_id(
            ShellModel::WithArguments {
                program: server,
                args: local_args(profile, pane_id, program, args, shape, scrollback, cell_size),
                title_override,
            },
            fresh,
        ) == Some(
            ShellModel::WithArguments {
                program: server,
                args: local_args(profile, fresh, program, args, shape, scrollback, cell_size),
                title_override,
            },
        ),
{
    let all = local_args(profile, pane_id, program, args, shape, scrollback, cell_size);
    let n = all.len();
    reveal_strlit("somsrv");
    reveal_strlit("ssh");
    reveal_strlit("wsl");
    reveal_strlit("wsl.exe");
    reveal_strlit("--");
    reveal_strlit("--cursor-shape");
    reveal_strlit("--scrollback");
    reveal_strlit("--cell-pixel-size");
    assert(remote_kind_of(server) == RemoteKind::Local) by {
        let i = choose|i: int| occurs_at(server, "somsrv"@, i);
        assert(server.subrange(i, i + 6)[3] == server[i + 3]);
        assert(server[i + 1] == server.subrange(i, i + 6)[1]);
        assert(server[i] == server.subrange(i, i + 6)[0]);
        assert(server[i + 1] == 'o');
    }
    assert(all[n - 2] == "--cursor-shape"@ || all[n - 2] == "--scrollback"@ || all[n - 2]
        == "--cell-pixel-size"@);
    assert(all[n - 2].len() > 2);
    assert(all.update(1, fresh) =~= local_args(profile, fresh, program, args, shape, scrollback, cell_size));
}

/// A split of a remote pane behind the relay runs the same command line with its own pane id,
/// whatever program reaches the other machine, and whatever the user's own arguments are.
pub proof fn lemma_rebuild_remote(
    program: Seq<char>,
    kind: RemoteKind,
    profile: Seq<char>,
    pane_id: Seq<char>,
    fresh: Seq<char>,
    args: Seq<Seq<char>>,
    shape: CursorShape,
    scrollback: Option<usize>,
    title_override: Option<Seq<char>>,
)
    ensures
        with_pane_id(
            ShellModel::WithArguments {
                program,
                args: remote_args(profile, pane_id, args, shape, scrollback, kind),
                title_override,
            },
            fresh,
        ) == Some(
            ShellModel::WithArguments {
                program,
                args: remote_args(profile, fresh, args, shape, scrollback, kind),
                title_override,
            },
        ),
{
    let all = remote_args(profile, pane_id, args, shape, scrollback, kind);
    let first: int = if kind == RemoteKind::Ssh {
        1
    } else {
        0
    };
    let p = first + args.len();
    let n = all.len();
    reveal_strlit("--cursor-shape");
    reveal_strlit("--scrollback");
    assert(all[p] == remote_relay());
    assert(all[p + 3] == "$SHELL"@);
    assert(all[n - 1] == "-l"@);
    assert(all[n - 2] == "--"@);
    if scrollback is Some {
        assert(n == p + 10);
        assert(all[n - 4] == "--scrollback"@);
    } else {
        assert(n == p + 8);
        assert(all[n - 4] == "--cursor-shape"@);
        assert("--cursor-shape"@.len() != "--scrollback"@.len());
    }
    assert(wrapped_relay(all) == Some(p));
    assert(all.update(p + 2, fresh) =~= remote_args(profile, fresh, args, shape, scrollback, kind));
}

/// A split changes one argument, to its pane id, and a split of that split works like the first: the
/// shell is still behind the relay, and it is the same argument that changes. All else stays as it
/// was in the shell that was split first.
pub proof fn lemma_rebuild_again(shell: ShellModel, id: Seq<char>, next: Seq<char>)
    requires
        is_pane_id(id),
        with_pane_id(shell, id) is Some,
    ensures
        with_pane_id(shell, id)->0 matches ShellModel::WithArguments { program, args, title_override } && {
            let place = pane_id_position(program, shell->args)->0;
            &&& shell == (ShellModel::WithArguments { program, args: shell->args, title_override })
            &&& args.len() == shell->args.len()
            &&& 0 <= place < args.len() && args[place] == id
            &&& forall|j: int| 0 <= j < args.len() && j != place ==> #[trigger] args[j] == shell->args[j]
            &&& pane_id_position(program, args) == Some(place)
        },
        with_pane_id(with_pane_id(shell, id)->0, next) is Some,
        with_pane_id(with_pane_id(shell, id)->0, next) == with_pane_id(shell, next),
{
    let program = shell->WithArguments_program;
    let args = shell->args;
    let at = pane_id_position(program, args)->0;
    let changed = args.update(at, id);
    let n = args.len();
    lemma_relay_found(args);
    reveal_strlit("~/.local/bin/somsrv");
    reveal_strlit("$SHELL");
    reveal_strlit("-l");
    reveal_strlit("--");
    reveal_strlit("--scrollback");
    assert(id.len() == 36);
    if wrapped_relay(args) is None {
        if remote_kind_of(program) != RemoteKind::Local {
            let p = relay_position(args);
            assert forall|j: int| 0 <= j < p implies #[trigger] changed[j] != remote_relay() by {
                assert(changed[j] == args[j]);
            }
            lemma_relay_position(changed, p);
        }
        assert(wrapped_relay(changed) is None);
    }
    assert(pane_id_position(program, changed) == Some(at));
    assert(changed.update(at, next) =~= args.update(at, next));
}

/// A shell is another machine's where it is started by `ssh`, that of this machine's other system where
/// it is started by `wsl`, and else this machine's own.
pub proof fn lemma_remote_kinds(program: Seq<char>)
    ensures
        remote_kind_of(program) == RemoteKind::Ssh <==> program == "ssh"@,
        remote_kind_of(program) == RemoteKind::Wsl <==> program == "wsl"@ || program == "wsl.exe"@,
        remote_kind_of(program) == RemoteKind::Local <==> program != "ssh"@ && program != "wsl"@ && program
            != "wsl.exe"@,
{
    reveal_strlit("ssh");
    reveal_strlit("wsl");
    reveal_strlit("wsl.exe");
    assert("ssh"@[0] != "wsl"@[0]);
    assert("ssh"@.len() == 3);
    assert("wsl.exe"@.len() == 7);
}

/// The relay knows each shape of the cursor by its own name.
pub proof fn lemma_cursor_shape_names(shape: CursorShape)
    ensures
        shape == CursorShape::Block <==> cursor_shape_name(shape) == "block"@,
        shape == CursorShape::Underline <==> cursor_shape_name(shape) == "underline"@,
        shape == CursorShape::Bar <==> cursor_shape_name(shape) == "bar"@,
        shape == CursorShape::Hollow <==> cursor_shape_name(shape) == "hollow"@,
{
    reveal_strlit("block");
    reveal_strlit("underline");
    reveal_strlit("bar");
    reveal_strlit("hollow");
    assert("block"@.len() == 5);
    assert("underline"@.len() == 9);
    assert("bar"@.len() == 3);
    assert("hollow"@.len() == 6);
}

/// The relay of this machine is told the profile, the pane, the program and its arguments as they are,
/// and behind them the cursor, the lines to keep and the size of a cell, each where it is known.
pub proof fn lemma_local_command_line(
    profile: Seq<char>,
    pane_id: Seq<char>,
    program: Seq<char>,
    args: Seq<Seq<char>>,
    shape: CursorShape,
    scrollback: Option<usize>,
    cell_size: Option<(u16, u16)>,
)
    ensures
        ({
            let all = local_args(profile, pane_id, program, args, shape, scrollback, cell_size);
            let n = args.len() as int;
            let behind = if scrollback is Some {
                n + 7
            } else {
                n + 5
            };
            &&& all[0] == profile
            &&& all[1] == pane_id
            &&& all[2] == program
            &&& all.subrange(3, 3 + n) == args
            &&& all[n + 3] == "--cursor-shape"@
            &&& all[n + 4] == cursor_shape_name(shape)
            &&& scrollback matches Some(lines) ==> all[n + 5] == "--scrollback"@ && all[n + 6] == integer_text(
                lines as int,
            )
            &&& cell_size matches Some((w, h)) ==> all[behind] == "--cell-pixel-size"@ && all[behind + 1]
                == integer_text(w as int) + seq![';'] + integer_text(h as int)
            &&& all.len() == behind + if cell_size is Some {
                2int
            } else {
                0
            }
        }),
{
    let all = local_args(profile, pane_id, program, args, shape, scrollback, cell_size);
    reveal_strlit(";");
    assert(";"@ =~= seq![';']);
    assert(all.subrange(3, 3int + args.len()) =~= args);
}

/// The relay of another machine is reached by the arguments that lead there, behind a flag that asks
/// `ssh` for a terminal. It is told the profile and the pane and runs the login shell there.
pub proof fn lemma_remote_command_line(
    profile: Seq<char>,
    pane_id: Seq<char>,
    args: Seq<Seq<char>>,
    shape: CursorShape,
    scrollback: Option<usize>,
    kind: RemoteKind,
)
    ensures
        ({
            let all = remote_args(profile, pane_id, args, shape, scrollback, kind);
            let from = if kind == RemoteKind::Ssh {
                1int
            } else {
                0
            };
            let relay = from + args.len();
            &&& kind == RemoteKind::Ssh ==> all[0] == "-tt"@
            &&& all.subrange(from, relay) == args
            &&& all[relay] == "~/.local/bin/somsrv"@
            &&& all[relay + 1] == profile
            &&& all[relay + 2] == pane_id
            &&& all[relay + 3] == "$SHELL"@
            &&& all[relay + 4] == "--cursor-shape"@
            &&& all[relay + 5] == cursor_shape_name(shape)
            &&& scrollback matches Some(lines) ==> all[relay + 6] == "--scrollback"@ && all[relay + 7]
                == integer_text(lines as int)
            &&& all.len() == relay + 8 + if scrollback is Some {
                2int
            } else {
                0
            }
            &&& all[all.len() - 2] == "--"@
            &&& all[all.len() - 1] == "-l"@
        }),
{
    let all = remote_args(profile, pane_id, args, shape, scrollback, kind);
    let from = if kind == RemoteKind::Ssh {
        1int
    } else {
        0
    };
    assert(all.subrange(from, from + args.len()) =~= args);
}

} // verus!
