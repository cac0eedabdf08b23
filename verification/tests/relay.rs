use som::deploy::{
    client_id_probe_args, command_outcome, deploy_lock_for_host, deploy_toast, human_readable_deploy_error,
    mtime_probe_args, needs_deploy, parse_mtime_output, read_this_client_id, remote_os_to_platform, remote_program,
    scp_destination, show_somsrv_toast, Arch, CleanupAction, CleanupReply, CleanupRun, DeployAction, DeployReply,
    DeployLocks, DeployRequest, DeployRun, NotificationScope, NotificationSeverity, Os, SessionInfo,
};
use som::shell::{
    cursor_shape_arg, plain_ssh_shell, rebuild_tmux_shell, shell_quote, tmux_wrapped_shell, wants_srp,
    windows_openssh_binary, wrap_remote_command_args, CursorShape, RemoteKind, RemoteOs, Shell, ShellCommand,
    ShellError, TabProfile,
};

fn strings(list: &[&str]) -> Vec<String> {
    list.iter().map(|s| s.to_string()).collect()
}

fn profile(tmux: bool) -> TabProfile {
    TabProfile {
        name: "srv".to_string(),
        icon: None,
        shell: None,
        home: None,
        tmux,
        srp: false,
        lua: false,
        os: RemoteOs::Lnx,
    }
}

fn command(program: &str, args: &[&str]) -> ShellCommand {
    ShellCommand { program: program.to_string(), args: strings(args) }
}

#[test]
fn any_of_three_switches_asks_for_the_relay() {
    assert!(!wants_srp(&profile(false)));
    assert!(wants_srp(&profile(true)));
    let mut p = profile(false);
    p.srp = true;
    assert!(wants_srp(&p));
    p.srp = false;
    p.lua = true;
    assert!(wants_srp(&p));
}

#[test]
fn cursor_shapes_have_names() {
    assert_eq!(cursor_shape_arg(CursorShape::Block), "block");
    assert_eq!(cursor_shape_arg(CursorShape::Underline), "underline");
    assert_eq!(cursor_shape_arg(CursorShape::Bar), "bar");
    assert_eq!(cursor_shape_arg(CursorShape::Hollow), "hollow");
}

#[test]
fn scripts_are_quoted_for_the_shell() {
    assert_eq!(shell_quote("echo hi"), "'echo hi'");
    assert_eq!(shell_quote("it's"), "'it'\\''s'");
    assert_eq!(shell_quote(""), "''");
}

#[test]
fn a_local_shell_runs_behind_the_relay_program() {
    let (program, args) = tmux_wrapped_shell(
        &profile(true),
        command("bash", &["-l"]),
        Ok("/opt/somsrv".to_string()),
        None,
        "id",
        CursorShape::Bar,
        Some(10),
        Some((8, 16)),
    )
    .unwrap();
    assert_eq!(program, "/opt/somsrv");
    assert_eq!(
        args,
        strings(&["srv", "id", "bash", "-l", "--cursor-shape", "bar", "--scrollback", "10", "--cell-pixel-size", "8;16"])
    );
}

#[test]
fn a_local_shell_needs_the_relay_program() {
    let error = tmux_wrapped_shell(
        &profile(true),
        command("bash", &[]),
        Err("no somsrv".to_string()),
        None,
        "id",
        CursorShape::Bar,
        None,
        None,
    )
    .unwrap_err();
    assert_eq!(error.message(), "no somsrv");
    assert!(matches!(error, ShellError::NoServer(_)));
}

#[test]
fn a_remote_shell_uses_the_systems_own_ssh() {
    let wrapped = |tmux: bool, program: &str| {
        tmux_wrapped_shell(
            &profile(tmux),
            command(program, &["host"]),
            Err("unused".to_string()),
            Some("C:\\Windows\\ssh.exe".to_string()),
            "id",
            CursorShape::Block,
            None,
            None,
        )
        .unwrap()
    };
    let (program, args) = wrapped(true, "ssh");
    assert_eq!(program, "C:\\Windows\\ssh.exe");
    assert_eq!(
        args,
        wrap_remote_command_args("srv", "id", strings(&["host"]), CursorShape::Block, None, RemoteKind::Ssh)
    );
    assert_eq!(wrapped(false, "ssh").1, strings(&["host"]));
    assert_eq!(wrapped(true, "wsl").0, "wsl");
    assert_eq!(windows_openssh_binary("ssh", None), "ssh");
}

#[test]
fn a_plain_shell_is_for_other_machines_only() {
    let (program, args) = plain_ssh_shell(command("ssh", &["-p", "22", "host"]), None).unwrap();
    assert_eq!(program, "ssh");
    assert_eq!(args, strings(&["-p", "22", "host"]));
    let error = plain_ssh_shell(command("bash", &[]), None).unwrap_err();
    assert!(matches!(error, ShellError::NotRemote));
    assert_eq!(error.message(), "plain_ssh_shell is only meaningful for SSH/WSL profiles");
}

#[test]
fn what_was_wrapped_can_be_given_another_pane() {
    let (program, args) = tmux_wrapped_shell(
        &profile(true),
        command("bash", &["-l"]),
        Ok("/opt/somsrv".to_string()),
        None,
        "old",
        CursorShape::Bar,
        None,
        None,
    )
    .unwrap();
    let shell = Shell::WithArguments { program, args, title_override: None };
    match rebuild_tmux_shell(&shell, "new") {
        Some(Shell::WithArguments { program, args, .. }) => {
            assert_eq!(program, "/opt/somsrv");
            assert_eq!(args, strings(&["srv", "new", "bash", "-l", "--cursor-shape", "bar"]));
        }
        other => panic!("{:?}", other),
    }
    assert!(rebuild_tmux_shell(&Shell::System, "new").is_none());
    let other = Shell::WithArguments {
        program: "/home/somsrv/bin/bash".to_string(),
        args: strings(&["-c", "htop"]),
        title_override: None,
    };
    assert!(rebuild_tmux_shell(&other, "new").is_none());
    assert!(rebuild_tmux_shell(&Shell::Program("/opt/somsrv".to_string()), "new").is_none());
}

#[test]
fn nothing_else_is_taken_for_the_relay() {
    let rebuilt = |program: &str, args: Vec<String>| {
        let shell = Shell::WithArguments { program: program.to_string(), args, title_override: None };
        match rebuild_tmux_shell(&shell, "new") {
            Some(Shell::WithArguments { args, .. }) => Some(args),
            _ => None,
        }
    };
    let wrapped = |profile: &str, id: &str, host: &[&str], scrollback: Option<usize>| {
        wrap_remote_command_args(profile, id, strings(host), CursorShape::Block, scrollback, RemoteKind::Ssh)
    };
    for host in [&["somsrv.example.com"][..], &["~/.local/bin/somsrv", "x", "y", "$SHELL"][..], &[][..]] {
        for scrollback in [None, Some(5)] {
            for profile in ["pi5", "~/.local/bin/somsrv"] {
                for program in ["ssh", "C:\\Windows\\System32\\OpenSSH\\ssh.exe", "/somsrv/ssh"] {
                    let expected = Some(wrapped(profile, "new", host, scrollback));
                    assert_eq!(rebuilt(program, wrapped(profile, "old", host, scrollback)), expected);
                }
            }
        }
    }
    let short = strings(&["host", "~/.local/bin/somsrv", "p", "old"]);
    assert_eq!(rebuilt("ssh", short), Some(strings(&["host", "~/.local/bin/somsrv", "p", "new"])));
    assert_eq!(rebuilt("ssh", strings(&["host", "~/.local/bin/somsrv", "p"])), None);
    assert_eq!(rebuilt("ssh", strings(&["somsrv.example.com", "a", "b"])), None);
    assert_eq!(rebuilt("bash", strings(&["host", "~/.local/bin/somsrv", "p", "old"])), None);
}

#[test]
fn a_split_can_be_split_again() {
    let args = wrap_remote_command_args("p", "old", strings(&["h"]), CursorShape::Bar, None, RemoteKind::Ssh);
    let first = Shell::WithArguments { program: "ssh".to_string(), args, title_override: Some("t".to_string()) };
    let second = rebuild_tmux_shell(&first, "6b1a7c1e-0000-4000-8000-000000000001").unwrap();
    let third = rebuild_tmux_shell(&second, "new").unwrap();
    let direct = rebuild_tmux_shell(&first, "new").unwrap();
    assert_eq!(format!("{:?}", third), format!("{:?}", direct));
}

#[test]
fn the_probe_answer_is_found_behind_noise() {
    assert_eq!(parse_mtime_output("Welcome!\nSOM_MTIME:1700000000\n"), Some(1700000000));
    assert_eq!(parse_mtime_output("SOM_MTIME:\n"), None);
    assert_eq!(parse_mtime_output("motd only\n"), None);
    assert_eq!(parse_mtime_output("SOM_MTIME:-1\n"), None);
}

#[test]
fn a_client_needs_an_address() {
    assert_eq!(read_this_client_id("hi\nSOM_CLIENT_ID:me@10.0.0.1 5 22\n"), Some("me@10.0.0.1".to_string()));
    assert_eq!(read_this_client_id("SOM_CLIENT_ID:me@\n"), None);
    assert_eq!(read_this_client_id("nothing"), None);
}

#[test]
fn probes_are_run_by_a_login_shell() {
    assert_eq!(
        mtime_probe_args(&strings(&["host"]), Os::Linux),
        strings(&["host", "sh", "-lc", "'echo \"SOM_MTIME:$(stat -c %Y ~/.local/bin/somsrv 2>/dev/null)\"'"])
    );
    assert_eq!(
        mtime_probe_args(&strings(&["host"]), Os::Darwin)[3],
        "'echo \"SOM_MTIME:$(stat -f %m ~/.local/bin/somsrv 2>/dev/null)\"'"
    );
    assert_eq!(
        client_id_probe_args(&strings(&[])),
        strings(&["sh", "-lc", "'echo \"SOM_CLIENT_ID:$(whoami)@$SSH_CLIENT\"'"])
    );
}

#[test]
fn each_host_system_has_a_build() {
    assert_eq!(remote_os_to_platform(RemoteOs::Win), (Os::Windows, Arch::Amd64));
    assert_eq!(remote_os_to_platform(RemoteOs::Mac), (Os::Darwin, Arch::Arm64));
    assert_eq!(remote_os_to_platform(RemoteOs::Lnx), (Os::Linux, Arch::Amd64));
}

#[test]
fn one_lock_for_one_host() {
    let mut locks = DeployLocks::new();
    let first = deploy_lock_for_host(&mut locks, &strings(&["-p", "22", "host"]));
    let other = deploy_lock_for_host(&mut locks, &strings(&["host"]));
    assert_ne!(first, other);
    assert_eq!(deploy_lock_for_host(&mut locks, &strings(&["-p", "22", "host"])), first);
    assert_eq!(deploy_lock_for_host(&mut locks, &strings(&["-p 22", "host"])), first);
    assert_eq!(deploy_lock_for_host(&mut locks, &strings(&["host"])), other);
}

#[test]
fn a_relay_is_due_where_it_is_older_or_missing() {
    assert!(needs_deploy(5, None));
    assert!(needs_deploy(1_000_000_001, Some(1)));
    assert!(!needs_deploy(1_000_000_000, Some(1)));
}

#[test]
fn files_go_to_the_last_host_argument() {
    assert_eq!(scp_destination(&strings(&["-p", "me@host"]), "~/x"), Some("me@host:~/x".to_string()));
    assert_eq!(scp_destination(&strings(&[]), "~/x"), None);
}

#[test]
fn failures_are_told_in_words() {
    let reasons = [
        ("x: No such file or directory", "the somsrv program wasn't found on the server after copying it there"),
        ("Permission denied (publickey)", "the server refused permission while setting up somsrv"),
        ("no embedded somsrv binary for a/b", "Som doesn't have a somsrv build for that server's platform"),
        ("failed to spawn scp", "couldn't even start ssh/scp — check that they're installed and on your PATH"),
        ("scp exited with Some(1): lost", "copying somsrv to the server failed"),
        ("timeout", "couldn't reach or set up the server"),
    ];
    for (detail, reason) in reasons {
        assert_eq!(
            human_readable_deploy_error("srv", detail),
            format!("Couldn't set up the \"srv\" tab: {}.\n\nDetails:\n{}", reason, detail)
        );
    }
}

#[test]
fn the_outcome_of_a_setup_is_shown() {
    assert!(deploy_toast("srv", 7, &Ok(false)).is_none());
    let toast = deploy_toast("srv", 7, &Ok(true)).unwrap();
    assert_eq!(toast.scope, NotificationScope::Tab(7));
    assert_eq!(toast.id, "somsrv-deploy-redeployed-7");
    assert_eq!(toast.severity, NotificationSeverity::Info);
    assert_eq!(
        toast.message,
        "Som: Redeployed somsrv on the \"srv\" server — restart this tab to use it, or keep working as-is."
    );
    let toast = deploy_toast("srv", 7, &Err("timeout".to_string())).unwrap();
    assert_eq!(toast.id, "somsrv-deploy-error-7");
    assert_eq!(toast.severity, NotificationSeverity::Error);
    let toast = show_somsrv_toast(1, "k", NotificationSeverity::Warning, "m");
    assert_eq!((toast.id.as_str(), toast.message.as_str()), ("somsrv-deploy-k-1", "Som: m"));
}

#[test]
fn a_process_gives_its_output_or_its_error() {
    assert_eq!(command_outcome("ssh", true, Some(0), "out".to_string(), "err"), Ok("out".to_string()));
    assert_eq!(
        command_outcome("ssh", false, Some(255), "out".to_string(), "refused"),
        Err("ssh exited with Some(255): refused".to_string())
    );
    assert_eq!(
        command_outcome("scp", false, None, String::new(), ""),
        Err("scp exited with None: ".to_string())
    );
}

#[test]
fn commands_run_through_ssh_or_wsl() {
    assert_eq!(remote_program(RemoteKind::Ssh), Ok("ssh"));
    assert_eq!(remote_program(RemoteKind::Wsl), Ok("wsl"));
    assert_eq!(
        remote_program(RemoteKind::Local),
        Err("run_remote_command called with RemoteKind::Local".to_string())
    );
}

fn request(kind: RemoteKind) -> DeployRequest {
    DeployRequest {
        host_args: strings(&["host"]),
        host_label: "[\"host\"]".to_string(),
        remote_kind: kind,
        os: RemoteOs::Lnx,
    }
}

fn runs(action: &DeployAction) -> Vec<String> {
    match action {
        DeployAction::Run { args } => args.clone(),
        other => panic!("{:?}", other),
    }
}

#[test]
fn a_host_without_a_relay_gets_one_in_place() {
    let (mut run, action) = DeployRun::start(request(RemoteKind::Ssh));
    assert!(matches!(action, DeployAction::ReadTime));
    assert_eq!(runs(&run.next(DeployReply::Time(5)))[1], "sh");
    assert!(matches!(
        run.next(DeployReply::Output("SOM_MTIME:\n".to_string())),
        DeployAction::Stage { os: Os::Linux, arch: Arch::Amd64 }
    ));
    assert_eq!(
        runs(&run.next(DeployReply::Path("/tmp/s".to_string()))),
        strings(&["host", "mkdir", "-p", "~/.local/bin"])
    );
    match run.next(DeployReply::Output(String::new())) {
        DeployAction::Upload { path, destination } => {
            assert_eq!(path, "/tmp/s");
            assert_eq!(destination, "host:~/.local/bin/somsrv");
        }
        other => panic!("{:?}", other),
    }
    assert_eq!(runs(&run.next(DeployReply::Done)), strings(&["host", "chmod", "+x", "~/.local/bin/somsrv"]));
    assert!(matches!(
        run.next(DeployReply::Output(String::new())),
        DeployAction::Remove { path } if path == "/tmp/s"
    ));
    assert!(matches!(run.next(DeployReply::Done), DeployAction::Finish { result: Ok(true) }));
}

#[test]
fn a_running_relay_is_not_overwritten() {
    let (mut run, _) = DeployRun::start(request(RemoteKind::Ssh));
    run.next(DeployReply::Time(2_000_000_000_000_000_000));
    run.next(DeployReply::Output("SOM_MTIME:1\n".to_string()));
    match run.next(DeployReply::Path("/tmp/s".to_string())) {
        DeployAction::Upload { destination, .. } => assert_eq!(destination, "host:~/.local/bin/somsrv.new"),
        other => panic!("{:?}", other),
    }
    assert_eq!(runs(&run.next(DeployReply::Done)), strings(&["host", "chmod", "+x", "~/.local/bin/somsrv.new"]));
    assert_eq!(
        runs(&run.next(DeployReply::Output(String::new()))),
        strings(&["host", "sh", "-lc", "'touch ~/.local/bin/somsrv.redeploy-pending'"])
    );
    assert!(matches!(run.next(DeployReply::Output(String::new())), DeployAction::Remove { .. }));
    assert!(matches!(run.next(DeployReply::Done), DeployAction::Finish { result: Ok(true) }));
}

#[test]
fn a_current_relay_is_left_alone() {
    let (mut run, _) = DeployRun::start(request(RemoteKind::Ssh));
    run.next(DeployReply::Time(1_000_000_000));
    assert!(matches!(
        run.next(DeployReply::Output("SOM_MTIME:1\n".to_string())),
        DeployAction::Finish { result: Ok(false) }
    ));
}

#[test]
fn a_failed_copy_removes_the_file_and_is_reported() {
    let (mut run, _) = DeployRun::start(request(RemoteKind::Ssh));
    run.next(DeployReply::Time(5));
    run.next(DeployReply::Failed("unreachable".to_string()));
    run.next(DeployReply::Path("/tmp/s".to_string()));
    run.next(DeployReply::Output(String::new()));
    assert!(matches!(
        run.next(DeployReply::Failed("lost".to_string())),
        DeployAction::Remove { path } if path == "/tmp/s"
    ));
    assert!(matches!(
        run.next(DeployReply::Done),
        DeployAction::Finish { result: Err(reason) } if reason == "failed to upload somsrv to [\"host\"]: lost"
    ));
}

#[test]
fn the_other_system_of_this_machine_builds_its_own() {
    let (mut run, action) = DeployRun::start(request(RemoteKind::Wsl));
    assert!(runs(&action)[3].starts_with("'cd ~/som && git pull"));
    assert!(matches!(run.next(DeployReply::Done), DeployAction::Finish { result: Ok(true) }));
    let (mut run, _) = DeployRun::start(request(RemoteKind::Wsl));
    assert!(matches!(
        run.next(DeployReply::Failed("x".to_string())),
        DeployAction::Finish { result: Err(reason) } if reason == "x"
    ));
}

#[test]
fn an_unknown_age_of_this_program_ends_the_setup() {
    let (mut run, _) = DeployRun::start(request(RemoteKind::Ssh));
    assert!(matches!(
        run.next(DeployReply::Failed("gone".to_string())),
        DeployAction::Finish { result: Err(reason) }
            if reason == "failed to read this running som.exe's own mtime: gone"
    ));
}

fn listed(pane_id: &str) -> SessionInfo {
    SessionInfo { profile_name: "srv".to_string(), pane_id: pane_id.to_string(), client_id: None }
}

#[test]
fn only_sessions_without_a_tab_are_ended() {
    let (mut run, action) =
        CleanupRun::kill_orphaned_holders(strings(&["host"]), RemoteKind::Ssh, strings(&["keep"]));
    assert!(matches!(action, CleanupAction::Run { args } if args == client_id_probe_args(&strings(&["host"]))));
    match run.next(CleanupReply::Output("SOM_CLIENT_ID:me@10.0.0.1 1\n".to_string())) {
        CleanupAction::List { args } => assert_eq!(
            args[3],
            shell_quote("~/.local/bin/somsrv --list-sessions 'me@10.0.0.1'")
        ),
        other => panic!("{:?}", other),
    }
    match run.next(CleanupReply::Sessions(vec![listed("a"), listed("keep"), listed("b")])) {
        CleanupAction::Run { args } => {
            assert_eq!(args[3], shell_quote("~/.local/bin/somsrv --kill-session 'me@10.0.0.1' 'a'"))
        }
        other => panic!("{:?}", other),
    }
    match run.next(CleanupReply::Failed) {
        CleanupAction::Run { args } => {
            assert_eq!(args[3], shell_quote("~/.local/bin/somsrv --kill-session 'me@10.0.0.1' 'b'"))
        }
        other => panic!("{:?}", other),
    }
    assert!(matches!(run.next(CleanupReply::Output(String::new())), CleanupAction::Finish));
}

#[test]
fn a_cleanup_without_a_client_ends_at_once() {
    let (_, action) = CleanupRun::kill_orphaned_holders(strings(&["host"]), RemoteKind::Local, Vec::new());
    assert!(matches!(action, CleanupAction::Finish));
    let (mut run, _) = CleanupRun::kill_orphaned_holders(strings(&["host"]), RemoteKind::Ssh, Vec::new());
    assert!(matches!(run.next(CleanupReply::Output("SOM_CLIENT_ID:me@\n".to_string())), CleanupAction::Finish));
    let (mut run, _) = CleanupRun::kill_orphaned_holders(strings(&["host"]), RemoteKind::Ssh, Vec::new());
    assert!(matches!(run.next(CleanupReply::Failed), CleanupAction::Finish));
}
