use som::deploy::{orphaned_pane_ids, SessionInfo};
use som::shell::{
    classify_remote, rebuild_tmux_shell_with_fresh_pane_id, wrap_command_args, wrap_remote_command_args,
    wrap_remote_probe_args, CursorShape, RemoteKind, Shell,
};

#[test]
fn wraps_a_simple_program_with_no_args() {
    let args =
        wrap_command_args("dnk", "pane-uuid-1", "pwsh.exe".to_string(), vec![], CursorShape::Block, None, None);
    assert_eq!(args, vec!["dnk", "pane-uuid-1", "pwsh.exe", "--cursor-shape", "block"]);
}

#[test]
fn wraps_a_program_with_its_own_args_preserving_order() {
    let args = wrap_command_args(
        "wsl",
        "pane-uuid-2",
        "wsl".to_string(),
        vec!["--cd".to_string(), "~".to_string()],
        CursorShape::Block,
        None,
        None,
    );
    assert_eq!(args, vec!["wsl", "pane-uuid-2", "wsl", "--cd", "~", "--cursor-shape", "block"]);
}

#[test]
fn preserves_a_program_path_containing_spaces_as_a_single_argument() {
    let args = wrap_command_args(
        "dnk",
        "pane-uuid-3",
        "C:\\Program Files\\PowerShell\\7\\pwsh.exe".to_string(),
        vec![],
        CursorShape::Block,
        None,
        None,
    );
    assert_eq!(
        args,
        vec!["dnk", "pane-uuid-3", "C:\\Program Files\\PowerShell\\7\\pwsh.exe", "--cursor-shape", "block"]
    );
}

#[test]
fn appends_cursor_shape_and_scrollback_flags_when_set() {
    let args = wrap_command_args(
        "dnk",
        "pane-uuid-6",
        "pwsh.exe".to_string(),
        vec![],
        CursorShape::Underline,
        Some(10000),
        None,
    );
    assert_eq!(
        args,
        vec!["dnk", "pane-uuid-6", "pwsh.exe", "--cursor-shape", "underline", "--scrollback", "10000"]
    );
}

#[test]
fn appends_cell_pixel_size_flag_when_set() {
    let args = wrap_command_args(
        "dnk",
        "pane-uuid-7",
        "pwsh.exe".to_string(),
        vec![],
        CursorShape::Block,
        None,
        Some((9, 18)),
    );
    assert_eq!(args, vec!["dnk", "pane-uuid-7", "pwsh.exe", "--cursor-shape", "block", "--cell-pixel-size", "9;18"]);
}

#[test]
fn classifies_ssh_and_wsl_programs_as_remote_but_everything_else_as_local() {
    assert!(matches!(classify_remote("ssh"), RemoteKind::Ssh));
    assert!(matches!(classify_remote("wsl"), RemoteKind::Wsl));
    assert!(matches!(classify_remote("wsl.exe"), RemoteKind::Wsl));
    assert!(matches!(classify_remote("pwsh.exe"), RemoteKind::Local));
    assert!(matches!(classify_remote("bash"), RemoteKind::Local));
}

#[test]
fn wraps_an_ssh_profile_by_appending_the_remote_holder_invocation() {
    let args = wrap_remote_command_args(
        "pi5",
        "pane-uuid-4",
        vec!["192.168.50.5".to_string()],
        CursorShape::Block,
        None,
        RemoteKind::Ssh,
    );
    assert_eq!(
        args,
        vec![
            "-tt", "192.168.50.5", "~/.local/bin/somsrv", "pi5", "pane-uuid-4", "$SHELL", "--cursor-shape", "block",
            "--", "-l"
        ]
    );
}

#[test]
fn wraps_a_wsl_profile_by_appending_the_remote_holder_invocation() {
    let args = wrap_remote_command_args(
        "wsl",
        "pane-uuid-5",
        vec!["--cd".to_string(), "~".to_string()],
        CursorShape::Bar,
        Some(5000),
        RemoteKind::Wsl,
    );
    assert_eq!(
        args,
        vec![
            "--cd", "~", "~/.local/bin/somsrv", "wsl", "pane-uuid-5", "$SHELL", "--cursor-shape", "bar",
            "--scrollback", "5000", "--", "-l"
        ]
    );
}

#[test]
fn builds_a_version_probe_using_the_same_host_args_as_the_real_invocation() {
    let args = wrap_remote_probe_args(&["192.168.50.5".to_string()], "~/.local/bin/somsrv", &["--version"]);
    assert_eq!(args, vec!["192.168.50.5", "~/.local/bin/somsrv", "--version"]);
}

fn session(profile_name: &str, pane_id: &str, client_id: &str) -> SessionInfo {
    SessionInfo {
        profile_name: profile_name.to_string(),
        pane_id: pane_id.to_string(),
        client_id: Some(client_id.to_string()),
    }
}

#[test]
fn orphan_scan_flags_a_session_whose_pane_id_is_not_in_db_json() {
    let sessions = vec![session("deb", "dead-pane", "dnk@192.168.50.2")];
    let live = ["live-pane".to_string()];
    let orphaned = orphaned_pane_ids(&sessions, &live);
    assert_eq!(orphaned, vec!["dead-pane"]);
}

#[test]
fn orphan_scan_leaves_a_session_whose_pane_id_is_in_db_json_alone() {
    let sessions = vec![session("deb", "live-pane", "dnk@192.168.50.2")];
    let live = ["live-pane".to_string()];
    let orphaned = orphaned_pane_ids(&sessions, &live);
    assert!(orphaned.is_empty());
}

#[test]
fn orphan_scan_handles_multiple_sessions() {
    let sessions = vec![
        session("deb", "orphan-a", "dnk@192.168.50.2"),
        session("deb", "live-pane", "dnk@192.168.50.2"),
        session("deb", "orphan-b", "dnk@192.168.50.2"),
    ];
    let live = ["live-pane".to_string()];
    let orphaned = orphaned_pane_ids(&sessions, &live);
    assert_eq!(orphaned, vec!["orphan-a", "orphan-b"]);
}

#[test]
fn orphan_scan_with_no_sessions_returns_empty() {
    let orphaned = orphaned_pane_ids(&[], &[]);
    assert!(orphaned.is_empty());
}

#[test]
fn rebuild_gives_a_local_tmux_shell_a_fresh_pane_id_and_nothing_else_changes() {
    let args = wrap_command_args(
        "dnk",
        "original-pane-id",
        "pwsh.exe".to_string(),
        vec![],
        CursorShape::Underline,
        Some(10000),
        None,
    );
    let shell = Shell::WithArguments { program: "C:\\som\\somsrv.exe".to_string(), args, title_override: None };
    let (rebuilt, fresh_pane_id) =
        rebuild_tmux_shell_with_fresh_pane_id(&shell).expect("should detect a local tmux-wrapped shell");
    let Shell::WithArguments { program, args, .. } = &rebuilt else { panic!("expected WithArguments") };
    assert_eq!(program, "C:\\som\\somsrv.exe");
    assert_eq!(args[0], "dnk");
    assert_ne!(args[1], "original-pane-id");
    assert_eq!(args[1], fresh_pane_id);
    assert_eq!(&args[2..], &["pwsh.exe", "--cursor-shape", "underline", "--scrollback", "10000"]);
}

#[test]
fn rebuild_gives_a_remote_tmux_shell_a_fresh_pane_id_and_nothing_else_changes() {
    let args = wrap_remote_command_args(
        "pi5",
        "original-pane-id",
        vec!["192.168.50.5".to_string()],
        CursorShape::Block,
        None,
        RemoteKind::Ssh,
    );
    let shell = Shell::WithArguments { program: "ssh".to_string(), args, title_override: None };
    let (rebuilt, fresh_pane_id) =
        rebuild_tmux_shell_with_fresh_pane_id(&shell).expect("should detect a remote tmux-wrapped shell");
    let Shell::WithArguments { program, args, .. } = &rebuilt else { panic!("expected WithArguments") };
    assert_eq!(program, "ssh");
    assert_eq!(args[0], "-tt");
    assert_eq!(args[1], "192.168.50.5");
    assert_eq!(args[2], "~/.local/bin/somsrv");
    assert_eq!(args[3], "pi5");
    assert_ne!(args[4], "original-pane-id");
    assert_eq!(args[4], fresh_pane_id);
    assert_eq!(&args[5..], &["$SHELL", "--cursor-shape", "block", "--", "-l"]);
}

#[test]
fn rebuild_leaves_a_non_tmux_shell_untouched() {
    let shell = Shell::WithArguments { program: "pwsh.exe".to_string(), args: vec![], title_override: None };
    assert!(rebuild_tmux_shell_with_fresh_pane_id(&shell).is_none());
    assert!(rebuild_tmux_shell_with_fresh_pane_id(&Shell::System).is_none());
    assert!(rebuild_tmux_shell_with_fresh_pane_id(&Shell::Program("bash".to_string())).is_none());
}
