use som::new_tab::{ConnectAction, ConnectReply, ConnectRun, NewShell, NewTab, NewTerminal, TerminalPanel};
use som::new_tab::{checks_deployment, restored_profile};
use som::restore::{
    live_pane_ids, placeholder_tabs, placeholder_to_activate, split_order, start_order, tab_start, CreatedTab,
    RestoreAction, RestorePlan, RestoreReply, RestoreRun, TabStart,
};
use som::deploy::{NotificationScope, NotificationSeverity};
use som::shell::{RemoteKind, RemoteOs, TabProfile};
use som::som_db::{parse_tab_entry, SomDbState, SomDbTab};

const ID: &str = "67e55044-10b1-426f-9247-bb680e5fe0c8";

fn profile(name: &str, shell: Option<&str>, tmux: bool) -> TabProfile {
    TabProfile {
        name: name.to_string(),
        icon: None,
        shell: shell.map(|s| s.to_string()),
        home: None,
        tmux,
        srp: false,
        lua: false,
        os: RemoteOs::Lnx,
    }
}

fn tab(profile_index: usize, extra_splits: usize, ids: Option<Vec<&str>>) -> SomDbTab {
    SomDbTab {
        profile_index,
        extra_splits,
        tmux_sessions: ids.map(|ids| ids.iter().map(|id| id.to_string()).collect()),
    }
}

fn session() -> SomDbState {
    SomDbState {
        tabs: vec![
            tab(0, 0, None),
            tab(7, 0, Some(vec!["gone"])),
            tab(1, 2, Some(vec![ID, "b", "c"])),
            tab(1, 0, None),
        ],
        active_tab: 2,
        active_pane: 1,
        window_bounds: None,
    }
}

#[test]
fn every_pane_id_of_the_session_counts_as_live() {
    assert_eq!(live_pane_ids(&session()), vec!["gone", ID, "b", "c"]);
}

#[test]
fn a_tab_whose_profile_is_gone_is_left_out() {
    assert_eq!(placeholder_tabs(&session(), 2), vec![0, 2, 3]);
    assert_eq!(placeholder_tabs(&session(), 0), Vec::<usize>::new());
}

#[test]
fn only_an_existing_place_is_activated() {
    assert_eq!(placeholder_to_activate(2, 3), Some(2));
    assert_eq!(placeholder_to_activate(3, 3), None);
}

#[test]
fn the_active_tab_starts_first() {
    assert_eq!(start_order(vec![0, 2, 3], 2), vec![2, 0, 3]);
    assert_eq!(start_order(vec![0, 2, 3], 1), vec![0, 2, 3]);
}

#[test]
fn restoring_begins_with_the_active_tab_and_keeps_its_pane() {
    let profiles = vec![profile("dnk", Some("pwsh"), false), profile("srv", Some("ssh host"), true)];
    let start = TerminalPanel::restore_som_tabs(&session(), &profiles);
    assert_eq!(start.live_pane_ids, vec!["gone", ID, "b", "c"]);
    assert_eq!(start.placeholders, vec![0, 2, 3]);
    assert_eq!(start.starts.iter().map(|s| s.0).collect::<Vec<usize>>(), vec![2, 0, 3]);
    assert!(matches!(&start.starts[0].1, TabStart::Relay { pane_id } if pane_id == ID));
    assert!(matches!(&start.starts[1].1, TabStart::Plain { shell: Some(shell) } if shell == "pwsh"));
    match &start.starts[2].1 {
        TabStart::Relay { pane_id } => {
            assert_eq!(pane_id.len(), 36);
            let entry = format!("1.0:{}", pane_id);
            let read = parse_tab_entry(&entry).unwrap();
            assert_eq!(read.tmux_sessions, Some(vec![pane_id.clone()]));
        }
        other => panic!("{:?}", other),
    }
}

#[test]
fn a_tab_without_panes_gets_the_fresh_one() {
    let relay = profile("srv", Some("ssh host"), true);
    assert!(matches!(
        tab_start(&tab(0, 0, None), &relay, "new".to_string()),
        TabStart::Relay { pane_id } if pane_id == "new"
    ));
    assert!(matches!(
        tab_start(&tab(0, 0, Some(vec!["old"])), &relay, "new".to_string()),
        TabStart::Relay { pane_id } if pane_id == "old"
    ));
    assert!(matches!(
        tab_start(&tab(0, 0, None), &profile("p", None, false), "new".to_string()),
        TabStart::Plain { shell: None }
    ));
}

fn created(db_index: usize, extra_splits: usize, item: u64) -> CreatedTab {
    CreatedTab { db_index, extra_splits, item }
}

#[test]
fn the_active_tab_is_split_last() {
    let tabs = vec![created(3, 1, 30), created(1, 1, 10), created(0, 0, 1)];
    let order = split_order(&tabs, 1);
    assert_eq!(order, vec![created(0, 0, 1), created(3, 1, 30), created(1, 1, 10)]);
    let order = split_order(&tabs, 2);
    assert_eq!(order, vec![created(0, 0, 1), created(1, 1, 10), created(3, 1, 30)]);
}

fn plan(tabs: Vec<CreatedTab>) -> RestorePlan {
    RestorePlan { tabs, active_tab: 1, active_pane: 2 }
}

#[test]
fn tabs_are_split_once_they_are_shown() {
    let (mut run, action) = RestoreRun::start(plan(vec![created(0, 0, 5), created(1, 2, 9)]));
    assert_eq!(action, RestoreAction::Resync);
    assert_eq!(run.next(RestoreReply::Done), RestoreAction::LookUp { item: 9 });
    assert_eq!(run.next(RestoreReply::Index(Some(4))), RestoreAction::Activate { index: 4 });
    assert_eq!(run.next(RestoreReply::Done), RestoreAction::CheckActive { index: 4 });
    assert_eq!(run.next(RestoreReply::Flag(false)), RestoreAction::Pause);
    assert_eq!(run.next(RestoreReply::Done), RestoreAction::CheckActive { index: 4 });
    assert_eq!(run.next(RestoreReply::Flag(true)), RestoreAction::Split);
    assert_eq!(run.next(RestoreReply::Done), RestoreAction::Split);
    assert_eq!(run.next(RestoreReply::Done), RestoreAction::Park { tab: 1 });
    assert_eq!(run.next(RestoreReply::Index(Some(4))), RestoreAction::Activate { index: 1 });
    assert_eq!(run.next(RestoreReply::Done), RestoreAction::CheckActive { index: 1 });
    assert_eq!(run.next(RestoreReply::Flag(true)), RestoreAction::CheckForeground);
    assert_eq!(run.next(RestoreReply::Flag(true)), RestoreAction::Focus { pane: 2 });
    assert_eq!(run.next(RestoreReply::Done), RestoreAction::Finish);
    assert_eq!(run.next(RestoreReply::Done), RestoreAction::Finish);
}

#[test]
fn a_tab_that_never_shows_is_not_split() {
    let (mut run, _) = RestoreRun::start(plan(vec![created(0, 1, 5)]));
    run.next(RestoreReply::Done);
    run.next(RestoreReply::Index(Some(0)));
    let mut action = run.next(RestoreReply::Done);
    for _ in 0..50 {
        assert_eq!(action, RestoreAction::CheckActive { index: 0 });
        assert_eq!(run.next(RestoreReply::Flag(false)), RestoreAction::Pause);
        action = run.next(RestoreReply::Done);
    }
    assert_eq!(action, RestoreAction::Park { tab: 1 });
}

#[test]
fn restoring_ends_though_nothing_succeeds() {
    let (mut run, mut action) = RestoreRun::start(plan(vec![created(0, 1, 5), created(1, 3, 6)]));
    let mut steps: u32 = 0;
    while action != RestoreAction::Finish {
        assert_ne!(action, RestoreAction::Split);
        action = run.next(RestoreReply::Done);
        steps += 1;
    }
    assert_eq!(steps, 105);
}

fn request(tab_name: Option<&str>, shell: Option<&str>) -> NewTerminal {
    NewTerminal {
        tab_name: tab_name.map(|s| s.to_string()),
        shell: shell.map(|s| s.to_string()),
        local: false,
        missing_profile_index: None,
    }
}

#[test]
fn a_new_tab_is_of_the_default_profile() {
    let profiles = vec![profile("dnk", Some("pwsh"), false), profile("srv", Some("ssh host"), true)];
    match TerminalPanel::new_terminal(&request(None, None), &profiles, 0) {
        NewTab::Plain { profile, name, icon, shell } => {
            assert_eq!(profile, Some(0));
            assert_eq!(name, Some("dnk".to_string()));
            assert_eq!(icon, None);
            assert_eq!(shell, NewShell::Command("pwsh".to_string()));
        }
        other => panic!("{:?}", other),
    }
    assert!(matches!(
        TerminalPanel::new_terminal(&request(None, None), &profiles, 1),
        NewTab::Relay { profile: 1, .. }
    ));
    assert!(matches!(
        TerminalPanel::new_terminal(&request(None, None), &profiles, 2),
        NewTab::Plain { profile: None, name: None, shell: NewShell::Default, .. }
    ));
}

#[test]
fn the_profiles_own_shell_goes_through_the_relay_and_another_does_not() {
    let profiles = vec![profile("srv", Some("ssh host"), true)];
    assert!(matches!(
        TerminalPanel::new_terminal(&request(Some("srv"), Some("ssh host")), &profiles, 0),
        NewTab::Relay { profile: 0, .. }
    ));
    assert!(matches!(
        TerminalPanel::new_terminal(&request(Some("srv"), Some("bash")), &profiles, 0),
        NewTab::Plain { profile: Some(0), shell: NewShell::Command(command), .. } if command == "bash"
    ));
    assert!(matches!(
        TerminalPanel::new_terminal(&request(Some("other"), None), &profiles, 0),
        NewTab::Plain { profile: None, name: Some(name), .. } if name == "other"
    ));
}

#[test]
fn a_terminal_of_this_machine_can_be_asked_for() {
    let profiles = vec![profile("dnk", Some("pwsh"), false)];
    let mut action = request(None, None);
    action.local = true;
    assert!(matches!(
        TerminalPanel::new_terminal(&action, &profiles, 0),
        NewTab::Plain { shell: NewShell::Local, .. }
    ));
}

#[test]
fn a_missing_profile_is_reported() {
    let mut action = request(None, None);
    action.missing_profile_index = Some(5);
    match TerminalPanel::new_terminal(&action, &vec![profile("dnk", None, false)], 0) {
        NewTab::MissingProfile(toast) => {
            assert_eq!(toast.scope, NotificationScope::Global);
            assert_eq!(toast.id, "som-missing-profile-5");
            assert_eq!(toast.severity, NotificationSeverity::Warning);
            assert_eq!(
                toast.message,
                "Som: no profile #5 in settings.json's \"tabs\" — only 1 profile(s) configured."
            );
        }
        other => panic!("{:?}", other),
    }
}

#[test]
fn only_other_machines_are_looked_after() {
    assert!(checks_deployment(RemoteKind::Ssh));
    assert!(checks_deployment(RemoteKind::Wsl));
    assert!(!checks_deployment(RemoteKind::Local));
}

#[test]
fn a_relay_that_stays_up_is_shown_and_its_pane_remembered() {
    let (mut run, action) = ConnectRun::open_srp_or_plain_ssh("id".to_string(), None, None);
    assert_eq!(action, ConnectAction::StartRelay);
    assert_eq!(run.next(ConnectReply::Succeeded), ConnectAction::WatchForEarlyExit);
    assert_eq!(run.next(ConnectReply::TimedOut), ConnectAction::ShowRelay);
    assert_eq!(run.next(ConnectReply::Succeeded), ConnectAction::Finish(Ok(Some("id".to_string()))));
}

#[test]
fn a_relay_that_ends_early_gives_way_to_the_plain_shell() {
    let (mut run, _) = ConnectRun::open_srp_or_plain_ssh("id".to_string(), None, None);
    run.next(ConnectReply::Succeeded);
    assert_eq!(run.next(ConnectReply::EndedEarly), ConnectAction::StartPlain);
    assert_eq!(run.next(ConnectReply::Succeeded), ConnectAction::ShowPlain);
    assert_eq!(run.next(ConnectReply::Succeeded), ConnectAction::Finish(Ok(None)));
}

#[test]
fn a_connection_without_a_command_line_fails() {
    let (_, action) = ConnectRun::open_srp_or_plain_ssh("id".to_string(), Some("none".to_string()), None);
    assert_eq!(action, ConnectAction::Finish(Err("none".to_string())));
    let (mut run, _) = ConnectRun::open_srp_or_plain_ssh("id".to_string(), None, Some("local".to_string()));
    run.next(ConnectReply::Succeeded);
    assert_eq!(run.next(ConnectReply::EndedEarly), ConnectAction::Finish(Err("local".to_string())));
    let (mut run, _) = ConnectRun::open_srp_or_plain_ssh("id".to_string(), None, None);
    assert_eq!(
        run.next(ConnectReply::Failed("spawn".to_string())),
        ConnectAction::Finish(Err("spawn".to_string()))
    );
}

#[test]
fn a_restored_tab_is_named_after_its_profile() {
    let mut second = profile("b", Some("zsh"), false);
    second.icon = Some("i".to_string());
    let profiles = vec![profile("a", Some("bash"), false), second, profile("b", Some("fish"), false)];
    let found = |title: &str| restored_profile(&Some(title.to_string()), &profiles);
    assert_eq!(found("b"), (Some("zsh".to_string()), Some("i".to_string())));
    assert_eq!(found("a"), (Some("bash".to_string()), None));
    assert_eq!(found("c"), (None, None));
    assert_eq!(restored_profile(&None, &profiles), (None, None));
}
