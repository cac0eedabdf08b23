//! What happens when a new tab is asked for.

use vstd::prelude::*;
use crate::decimal::{integer_text, unsigned_text};
use crate::deploy::{NotificationScope, NotificationSeverity, Toast};
use crate::shell::{wants_srp, RemoteKind, TabProfile};
use crate::text::{clone_opt, opt_text, same_text};

verus! {

/// The tabs of the main window.
#[derive(Debug, Clone, Copy, PartialEq, Eq, Structural)]
pub struct TerminalPanel;

/// A request for a new tab.
#[derive(Debug, PartialEq, Eq)]
pub struct NewTerminal {
    /// The profile to open, else the default one.
    pub tab_name: Option<String>,
    /// The shell to run, which may be the profile's own.
    pub shell: Option<String>,
    /// Open a terminal on this machine whatever the project.
    pub local: bool,
    /// The number of a profile that was asked for and does not exist.
    pub missing_profile_index: Option<usize>,
}

/// The terminal to create.
#[derive(Debug, PartialEq, Eq)]
pub enum NewShell {
    Local,
    Command(String),
    Default,
}

/// What is done about a request.
#[derive(Debug)]
pub enum NewTab {
    /// No tab is opened; the user is told why.
    MissingProfile(Toast),
    /// The tab appears at once, and the profile's shell is connected through the relay.
    Relay { profile: usize, name: String, icon: Option<String> },
    /// A terminal is created directly.
    Plain { profile: Option<usize>, name: Option<String>, icon: Option<String>, shell: NewShell },
}

#[verifier::ext_equal]
pub enum NewShellModel {
    Local,
    Command(Seq<char>),
    Default,
}

#[verifier::ext_equal]
pub enum NewTabModel {
    MissingProfile {
        scope: NotificationScope,
        id: Seq<char>,
        severity: NotificationSeverity,
        message: Seq<char>,
    },
    Relay { profile: int, name: Seq<char>, icon: Option<Seq<char>> },
    Plain {
        profile: Option<int>,
        name: Option<Seq<char>>,
        icon: Option<Seq<char>>,
        shell: NewShellModel,
    },
}

impl View for NewShell {
    type V = NewShellModel;

    open spec fn view(&self) -> NewShellModel {
        match self {
            NewShell::Local => NewShellModel::Local,
            NewShell::Command(command) => NewShellModel::Command(command@),
            NewShell::Default => NewShellModel::Default,
        }
    }
}

impl View for NewTab {
    type V = NewTabModel;

    open spec fn view(&self) -> NewTabModel {
        match self {
            NewTab::MissingProfile(toast) => NewTabModel::MissingProfile {
                scope: toast.scope,
                id: toast.id@,
                severity: toast.severity,
                message: toast.message@,
            },
            NewTab::Relay { profile, name, icon } => NewTabModel::Relay {
                profile: *profile as int,
                name: name@,
                icon: opt_text(*icon),
            },
            NewTab::Plain { profile, name, icon, shell } => NewTabModel::Plain {
                profile: match *profile {
                    Some(n) => Some(n as int),
                    None => None,
                },
                name: opt_text(*name),
                icon: opt_text(*icon),
                shell: shell@,
            },
        }
    }
}

/// The place of the first profile of a name, or the number of profiles.
pub open spec fn profile_place(profiles: Seq<TabProfile>, name: Seq<char>) -> int
    decreases profiles.len(),
{
    if profiles.len() == 0 {
        0
    } else if profiles[0].name@ == name {
        0
    } else {
        1 + profile_place(profiles.skip(1), name)
    }
}

/// The name of the tab: the one asked for, else that of the default profile.
pub open spec fn tab_name_of(
    asked: Option<Seq<char>>,
    profiles: Seq<TabProfile>,
    default_index: int,
) -> Option<Seq<char>> {
    match asked {
        Some(name) => Some(name),
        None => if 0 <= default_index < profiles.len() {
            Some(profiles[default_index].name@)
        } else {
            None
        },
    }
}

pub open spec fn missing_id(index: int) -> Seq<char> {
    "som-missing-profile-"@ + integer_text(index)
}

pub open spec fn missing_text(index: int, tab_count: int) -> Seq<char> {
    "Som: no profile #"@ + integer_text(index) + " in settings.json's \"tabs\" — only "@ + integer_text(
        tab_count,
    ) + " profile(s) configured."@
}

/// The profile that a request is for, if there is one of the tab's name.
pub open spec fn profile_for(
    action: NewTerminal,
    profiles: Seq<TabProfile>,
    default_index: int,
) -> Option<int> {
    match tab_name_of(opt_text(action.tab_name), profiles, default_index) {
        Some(name) => if profile_place(profiles, name) < profiles.len() {
            Some(profile_place(profiles, name))
        } else {
            None
        },
        None => None,
    }
}

/// A shell that is not the profile's own was asked for.
pub open spec fn other_shell(action: NewTerminal, profile: Option<TabProfile>) -> bool {
    action.shell is Some && match profile {
        Some(profile) => opt_text(profile.shell) != opt_text(action.shell),
        None => true,
    }
}

/// What is done about a request for a new tab.
pub open spec fn new_tab(action: NewTerminal, profiles: Seq<TabProfile>, default_index: int) -> NewTabModel {
    let name = tab_name_of(opt_text(action.tab_name), profiles, default_index);
    let place = profile_for(action, profiles, default_index);
    let profile = match place {
        Some(n) => Some(profiles[n]),
        None => None,
    };
    let icon = match profile {
        Some(profile) => opt_text(profile.icon),
        None => None,
    };
    match (action.missing_profile_index, profile) {
        (Some(index), _) => NewTabModel::MissingProfile {
            scope: NotificationScope::Global,
            id: missing_id(index as int),
            severity: NotificationSeverity::Warning,
            message: missing_text(index as int, profiles.len() as int),
        },
        (None, Some(profile)) if !other_shell(action, Some(profile)) && (profile.tmux || profile.srp
            || profile.lua) => NewTabModel::Relay { profile: place->0, name: name->0, icon },
        _ => NewTabModel::Plain {
            profile: place,
            name,
            icon,
            shell: if action.local {
                NewShellModel::Local
            } else {
                match (opt_text(action.shell), profile) {
                    (Some(command), _) => NewShellModel::Command(command),
                    (None, Some(profile)) => match opt_text(profile.shell) {
                        Some(command) => NewShellModel::Command(command),
                        None => NewShellModel::Default,
                    },
                    (None, None) => NewShellModel::Default,
                }
            },
        },
    }
}

pub proof fn lemma_profile_place(profiles: Seq<TabProfile>, name: Seq<char>, place: int)
    requires
        0 <= place <= profiles.len(),
        place < profiles.len() ==> profiles[place].name@ == name,
        forall|i: int| 0 <= i < place ==> (#[trigger] profiles[i]).name@ != name,
    ensures
        profile_place(profiles, name) == place,
    decreases profiles.len(),
{
    if place > 0 {
        let rest = profiles.skip(1);
        assert(profiles[0].name@ != name);
        assert forall|i: int| 0 <= i < place - 1 implies (#[trigger] rest[i]).name@ != name by {
            assert(rest[i] == profiles[i + 1]);
        }
        lemma_profile_place(rest, name, place - 1);
    }
}

fn index_by_name(profiles: &Vec<TabProfile>, name: &str) -> (r: Option<usize>)
    ensures
        match r {
            Some(i) => i == profile_place(profiles@, name@) && i < profiles@.len(),
            None => profile_place(profiles@, name@) == profiles@.len(),
        },
{
    let mut i: usize = 0;
    while i < profiles.len() && !same_text(profiles[i].name.as_str(), name)
        invariant
            i <= profiles@.len(),
            forall|j: int| 0 <= j < i ==> (#[trigger] profiles@[j]).name@ != name@,
        decreases profiles@.len() - i,
    {
        i += 1;
    }
    proof {
        lemma_profile_place(profiles@, name@, i as int);
    }
    if i < profiles.len() {
        Some(i)
    } else {
        None
    }
}

/// The shell and the icon of the profile that a restored tab's title names.
pub fn restored_profile(title: &Option<String>, profiles: &Vec<TabProfile>) -> (r: (Option<String>, Option<String>))
    ensures
        ({
            let place = match *title {
                Some(title) => profile_place(profiles@, title@),
                None => profiles@.len() as int,
            };
            if place < profiles@.len() {
                opt_text(r.0) == opt_text(profiles@[place].shell) && opt_text(r.1) == opt_text(
                    profiles@[place].icon,
                )
            } else {
                r.0 is None && r.1 is None
            }
        }),
{
    match title {
        Some(title) => match index_by_name(profiles, title.as_str()) {
            Some(n) => (clone_opt(&profiles[n].shell), clone_opt(&profiles[n].icon)),
            None => (None, None),
        },
        None => (None, None),
    }
}

impl TerminalPanel {
    /// The notification that a profile does not exist. There is no tab to show it with.
    pub fn show_missing_profile_error(index: usize, tab_count: usize) -> (r: Toast)
        ensures
            r.scope == NotificationScope::Global,
            r.id@ == missing_id(index as int),
            r.severity == NotificationSeverity::Warning,
            r.message@ == missing_text(index as int, tab_count as int),
    {
        let number = unsigned_text(index as u64);
        let count = unsigned_text(tab_count as u64);
        let id = "som-missing-profile-".to_owned().concat(number.as_str());
        let message = "Som: no profile #".to_owned().concat(number.as_str()).concat(
            " in settings.json's \"tabs\" — only ",
        ).concat(count.as_str()).concat(" profile(s) configured.");
        Toast { scope: NotificationScope::Global, id, severity: NotificationSeverity::Warning, message }
    }

    /// Decides what a request for a new tab opens.
    pub fn new_terminal(action: &NewTerminal, profiles: &Vec<TabProfile>, default_index: usize) -> (r: NewTab)
        ensures
            r@ == new_tab(*action, profiles@, default_index as int),
    {
        if let Some(index) = action.missing_profile_index {
            return NewTab::MissingProfile(Self::show_missing_profile_error(index, profiles.len()));
        }
        let name = match &action.tab_name {
            Some(name) => Some(name.clone()),
            None => if default_index < profiles.len() {
                Some(profiles[default_index].name.clone())
            } else {
                None
            },
        };
        let place = match &name {
            Some(name) => index_by_name(profiles, name.as_str()),
            None => None,
        };
        let (icon, own_shell, relay) = match place {
            Some(n) => (
                clone_opt(&profiles[n].icon),
                clone_opt(&profiles[n].shell),
                wants_srp(&profiles[n]),
            ),
            None => (None, None, false),
        };
        let other = match (&action.shell, &own_shell) {
            (Some(asked), Some(own)) => !same_text(asked.as_str(), own.as_str()),
            (Some(_), None) => true,
            (None, _) => false,
        };
        if !other && relay {
            if let (Some(profile), Some(name)) = (place, clone_opt(&name)) {
                return NewTab::Relay { profile, name, icon };
            }
        }
        let shell = if action.local {
            NewShell::Local
        } else {
            match &action.shell {
                Some(command) => NewShell::Command(command.clone()),
                None => match own_shell {
                    Some(command) => NewShell::Command(command),
                    None => NewShell::Default,
                },
            }
        };
        NewTab::Plain { profile: place, name, icon, shell }
    }
}

/// A profile's own key opens the tab through the relay just as its menu entry does: giving the
/// profile's own shell makes no difference.
pub proof fn lemma_own_shell(action: NewTerminal, bare: NewTerminal, profiles: Seq<TabProfile>, default_index: int)
    requires
        opt_text(action.tab_name) == opt_text(bare.tab_name),
        action.local == bare.local,
        action.missing_profile_index == bare.missing_profile_index,
        bare.shell is None,
        profile_for(action, profiles, default_index) is Some,
        opt_text(action.shell) == opt_text(profiles[profile_for(action, profiles, default_index)->0].shell),
    ensures
        new_tab(action, profiles, default_index) == new_tab(bare, profiles, default_index),
{
}

/// Whether the relay on the other side is looked after once a tab is open.
pub fn checks_deployment(kind: RemoteKind) -> (r: bool)
    ensures
        r == (kind != RemoteKind::Local),
{
    match kind {
        RemoteKind::Ssh | RemoteKind::Wsl => true,
        RemoteKind::Local => false,
    }
}

/// How far the connection of a tab has come.
#[derive(Debug, Clone, Copy, PartialEq, Eq, Structural)]
pub enum ConnectStep {
    StartingRelay,
    Watching,
    ShowingRelay,
    StartingPlain,
    ShowingPlain,
    Done,
}

/// What is to be done next.
#[derive(Debug, PartialEq, Eq)]
pub enum ConnectAction {
    /// Start the relay's command line in a terminal that is not shown yet.
    StartRelay,
    /// Wait up to five seconds for the terminal to fail or close.
    WatchForEarlyExit,
    /// Put the relay's terminal in the place of the waiting tab.
    ShowRelay,
    /// Start the profile's plain command line.
    StartPlain,
    /// Put the plain terminal in the place of the waiting tab.
    ShowPlain,
    /// The tab is open, with the pane id to remember where it is on the relay; or it is not.
    Finish(Result<Option<String>, String>),
}

/// What came of it.
#[derive(Debug, PartialEq, Eq)]
pub enum ConnectReply {
    Succeeded,
    Failed(String),
    /// The terminal failed or closed while it was watched.
    EndedEarly,
    /// Nothing more can come of the terminal that is watched.
    NothingToWatch,
    /// The five seconds are over.
    TimedOut,
}

#[verifier::ext_equal]
pub enum ConnectActionModel {
    StartRelay,
    WatchForEarlyExit,
    ShowRelay,
    StartPlain,
    ShowPlain,
    Finish(Result<Option<Seq<char>>, Seq<char>>),
}

impl View for ConnectAction {
    type V = ConnectActionModel;

    open spec fn view(&self) -> ConnectActionModel {
        match self {
            ConnectAction::StartRelay => ConnectActionModel::StartRelay,
            ConnectAction::WatchForEarlyExit => ConnectActionModel::WatchForEarlyExit,
            ConnectAction::ShowRelay => ConnectActionModel::ShowRelay,
            ConnectAction::StartPlain => ConnectActionModel::StartPlain,
            ConnectAction::ShowPlain => ConnectActionModel::ShowPlain,
            ConnectAction::Finish(result) => ConnectActionModel::Finish(
                match result {
                    Ok(id) => Ok(opt_text(*id)),
                    Err(reason) => Err(reason@),
                },
            ),
        }
    }
}

/// The connection of one tab: the pane id it asks the relay for, and why there is no plain command
/// line where there is none.
#[derive(Debug)]
pub struct ConnectRun {
    pub pane_id: String,
    pub no_plain: Option<String>,
    pub step: ConnectStep,
}

pub open spec fn failure_of(reply: ConnectReply) -> Option<Seq<char>> {
    match reply {
        ConnectReply::Failed(reason) => Some(reason@),
        _ => None,
    }
}

/// The step and action that follow a reply.
pub open spec fn connect_next(
    pane_id: Seq<char>,
    no_plain: Option<Seq<char>>,
    step: ConnectStep,
    reply: ConnectReply,
) -> (ConnectStep, ConnectActionModel) {
    match (step, failure_of(reply)) {
        (ConnectStep::Done, _) => (ConnectStep::Done, ConnectActionModel::Finish(Ok(None))),
        (_, Some(reason)) => (ConnectStep::Done, ConnectActionModel::Finish(Err(reason))),
        (ConnectStep::StartingRelay, None) => (ConnectStep::Watching, ConnectActionModel::WatchForEarlyExit),
        (ConnectStep::Watching, None) => if reply is EndedEarly {
            match no_plain {
                Some(reason) => (ConnectStep::Done, ConnectActionModel::Finish(Err(reason))),
                None => (ConnectStep::StartingPlain, ConnectActionModel::StartPlain),
            }
        } else {
            (ConnectStep::ShowingRelay, ConnectActionModel::ShowRelay)
        },
        (ConnectStep::ShowingRelay, None) => (ConnectStep::Done, ConnectActionModel::Finish(Ok(Some(pane_id)))),
        (ConnectStep::StartingPlain, None) => (ConnectStep::ShowingPlain, ConnectActionModel::ShowPlain),
        (ConnectStep::ShowingPlain, None) => (ConnectStep::Done, ConnectActionModel::Finish(Ok(None))),
    }
}

impl ConnectRun {
    /// Starts to connect a tab. Without a command line for the relay there is no tab.
    pub fn open_srp_or_plain_ssh(pane_id: String, no_relay: Option<String>, no_plain: Option<String>) -> (r: (
        ConnectRun,
        ConnectAction,
    ))
        ensures
            r.0.pane_id == pane_id,
            r.0.no_plain == no_plain,
            match no_relay {
                Some(reason) => r.0.step == ConnectStep::Done && r.1@ == ConnectActionModel::Finish(Err(reason@)),
                None => r.0.step == ConnectStep::StartingRelay && r.1@ == ConnectActionModel::StartRelay,
            },
    {
        match no_relay {
            Some(reason) => (
                ConnectRun { pane_id, no_plain, step: ConnectStep::Done },
                ConnectAction::Finish(Err(reason)),
            ),
            None => (
                ConnectRun { pane_id, no_plain, step: ConnectStep::StartingRelay },
                ConnectAction::StartRelay,
            ),
        }
    }

    /// The action that follows a reply.
    pub fn next(&mut self, reply: ConnectReply) -> (r: ConnectAction)
        ensures
            final(self).pane_id == old(self).pane_id,
            final(self).no_plain == old(self).no_plain,
            (final(self).step, r@) == connect_next(
                old(self).pane_id@,
                opt_text(old(self).no_plain),
                old(self).step,
                reply,
            ),
    {
        let step = self.step;
        if let ConnectStep::Done = step {
            return ConnectAction::Finish(Ok(None));
        }
        let ended = match reply {
            ConnectReply::Failed(reason) => {
                self.step = ConnectStep::Done;
                return ConnectAction::Finish(Err(reason));
            },
            ConnectReply::EndedEarly => true,
            ConnectReply::Succeeded | ConnectReply::NothingToWatch | ConnectReply::TimedOut => false,
        };
        match step {
            ConnectStep::StartingRelay => {
                self.step = ConnectStep::Watching;
                ConnectAction::WatchForEarlyExit
            },
            ConnectStep::Watching => if ended {
                match clone_opt(&self.no_plain) {
                    Some(reason) => {
                        self.step = ConnectStep::Done;
                        ConnectAction::Finish(Err(reason))
                    },
                    None => {
                        self.step = ConnectStep::StartingPlain;
                        ConnectAction::StartPlain
                    },
                }
            } else {
                self.step = ConnectStep::ShowingRelay;
                ConnectAction::ShowRelay
            },
            ConnectStep::ShowingRelay => {
                self.step = ConnectStep::Done;
                ConnectAction::Finish(Ok(Some(self.pane_id.clone())))
            },
            ConnectStep::StartingPlain => {
                self.step = ConnectStep::ShowingPlain;
                ConnectAction::ShowPlain
            },
            ConnectStep::ShowingPlain | ConnectStep::Done => {
                self.step = ConnectStep::Done;
                ConnectAction::Finish(Ok(None))
            },
        }
    }
}

/// How many replies a connection can still take.
pub open spec fn connect_steps_left(step: ConnectStep) -> nat {
    match step {
        ConnectStep::StartingRelay => 4,
        ConnectStep::Watching => 3,
        ConnectStep::StartingPlain => 2,
        ConnectStep::ShowingPlain => 1,
        ConnectStep::ShowingRelay => 1,
        ConnectStep::Done => 0,
    }
}

/// Every reply brings a connection nearer to its end.
pub proof fn lemma_connect_ends(pane_id: Seq<char>, no_plain: Option<Seq<char>>, step: ConnectStep, reply: ConnectReply)
    requires
        step != ConnectStep::Done,
    ensures
        connect_steps_left(connect_next(pane_id, no_plain, step, reply).0) < connect_steps_left(step),
{
}

/// A pane id is remembered only of a relay that was still up when its time was over and that has
/// been shown; the plain command line is tried only of one that had ended early.
pub proof fn lemma_relay_first(pane_id: Seq<char>, no_plain: Option<Seq<char>>, step: ConnectStep, reply: ConnectReply)
    ensures
        connect_next(pane_id, no_plain, step, reply).1 matches ConnectActionModel::Finish(Ok(Some(id))) ==> id
            == pane_id && step == ConnectStep::ShowingRelay,
        connect_next(pane_id, no_plain, step, reply).0 == ConnectStep::ShowingRelay ==> step == ConnectStep::Watching
            && !(reply is EndedEarly),
        connect_next(pane_id, no_plain, step, reply).1 == ConnectActionModel::StartPlain ==> step
            == ConnectStep::Watching && reply is EndedEarly,
{
}

/// A new tab of the profile at `place`, the first of its name: it is opened through the relay where the
/// profile needs the relay for something and no other shell than its own was asked for. Otherwise it
/// runs the shell that was asked for, else the profile's own, else the default one, or a terminal of
/// this machine where that was asked for. Its name and icon are the profile's.
pub proof fn lemma_profile_opened(action: NewTerminal, profiles: Seq<TabProfile>, default_index: int, place: int)
    requires
        action.missing_profile_index is None,
        0 <= place < profiles.len(),
        match action.tab_name {
            Some(name) => name@ == profiles[place].name@,
            None => 0 <= default_index < profiles.len() && profiles[default_index].name@ == profiles[place].name@,
        },
        forall|i: int| 0 <= i < place ==> (#[trigger] profiles[i]).name@ != profiles[place].name@,
    ensures
        ({
            let profile = profiles[place];
            let icon = match profile.icon {
                Some(icon) => Some(icon@),
                None => None,
            };
            let own = match (action.shell, profile.shell) {
                (Some(asked), Some(own)) => asked@ == own@,
                (Some(_), None) => false,
                (None, _) => true,
            };
            let opened = new_tab(action, profiles, default_index);
            &&& own && (profile.tmux || profile.srp || profile.lua) ==> opened == (NewTabModel::Relay {
                profile: place,
                name: profile.name@,
                icon,
            })
            &&& !(own && (profile.tmux || profile.srp || profile.lua)) ==> opened == (NewTabModel::Plain {
                profile: Some(place),
                name: Some(profile.name@),
                icon,
                shell: match (action.local, action.shell, profile.shell) {
                    (true, _, _) => NewShellModel::Local,
                    (false, Some(asked), _) => NewShellModel::Command(asked@),
                    (false, None, Some(own)) => NewShellModel::Command(own@),
                    (false, None, None) => NewShellModel::Default,
                },
            })
        }),
{
    lemma_profile_place(profiles, profiles[place].name@, place);
}

/// A tab of a name that no profile has is opened without one, and never through the relay.
pub proof fn lemma_unknown_profile_opened(action: NewTerminal, profiles: Seq<TabProfile>, default_index: int)
    requires
        action.missing_profile_index is None,
        match action.tab_name {
            Some(name) => forall|i: int| 0 <= i < profiles.len() ==> (#[trigger] profiles[i]).name@ != name@,
            None => !(0 <= default_index < profiles.len()),
        },
    ensures
        new_tab(action, profiles, default_index) == (NewTabModel::Plain {
            profile: None,
            name: match action.tab_name {
                Some(name) => Some(name@),
                None => None,
            },
            icon: None,
            shell: match (action.local, action.shell) {
                (true, _) => NewShellModel::Local,
                (false, Some(asked)) => NewShellModel::Command(asked@),
                (false, None) => NewShellModel::Default,
            },
        }),
{
    if let Some(name) = action.tab_name {
        lemma_profile_place(profiles, name@, profiles.len() as int);
    }
}

/// A profile that does not exist opens no tab. The user is told its number and how many there are, as a
/// warning, whatever tab is shown.
pub proof fn lemma_missing_profile_told(action: NewTerminal, profiles: Seq<TabProfile>, default_index: int)
    ensures
        action.missing_profile_index matches Some(index) ==> new_tab(action, profiles, default_index) == (
        NewTabModel::MissingProfile {
            scope: NotificationScope::Global,
            id: "som-missing-profile-"@ + integer_text(index as int),
            severity: NotificationSeverity::Warning,
            message: "Som: no profile #"@ + integer_text(index as int) + " in settings.json's \"tabs\" — only "@
                + integer_text(profiles.len() as int) + " profile(s) configured."@,
        }),
        action.missing_profile_index is None ==> new_tab(action, profiles, default_index) !is MissingProfile,
{
}

/// A relay that stays up is shown and remembered by its pane id. One that ends early is replaced by the
/// plain command line, which is not remembered, where there is one. What fails ends the connection.
pub proof fn lemma_connect_course(pane_id: Seq<char>, no_plain: Option<Seq<char>>, step: ConnectStep, reply: ConnectReply)
    ensures
        ({
            let next = connect_next(pane_id, no_plain, step, reply);
            &&& step != ConnectStep::Done ==> (reply matches ConnectReply::Failed(reason) ==> next == (
                ConnectStep::Done,
                ConnectActionModel::Finish(Err(reason@)),
            ))
            &&& reply !is Failed ==> {
                &&& step == ConnectStep::StartingRelay ==> next == (
                    ConnectStep::Watching,
                    ConnectActionModel::WatchForEarlyExit,
                )
                &&& step == ConnectStep::Watching && reply !is EndedEarly ==> next == (
                    ConnectStep::ShowingRelay,
                    ConnectActionModel::ShowRelay,
                )
                &&& step == ConnectStep::Watching && reply is EndedEarly ==> match no_plain {
                    Some(reason) => next == (ConnectStep::Done, ConnectActionModel::Finish(Err(reason))),
                    None => next == (ConnectStep::StartingPlain, ConnectActionModel::StartPlain),
                }
                &&& step == ConnectStep::ShowingRelay ==> next == (
                    ConnectStep::Done,
                    ConnectActionModel::Finish(Ok(Some(pane_id))),
                )
                &&& step == ConnectStep::StartingPlain ==> next == (
                    ConnectStep::ShowingPlain,
                    ConnectActionModel::ShowPlain,
                )
                &&& step == ConnectStep::ShowingPlain ==> next == (
                    ConnectStep::Done,
                    ConnectActionModel::Finish(Ok(None)),
                )
            }
        }),
{
}

} // verus!
