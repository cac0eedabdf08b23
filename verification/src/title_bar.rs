//! The bar at the top of the window.

use vstd::prelude::*;
use crate::new_tab::NewTerminal;
use crate::text::opt_text;

verus! {

/// Whose look the window follows.
#[derive(Debug, Clone, Copy, PartialEq, Eq, Structural)]
pub enum PlatformStyle {
    Mac,
    Linux,
    Windows,
}

/// The bar at the top of the window.
#[derive(Debug, Clone, Copy, PartialEq, Eq, Structural)]
pub struct TitleBar {
    /// The bar holds the program's menus; elsewhere the system shows them.
    pub application_menu: bool,
}

/// The button beside the one for a new tab.
#[derive(Debug)]
pub enum ProfileControl {
    /// There is nothing to choose from.
    Absent,
    /// It opens the only profile.
    Button(NewTerminal),
    /// It opens a list of the profiles, each with the tab that it opens.
    Menu(Vec<(String, NewTerminal)>),
}

/// The buttons for tabs.
#[derive(Debug)]
pub struct TabControls {
    /// What the button for a new tab opens.
    pub new_tab: NewTerminal,
    pub profiles: ProfileControl,
}

/// A request for a tab of a profile, or of the default one.
pub open spec fn asks_for(request: NewTerminal, name: Option<Seq<char>>) -> bool {
    &&& opt_text(request.tab_name) == name
    &&& request.shell is None
    &&& !request.local
    &&& request.missing_profile_index is None
}

/// A notice that the project is not trusted.
#[derive(Debug, PartialEq, Eq)]
pub struct RestrictedMode {
    pub label: &'static str,
    pub tooltip: &'static str,
    pub tooltip_detail: &'static str,
}

/// What stands where: in one row, or the menus in the first and the rest in a second.
#[derive(Debug, Clone, Copy, PartialEq, Eq, Structural)]
pub enum TitleRow {
    Menus,
    Controls,
}

/// A request for a tab of the default profile.
fn default_tab() -> (r: NewTerminal)
    ensures
        asks_for(r, None),
{
    NewTerminal { tab_name: None, shell: None, local: false, missing_profile_index: None }
}

fn tab_of(name: &String) -> (r: NewTerminal)
    ensures
        asks_for(r, Some(name@)),
{
    NewTerminal { tab_name: Some(name.clone()), shell: None, local: false, missing_profile_index: None }
}

impl TitleBar {
    /// The bar for a platform. A Mac shows the menus itself, unless the program was built to.
    pub fn new(style: PlatformStyle, cross_platform_menu: bool) -> (r: TitleBar)
        ensures
            r.application_menu == (style != PlatformStyle::Mac || cross_platform_menu),
    {
        let application_menu = match style {
            PlatformStyle::Mac => cross_platform_menu,
            PlatformStyle::Linux | PlatformStyle::Windows => true,
        };
        TitleBar { application_menu }
    }

    /// The buttons for tabs: one for a new tab, and one for the profiles where there are any.
    pub fn render_tab_controls(profiles: &Vec<String>) -> (r: TabControls)
        ensures
            asks_for(r.new_tab, None),
            match r.profiles {
                ProfileControl::Absent => profiles@.len() == 0,
                ProfileControl::Button(request) => profiles@.len() == 1 && asks_for(request, Some(profiles@[0]@)),
                ProfileControl::Menu(entries) => {
                    &&& profiles@.len() > 1
                    &&& entries@.len() == profiles@.len()
                    &&& forall|i: int| 0 <= i < profiles@.len() ==> (#[trigger] entries@[i]).0@ == profiles@[i]@
                        && asks_for(entries@[i].1, Some(profiles@[i]@))
                },
            },
    {
        let new_tab = default_tab();
        if profiles.len() == 0 {
            return TabControls { new_tab, profiles: ProfileControl::Absent };
        }
        if profiles.len() == 1 {
            return TabControls { new_tab, profiles: ProfileControl::Button(tab_of(&profiles[0])) };
        }
        let mut entries: Vec<(String, NewTerminal)> = Vec::new();
        let mut n: usize = 0;
        while n < profiles.len()
            invariant
                n <= profiles@.len(),
                entries@.len() == n,
                forall|i: int| 0 <= i < n ==> (#[trigger] entries@[i]).0@ == profiles@[i]@ && asks_for(
                    entries@[i].1,
                    Some(profiles@[i]@),
                ),
            decreases profiles@.len() - n,
        {
            entries.push((profiles[n].clone(), tab_of(&profiles[n])));
            n += 1;
        }
        TabControls { new_tab, profiles: ProfileControl::Menu(entries) }
    }

    /// The notice that the project is not trusted, where a directory of it is not.
    pub fn render_restricted_mode(has_restricted_worktrees: bool) -> (r: Option<RestrictedMode>)
        ensures
            match r {
                Some(notice) => has_restricted_worktrees && notice.label@ == "Restricted Mode"@
                    && notice.tooltip@ == "You're in Restricted Mode"@ && notice.tooltip_detail@
                    == "Mark this project as trusted and unlock all features"@,
                None => !has_restricted_worktrees,
            },
    {
        if !has_restricted_worktrees {
            return None;
        }
        Some(
            RestrictedMode {
                label: "Restricted Mode",
                tooltip: "You're in Restricted Mode",
                tooltip_detail: "Mark this project as trusted and unlock all features",
            },
        )
    }

    /// The rows of the bar, from the top.
    pub fn render(show_menus: bool) -> (r: Vec<TitleRow>)
        ensures
            r@ == if show_menus {
                seq![TitleRow::Menus, TitleRow::Controls]
            } else {
                seq![TitleRow::Controls]
            },
    {
        let rows = if show_menus {
            vec![TitleRow::Menus, TitleRow::Controls]
        } else {
            vec![TitleRow::Controls]
        };
        assert(rows@ =~= if show_menus {
            seq![TitleRow::Menus, TitleRow::Controls]
        } else {
            seq![TitleRow::Controls]
        });
        rows
    }
}

/// Whether the bar tells of a new version: this program has no updates to tell of.
#[derive(Debug, Clone, Copy, PartialEq, Eq, Structural)]
pub struct UpdateVersion;

impl UpdateVersion {
    pub fn new() -> (r: UpdateVersion)
        ensures
            r == UpdateVersion,
    {
        UpdateVersion
    }

    pub fn show_update_in_menu_bar(&self) -> (r: bool)
        ensures
            !r,
    {
        false
    }
}

/// A button asks for a tab of the profile that it names, and for nothing else: the shell is the
/// profile's own, and no profile is missing.
pub proof fn lemma_button_asks(request: NewTerminal, name: Option<Seq<char>>)
    requires
        asks_for(request, name),
    ensures
        name is None <==> request.tab_name is None,
        name is Some ==> request.tab_name->0@ == name->0,
        request.shell is None,
        !request.local,
        request.missing_profile_index is None,
{
}

} // verus!
