//! Settings of the workspace, of the tab bar and of the title bar, with what holds where nothing is
//! set.

use vstd::prelude::*;

verus! {

/// A setting, or what holds where it is not set.
pub open spec fn set_or(value: Option<bool>, default: bool) -> bool {
    match value {
        Some(value) => value,
        None => default,
    }
}

fn flag(value: Option<bool>, default: bool) -> (r: bool)
    ensures
        r == set_or(value, default),
{
    match value {
        Some(value) => value,
        None => default,
    }
}

/// The side to which a pane is split off when it is split across.
#[derive(Debug, Clone, Copy, PartialEq, Eq, Structural)]
pub enum PaneSplitDirectionHorizontal {
    Up,
    Down,
}

/// The side to which a pane is split off when it is split down.
#[derive(Debug, Clone, Copy, PartialEq, Eq, Structural)]
pub enum PaneSplitDirectionVertical {
    Left,
    Right,
}

/// When files are saved without being told to.
#[derive(Debug, Clone, Copy, PartialEq, Eq, Structural)]
pub enum AutosaveSetting {
    Off,
    AfterDelay { milliseconds: u64 },
    OnFocusChange,
    OnWindowChange,
}

/// A side of the workspace that panels are docked at.
#[derive(Debug, Clone, Copy, PartialEq, Eq, Structural)]
pub enum DockPosition {
    Left,
    Bottom,
    Right,
}

/// Whether the pane under the mouse gets the focus, and after how many milliseconds.
#[derive(Debug, Clone, Copy, PartialEq, Eq, Structural)]
pub struct FocusFollowsMouse {
    pub enabled: bool,
    pub debounce: u64,
}

/// The same as it may be set.
#[derive(Debug, Clone, Copy, PartialEq, Eq, Structural)]
pub struct FocusFollowsMouseContent {
    pub enabled: Option<bool>,
    pub debounce_ms: Option<u64>,
}

/// The settings of the workspace as they may be set.
#[derive(Debug, PartialEq, Eq)]
pub struct WorkspaceSettingsContent {
    pub pane_split_direction_horizontal: Option<PaneSplitDirectionHorizontal>,
    pub pane_split_direction_vertical: Option<PaneSplitDirectionVertical>,
    pub confirm_quit: Option<bool>,
    pub show_call_status_icon: Option<bool>,
    pub autosave: Option<AutosaveSetting>,
    pub restore_on_file_reopen: Option<bool>,
    pub use_system_path_prompts: Option<bool>,
    pub use_system_prompts: Option<bool>,
    pub max_tabs: Option<usize>,
    pub resize_all_panels_in_dock: Option<Vec<DockPosition>>,
    pub close_on_file_delete: Option<bool>,
    pub close_panel_on_toggle: Option<bool>,
    pub use_system_window_tabs: Option<bool>,
    pub zoomed_padding: Option<bool>,
    pub focus_follows_mouse: Option<FocusFollowsMouseContent>,
}

/// The settings of the workspace.
#[derive(Debug, PartialEq, Eq)]
pub struct WorkspaceSettings {
    pub pane_split_direction_horizontal: PaneSplitDirectionHorizontal,
    pub pane_split_direction_vertical: PaneSplitDirectionVertical,
    pub confirm_quit: bool,
    pub show_call_status_icon: bool,
    pub autosave: AutosaveSetting,
    pub restore_on_file_reopen: bool,
    pub use_system_path_prompts: bool,
    pub use_system_prompts: bool,
    pub max_tabs: Option<usize>,
    pub resize_all_panels_in_dock: Vec<DockPosition>,
    pub close_on_file_delete: bool,
    pub close_panel_on_toggle: bool,
    pub use_system_window_tabs: bool,
    pub zoomed_padding: bool,
    pub focus_follows_mouse: FocusFollowsMouse,
}

/// The focus does not follow the mouse where that is not set, and waits a quarter of a second.
pub open spec fn focus_of(content: Option<FocusFollowsMouseContent>) -> FocusFollowsMouse {
    match content {
        Some(content) => FocusFollowsMouse {
            enabled: set_or(content.enabled, false),
            debounce: match content.debounce_ms {
                Some(ms) => ms,
                None => 250,
            },
        },
        None => FocusFollowsMouse { enabled: false, debounce: 250 },
    }
}

impl FocusFollowsMouse {
    pub fn from_settings(content: Option<FocusFollowsMouseContent>) -> (r: FocusFollowsMouse)
        ensures
            r == focus_of(content),
    {
        match content {
            Some(content) => FocusFollowsMouse {
                enabled: flag(content.enabled, false),
                debounce: match content.debounce_ms {
                    Some(ms) => ms,
                    None => 250,
                },
            },
            None => FocusFollowsMouse { enabled: false, debounce: 250 },
        }
    }
}

impl WorkspaceSettings {
    /// The settings, with what holds where one is not set.
    pub fn from_settings(content: WorkspaceSettingsContent) -> (r: WorkspaceSettings)
        ensures
            r.pane_split_direction_horizontal == match content.pane_split_direction_horizontal {
                Some(d) => d,
                None => PaneSplitDirectionHorizontal::Up,
            },
            r.pane_split_direction_vertical == match content.pane_split_direction_vertical {
                Some(d) => d,
                None => PaneSplitDirectionVertical::Right,
            },
            r.confirm_quit == set_or(content.confirm_quit, false),
            r.show_call_status_icon == set_or(content.show_call_status_icon, false),
            r.autosave == match content.autosave {
                Some(a) => a,
                None => AutosaveSetting::Off,
            },
            r.restore_on_file_reopen == set_or(content.restore_on_file_reopen, false),
            r.use_system_path_prompts == set_or(content.use_system_path_prompts, true),
            r.use_system_prompts == set_or(content.use_system_prompts, true),
            r.max_tabs == content.max_tabs,
            r.resize_all_panels_in_dock@ == match content.resize_all_panels_in_dock {
                Some(docks) => docks@,
                None => Seq::empty(),
            },
            r.close_on_file_delete == set_or(content.close_on_file_delete, false),
            r.close_panel_on_toggle == set_or(content.close_panel_on_toggle, false),
            r.use_system_window_tabs == set_or(content.use_system_window_tabs, false),
            r.zoomed_padding == set_or(content.zoomed_padding, false),
            r.focus_follows_mouse == focus_of(content.focus_follows_mouse),
    {
        WorkspaceSettings {
            pane_split_direction_horizontal: match content.pane_split_direction_horizontal {
                Some(d) => d,
                None => PaneSplitDirectionHorizontal::Up,
            },
            pane_split_direction_vertical: match content.pane_split_direction_vertical {
                Some(d) => d,
                None => PaneSplitDirectionVertical::Right,
            },
            confirm_quit: flag(content.confirm_quit, false),
            show_call_status_icon: flag(content.show_call_status_icon, false),
            autosave: match content.autosave {
                Some(a) => a,
                None => AutosaveSetting::Off,
            },
            restore_on_file_reopen: flag(content.restore_on_file_reopen, false),
            use_system_path_prompts: flag(content.use_system_path_prompts, true),
            use_system_prompts: flag(content.use_system_prompts, true),
            max_tabs: content.max_tabs,
            resize_all_panels_in_dock: match content.resize_all_panels_in_dock {
                Some(docks) => docks,
                None => Vec::new(),
            },
            close_on_file_delete: flag(content.close_on_file_delete, false),
            close_panel_on_toggle: flag(content.close_panel_on_toggle, false),
            use_system_window_tabs: flag(content.use_system_window_tabs, false),
            zoomed_padding: flag(content.zoomed_padding, false),
            focus_follows_mouse: FocusFollowsMouse::from_settings(content.focus_follows_mouse),
        }
    }
}

/// The settings of the tab bar.
#[derive(Debug, Clone, Copy, PartialEq, Eq, Structural)]
pub struct TabBarSettings {
    pub show: bool,
    pub show_nav_history_buttons: bool,
    pub show_tab_bar_buttons: bool,
    pub show_pinned_tabs_in_separate_row: bool,
}

/// The same as they may be set.
#[derive(Debug, Clone, Copy, PartialEq, Eq, Structural)]
pub struct TabBarSettingsContent {
    pub show: Option<bool>,
    pub show_nav_history_buttons: Option<bool>,
    pub show_tab_bar_buttons: Option<bool>,
    pub show_pinned_tabs_in_separate_row: Option<bool>,
}

impl TabBarSettings {
    pub fn from_settings(content: TabBarSettingsContent) -> (r: TabBarSettings)
        ensures
            r == (TabBarSettings {
                show: set_or(content.show, true),
                show_nav_history_buttons: set_or(content.show_nav_history_buttons, true),
                show_tab_bar_buttons: set_or(content.show_tab_bar_buttons, true),
                show_pinned_tabs_in_separate_row: set_or(content.show_pinned_tabs_in_separate_row, false),
            }),
    {
        TabBarSettings {
            show: flag(content.show, true),
            show_nav_history_buttons: flag(content.show_nav_history_buttons, true),
            show_tab_bar_buttons: flag(content.show_tab_bar_buttons, true),
            show_pinned_tabs_in_separate_row: flag(content.show_pinned_tabs_in_separate_row, false),
        }
    }
}

/// The settings of the title bar.
#[derive(Debug, Clone, Copy, PartialEq, Eq, Structural)]
pub struct TitleBarSettings {
    pub show_branch_status_icon: bool,
    pub show_onboarding_banner: bool,
    pub show_user_picture: bool,
    pub show_branch_name: bool,
    pub show_project_items: bool,
    pub show_sign_in: bool,
    pub show_user_menu: bool,
    pub show_menus: bool,
}

/// The same as they may be set.
#[derive(Debug, Clone, Copy, PartialEq, Eq, Structural)]
pub struct TitleBarSettingsContent {
    pub show_branch_status_icon: Option<bool>,
    pub show_onboarding_banner: Option<bool>,
    pub show_user_picture: Option<bool>,
    pub show_branch_name: Option<bool>,
    pub show_project_items: Option<bool>,
    pub show_sign_in: Option<bool>,
    pub show_user_menu: Option<bool>,
    pub show_menus: Option<bool>,
}

impl TitleBarSettings {
    pub fn from_settings(content: TitleBarSettingsContent) -> (r: TitleBarSettings)
        ensures
            r == (TitleBarSettings {
                show_branch_status_icon: set_or(content.show_branch_status_icon, false),
                show_onboarding_banner: set_or(content.show_onboarding_banner, false),
                show_user_picture: set_or(content.show_user_picture, false),
                show_branch_name: set_or(content.show_branch_name, true),
                show_project_items: set_or(content.show_project_items, true),
                show_sign_in: set_or(content.show_sign_in, false),
                show_user_menu: set_or(content.show_user_menu, false),
                show_menus: set_or(content.show_menus, false),
            }),
    {
        TitleBarSettings {
            show_branch_status_icon: flag(content.show_branch_status_icon, false),
            show_onboarding_banner: flag(content.show_onboarding_banner, false),
            show_user_picture: flag(content.show_user_picture, false),
            show_branch_name: flag(content.show_branch_name, true),
            show_project_items: flag(content.show_project_items, true),
            show_sign_in: flag(content.show_sign_in, false),
            show_user_menu: flag(content.show_user_menu, false),
            show_menus: flag(content.show_menus, false),
        }
    }
}

/// What is set holds, and only what is not set is taken from elsewhere.
pub proof fn lemma_set_or(value: Option<bool>, default: bool)
    ensures
        value == Some(true) ==> set_or(value, default),
        value == Some(false) ==> !set_or(value, default),
        value is None ==> set_or(value, default) == default,
{
}

/// The focus follows the mouse only where that is switched on, and waits as long as is set, else for a
/// quarter of a second.
pub proof fn lemma_focus_follows_mouse(content: Option<FocusFollowsMouseContent>)
    ensures
        focus_of(content).enabled <==> (content matches Some(c) && c.enabled == Some(true)),
        content matches Some(c) ==> (c.debounce_ms matches Some(ms) ==> focus_of(content).debounce == ms),
        !(content matches Some(c) && c.debounce_ms is Some) ==> focus_of(content).debounce == 250,
{
}

} // verus!
