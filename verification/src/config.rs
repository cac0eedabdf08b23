//! The settings file, and what is made of it: key bindings, and the settings of the parts.

use vstd::prelude::*;
use crate::decimal::{integer_text, parse_usize, unsigned_of, unsigned_text};
use crate::keys::{key_at, key_count, key_entries};
use crate::text::{join, joined, opt_text, replace_char, same_text, strip_prefix, texts, with_char_replaced};

verus! {

/// Where the window is to appear, in physical pixels.
#[derive(Debug, Clone, Copy, PartialEq, Eq, Structural)]
pub struct WindowPositionConfig {
    pub top: u32,
    pub left: u32,
}

/// How large the window is to be, in physical pixels.
#[derive(Debug, Clone, Copy, PartialEq, Eq, Structural)]
pub struct WindowSizeConfig {
    pub width: u32,
    pub height: u32,
}

#[derive(Debug, Clone, Copy, PartialEq, Eq, Structural)]
pub struct PaddingConfig {
    pub top: u32,
    pub bottom: u32,
    pub left: u32,
    pub right: u32,
}

impl Default for PaddingConfig {
    fn default() -> (r: Self)
        ensures
            r == (PaddingConfig { top: 0, bottom: 0, left: 0, right: 0 }),
    {
        PaddingConfig { top: 0, bottom: 0, left: 0, right: 0 }
    }
}

/// How the window is placed when it is created.
#[derive(Debug, Clone, Copy, PartialEq, Eq, Structural)]
pub enum WindowMode {
    Windowed,
    Maximized,
    Minimized,
    Fullscreen,
}

#[derive(Debug)]
pub struct WindowConfig {
    pub theme: Option<String>,
    pub mode: Option<String>,
    pub padding: Option<PaddingConfig>,
    pub selection: Option<String>,
    pub position: Option<WindowPositionConfig>,
    pub size: Option<WindowSizeConfig>,
}

pub open spec fn window_mode_of(mode: Option<Seq<char>>) -> WindowMode {
    if mode == Some("maximized"@) {
        WindowMode::Maximized
    } else if mode == Some("minimized"@) {
        WindowMode::Minimized
    } else if mode == Some("fullscreen"@) {
        WindowMode::Fullscreen
    } else {
        WindowMode::Windowed
    }
}

impl WindowConfig {
    /// How the window is placed. What is not understood means an ordinary window.
    pub fn mode(&self) -> (r: WindowMode)
        ensures
            r == window_mode_of(opt_text(self.mode)),
    {
        match &self.mode {
            Some(mode) => if same_text(mode.as_str(), "maximized") {
                WindowMode::Maximized
            } else if same_text(mode.as_str(), "minimized") {
                WindowMode::Minimized
            } else if same_text(mode.as_str(), "fullscreen") {
                WindowMode::Fullscreen
            } else {
                WindowMode::Windowed
            },
            None => WindowMode::Windowed,
        }
    }

    /// Top, left, width and height, where all four are given and none of them is zero.
    pub fn explicit_windowed_bounds(&self) -> (r: Option<(u32, u32, u32, u32)>)
        ensures
            r == (match (self.position, self.size) {
                (Some(p), Some(s)) => if p.top != 0 && p.left != 0 && s.width != 0 && s.height != 0 {
                    Some((p.top, p.left, s.width, s.height))
                } else {
                    None
                },
                _ => None,
            }),
    {
        match (self.position, self.size) {
            (Some(p), Some(s)) => if p.top != 0 && p.left != 0 && s.width != 0 && s.height != 0 {
                Some((p.top, p.left, s.width, s.height))
            } else {
                None
            },
            _ => None,
        }
    }

    /// The padding around the terminal; none where it is not set.
    pub fn padding_or_default(&self) -> (r: PaddingConfig)
        ensures
            r == (match self.padding {
                Some(p) => p,
                None => PaddingConfig { top: 0, bottom: 0, left: 0, right: 0 },
            }),
    {
        match self.padding {
            Some(p) => p,
            None => PaddingConfig::default(),
        }
    }
}

#[derive(Debug)]
pub struct LogConfig {
    pub level: String,
    pub days: u64,
}

impl Default for LogConfig {
    fn default() -> (r: Self)
        ensures
            r.level@ == "all"@,
            r.days == 7,
    {
        LogConfig { level: String::from_str("all"), days: 7 }
    }
}

/// The value of a font feature.
#[derive(Debug, Clone, Copy, PartialEq, Eq, Structural)]
pub enum FeatureValue {
    Bool(bool),
    Unsigned(u64),
    /// Anything else, which is no value of a feature.
    Other,
}

/// The font. Numbers that may have a fraction are kept as they are written.
#[derive(Debug)]
pub struct FontConfig {
    pub face: Option<String>,
    pub size: Option<String>,
    pub weight: Option<String>,
    pub line_height: Option<String>,
    pub features: Vec<(String, FeatureValue)>,
}

#[derive(Debug)]
pub struct CursorConfig {
    pub shape: Option<String>,
    pub color: Option<String>,
    pub blinking: Option<String>,
}

#[derive(Debug)]
pub struct ScrollConfig {
    /// As it is written.
    pub scroll_multiplier: Option<String>,
    pub max_scroll_history: Option<u32>,
    pub alternate_scroll: Option<String>,
}

/// A profile that tabs can be opened with.
#[derive(Debug)]
pub struct TabProfile {
    pub name: String,
    pub icon: Option<String>,
    pub shell: Option<String>,
    pub home: Option<String>,
    pub tmux: bool,
    /// It is the one that a plain new tab opens.
    pub default: bool,
}

/// The settings file.
#[derive(Debug)]
pub struct SomConfig {
    pub window: WindowConfig,
    pub font: FontConfig,
    pub cursor: CursorConfig,
    pub scroll: ScrollConfig,
    pub log: LogConfig,
    pub tabs: Vec<TabProfile>,
    pub keys: indexmap::IndexMap<String, String>,
}

/// An action of the program: its name, the context it needs, and whether it takes arguments.
pub struct ActionModel {
    pub name: Seq<char>,
    pub context: Option<Seq<char>>,
    pub with_arguments: bool,
}

pub open spec fn action(name: Seq<char>, context: Option<Seq<char>>, with_arguments: bool) -> Option<ActionModel> {
    Some(ActionModel { name, context, with_arguments })
}

/// The action that a name in the settings stands for.
pub open spec fn action_of(name: Seq<char>) -> Option<ActionModel> {
    let terminal = Some("Terminal"@);
    if name == "Copy"@ {
        action("terminal::Copy"@, terminal, false)
    } else if name == "Paste"@ {
        action("terminal::Paste"@, terminal, false)
    } else if name == "CloseTab"@ {
        action("workspace::SomCloseTab"@, None, false)
    } else if name == "NewPane"@ {
        action("workspace::SomSplitPane"@, None, false)
    } else if name == "UnSplitTab"@ {
        action("workspace::SomUnsplitPane"@, None, false)
    } else if name == "ClosePane"@ {
        action("workspace::SomClosePane"@, None, false)
    } else if name == "NextPane"@ {
        action("workspace::SomActivateNextPane"@, terminal, false)
    } else if name == "PrevPane"@ {
        action("workspace::SomActivatePrevPane"@, terminal, false)
    } else if name == "NextTab"@ {
        action("workspace::SomActivateNextTab"@, terminal, false)
    } else if name == "PrevTab"@ {
        action("workspace::SomActivatePrevTab"@, terminal, false)
    } else if name == "Quit"@ {
        action("zed::Quit"@, None, false)
    } else if name == "IncreaseFont"@ {
        action("zed::IncreaseBufferFontSize"@, None, true)
    } else if name == "DecreaseFont"@ {
        action("zed::DecreaseBufferFontSize"@, None, true)
    } else if name == "ResetFont"@ {
        action("zed::ResetBufferFontSize"@, None, true)
    } else {
        None
    }
}

/// What was found is this action.
pub open spec fn stands_for(
    found: Option<(&'static str, Option<&'static str>, bool)>,
    name: Seq<char>,
    context: Option<Seq<char>>,
    with_arguments: bool,
) -> bool {
    found matches Some((n, c, w)) && n@ == name && w == with_arguments && match c {
        Some(c) => context == Some(c@),
        None => context is None,
    }
}

/// A name of the settings for an action that opens no tab.
pub open spec fn settings_action(name: Seq<char>) -> bool {
    ||| name == "Copy"@
    ||| name == "Paste"@
    ||| name == "CloseTab"@
    ||| name == "NewPane"@
    ||| name == "UnSplitTab"@
    ||| name == "ClosePane"@
    ||| name == "NextPane"@
    ||| name == "PrevPane"@
    ||| name == "NextTab"@
    ||| name == "PrevTab"@
    ||| name == "Quit"@
    ||| name == "IncreaseFont"@
    ||| name == "DecreaseFont"@
    ||| name == "ResetFont"@
}

/// The names of the settings and the actions of the program belong together in these pairs. In the
/// terminal there are those that go by the pane or the tab that is shown and those of the clipboard,
/// and those of the font's size do not outlast the session.
pub proof fn lemma_action_names(name: Seq<char>)
    ensures
        settings_action(name) <==> action_of(name) is Some,
        name == "Copy"@ ==> action_of(name) == Some(
            ActionModel { name: "terminal::Copy"@, context: Some("Terminal"@), with_arguments: false },
        ),
        name == "Paste"@ ==> action_of(name) == Some(
            ActionModel { name: "terminal::Paste"@, context: Some("Terminal"@), with_arguments: false },
        ),
        name == "CloseTab"@ ==> action_of(name) == Some(
            ActionModel { name: "workspace::SomCloseTab"@, context: None, with_arguments: false },
        ),
        name == "NewPane"@ ==> action_of(name) == Some(
            ActionModel { name: "workspace::SomSplitPane"@, context: None, with_arguments: false },
        ),
        name == "UnSplitTab"@ ==> action_of(name) == Some(
            ActionModel { name: "workspace::SomUnsplitPane"@, context: None, with_arguments: false },
        ),
        name == "ClosePane"@ ==> action_of(name) == Some(
            ActionModel { name: "workspace::SomClosePane"@, context: None, with_arguments: false },
        ),
        name == "NextPane"@ ==> action_of(name) == Some(
            ActionModel { name: "workspace::SomActivateNextPane"@, context: Some("Terminal"@), with_arguments: false },
        ),
        name == "PrevPane"@ ==> action_of(name) == Some(
            ActionModel { name: "workspace::SomActivatePrevPane"@, context: Some("Terminal"@), with_arguments: false },
        ),
        name == "NextTab"@ ==> action_of(name) == Some(
            ActionModel { name: "workspace::SomActivateNextTab"@, context: Some("Terminal"@), with_arguments: false },
        ),
        name == "PrevTab"@ ==> action_of(name) == Some(
            ActionModel { name: "workspace::SomActivatePrevTab"@, context: Some("Terminal"@), with_arguments: false },
        ),
        name == "Quit"@ ==> action_of(name) == Some(
            ActionModel { name: "zed::Quit"@, context: None, with_arguments: false },
        ),
        name == "IncreaseFont"@ ==> action_of(name) == Some(
            ActionModel { name: "zed::IncreaseBufferFontSize"@, context: None, with_arguments: true },
        ),
        name == "DecreaseFont"@ ==> action_of(name) == Some(
            ActionModel { name: "zed::DecreaseBufferFontSize"@, context: None, with_arguments: true },
        ),
        name == "ResetFont"@ ==> action_of(name) == Some(
            ActionModel { name: "zed::ResetBufferFontSize"@, context: None, with_arguments: true },
        ),
{
    reveal_strlit("Copy");
    reveal_strlit("Paste");
    reveal_strlit("CloseTab");
    reveal_strlit("NewPane");
    reveal_strlit("UnSplitTab");
    reveal_strlit("ClosePane");
    reveal_strlit("NextPane");
    reveal_strlit("PrevPane");
    reveal_strlit("NextTab");
    reveal_strlit("PrevTab");
    reveal_strlit("Quit");
    reveal_strlit("IncreaseFont");
    reveal_strlit("DecreaseFont");
    reveal_strlit("ResetFont");
    assert("Copy"@.len() == 4);
    assert("Paste"@.len() == 5);
    assert("CloseTab"@.len() == 8);
    assert("NewPane"@.len() == 7);
    assert("UnSplitTab"@.len() == 10);
    assert("ClosePane"@.len() == 9);
    assert("NextPane"@.len() == 8);
    assert("PrevPane"@.len() == 8);
    assert("NextTab"@.len() == 7);
    assert("PrevTab"@.len() == 7);
    assert("Quit"@.len() == 4);
    assert("IncreaseFont"@.len() == 12);
    assert("DecreaseFont"@.len() == 12);
    assert("ResetFont"@.len() == 9);
    assert("Copy"@[0] != "Quit"@[0]);
    assert("CloseTab"@[0] != "NextPane"@[0]);
    assert("CloseTab"@[0] != "PrevPane"@[0]);
    assert("NewPane"@[2] != "NextTab"@[2]);
    assert("NewPane"@[0] != "PrevTab"@[0]);
    assert("ClosePane"@[0] != "ResetFont"@[0]);
    assert("NextPane"@[0] != "PrevPane"@[0]);
    assert("NextTab"@[0] != "PrevTab"@[0]);
    assert("IncreaseFont"@[0] != "DecreaseFont"@[0]);
}

/// Different names of the settings stand for different actions of the program.
pub proof fn lemma_actions_told_apart(one: Seq<char>, other: Seq<char>)
    requires
        action_of(one) is Some,
        action_of(other) is Some,
        action_of(one)->0.name == action_of(other)->0.name,
    ensures
        one == other,
{
    lemma_action_names(one);
    lemma_action_names(other);
    reveal_strlit("terminal::Copy");
    reveal_strlit("terminal::Paste");
    reveal_strlit("workspace::SomCloseTab");
    reveal_strlit("workspace::SomSplitPane");
    reveal_strlit("workspace::SomUnsplitPane");
    reveal_strlit("workspace::SomClosePane");
    reveal_strlit("workspace::SomActivateNextPane");
    reveal_strlit("workspace::SomActivatePrevPane");
    reveal_strlit("workspace::SomActivateNextTab");
    reveal_strlit("workspace::SomActivatePrevTab");
    reveal_strlit("zed::Quit");
    reveal_strlit("zed::IncreaseBufferFontSize");
    reveal_strlit("zed::DecreaseBufferFontSize");
    reveal_strlit("zed::ResetBufferFontSize");
    assert("terminal::Copy"@.len() == 14);
    assert("terminal::Paste"@.len() == 15);
    assert("workspace::SomCloseTab"@.len() == 22);
    assert("workspace::SomSplitPane"@.len() == 23);
    assert("workspace::SomUnsplitPane"@.len() == 25);
    assert("workspace::SomClosePane"@.len() == 23);
    assert("workspace::SomActivateNextPane"@.len() == 30);
    assert("workspace::SomActivatePrevPane"@.len() == 30);
    assert("workspace::SomActivateNextTab"@.len() == 29);
    assert("workspace::SomActivatePrevTab"@.len() == 29);
    assert("zed::Quit"@.len() == 9);
    assert("zed::IncreaseBufferFontSize"@.len() == 27);
    assert("zed::DecreaseBufferFontSize"@.len() == 27);
    assert("zed::ResetBufferFontSize"@.len() == 24);
    assert("workspace::SomSplitPane"@[14] != "workspace::SomClosePane"@[14]);
    assert("workspace::SomActivateNextPane"@[22] != "workspace::SomActivatePrevPane"@[22]);
    assert("workspace::SomActivateNextTab"@[22] != "workspace::SomActivatePrevTab"@[22]);
    assert("zed::IncreaseBufferFontSize"@[5] != "zed::DecreaseBufferFontSize"@[5]);
}

/// The action that a name in the settings stands for: its name, the context it needs, and whether
/// it takes arguments.
pub fn som_action_to_gpui(action: &str) -> (r: Option<(&'static str, Option<&'static str>, bool)>)
    ensures
        match r {
            Some((name, context, with_arguments)) => action_of(action@) == Some(
                ActionModel {
                    name: name@,
                    context: match context {
                        Some(c) => Some(c@),
                        None => None,
                    },
                    with_arguments,
                },
            ),
            None => action_of(action@) is None,
        },
        action@ == "Copy"@ ==> stands_for(r, "terminal::Copy"@, Some("Terminal"@), false),
        action@ == "Paste"@ ==> stands_for(r, "terminal::Paste"@, Some("Terminal"@), false),
        action@ == "CloseTab"@ ==> stands_for(r, "workspace::SomCloseTab"@, None, false),
        action@ == "NewPane"@ ==> stands_for(r, "workspace::SomSplitPane"@, None, false),
        action@ == "UnSplitTab"@ ==> stands_for(r, "workspace::SomUnsplitPane"@, None, false),
        action@ == "ClosePane"@ ==> stands_for(r, "workspace::SomClosePane"@, None, false),
        action@ == "NextPane"@ ==> stands_for(r, "workspace::SomActivateNextPane"@, Some("Terminal"@), false),
        action@ == "PrevPane"@ ==> stands_for(r, "workspace::SomActivatePrevPane"@, Some("Terminal"@), false),
        action@ == "NextTab"@ ==> stands_for(r, "workspace::SomActivateNextTab"@, Some("Terminal"@), false),
        action@ == "PrevTab"@ ==> stands_for(r, "workspace::SomActivatePrevTab"@, Some("Terminal"@), false),
        action@ == "Quit"@ ==> stands_for(r, "zed::Quit"@, None, false),
        action@ == "IncreaseFont"@ ==> stands_for(r, "zed::IncreaseBufferFontSize"@, None, true),
        action@ == "DecreaseFont"@ ==> stands_for(r, "zed::DecreaseBufferFontSize"@, None, true),
        action@ == "ResetFont"@ ==> stands_for(r, "zed::ResetBufferFontSize"@, None, true),
        r is Some ==> settings_action(action@),
{
    proof {
        lemma_action_names(action@);
    }
    if same_text(action, "Copy") {
        Some(("terminal::Copy", Some("Terminal"), false))
    } else if same_text(action, "Paste") {
        Some(("terminal::Paste", Some("Terminal"), false))
    } else if same_text(action, "CloseTab") {
        Some(("workspace::SomCloseTab", None, false))
    } else if same_text(action, "NewPane") {
        Some(("workspace::SomSplitPane", None, false))
    } else if same_text(action, "UnSplitTab") {
        Some(("workspace::SomUnsplitPane", None, false))
    } else if same_text(action, "ClosePane") {
        Some(("workspace::SomClosePane", None, false))
    } else if same_text(action, "NextPane") {
        Some(("workspace::SomActivateNextPane", Some("Terminal"), false))
    } else if same_text(action, "PrevPane") {
        Some(("workspace::SomActivatePrevPane", Some("Terminal"), false))
    } else if same_text(action, "NextTab") {
        Some(("workspace::SomActivateNextTab", Some("Terminal"), false))
    } else if same_text(action, "PrevTab") {
        Some(("workspace::SomActivatePrevTab", Some("Terminal"), false))
    } else if same_text(action, "Quit") {
        Some(("zed::Quit", None, false))
    } else if same_text(action, "IncreaseFont") {
        Some(("zed::IncreaseBufferFontSize", None, true))
    } else if same_text(action, "DecreaseFont") {
        Some(("zed::DecreaseBufferFontSize", None, true))
    } else if same_text(action, "ResetFont") {
        Some(("zed::ResetBufferFontSize", None, true))
    } else {
        None
    }
}

/// Backslashes doubled.
pub open spec fn backslashes_doubled(s: Seq<char>) -> Seq<char> {
    with_char_replaced(s, '\\', "\\\\"@)
}

/// Quotes escaped.
pub open spec fn quotes_escaped(s: Seq<char>) -> Seq<char> {
    with_char_replaced(s, '"', "\\\""@)
}

/// A binding, in whatever context.
pub open spec fn plain_binding(keystroke: Seq<char>, binding: Seq<char>) -> Seq<char> {
    "{ \"bindings\": { \""@ + keystroke + "\": "@ + binding + " } }"@
}

/// A binding in one context.
pub open spec fn context_binding(context: Seq<char>, keystroke: Seq<char>, binding: Seq<char>) -> Seq<char> {
    "{ \"context\": \""@ + context + "\", \"bindings\": { \""@ + keystroke + "\": "@ + binding + " } }"@
}

/// A name in quotes.
pub open spec fn in_quotes(s: Seq<char>) -> Seq<char> {
    "\""@ + s + "\""@
}

/// An action that is not to outlast the session.
pub open spec fn not_persistent(action: Seq<char>) -> Seq<char> {
    "[\""@ + action + "\", { \"persist\": false }]"@
}

/// Opening a tab of a profile.
pub open spec fn open_profile(name: Seq<char>, shell: Option<Seq<char>>) -> Seq<char> {
    match shell {
        Some(shell) => "[\"workspace::NewTerminal\", { \"tab_name\": \""@ + quotes_escaped(name)
            + "\", \"shell\": \""@ + quotes_escaped(backslashes_doubled(shell)) + "\" }]"@,
        None => "[\"workspace::NewTerminal\", { \"tab_name\": \""@ + quotes_escaped(name) + "\" }]"@,
    }
}

/// Telling that there is no such profile.
pub open spec fn open_missing(number: int) -> Seq<char> {
    "[\"workspace::NewTerminal\", { \"missing_profile_index\": "@ + integer_text(number) + " }]"@
}

/// The first profile that is marked as the default one, or the number of profiles.
pub open spec fn default_position(tabs: Seq<TabProfile>) -> int
    decreases tabs.len(),
{
    if tabs.len() == 0 || tabs[0].default {
        0
    } else {
        1 + default_position(tabs.drop_first())
    }
}

/// The number, from one on, of the profile that a plain new tab opens: the default one, else the
/// first.
pub open spec fn default_number(tabs: Seq<TabProfile>) -> int {
    if default_position(tabs) < tabs.len() {
        default_position(tabs) + 1
    } else {
        1
    }
}

/// The number of the profile that an action opens a tab of: that in its name, or for a plain new
/// tab that of the default profile.
pub open spec fn new_tab_number(action: Seq<char>, tabs: Seq<TabProfile>) -> Option<int> {
    if action == "NewTab"@ {
        Some(default_number(tabs))
    } else if "NewTab"@.is_prefix_of(action) {
        match unsigned_of(action.skip("NewTab"@.len() as int), usize::MAX as nat) {
            Some(n) => Some(n as int),
            None => None,
        }
    } else {
        None
    }
}

/// What an action that opens a tab is bound to. Only the first ten profiles can be named.
pub open spec fn new_tab_binding(number: int, is_bare: bool, tabs: Seq<TabProfile>) -> Seq<char> {
    if 1 <= number <= 10 && number <= tabs.len() {
        open_profile(tabs[number - 1].name@, opt_text(tabs[number - 1].shell))
    } else if 1 <= number <= 10 && !is_bare {
        open_missing(number)
    } else {
        in_quotes("workspace::NewTerminal"@)
    }
}

/// The entry of the keymap for a keystroke of the settings, where its action is known.
pub open spec fn key_entry(keystroke: Seq<char>, action: Seq<char>, tabs: Seq<TabProfile>) -> Option<Seq<char>> {
    let keystroke = backslashes_doubled(keystroke);
    match new_tab_number(action, tabs) {
        Some(number) => Some(
            plain_binding(keystroke, new_tab_binding(number, action == "NewTab"@, tabs)),
        ),
        None => match action_of(action) {
            Some(a) => {
                let binding = if a.with_arguments {
                    not_persistent(a.name)
                } else {
                    in_quotes(a.name)
                };
                Some(
                    match a.context {
                        Some(context) => context_binding(context, keystroke, binding),
                        None => plain_binding(keystroke, binding),
                    },
                )
            },
            None => None,
        },
    }
}

/// The entries for the first `n` keystrokes of the settings.
pub open spec fn key_entries_of(
    keys: Seq<(Seq<char>, Seq<char>)>,
    n: int,
    tabs: Seq<TabProfile>,
) -> Seq<Seq<char>>
    decreases n,
{
    if n <= 0 {
        Seq::empty()
    } else {
        let before = key_entries_of(keys, n - 1, tabs);
        match key_entry(keys[n - 1].0, keys[n - 1].1, tabs) {
            Some(e) => before.push(e),
            None => before,
        }
    }
}

/// The entries that are always there: those of menus, and of the font's size.
pub open spec fn built_in_entries() -> Seq<Seq<char>> {
    seq![
        context_binding("menu"@, "up"@, in_quotes("menu::SelectPrevious"@)),
        context_binding("menu"@, "down"@, in_quotes("menu::SelectNext"@)),
        context_binding("menu"@, "tab"@, in_quotes("menu::SelectNext"@)),
        context_binding("menu"@, "enter"@, in_quotes("menu::Confirm"@)),
        context_binding("menu"@, "escape"@, in_quotes("menu::Cancel"@)),
        plain_binding("ctrl-="@, not_persistent("zed::IncreaseBufferFontSize"@)),
        plain_binding("ctrl--"@, not_persistent("zed::DecreaseBufferFontSize"@)),
    ]
}

/// The keymap of the settings.
pub open spec fn keymap_json(keys: Seq<(Seq<char>, Seq<char>)>, tabs: Seq<TabProfile>) -> Seq<char> {
    "["@ + joined(built_in_entries() + key_entries_of(keys, keys.len() as int, tabs), ", "@) + "]"@
}

fn format_plain_binding(keystroke: &str, binding: &str) -> (r: String)
    ensures
        r@ == plain_binding(keystroke@, binding@),
{
    let mut out = String::from_str("{ \"bindings\": { \"");
    out.append(keystroke);
    out.append("\": ");
    out.append(binding);
    out.append(" } }");
    out
}

fn format_context_binding(context: &str, keystroke: &str, binding: &str) -> (r: String)
    ensures
        r@ == context_binding(context@, keystroke@, binding@),
{
    let mut out = String::from_str("{ \"context\": \"");
    out.append(context);
    out.append("\", \"bindings\": { \"");
    out.append(keystroke);
    out.append("\": ");
    out.append(binding);
    out.append(" } }");
    out
}

fn format_in_quotes(s: &str) -> (r: String)
    ensures
        r@ == in_quotes(s@),
{
    let mut out = String::from_str("\"");
    out.append(s);
    out.append("\"");
    out
}

fn format_not_persistent(action: &str) -> (r: String)
    ensures
        r@ == not_persistent(action@),
{
    let mut out = String::from_str("[\"");
    out.append(action);
    out.append("\", { \"persist\": false }]");
    out
}

fn format_open_profile(tab: &TabProfile) -> (r: String)
    ensures
        r@ == open_profile(tab.name@, opt_text(tab.shell)),
{
    let name = replace_char(tab.name.as_str(), '"', "\\\"");
    let mut out = String::from_str("[\"workspace::NewTerminal\", { \"tab_name\": \"");
    out.append(name.as_str());
    match &tab.shell {
        Some(shell) => {
            let doubled = replace_char(shell.as_str(), '\\', "\\\\");
            let escaped = replace_char(doubled.as_str(), '"', "\\\"");
            out.append("\", \"shell\": \"");
            out.append(escaped.as_str());
        },
        None => {},
    }
    out.append("\" }]");
    out
}

fn format_open_missing(number: usize) -> (r: String)
    ensures
        r@ == open_missing(number as int),
{
    let mut out = String::from_str("[\"workspace::NewTerminal\", { \"missing_profile_index\": ");
    let digits = unsigned_text(number as u64);
    out.append(digits.as_str());
    out.append(" }]");
    out
}

pub proof fn lemma_default_position(tabs: Seq<TabProfile>, p: int)
    requires
        0 <= p <= tabs.len(),
        p < tabs.len() ==> tabs[p].default,
        forall|j: int| 0 <= j < p ==> !(#[trigger] tabs[j]).default,
    ensures
        default_position(tabs) == p,
    decreases tabs.len(),
{
    if p > 0 {
        assert(!tabs[0].default);
        assert forall|j: int| 0 <= j < p - 1 implies !(#[trigger] tabs.drop_first()[j]).default by {
            assert(tabs.drop_first()[j] == tabs[j + 1]);
        }
        lemma_default_position(tabs.drop_first(), p - 1);
    }
}

impl SomConfig {
    fn new_tab_number(&self, action: &str) -> (r: Option<usize>)
        ensures
            match r {
                Some(n) => new_tab_number(action@, self.tabs@) == Some(n as int),
                None => new_tab_number(action@, self.tabs@) is None,
            },
    {
        if same_text(action, "NewTab") {
            let mut p: usize = 0;
            while p < self.tabs.len() && !self.tabs[p].default
                invariant
                    p <= self.tabs@.len(),
                    forall|j: int| 0 <= j < p ==> !(#[trigger] self.tabs@[j]).default,
                decreases self.tabs@.len() - p,
            {
                p += 1;
            }
            proof {
                lemma_default_position(self.tabs@, p as int);
            }
            if p < self.tabs.len() {
                Some(p + 1)
            } else {
                Some(1)
            }
        } else {
            match strip_prefix(action, "NewTab") {
                Some(rest) => parse_usize(rest.as_str()),
                None => None,
            }
        }
    }

    fn key_entry(&self, keystroke: &str, action: &str) -> (r: Option<String>)
        ensures
            opt_text(r) == key_entry(keystroke@, action@, self.tabs@),
    {
        let keystroke = replace_char(keystroke, '\\', "\\\\");
        match self.new_tab_number(action) {
            Some(number) => {
                let binding = if 1 <= number && number <= 10 && number <= self.tabs.len() {
                    format_open_profile(&self.tabs[number - 1])
                } else if 1 <= number && number <= 10 && !same_text(action, "NewTab") {
                    format_open_missing(number)
                } else {
                    format_in_quotes("workspace::NewTerminal")
                };
                Some(format_plain_binding(keystroke.as_str(), binding.as_str()))
            },
            None => match som_action_to_gpui(action) {
                Some((name, context, with_arguments)) => {
                    let binding = if with_arguments {
                        format_not_persistent(name)
                    } else {
                        format_in_quotes(name)
                    };
                    match context {
                        Some(context) => Some(
                            format_context_binding(context, keystroke.as_str(), binding.as_str()),
                        ),
                        None => Some(format_plain_binding(keystroke.as_str(), binding.as_str())),
                    }
                },
                None => None,
            },
        }
    }

    /// The keymap of the settings. Keystrokes of unknown actions are left out.
    pub fn apply_keys(&self) -> (r: String)
        ensures
            r@ == keymap_json(key_entries(self.keys), self.tabs@),
    {
        let mut entries: Vec<String> = Vec::new();
        let previous = format_in_quotes("menu::SelectPrevious");
        let next = format_in_quotes("menu::SelectNext");
        let confirm = format_in_quotes("menu::Confirm");
        let cancel = format_in_quotes("menu::Cancel");
        let increase = format_not_persistent("zed::IncreaseBufferFontSize");
        let decrease = format_not_persistent("zed::DecreaseBufferFontSize");
        entries.push(format_context_binding("menu", "up", previous.as_str()));
        entries.push(format_context_binding("menu", "down", next.as_str()));
        entries.push(format_context_binding("menu", "tab", next.as_str()));
        entries.push(format_context_binding("menu", "enter", confirm.as_str()));
        entries.push(format_context_binding("menu", "escape", cancel.as_str()));
        entries.push(format_plain_binding("ctrl-=", increase.as_str()));
        entries.push(format_plain_binding("ctrl--", decrease.as_str()));
        assert(texts(entries@) =~= built_in_entries());
        let count: usize = key_count(&self.keys);
        let mut i: usize = 0;
        assert(texts(entries@) =~= built_in_entries() + key_entries_of(
            key_entries(self.keys),
            0,
            self.tabs@,
        ));
        while i < count
            invariant
                count == key_entries(self.keys).len(),
                i <= count,
                texts(entries@) == built_in_entries() + key_entries_of(
                    key_entries(self.keys),
                    i as int,
                    self.tabs@,
                ),
            decreases count - i,
        {
            let ghost before = entries@;
            if let Some((keystroke, action)) = key_at(&self.keys, i) {
                match self.key_entry(keystroke.as_str(), action.as_str()) {
                    Some(entry) => {
                        entries.push(entry);
                        assert(texts(entries@) =~= texts(before).push(entry@));
                        assert(texts(entries@) =~= built_in_entries() + key_entries_of(
                            key_entries(self.keys),
                            i + 1,
                            self.tabs@,
                        ));
                    },
                    None => {},
                }
            }
            i += 1;
        }
        let mut out = String::from_str("[");
        let list = join(&entries, ", ");
        out.append(list.as_str());
        out.append("]");
        out
    }
}

/// An action that a key is bound to while the terminal has the focus.
pub open spec fn written_in_terminal(keystroke: Seq<char>, name: Seq<char>) -> Seq<char> {
    "{ \"context\": \"Terminal\", \"bindings\": { \""@ + keystroke + "\": \""@ + name + "\" } }"@
}

/// An action that a key is bound to wherever it is typed.
pub open spec fn written_anywhere(keystroke: Seq<char>, name: Seq<char>) -> Seq<char> {
    "{ \"bindings\": { \""@ + keystroke + "\": \""@ + name + "\" } }"@
}

/// The same, for an action whose effect does not outlast the session.
pub open spec fn written_for_now(keystroke: Seq<char>, name: Seq<char>) -> Seq<char> {
    "{ \"bindings\": { \""@ + keystroke + "\": [\""@ + name + "\", { \"persist\": false }] } }"@
}

proof fn lemma_binding_texts(keystroke: Seq<char>, name: Seq<char>)
    ensures
        context_binding("Terminal"@, keystroke, in_quotes(name)) == written_in_terminal(keystroke, name),
        plain_binding(keystroke, in_quotes(name)) == written_anywhere(keystroke, name),
        plain_binding(keystroke, not_persistent(name)) == written_for_now(keystroke, name),
{
    reveal_strlit("{ \"context\": \"");
    reveal_strlit("Terminal");
    reveal_strlit("\", \"bindings\": { \"");
    reveal_strlit("\": ");
    reveal_strlit(" } }");
    reveal_strlit("\"");
    reveal_strlit("[\"");
    reveal_strlit("\", { \"persist\": false }]");
    reveal_strlit("{ \"bindings\": { \"");
    reveal_strlit("{ \"context\": \"Terminal\", \"bindings\": { \"");
    reveal_strlit("\": \"");
    reveal_strlit("\" } }");
    reveal_strlit("\": [\"");
    reveal_strlit("\", { \"persist\": false }] } }");
    assert(context_binding("Terminal"@, keystroke, in_quotes(name)) =~= written_in_terminal(keystroke, name));
    assert(plain_binding(keystroke, in_quotes(name)) =~= written_anywhere(keystroke, name));
    assert(plain_binding(keystroke, not_persistent(name)) =~= written_for_now(keystroke, name));
}

proof fn lemma_plain_kept(s: Seq<char>, c: char, with: Seq<char>)
    requires
        !s.contains(c),
    ensures
        with_char_replaced(s, c, with) == s,
    decreases s.len(),
{
    if s.len() > 0 {
        let init = s.drop_last();
        assert(!init.contains(c)) by {
            assert forall|i: int| 0 <= i < init.len() implies init[i] != c by {
                assert(s.contains(s[i]));
            }
        }
        assert(s.contains(s.last()));
        lemma_plain_kept(init, c, with);
        assert(init + seq![s.last()] =~= s);
    }
}

/// A key of the settings does what its name says: it is bound to the action of that name, in the
/// terminal where the action goes by what is shown there, and under the keystroke that was given.
pub proof fn lemma_named_key(keystroke: Seq<char>, tabs: Seq<TabProfile>)
    requires
        !keystroke.contains('\\'),
    ensures
        key_entry(keystroke, "Copy"@, tabs) == Some(written_in_terminal(keystroke, "terminal::Copy"@)),
        key_entry(keystroke, "Paste"@, tabs) == Some(written_in_terminal(keystroke, "terminal::Paste"@)),
        key_entry(keystroke, "CloseTab"@, tabs) == Some(written_anywhere(keystroke, "workspace::SomCloseTab"@)),
        key_entry(keystroke, "NewPane"@, tabs) == Some(written_anywhere(keystroke, "workspace::SomSplitPane"@)),
        key_entry(keystroke, "UnSplitTab"@, tabs) == Some(written_anywhere(keystroke, "workspace::SomUnsplitPane"@)),
        key_entry(keystroke, "ClosePane"@, tabs) == Some(written_anywhere(keystroke, "workspace::SomClosePane"@)),
        key_entry(keystroke, "NextPane"@, tabs) == Some(written_in_terminal(keystroke, "workspace::SomActivateNextPane"@)),
        key_entry(keystroke, "PrevPane"@, tabs) == Some(written_in_terminal(keystroke, "workspace::SomActivatePrevPane"@)),
        key_entry(keystroke, "NextTab"@, tabs) == Some(written_in_terminal(keystroke, "workspace::SomActivateNextTab"@)),
        key_entry(keystroke, "PrevTab"@, tabs) == Some(written_in_terminal(keystroke, "workspace::SomActivatePrevTab"@)),
        key_entry(keystroke, "Quit"@, tabs) == Some(written_anywhere(keystroke, "zed::Quit"@)),
        key_entry(keystroke, "IncreaseFont"@, tabs) == Some(written_for_now(keystroke, "zed::IncreaseBufferFontSize"@)),
        key_entry(keystroke, "DecreaseFont"@, tabs) == Some(written_for_now(keystroke, "zed::DecreaseBufferFontSize"@)),
        key_entry(keystroke, "ResetFont"@, tabs) == Some(written_for_now(keystroke, "zed::ResetBufferFontSize"@)),
{
    lemma_plain_kept(keystroke, '\\', "\\\\"@);
    reveal_strlit("NewTab");
    reveal_strlit("Copy");
    lemma_action_names("Copy"@);
    lemma_binding_texts(keystroke, "terminal::Copy"@);
    assert("Copy"@.len() == 4);
    assert("Copy"@[0] != "NewTab"@[0]);
    reveal_strlit("Paste");
    lemma_action_names("Paste"@);
    lemma_binding_texts(keystroke, "terminal::Paste"@);
    assert("Paste"@.len() == 5);
    assert("Paste"@[0] != "NewTab"@[0]);
    reveal_strlit("CloseTab");
    lemma_action_names("CloseTab"@);
    lemma_binding_texts(keystroke, "workspace::SomCloseTab"@);
    assert("CloseTab"@.len() == 8);
    assert("CloseTab"@[0] != "NewTab"@[0]);
    reveal_strlit("NewPane");
    lemma_action_names("NewPane"@);
    lemma_binding_texts(keystroke, "workspace::SomSplitPane"@);
    assert("NewPane"@.len() == 7);
    assert("NewPane"@[3] != "NewTab"@[3]);
    reveal_strlit("UnSplitTab");
    lemma_action_names("UnSplitTab"@);
    lemma_binding_texts(keystroke, "workspace::SomUnsplitPane"@);
    assert("UnSplitTab"@.len() == 10);
    assert("UnSplitTab"@[0] != "NewTab"@[0]);
    reveal_strlit("ClosePane");
    lemma_action_names("ClosePane"@);
    lemma_binding_texts(keystroke, "workspace::SomClosePane"@);
    assert("ClosePane"@.len() == 9);
    assert("ClosePane"@[0] != "NewTab"@[0]);
    reveal_strlit("NextPane");
    lemma_action_names("NextPane"@);
    lemma_binding_texts(keystroke, "workspace::SomActivateNextPane"@);
    assert("NextPane"@.len() == 8);
    assert("NextPane"@[2] != "NewTab"@[2]);
    reveal_strlit("PrevPane");
    lemma_action_names("PrevPane"@);
    lemma_binding_texts(keystroke, "workspace::SomActivatePrevPane"@);
    assert("PrevPane"@.len() == 8);
    assert("PrevPane"@[0] != "NewTab"@[0]);
    reveal_strlit("NextTab");
    lemma_action_names("NextTab"@);
    lemma_binding_texts(keystroke, "workspace::SomActivateNextTab"@);
    assert("NextTab"@.len() == 7);
    assert("NextTab"@[2] != "NewTab"@[2]);
    reveal_strlit("PrevTab");
    lemma_action_names("PrevTab"@);
    lemma_binding_texts(keystroke, "workspace::SomActivatePrevTab"@);
    assert("PrevTab"@.len() == 7);
    assert("PrevTab"@[0] != "NewTab"@[0]);
    reveal_strlit("Quit");
    lemma_action_names("Quit"@);
    lemma_binding_texts(keystroke, "zed::Quit"@);
    assert("Quit"@.len() == 4);
    assert("Quit"@[0] != "NewTab"@[0]);
    reveal_strlit("IncreaseFont");
    lemma_action_names("IncreaseFont"@);
    lemma_binding_texts(keystroke, "zed::IncreaseBufferFontSize"@);
    assert("IncreaseFont"@.len() == 12);
    assert("IncreaseFont"@[0] != "NewTab"@[0]);
    reveal_strlit("DecreaseFont");
    lemma_action_names("DecreaseFont"@);
    lemma_binding_texts(keystroke, "zed::DecreaseBufferFontSize"@);
    assert("DecreaseFont"@.len() == 12);
    assert("DecreaseFont"@[0] != "NewTab"@[0]);
    reveal_strlit("ResetFont");
    lemma_action_names("ResetFont"@);
    lemma_binding_texts(keystroke, "zed::ResetBufferFontSize"@);
    assert("ResetFont"@.len() == 9);
    assert("ResetFont"@[0] != "NewTab"@[0]);
}

/// A key that opens a tab of profile number `number`, which there is: the profile's name and shell
/// are in the entry, each escaped so that it reads as itself.
pub proof fn lemma_profile_key(keystroke: Seq<char>, number: int, tabs: Seq<TabProfile>)
    requires
        !keystroke.contains('\\'),
        1 <= number <= 10,
        number <= tabs.len(),
    ensures
        ({
            let profile = tabs[number - 1];
            let start = "{ \"bindings\": { \""@ + keystroke + "\": [\"workspace::NewTerminal\", { \"tab_name\": \""@
                + with_char_replaced(profile.name@, '"', seq!['\\', '"']);
            key_entry(keystroke, "NewTab"@ + integer_text(number), tabs) == Some(
                match profile.shell {
                    Some(shell) => start + "\", \"shell\": \""@ + with_char_replaced(
                        with_char_replaced(shell@, '\\', seq!['\\', '\\']),
                        '"',
                        seq!['\\', '"'],
                    ) + "\" }] } }"@,
                    None => start + "\" }] } }"@,
                },
            )
        }),
{
    lemma_plain_kept(keystroke, '\\', "\\\\"@);
    lemma_numbered_tab(number, tabs);
    lemma_escapes();
    reveal_strlit("{ \"bindings\": { \"");
    reveal_strlit("\": ");
    reveal_strlit(" } }");
    reveal_strlit("[\"workspace::NewTerminal\", { \"tab_name\": \"");
    reveal_strlit("\", \"shell\": \"");
    reveal_strlit("\" }]");
    reveal_strlit("\": [\"workspace::NewTerminal\", { \"tab_name\": \"");
    reveal_strlit("\" }] } }");
    let profile = tabs[number - 1];
    let name = quotes_escaped(profile.name@);
    let start = "{ \"bindings\": { \""@ + keystroke + "\": [\"workspace::NewTerminal\", { \"tab_name\": \""@ + name;
    match profile.shell {
        Some(shell) => {
            let escaped = quotes_escaped(backslashes_doubled(shell@));
            assert(plain_binding(keystroke, open_profile(profile.name@, Some(shell@))) =~= start + "\", \"shell\": \""@
                + escaped + "\" }] } }"@);
        },
        None => {
            assert(plain_binding(keystroke, open_profile(profile.name@, None)) =~= start + "\" }] } }"@);
        },
    }
}

proof fn lemma_escapes()
    ensures
        "\\\\"@ == seq!['\\', '\\'],
        "\\\""@ == seq!['\\', '"'],
{
    reveal_strlit("\\\\");
    reveal_strlit("\\\"");
    assert("\\\\"@ =~= seq!['\\', '\\']);
    assert("\\\""@ =~= seq!['\\', '"']);
}

proof fn lemma_numbered_tab(number: int, tabs: Seq<TabProfile>)
    requires
        0 <= number <= usize::MAX,
    ensures
        new_tab_number("NewTab"@ + integer_text(number), tabs) == Some(number),
        "NewTab"@ + integer_text(number) != "NewTab"@,
{
    let action = "NewTab"@ + integer_text(number);
    crate::decimal::lemma_unsigned_round_trip(number as nat, usize::MAX as nat);
    assert("NewTab"@.is_prefix_of(action));
    assert(action.skip("NewTab"@.len() as int) =~= integer_text(number));
    assert(integer_text(number).len() > 0);
    assert(action.len() > "NewTab"@.len());
}

/// A key for a profile that does not exist opens no other one: it tells the number that is missing.
/// Only the first ten profiles have keys; any other number opens a tab that names no profile.
pub proof fn lemma_missing_profile_key(keystroke: Seq<char>, number: int, tabs: Seq<TabProfile>)
    requires
        !keystroke.contains('\\'),
        0 <= number <= usize::MAX,
        number == 0 || number > 10 || number > tabs.len(),
    ensures
        key_entry(keystroke, "NewTab"@ + integer_text(number), tabs) == Some(
            if 1 <= number <= 10 {
                "{ \"bindings\": { \""@ + keystroke
                    + "\": [\"workspace::NewTerminal\", { \"missing_profile_index\": "@ + integer_text(number)
                    + " }] } }"@
            } else {
                "{ \"bindings\": { \""@ + keystroke + "\": \"workspace::NewTerminal\" } }"@
            },
        ),
{
    lemma_plain_kept(keystroke, '\\', "\\\\"@);
    lemma_numbered_tab(number, tabs);
    lemma_bare_new_tab(keystroke);
    lemma_missing_new_tab(keystroke, number);
}

proof fn lemma_missing_new_tab(keystroke: Seq<char>, number: int)
    ensures
        plain_binding(keystroke, open_missing(number)) == "{ \"bindings\": { \""@ + keystroke
            + "\": [\"workspace::NewTerminal\", { \"missing_profile_index\": "@ + integer_text(number) + " }] } }"@,
{
    let digits = integer_text(number);
    reveal_strlit("{ \"bindings\": { \"");
    reveal_strlit("\": ");
    reveal_strlit(" } }");
    reveal_strlit("[\"workspace::NewTerminal\", { \"missing_profile_index\": ");
    reveal_strlit(" }]");
    reveal_strlit("\": [\"workspace::NewTerminal\", { \"missing_profile_index\": ");
    reveal_strlit(" }] } }");
    assert(plain_binding(keystroke, open_missing(number)) =~= "{ \"bindings\": { \""@ + keystroke
        + "\": [\"workspace::NewTerminal\", { \"missing_profile_index\": "@ + digits + " }] } }"@);
}

proof fn lemma_bare_new_tab(keystroke: Seq<char>)
    ensures
        plain_binding(keystroke, in_quotes("workspace::NewTerminal"@)) == "{ \"bindings\": { \""@ + keystroke
            + "\": \"workspace::NewTerminal\" } }"@,
{
    reveal_strlit("{ \"bindings\": { \"");
    reveal_strlit("\": ");
    reveal_strlit(" } }");
    reveal_strlit("\"");
    reveal_strlit("workspace::NewTerminal");
    reveal_strlit("\": \"workspace::NewTerminal\" } }");
    assert(plain_binding(keystroke, in_quotes("workspace::NewTerminal"@)) =~= "{ \"bindings\": { \""@ + keystroke
        + "\": \"workspace::NewTerminal\" } }"@);
}

/// The key for a plain new tab does what the key for the profile does that is marked as the default
/// one, the first of several. Where none is marked it does what the key for the first profile does.
pub proof fn lemma_plain_new_tab_key(keystroke: Seq<char>, tabs: Seq<TabProfile>, place: int)
    requires
        0 <= place < tabs.len(),
        place < 10,
        tabs[place].default || place == 0 && forall|i: int| 0 <= i < tabs.len() ==> !(#[trigger] tabs[i]).default,
        forall|i: int| 0 <= i < place ==> !(#[trigger] tabs[i]).default,
    ensures
        key_entry(keystroke, "NewTab"@, tabs) == key_entry(keystroke, "NewTab"@ + integer_text(place + 1), tabs),
{
    lemma_numbered_tab(place + 1, tabs);
    if tabs[place].default {
        lemma_default_position(tabs, place);
    } else {
        lemma_default_position(tabs, tabs.len() as int);
    }
}

/// What a text reads as in which a backslash stands before every quote and every backslash.
pub open spec fn unescaped(s: Seq<char>) -> Option<Seq<char>>
    decreases s.len(),
{
    if s.len() == 0 {
        Some(Seq::empty())
    } else if s[0] == '"' {
        None
    } else if s[0] == '\\' {
        if s.len() >= 2 && (s[1] == '\\' || s[1] == '"') {
            match unescaped(s.skip(2)) {
                Some(rest) => Some(seq![s[1]] + rest),
                None => None,
            }
        } else {
            None
        }
    } else {
        match unescaped(s.skip(1)) {
            Some(rest) => Some(seq![s[0]] + rest),
            None => None,
        }
    }
}

proof fn lemma_escaped_front(s: Seq<char>)
    requires
        s.len() > 0,
    ensures
        quotes_escaped(backslashes_doubled(s)) == (if s[0] == '\\' || s[0] == '"' {
            seq!['\\', s[0]]
        } else {
            seq![s[0]]
        }) + quotes_escaped(backslashes_doubled(s.skip(1))),
{
    lemma_escapes();
    let head = seq![s[0]];
    let rest = s.skip(1);
    assert(head + rest =~= s);
    crate::text::lemma_replaced_concat(head, rest, '\\', "\\\\"@);
    crate::text::lemma_replaced_concat(backslashes_doubled(head), backslashes_doubled(rest), '"', "\\\""@);
    reveal_with_fuel(with_char_replaced, 3);
    assert(head.drop_last() =~= Seq::<char>::empty());
    if s[0] == '\\' {
        let two = seq!['\\', '\\'];
        assert(backslashes_doubled(head) =~= two);
        assert(two.drop_last() =~= seq!['\\']);
        assert(seq!['\\'].drop_last() =~= Seq::<char>::empty());
        assert(quotes_escaped(two) =~= two);
    } else {
        assert(backslashes_doubled(head) =~= head);
        if s[0] == '"' {
            assert(quotes_escaped(head) =~= seq!['\\', '"']);
        } else {
            assert(quotes_escaped(head) =~= head);
        }
    }
}

/// A shell that is written into the keymap reads as the shell that was given, whatever characters it
/// holds.
pub proof fn lemma_escaped_read_back(s: Seq<char>)
    ensures
        unescaped(quotes_escaped(backslashes_doubled(s))) == Some(s),
    decreases s.len(),
{
    if s.len() == 0 {
        assert(s =~= Seq::<char>::empty());
        assert(quotes_escaped(backslashes_doubled(s)) =~= Seq::<char>::empty());
    } else {
        let rest = s.skip(1);
        lemma_escaped_front(s);
        lemma_escaped_read_back(rest);
        let all = quotes_escaped(backslashes_doubled(s));
        let tail = quotes_escaped(backslashes_doubled(rest));
        if s[0] == '\\' || s[0] == '"' {
            assert(all.skip(2) =~= tail);
        } else {
            assert(all.skip(1) =~= tail);
        }
        assert(seq![s[0]] + rest =~= s);
    }
}

/// The keys that are always there, before those of the settings: the arrows, tab, enter and escape
/// in menus, and those of the font's size.
pub proof fn lemma_built_in_keys()
    ensures
        built_in_entries() == seq![
            "{ \"context\": \"menu\", \"bindings\": { \"up\": \"menu::SelectPrevious\" } }"@,
            "{ \"context\": \"menu\", \"bindings\": { \"down\": \"menu::SelectNext\" } }"@,
            "{ \"context\": \"menu\", \"bindings\": { \"tab\": \"menu::SelectNext\" } }"@,
            "{ \"context\": \"menu\", \"bindings\": { \"enter\": \"menu::Confirm\" } }"@,
            "{ \"context\": \"menu\", \"bindings\": { \"escape\": \"menu::Cancel\" } }"@,
            "{ \"bindings\": { \"ctrl-=\": [\"zed::IncreaseBufferFontSize\", { \"persist\": false }] } }"@,
            "{ \"bindings\": { \"ctrl--\": [\"zed::DecreaseBufferFontSize\", { \"persist\": false }] } }"@,
        ],
{
    reveal_strlit("{ \"context\": \"");
    reveal_strlit("\", \"bindings\": { \"");
    reveal_strlit("\": ");
    reveal_strlit(" } }");
    reveal_strlit("\"");
    reveal_strlit("[\"");
    reveal_strlit("\", { \"persist\": false }]");
    reveal_strlit("{ \"bindings\": { \"");
    reveal_strlit("menu");
    reveal_strlit("up");
    reveal_strlit("down");
    reveal_strlit("tab");
    reveal_strlit("enter");
    reveal_strlit("escape");
    reveal_strlit("ctrl-=");
    reveal_strlit("ctrl--");
    reveal_strlit("menu::SelectPrevious");
    reveal_strlit("menu::SelectNext");
    reveal_strlit("menu::Confirm");
    reveal_strlit("menu::Cancel");
    reveal_strlit("zed::IncreaseBufferFontSize");
    reveal_strlit("zed::DecreaseBufferFontSize");
    reveal_strlit("{ \"context\": \"menu\", \"bindings\": { \"up\": \"menu::SelectPrevious\" } }");
    reveal_strlit("{ \"context\": \"menu\", \"bindings\": { \"down\": \"menu::SelectNext\" } }");
    reveal_strlit("{ \"context\": \"menu\", \"bindings\": { \"tab\": \"menu::SelectNext\" } }");
    reveal_strlit("{ \"context\": \"menu\", \"bindings\": { \"enter\": \"menu::Confirm\" } }");
    reveal_strlit("{ \"context\": \"menu\", \"bindings\": { \"escape\": \"menu::Cancel\" } }");
    reveal_strlit("{ \"bindings\": { \"ctrl-=\": [\"zed::IncreaseBufferFontSize\", { \"persist\": false }] } }");
    reveal_strlit("{ \"bindings\": { \"ctrl--\": [\"zed::DecreaseBufferFontSize\", { \"persist\": false }] } }");
    assert(built_in_entries()[0] =~= "{ \"context\": \"menu\", \"bindings\": { \"up\": \"menu::SelectPrevious\" } }"@);
    assert(built_in_entries()[1] =~= "{ \"context\": \"menu\", \"bindings\": { \"down\": \"menu::SelectNext\" } }"@);
    assert(built_in_entries()[2] =~= "{ \"context\": \"menu\", \"bindings\": { \"tab\": \"menu::SelectNext\" } }"@);
    assert(built_in_entries()[3] =~= "{ \"context\": \"menu\", \"bindings\": { \"enter\": \"menu::Confirm\" } }"@);
    assert(built_in_entries()[4] =~= "{ \"context\": \"menu\", \"bindings\": { \"escape\": \"menu::Cancel\" } }"@);
    assert(built_in_entries()[5] =~= "{ \"bindings\": { \"ctrl-=\": [\"zed::IncreaseBufferFontSize\", { \"persist\": false }] } }"@);
    assert(built_in_entries()[6] =~= "{ \"bindings\": { \"ctrl--\": [\"zed::DecreaseBufferFontSize\", { \"persist\": false }] } }"@);
}

/// Every key of the settings whose action is known has its entry in the keymap, none has another, and
/// a key that stands before another in the settings stands before it in the keymap.
pub proof fn lemma_every_key_bound(keys: Seq<(Seq<char>, Seq<char>)>, n: int, tabs: Seq<TabProfile>)
    requires
        0 <= n <= keys.len(),
    ensures
        ({
            let entries = key_entries_of(keys, n, tabs);
            exists|places: Seq<int>| #[trigger] strictly_growing(places) && places.len() == entries.len() && (forall|i: int|
                0 <= i < n ==> (places.contains(i) <==> (#[trigger] key_entry(keys[i].0, keys[i].1, tabs)) is Some))
                && (forall|k: int|
                0 <= k < places.len() ==> 0 <= #[trigger] places[k] < n && key_entry(
                    keys[places[k]].0,
                    keys[places[k]].1,
                    tabs,
                ) == Some(entries[k]))
        }),
    decreases n,
{
    if n == 0 {
        let places = Seq::<int>::empty();
        assert(strictly_growing(places));
    } else {
        lemma_every_key_bound(keys, n - 1, tabs);
        let before = key_entries_of(keys, n - 1, tabs);
        let old_places = choose|places: Seq<int>| #[trigger] strictly_growing(places) && places.len() == before.len() && (
        forall|i: int|
            0 <= i < n - 1 ==> (places.contains(i) <==> (#[trigger] key_entry(keys[i].0, keys[i].1, tabs)) is Some))
            && (forall|k: int|
            0 <= k < places.len() ==> 0 <= #[trigger] places[k] < n - 1 && key_entry(
                keys[places[k]].0,
                keys[places[k]].1,
                tabs,
            ) == Some(before[k]));
        let entries = key_entries_of(keys, n, tabs);
        if key_entry(keys[n - 1].0, keys[n - 1].1, tabs) is Some {
            let places = old_places.push(n - 1);
            assert(strictly_growing(places));
            assert(places[places.len() - 1] == n - 1);
            assert forall|i: int| 0 <= i < n implies (places.contains(i) <==> (#[trigger] key_entry(
                keys[i].0,
                keys[i].1,
                tabs,
            )) is Some) by {
                if i < n - 1 {
                    if old_places.contains(i) {
                        let k = choose|k: int| 0 <= k < old_places.len() && old_places[k] == i;
                        assert(places[k] == i);
                    }
                    if places.contains(i) {
                        let k = choose|k: int| 0 <= k < places.len() && places[k] == i;
                        assert(old_places[k] == i);
                    }
                }
            }
        } else {
            assert(strictly_growing(old_places));
            assert(!old_places.contains(n - 1));
        }
    }
}

/// The numbers grow.
pub open spec fn strictly_growing(s: Seq<int>) -> bool {
    forall|i: int, j: int| 0 <= i < j < s.len() ==> s[i] < s[j]
}

/// The keymap is a list: the entries that are always there and those of the settings, between
/// brackets and with commas between them.
pub proof fn lemma_keymap_list(keys: Seq<(Seq<char>, Seq<char>)>, tabs: Seq<TabProfile>)
    ensures
        keymap_json(keys, tabs).len() >= 2,
        keymap_json(keys, tabs)[0] == '[',
        keymap_json(keys, tabs).last() == ']',
        keymap_json(keys, tabs).subrange(1, keymap_json(keys, tabs).len() - 1) == joined(
            built_in_entries() + key_entries_of(keys, keys.len() as int, tabs),
            seq![',', ' '],
        ),
{
    reveal_strlit("[");
    reveal_strlit("]");
    reveal_strlit(", ");
    assert(", "@ =~= seq![',', ' ']);
    let inside = joined(built_in_entries() + key_entries_of(keys, keys.len() as int, tabs), ", "@);
    assert(keymap_json(keys, tabs).subrange(1, keymap_json(keys, tabs).len() - 1) =~= inside);
}

/// The window is placed as its mode says, and as an ordinary one where the mode is none of the others.
pub proof fn lemma_window_modes(mode: Option<Seq<char>>)
    ensures
        window_mode_of(mode) == WindowMode::Maximized <==> mode == Some("maximized"@),
        window_mode_of(mode) == WindowMode::Minimized <==> mode == Some("minimized"@),
        window_mode_of(mode) == WindowMode::Fullscreen <==> mode == Some("fullscreen"@),
{
    reveal_strlit("maximized");
    reveal_strlit("minimized");
    reveal_strlit("fullscreen");
    assert("maximized"@.len() == 9);
    assert("minimized"@.len() == 9);
    assert("fullscreen"@.len() == 10);
    assert("maximized"@[1] != "minimized"@[1]);
}

} // verus!
