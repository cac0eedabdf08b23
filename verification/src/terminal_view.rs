//! The view of one terminal: its state, and what it does when something happens.

use vstd::prelude::*;
use crate::decimal::{integer_text, unsigned_text};
use crate::layout::GridPoint;
use crate::pane_id::is_pane_id;
use crate::shell::{
    rebuild_tmux_shell_with_fresh_pane_id, with_pane_id, CursorShape, Shell,
};
use crate::som_db::{lemma_tab_round_trip, tab_of, tab_text, TabModel};
use crate::text::{
    all_white_space, clone_opt, lemma_blank_trimmed, opt_text, push_text, same_text, texts, trim, trimmed,
};

verus! {

/// Where the view is shown.
#[derive(Debug, Clone, Copy, PartialEq, Eq, Structural)]
pub enum TerminalMode {
    /// On its own.
    Standalone,
    /// Inside something else, with a limit on its lines while it has no focus.
    Embedded { max_lines_when_unfocused: Option<usize> },
}

/// How much of the content is shown.
#[derive(Debug, Clone, Copy, PartialEq, Eq, Structural)]
pub enum ContentMode {
    Scrollable,
    Inline { displayed_lines: usize, total_lines: usize },
}

impl ContentMode {
    /// Whether some lines are left out.
    pub fn is_limited(&self) -> (r: bool)
        ensures
            r == (match *self {
                ContentMode::Scrollable => false,
                ContentMode::Inline { displayed_lines, total_lines } => displayed_lines < total_lines,
            }),
    {
        match self {
            ContentMode::Scrollable => false,
            ContentMode::Inline { displayed_lines, total_lines } => *displayed_lines < *total_lines,
        }
    }

    pub fn is_scrollable(&self) -> (r: bool)
        ensures
            r == (*self is Scrollable),
    {
        matches!(self, ContentMode::Scrollable)
    }
}

/// More lines than this are never shown at once.
pub const MAX_EMBEDDED_LINES: usize = 1_000;

/// Whether the cursor blinks.
#[derive(Debug, Clone, Copy, PartialEq, Eq, Structural)]
pub enum TerminalBlink {
    Off,
    TerminalControlled,
    On,
}

/// A word under the mouse.
#[derive(Debug)]
pub struct HoveredWord {
    pub word: String,
    pub start: GridPoint,
    pub end: GridPoint,
    pub id: usize,
}

/// A link under the mouse, and what is told of it.
#[derive(Debug)]
pub struct HoverTarget {
    pub tooltip: String,
    pub hovered_word: HoveredWord,
}

#[verifier::ext_equal]
pub struct WordModel {
    pub word: Seq<char>,
    pub start: GridPoint,
    pub end: GridPoint,
    pub id: usize,
}

impl View for HoveredWord {
    type V = WordModel;

    open spec fn view(&self) -> WordModel {
        WordModel { word: self.word@, start: self.start, end: self.end, id: self.id }
    }
}

#[verifier::ext_equal]
pub struct HoverModel {
    pub tooltip: Seq<char>,
    pub word: WordModel,
}

pub open spec fn hover_model(hover: Option<HoverTarget>) -> Option<HoverModel> {
    match hover {
        Some(h) => Some(HoverModel { tooltip: h.tooltip@, word: h.hovered_word@ }),
        None => None,
    }
}

impl HoveredWord {
    fn copy(&self) -> (r: HoveredWord)
        ensures
            r@ == self@,
    {
        HoveredWord { word: self.word.clone(), start: self.start, end: self.end, id: self.id }
    }

    fn same(&self, other: &HoveredWord) -> (r: bool)
        ensures
            r == (self@ == other@),
    {
        same_text(self.word.as_str(), other.word.as_str()) && self.start == other.start && self.end
            == other.end && self.id == other.id
    }
}

/// Where a link leads.
#[derive(Debug)]
pub enum MaybeNavigationTarget {
    Url(String),
    PathLike,
}

/// What a terminal reports.
#[derive(Debug)]
pub enum Event {
    Wakeup,
    Bell,
    BlinkChanged(bool),
    TitleChanged,
    NewNavigationTarget(Option<MaybeNavigationTarget>),
    Open(MaybeNavigationTarget),
    BreadcrumbsChanged,
    CloseTerminal,
    SelectionsChanged,
}

/// What the view makes of it.
#[derive(Debug)]
pub enum ViewEffect {
    Notify,
    EmitWakeup,
    EmitUpdateTab,
    EmitMatchesInvalidated,
    PlaySystemBell,
    EnableBlinking,
    DisableBlinking,
    OpenUrl(String),
    EmitUpdateBreadcrumbs,
    EmitCloseItem,
    InvalidateCharacterCoordinates,
    EmitActiveMatchChanged,
}

pub enum EffectModel {
    Notify,
    EmitWakeup,
    EmitUpdateTab,
    EmitMatchesInvalidated,
    PlaySystemBell,
    EnableBlinking,
    DisableBlinking,
    OpenUrl(Seq<char>),
    EmitUpdateBreadcrumbs,
    EmitCloseItem,
    InvalidateCharacterCoordinates,
    EmitActiveMatchChanged,
}

impl View for ViewEffect {
    type V = EffectModel;

    open spec fn view(&self) -> EffectModel {
        match self {
            ViewEffect::Notify => EffectModel::Notify,
            ViewEffect::EmitWakeup => EffectModel::EmitWakeup,
            ViewEffect::EmitUpdateTab => EffectModel::EmitUpdateTab,
            ViewEffect::EmitMatchesInvalidated => EffectModel::EmitMatchesInvalidated,
            ViewEffect::PlaySystemBell => EffectModel::PlaySystemBell,
            ViewEffect::EnableBlinking => EffectModel::EnableBlinking,
            ViewEffect::DisableBlinking => EffectModel::DisableBlinking,
            ViewEffect::OpenUrl(url) => EffectModel::OpenUrl(url@),
            ViewEffect::EmitUpdateBreadcrumbs => EffectModel::EmitUpdateBreadcrumbs,
            ViewEffect::EmitCloseItem => EffectModel::EmitCloseItem,
            ViewEffect::InvalidateCharacterCoordinates => EffectModel::InvalidateCharacterCoordinates,
            ViewEffect::EmitActiveMatchChanged => EffectModel::EmitActiveMatchChanged,
        }
    }
}

pub open spec fn effect_models(effects: Seq<ViewEffect>) -> Seq<EffectModel> {
    effects.map_values(|e: ViewEffect| e@)
}

/// What has to be known of the surroundings when something is reported.
#[derive(Debug)]
pub struct EventContext {
    pub working_directory: Option<String>,
    pub blinking: TerminalBlink,
    pub system_bell: bool,
    pub focused: bool,
    pub last_hovered_word: Option<HoveredWord>,
}

/// What is saved of a view. A directory that is not known leaves the saved one as it is.
#[derive(Debug, PartialEq, Eq)]
pub struct SavedView {
    pub workspace_id: i64,
    pub working_directory: Option<String>,
    pub custom_title: Option<String>,
}

/// The view of one terminal. Lengths are in thousandths of a pixel.
#[derive(Debug)]
pub struct TerminalView {
    pub has_bell: bool,
    pub cursor_shape: CursorShape,
    pub mode: TerminalMode,
    pub blinking_terminal_enabled: bool,
    pub needs_serialize: bool,
    pub custom_title: Option<String>,
    pub custom_icon: Option<String>,
    pub hover: Option<HoverTarget>,
    pub workspace_id: Option<i64>,
    pub show_breadcrumbs: bool,
    /// The height, in lines, of what is shown below the cursor.
    pub block_below_cursor: Option<u8>,
    pub scroll_top: i64,
    /// The text that is being composed.
    pub marked_text: Option<String>,
    pub previous_cwd: Option<String>,
}

/// How many units of sixteen bits a text takes.
pub open spec fn utf16_len(s: Seq<char>) -> nat
    decreases s.len(),
{
    if s.len() == 0 {
        0
    } else {
        utf16_len(s.drop_last()) + (if (s.last() as u32) < 0x10000 {
            1nat
        } else {
            2
        })
    }
}

/// How many units of sixteen bits a text takes; at most as many as the numbers reach.
pub fn count_utf16(s: &str) -> (r: usize)
    ensures
        r == (if utf16_len(s@) <= usize::MAX {
            utf16_len(s@) as int
        } else {
            usize::MAX as int
        }),
{
    let chars = crate::text::chars_of(s);
    let mut n: u128 = 0;
    let mut i: usize = 0;
    assert(s@.take(0) =~= Seq::<char>::empty());
    while i < chars.len()
        invariant
            chars@ == s@,
            i <= chars@.len(),
            n == utf16_len(s@.take(i as int)),
            n <= 2 * i,
        decreases chars@.len() - i,
    {
        assert(s@.take(i + 1).drop_last() =~= s@.take(i as int));
        if (chars[i] as u32) < 0x10000 {
            n += 1;
        } else {
            n += 2;
        }
        i += 1;
    }
    assert(s@.take(i as int) =~= s@);
    if n <= usize::MAX as u128 {
        n as usize
    } else {
        usize::MAX
    }
}

/// A title that shows something.
pub open spec fn shown_title(title: Option<Seq<char>>) -> Option<Seq<char>> {
    match title {
        Some(t) => if trimmed(t).len() > 0 {
            Some(t)
        } else {
            None
        },
        None => None,
    }
}

fn keep_shown(title: Option<String>) -> (r: Option<String>)
    ensures
        opt_text(r) == shown_title(opt_text(title)),
        r is Some ==> r == title,
{
    match title {
        Some(t) => {
            let rest = trim(t.as_str());
            if rest.as_str().unicode_len() > 0 {
                Some(t)
            } else {
                None
            }
        },
        None => None,
    }
}

/// Whether two optional texts are the same.
pub fn same_opt(a: &Option<String>, b: &Option<String>) -> (r: bool)
    ensures
        r == (opt_text(*a) == opt_text(*b)),
{
    match (a, b) {
        (Some(x), Some(y)) => same_text(x.as_str(), y.as_str()),
        (None, None) => true,
        _ => false,
    }
}

/// Whether the cursor blinks.
pub open spec fn blinks(setting: TerminalBlink, enabled_by_terminal: bool) -> bool {
    match setting {
        TerminalBlink::Off => false,
        TerminalBlink::On => true,
        TerminalBlink::TerminalControlled => enabled_by_terminal,
    }
}

fn should_blink(setting: TerminalBlink, enabled_by_terminal: bool) -> (r: bool)
    ensures
        r == blinks(setting, enabled_by_terminal),
{
    match setting {
        TerminalBlink::Off => false,
        TerminalBlink::On => true,
        TerminalBlink::TerminalControlled => enabled_by_terminal,
    }
}

/// What a change of the settings leads to.
#[derive(Debug, Clone, Copy, PartialEq, Eq, Structural)]
pub struct SettingsEffects {
    /// The terminal gets this cursor shape.
    pub cursor_shape: Option<CursorShape>,
    pub blink: bool,
    pub update_breadcrumbs: bool,
}

/// How far the block below the cursor can be scrolled up, in lines: by what does not fit under
/// the cursor.
pub fn max_scroll_lines(block_height: u8, viewport_lines: usize, cursor_line: usize) -> (r: usize)
    requires
        cursor_line < usize::MAX,
    ensures
        r == ({
            let below = if viewport_lines > cursor_line + 1 {
                viewport_lines - cursor_line - 1
            } else {
                0
            };
            if block_height > below {
                block_height - below
            } else {
                0
            }
        }),
{
    (block_height as usize).saturating_sub(viewport_lines.saturating_sub(cursor_line + 1))
}

/// What scrolling does to the terminal.
#[derive(Debug, Clone, Copy, PartialEq, Eq, Structural)]
pub enum ScrollAction {
    /// The keystroke is the program's.
    Propagate,
    /// Only the block below the cursor moves.
    Nothing,
    LineUp,
    LineDown,
    PageUp,
    PageDown,
    Top,
    Bottom,
    /// So many lines up.
    UpBy(usize),
    /// The wheel goes to the terminal.
    Wheel,
}

/// Where the hover goes with a new target.
pub open spec fn hover_after(
    hover: Option<HoverModel>,
    target: Option<MaybeNavigationTarget>,
    word: Option<WordModel>,
) -> Option<HoverModel> {
    match (target, word) {
        (Some(MaybeNavigationTarget::Url(url)), Some(w)) => if hover matches Some(h) && h.word == w {
            hover
        } else {
            Some(HoverModel { tooltip: url@, word: w })
        },
        _ => None,
    }
}

pub open spec fn word_model(word: Option<HoveredWord>) -> Option<WordModel> {
    match word {
        Some(w) => Some(w@),
        None => None,
    }
}

/// What the view makes of a report.
pub open spec fn effects_of(
    event: Event,
    hover: Option<HoverModel>,
    context: EventContext,
) -> Seq<EffectModel> {
    match event {
        Event::Wakeup => seq![
            EffectModel::Notify,
            EffectModel::EmitWakeup,
            EffectModel::EmitUpdateTab,
            EffectModel::EmitMatchesInvalidated,
        ],
        Event::Bell => if context.system_bell {
            seq![EffectModel::PlaySystemBell, EffectModel::EmitWakeup]
        } else {
            seq![EffectModel::EmitWakeup]
        },
        Event::BlinkChanged(on) => if context.blinking == TerminalBlink::TerminalControlled
            && context.focused {
            if on {
                seq![EffectModel::EnableBlinking]
            } else {
                seq![EffectModel::DisableBlinking]
            }
        } else {
            Seq::empty()
        },
        Event::TitleChanged => seq![EffectModel::EmitUpdateTab],
        Event::NewNavigationTarget(target) => match (target, word_model(context.last_hovered_word)) {
            (Some(MaybeNavigationTarget::Url(_)), Some(w)) => if hover matches Some(h) && h.word == w {
                Seq::empty()
            } else {
                seq![EffectModel::Notify]
            },
            _ => seq![EffectModel::Notify],
        },
        Event::Open(MaybeNavigationTarget::Url(url)) => seq![EffectModel::OpenUrl(url@)],
        Event::Open(MaybeNavigationTarget::PathLike) => Seq::empty(),
        Event::BreadcrumbsChanged => seq![EffectModel::EmitUpdateBreadcrumbs],
        Event::CloseTerminal => seq![EffectModel::EmitCloseItem],
        Event::SelectionsChanged => seq![
            EffectModel::InvalidateCharacterCoordinates,
            EffectModel::EmitActiveMatchChanged,
        ],
    }
}

/// How much of the content is shown. Too much content is scrolled even inside something else.
pub open spec fn content_mode_of(mode: TerminalMode, total_lines: usize, focused: bool) -> ContentMode {
    match mode {
        TerminalMode::Standalone => ContentMode::Scrollable,
        TerminalMode::Embedded { max_lines_when_unfocused } => if total_lines > MAX_EMBEDDED_LINES {
            ContentMode::Scrollable
        } else {
            ContentMode::Inline {
                displayed_lines: match max_lines_when_unfocused {
                    Some(max) => if !focused && max < total_lines {
                        max
                    } else {
                        total_lines
                    },
                    None => total_lines,
                },
                total_lines,
            }
        },
    }
}

/// The view of a new terminal.
pub open spec fn new_view(workspace_id: Option<i64>, cursor_shape: CursorShape, show_breadcrumbs: bool) -> TerminalView {
    TerminalView {
        has_bell: false,
        cursor_shape,
        mode: TerminalMode::Standalone,
        blinking_terminal_enabled: false,
        needs_serialize: false,
        custom_title: None,
        custom_icon: None,
        hover: None,
        workspace_id,
        show_breadcrumbs,
        block_below_cursor: None,
        scroll_top: 0,
        marked_text: None,
        previous_cwd: None,
    }
}

impl TerminalView {
    /// The view of a new terminal. A title that was given has to be saved.
    pub fn new_with_title_and_icon(
        workspace_id: Option<i64>,
        tab_name: Option<String>,
        tab_icon: Option<String>,
        cursor_shape: CursorShape,
        show_breadcrumbs: bool,
    ) -> (r: TerminalView)
        ensures
            r == (TerminalView {
                needs_serialize: tab_name is Some,
                custom_title: tab_name,
                custom_icon: tab_icon,
                ..new_view(workspace_id, cursor_shape, show_breadcrumbs)
            }),
    {
        TerminalView {
            has_bell: false,
            cursor_shape,
            mode: TerminalMode::Standalone,
            blinking_terminal_enabled: false,
            needs_serialize: tab_name.is_some(),
            custom_title: tab_name,
            custom_icon: tab_icon,
            hover: None,
            workspace_id,
            show_breadcrumbs,
            block_below_cursor: None,
            scroll_top: 0,
            marked_text: None,
            previous_cwd: None,
        }
    }

    /// The view of a new terminal with a title but no icon.
    pub fn new_with_title(
        workspace_id: Option<i64>,
        tab_name: Option<String>,
        cursor_shape: CursorShape,
        show_breadcrumbs: bool,
    ) -> (r: TerminalView)
        ensures
            r.custom_title == tab_name,
            r.needs_serialize == tab_name is Some,
            r == (TerminalView {
                custom_title: r.custom_title,
                needs_serialize: r.needs_serialize,
                ..new_view(workspace_id, cursor_shape, show_breadcrumbs)
            }),
    {
        Self::new_with_title_and_icon(workspace_id, tab_name, None, cursor_shape, show_breadcrumbs)
    }

    /// The view of a new terminal that is called what the terminal is.
    pub fn new(workspace_id: Option<i64>, cursor_shape: CursorShape, show_breadcrumbs: bool) -> (r: TerminalView)
        ensures
            r == new_view(workspace_id, cursor_shape, show_breadcrumbs),
    {
        Self::new_with_title(workspace_id, None, cursor_shape, show_breadcrumbs)
    }

    /// Whether the terminal has rung since a key was last pressed.
    pub fn has_bell(&self) -> (r: bool)
        ensures
            r == self.has_bell,
    {
        self.has_bell
    }

    /// The title that the tab was given.
    pub fn custom_title(&self) -> (r: Option<&str>)
        ensures
            (match r {
                Some(title) => Some(title@),
                None => None,
            }) == opt_text(self.custom_title),
    {
        match &self.custom_title {
            Some(title) => Some(title.as_str()),
            None => None,
        }
    }

    /// Shows the view inside something else.
    pub fn set_embedded_mode(&mut self, max_lines_when_unfocused: Option<usize>)
        ensures
            *final(self) == (TerminalView {
                mode: TerminalMode::Embedded { max_lines_when_unfocused },
                ..*old(self)
            }),
    {
        self.mode = TerminalMode::Embedded { max_lines_when_unfocused };
    }

    /// How much of the content is shown.
    pub fn content_mode(&self, total_lines: usize, focused: bool) -> (r: ContentMode)
        ensures
            r == content_mode_of(self.mode, total_lines, focused),
    {
        match self.mode {
            TerminalMode::Standalone => ContentMode::Scrollable,
            TerminalMode::Embedded { max_lines_when_unfocused } => {
                if total_lines > MAX_EMBEDDED_LINES {
                    return ContentMode::Scrollable;
                }
                let mut displayed_lines: usize = total_lines;
                if !focused {
                    if let Some(max) = max_lines_when_unfocused {
                        if max < displayed_lines {
                            displayed_lines = max;
                        }
                    }
                }
                ContentMode::Inline { displayed_lines, total_lines }
            },
        }
    }

    /// Sets the text that is being composed. The result tells whether anything changed on the
    /// screen.
    pub fn set_marked_text(&mut self, text: String) -> (r: bool)
        ensures
            *final(self) == (TerminalView {
                marked_text: if text@.len() == 0 {
                    None
                } else {
                    Some(text)
                },
                ..*old(self)
            }),
            r == (text@.len() > 0 || old(self).marked_text is Some),
    {
        if text.as_str().unicode_len() == 0 {
            return self.clear_marked_text();
        }
        self.marked_text = Some(text);
        true
    }

    /// The range of the text that is being composed, in units of sixteen bits.
    pub fn marked_text_range(&self) -> (r: Option<(usize, usize)>)
        ensures
            match self.marked_text {
                Some(t) => r matches Some((from, to)) && from == 0 && (utf16_len(t@) <= usize::MAX ==> to
                    == utf16_len(t@)),
                None => r is None,
            },
    {
        match &self.marked_text {
            Some(t) => Some((0, count_utf16(t.as_str()))),
            None => None,
        }
    }

    /// Drops the text that is being composed, and tells whether there was any.
    pub fn clear_marked_text(&mut self) -> (r: bool)
        ensures
            *final(self) == (TerminalView { marked_text: None, ..*old(self) }),
            r == (old(self).marked_text is Some),
    {
        if self.marked_text.is_some() {
            self.marked_text = None;
            true
        } else {
            false
        }
    }

    /// What is sent to the terminal when text has been composed: nothing for no text.
    pub fn commit_text(&self, text: &str) -> (r: Option<String>)
        ensures
            opt_text(r) == (if text@.len() > 0 {
                Some(text@)
            } else {
                None
            }),
    {
        if text.unicode_len() > 0 {
            Some(String::from_str(text))
        } else {
            None
        }
    }

    /// Gives the tab a title of its own, or takes it away; a title of white space is none. The
    /// result tells whether the title changed.
    pub fn set_custom_title(&mut self, label: Option<String>) -> (r: bool)
        ensures
            opt_text(final(self).custom_title) == shown_title(opt_text(label)),
            r == (opt_text(old(self).custom_title) != shown_title(opt_text(label))),
            *final(self) == (TerminalView {
                custom_title: final(self).custom_title,
                needs_serialize: old(self).needs_serialize || r,
                ..*old(self)
            }),
    {
        let label = keep_shown(label);
        if same_opt(&self.custom_title, &label) {
            false
        } else {
            self.custom_title = label;
            self.needs_serialize = true;
            true
        }
    }

    /// Takes the bell away. What the view then reports comes back: that it has to be looked at.
    pub fn clear_bell(&mut self) -> (r: ViewEffect)
        ensures
            *final(self) == (TerminalView { has_bell: false, ..*old(self) }),
            r@ == EffectModel::EmitWakeup,
    {
        self.has_bell = false;
        ViewEffect::EmitWakeup
    }

    /// Takes over changed settings.
    pub fn settings_changed(
        &mut self,
        breadcrumbs: bool,
        blinking: TerminalBlink,
        cursor_shape: CursorShape,
    ) -> (r: SettingsEffects)
        ensures
            *final(self) == (TerminalView { show_breadcrumbs: breadcrumbs, cursor_shape, ..*old(self) }),
            r == (SettingsEffects {
                cursor_shape: if old(self).cursor_shape != cursor_shape {
                    Some(cursor_shape)
                } else {
                    None
                },
                blink: blinks(blinking, old(self).blinking_terminal_enabled),
                update_breadcrumbs: old(self).show_breadcrumbs != breadcrumbs,
            }),
    {
        let update_breadcrumbs = self.show_breadcrumbs != breadcrumbs;
        self.show_breadcrumbs = breadcrumbs;
        let changed = if self.cursor_shape != cursor_shape {
            self.cursor_shape = cursor_shape;
            Some(cursor_shape)
        } else {
            None
        };
        SettingsEffects {
            cursor_shape: changed,
            blink: should_blink(blinking, self.blinking_terminal_enabled),
            update_breadcrumbs,
        }
    }

    /// Empties the terminal: nothing is scrolled any more.
    pub fn clear(&mut self)
        ensures
            *final(self) == (TerminalView { scroll_top: 0, ..*old(self) }),
    {
        self.scroll_top = 0;
    }

    /// The block below the cursor, where it is scrolled before the terminal is.
    pub open spec fn block_scrolls(self, display_offset: usize) -> bool {
        self.block_below_cursor is Some && display_offset == 0
    }

    /// Turns the wheel. The block below the cursor moves first, between its limits; else the
    /// terminal does.
    pub fn scroll_wheel(&mut self, display_offset: usize, delta: i64, max_scroll_top: i64) -> (r: ScrollAction)
        requires
            i64::MIN <= old(self).scroll_top - delta <= i64::MAX,
        ensures
            ({
                let moves = old(self).block_scrolls(display_offset) && (delta < 0 || old(self).scroll_top > 0);
                let wanted = old(self).scroll_top - delta;
                let limited = if wanted < max_scroll_top {
                    wanted
                } else {
                    max_scroll_top as int
                };
                &&& r == (if moves {
                    ScrollAction::Nothing
                } else {
                    ScrollAction::Wheel
                })
                &&& *final(self) == (TerminalView {
                    scroll_top: if !moves {
                        old(self).scroll_top
                    } else if limited > 0 {
                        limited as i64
                    } else {
                        0
                    },
                    ..*old(self)
                })
            }),
    {
        if self.block_below_cursor.is_some() && display_offset == 0 && (delta < 0 || self.scroll_top > 0) {
            let wanted: i64 = self.scroll_top - delta;
            let limited: i64 = if wanted < max_scroll_top {
                wanted
            } else {
                max_scroll_top
            };
            self.scroll_top = if limited > 0 {
                limited
            } else {
                0
            };
            return ScrollAction::Nothing;
        }
        ScrollAction::Wheel
    }

    /// Scrolls one line up.
    pub fn scroll_line_up(&mut self, alt_screen: bool, display_offset: usize, line_height: i64) -> (r:
        ScrollAction)
        requires
            line_height >= 0,
        ensures
            ({
                let moves = !alt_screen && old(self).block_scrolls(display_offset) && old(self).scroll_top > 0;
                &&& r == (if alt_screen {
                    ScrollAction::Propagate
                } else if moves {
                    ScrollAction::Nothing
                } else {
                    ScrollAction::LineUp
                })
                &&& *final(self) == (TerminalView {
                    scroll_top: if !moves {
                        old(self).scroll_top
                    } else if old(self).scroll_top > line_height {
                        (old(self).scroll_top - line_height) as i64
                    } else {
                        0
                    },
                    ..*old(self)
                })
            }),
    {
        if alt_screen {
            return ScrollAction::Propagate;
        }
        if self.block_below_cursor.is_some() && display_offset == 0 && self.scroll_top > 0 {
            self.scroll_top = if self.scroll_top > line_height {
                self.scroll_top - line_height
            } else {
                0
            };
            return ScrollAction::Nothing;
        }
        ScrollAction::LineUp
    }

    /// Scrolls one line down.
    pub fn scroll_line_down(
        &mut self,
        alt_screen: bool,
        display_offset: usize,
        line_height: i64,
        max_scroll_top: i64,
    ) -> (r: ScrollAction)
        requires
            line_height >= 0,
            old(self).scroll_top + line_height <= i64::MAX,
        ensures
            ({
                let moves = !alt_screen && old(self).block_scrolls(display_offset);
                let wanted = old(self).scroll_top + line_height;
                &&& r == (if alt_screen {
                    ScrollAction::Propagate
                } else if moves {
                    ScrollAction::Nothing
                } else {
                    ScrollAction::LineDown
                })
                &&& *final(self) == (TerminalView {
                    scroll_top: if !moves || old(self).scroll_top >= max_scroll_top {
                        old(self).scroll_top
                    } else if wanted < max_scroll_top {
                        wanted as i64
                    } else {
                        max_scroll_top
                    },
                    ..*old(self)
                })
            }),
    {
        if alt_screen {
            return ScrollAction::Propagate;
        }
        if self.block_below_cursor.is_some() && display_offset == 0 {
            if self.scroll_top < max_scroll_top {
                let wanted: i64 = self.scroll_top + line_height;
                self.scroll_top = if wanted < max_scroll_top {
                    wanted
                } else {
                    max_scroll_top
                };
            }
            return ScrollAction::Nothing;
        }
        ScrollAction::LineDown
    }

    /// Scrolls one page up: first through the block below the cursor.
    pub fn scroll_page_up(&mut self, alt_screen: bool, line_height: i64, viewport_lines: u32) -> (r: ScrollAction)
        requires
            line_height > 0,
            old(self).scroll_top >= 0,
        ensures
            ({
                let block_lines = old(self).scroll_top as int / line_height as int;
                let moves = !alt_screen && old(self).scroll_top != 0;
                &&& r == (if alt_screen {
                    ScrollAction::Propagate
                } else if !moves {
                    ScrollAction::PageUp
                } else if block_lines >= viewport_lines {
                    ScrollAction::Nothing
                } else {
                    ScrollAction::UpBy((viewport_lines - block_lines) as usize)
                })
                &&& *final(self) == (TerminalView {
                    scroll_top: if !moves {
                        old(self).scroll_top
                    } else if block_lines >= viewport_lines {
                        ((block_lines - viewport_lines) * line_height) as i64
                    } else {
                        0
                    },
                    ..*old(self)
                })
            }),
    {
        if alt_screen {
            return ScrollAction::Propagate;
        }
        if self.scroll_top == 0 {
            return ScrollAction::PageUp;
        }
        let block_lines: i64 = self.scroll_top / line_height;
        proof {
            vstd::arithmetic::div_mod::lemma_fundamental_div_mod(self.scroll_top as int, line_height as int);
            vstd::arithmetic::div_mod::lemma_div_pos_is_pos(self.scroll_top as int, line_height as int);
            let n = block_lines - viewport_lines;
            let q = block_lines as int;
            let h = line_height as int;
            assert(n * h <= q * h && (n >= 0 ==> n * h >= 0)) by (nonlinear_arith)
                requires
                    n <= q,
                    h > 0,
            ;
            assert(h * q == q * h) by (nonlinear_arith);
        }
        if block_lines >= viewport_lines as i64 {
            self.scroll_top = (block_lines - viewport_lines as i64) * line_height;
            ScrollAction::Nothing
        } else {
            self.scroll_top = 0;
            ScrollAction::UpBy((viewport_lines as i64 - block_lines) as usize)
        }
    }

    /// Scrolls one page down. `display_offset` is how far the terminal is scrolled afterwards.
    pub fn scroll_page_down(
        &mut self,
        alt_screen: bool,
        display_offset: usize,
        viewport_lines: usize,
        max_scroll_top: i64,
    ) -> (r: ScrollAction)
        ensures
            r == (if alt_screen {
                ScrollAction::Propagate
            } else {
                ScrollAction::PageDown
            }),
            *final(self) == (TerminalView {
                scroll_top: if !alt_screen && display_offset < viewport_lines {
                    max_scroll_top
                } else {
                    old(self).scroll_top
                },
                ..*old(self)
            }),
    {
        if alt_screen {
            return ScrollAction::Propagate;
        }
        if display_offset < viewport_lines {
            self.scroll_top = max_scroll_top;
        }
        ScrollAction::PageDown
    }

    pub fn scroll_to_top(&self, alt_screen: bool) -> (r: ScrollAction)
        ensures
            r == (if alt_screen {
                ScrollAction::Propagate
            } else {
                ScrollAction::Top
            }),
    {
        if alt_screen {
            ScrollAction::Propagate
        } else {
            ScrollAction::Top
        }
    }

    pub fn scroll_to_bottom(&mut self, alt_screen: bool, max_scroll_top: i64) -> (r: ScrollAction)
        ensures
            r == (if alt_screen {
                ScrollAction::Propagate
            } else {
                ScrollAction::Bottom
            }),
            *final(self) == (TerminalView {
                scroll_top: if !alt_screen && old(self).block_below_cursor is Some {
                    max_scroll_top
                } else {
                    old(self).scroll_top
                },
                ..*old(self)
            }),
    {
        if alt_screen {
            return ScrollAction::Propagate;
        }
        if self.block_below_cursor.is_some() {
            self.scroll_top = max_scroll_top;
        }
        ScrollAction::Bottom
    }

    /// Whether the cursor is drawn at this moment.
    pub fn should_show_cursor(
        &self,
        focused: bool,
        alt_screen: bool,
        blinking: TerminalBlink,
        blink_visible: bool,
    ) -> (r: bool)
        ensures
            r == (if self.mode is Embedded && !focused {
                false
            } else if !focused || alt_screen {
                true
            } else {
                !blinks(blinking, self.blinking_terminal_enabled) || blink_visible
            }),
    {
        if let TerminalMode::Embedded { .. } = self.mode {
            if !focused {
                return false;
            }
        }
        if !focused || alt_screen {
            return true;
        }
        match blinking {
            TerminalBlink::Off => true,
            TerminalBlink::TerminalControlled => !self.blinking_terminal_enabled || blink_visible,
            TerminalBlink::On => blink_visible,
        }
    }

    /// Shows something below the cursor, and scrolls to the bottom. `max_scroll_top` is how far the
    /// new block can be scrolled up.
    pub fn set_block_below_cursor(&mut self, height: u8, alt_screen: bool, max_scroll_top: i64) -> (r: ScrollAction)
        ensures
            r == (if alt_screen {
                ScrollAction::Propagate
            } else {
                ScrollAction::Bottom
            }),
            *final(self) == (TerminalView {
                block_below_cursor: Some(height),
                scroll_top: if alt_screen {
                    old(self).scroll_top
                } else {
                    max_scroll_top
                },
                ..*old(self)
            }),
    {
        self.block_below_cursor = Some(height);
        self.scroll_to_bottom(alt_screen, max_scroll_top)
    }

    pub fn clear_block_below_cursor(&mut self)
        ensures
            *final(self) == (TerminalView { block_below_cursor: None, scroll_top: 0, ..*old(self) }),
    {
        self.block_below_cursor = None;
        self.scroll_top = 0;
    }

    /// Takes a report of the terminal, and says what follows from it.
    pub fn on_terminal_event(&mut self, event: Event, context: EventContext) -> (r: Vec<ViewEffect>)
        ensures
            effect_models(r@) == effects_of(event, hover_model(old(self).hover), context),
            opt_text(final(self).previous_cwd) == opt_text(context.working_directory),
            hover_model(final(self).hover) == (match event {
                Event::NewNavigationTarget(target) => hover_after(
                    hover_model(old(self).hover),
                    target,
                    word_model(context.last_hovered_word),
                ),
                _ => hover_model(old(self).hover),
            }),
            *final(self) == (TerminalView {
                previous_cwd: final(self).previous_cwd,
                hover: final(self).hover,
                needs_serialize: old(self).needs_serialize || opt_text(old(self).previous_cwd) != opt_text(
                    context.working_directory,
                ),
                has_bell: old(self).has_bell || event is Bell,
                blinking_terminal_enabled: match event {
                    Event::BlinkChanged(on) => on,
                    _ => old(self).blinking_terminal_enabled,
                },
                ..*old(self)
            }),
    {
        if !same_opt(&context.working_directory, &self.previous_cwd) {
            self.previous_cwd = clone_opt(&context.working_directory);
            self.needs_serialize = true;
        }
        let mut out: Vec<ViewEffect> = Vec::new();
        let ghost start = hover_model(self.hover);
        match &event {
            Event::Wakeup => {
                out.push(ViewEffect::Notify);
                out.push(ViewEffect::EmitWakeup);
                out.push(ViewEffect::EmitUpdateTab);
                out.push(ViewEffect::EmitMatchesInvalidated);
            },
            Event::Bell => {
                self.has_bell = true;
                if context.system_bell {
                    out.push(ViewEffect::PlaySystemBell);
                }
                out.push(ViewEffect::EmitWakeup);
            },
            Event::BlinkChanged(on) => {
                self.blinking_terminal_enabled = *on;
                if context.blinking == TerminalBlink::TerminalControlled && context.focused {
                    if *on {
                        out.push(ViewEffect::EnableBlinking);
                    } else {
                        out.push(ViewEffect::DisableBlinking);
                    }
                }
            },
            Event::TitleChanged => {
                out.push(ViewEffect::EmitUpdateTab);
            },
            Event::NewNavigationTarget(target) => {
                match (target, &context.last_hovered_word) {
                    (Some(MaybeNavigationTarget::Url(url)), Some(word)) => {
                        let same = match &self.hover {
                            Some(h) => h.hovered_word.same(word),
                            None => false,
                        };
                        if !same {
                            self.hover = Some(
                                HoverTarget { tooltip: url.clone(), hovered_word: word.copy() },
                            );
                            out.push(ViewEffect::Notify);
                        }
                    },
                    _ => {
                        self.hover = None;
                        out.push(ViewEffect::Notify);
                    },
                }
            },
            Event::Open(target) => match target {
                MaybeNavigationTarget::Url(url) => {
                    out.push(ViewEffect::OpenUrl(url.clone()));
                },
                MaybeNavigationTarget::PathLike => {},
            },
            Event::BreadcrumbsChanged => {
                out.push(ViewEffect::EmitUpdateBreadcrumbs);
            },
            Event::CloseTerminal => {
                out.push(ViewEffect::EmitCloseItem);
            },
            Event::SelectionsChanged => {
                out.push(ViewEffect::InvalidateCharacterCoordinates);
                out.push(ViewEffect::EmitActiveMatchChanged);
            },
        }
        assert(effect_models(out@) =~= effects_of(event, start, context));
        out
    }

    /// The title of the tab: its own, or that of the terminal.
    pub fn tab_content_text(&self, terminal_title: &str) -> (r: String)
        ensures
            r@ == (match shown_title(opt_text(self.custom_title)) {
                Some(t) => t,
                None => terminal_title@,
            }),
    {
        match keep_shown(clone_opt(&self.custom_title)) {
            Some(t) => t,
            None => String::from_str(terminal_title),
        }
    }

    /// Whether the tab is marked: for a task while it runs, else after a bell. `task_running` is
    /// there for a task only.
    pub fn is_dirty(&self, task_running: Option<bool>) -> (r: bool)
        ensures
            r == (match task_running {
                Some(running) => running,
                None => self.has_bell,
            }),
    {
        match task_running {
            Some(running) => running,
            None => self.has_bell,
        }
    }

    /// Whether the line above the terminal is shown.
    pub fn breadcrumb_location(&self, breadcrumb_text: &str) -> (r: bool)
        ensures
            r == (self.show_breadcrumbs && trimmed(breadcrumb_text@).len() > 0),
    {
        let text = trim(breadcrumb_text);
        self.show_breadcrumbs && text.as_str().unicode_len() > 0
    }

    /// What is saved of the view, where anything has to be: the workspace, the directory that the
    /// terminal is in, where it is known, and the title. A task is not saved.
    pub fn serialize(&mut self, is_task: bool, working_directory: Option<String>) -> (r: Option<SavedView>)
        ensures
            r is Some <==> !is_task && old(self).needs_serialize && old(self).workspace_id is Some,
            r matches Some(saved) ==> old(self).workspace_id == Some(saved.workspace_id) && opt_text(
                saved.working_directory,
            ) == opt_text(working_directory) && opt_text(saved.custom_title) == opt_text(old(self).custom_title),
            *final(self) == (TerminalView {
                needs_serialize: old(self).needs_serialize && r is None,
                ..*old(self)
            }),
    {
        if is_task || !self.needs_serialize {
            return None;
        }
        match self.workspace_id {
            Some(id) => {
                let custom_title = clone_opt(&self.custom_title);
                self.needs_serialize = false;
                Some(SavedView { workspace_id: id, working_directory, custom_title })
            },
            None => None,
        }
    }

    /// Takes the view into a workspace, unless it shows a task. Where both it and the workspace
    /// have been saved before, the new and the old workspace of what was saved come back.
    pub fn added_to_workspace(&mut self, is_task: bool, workspace: Option<i64>) -> (r: Option<(i64, i64)>)
        ensures
            r == (match (workspace, old(self).workspace_id) {
                (Some(new_id), Some(old_id)) if !is_task => Some((new_id, old_id)),
                _ => None,
            }),
            *final(self) == (TerminalView {
                workspace_id: if is_task {
                    old(self).workspace_id
                } else {
                    workspace
                },
                ..*old(self)
            }),
    {
        if is_task {
            return None;
        }
        let moved = match (workspace, self.workspace_id) {
            (Some(new_id), Some(old_id)) => Some((new_id, old_id)),
            _ => None,
        };
        self.workspace_id = workspace;
        moved
    }

    /// Whether there is anything to save.
    pub fn should_serialize(&self) -> (r: bool)
        ensures
            r == self.needs_serialize,
    {
        self.needs_serialize
    }
}

/// What a saved view is restored with: its directory, or the usual one where none was saved, and
/// its title, where it shows anything.
pub fn restored_view(
    saved_directory: Option<String>,
    default_directory: Option<String>,
    saved_title: Option<String>,
) -> (r: (Option<String>, Option<String>))
    ensures
        opt_text(r.0) == (match saved_directory {
            Some(d) => if d@.len() > 0 {
                Some(d@)
            } else {
                opt_text(default_directory)
            },
            None => opt_text(default_directory),
        }),
        opt_text(r.1) == shown_title(opt_text(saved_title)),
{
    let directory = match saved_directory {
        Some(d) => if d.as_str().unicode_len() > 0 {
            Some(d)
        } else {
            default_directory
        },
        None => default_directory,
    };
    (directory, keep_shown(saved_title))
}

/// How far, and which way, the terminal is scrolled from one offset to another.
#[derive(Debug, Clone, Copy, PartialEq, Eq, Structural)]
pub enum ScrollDelta {
    Up(usize),
    Down(usize),
    Stay,
}

pub fn scroll_delta(current_offset: usize, new_offset: usize) -> (r: ScrollDelta)
    ensures
        r == (if new_offset > current_offset {
            ScrollDelta::Up((new_offset - current_offset) as usize)
        } else if new_offset < current_offset {
            ScrollDelta::Down((current_offset - new_offset) as usize)
        } else {
            ScrollDelta::Stay
        }),
{
    if new_offset > current_offset {
        ScrollDelta::Up(new_offset - current_offset)
    } else if new_offset < current_offset {
        ScrollDelta::Down(current_offset - new_offset)
    } else {
        ScrollDelta::Stay
    }
}

/// What is on the clipboard, first of all.
#[derive(Debug, Clone, Copy, PartialEq, Eq, Structural)]
pub enum ClipboardKind {
    Image { empty: bool },
    Paths,
    Other,
    Nothing,
}

/// What is pasted.
#[derive(Debug, Clone, Copy, PartialEq, Eq, Structural)]
pub enum PasteAction {
    /// The keystroke itself, so that the program can fetch the picture.
    ForwardCtrlV,
    Paths,
    Text,
}

pub fn paste_action(first: ClipboardKind) -> (r: PasteAction)
    ensures
        r == (match first {
            ClipboardKind::Image { empty } => if empty {
                PasteAction::Text
            } else {
                PasteAction::ForwardCtrlV
            },
            ClipboardKind::Paths => PasteAction::Paths,
            _ => PasteAction::Text,
        }),
{
    match first {
        ClipboardKind::Image { empty } => if empty {
            PasteAction::Text
        } else {
            PasteAction::ForwardCtrlV
        },
        ClipboardKind::Paths => PasteAction::Paths,
        _ => PasteAction::Text,
    }
}

/// Each path behind a space.
pub open spec fn spaced(paths: Seq<Seq<char>>) -> Seq<char>
    decreases paths.len(),
{
    if paths.len() == 0 {
        Seq::empty()
    } else {
        spaced(paths.drop_last()) + seq![' '] + paths.last()
    }
}

/// Formats a `std::path::Path` for debugging, so that it stands in quotes. The form is not
/// documented, so nothing is claimed of the text that comes back.
#[verifier::external_body]
fn quote_path(path: &String) -> (r: String) {
    format!("{:?}", std::path::Path::new(path))
}

/// `quoted` is what a call of `quote_path` with `path` may give.
pub closed spec fn quotes(path: String, quoted: String) -> bool {
    call_ensures(quote_path, (&path,), quoted)
}

/// The text that paths are pasted as: each quoted, in their order, between spaces.
pub fn add_paths_to_terminal(paths: &Vec<String>) -> (r: String)
    ensures
        exists|quoted: Seq<String>|
            quoted.len() == paths@.len() && r@ == #[trigger] spaced(texts(quoted)).push(' ') && (forall|k: int|
                0 <= k < paths@.len() ==> quotes(paths@[k], #[trigger] quoted[k])),
{
    let mut quoted: Vec<String> = Vec::new();
    let mut i: usize = 0;
    while i < paths.len()
        invariant
            i <= paths@.len(),
            quoted@.len() == i,
            forall|k: int| 0 <= k < i ==> quotes(paths@[k], #[trigger] quoted@[k]),
        decreases paths@.len() - i,
    {
        let one = quote_path(&paths[i]);
        assert(quotes(paths@[i as int], one));
        quoted.push(one);
        i += 1;
    }
    quoted_paths_text(&quoted)
}

/// The text that paths are pasted as that have been quoted.
pub fn quoted_paths_text(quoted_paths: &Vec<String>) -> (r: String)
    ensures
        r@ == spaced(texts(quoted_paths@)).push(' '),
{
    let mut out = String::new();
    let mut i: usize = 0;
    let ghost all = texts(quoted_paths@);
    assert(all.take(0) =~= Seq::<Seq<char>>::empty());
    while i < quoted_paths.len()
        invariant
            i <= quoted_paths@.len(),
            all == texts(quoted_paths@),
            out@ == spaced(all.take(i as int)),
        decreases quoted_paths@.len() - i,
    {
        assert(all.take(i + 1).drop_last() =~= all.take(i as int));
        assert(all.take(i + 1).last() == quoted_paths@[i as int]@);
        out.push(' ');
        out.append(quoted_paths[i].as_str());
        assert(out@ =~= spaced(all.take(i + 1)));
        i += 1;
    }
    assert(all.take(i as int) =~= all);
    out.push(' ');
    out
}

/// Something that was dropped on the terminal.
#[derive(Debug, Clone, Copy, PartialEq, Eq, Structural)]
pub enum Dropped {
    /// Files from elsewhere.
    ExternalPaths,
    /// A selection of the project's files, so many of which have a path.
    Selection { paths: usize },
    /// One file of the project.
    Entry { has_path: bool },
    Other,
}

/// What is done with it: whether its paths are pasted, and whether it is taken.
#[derive(Debug, Clone, Copy, PartialEq, Eq, Structural)]
pub struct DropResponse {
    pub paste: bool,
    pub taken: bool,
}

pub fn handle_drop(project_alive: bool, project_local: bool, dropped: Dropped) -> (r: DropResponse)
    ensures
        r == (if !project_alive {
            DropResponse { paste: false, taken: false }
        } else {
            match dropped {
                Dropped::ExternalPaths => DropResponse { paste: project_local, taken: project_local },
                Dropped::Selection { paths } => DropResponse { paste: paths > 0, taken: true },
                Dropped::Entry { has_path } => DropResponse { paste: has_path, taken: true },
                Dropped::Other => DropResponse { paste: false, taken: false },
            }
        }),
{
    if !project_alive {
        return DropResponse { paste: false, taken: false };
    }
    match dropped {
        Dropped::ExternalPaths => DropResponse { paste: project_local, taken: project_local },
        Dropped::Selection { paths } => DropResponse { paste: paths > 0, taken: true },
        Dropped::Entry { has_path } => DropResponse { paste: has_path, taken: true },
        Dropped::Other => DropResponse { paste: false, taken: false },
    }
}

/// What is sent to a terminal whose tab is closed: a shell behind the relay is told to end, with
/// a byte that no keyboard sends, and a second one that makes the first arrive.
pub fn on_removed(shell: &Shell) -> (r: Vec<Vec<u8>>)
    ensures
        with_pane_id(shell@, Seq::empty()) is None ==> r@.len() == 0,
        with_pane_id(shell@, Seq::empty()) is Some ==> r@.len() == 2 && r@[0]@ == seq![0u8] && r@[1]@
            == seq![13u8],
{
    let mut out: Vec<Vec<u8>> = Vec::new();
    match rebuild_tmux_shell_with_fresh_pane_id(shell) {
        Some(_) => {
            let mut first: Vec<u8> = Vec::new();
            first.push(0);
            let mut second: Vec<u8> = Vec::new();
            second.push(13);
            out.push(first);
            out.push(second);
        },
        None => {},
    }
    out
}

/// What a pane that is split off runs, and in which directory. A shell behind the relay is the same
/// with a pane id of its own, which is returned too; any other is copied exactly, for which nothing
/// is returned. The directory is the one that the terminal is in or, where that is not known, the
/// home directory.
pub fn clone_on_split(shell: &Shell, cwd: Option<String>, home: Option<String>) -> (r: (
    Option<(Shell, String)>,
    Option<String>,
))
    ensures
        r.0 is Some <==> with_pane_id(shell@, Seq::empty()) is Some,
        r.0 matches Some((s, id)) ==> is_pane_id(id@) && with_pane_id(shell@, id@) == Some(s@),
        opt_text(r.1) == or_else(opt_text(cwd), opt_text(home)),
{
    (rebuild_tmux_shell_with_fresh_pane_id(shell), first_of(cwd, home))
}

/// The pane ids of a tab with that of a pane that was split off.
pub open spec fn ids_after_split(known: Option<Seq<Seq<char>>>, fresh: Seq<char>) -> Seq<Seq<char>> {
    match known {
        Some(ids) => ids.push(fresh),
        None => seq![fresh],
    }
}

/// The pane ids of a tab after one of its panes was split: the new pane's comes last.
pub fn pane_ids_after_split(known: Option<Vec<String>>, fresh: &str) -> (r: Vec<String>)
    ensures
        texts(r@) == ids_after_split(
            match known {
                Some(ids) => Some(texts(ids@)),
                None => None,
            },
            fresh@,
        ),
{
    let mut out = match known {
        Some(ids) => ids,
        None => {
            let empty: Vec<String> = Vec::new();
            assert(texts(empty@) =~= Seq::<Seq<char>>::empty());
            empty
        },
    };
    push_text(&mut out, fresh);
    out
}

/// A pane that is split off is not forgotten: where every pane of a tab had its id, the tab with
/// the new pane is saved and loaded again with all of them.
pub proof fn lemma_split_pane_remembered(tab: TabModel, split: TabModel, fresh: Seq<char>)
    requires
        tab.well_formed(),
        tab.sessions is Some,
        tab.extra_splits < 3,
        is_pane_id(fresh),
        split.profile_index == tab.profile_index,
        split.extra_splits == tab.extra_splits + 1,
        split.sessions == Some(ids_after_split(tab.sessions, fresh)),
    ensures
        tab_of(tab_text(split)) == Some(split),
{
    let ids = split.sessions->0;
    assert forall|i: int| 0 <= i < ids.len() implies is_pane_id(#[trigger] ids[i]) by {
        if i < tab.sessions->0.len() {
            assert(ids[i] == tab.sessions->0[i]);
        }
    }
    lemma_tab_round_trip(split);
}

/// Which directory a terminal starts in.
#[derive(Debug, Clone, Copy, PartialEq, Eq, Structural)]
pub enum WorkingDirectory {
    CurrentFileDirectory,
    CurrentProjectDirectory,
    FirstProjectDirectory,
    AlwaysHome,
    Always,
}

/// One of the trees of files that a workspace holds.
#[derive(Debug)]
pub struct Worktree {
    pub path: String,
    /// The directory that holds it, where there is one.
    pub parent: Option<String>,
    /// Whether its root is a directory, where the root is known.
    pub root_is_dir: Option<bool>,
}

/// The directory of a tree: the tree itself, or where the tree is one file, what holds the file.
pub open spec fn tree_directory(first: Option<Worktree>) -> Option<Seq<char>> {
    match first {
        Some(tree) => match tree.root_is_dir {
            Some(is_dir) => if is_dir {
                Some(tree.path@)
            } else {
                opt_text(tree.parent)
            },
            None => None,
        },
        None => None,
    }
}

/// The directory of the first tree of a workspace.
pub fn first_project_directory(first: Option<Worktree>) -> (r: Option<String>)
    ensures
        opt_text(r) == tree_directory(first),
{
    match first {
        Some(tree) => match tree.root_is_dir {
            Some(is_dir) => if is_dir {
                Some(tree.path)
            } else {
                tree.parent
            },
            None => None,
        },
        None => None,
    }
}

/// The directories that a terminal can start in, as far as there are any.
#[derive(Debug)]
pub struct Directories {
    /// The project lies on another machine, where the directories of this one mean nothing.
    pub remote: bool,
    pub current_file: Option<String>,
    pub current_project: Option<String>,
    pub first_worktree: Option<Worktree>,
    /// The one from the settings, where it exists.
    pub configured: Option<String>,
    pub home: Option<String>,
}

pub open spec fn or_else(a: Option<Seq<char>>, b: Option<Seq<char>>) -> Option<Seq<char>> {
    match a {
        Some(x) => Some(x),
        None => b,
    }
}

/// The directory that the settings ask for, where there is one.
pub open spec fn chosen_directory(setting: WorkingDirectory, d: Directories) -> Option<Seq<char>> {
    let first_project = tree_directory(d.first_worktree);
    let project = or_else(opt_text(d.current_project), first_project);
    match setting {
        WorkingDirectory::CurrentFileDirectory => or_else(opt_text(d.current_file), project),
        WorkingDirectory::CurrentProjectDirectory => project,
        WorkingDirectory::FirstProjectDirectory => first_project,
        WorkingDirectory::AlwaysHome => None,
        WorkingDirectory::Always => if d.remote {
            None
        } else {
            opt_text(d.configured)
        },
    }
}

/// The directory that a terminal starts in. For a project on another machine there may be none: its
/// shell then opens in the home directory over there.
pub open spec fn directory_for(setting: WorkingDirectory, d: Directories) -> Option<Seq<char>> {
    if d.remote {
        chosen_directory(setting, d)
    } else {
        or_else(chosen_directory(setting, d), opt_text(d.home))
    }
}

fn first_of(a: Option<String>, b: Option<String>) -> (r: Option<String>)
    ensures
        opt_text(r) == or_else(opt_text(a), opt_text(b)),
{
    match a {
        Some(x) => Some(x),
        None => b,
    }
}

/// The directory that a terminal starts in: as the settings say, else the home directory. Of a
/// project on another machine neither the home directory of this one nor the one from the settings
/// is used.
pub fn default_working_directory(setting: WorkingDirectory, d: Directories) -> (r: Option<String>)
    ensures
        opt_text(r) == directory_for(setting, d),
{
    let first_project = first_project_directory(d.first_worktree);
    let directory = match setting {
        WorkingDirectory::CurrentFileDirectory => first_of(
            d.current_file,
            first_of(d.current_project, first_project),
        ),
        WorkingDirectory::CurrentProjectDirectory => first_of(d.current_project, first_project),
        WorkingDirectory::FirstProjectDirectory => first_project,
        WorkingDirectory::AlwaysHome => None,
        WorkingDirectory::Always => if d.remote {
            None
        } else {
            d.configured
        },
    };
    if d.remote {
        directory
    } else {
        first_of(directory, d.home)
    }
}

/// The directory that a tab's terminal starts in: the profile's home, where it is a directory, else
/// the one that any terminal starts in.
pub fn tab_directory(home_if_dir: Option<String>, default: Option<String>) -> (r: Option<String>)
    ensures
        opt_text(r) == or_else(opt_text(home_if_dir), opt_text(default)),
{
    first_of(home_if_dir, default)
}

/// What getting or losing the focus does to the terminal and its cursor.
#[derive(Debug, Clone, Copy, PartialEq, Eq, Structural)]
pub struct FocusEffects {
    /// The shape that the cursor gets.
    pub cursor_shape: CursorShape,
    /// Blinking is switched on, off, or left as it is.
    pub blink: Option<bool>,
    /// The place of the text that is being composed has to be found anew.
    pub invalidate_character_coordinates: bool,
}

/// What the key for the character palette does.
#[derive(Debug, Clone, Copy, PartialEq, Eq, Structural)]
pub enum PaletteAction {
    /// A program that fills the screen gets the key: `ctrl-cmd-space`.
    SendKeystroke,
    ShowPalette,
}

/// What becomes of a key.
#[derive(Debug, Clone, Copy, PartialEq, Eq, Structural)]
pub struct KeyEffects {
    /// The terminal took the key, so nothing else gets it.
    pub handled: bool,
    /// Nothing but the view has changed, so it has to be drawn anew.
    pub redraw: bool,
    /// The view reports that it has to be looked at.
    pub emit_wakeup: bool,
    /// The cursor stays visible for a moment.
    pub pause_blinking: bool,
}

/// When a scroll bar is shown.
#[derive(Debug, Clone, Copy, PartialEq, Eq, Structural)]
pub enum ShowScrollbar {
    Auto,
    System,
    Always,
    Never,
}

/// When the terminal's scroll bar is shown: by itself where nothing is set.
pub fn scrollbar_visibility(setting: Option<ShowScrollbar>) -> (r: ShowScrollbar)
    ensures
        r == match setting {
            Some(show) => show,
            None => ShowScrollbar::Auto,
        },
{
    match setting {
        Some(show) => show,
        None => ShowScrollbar::Auto,
    }
}

/// What the key for the character palette does.
pub fn show_character_palette(alt_screen: bool) -> (r: PaletteAction)
    ensures
        r == if alt_screen {
            PaletteAction::SendKeystroke
        } else {
            PaletteAction::ShowPalette
        },
{
    if alt_screen {
        PaletteAction::SendKeystroke
    } else {
        PaletteAction::ShowPalette
    }
}

/// The selection that the input method is told of: an empty one at the start, and none in a
/// program that fills the screen.
pub fn selected_text_range(alt_screen: bool) -> (r: Option<(usize, usize)>)
    ensures
        r == if alt_screen {
            None
        } else {
            Some((0usize, 0usize))
        },
{
    if alt_screen {
        None
    } else {
        Some((0, 0))
    }
}

/// What the right button pastes: the text of the clipboard, unless the program asked for the mouse.
pub fn right_button_paste(mouse_mode: bool, clipboard: Option<String>) -> (r: Option<String>)
    ensures
        r == if mouse_mode {
            None
        } else {
            clipboard
        },
{
    if mouse_mode {
        None
    } else {
        clipboard
    }
}

/// The second line of a tab's tooltip, where the process is known.
pub fn tab_tooltip_content(pid: Option<u32>) -> (r: Option<String>)
    ensures
        opt_text(r) == match pid {
            Some(pid) => Some("Process ID (PID): "@ + integer_text(pid as int)),
            None => None,
        },
{
    match pid {
        Some(pid) => {
            let number = unsigned_text(pid as u64);
            Some("Process ID (PID): ".to_owned().concat(number.as_str()))
        },
        None => None,
    }
}

impl TerminalView {
    /// The terminal has the focus: its cursor gets its shape back, and blinks where it should.
    pub fn focus_in(&self, blinking: TerminalBlink) -> (r: FocusEffects)
        ensures
            r == (FocusEffects {
                cursor_shape: self.cursor_shape,
                blink: if blinks(blinking, self.blinking_terminal_enabled) {
                    Some(true)
                } else {
                    None
                },
                invalidate_character_coordinates: true,
            }),
    {
        let blink = if should_blink(blinking, self.blinking_terminal_enabled) {
            Some(true)
        } else {
            None
        };
        FocusEffects { cursor_shape: self.cursor_shape, blink, invalidate_character_coordinates: true }
    }

    /// The terminal has lost the focus: its cursor is an outline that does not blink.
    pub fn focus_out(&self) -> (r: FocusEffects)
        ensures
            r == (FocusEffects {
                cursor_shape: CursorShape::Hollow,
                blink: Some(false),
                invalidate_character_coordinates: false,
            }),
    {
        FocusEffects {
            cursor_shape: CursorShape::Hollow,
            blink: Some(false),
            invalidate_character_coordinates: false,
        }
    }

    /// A key was pressed and offered to the terminal, which says whether it took it and whether it
    /// is in the mode in which keys only move its own cursor.
    pub fn key_down(&mut self, taken: bool, vi_mode: bool) -> (r: KeyEffects)
        ensures
            *final(self) == (TerminalView { has_bell: false, ..*old(self) }),
            r == (KeyEffects {
                handled: taken,
                redraw: taken && vi_mode,
                emit_wakeup: true,
                pause_blinking: true,
            }),
    {
        let report = self.clear_bell();
        let emit_wakeup = match report {
            ViewEffect::EmitWakeup => true,
            _ => false,
        };
        KeyEffects { handled: taken, redraw: taken && vi_mode, emit_wakeup, pause_blinking: true }
    }

    /// Text has been composed: what was being composed is dropped, and the text is sent.
    pub fn replace_text_in_range(&mut self, text: &str) -> (r: Option<String>)
        ensures
            *final(self) == (TerminalView { marked_text: None, ..*old(self) }),
            opt_text(r) == if text@.len() > 0 {
                Some(text@)
            } else {
                None
            },
    {
        self.clear_marked_text();
        self.commit_text(text)
    }

    /// The link that is drawn as one and what is told of it: the one that the mouse was found over,
    /// where it is still under the mouse and the key for links is held.
    pub fn link_under_mouse(
        &self,
        secondary_held: bool,
        mouse_inside: bool,
        last_hovered_word: &Option<HoveredWord>,
    ) -> (r: Option<HoverTarget>)
        ensures
            hover_model(r) == if secondary_held && mouse_inside && (hover_model(self.hover) matches Some(h)
                && word_model(*last_hovered_word) == Some(h.word)) {
                hover_model(self.hover)
            } else {
                None
            },
    {
        match (&self.hover, last_hovered_word) {
            (Some(hover), Some(word)) => if secondary_held && mouse_inside && hover.hovered_word.same(word) {
                Some(HoverTarget { tooltip: hover.tooltip.clone(), hovered_word: word.copy() })
            } else {
                None
            },
            _ => None,
        }
    }

    /// The icon of the tab, where it has one of its own.
    pub fn tab_icon(&self) -> (r: Option<String>)
        ensures
            opt_text(r) == opt_text(self.custom_icon),
    {
        clone_opt(&self.custom_icon)
    }
}

/// A report leads to a thing only where it is about it: the bell is heard after a bell, where the
/// bell is on; a browser opens the very address that was asked for; the tab is closed when the
/// terminal ends; and the cursor starts or stops to blink where the terminal says so, may say so,
/// and has the focus.
pub proof fn lemma_report_followed(event: Event, hover: Option<HoverModel>, context: EventContext)
    ensures
        effects_of(event, hover, context).contains(EffectModel::PlaySystemBell) <==> event is Bell && context.system_bell,
        effects_of(event, hover, context).contains(EffectModel::EmitWakeup) <==> event is Bell || event is Wakeup,
        effects_of(event, hover, context).contains(EffectModel::EmitUpdateTab) <==> event is TitleChanged || event is Wakeup,
        effects_of(event, hover, context).contains(EffectModel::EmitMatchesInvalidated) <==> event is Wakeup,
        effects_of(event, hover, context).contains(EffectModel::EmitCloseItem) <==> event is CloseTerminal,
        effects_of(event, hover, context).contains(EffectModel::EmitUpdateBreadcrumbs) <==> event is BreadcrumbsChanged,
        effects_of(event, hover, context).contains(EffectModel::EmitActiveMatchChanged) <==> event is SelectionsChanged,
        effects_of(event, hover, context).contains(EffectModel::InvalidateCharacterCoordinates) <==> event
            is SelectionsChanged,
        effects_of(event, hover, context).contains(EffectModel::EnableBlinking) <==> event == Event::BlinkChanged(true)
            && context.focused && context.blinking == TerminalBlink::TerminalControlled,
        effects_of(event, hover, context).contains(EffectModel::DisableBlinking) <==> event == Event::BlinkChanged(false)
            && context.focused && context.blinking == TerminalBlink::TerminalControlled,
        forall|url: Seq<char>|
            #[trigger] effects_of(event, hover, context).contains(EffectModel::OpenUrl(url)) <==> (event matches Event::Open(
                MaybeNavigationTarget::Url(asked),
            ) && asked@ == url),
{
    let effects = effects_of(event, hover, context);
    match event {
        Event::Wakeup => {
            assert(effects[1] == EffectModel::EmitWakeup);
            assert(effects[2] == EffectModel::EmitUpdateTab);
            assert(effects[3] == EffectModel::EmitMatchesInvalidated);
        },
        Event::Bell => {
            assert(effects[0] == EffectModel::PlaySystemBell || effects[0] == EffectModel::EmitWakeup);
            assert(effects.last() == EffectModel::EmitWakeup);
        },
        Event::BlinkChanged(on) => {
            if context.focused && context.blinking == TerminalBlink::TerminalControlled {
                assert(effects[0] == if on {
                    EffectModel::EnableBlinking
                } else {
                    EffectModel::DisableBlinking
                });
            }
        },
        Event::TitleChanged => {
            assert(effects[0] == EffectModel::EmitUpdateTab);
        },
        Event::NewNavigationTarget(_) => {},
        Event::Open(target) => {
            if let MaybeNavigationTarget::Url(url) = target {
                assert(effects[0] == EffectModel::OpenUrl(url@));
            }
        },
        Event::BreadcrumbsChanged => {
            assert(effects[0] == EffectModel::EmitUpdateBreadcrumbs);
        },
        Event::CloseTerminal => {
            assert(effects[0] == EffectModel::EmitCloseItem);
        },
        Event::SelectionsChanged => {
            assert(effects[0] == EffectModel::InvalidateCharacterCoordinates);
            assert(effects[1] == EffectModel::EmitActiveMatchChanged);
        },
    }
}

/// The view is drawn anew after output, and after a move of the mouse unless the link that was under
/// it still is.
pub proof fn lemma_drawn_anew(event: Event, hover: Option<HoverModel>, context: EventContext)
    ensures
        effects_of(event, hover, context).contains(EffectModel::Notify) <==> event is Wakeup || (event matches
            Event::NewNavigationTarget(target) && (hover is None || hover_after(
            hover,
            target,
            word_model(context.last_hovered_word),
        ) != hover)),
{
    let effects = effects_of(event, hover, context);
    if effects.len() > 0 {
        assert(effects.contains(effects[0]));
    }
}

/// What is told of a link is its address, and the link is the word under the mouse. No link, or no
/// word, is nothing to tell of.
pub proof fn lemma_link_told(
    hover: Option<HoverModel>,
    target: Option<MaybeNavigationTarget>,
    word: Option<WordModel>,
)
    ensures
        hover_after(hover, target, word) is Some <==> word is Some && (target matches Some(t) && t is Url),
        hover_after(hover, target, word) matches Some(told) ==> word == Some(told.word),
        hover_after(hover, target, word) matches Some(told) ==> (target matches Some(MaybeNavigationTarget::Url(url))
            && (told.tooltip == url@ || hover == Some(told))),
        word is Some && hover is Some && hover->0.word == word->0 && (target matches Some(t) && t is Url)
            ==> hover_after(hover, target, word) == hover,
{
}

/// A terminal on its own is scrolled. One inside something else shows all its lines while it has
/// the focus or no limit is set, and never more than there are; beyond a thousand lines it is
/// scrolled too.
pub proof fn lemma_lines_shown(mode: TerminalMode, total_lines: usize, focused: bool)
    ensures
        content_mode_of(mode, total_lines, focused) is Scrollable <==> mode is Standalone || total_lines > 1000,
        content_mode_of(mode, total_lines, focused) matches ContentMode::Inline { displayed_lines, total_lines: all }
            ==> {
            &&& all == total_lines
            &&& displayed_lines <= total_lines
            &&& focused ==> displayed_lines == total_lines
            &&& mode == (TerminalMode::Embedded { max_lines_when_unfocused: None }) ==> displayed_lines == total_lines
            &&& mode matches TerminalMode::Embedded { max_lines_when_unfocused: Some(max) } ==> !focused ==> {
                &&& displayed_lines <= max
                &&& displayed_lines == max || displayed_lines == total_lines
            }
        },
{
}

/// The settings decide whether the cursor blinks; only where they leave it to the terminal does the
/// terminal.
pub proof fn lemma_blinking_decided(enabled: bool)
    ensures
        !blinks(TerminalBlink::Off, enabled),
        blinks(TerminalBlink::On, enabled),
        blinks(TerminalBlink::TerminalControlled, enabled) <==> enabled,
{
}

/// A title is shown as it was given, where it holds more than white space.
pub proof fn lemma_title_shown(title: Seq<char>)
    ensures
        shown_title(Some(title)) == (if all_white_space(title) {
            None
        } else {
            Some(title)
        }),
        shown_title(None) is None,
{
    lemma_blank_trimmed(title);
}

/// The length of a text in units of sixteen bits is that of its parts together. A character takes
/// one unit, and one beyond the first plane takes two.
pub proof fn lemma_utf16_len(a: Seq<char>, b: Seq<char>, c: char)
    ensures
        utf16_len(Seq::empty()) == 0,
        utf16_len(a + b) == utf16_len(a) + utf16_len(b),
        (c as u32) <= 0xFFFF ==> utf16_len(seq![c]) == 1,
        (c as u32) > 0xFFFF ==> utf16_len(seq![c]) == 2,
    decreases b.len(),
{
    assert(seq![c].drop_last() =~= Seq::<char>::empty());
    assert(seq![c].last() == c);
    if b.len() == 0 {
        assert(a + b =~= a);
    } else {
        assert((a + b).drop_last() =~= a + b.drop_last());
        assert((a + b).last() == b.last());
        lemma_utf16_len(a, b.drop_last(), c);
    }
}

/// Every path that is pasted stands behind a space, in its place among the others.
pub proof fn lemma_paths_spaced(before: Seq<Seq<char>>, path: Seq<char>, after: Seq<Seq<char>>)
    ensures
        spaced(before.push(path) + after) == spaced(before) + " "@ + path + spaced(after),
        spaced(Seq::<Seq<char>>::empty()).len() == 0,
    decreases after.len(),
{
    reveal_strlit(" ");
    assert(" "@ =~= seq![' ']);
    if after.len() == 0 {
        assert(before.push(path) + after =~= before.push(path));
        assert(before.push(path).drop_last() =~= before);
        assert(spaced(after) =~= Seq::<char>::empty());
        assert(spaced(before) + " "@ + path + spaced(after) =~= spaced(before) + seq![' '] + path);
    } else {
        let all = before.push(path) + after;
        assert(all.drop_last() =~= before.push(path) + after.drop_last());
        assert(all.last() == after.last());
        lemma_paths_spaced(before, path, after.drop_last());
        assert(spaced(all) =~= spaced(before) + " "@ + path + spaced(after));
    }
}

/// A pane that is split off adds its id behind those that are known, which stay as they are.
pub proof fn lemma_id_added(known: Option<Seq<Seq<char>>>, fresh: Seq<char>)
    ensures
        ids_after_split(known, fresh).last() == fresh,
        known matches Some(ids) ==> ids_after_split(known, fresh).len() == ids.len() + 1 && (forall|i: int|
            0 <= i < ids.len() ==> ids_after_split(known, fresh)[i] == #[trigger] ids[i]),
        known is None ==> ids_after_split(known, fresh).len() == 1,
{
}

/// A tree of files stands for its own directory, and a tree of one file for the directory that the
/// file is in. Nothing is made of a root that is not known.
pub proof fn lemma_tree_directory(tree: Worktree)
    ensures
        tree.root_is_dir == Some(true) ==> tree_directory(Some(tree)) == Some(tree.path@),
        tree.root_is_dir == Some(false) && tree.parent is Some ==> tree_directory(Some(tree)) == Some(tree.parent->0@),
        tree.root_is_dir == Some(false) && tree.parent is None ==> tree_directory(Some(tree)) is None,
        tree.root_is_dir is None ==> tree_directory(Some(tree)) is None,
        tree_directory(None) is None,
{
}

/// A terminal starts in the first directory that the settings name and that there is: that of the
/// file, that of the project, that of the first tree. Where there is none, and where the settings
/// ask for it, it starts in the home directory.
pub proof fn lemma_starts_in(d: Directories, home: String)
    requires
        !d.remote,
        d.home == Some(home),
    ensures
        directory_for(WorkingDirectory::AlwaysHome, d) == Some(home@),
        d.configured is Some ==> directory_for(WorkingDirectory::Always, d) == Some(d.configured->0@),
        d.configured is None ==> directory_for(WorkingDirectory::Always, d) == Some(home@),
        d.current_file is Some ==> directory_for(WorkingDirectory::CurrentFileDirectory, d) == Some(
            d.current_file->0@,
        ),
        d.current_file is None ==> directory_for(WorkingDirectory::CurrentFileDirectory, d) == directory_for(
            WorkingDirectory::CurrentProjectDirectory,
            d,
        ),
        d.current_project is Some ==> directory_for(WorkingDirectory::CurrentProjectDirectory, d) == Some(
            d.current_project->0@,
        ),
        d.current_project is None ==> directory_for(WorkingDirectory::CurrentProjectDirectory, d) == directory_for(
            WorkingDirectory::FirstProjectDirectory,
            d,
        ),
        d.first_worktree is None ==> directory_for(WorkingDirectory::FirstProjectDirectory, d) == Some(home@),
        d.first_worktree matches Some(tree) ==> tree.root_is_dir == Some(true) ==> directory_for(
            WorkingDirectory::FirstProjectDirectory,
            d,
        ) == Some(tree.path@),
        d.first_worktree matches Some(tree) ==> tree.root_is_dir == Some(false) && tree.parent is Some ==> directory_for(
            WorkingDirectory::FirstProjectDirectory,
            d,
        ) == Some(tree.parent->0@),
{
}

/// For a project on another machine no directory of this one is used: neither the home directory
/// nor the one from the settings makes a difference.
pub proof fn lemma_remote_directory(setting: WorkingDirectory, d: Directories, other: Directories)
    requires
        d.remote,
        other.remote,
        d.current_file == other.current_file,
        d.current_project == other.current_project,
        d.first_worktree == other.first_worktree,
    ensures
        directory_for(setting, d) == directory_for(setting, other),
        directory_for(WorkingDirectory::AlwaysHome, d) is None,
        directory_for(WorkingDirectory::Always, d) is None,
        d.current_file is Some ==> directory_for(WorkingDirectory::CurrentFileDirectory, d) == Some(
            d.current_file->0@,
        ),
        d.current_project is Some ==> directory_for(WorkingDirectory::CurrentProjectDirectory, d) == Some(
            d.current_project->0@,
        ),
        d.first_worktree matches Some(tree) ==> tree.root_is_dir == Some(true) ==> directory_for(
            WorkingDirectory::FirstProjectDirectory,
            d,
        ) == Some(tree.path@),
{
}

/// A new view belongs to its workspace, is as the settings say, and holds nothing else yet.
pub proof fn lemma_new_view(workspace_id: Option<i64>, cursor_shape: CursorShape, show_breadcrumbs: bool)
    ensures
        ({
            let view = new_view(workspace_id, cursor_shape, show_breadcrumbs);
            &&& view.workspace_id == workspace_id
            &&& view.cursor_shape == cursor_shape
            &&& view.show_breadcrumbs == show_breadcrumbs
            &&& view.mode is Standalone
            &&& !view.has_bell && !view.blinking_terminal_enabled && !view.needs_serialize
            &&& view.custom_title is None && view.custom_icon is None && view.hover is None
            &&& view.block_below_cursor is None && view.marked_text is None && view.previous_cwd is None
            &&& view.scroll_top == 0
        }),
{
}

} // verus!
