//! How the window is created.

use vstd::prelude::*;
use crate::config::{window_mode_of, WindowConfig, WindowMode};
use crate::model::WindowState;
use crate::som_db::SomWindowBounds;
use crate::text::{opt_text, same_text};

verus! {

/// Who draws the frame of the window.
#[derive(Debug, Clone, Copy, PartialEq, Eq, Structural)]
pub enum WindowDecorations {
    Server,
    Client,
}

/// Where a window goes, in pixels.
#[derive(Debug, Clone, Copy, PartialEq, Eq, Structural)]
pub enum WindowPlace {
    /// There.
    At { x: i64, y: i64, width: i64, height: i64 },
    /// Where that display puts windows by default.
    DefaultOf(usize),
    /// At `INSET` pixels each way, and twice as many smaller than that display each way, but no
    /// smaller than the least size.
    InsetIn(usize),
}

/// How far a window stays from the edges of a display where nothing else is known.
pub const INSET: i64 = 50;

/// The least width and height of the window.
pub const MIN_WIDTH: i64 = 360;

pub const MIN_HEIGHT: i64 = 240;

/// How a window is created: without a place the platform chooses one.
#[derive(Debug, PartialEq, Eq)]
pub struct WindowPlan {
    pub bounds: Option<(WindowState, WindowPlace)>,
    pub start_minimized: bool,
    pub decorations: WindowDecorations,
    pub display: Option<usize>,
    /// The group in which the platform puts windows together as tabs.
    pub tabbing_identifier: Option<String>,
}

/// The place of the first display of an id, or the number of displays. A display need not have an
/// id.
pub open spec fn display_place(displays: Seq<Option<String>>, id: Seq<char>) -> int
    decreases displays.len(),
{
    if displays.len() == 0 {
        0
    } else if opt_text(displays[0]) == Some(id) {
        0
    } else {
        1 + display_place(displays.skip(1), id)
    }
}

pub open spec fn display_for(displays: Seq<Option<String>>, id: Option<Seq<char>>) -> Option<int> {
    match id {
        Some(id) => if display_place(displays, id) < displays.len() {
            Some(display_place(displays, id))
        } else {
            None
        },
        None => None,
    }
}

pub open spec fn opt_usize(value: Option<usize>) -> Option<int> {
    match value {
        Some(n) => Some(n as int),
        None => None,
    }
}

/// An environment variable overrides the settings where it names one of the two.
pub open spec fn decorations_of(variable: Option<Seq<char>>, setting: WindowDecorations) -> WindowDecorations {
    if variable == Some("server"@) {
        WindowDecorations::Server
    } else if variable == Some("client"@) {
        WindowDecorations::Client
    } else {
        setting
    }
}

/// The size that a window which fills the screen goes back to.
pub open spec fn place_to_restore(display: Option<usize>) -> WindowPlace {
    match display {
        Some(display) => WindowPlace::DefaultOf(display),
        None => WindowPlace::At { x: 0, y: 0, width: 1024, height: 768 },
    }
}

/// The place of an ordinary window: what the settings say, else where it was last, else inside the
/// display, which is taken to be 1920 by 1080 where it is not known.
pub open spec fn windowed_place(
    explicit: Option<(u32, u32, u32, u32)>,
    remembered: Option<SomWindowBounds>,
    display: Option<usize>,
) -> WindowPlace {
    match (explicit, remembered, display) {
        (Some((top, left, width, height)), _, _) => WindowPlace::At {
            x: left as i64,
            y: top as i64,
            width: width as i64,
            height: height as i64,
        },
        (None, Some(b), _) => WindowPlace::At {
            x: b.x as i64,
            y: b.y as i64,
            width: b.width as i64,
            height: b.height as i64,
        },
        (None, None, Some(display)) => WindowPlace::InsetIn(display),
        (None, None, None) => WindowPlace::At { x: 50, y: 50, width: 1820, height: 980 },
    }
}

proof fn lemma_display_place(displays: Seq<Option<String>>, id: Seq<char>, place: int)
    requires
        0 <= place <= displays.len(),
        place < displays.len() ==> opt_text(displays[place]) == Some(id),
        forall|i: int| 0 <= i < place ==> opt_text(#[trigger] displays[i]) != Some(id),
    ensures
        display_place(displays, id) == place,
    decreases displays.len(),
{
    if place > 0 {
        let rest = displays.skip(1);
        assert(opt_text(displays[0]) != Some(id));
        assert forall|i: int| 0 <= i < place - 1 implies opt_text(#[trigger] rest[i]) != Some(id) by {
            assert(rest[i] == displays[i + 1]);
        }
        lemma_display_place(rest, id, place - 1);
    }
}

fn find_display(displays: &Vec<Option<String>>, id: &Option<String>) -> (r: Option<usize>)
    ensures
        opt_usize(r) == display_for(displays@, opt_text(*id)),
{
    let wanted = match id {
        Some(wanted) => wanted,
        None => return None,
    };
    let mut i: usize = 0;
    while i < displays.len()
        invariant
            i <= displays@.len(),
            forall|j: int| 0 <= j < i ==> opt_text(#[trigger] displays@[j]) != Some(wanted@),
            opt_text(*id) == Some(wanted@),
        decreases displays@.len() - i,
    {
        let found = match &displays[i] {
            Some(display) => same_text(display.as_str(), wanted.as_str()),
            None => false,
        };
        if found {
            proof {
                lemma_display_place(displays@, wanted@, i as int);
            }
            return Some(i);
        }
        i += 1;
    }
    proof {
        lemma_display_place(displays@, wanted@, i as int);
    }
    None
}

/// Decides how the window is created. `window.mode` of the settings is authoritative on every
/// start, and an ordinary window goes where the settings or, failing them, the session file say.
pub fn build_window_options(
    config: &WindowConfig,
    remembered: Option<SomWindowBounds>,
    displays: &Vec<Option<String>>,
    display_uuid: &Option<String>,
    decorations_variable: &Option<String>,
    decorations_setting: WindowDecorations,
    use_system_window_tabs: bool,
    started_minimized: bool,
) -> (r: WindowPlan)
    ensures
        opt_usize(r.display) == display_for(displays@, opt_text(*display_uuid)),
        ({
            let explicit = match (config.position, config.size) {
                (Some(p), Some(s)) => if p.top != 0 && p.left != 0 && s.width != 0 && s.height != 0 {
                    Some((p.top, p.left, s.width, s.height))
                } else {
                    None
                },
                _ => None,
            };
            r.bounds == match window_mode_of(opt_text(config.mode)) {
                WindowMode::Maximized => Some((WindowState::Maximized, place_to_restore(r.display))),
                WindowMode::Fullscreen => Some((WindowState::Fullscreen, place_to_restore(r.display))),
                WindowMode::Windowed => Some(
                    (WindowState::Windowed, windowed_place(explicit, remembered, r.display)),
                ),
                WindowMode::Minimized => None,
            }
        }),
        r.start_minimized == (window_mode_of(opt_text(config.mode)) == WindowMode::Minimized || started_minimized),
        r.decorations == decorations_of(opt_text(*decorations_variable), decorations_setting),
        opt_text(r.tabbing_identifier) == if use_system_window_tabs {
            Some("zed"@)
        } else {
            None
        },
{
    let display = find_display(displays, display_uuid);
    let decorations = match decorations_variable {
        Some(value) => if same_text(value.as_str(), "server") {
            WindowDecorations::Server
        } else if same_text(value.as_str(), "client") {
            WindowDecorations::Client
        } else {
            decorations_setting
        },
        None => decorations_setting,
    };
    let mode = config.mode();
    let to_restore = match display {
        Some(display) => WindowPlace::DefaultOf(display),
        None => WindowPlace::At { x: 0, y: 0, width: 1024, height: 768 },
    };
    let bounds = match mode {
        WindowMode::Maximized => Some((WindowState::Maximized, to_restore)),
        WindowMode::Fullscreen => Some((WindowState::Fullscreen, to_restore)),
        WindowMode::Windowed => {
            let place = match config.explicit_windowed_bounds() {
                Some((top, left, width, height)) => WindowPlace::At {
                    x: left as i64,
                    y: top as i64,
                    width: width as i64,
                    height: height as i64,
                },
                None => match remembered {
                    Some(b) => WindowPlace::At {
                        x: b.x as i64,
                        y: b.y as i64,
                        width: b.width as i64,
                        height: b.height as i64,
                    },
                    None => match display {
                        Some(display) => WindowPlace::InsetIn(display),
                        None => WindowPlace::At { x: 50, y: 50, width: 1820, height: 980 },
                    },
                },
            };
            Some((WindowState::Windowed, place))
        },
        WindowMode::Minimized => None,
    };
    let minimized = match mode {
        WindowMode::Minimized => true,
        _ => started_minimized,
    };
    let tabbing_identifier = if use_system_window_tabs {
        Some("zed".to_owned())
    } else {
        None
    };
    WindowPlan { bounds, start_minimized: minimized, decorations, display, tabbing_identifier }
}

/// Whether closing a window ends the program: where it was the last one, except on a Mac that is
/// set to go on without windows.
pub fn quits_on_window_closed(macos: bool, quit_when_last_closed: bool, windows_left: usize) -> (r: bool)
    ensures
        r == (windows_left == 0 && (!macos || quit_when_last_closed)),
{
    windows_left == 0 && (!macos || quit_when_last_closed)
}

/// An ordinary window goes where the settings say; failing them to where it was, not elsewhere; and
/// failing that into the display it belongs to.
pub proof fn lemma_window_goes_where_told(
    explicit: Option<(u32, u32, u32, u32)>,
    remembered: Option<SomWindowBounds>,
    display: Option<usize>,
)
    ensures
        ({
            let place = windowed_place(explicit, remembered, display);
            &&& explicit matches Some((top, left, width, height)) ==> (place matches WindowPlace::At {
                x,
                y,
                width: w,
                height: h,
            } && x == left && y == top && w == width && h == height)
            &&& explicit is None ==> (remembered matches Some(b) ==> (place matches WindowPlace::At {
                x,
                y,
                width,
                height,
            } && x == b.x && y == b.y && width == b.width && height == b.height))
            &&& explicit is None && remembered is None ==> (display matches Some(d) ==> place == WindowPlace::InsetIn(d))
            &&& explicit is None && remembered is None && display is None ==> (place matches WindowPlace::At {
                x,
                y,
                width,
                height,
            } && x == 50 && y == 50 && width + 2 * x == 1920 && height + 2 * y == 1080)
        }),
{
}

/// A window that fills the screen goes back to the default of its display, else to a size that fits any.
pub proof fn lemma_place_to_restore(display: Option<usize>)
    ensures
        display matches Some(d) ==> place_to_restore(display) == WindowPlace::DefaultOf(d),
        display is None ==> place_to_restore(display) == (WindowPlace::At { x: 0, y: 0, width: 1024, height: 768 }),
{
}

/// The environment has the last word on who draws the frame, where it names one of the two.
pub proof fn lemma_decorations(variable: Option<Seq<char>>, setting: WindowDecorations)
    ensures
        variable == Some("server"@) ==> decorations_of(variable, setting) == WindowDecorations::Server,
        variable == Some("client"@) ==> decorations_of(variable, setting) == WindowDecorations::Client,
        variable != Some("server"@) && variable != Some("client"@) ==> decorations_of(variable, setting) == setting,
{
    reveal_strlit("server");
    reveal_strlit("client");
    assert("server"@[0] != "client"@[0]);
}

/// A window belongs to the first display of the id that was remembered, and to none where no display
/// has it.
pub proof fn lemma_display_found(displays: Seq<Option<String>>, id: Seq<char>, place: int)
    requires
        0 <= place <= displays.len(),
        place < displays.len() ==> (displays[place] matches Some(d) && d@ == id),
        forall|i: int| 0 <= i < place ==> !(#[trigger] displays[i] matches Some(d) && d@ == id),
    ensures
        display_for(displays, Some(id)) == (if place < displays.len() {
            Some(place)
        } else {
            None
        }),
        display_for(displays, None) is None,
{
    assert forall|i: int| 0 <= i < place implies opt_text(#[trigger] displays[i]) != Some(id) by {
        assert(!(displays[i] matches Some(d) && d@ == id));
    }
    lemma_display_place(displays, id, place);
}

} // verus!
