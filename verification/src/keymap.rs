//! Reloading the key bindings, and other things the user is told by the running program.

use vstd::prelude::*;
use crate::text::{opt_text, texts};

verus! {

/// What came of reading the user's bindings.
#[derive(Debug, PartialEq, Eq)]
pub enum KeymapFileLoadResult {
    Success,
    /// Some bindings are wrong; there may be right ones among them.
    SomeFailedToLoad { any_bindings: bool, error_message: String },
    JsonParseFailure { error: String },
}

/// What is done about it: whether the bindings are replaced, and the notification to show. Without
/// one, an earlier one is taken away.
#[derive(Debug, PartialEq, Eq)]
pub struct KeymapEffect {
    pub reload: bool,
    pub notification: Option<String>,
}

pub open spec fn json_error_text(error: Seq<char>) -> Seq<char> {
    "JSON parse error in keymap file. Bindings not reloaded.\n\n"@ + error
}

pub open spec fn load_error_text(message: Seq<char>) -> Seq<char> {
    "Invalid keymap file\n"@ + message
}

pub fn show_keymap_file_json_error(error: &str) -> (r: String)
    ensures
        r@ == json_error_text(error@),
{
    "JSON parse error in keymap file. Bindings not reloaded.\n\n".to_owned().concat(error)
}

pub fn show_keymap_file_load_error(message: &str) -> (r: String)
    ensures
        r@ == load_error_text(message@),
{
    "Invalid keymap file\n".to_owned().concat(message)
}

/// Decides what follows from reading the user's bindings: what is right is used, and what is wrong
/// is reported.
pub fn keymap_effect(result: &KeymapFileLoadResult) -> (r: KeymapEffect)
    ensures
        match *result {
            KeymapFileLoadResult::Success => r.reload && r.notification is None,
            KeymapFileLoadResult::SomeFailedToLoad { any_bindings, error_message } => {
                r.reload == any_bindings && opt_text(r.notification) == Some(load_error_text(error_message@))
            },
            KeymapFileLoadResult::JsonParseFailure { error } => {
                !r.reload && opt_text(r.notification) == Some(json_error_text(error@))
            },
        },
{
    match result {
        KeymapFileLoadResult::Success => KeymapEffect { reload: true, notification: None },
        KeymapFileLoadResult::SomeFailedToLoad { any_bindings, error_message } => KeymapEffect {
            reload: *any_bindings,
            notification: Some(show_keymap_file_load_error(error_message.as_str())),
        },
        KeymapFileLoadResult::JsonParseFailure { error } => KeymapEffect {
            reload: false,
            notification: Some(show_keymap_file_json_error(error.as_str())),
        },
    }
}

/// What makes the bindings be read anew.
#[derive(Debug, PartialEq, Eq)]
pub enum KeymapChange {
    BaseKeymap,
    KeyboardLayout,
    /// The user's file, with its content where it could be read.
    UserFile(Option<String>),
}

/// The content of the user's file to go by after a change: the last that could be read.
pub fn keymap_content_after(content: String, change: KeymapChange) -> (r: String)
    ensures
        r@ == match change {
            KeymapChange::UserFile(Some(new)) => new@,
            _ => content@,
        },
{
    match change {
        KeymapChange::UserFile(Some(new)) => new,
        _ => content,
    }
}

/// The files of bindings that are not the user's own, in the order in which they are bound: later
/// ones count. There are none where the base is switched off or no default file is known.
pub fn load_default_keymap(base_is_none: bool, default_path: &str, base_path: Option<String>) -> (r: Vec<String>)
    ensures
        texts(r@) == if base_is_none || default_path@.len() == 0 {
            Seq::empty()
        } else {
            match opt_text(base_path) {
                Some(base) => seq![default_path@, base],
                None => seq![default_path@],
            }
        },
{
    let mut paths: Vec<String> = Vec::new();
    assert(texts(paths@) =~= Seq::empty());
    if base_is_none || default_path.unicode_len() == 0 {
        return paths;
    }
    crate::text::push_text(&mut paths, default_path);
    assert(texts(paths@) =~= seq![default_path@]);
    if let Some(base) = base_path {
        crate::text::push_text(&mut paths, base.as_str());
        assert(texts(paths@) =~= seq![default_path@, base@]);
    }
    paths
}

/// One part of replacing the bindings.
#[derive(Debug, Clone, Copy, PartialEq, Eq, Structural)]
pub enum ReloadStep {
    Clear,
    BindDefaults,
    BindUser,
    /// The bindings of the settings, which clearing has taken away as well.
    BindSettings,
    SetMenus,
}

/// The parts of replacing the bindings, in order: the settings have the last word.
pub fn reload_keymaps() -> (r: Vec<ReloadStep>)
    ensures
        r@ == seq![
            ReloadStep::Clear,
            ReloadStep::BindDefaults,
            ReloadStep::BindUser,
            ReloadStep::BindSettings,
            ReloadStep::SetMenus,
        ],
{
    let steps = vec![
        ReloadStep::Clear,
        ReloadStep::BindDefaults,
        ReloadStep::BindUser,
        ReloadStep::BindSettings,
        ReloadStep::SetMenus,
    ];
    assert(steps@ =~= seq![
        ReloadStep::Clear,
        ReloadStep::BindDefaults,
        ReloadStep::BindUser,
        ReloadStep::BindSettings,
        ReloadStep::SetMenus,
    ]);
    steps
}

/// What an address is once it has been read as a URL, or why it is none.
pub uninterp spec fn url_in_text(text: Seq<char>) -> Result<Seq<char>, Seq<char>>;

/// Calls `url::Url::parse`, and gives the URL as it is written in full, or the text of the error.
/// Its result has a name: the text alone decides it.
#[verifier::external_body]
fn parse_url(text: &str) -> (r: Result<String, String>)
    ensures
        result_text(r) == url_in_text(text@),
{
    match url::Url::parse(text) {
        Ok(url) => Ok(url.as_str().to_owned()),
        Err(e) => Err(e.to_string()),
    }
}

pub open spec fn result_text(result: Result<String, String>) -> Result<Seq<char>, Seq<char>> {
    match result {
        Ok(text) => Ok(text@),
        Err(text) => Err(text@),
    }
}

/// The address to open in a browser, or the error to show.
pub open spec fn browser_address(url: Seq<char>, parsed: Result<Seq<char>, Seq<char>>) -> Result<Seq<char>, Seq<char>> {
    match parsed {
        Ok(address) => Ok(address),
        Err(reason) => Err("Opening this URL failed: "@ + url + "\n\nError: "@ + reason),
    }
}

/// Decides what becomes of an address once it has been read.
pub fn browser_action(url: &str, parsed: Result<String, String>) -> (r: Result<String, String>)
    ensures
        result_text(r) == browser_address(url@, result_text(parsed)),
{
    match parsed {
        Ok(address) => Ok(address),
        Err(reason) => Err(
            "Opening this URL failed: ".to_owned().concat(url).concat("\n\nError: ").concat(reason.as_str()),
        ),
    }
}

/// The address to open in a browser, or the error to show.
pub fn open_browser(url: &str) -> (r: Result<String, String>)
    ensures
        result_text(r) == browser_address(url@, url_in_text(url@)),
{
    let parsed = parse_url(url);
    browser_action(url, parsed)
}

/// A question to the user, and the address that helps.
#[derive(Debug, PartialEq, Eq)]
pub struct GpuWarning {
    pub message: String,
    pub open_url: String,
}

pub open spec fn gpu_text(windows: bool, device: Seq<char>) -> Seq<char> {
    "Som uses "@ + (if windows {
        "DirectX"@
    } else {
        "Vulkan"@
    }) + " for rendering and requires a compatible GPU.\n\nCurrently you are using a software emulated GPU ("@
        + device + ") which\nwill result in awful performance.\n\nFor troubleshooting see: "@ + (if windows {
        "https://zed.dev/docs/windows"@
    } else {
        "https://zed.dev/docs/linux"@
    }) + "\nSet ZED_ALLOW_EMULATED_GPU=1 env var to permanently override.\n"@
}

pub open spec fn gpu_help(windows: bool) -> Seq<char> {
    if windows {
        "https://zed.dev/docs/windows"@
    } else {
        "https://zed.dev/docs/linux#zed-fails-to-open-windows"@
    }
}

/// The warning of a graphics processor that is emulated, unless the user allows that.
pub fn show_software_emulation_warning_if_needed(
    is_software_emulated: bool,
    allowed: bool,
    windows: bool,
    device_name: &str,
) -> (r: Option<GpuWarning>)
    ensures
        match r {
            Some(warning) => is_software_emulated && !allowed && warning.message@ == gpu_text(windows, device_name@)
                && warning.open_url@ == gpu_help(windows),
            None => !(is_software_emulated && !allowed),
        },
{
    if !is_software_emulated || allowed {
        return None;
    }
    let (api, docs, help) = if windows {
        ("DirectX", "https://zed.dev/docs/windows", "https://zed.dev/docs/windows")
    } else {
        (
            "Vulkan",
            "https://zed.dev/docs/linux",
            "https://zed.dev/docs/linux#zed-fails-to-open-windows",
        )
    };
    let message = "Som uses ".to_owned().concat(api).concat(
        " for rendering and requires a compatible GPU.\n\nCurrently you are using a software emulated GPU (",
    ).concat(device_name).concat(
        ") which\nwill result in awful performance.\n\nFor troubleshooting see: ",
    ).concat(docs).concat("\nSet ZED_ALLOW_EMULATED_GPU=1 env var to permanently override.\n");
    Some(GpuWarning { message, open_url: help.to_owned() })
}

/// A question that only ends the program.
#[derive(Debug, PartialEq, Eq)]
pub struct WatcherFailure {
    pub title: String,
    pub message: String,
}

/// What the user is told where files cannot be watched.
pub fn initialize_file_watcher(windows: bool, error: &str) -> (r: WatcherFailure)
    ensures
        r.title@ == if windows {
            "Could not start ReadDirectoryChangesW"@
        } else {
            "Could not start inotify"@
        },
        r.message@ == if windows {
            "ReadDirectoryChangesW initialization failed: "@ + error@ + "\n"@
        } else {
            "inotify_init returned "@ + error@
                + "\n\nThis may be due to system-wide limits on inotify instances.\n"@
        },
{
    if windows {
        WatcherFailure {
            title: "Could not start ReadDirectoryChangesW".to_owned(),
            message: "ReadDirectoryChangesW initialization failed: ".to_owned().concat(error).concat("\n"),
        }
    } else {
        WatcherFailure {
            title: "Could not start inotify".to_owned(),
            message: "inotify_init returned ".to_owned().concat(error).concat(
                "\n\nThis may be due to system-wide limits on inotify instances.\n",
            ),
        }
    }
}

/// An address that can be read is opened as it was read; of any other the user is told the address and
/// the reason.
pub proof fn lemma_browser_address(url: Seq<char>, parsed: Result<Seq<char>, Seq<char>>)
    ensures
        parsed matches Ok(address) ==> browser_address(url, parsed) == Ok::<Seq<char>, Seq<char>>(address),
        parsed matches Err(reason) ==> (browser_address(url, parsed) matches Err(message) && message
            == "Opening this URL failed: "@ + url + "\n\nError: "@ + reason),
{
}

/// The user of an emulated graphics processor is told which one it is and where help is found: on
/// Windows that of DirectX, elsewhere that of Vulkan.
pub proof fn lemma_gpu_warning(device: Seq<char>)
    ensures
        gpu_text(true, device) == "Som uses "@ + "DirectX"@
            + " for rendering and requires a compatible GPU.\n\nCurrently you are using a software emulated GPU ("@ + device
            + ") which\nwill result in awful performance.\n\nFor troubleshooting see: "@
            + "https://zed.dev/docs/windows"@ + "\nSet ZED_ALLOW_EMULATED_GPU=1 env var to permanently override.\n"@,
        gpu_text(false, device) == "Som uses "@ + "Vulkan"@
            + " for rendering and requires a compatible GPU.\n\nCurrently you are using a software emulated GPU ("@ + device
            + ") which\nwill result in awful performance.\n\nFor troubleshooting see: "@ + "https://zed.dev/docs/linux"@
            + "\nSet ZED_ALLOW_EMULATED_GPU=1 env var to permanently override.\n"@,
        gpu_help(true) == "https://zed.dev/docs/windows"@,
        gpu_help(false) == "https://zed.dev/docs/linux#zed-fails-to-open-windows"@,
{
}

/// What is wrong with the bindings is told in full, behind what has become of them.
pub proof fn lemma_keymap_errors_told(error: Seq<char>)
    ensures
        json_error_text(error) == "JSON parse error in keymap file. Bindings not reloaded.\n\n"@ + error,
        load_error_text(error) == "Invalid keymap file\n"@ + error,
{
}

} // verus!
