//! What the settings file makes of the settings of the program's parts, and reading it.

use vstd::prelude::*;
use crate::config::{
    default_number, default_position, keymap_json, strictly_growing, FeatureValue, PaddingConfig, SomConfig,
    TabProfile,
};
use crate::decimal::{integer_text, unsigned_of, unsigned_text};
use crate::keys::{key_entries, overlaid, overlay_keys};
use crate::text::{
    join, joined, lines, lines_of, opt_text, replace_char, replace_text, same_text, texts, trim, trimmed,
    with_char_replaced, with_text_replaced,
};

verus! {

/// A value between two pieces of text, where there is one.
pub open spec fn part(prefix: Seq<char>, value: Option<Seq<char>>, suffix: Seq<char>) -> Seq<Seq<char>> {
    match value {
        Some(v) => seq![prefix + v + suffix],
        None => Seq::empty(),
    }
}

/// A text that is not empty.
pub open spec fn filled(value: Option<Seq<char>>) -> Option<Seq<char>> {
    match value {
        Some(v) => if v.len() > 0 {
            Some(v)
        } else {
            None
        },
        None => None,
    }
}

/// The parts joined, where there are any.
pub open spec fn joined_if_any(parts: Seq<Seq<char>>) -> Option<Seq<char>> {
    if parts.len() > 0 {
        Some(joined(parts, ", "@))
    } else {
        None
    }
}

pub open spec fn ascii_alphanumeric(c: char) -> bool {
    '0' <= c <= '9' || 'a' <= c <= 'z' || 'A' <= c <= 'Z'
}

/// The tag of a font feature: four letters or digits.
pub open spec fn feature_tag(s: Seq<char>) -> bool {
    s.len() == 4 && forall|i: int| 0 <= i < s.len() ==> ascii_alphanumeric(#[trigger] s[i])
}

/// A font feature, where its tag and its value are understood.
pub open spec fn feature_text(tag: Seq<char>, value: FeatureValue) -> Option<Seq<char>> {
    if !feature_tag(tag) {
        None
    } else {
        match value {
            FeatureValue::Bool(on) => Some("\""@ + tag + "\": "@ + integer_text(if on {
                1
            } else {
                0
            })),
            FeatureValue::Unsigned(n) => Some("\""@ + tag + "\": "@ + integer_text(n as int)),
            FeatureValue::Other => None,
        }
    }
}

/// The font features that are understood, in order.
pub open spec fn feature_texts(features: Seq<(String, FeatureValue)>) -> Seq<Seq<char>>
    decreases features.len(),
{
    if features.len() == 0 {
        Seq::empty()
    } else {
        let before = feature_texts(features.drop_last());
        match feature_text(features.last().0@, features.last().1) {
            Some(f) => before.push(f),
            None => before,
        }
    }
}

/// Whether the cursor blinks: `on`, `off`, or as the terminal says.
pub open spec fn blinking_value(blinking: Seq<char>) -> Seq<char> {
    if blinking == "on"@ {
        "on"@
    } else if blinking == "off"@ {
        "off"@
    } else {
        "terminal_controlled"@
    }
}

pub open spec fn opt_blinking(blinking: Option<String>) -> Option<Seq<char>> {
    match blinking {
        Some(b) => Some(blinking_value(b@)),
        None => None,
    }
}

pub open spec fn opt_number(n: Option<u32>) -> Option<Seq<char>> {
    match n {
        Some(n) => Some(integer_text(n as int)),
        None => None,
    }
}

/// What is changed of the theme: the cursor's colour, and that of the selection.
pub open spec fn theme_override_parts(config: SomConfig) -> Seq<Seq<char>> {
    part("\"players\": [{ \"cursor\": \""@, filled(opt_text(config.cursor.color)), "\" }]"@) + part(
        "\"text.accent\": \""@,
        filled(opt_text(config.window.selection)),
        "\""@,
    )
}

/// The settings of the terminal's font.
pub open spec fn terminal_font_parts(config: SomConfig) -> Seq<Seq<char>> {
    part("\"font_family\": \""@, opt_text(config.font.face), "\""@) + part(
        "\"font_size\": "@,
        opt_text(config.font.size),
        ""@,
    ) + part("\"font_weight\": "@, opt_text(config.font.weight), ""@) + part(
        "\"line_height\": { \"custom\": "@,
        opt_text(config.font.line_height),
        " }"@,
    ) + part("\"font_features\": { "@, joined_if_any(feature_texts(config.font.features@)), " }"@)
}

/// The settings of the terminal's cursor and of scrolling.
pub open spec fn terminal_cursor_parts(config: SomConfig) -> Seq<Seq<char>> {
    part("\"cursor_shape\": \""@, opt_text(config.cursor.shape), "\""@) + part(
        "\"blinking\": \""@,
        opt_blinking(config.cursor.blinking),
        "\""@,
    ) + part("\"scroll_multiplier\": "@, opt_text(config.scroll.scroll_multiplier), ""@) + part(
        "\"max_scroll_history_lines\": "@,
        opt_number(config.scroll.max_scroll_history),
        ""@,
    ) + part("\"alternate_scroll\": \""@, opt_text(config.scroll.alternate_scroll), "\""@)
}

/// The settings of the terminal. Copying on selection and the silent bell are fixed.
pub open spec fn terminal_parts(config: SomConfig) -> Seq<Seq<char>> {
    terminal_font_parts(config) + terminal_cursor_parts(config) + seq![
        "\"copy_on_select\": true"@,
        "\"bell\": \"off\""@,
    ]
}

/// The settings of the whole program.
pub open spec fn setting_parts(config: SomConfig) -> Seq<Seq<char>> {
    part("\"theme\": \""@, opt_text(config.window.theme), "\""@) + part(
        "\"experimental.theme_overrides\": { "@,
        joined_if_any(theme_override_parts(config)),
        " }"@,
    ) + part("\"buffer_font_family\": \""@, opt_text(config.font.face), "\""@) + part(
        "\"buffer_font_weight\": "@,
        opt_text(config.font.weight),
        ""@,
    ) + part("\"terminal\": { "@, Some(joined(terminal_parts(config), ", "@)), " }"@) + seq![
        "\"tab_bar\": { \"show\": false }"@,
    ]
}

pub open spec fn settings_json(config: SomConfig) -> Seq<char> {
    "{ "@ + joined(setting_parts(config), ", "@) + " }"@
}

fn push_part(out: &mut Vec<String>, prefix: &str, value: Option<&str>, suffix: &str)
    ensures
        texts(final(out)@) == texts(old(out)@) + part(
            prefix@,
            match value {
                Some(v) => Some(v@),
                None => None,
            },
            suffix@,
        ),
{
    if let Some(v) = value {
        let mut text = String::from_str(prefix);
        text.append(v);
        text.append(suffix);
        out.push(text);
        assert(texts(out@) =~= texts(old(out)@).push(text@));
    }
    assert(texts(out@) =~= texts(old(out)@) + part(
        prefix@,
        match value {
            Some(v) => Some(v@),
            None => None,
        },
        suffix@,
    ));
}

fn push_opt(out: &mut Vec<String>, prefix: &str, value: &Option<String>, suffix: &str)
    ensures
        texts(final(out)@) == texts(old(out)@) + part(prefix@, opt_text(*value), suffix@),
{
    match value {
        Some(v) => push_part(out, prefix, Some(v.as_str()), suffix),
        None => push_part(out, prefix, None, suffix),
    }
}

fn push_filled(out: &mut Vec<String>, prefix: &str, value: &Option<String>, suffix: &str)
    ensures
        texts(final(out)@) == texts(old(out)@) + part(prefix@, filled(opt_text(*value)), suffix@),
{
    match value {
        Some(v) => if v.as_str().unicode_len() > 0 {
            push_part(out, prefix, Some(v.as_str()), suffix)
        } else {
            push_part(out, prefix, None, suffix)
        },
        None => push_part(out, prefix, None, suffix),
    }
}

fn push_joined(out: &mut Vec<String>, prefix: &str, parts: &Vec<String>, suffix: &str)
    ensures
        texts(final(out)@) == texts(old(out)@) + part(
            prefix@,
            joined_if_any(texts(parts@)),
            suffix@,
        ),
{
    assert(texts(parts@).len() == parts@.len());
    if parts.len() > 0 {
        let list = join(parts, ", ");
        push_part(out, prefix, Some(list.as_str()), suffix)
    } else {
        push_part(out, prefix, None, suffix)
    }
}

fn is_feature_tag(tag: &str) -> (r: bool)
    ensures
        r == feature_tag(tag@),
{
    let chars = crate::text::chars_of(tag);
    if chars.len() != 4 {
        return false;
    }
    let mut i: usize = 0;
    while i < chars.len()
        invariant
            chars@ == tag@,
            i <= chars@.len(),
            forall|j: int| 0 <= j < i ==> ascii_alphanumeric(#[trigger] tag@[j]),
        decreases chars@.len() - i,
    {
        let c = chars[i];
        if !(('0' <= c && c <= '9') || ('a' <= c && c <= 'z') || ('A' <= c && c <= 'Z')) {
            assert(!ascii_alphanumeric(tag@[i as int]));
            return false;
        }
        i += 1;
    }
    true
}

fn features_text(features: &Vec<(String, FeatureValue)>) -> (r: Vec<String>)
    ensures
        texts(r@) == feature_texts(features@),
{
    let mut out: Vec<String> = Vec::new();
    let mut i: usize = 0;
    assert(texts(out@) =~= feature_texts(features@.take(0)));
    while i < features.len()
        invariant
            i <= features@.len(),
            texts(out@) == feature_texts(features@.take(i as int)),
        decreases features@.len() - i,
    {
        let ghost before = out@;
        assert(features@.take(i + 1).drop_last() =~= features@.take(i as int));
        let tag = features[i].0.as_str();
        if is_feature_tag(tag) {
            let number: Option<u64> = match features[i].1 {
                FeatureValue::Bool(on) => if on {
                    Some(1)
                } else {
                    Some(0)
                },
                FeatureValue::Unsigned(n) => Some(n),
                FeatureValue::Other => None,
            };
            if let Some(n) = number {
                let mut text = String::from_str("\"");
                text.append(tag);
                text.append("\": ");
                let digits = unsigned_text(n);
                text.append(digits.as_str());
                out.push(text);
                assert(texts(out@) =~= texts(before).push(text@));
            }
        }
        i += 1;
    }
    assert(features@.take(i as int) =~= features@);
    out
}

impl SomConfig {
    fn theme_overrides(&self) -> (r: Vec<String>)
        ensures
            texts(r@) == theme_override_parts(*self),
    {
        let mut out: Vec<String> = Vec::new();
        push_filled(&mut out, "\"players\": [{ \"cursor\": \"", &self.cursor.color, "\" }]");
        push_filled(&mut out, "\"text.accent\": \"", &self.window.selection, "\"");
        assert(texts(out@) =~= theme_override_parts(*self));
        out
    }

    fn terminal_font(&self) -> (r: Vec<String>)
        ensures
            texts(r@) == terminal_font_parts(*self),
    {
        let mut out: Vec<String> = Vec::new();
        push_opt(&mut out, "\"font_family\": \"", &self.font.face, "\"");
        push_opt(&mut out, "\"font_size\": ", &self.font.size, "");
        push_opt(&mut out, "\"font_weight\": ", &self.font.weight, "");
        push_opt(&mut out, "\"line_height\": { \"custom\": ", &self.font.line_height, " }");
        let features = features_text(&self.font.features);
        push_joined(&mut out, "\"font_features\": { ", &features, " }");
        assert(texts(out@) =~= terminal_font_parts(*self));
        out
    }

    fn terminal_cursor(&self) -> (r: Vec<String>)
        ensures
            texts(r@) == terminal_cursor_parts(*self),
    {
        let mut out: Vec<String> = Vec::new();
        push_opt(&mut out, "\"cursor_shape\": \"", &self.cursor.shape, "\"");
        let blinking = match &self.cursor.blinking {
            Some(b) => if same_text(b.as_str(), "on") {
                Some("on")
            } else if same_text(b.as_str(), "off") {
                Some("off")
            } else {
                Some("terminal_controlled")
            },
            None => None,
        };
        push_part(&mut out, "\"blinking\": \"", blinking, "\"");
        push_opt(&mut out, "\"scroll_multiplier\": ", &self.scroll.scroll_multiplier, "");
        let history = match self.scroll.max_scroll_history {
            Some(n) => Some(unsigned_text(n as u64)),
            None => None,
        };
        push_opt(&mut out, "\"max_scroll_history_lines\": ", &history, "");
        push_opt(&mut out, "\"alternate_scroll\": \"", &self.scroll.alternate_scroll, "\"");
        assert(texts(out@) =~= terminal_cursor_parts(*self));
        out
    }

    fn terminal_settings(&self) -> (r: Vec<String>)
        ensures
            texts(r@) == terminal_parts(*self),
    {
        let mut out = self.terminal_font();
        let cursor = self.terminal_cursor();
        crate::text::push_all(&mut out, &cursor);
        crate::text::push_text(&mut out, "\"copy_on_select\": true");
        crate::text::push_text(&mut out, "\"bell\": \"off\"");
        assert(texts(out@) =~= terminal_parts(*self));
        out
    }

    /// The settings of the program's parts.
    pub fn apply_settings(&self) -> (r: String)
        ensures
            r@ == settings_json(*self),
    {
        let mut parts: Vec<String> = Vec::new();
        push_opt(&mut parts, "\"theme\": \"", &self.window.theme, "\"");
        let overrides = self.theme_overrides();
        push_joined(&mut parts, "\"experimental.theme_overrides\": { ", &overrides, " }");
        push_opt(&mut parts, "\"buffer_font_family\": \"", &self.font.face, "\"");
        push_opt(&mut parts, "\"buffer_font_weight\": ", &self.font.weight, "");
        let terminal = self.terminal_settings();
        let list = join(&terminal, ", ");
        push_part(&mut parts, "\"terminal\": { ", Some(list.as_str()), " }");
        crate::text::push_text(&mut parts, "\"tab_bar\": { \"show\": false }");
        assert(texts(parts@) =~= setting_parts(*self));
        let mut out = String::from_str("{ ");
        let all = join(&parts, ", ");
        out.append(all.as_str());
        out.append(" }");
        out
    }
}

/// How many profiles are marked as the default one.
pub open spec fn default_count(tabs: Seq<TabProfile>) -> nat
    decreases tabs.len(),
{
    if tabs.len() == 0 {
        0
    } else {
        default_count(tabs.drop_last()) + if tabs.last().default {
            1nat
        } else {
            0
        }
    }
}

/// The place of the profile that a new tab opens by default: the one that is marked or, where none
/// is, the first. Of several the first counts.
pub open spec fn default_place(tabs: Seq<TabProfile>) -> int
    decreases tabs.len(),
{
    if tabs.len() == 0 {
        0
    } else if default_count(tabs.drop_last()) > 0 {
        default_place(tabs.drop_last())
    } else if tabs.last().default {
        tabs.len() - 1
    } else {
        0
    }
}

/// Which profile a new tab opens by default.
pub fn default_index(tabs: &Vec<TabProfile>) -> (r: usize)
    ensures
        r == default_place(tabs@),
        forall|i: int| 0 <= i < tabs@.len() && (#[trigger] tabs@[i]).default ==> r <= i && tabs@[r as int].default,
{
    let mut i: usize = 0;
    assert(tabs@.take(0).len() == 0);
    while i < tabs.len()
        invariant
            i <= tabs@.len(),
            default_count(tabs@.take(i as int)) == 0,
            default_place(tabs@.take(i as int)) == 0,
            forall|j: int| 0 <= j < i ==> !(#[trigger] tabs@[j]).default,
        decreases tabs@.len() - i,
    {
        assert(tabs@.take(i + 1).drop_last() =~= tabs@.take(i as int));
        if tabs[i].default {
            proof {
                lemma_default_stays(tabs@, i + 1);
            }
            return i;
        }
        i += 1;
    }
    assert(tabs@.take(i as int) =~= tabs@);
    0
}

proof fn lemma_default_stays(tabs: Seq<TabProfile>, n: int)
    requires
        0 <= n <= tabs.len(),
        default_count(tabs.take(n)) > 0,
    ensures
        default_count(tabs) > 0,
        default_place(tabs) == default_place(tabs.take(n)),
    decreases tabs.len() - n,
{
    if n == tabs.len() {
        assert(tabs.take(n) =~= tabs);
    } else {
        assert(tabs.take(n + 1).drop_last() =~= tabs.take(n));
        lemma_default_stays(tabs, n + 1);
    }
}

pub open spec fn too_many_defaults_text(count: nat) -> Seq<char> {
    "settings.json: only one tab profile may have \"default\": true, found "@ + integer_text(count as int)
}

fn count_defaults(tabs: &Vec<TabProfile>) -> (r: usize)
    ensures
        r == default_count(tabs@),
{
    let mut n: usize = 0;
    let mut i: usize = 0;
    assert(tabs@.take(0).len() == 0);
    while i < tabs.len()
        invariant
            i <= tabs@.len(),
            n <= i,
            n == default_count(tabs@.take(i as int)),
        decreases tabs@.len() - i,
    {
        assert(tabs@.take(i + 1).drop_last() =~= tabs@.take(i as int));
        if tabs[i].default {
            n += 1;
        }
        i += 1;
    }
    assert(tabs@.take(i as int) =~= tabs@);
    n
}

/// `user` with its keys put on top of the default ones.
pub open spec fn is_overlay(result: SomConfig, user: SomConfig, defaults: SomConfig) -> bool {
    &&& result.window == user.window
    &&& result.font == user.font
    &&& result.cursor == user.cursor
    &&& result.scroll == user.scroll
    &&& result.log == user.log
    &&& result.tabs == user.tabs
    &&& key_entries(result.keys) == overlaid(
        key_entries(defaults.keys),
        key_entries(user.keys),
        key_entries(user.keys).len(),
    )
}

/// The user's settings, with the default keys below the user's own. Where there are no readable
/// settings of the user, the defaults.
pub fn load_embedded(defaults: SomConfig, user: Option<SomConfig>) -> (r: SomConfig)
    ensures
        match user {
            Some(user) => is_overlay(r, user, defaults),
            None => r == defaults,
        },
{
    match user {
        Some(user) => {
            let keys = overlay_keys(defaults.keys, &user.keys);
            SomConfig {
                window: user.window,
                font: user.font,
                cursor: user.cursor,
                scroll: user.scroll,
                log: user.log,
                tabs: user.tabs,
                keys,
            }
        },
        None => defaults,
    }
}

/// The user's settings, as they were read, with the default keys below the user's own. At most
/// one profile may be the default one.
pub fn parse_with_defaults(user: SomConfig, defaults: SomConfig) -> (r: Result<SomConfig, String>)
    ensures
        match r {
            Ok(config) => default_count(user.tabs@) <= 1 && is_overlay(config, user, defaults),
            Err(e) => default_count(user.tabs@) > 1 && e@ == too_many_defaults_text(
                default_count(user.tabs@),
            ),
        },
{
    let count: usize = count_defaults(&user.tabs);
    if count > 1 {
        let mut message = String::from_str(
            "settings.json: only one tab profile may have \"default\": true, found ",
        );
        let digits = unsigned_text(count as u64);
        message.append(digits.as_str());
        return Err(message);
    }
    Ok(load_embedded(defaults, Some(user)))
}

/// The line of a text, counted from one; nothing where there is no such line.
pub open spec fn line_at(content: Seq<char>, line: nat) -> Seq<char> {
    let all = lines_of(content);
    let i = if line == 0 {
        0
    } else {
        line - 1
    };
    if i < all.len() {
        all[i]
    } else {
        ""@
    }
}

pub open spec fn parse_error_text(line: nat, column: nat, error: Seq<char>, content: Seq<char>) -> Seq<char> {
    "settings.json line "@ + integer_text(line as int) + ", column "@ + integer_text(column as int) + ": "@
        + error + "\n  → "@ + trimmed(line_at(content, line))
}

/// The message for settings that could not be read: where, why, and the line itself.
pub fn parse_error_message(line: usize, column: usize, error: &str, content: &str) -> (r: String)
    ensures
        r@ == parse_error_text(line as nat, column as nat, error@, content@),
{
    let all = lines(content);
    let i: usize = line.saturating_sub(1);
    assert(texts(all@).len() == all@.len());
    let source = if i < all.len() {
        assert(texts(all@)[i as int] == all@[i as int]@);
        trim(all[i].as_str())
    } else {
        trim("")
    };
    let mut out = String::from_str("settings.json line ");
    let line_text = unsigned_text(line as u64);
    out.append(line_text.as_str());
    out.append(", column ");
    let column_text = unsigned_text(column as u64);
    out.append(column_text.as_str());
    out.append(": ");
    out.append(error);
    out.append("\n  → ");
    out.append(source.as_str());
    out
}

/// The notification for settings that could not be read.
pub fn show_parse_error(err: &str) -> (r: String)
    ensures
        r@ == "Invalid settings.json\n"@ + err@,
{
    let mut out = String::from_str("Invalid settings.json\n");
    out.append(err);
    out
}

/// What the settings make of the program: the settings of its parts, the keymap and the padding.
#[verifier::ext_equal]
pub struct AppliedModel {
    pub settings: Seq<char>,
    pub keys: Seq<char>,
    pub padding: PaddingConfig,
}

/// What given settings make of the program.
pub open spec fn applied_by(config: SomConfig) -> AppliedModel {
    AppliedModel {
        settings: settings_json(config),
        keys: keymap_json(key_entries(config.keys), config.tabs@),
        padding: match config.window.padding {
            Some(p) => p,
            None => PaddingConfig { top: 0, bottom: 0, left: 0, right: 0 },
        },
    }
}

/// What is done about settings that have been written.
#[derive(Debug)]
pub enum SettingsChange {
    /// The program goes by them from now on.
    Apply { settings: String, keys: String, padding: PaddingConfig },
    /// They cannot be read. The user is told, and all stays as it was.
    Tell { message: String },
}

#[verifier::ext_equal]
pub enum ChangeModel {
    Apply(AppliedModel),
    Tell(Seq<char>),
}

impl View for SettingsChange {
    type V = ChangeModel;

    open spec fn view(&self) -> ChangeModel {
        match self {
            SettingsChange::Apply { settings, keys, padding } => ChangeModel::Apply(
                AppliedModel { settings: settings@, keys: keys@, padding: *padding },
            ),
            SettingsChange::Tell { message } => ChangeModel::Tell(message@),
        }
    }
}

/// What is done about settings as they were read, or the reason why they could not be.
pub open spec fn change_for(read: Result<SomConfig, String>) -> ChangeModel {
    match read {
        Ok(config) => ChangeModel::Apply(applied_by(config)),
        Err(reason) => ChangeModel::Tell("Invalid settings.json\n"@ + reason@),
    }
}

/// Decides what is done about settings that have been written.
pub fn settings_changed(read: Result<SomConfig, String>) -> (r: SettingsChange)
    ensures
        r@ == change_for(read),
{
    match read {
        Ok(config) => SettingsChange::Apply {
            settings: config.apply_settings(),
            keys: config.apply_keys(),
            padding: config.window.padding_or_default(),
        },
        Err(reason) => SettingsChange::Tell { message: show_parse_error(reason.as_str()) },
    }
}

/// What the program goes by while the settings file is watched.
#[derive(Debug)]
pub struct SettingsWatch {
    pub settings: String,
    pub keys: String,
    pub padding: PaddingConfig,
}

impl View for SettingsWatch {
    type V = AppliedModel;

    open spec fn view(&self) -> AppliedModel {
        AppliedModel { settings: self.settings@, keys: self.keys@, padding: self.padding }
    }
}

/// What the program goes by once settings have been read: those, or where they cannot be read what
/// it went by before.
pub open spec fn applied_after(before: AppliedModel, read: Result<SomConfig, String>) -> AppliedModel {
    match read {
        Ok(config) => applied_by(config),
        Err(_) => before,
    }
}

/// What the program goes by after the settings have been read several times.
pub open spec fn applied_after_all(start: AppliedModel, reads: Seq<Result<SomConfig, String>>) -> AppliedModel
    decreases reads.len(),
{
    if reads.len() == 0 {
        start
    } else {
        applied_after(applied_after_all(start, reads.drop_last()), reads.last())
    }
}

/// A broken file changes nothing, however often it is written: the program keeps to the last settings
/// that could be read, those at `last`.
pub proof fn lemma_last_valid_kept(start: AppliedModel, reads: Seq<Result<SomConfig, String>>, last: int)
    requires
        0 <= last < reads.len(),
        reads[last] is Ok,
        forall|i: int| last < i < reads.len() ==> #[trigger] reads[i] is Err,
    ensures
        applied_after_all(start, reads) == applied_by(reads[last]->Ok_0),
    decreases reads.len(),
{
    if last < reads.len() - 1 {
        assert(reads[reads.len() - 1] is Err);
        lemma_last_valid_kept(start, reads.drop_last(), last);
    }
}

/// As long as no settings can be read, the program keeps to those it was started with.
pub proof fn lemma_start_kept(start: AppliedModel, reads: Seq<Result<SomConfig, String>>)
    requires
        forall|i: int| 0 <= i < reads.len() ==> #[trigger] reads[i] is Err,
    ensures
        applied_after_all(start, reads) == start,
    decreases reads.len(),
{
    if reads.len() > 0 {
        assert(reads[reads.len() - 1] is Err);
        lemma_start_kept(start, reads.drop_last());
    }
}

/// Settings that can be read are applied at once, whatever was written before them.
pub proof fn lemma_next_valid_applied(start: AppliedModel, reads: Seq<Result<SomConfig, String>>, config: SomConfig)
    ensures
        applied_after_all(start, reads.push(Ok(config))) == applied_by(config),
        change_for(Ok(config)) == ChangeModel::Apply(applied_by(config)),
{
    assert(reads.push(Ok(config)).drop_last() =~= reads);
}

impl SomConfig {
    /// Begins to watch the settings file, with these settings in use.
    pub fn watch(&self) -> (r: SettingsWatch)
        ensures
            r@ == applied_by(*self),
    {
        SettingsWatch {
            settings: self.apply_settings(),
            keys: self.apply_keys(),
            padding: self.window.padding_or_default(),
        }
    }
}

impl SettingsWatch {
    /// The file has been written, and was read: what is done about it.
    pub fn next(&mut self, read: Result<SomConfig, String>) -> (r: SettingsChange)
        ensures
            r@ == change_for(read),
            final(self)@ == applied_after(old(self)@, read),
            read is Err ==> *final(self) == *old(self),
    {
        let change = settings_changed(read);
        if let SettingsChange::Apply { settings, keys, padding } = &change {
            self.settings = settings.clone();
            self.keys = keys.clone();
            self.padding = *padding;
        }
        change
    }
}

/// The settings file that is written where there is none: the template with the system's shell
/// put in.
pub fn initial_settings_text(template: &str, shell: &str) -> (r: String)
    ensures
        r@ == with_text_replaced(
            template@,
            "\"$SHELL\""@,
            "\""@ + with_char_replaced(
                with_char_replaced(shell@, '\\', "\\\\"@),
                '"',
                "\\\""@,
            ) + "\""@,
        ),
{
    let doubled = replace_char(shell, '\\', "\\\\");
    let escaped = replace_char(doubled.as_str(), '"', "\\\"");
    let mut quoted = String::from_str("\"");
    quoted.append(escaped.as_str());
    quoted.append("\"");
    proof {
        reveal_strlit("\"$SHELL\"");
    }
    replace_text(template, "\"$SHELL\"", quoted.as_str())
}

proof fn lemma_in_either(a: Seq<Seq<char>>, b: Seq<Seq<char>>, x: Seq<char>)
    ensures
        (a + b).contains(x) <==> a.contains(x) || b.contains(x),
{
    if a.contains(x) {
        let i = choose|i: int| 0 <= i < a.len() && a[i] == x;
        assert((a + b)[i] == x);
    }
    if b.contains(x) {
        let i = choose|i: int| 0 <= i < b.len() && b[i] == x;
        assert((a + b)[a.len() + i] == x);
    }
    if (a + b).contains(x) {
        let i = choose|i: int| 0 <= i < (a + b).len() && (a + b)[i] == x;
        if i < a.len() {
            assert(a[i] == x);
        } else {
            assert(b[i - a.len()] == x);
        }
    }
}

/// What is written of a feature: its tag and its number.
pub open spec fn read_feature(s: Seq<char>) -> Option<(Seq<char>, nat)> {
    if s.len() > 8 && s[0] == '"' && s[5] == '"' && s[6] == ':' && s[7] == ' ' {
        match unsigned_of(s.skip(8), u64::MAX as nat) {
            Some(n) => Some((s.subrange(1, 5), n)),
            None => None,
        }
    } else {
        None
    }
}

/// A font feature that is switched on is written as 1 and one that is switched off as 0, and a number
/// as itself, under the tag that was given. What is no tag of four letters or digits, and what is no
/// such value, is not written.
pub proof fn lemma_feature_read_back(tag: Seq<char>, value: FeatureValue)
    ensures
        feature_text(tag, value) is Some <==> tag.len() == 4 && value !is Other && forall|i: int|
            0 <= i < 4 ==> {
                let c = #[trigger] tag[i];
                '0' <= c <= '9' || 'a' <= c <= 'z' || 'A' <= c <= 'Z'
            },
        feature_text(tag, value) matches Some(text) ==> read_feature(text) == Some(
            (
                tag,
                match value {
                    FeatureValue::Unsigned(n) => n as nat,
                    _ => if value == FeatureValue::Bool(true) {
                        1
                    } else {
                        0
                    },
                },
            ),
        ),
{
    if tag.len() == 4 && value !is Other {
        assert(feature_tag(tag) <==> forall|i: int|
            0 <= i < 4 ==> {
                let c = #[trigger] tag[i];
                '0' <= c <= '9' || 'a' <= c <= 'z' || 'A' <= c <= 'Z'
            }) by {
            if feature_tag(tag) {
                assert forall|i: int| 0 <= i < 4 implies {
                    let c = #[trigger] tag[i];
                    '0' <= c <= '9' || 'a' <= c <= 'z' || 'A' <= c <= 'Z'
                } by {
                    assert(ascii_alphanumeric(tag[i]));
                }
            }
        }
    }
    if let Some(text) = feature_text(tag, value) {
        let n: nat = match value {
            FeatureValue::Unsigned(n) => n as nat,
            _ => if value == FeatureValue::Bool(true) {
                1
            } else {
                0
            },
        };
        reveal_strlit("\"");
        reveal_strlit("\": ");
        crate::decimal::lemma_unsigned_round_trip(n, u64::MAX as nat);
        let digits = integer_text(n as int);
        assert(digits.len() > 0);
        assert(text =~= seq!['"'] + tag + seq!['"', ':', ' '] + digits);
        assert(text.skip(8) =~= digits);
        assert(text.subrange(1, 5) =~= tag);
    }
}

/// Every feature that is understood is written, none is written twice, nothing else is, and the order
/// stays.
pub proof fn lemma_every_feature_written(features: Seq<(String, FeatureValue)>)
    ensures
        exists|places: Seq<int>| #[trigger] strictly_growing(places) && places.len() == feature_texts(features).len() && (
        forall|i: int|
            0 <= i < features.len() ==> (places.contains(i) <==> feature_text(
                (#[trigger] features[i]).0@,
                features[i].1,
            ) is Some)) && (forall|k: int|
            0 <= k < places.len() ==> 0 <= #[trigger] places[k] < features.len() && feature_text(
                features[places[k]].0@,
                features[places[k]].1,
            ) == Some(feature_texts(features)[k])),
    decreases features.len(),
{
    let n = features.len();
    if n == 0 {
        assert(strictly_growing(Seq::<int>::empty()));
    } else {
        let init = features.drop_last();
        lemma_every_feature_written(init);
        let before = feature_texts(init);
        let old_places = choose|places: Seq<int>| #[trigger] strictly_growing(places) && places.len() == before.len() && (
        forall|i: int|
            0 <= i < init.len() ==> (places.contains(i) <==> feature_text((#[trigger] init[i]).0@, init[i].1) is Some))
            && (forall|k: int|
            0 <= k < places.len() ==> 0 <= #[trigger] places[k] < init.len() && feature_text(
                init[places[k]].0@,
                init[places[k]].1,
            ) == Some(before[k]));
        let last = feature_text(features.last().0@, features.last().1);
        let places = if last is Some {
            old_places.push(n - 1)
        } else {
            old_places
        };
        assert(strictly_growing(places));
        assert forall|k: int| 0 <= k < places.len() implies 0 <= #[trigger] places[k] < n && feature_text(
            features[places[k]].0@,
            features[places[k]].1,
        ) == Some(feature_texts(features)[k]) by {
            if k < old_places.len() {
                assert(places[k] == old_places[k]);
                assert(features[places[k]] == init[places[k]]);
            }
        }
        assert forall|i: int| 0 <= i < n implies (places.contains(i) <==> feature_text(
            (#[trigger] features[i]).0@,
            features[i].1,
        ) is Some) by {
            if i < n - 1 {
                assert(init[i] == features[i]);
                if old_places.contains(i) {
                    let k = choose|k: int| 0 <= k < old_places.len() && old_places[k] == i;
                    assert(places[k] == i);
                }
                if places.contains(i) {
                    let k = choose|k: int| 0 <= k < places.len() && places[k] == i;
                    assert(old_places[k] == i);
                }
            } else {
                if last is Some {
                    assert(places[places.len() - 1] == i);
                } else {
                    assert(!old_places.contains(i));
                }
            }
        }
    }
}

/// 1 for what is so, 0 for what is not.
pub open spec fn one_if(b: bool) -> nat {
    if b {
        1
    } else {
        0
    }
}

/// The terminal's font is that of the settings: its family, size, weight, line height and features are
/// written where they are given, and nothing else is.
pub proof fn lemma_font_written(config: SomConfig)
    ensures
        ({
            let parts = terminal_font_parts(config);
            let font = config.font;
            let features = feature_texts(font.features@);
            &&& font.face matches Some(v) ==> parts.contains("\"font_family\": \""@ + v@ + "\""@)
            &&& font.size matches Some(v) ==> parts.contains("\"font_size\": "@ + v@)
            &&& font.weight matches Some(v) ==> parts.contains("\"font_weight\": "@ + v@)
            &&& font.line_height matches Some(v) ==> parts.contains("\"line_height\": { \"custom\": "@ + v@ + " }"@)
            &&& features.len() > 0 ==> parts.contains("\"font_features\": { "@ + joined(features, ", "@) + " }"@)
            &&& parts.len() == one_if(font.face is Some) + one_if(font.size is Some) + one_if(font.weight is Some)
                + one_if(font.line_height is Some) + one_if(features.len() > 0)
        }),
{
    let font = config.font;
    let a = part("\"font_family\": \""@, opt_text(font.face), "\""@);
    let b = part("\"font_size\": "@, opt_text(font.size), ""@);
    let c = part("\"font_weight\": "@, opt_text(font.weight), ""@);
    let d = part("\"line_height\": { \"custom\": "@, opt_text(font.line_height), " }"@);
    let e = part("\"font_features\": { "@, joined_if_any(feature_texts(font.features@)), " }"@);
    assert(terminal_font_parts(config) == a + b + c + d + e);
    reveal_strlit("");
    assert forall|x: Seq<char>| a.contains(x) || b.contains(x) || c.contains(x) || d.contains(x) || e.contains(x) implies #[trigger] terminal_font_parts(
        config,
    ).contains(x) by {
        lemma_in_either(a, b, x);
        lemma_in_either(a + b, c, x);
        lemma_in_either(a + b + c, d, x);
        lemma_in_either(a + b + c + d, e, x);
    }
    lemma_part(a, "\"font_family\": \""@, opt_text(font.face), "\""@);
    lemma_part(b, "\"font_size\": "@, opt_text(font.size), ""@);
    lemma_part(c, "\"font_weight\": "@, opt_text(font.weight), ""@);
    lemma_part(d, "\"line_height\": { \"custom\": "@, opt_text(font.line_height), " }"@);
    lemma_part(e, "\"font_features\": { "@, joined_if_any(feature_texts(font.features@)), " }"@);
}

proof fn lemma_part(parts: Seq<Seq<char>>, prefix: Seq<char>, value: Option<Seq<char>>, suffix: Seq<char>)
    requires
        parts == part(prefix, value, suffix),
    ensures
        value matches Some(v) ==> parts.contains(prefix + v + suffix) && (suffix.len() == 0 ==> parts.contains(prefix + v)),
{
    if let Some(v) = value {
        assert(parts[0] == prefix + v + suffix);
        if suffix.len() == 0 {
            assert(prefix + v + suffix =~= prefix + v);
        }
    }
}

/// The cursor and scrolling are those of the settings, and nothing else is written of them. A cursor
/// that is neither to blink nor not to is left to the terminal.
pub proof fn lemma_cursor_written(config: SomConfig)
    ensures
        ({
            let parts = terminal_cursor_parts(config);
            let cursor = config.cursor;
            let scroll = config.scroll;
            &&& cursor.shape matches Some(v) ==> parts.contains("\"cursor_shape\": \""@ + v@ + "\""@)
            &&& cursor.blinking matches Some(v) ==> (v@ == "on"@ || v@ == "off"@) ==> parts.contains(
                "\"blinking\": \""@ + v@ + "\""@,
            )
            &&& cursor.blinking matches Some(v) ==> v@ != "on"@ && v@ != "off"@ ==> parts.contains(
                "\"blinking\": \""@ + "terminal_controlled"@ + "\""@,
            )
            &&& scroll.scroll_multiplier matches Some(v) ==> parts.contains("\"scroll_multiplier\": "@ + v@)
            &&& scroll.max_scroll_history matches Some(n) ==> parts.contains(
                "\"max_scroll_history_lines\": "@ + integer_text(n as int),
            )
            &&& scroll.alternate_scroll matches Some(v) ==> parts.contains("\"alternate_scroll\": \""@ + v@ + "\""@)
            &&& parts.len() == one_if(cursor.shape is Some) + one_if(cursor.blinking is Some) + one_if(
                scroll.scroll_multiplier is Some,
            ) + one_if(scroll.max_scroll_history is Some) + one_if(scroll.alternate_scroll is Some)
        }),
{
    let cursor = config.cursor;
    let scroll = config.scroll;
    let a = part("\"cursor_shape\": \""@, opt_text(cursor.shape), "\""@);
    let b = part("\"blinking\": \""@, opt_blinking(cursor.blinking), "\""@);
    let c = part("\"scroll_multiplier\": "@, opt_text(scroll.scroll_multiplier), ""@);
    let d = part("\"max_scroll_history_lines\": "@, opt_number(scroll.max_scroll_history), ""@);
    let e = part("\"alternate_scroll\": \""@, opt_text(scroll.alternate_scroll), "\""@);
    assert(terminal_cursor_parts(config) == a + b + c + d + e);
    reveal_strlit("");
    assert forall|x: Seq<char>| a.contains(x) || b.contains(x) || c.contains(x) || d.contains(x) || e.contains(x) implies #[trigger] terminal_cursor_parts(
        config,
    ).contains(x) by {
        lemma_in_either(a, b, x);
        lemma_in_either(a + b, c, x);
        lemma_in_either(a + b + c, d, x);
        lemma_in_either(a + b + c + d, e, x);
    }
    lemma_part(a, "\"cursor_shape\": \""@, opt_text(cursor.shape), "\""@);
    lemma_part(b, "\"blinking\": \""@, opt_blinking(cursor.blinking), "\""@);
    lemma_part(c, "\"scroll_multiplier\": "@, opt_text(scroll.scroll_multiplier), ""@);
    lemma_part(d, "\"max_scroll_history_lines\": "@, opt_number(scroll.max_scroll_history), ""@);
    lemma_part(e, "\"alternate_scroll\": \""@, opt_text(scroll.alternate_scroll), "\""@);
}

/// The terminal's settings are those of its font, its cursor and scrolling, and two that are fixed:
/// what is selected is copied, and the bell is silent.
pub proof fn lemma_terminal_written(config: SomConfig)
    ensures
        ({
            let parts = terminal_parts(config);
            &&& forall|x: Seq<char>|
                terminal_font_parts(config).contains(x) || terminal_cursor_parts(config).contains(x)
                    ==> #[trigger] parts.contains(x)
            &&& parts.contains("\"copy_on_select\": true"@)
            &&& parts.contains("\"bell\": \"off\""@)
            &&& parts.len() == terminal_font_parts(config).len() + terminal_cursor_parts(config).len() + 2
        }),
{
    let a = terminal_font_parts(config);
    let b = terminal_cursor_parts(config);
    let parts = terminal_parts(config);
    assert forall|x: Seq<char>| a.contains(x) || b.contains(x) implies #[trigger] parts.contains(x) by {
        lemma_in_either(a, b, x);
        lemma_in_either(a + b, seq!["\"copy_on_select\": true"@, "\"bell\": \"off\""@], x);
    }
    assert(parts[parts.len() - 2] == "\"copy_on_select\": true"@);
    assert(parts[parts.len() - 1] == "\"bell\": \"off\""@);
}

/// The colours that replace those of the theme: the cursor's and the selection's, where they are given
/// and not empty.
pub proof fn lemma_overrides_written(config: SomConfig)
    ensures
        ({
            let parts = theme_override_parts(config);
            let has_cursor = config.cursor.color matches Some(v) && v@.len() > 0;
            let has_selection = config.window.selection matches Some(v) && v@.len() > 0;
            &&& has_cursor ==> parts.contains(
                "\"players\": [{ \"cursor\": \""@ + config.cursor.color->0@ + "\" }]"@,
            )
            &&& has_selection ==> parts.contains("\"text.accent\": \""@ + config.window.selection->0@ + "\""@)
            &&& parts.len() == one_if(has_cursor) + one_if(has_selection)
        }),
{
    let a = part("\"players\": [{ \"cursor\": \""@, filled(opt_text(config.cursor.color)), "\" }]"@);
    let b = part("\"text.accent\": \""@, filled(opt_text(config.window.selection)), "\""@);
    lemma_part(a, "\"players\": [{ \"cursor\": \""@, filled(opt_text(config.cursor.color)), "\" }]"@);
    lemma_part(b, "\"text.accent\": \""@, filled(opt_text(config.window.selection)), "\""@);
    assert(theme_override_parts(config) == a + b);
    assert forall|x: Seq<char>| a.contains(x) || b.contains(x) implies #[trigger] theme_override_parts(config).contains(x) by {
        lemma_in_either(a, b, x);
    }
}

/// The settings of the program: the theme and what replaces its colours, the font of the buffer, which
/// is that of the terminal, the terminal's own settings, and a tab bar that is not shown. Nothing else
/// is written.
pub proof fn lemma_settings_written(config: SomConfig)
    ensures
        ({
            let parts = setting_parts(config);
            let overrides = theme_override_parts(config);
            &&& config.window.theme matches Some(v) ==> parts.contains("\"theme\": \""@ + v@ + "\""@)
            &&& overrides.len() > 0 ==> parts.contains(
                "\"experimental.theme_overrides\": { "@ + joined(overrides, ", "@) + " }"@,
            )
            &&& config.font.face matches Some(v) ==> parts.contains("\"buffer_font_family\": \""@ + v@ + "\""@)
            &&& config.font.weight matches Some(v) ==> parts.contains("\"buffer_font_weight\": "@ + v@)
            &&& parts.contains("\"terminal\": { "@ + joined(terminal_parts(config), ", "@) + " }"@)
            &&& parts.contains("\"tab_bar\": { \"show\": false }"@)
            &&& parts.len() == one_if(config.window.theme is Some) + one_if(overrides.len() > 0) + one_if(
                config.font.face is Some,
            ) + one_if(config.font.weight is Some) + 2
            &&& settings_json(config) == "{ "@ + joined(parts, ", "@) + " }"@
        }),
{
    let a = part("\"theme\": \""@, opt_text(config.window.theme), "\""@);
    let b = part(
        "\"experimental.theme_overrides\": { "@,
        joined_if_any(theme_override_parts(config)),
        " }"@,
    );
    let c = part("\"buffer_font_family\": \""@, opt_text(config.font.face), "\""@);
    let d = part("\"buffer_font_weight\": "@, opt_text(config.font.weight), ""@);
    let e = part("\"terminal\": { "@, Some(joined(terminal_parts(config), ", "@)), " }"@);
    let f = seq!["\"tab_bar\": { \"show\": false }"@];
    assert(setting_parts(config) == a + b + c + d + e + f);
    reveal_strlit("");
    assert forall|x: Seq<char>|
        a.contains(x) || b.contains(x) || c.contains(x) || d.contains(x) || e.contains(x) || f.contains(x) implies #[trigger] setting_parts(
        config,
    ).contains(x) by {
        lemma_in_either(a, b, x);
        lemma_in_either(a + b, c, x);
        lemma_in_either(a + b + c, d, x);
        lemma_in_either(a + b + c + d, e, x);
        lemma_in_either(a + b + c + d + e, f, x);
    }
    lemma_part(a, "\"theme\": \""@, opt_text(config.window.theme), "\""@);
    lemma_part(b, "\"experimental.theme_overrides\": { "@, joined_if_any(theme_override_parts(config)), " }"@);
    lemma_part(c, "\"buffer_font_family\": \""@, opt_text(config.font.face), "\""@);
    lemma_part(d, "\"buffer_font_weight\": "@, opt_text(config.font.weight), ""@);
    lemma_part(e, "\"terminal\": { "@, Some(joined(terminal_parts(config), ", "@)), " }"@);
    assert(f[0] == "\"tab_bar\": { \"show\": false }"@);
}

/// The profile that a new tab opens by default is one that is marked, where there is one, and the first
/// of those; else it is the first of all. The key for a plain new tab opens the same.
pub proof fn lemma_default_place(tabs: Seq<TabProfile>)
    ensures
        forall|i: int|
            0 <= i < tabs.len() && (#[trigger] tabs[i]).default ==> 0 <= default_place(tabs) <= i && tabs[default_place(
                tabs,
            )].default,
        (forall|i: int| 0 <= i < tabs.len() ==> !(#[trigger] tabs[i]).default) ==> default_place(tabs) == 0,
        default_number(tabs) == default_place(tabs) + 1,
    decreases tabs.len(),
{
    if tabs.len() == 0 {
        assert(default_position(tabs) == 0);
    } else {
        let init = tabs.drop_last();
        lemma_default_place(init);
        lemma_default_count(init);
        assert forall|i: int| 0 <= i < tabs.len() && (#[trigger] tabs[i]).default implies 0 <= default_place(tabs) <= i
            && tabs[default_place(tabs)].default by {
            if i < init.len() {
                assert(init[i].default);
                assert(init[default_place(init)].default);
            } else if default_count(init) > 0 {
                let k = choose|k: int| 0 <= k < init.len() && (#[trigger] init[k]).default;
                assert(init[default_place(init)].default);
            }
        }
        if exists|i: int| 0 <= i < tabs.len() && (#[trigger] tabs[i]).default {
            let i = choose|i: int| 0 <= i < tabs.len() && (#[trigger] tabs[i]).default;
            let p = default_place(tabs);
            assert(tabs[p].default);
            assert forall|j: int| 0 <= j < p implies !(#[trigger] tabs[j]).default by {
                if tabs[j].default {
                    assert(p <= j);
                }
            }
            crate::config::lemma_default_position(tabs, p);
        } else {
            assert forall|j: int| 0 <= j < tabs.len() implies !(#[trigger] tabs[j]).default by {}
            assert(default_count(init) == 0) by {
                if default_count(init) > 0 {
                    let k = choose|k: int| 0 <= k < init.len() && (#[trigger] init[k]).default;
                    assert(tabs[k].default);
                }
            }
            assert(!tabs[tabs.len() - 1].default);
            crate::config::lemma_default_position(tabs, tabs.len() as int);
        }
    }
}

proof fn lemma_default_count(tabs: Seq<TabProfile>)
    ensures
        default_count(tabs) > 0 <==> exists|k: int| 0 <= k < tabs.len() && (#[trigger] tabs[k]).default,
    decreases tabs.len(),
{
    if tabs.len() > 0 {
        let init = tabs.drop_last();
        lemma_default_count(init);
        if default_count(init) > 0 {
            let k = choose|k: int| 0 <= k < init.len() && (#[trigger] init[k]).default;
            assert(tabs[k].default);
        }
        if tabs.last().default {
            assert(tabs[tabs.len() - 1].default);
        }
        if exists|k: int| 0 <= k < tabs.len() && (#[trigger] tabs[k]).default {
            let k = choose|k: int| 0 <= k < tabs.len() && (#[trigger] tabs[k]).default;
            if k < init.len() {
                assert(init[k].default);
            }
        }
    }
}

/// At most one profile may be marked: as soon as two are, the settings are refused.
pub proof fn lemma_two_defaults(tabs: Seq<TabProfile>)
    ensures
        default_count(tabs) > 1 <==> exists|i: int, j: int|
            0 <= i < j < tabs.len() && (#[trigger] tabs[i]).default && (#[trigger] tabs[j]).default,
    decreases tabs.len(),
{
    if tabs.len() > 0 {
        let init = tabs.drop_last();
        let n = tabs.len() - 1;
        lemma_two_defaults(init);
        lemma_default_count(init);
        if default_count(init) > 1 {
            let (i, j) = choose|i: int, j: int|
                0 <= i < j < init.len() && (#[trigger] init[i]).default && (#[trigger] init[j]).default;
            assert(tabs[i].default && tabs[j].default);
        } else if default_count(tabs) > 1 {
            let i = choose|i: int| 0 <= i < init.len() && (#[trigger] init[i]).default;
            assert(tabs[i].default && tabs[n].default);
        }
        if exists|i: int, j: int|
            0 <= i < j < tabs.len() && (#[trigger] tabs[i]).default && (#[trigger] tabs[j]).default {
            let (i, j) = choose|i: int, j: int|
                0 <= i < j < tabs.len() && (#[trigger] tabs[i]).default && (#[trigger] tabs[j]).default;
            assert(init[i].default);
            if j < n {
                assert(init[j].default);
            }
        }
    }
}

/// The message for settings that cannot be read names the line and the column as they were given, says
/// why, and shows that line.
pub proof fn lemma_parse_error_named(line: nat, column: nat, error: Seq<char>, content: Seq<char>)
    ensures
        ({
            let start = "settings.json line "@ + integer_text(line as int) + ", column "@ + integer_text(
                column as int,
            ) + ": "@ + error + "\n  → "@;
            &&& start.is_prefix_of(parse_error_text(line, column, error, content))
            &&& parse_error_text(line, column, error, content).skip(start.len() as int) == trimmed(
                if 1 <= line <= lines_of(content).len() {
                    lines_of(content)[line - 1]
                } else if line == 0 && lines_of(content).len() > 0 {
                    lines_of(content)[0]
                } else {
                    Seq::empty()
                },
            )
        }),
{
    reveal_strlit("");
    assert(""@ =~= Seq::<char>::empty());
    let start = "settings.json line "@ + integer_text(line as int) + ", column "@ + integer_text(column as int) + ": "@
        + error + "\n  → "@;
    let all = parse_error_text(line, column, error, content);
    assert(all =~= start + trimmed(line_at(content, line)));
    assert(all.skip(start.len() as int) =~= trimmed(line_at(content, line)));
}

} // verus!
