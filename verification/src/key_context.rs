//! The context that keystrokes in a terminal are looked up in.

use vstd::prelude::*;

verus! {

/// What the terminal program has switched on.
#[derive(Debug, Clone, Copy, PartialEq, Eq, Structural)]
pub struct TermMode {
    pub alt_screen: bool,
    pub app_cursor: bool,
    pub app_keypad: bool,
    pub show_cursor: bool,
    pub line_wrap: bool,
    pub origin: bool,
    pub insert: bool,
    pub line_feed_new_line: bool,
    pub focus_in_out: bool,
    pub alternate_scroll: bool,
    pub bracketed_paste: bool,
    pub mouse_report_click: bool,
    pub mouse_drag: bool,
    pub mouse_motion: bool,
    pub sgr_mouse: bool,
    pub utf8_mouse: bool,
}

/// An entry of the context: a word, or a word with a value.
#[derive(Debug)]
pub struct ContextEntry {
    pub key: String,
    pub value: Option<String>,
}

pub open spec fn entry_model(e: ContextEntry) -> (Seq<char>, Option<Seq<char>>) {
    (e.key@, crate::text::opt_text(e.value))
}

#[verifier::opaque]
pub open spec fn entry_models(entries: Seq<ContextEntry>) -> Seq<(Seq<char>, Option<Seq<char>>)> {
    entries.map_values(|e: ContextEntry| entry_model(e))
}

/// The context holds these entries, in this order.
pub open spec fn holds_entries(
    entries: Seq<ContextEntry>,
    model: Seq<(Seq<char>, Option<Seq<char>>)>,
) -> bool {
    entry_models(entries) == model
}

/// The word, where the condition holds.
#[verifier::opaque]
pub open spec fn word_if(condition: bool, word: Seq<char>) -> Seq<(Seq<char>, Option<Seq<char>>)> {
    if condition {
        seq![(word, None)]
    } else {
        Seq::empty()
    }
}

#[verifier::opaque]
pub open spec fn setting(word: Seq<char>, value: Seq<char>) -> Seq<(Seq<char>, Option<Seq<char>>)> {
    seq![(word, Some(value))]
}

pub open spec fn mouse_reporting(mode: TermMode) -> Seq<char> {
    if mode.mouse_report_click {
        "click"@
    } else if mode.mouse_drag {
        "drag"@
    } else if mode.mouse_motion {
        "motion"@
    } else {
        "off"@
    }
}

pub open spec fn mouse_format(mode: TermMode) -> Seq<char> {
    if mode.sgr_mouse {
        "sgr"@
    } else if mode.utf8_mouse {
        "utf8"@
    } else {
        "normal"@
    }
}

pub open spec fn any_mouse_mode(mode: TermMode) -> bool {
    mode.mouse_report_click || mode.mouse_drag || mode.mouse_motion
}

/// The entries of the context, in order.
pub open spec fn context_of(mode: TermMode, vi_mode: bool, selection: bool) -> Seq<
    (Seq<char>, Option<Seq<char>>),
> {
    Seq::empty() + word_if(true, "Terminal"@) + word_if(vi_mode, "vi_mode"@) + setting(
        "screen"@,
        if mode.alt_screen {
            "alt"@
        } else {
            "normal"@
        },
    ) + word_if(mode.app_cursor, "DECCKM"@) + word_if(
        true,
        if mode.app_keypad {
            "DECPAM"@
        } else {
            "DECPNM"@
        },
    ) + word_if(mode.show_cursor, "DECTCEM"@) + word_if(mode.line_wrap, "DECAWM"@) + word_if(
        mode.origin,
        "DECOM"@,
    ) + word_if(mode.insert, "IRM"@) + word_if(mode.line_feed_new_line, "LNM"@) + word_if(
        mode.focus_in_out,
        "report_focus"@,
    ) + word_if(mode.alternate_scroll, "alternate_scroll"@) + word_if(
        mode.bracketed_paste,
        "bracketed_paste"@,
    ) + word_if(any_mouse_mode(mode), "any_mouse_reporting"@) + setting(
        "mouse_reporting"@,
        mouse_reporting(mode),
    ) + setting("mouse_format"@, mouse_format(mode)) + word_if(selection, "selection"@)
}

fn put_if(out: &mut Vec<ContextEntry>, condition: bool, word: &str)
    ensures
        holds_entries(final(out)@, entry_models(old(out)@) + word_if(condition, word@)),
{
    if condition {
        out.push(ContextEntry { key: String::from_str(word), value: None });
    }
    proof {
        reveal(word_if);
        reveal(entry_models);
        assert(entry_models(out@) =~= entry_models(old(out)@) + word_if(condition, word@));
    }
}

fn put(out: &mut Vec<ContextEntry>, word: &str, value: &str)
    ensures
        holds_entries(final(out)@, entry_models(old(out)@) + setting(word@, value@)),
{
    out.push(ContextEntry { key: String::from_str(word), value: Some(String::from_str(value)) });
    proof {
        reveal(setting);
        reveal(entry_models);
        assert(entry_models(out@) =~= entry_models(old(out)@) + setting(word@, value@));
    }
}

/// The context that a terminal's keystrokes are looked up in.
pub fn dispatch_context(mode: TermMode, vi_mode: bool, selection: bool) -> (r: Vec<ContextEntry>)
    ensures
        holds_entries(r@, context_of(mode, vi_mode, selection)),
{
    let mut out: Vec<ContextEntry> = Vec::new();
    assert(entry_models(out@) =~= Seq::empty()) by {
        reveal(entry_models);
    }
    put_if(&mut out, true, "Terminal");
    put_if(&mut out, vi_mode, "vi_mode");
    put(&mut out, "screen", if mode.alt_screen {
        "alt"
    } else {
        "normal"
    });
    put_if(&mut out, mode.app_cursor, "DECCKM");
    put_if(&mut out, true, if mode.app_keypad {
        "DECPAM"
    } else {
        "DECPNM"
    });
    put_if(&mut out, mode.show_cursor, "DECTCEM");
    put_if(&mut out, mode.line_wrap, "DECAWM");
    put_if(&mut out, mode.origin, "DECOM");
    put_if(&mut out, mode.insert, "IRM");
    put_if(&mut out, mode.line_feed_new_line, "LNM");
    put_if(&mut out, mode.focus_in_out, "report_focus");
    put_if(&mut out, mode.alternate_scroll, "alternate_scroll");
    put_if(&mut out, mode.bracketed_paste, "bracketed_paste");
    put_if(
        &mut out,
        mode.mouse_report_click || mode.mouse_drag || mode.mouse_motion,
        "any_mouse_reporting",
    );
    put(&mut out, "mouse_reporting", if mode.mouse_report_click {
        "click"
    } else if mode.mouse_drag {
        "drag"
    } else if mode.mouse_motion {
        "motion"
    } else {
        "off"
    });
    put(&mut out, "mouse_format", if mode.sgr_mouse {
        "sgr"
    } else if mode.utf8_mouse {
        "utf8"
    } else {
        "normal"
    });
    put_if(&mut out, selection, "selection");
    out
}

/// The context holds an entry.
#[verifier::opaque]
pub open spec fn has_entry(context: Seq<(Seq<char>, Option<Seq<char>>)>, x: (Seq<char>, Option<Seq<char>>)) -> bool {
    context.contains(x)
}

proof fn lemma_in_both(
    a: Seq<(Seq<char>, Option<Seq<char>>)>,
    b: Seq<(Seq<char>, Option<Seq<char>>)>,
    x: (Seq<char>, Option<Seq<char>>),
)
    ensures
        has_entry(a + b, x) <==> has_entry(a, x) || has_entry(b, x),
{
    reveal(has_entry);
    if a.contains(x) {
        let i = choose|i: int| 0 <= i < a.len() && a[i] == x;
        assert((a + b)[i] == x);
    }
    if b.contains(x) {
        let i = choose|i: int| 0 <= i < b.len() && b[i] == x;
        assert((a + b)[a.len() + i] == x);
    }
    if (a + b).contains(x) {
        let i = choose|i: int| 0 <= i < (a + b).len() && (a + b)[i] == x;
        if i < a.len() {
            assert(a[i] == x);
        } else {
            assert(b[i - a.len()] == x);
        }
    }
}

proof fn lemma_one_word(condition: bool, word: Seq<char>, value: Seq<char>, x: (Seq<char>, Option<Seq<char>>))
    ensures
        has_entry(word_if(condition, word), x) <==> condition && x == (word, None::<Seq<char>>),
        has_entry(setting(word, value), x) <==> x == (word, Some(value)),
{
    reveal(has_entry);
    reveal(word_if);
    reveal(setting);
    if condition {
        assert(word_if(condition, word)[0] == (word, None::<Seq<char>>));
    }
    assert(setting(word, value)[0] == (word, Some(value)));
}

/// An entry stands in the context of a terminal exactly where what it stands for is so.
pub open spec fn is_so(mode: TermMode, vi_mode: bool, selection: bool, entry: (Seq<char>, Option<Seq<char>>)) -> bool {
    match entry.1 {
        None => {
            ||| entry.0 == "Terminal"@
            ||| entry.0 == "vi_mode"@ && (vi_mode)
            ||| entry.0 == "DECCKM"@ && (mode.app_cursor)
            ||| entry.0 == "DECPAM"@ && (mode.app_keypad)
            ||| entry.0 == "DECPNM"@ && (!mode.app_keypad)
            ||| entry.0 == "DECTCEM"@ && (mode.show_cursor)
            ||| entry.0 == "DECAWM"@ && (mode.line_wrap)
            ||| entry.0 == "DECOM"@ && (mode.origin)
            ||| entry.0 == "IRM"@ && (mode.insert)
            ||| entry.0 == "LNM"@ && (mode.line_feed_new_line)
            ||| entry.0 == "report_focus"@ && (mode.focus_in_out)
            ||| entry.0 == "alternate_scroll"@ && (mode.alternate_scroll)
            ||| entry.0 == "bracketed_paste"@ && (mode.bracketed_paste)
            ||| entry.0 == "any_mouse_reporting"@ && (mode.mouse_report_click || mode.mouse_drag || mode.mouse_motion)
            ||| entry.0 == "selection"@ && (selection)
        },
        Some(value) => {
            ||| entry.0 == "screen"@ && value == if mode.alt_screen {
                "alt"@
            } else {
                "normal"@
            }
            ||| entry.0 == "mouse_reporting"@ && (mode.mouse_report_click && value == "click"@ || !mode.mouse_report_click
                && mode.mouse_drag && value == "drag"@ || !mode.mouse_report_click && !mode.mouse_drag
                && mode.mouse_motion && value == "motion"@ || !mode.mouse_report_click && !mode.mouse_drag
                && !mode.mouse_motion && value == "off"@)
            ||| entry.0 == "mouse_format"@ && (mode.sgr_mouse && value == "sgr"@ || !mode.sgr_mouse && mode.utf8_mouse
                && value == "utf8"@ || !mode.sgr_mouse && !mode.utf8_mouse && value == "normal"@)
        },
    }
}

/// The context holds exactly what is so of the terminal.
#[verifier::rlimit(60)]
#[verifier::spinoff_prover]
pub proof fn lemma_context_true(
    mode: TermMode,
    vi_mode: bool,
    selection: bool,
    entry: (Seq<char>, Option<Seq<char>>),
)
    ensures
        has_entry(context_of(mode, vi_mode, selection), entry) <==> is_so(mode, vi_mode, selection, entry),
{
    assert(!has_entry(Seq::empty(), entry)) by {
        reveal(has_entry);
    }
    let c0 = Seq::<(Seq<char>, Option<Seq<char>>)>::empty();
    let p1 = word_if(true, "Terminal"@);
    let c1 = c0 + p1;
    lemma_in_both(c0, p1, entry);
    lemma_one_word(true, "Terminal"@, Seq::empty(), entry);
    let p2 = word_if(vi_mode, "vi_mode"@);
    let c2 = c1 + p2;
    lemma_in_both(c1, p2, entry);
    lemma_one_word(vi_mode, "vi_mode"@, Seq::empty(), entry);
    let p3 = setting("screen"@, if mode.alt_screen { "alt"@ } else { "normal"@ });
    let c3 = c2 + p3;
    lemma_in_both(c2, p3, entry);
    lemma_one_word(true, "screen"@, if mode.alt_screen { "alt"@ } else { "normal"@ }, entry);
    let p4 = word_if(mode.app_cursor, "DECCKM"@);
    let c4 = c3 + p4;
    lemma_in_both(c3, p4, entry);
    lemma_one_word(mode.app_cursor, "DECCKM"@, Seq::empty(), entry);
    let p5 = word_if(true, if mode.app_keypad { "DECPAM"@ } else { "DECPNM"@ });
    let c5 = c4 + p5;
    lemma_in_both(c4, p5, entry);
    lemma_one_word(true, if mode.app_keypad { "DECPAM"@ } else { "DECPNM"@ }, Seq::empty(), entry);
    let p6 = word_if(mode.show_cursor, "DECTCEM"@);
    let c6 = c5 + p6;
    lemma_in_both(c5, p6, entry);
    lemma_one_word(mode.show_cursor, "DECTCEM"@, Seq::empty(), entry);
    let p7 = word_if(mode.line_wrap, "DECAWM"@);
    let c7 = c6 + p7;
    lemma_in_both(c6, p7, entry);
    lemma_one_word(mode.line_wrap, "DECAWM"@, Seq::empty(), entry);
    let p8 = word_if(mode.origin, "DECOM"@);
    let c8 = c7 + p8;
    lemma_in_both(c7, p8, entry);
    lemma_one_word(mode.origin, "DECOM"@, Seq::empty(), entry);
    let p9 = word_if(mode.insert, "IRM"@);
    let c9 = c8 + p9;
    lemma_in_both(c8, p9, entry);
    lemma_one_word(mode.insert, "IRM"@, Seq::empty(), entry);
    let p10 = word_if(mode.line_feed_new_line, "LNM"@);
    let c10 = c9 + p10;
    lemma_in_both(c9, p10, entry);
    lemma_one_word(mode.line_feed_new_line, "LNM"@, Seq::empty(), entry);
    let p11 = word_if(mode.focus_in_out, "report_focus"@);
    let c11 = c10 + p11;
    lemma_in_both(c10, p11, entry);
    lemma_one_word(mode.focus_in_out, "report_focus"@, Seq::empty(), entry);
    let p12 = word_if(mode.alternate_scroll, "alternate_scroll"@);
    let c12 = c11 + p12;
    lemma_in_both(c11, p12, entry);
    lemma_one_word(mode.alternate_scroll, "alternate_scroll"@, Seq::empty(), entry);
    let p13 = word_if(mode.bracketed_paste, "bracketed_paste"@);
    let c13 = c12 + p13;
    lemma_in_both(c12, p13, entry);
    lemma_one_word(mode.bracketed_paste, "bracketed_paste"@, Seq::empty(), entry);
    let p14 = word_if(any_mouse_mode(mode), "any_mouse_reporting"@);
    let c14 = c13 + p14;
    lemma_in_both(c13, p14, entry);
    lemma_one_word(any_mouse_mode(mode), "any_mouse_reporting"@, Seq::empty(), entry);
    let p15 = setting("mouse_reporting"@, mouse_reporting(mode));
    let c15 = c14 + p15;
    lemma_in_both(c14, p15, entry);
    lemma_one_word(true, "mouse_reporting"@, mouse_reporting(mode), entry);
    let p16 = setting("mouse_format"@, mouse_format(mode));
    let c16 = c15 + p16;
    lemma_in_both(c15, p16, entry);
    lemma_one_word(true, "mouse_format"@, mouse_format(mode), entry);
    let p17 = word_if(selection, "selection"@);
    let c17 = c16 + p17;
    lemma_in_both(c16, p17, entry);
    lemma_one_word(selection, "selection"@, Seq::empty(), entry);
    assert(context_of(mode, vi_mode, selection) == c17);
}

} // verus!
