//! Runs of text: neighbouring cells of one style, drawn together.

use vstd::prelude::*;
use crate::color::Hsla;

verus! {

/// How many bytes a character takes.
pub open spec fn utf8_len(c: char) -> nat {
    if (c as u32) < 0x80 {
        1
    } else if (c as u32) < 0x800 {
        2
    } else if (c as u32) < 0x10000 {
        3
    } else {
        4
    }
}

/// How many bytes a text takes.
pub open spec fn utf8_total(s: Seq<char>) -> nat
    decreases s.len(),
{
    if s.len() == 0 {
        0
    } else {
        utf8_total(s.drop_last()) + utf8_len(s.last())
    }
}

pub fn char_utf8_len(c: char) -> (r: usize)
    ensures
        r == utf8_len(c),
        1 <= r <= 4,
{
    if (c as u32) < 0x80 {
        1
    } else if (c as u32) < 0x800 {
        2
    } else if (c as u32) < 0x10000 {
        3
    } else {
        4
    }
}

#[derive(Debug, Clone, Copy, PartialEq, Eq, Structural)]
pub enum FontStyle {
    Normal,
    Italic,
}

/// A font: the family with its features and fallbacks, by its number, and its weight and style.
#[derive(Debug, Clone, Copy, PartialEq, Eq, Structural)]
pub struct Font {
    pub family: u32,
    pub weight: u32,
    pub style: FontStyle,
}

/// A line under text. Lengths are in thousandths of a pixel.
#[derive(Debug, Clone, Copy, PartialEq, Eq, Structural)]
pub struct UnderlineStyle {
    pub thickness: u32,
    pub color: Option<Hsla>,
    pub wavy: bool,
}

/// A line through text. Lengths are in thousandths of a pixel.
#[derive(Debug, Clone, Copy, PartialEq, Eq, Structural)]
pub struct StrikethroughStyle {
    pub thickness: u32,
    pub color: Option<Hsla>,
}

/// How a piece of text looks, and how many bytes it takes.
#[derive(Debug, Clone, Copy, PartialEq, Eq, Structural)]
pub struct TextRun {
    pub len: usize,
    pub font: Font,
    pub color: Hsla,
    pub background_color: Option<Hsla>,
    pub underline: Option<UnderlineStyle>,
    pub strikethrough: Option<StrikethroughStyle>,
}

/// A place on the screen, in cells.
#[derive(Debug, Clone, Copy, PartialEq, Eq, Structural)]
pub struct ScreenPoint {
    pub line: i32,
    pub column: i32,
}

/// Neighbouring cells of one style.
#[derive(Debug)]
pub struct BatchedTextRun {
    pub start_point: ScreenPoint,
    pub text: String,
    pub cell_count: usize,
    pub style: TextRun,
    /// In thousandths of a pixel.
    pub font_size: u32,
}

#[verifier::ext_equal]
pub struct RunModel {
    pub start_point: ScreenPoint,
    pub text: Seq<char>,
    pub cell_count: nat,
    pub len: nat,
    pub style: TextRun,
    pub font_size: u32,
}

/// A style without its length.
pub open spec fn look(style: TextRun) -> TextRun {
    TextRun { len: 0, ..style }
}

impl View for BatchedTextRun {
    type V = RunModel;

    open spec fn view(&self) -> RunModel {
        RunModel {
            start_point: self.start_point,
            text: self.text@,
            cell_count: self.cell_count as nat,
            len: self.style.len as nat,
            style: look(self.style),
            font_size: self.font_size,
        }
    }
}

impl RunModel {
    /// The run of one cell.
    pub open spec fn of_char(start: ScreenPoint, c: char, style: TextRun, font_size: u32) -> RunModel {
        RunModel {
            start_point: start,
            text: seq![c],
            cell_count: 1,
            len: style.len as nat,
            style: look(style),
            font_size,
        }
    }

    /// The run with one cell more.
    pub open spec fn with_char(self, c: char) -> RunModel {
        RunModel {
            text: self.text.push(c),
            cell_count: self.cell_count + 1,
            len: self.len + utf8_len(c),
            ..self
        }
    }

    /// The run with characters that take no cell.
    pub open spec fn with_zero_width(self, chars: Seq<char>) -> RunModel {
        RunModel { text: self.text + chars, len: self.len + utf8_total(chars), ..self }
    }
}

impl BatchedTextRun {
    pub fn new_from_char(start_point: ScreenPoint, c: char, style: TextRun, font_size: u32) -> (r: Self)
        ensures
            r@ == RunModel::of_char(start_point, c, style, font_size),
    {
        let mut text = String::new();
        text.push(c);
        assert(text@ =~= seq![c]);
        BatchedTextRun { start_point, text, cell_count: 1, style, font_size }
    }

    /// Whether a cell of another style looks the same.
    pub fn can_append(&self, other_style: &TextRun) -> (r: bool)
        ensures
            r == (self@.style == look(*other_style)),
    {
        self.style.font == other_style.font && self.style.color == other_style.color
            && self.style.background_color == other_style.background_color && self.style.underline
            == other_style.underline && self.style.strikethrough == other_style.strikethrough
    }

    /// Adds a cell.
    pub fn append_char(&mut self, c: char)
        requires
            old(self).cell_count < usize::MAX,
            old(self).style.len + utf8_len(c) <= usize::MAX,
        ensures
            final(self)@ == old(self)@.with_char(c),
    {
        self.append_char_internal(c, true);
    }

    /// Adds characters that take no cell of their own.
    pub fn append_zero_width_chars(&mut self, chars: &[char])
        requires
            old(self).style.len + utf8_total(chars@) <= usize::MAX,
        ensures
            final(self)@ == old(self)@.with_zero_width(chars@),
    {
        let mut i: usize = 0;
        assert(chars@.take(0) =~= Seq::<char>::empty());
        assert(self@ =~= old(self)@.with_zero_width(chars@.take(0)));
        while i < chars.len()
            invariant
                i <= chars@.len(),
                old(self).style.len + utf8_total(chars@) <= usize::MAX,
                self@ == old(self)@.with_zero_width(chars@.take(i as int)),
            decreases chars@.len() - i,
        {
            proof {
                assert(chars@.take(i + 1).drop_last() =~= chars@.take(i as int));
                lemma_utf8_total_prefix(chars@, i + 1);
            }
            self.append_char_internal(chars[i], false);
            assert(self@ =~= old(self)@.with_zero_width(chars@.take(i + 1)));
            i += 1;
        }
        assert(chars@.take(i as int) =~= chars@);
    }

    fn append_char_internal(&mut self, c: char, counts_cell: bool)
        requires
            counts_cell ==> old(self).cell_count < usize::MAX,
            old(self).style.len + utf8_len(c) <= usize::MAX,
        ensures
            final(self)@ == (RunModel {
                text: old(self)@.text.push(c),
                cell_count: old(self)@.cell_count + (if counts_cell {
                    1nat
                } else {
                    0
                }),
                len: old(self)@.len + utf8_len(c),
                ..old(self)@
            }),
    {
        self.text.push(c);
        if counts_cell {
            self.cell_count = self.cell_count + 1;
        }
        let n: usize = char_utf8_len(c);
        self.style.len = self.style.len + n;
    }
}

pub proof fn lemma_utf8_total_prefix(s: Seq<char>, i: int)
    requires
        0 <= i <= s.len(),
    ensures
        utf8_total(s.take(i)) <= utf8_total(s) <= 4 * s.len(),
    decreases s.len(),
{
    if i < s.len() {
        lemma_utf8_total_prefix(s.drop_last(), i);
        assert(s.drop_last().take(i) =~= s.take(i));
    } else {
        assert(s.take(i) =~= s);
        if s.len() > 0 {
            lemma_utf8_total_prefix(s.drop_last(), s.len() - 1);
        }
    }
}

} // verus!
