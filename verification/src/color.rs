//! Colours: those that a terminal program asks for, and those that are drawn.

use vstd::prelude::*;

verus! {

/// A colour as it is drawn. Each component is the bit pattern of a non-negative single-precision
/// number, so that two colours are the same exactly where their components are, and a greater
/// component has a greater pattern.
#[derive(Debug, Clone, Copy, PartialEq, Eq, Structural)]
pub struct Hsla {
    pub h: u32,
    pub s: u32,
    pub l: u32,
    pub a: u32,
}

/// The pattern of one half.
pub const HALF: u32 = 0x3f00_0000;

/// The pattern of one.
pub const ONE: u32 = 0x3f80_0000;

impl Hsla {
    pub open spec fn spec_black() -> Hsla {
        Hsla { h: 0, s: 0, l: 0, a: ONE }
    }

    pub open spec fn spec_white() -> Hsla {
        Hsla { h: 0, s: 0, l: ONE, a: ONE }
    }

    pub fn black() -> (r: Hsla)
        ensures
            r == Hsla::spec_black(),
    {
        Hsla { h: 0, s: 0, l: 0, a: ONE }
    }

    pub fn white() -> (r: Hsla)
        ensures
            r == Hsla::spec_white(),
    {
        Hsla { h: 0, s: 0, l: ONE, a: ONE }
    }
}

/// The colour of selected text: whichever of black and white stands out from the selection.
pub open spec fn selected_text_color(selection: Hsla) -> Hsla {
    if selection.l > HALF {
        Hsla::spec_black()
    } else {
        Hsla::spec_white()
    }
}

pub fn selection_foreground(selection: Hsla) -> (r: Hsla)
    ensures
        r == selected_text_color(selection),
{
    if selection.l > HALF {
        Hsla::black()
    } else {
        Hsla::white()
    }
}

/// The colours that a theme defines by name.
#[derive(Debug, Clone, Copy, PartialEq, Eq, Structural)]
pub enum NamedColor {
    Black,
    Red,
    Green,
    Yellow,
    Blue,
    Magenta,
    Cyan,
    White,
    BrightBlack,
    BrightRed,
    BrightGreen,
    BrightYellow,
    BrightBlue,
    BrightMagenta,
    BrightCyan,
    BrightWhite,
    Foreground,
    Background,
    Cursor,
    DimBlack,
    DimRed,
    DimGreen,
    DimYellow,
    DimBlue,
    DimMagenta,
    DimCyan,
    DimWhite,
    BrightForeground,
    DimForeground,
}

/// Red, green and blue.
#[derive(Debug, Clone, Copy, PartialEq, Eq, Structural)]
pub struct Rgb {
    pub r: u8,
    pub g: u8,
    pub b: u8,
}

/// A colour as a terminal program asks for it.
#[derive(Debug, Clone, Copy, PartialEq, Eq, Structural)]
pub enum Color {
    Named(NamedColor),
    Spec(Rgb),
    Indexed(u8),
}

/// The colours of a theme.
#[derive(Debug, Clone, Copy, PartialEq, Eq, Structural)]
pub struct ThemeColors {
    pub terminal_ansi_black: Hsla,
    pub terminal_ansi_red: Hsla,
    pub terminal_ansi_green: Hsla,
    pub terminal_ansi_yellow: Hsla,
    pub terminal_ansi_blue: Hsla,
    pub terminal_ansi_magenta: Hsla,
    pub terminal_ansi_cyan: Hsla,
    pub terminal_ansi_white: Hsla,
    pub terminal_ansi_bright_black: Hsla,
    pub terminal_ansi_bright_red: Hsla,
    pub terminal_ansi_bright_green: Hsla,
    pub terminal_ansi_bright_yellow: Hsla,
    pub terminal_ansi_bright_blue: Hsla,
    pub terminal_ansi_bright_magenta: Hsla,
    pub terminal_ansi_bright_cyan: Hsla,
    pub terminal_ansi_bright_white: Hsla,
    pub terminal_foreground: Hsla,
    pub terminal_ansi_background: Hsla,
    pub cursor: Hsla,
    pub terminal_ansi_dim_black: Hsla,
    pub terminal_ansi_dim_red: Hsla,
    pub terminal_ansi_dim_green: Hsla,
    pub terminal_ansi_dim_yellow: Hsla,
    pub terminal_ansi_dim_blue: Hsla,
    pub terminal_ansi_dim_magenta: Hsla,
    pub terminal_ansi_dim_cyan: Hsla,
    pub terminal_ansi_dim_white: Hsla,
    pub terminal_bright_foreground: Hsla,
    pub terminal_dim_foreground: Hsla,
}

/// Where the colour to draw comes from.
#[derive(Debug, Clone, Copy, PartialEq, Eq, Structural)]
pub enum ColorSource {
    /// It is this colour of the theme.
    Theme(Hsla),
    /// It is to be converted from red, green and blue.
    TrueColor(Rgb),
    /// It is this entry of the palette of 256 colours.
    Palette(u8),
}

pub open spec fn named_color(n: NamedColor, colors: ThemeColors) -> Hsla {
    match n {
        NamedColor::Black => colors.terminal_ansi_black,
        NamedColor::Red => colors.terminal_ansi_red,
        NamedColor::Green => colors.terminal_ansi_green,
        NamedColor::Yellow => colors.terminal_ansi_yellow,
        NamedColor::Blue => colors.terminal_ansi_blue,
        NamedColor::Magenta => colors.terminal_ansi_magenta,
        NamedColor::Cyan => colors.terminal_ansi_cyan,
        NamedColor::White => colors.terminal_ansi_white,
        NamedColor::BrightBlack => colors.terminal_ansi_bright_black,
        NamedColor::BrightRed => colors.terminal_ansi_bright_red,
        NamedColor::BrightGreen => colors.terminal_ansi_bright_green,
        NamedColor::BrightYellow => colors.terminal_ansi_bright_yellow,
        NamedColor::BrightBlue => colors.terminal_ansi_bright_blue,
        NamedColor::BrightMagenta => colors.terminal_ansi_bright_magenta,
        NamedColor::BrightCyan => colors.terminal_ansi_bright_cyan,
        NamedColor::BrightWhite => colors.terminal_ansi_bright_white,
        NamedColor::Foreground => colors.terminal_foreground,
        NamedColor::Background => colors.terminal_ansi_background,
        NamedColor::Cursor => colors.cursor,
        NamedColor::DimBlack => colors.terminal_ansi_dim_black,
        NamedColor::DimRed => colors.terminal_ansi_dim_red,
        NamedColor::DimGreen => colors.terminal_ansi_dim_green,
        NamedColor::DimYellow => colors.terminal_ansi_dim_yellow,
        NamedColor::DimBlue => colors.terminal_ansi_dim_blue,
        NamedColor::DimMagenta => colors.terminal_ansi_dim_magenta,
        NamedColor::DimCyan => colors.terminal_ansi_dim_cyan,
        NamedColor::DimWhite => colors.terminal_ansi_dim_white,
        NamedColor::BrightForeground => colors.terminal_bright_foreground,
        NamedColor::DimForeground => colors.terminal_dim_foreground,
    }
}

/// Where the colour to draw comes from.
pub fn convert_color(fg: &Color, colors: &ThemeColors) -> (r: ColorSource)
    ensures
        r == (match *fg {
            Color::Named(n) => ColorSource::Theme(named_color(n, *colors)),
            Color::Spec(rgb) => ColorSource::TrueColor(rgb),
            Color::Indexed(i) => ColorSource::Palette(i),
        }),
{
    match fg {
        Color::Named(n) => ColorSource::Theme(match n {
            NamedColor::Black => colors.terminal_ansi_black,
            NamedColor::Red => colors.terminal_ansi_red,
            NamedColor::Green => colors.terminal_ansi_green,
            NamedColor::Yellow => colors.terminal_ansi_yellow,
            NamedColor::Blue => colors.terminal_ansi_blue,
            NamedColor::Magenta => colors.terminal_ansi_magenta,
            NamedColor::Cyan => colors.terminal_ansi_cyan,
            NamedColor::White => colors.terminal_ansi_white,
            NamedColor::BrightBlack => colors.terminal_ansi_bright_black,
            NamedColor::BrightRed => colors.terminal_ansi_bright_red,
            NamedColor::BrightGreen => colors.terminal_ansi_bright_green,
            NamedColor::BrightYellow => colors.terminal_ansi_bright_yellow,
            NamedColor::BrightBlue => colors.terminal_ansi_bright_blue,
            NamedColor::BrightMagenta => colors.terminal_ansi_bright_magenta,
            NamedColor::BrightCyan => colors.terminal_ansi_bright_cyan,
            NamedColor::BrightWhite => colors.terminal_ansi_bright_white,
            NamedColor::Foreground => colors.terminal_foreground,
            NamedColor::Background => colors.terminal_ansi_background,
            NamedColor::Cursor => colors.cursor,
            NamedColor::DimBlack => colors.terminal_ansi_dim_black,
            NamedColor::DimRed => colors.terminal_ansi_dim_red,
            NamedColor::DimGreen => colors.terminal_ansi_dim_green,
            NamedColor::DimYellow => colors.terminal_ansi_dim_yellow,
            NamedColor::DimBlue => colors.terminal_ansi_dim_blue,
            NamedColor::DimMagenta => colors.terminal_ansi_dim_magenta,
            NamedColor::DimCyan => colors.terminal_ansi_dim_cyan,
            NamedColor::DimWhite => colors.terminal_ansi_dim_white,
            NamedColor::BrightForeground => colors.terminal_bright_foreground,
            NamedColor::DimForeground => colors.terminal_dim_foreground,
        }),
        Color::Spec(rgb) => ColorSource::TrueColor(*rgb),
        Color::Indexed(i) => ColorSource::Palette(*i),
    }
}

/// Box drawing, blocks and geometric shapes, and the separators of status lines: characters whose
/// colours have to match those around them.
pub open spec fn decorative(c: char) -> bool {
    ||| '\u{2500}' <= c <= '\u{25FF}'
    ||| '\u{E0B0}' <= c <= '\u{E0CA}'
    ||| '\u{E0CC}' <= c <= '\u{E0D7}'
}

/// A colour that the program picked itself: a true colour, or one of the fixed palette entries.
pub open spec fn exact_color(c: Color) -> bool {
    match c {
        Color::Named(_) => false,
        Color::Spec(_) => true,
        Color::Indexed(i) => i >= 16,
    }
}

/// Every colour that a program asks for by name is the theme's colour of that name.
pub proof fn lemma_named_colors(colors: ThemeColors)
    ensures
        named_color(NamedColor::Black, colors) == colors.terminal_ansi_black,
        named_color(NamedColor::Red, colors) == colors.terminal_ansi_red,
        named_color(NamedColor::Green, colors) == colors.terminal_ansi_green,
        named_color(NamedColor::Yellow, colors) == colors.terminal_ansi_yellow,
        named_color(NamedColor::Blue, colors) == colors.terminal_ansi_blue,
        named_color(NamedColor::Magenta, colors) == colors.terminal_ansi_magenta,
        named_color(NamedColor::Cyan, colors) == colors.terminal_ansi_cyan,
        named_color(NamedColor::White, colors) == colors.terminal_ansi_white,
        named_color(NamedColor::BrightBlack, colors) == colors.terminal_ansi_bright_black,
        named_color(NamedColor::BrightRed, colors) == colors.terminal_ansi_bright_red,
        named_color(NamedColor::BrightGreen, colors) == colors.terminal_ansi_bright_green,
        named_color(NamedColor::BrightYellow, colors) == colors.terminal_ansi_bright_yellow,
        named_color(NamedColor::BrightBlue, colors) == colors.terminal_ansi_bright_blue,
        named_color(NamedColor::BrightMagenta, colors) == colors.terminal_ansi_bright_magenta,
        named_color(NamedColor::BrightCyan, colors) == colors.terminal_ansi_bright_cyan,
        named_color(NamedColor::BrightWhite, colors) == colors.terminal_ansi_bright_white,
        named_color(NamedColor::Foreground, colors) == colors.terminal_foreground,
        named_color(NamedColor::Background, colors) == colors.terminal_ansi_background,
        named_color(NamedColor::Cursor, colors) == colors.cursor,
        named_color(NamedColor::DimBlack, colors) == colors.terminal_ansi_dim_black,
        named_color(NamedColor::DimRed, colors) == colors.terminal_ansi_dim_red,
        named_color(NamedColor::DimGreen, colors) == colors.terminal_ansi_dim_green,
        named_color(NamedColor::DimYellow, colors) == colors.terminal_ansi_dim_yellow,
        named_color(NamedColor::DimBlue, colors) == colors.terminal_ansi_dim_blue,
        named_color(NamedColor::DimMagenta, colors) == colors.terminal_ansi_dim_magenta,
        named_color(NamedColor::DimCyan, colors) == colors.terminal_ansi_dim_cyan,
        named_color(NamedColor::DimWhite, colors) == colors.terminal_ansi_dim_white,
        named_color(NamedColor::BrightForeground, colors) == colors.terminal_bright_foreground,
        named_color(NamedColor::DimForeground, colors) == colors.terminal_dim_foreground,
{
}

/// Selected text is black on a light selection and white on a dark one, so that the two never are the
/// same.
pub proof fn lemma_selected_text_stands_out(selection: Hsla)
    ensures
        selection.l > 0x3f00_0000 ==> selected_text_color(selection).l == 0,
        selection.l <= 0x3f00_0000 ==> selected_text_color(selection).l == 0x3f80_0000,
        selected_text_color(selection).h == 0,
        selected_text_color(selection).s == 0,
        selected_text_color(selection).a == 0x3f80_0000,
        selected_text_color(selection) != selection,
{
}

/// The program's own colours are drawn exactly: true colours and those of the palette above the first
/// sixteen, which the theme defines, as it does the named ones.
pub proof fn lemma_exact_colors(c: Color)
    ensures
        c matches Color::Named(_) ==> !exact_color(c),
        c matches Color::Spec(_) ==> exact_color(c),
        c matches Color::Indexed(i) ==> (exact_color(c) <==> i as int - 16 >= 0),
{
}

} // verus!
