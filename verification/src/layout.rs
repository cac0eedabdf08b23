//! Laying out the terminal's grid: coloured rectangles, and runs of text on top of them.

use vstd::prelude::*;
use crate::color::{
    decorative, exact_color, selected_text_color, selection_foreground, Color, Hsla, NamedColor,
};
use crate::regions::{
    all_well_formed, covering, lemma_merged, lemma_merged_times, merge_background_regions, merged, painted,
    times_covered, BackgroundRegion,
};
use crate::runs::{
    char_utf8_len, lemma_utf8_total_prefix, look, utf8_len, utf8_total, BatchedTextRun, Font, FontStyle,
    RunModel, ScreenPoint, StrikethroughStyle, TextRun, UnderlineStyle,
};
use crate::search::{is_before, point_before};

verus! {

/// The character that stands where a picture is drawn.
pub const PLACEHOLDER_CHAR: char = '\u{10EEEE}';

/// The weight of bold text.
pub const BOLD: u32 = 700;

/// One pixel, in thousandths.
pub const ONE_PIXEL: u32 = 1000;

/// A place in the grid. Lines above the top of the terminal are negative.
#[derive(Debug, Clone, Copy, PartialEq, Eq, Structural)]
pub struct GridPoint {
    pub line: i32,
    pub column: usize,
}

#[derive(Debug, Clone, Copy, PartialEq, Eq, Structural)]
pub struct CellFlags {
    pub inverse: bool,
    pub wide_char_spacer: bool,
    pub dim: bool,
    /// Underlined in any way.
    pub underline: bool,
    /// Underlined by a wave.
    pub undercurl: bool,
    pub strikeout: bool,
    pub bold: bool,
    pub italic: bool,
}

impl CellFlags {
    pub open spec fn spec_none() -> CellFlags {
        CellFlags {
            inverse: false,
            wide_char_spacer: false,
            dim: false,
            underline: false,
            undercurl: false,
            strikeout: false,
            bold: false,
            italic: false,
        }
    }
}

/// A cell of the grid.
#[derive(Debug)]
pub struct IndexedCell {
    pub point: GridPoint,
    pub c: char,
    /// Characters that are drawn on top of `c`.
    pub zerowidth: Vec<char>,
    pub fg: Color,
    pub bg: Color,
    pub flags: CellFlags,
    /// The program marked it as a link.
    pub hyperlink: bool,
    /// It lies in the selection.
    pub selected: bool,
    /// Its background as it is drawn.
    pub background: Hsla,
    /// Its text's colour as it is drawn.
    pub ink: Hsla,
}

/// How the terminal's text looks.
#[derive(Debug, Clone, Copy, PartialEq, Eq, Structural)]
pub struct TextStyle {
    pub font_family: u32,
    pub font_weight: u32,
    /// In thousandths of a pixel.
    pub font_size: u32,
}

/// How a link under the mouse looks.
#[derive(Debug, Clone, Copy, PartialEq, Eq, Structural)]
pub struct HighlightStyle {
    pub color: Option<Hsla>,
    pub underline: Option<UnderlineStyle>,
}

/// The link under the mouse: how it looks, and the first and the last cell of it.
#[derive(Debug, Clone, Copy, PartialEq, Eq, Structural)]
pub struct Hyperlink {
    pub style: HighlightStyle,
    pub start: GridPoint,
    pub end: GridPoint,
}

impl Hyperlink {
    pub open spec fn covers(self, p: GridPoint) -> bool {
        !point_before(p, self.start) && !point_before(self.end, p)
    }
}

/// A rectangle of cells of one line.
#[derive(Debug, Clone, Copy, PartialEq, Eq, Structural)]
pub struct LayoutRect {
    pub point: ScreenPoint,
    pub num_of_cells: usize,
    pub color: Hsla,
}

/// What has to be known of a cell's colours before they can be drawn.
#[derive(Debug, Clone, Copy, PartialEq, Eq, Structural)]
pub struct InkPlan {
    pub fg: Color,
    pub bg: Color,
    /// The text has to stand out from its background.
    pub adjust_contrast: bool,
    /// The text is drawn fainter.
    pub dim: bool,
}

impl IndexedCell {
    pub open spec fn drawn_fg(self) -> Color {
        if self.flags.inverse {
            self.bg
        } else {
            self.fg
        }
    }

    pub open spec fn drawn_bg(self) -> Color {
        if self.flags.inverse {
            self.fg
        } else {
            self.bg
        }
    }

    /// Nothing of the cell can be seen.
    pub open spec fn blank(self) -> bool {
        &&& self.c == ' '
        &&& self.bg == Color::Named(NamedColor::Background)
        &&& !self.hyperlink
        &&& !self.flags.underline
        &&& !self.flags.inverse
        &&& !self.flags.strikeout
    }

    /// The background that is drawn for the cell: that of the selection, or its own where it is
    /// not the terminal's.
    pub open spec fn background_with(self, selection: Hsla) -> Option<Hsla> {
        if self.selected {
            Some(selection)
        } else if self.drawn_bg() != Color::Named(NamedColor::Background) {
            Some(self.background)
        } else {
            None
        }
    }

    /// The empty cell of a place.
    pub fn new(line: i32, column: usize) -> (r: IndexedCell)
        ensures
            r.point == (GridPoint { line, column }),
            r.c == ' ',
            r.zerowidth@.len() == 0,
            r.fg == Color::Named(NamedColor::Foreground),
            r.bg == Color::Named(NamedColor::Background),
            r.flags == CellFlags::spec_none(),
            !r.hyperlink,
            !r.selected,
            r.background == Hsla::spec_black(),
            r.ink == Hsla::spec_white(),
    {
        IndexedCell {
            point: GridPoint { line, column },
            c: ' ',
            zerowidth: Vec::new(),
            fg: Color::Named(NamedColor::Foreground),
            bg: Color::Named(NamedColor::Background),
            flags: CellFlags {
                inverse: false,
                wide_char_spacer: false,
                dim: false,
                underline: false,
                undercurl: false,
                strikeout: false,
                bold: false,
                italic: false,
            },
            hyperlink: false,
            selected: false,
            background: Hsla::black(),
            ink: Hsla::white(),
        }
    }
}

/// Whether nothing of the cell can be seen.
pub fn is_blank(cell: &IndexedCell) -> (r: bool)
    ensures
        r == cell.blank(),
{
    cell.c == ' ' && cell.bg == Color::Named(NamedColor::Background) && !cell.hyperlink
        && !cell.flags.underline && !cell.flags.inverse && !cell.flags.strikeout
}

/// How a cell's text looks.
pub open spec fn style_of(cell: IndexedCell, text_style: TextStyle, hyperlink: Option<Hyperlink>) -> TextRun {
    let link = match hyperlink {
        Some(h) => if h.covers(cell.point) {
            h.style
        } else {
            HighlightStyle { color: None, underline: None }
        },
        None => HighlightStyle { color: None, underline: None },
    };
    TextRun {
        len: utf8_len(cell.c) as usize,
        color: match link.color {
            Some(c) => c,
            None => cell.ink,
        },
        background_color: None,
        font: Font {
            family: text_style.font_family,
            weight: if cell.flags.bold {
                BOLD
            } else {
                text_style.font_weight
            },
            style: if cell.flags.italic {
                FontStyle::Italic
            } else {
                FontStyle::Normal
            },
        },
        underline: match link.underline {
            Some(u) => Some(u),
            None => if cell.flags.underline || cell.hyperlink {
                Some(
                    UnderlineStyle {
                        color: Some(cell.ink),
                        thickness: ONE_PIXEL,
                        wavy: cell.flags.undercurl,
                    },
                )
            } else {
                None
            },
        },
        strikethrough: if cell.flags.strikeout {
            Some(StrikethroughStyle { color: Some(cell.ink), thickness: ONE_PIXEL })
        } else {
            None
        },
    }
}

/// What layout depends on besides the cells.
pub struct LayoutParams {
    pub start_line_offset: i32,
    pub text_style: TextStyle,
    pub hyperlink: Option<Hyperlink>,
    pub selection: Hsla,
}

/// How a cell's text looks, the selection included.
pub open spec fn drawn_style(cell: IndexedCell, p: LayoutParams) -> TextRun {
    let style = style_of(cell, p.text_style, p.hyperlink);
    if cell.selected {
        TextRun { color: selected_text_color(p.selection), ..style }
    } else {
        style
    }
}

/// Whether cell `i` begins a line.
pub open spec fn begins_line(cells: Seq<IndexedCell>, i: int) -> bool {
    i == 0 || cells[i].point.line != cells[i - 1].point.line
}

/// Which line, counted from zero, cell `i` lies in: how often the line has changed before it.
pub open spec fn line_group(cells: Seq<IndexedCell>, i: int) -> int
    decreases i,
{
    if i <= 0 {
        0
    } else {
        line_group(cells, i - 1) + if begins_line(cells, i) {
            1int
        } else {
            0
        }
    }
}

/// The line of the screen that cell `i` is drawn in.
pub open spec fn screen_line(cells: Seq<IndexedCell>, i: int, p: LayoutParams) -> int {
    p.start_line_offset + line_group(cells, i)
}

/// The regions with one cell's background added: the last region grows by it where it can.
pub open spec fn with_background(
    regions: Seq<BackgroundRegion>,
    line: i32,
    col: i32,
    color: Option<Hsla>,
) -> Seq<BackgroundRegion> {
    match color {
        None => regions,
        Some(color) => if regions.len() > 0 && regions.last().color == color && regions.last().start_line
            == line && regions.last().end_line == line && regions.last().end_col + 1 == col {
            regions.update(
                regions.len() - 1,
                BackgroundRegion { end_col: col, ..regions.last() },
            )
        } else {
            regions.push(
                BackgroundRegion { start_line: line, start_col: col, end_line: line, end_col: col, color },
            )
        },
    }
}

/// How far layout has come.
#[verifier::ext_equal]
pub struct LayoutModel {
    pub runs: Seq<RunModel>,
    pub current: Option<RunModel>,
    pub regions: Seq<BackgroundRegion>,
    /// The cell before was drawn with further characters on top.
    pub had_extras: bool,
}

/// The finished runs, with the one that is still growing.
pub open spec fn flushed(runs: Seq<RunModel>, current: Option<RunModel>) -> Seq<RunModel> {
    match current {
        Some(run) => runs.push(run),
        None => runs,
    }
}

/// Whether the text of a cell is drawn after a cell with or without further characters.
pub open spec fn shows_text(cell: IndexedCell, had_extras: bool) -> bool {
    &&& !cell.flags.wide_char_spacer
    &&& cell.c != PLACEHOLDER_CHAR
    &&& !(cell.c == ' ' && had_extras)
    &&& !cell.blank()
}

/// Whether the next cell follows one with further characters.
pub open spec fn extras_after(cell: IndexedCell, had_extras: bool) -> bool {
    if cell.flags.wide_char_spacer || cell.c == PLACEHOLDER_CHAR {
        had_extras
    } else if cell.c == ' ' && had_extras {
        false
    } else {
        cell.zerowidth@.len() > 0
    }
}

/// The run goes on with a cell of this style at this place.
pub open spec fn continues(run: RunModel, point: ScreenPoint, style: TextRun) -> bool {
    &&& run.style == look(style)
    &&& run.start_point.line == point.line
    &&& run.start_point.column + run.cell_count == point.column
}

/// The first `n` cells laid out.
pub open spec fn laid_out(cells: Seq<IndexedCell>, n: int, p: LayoutParams) -> LayoutModel
    decreases n,
{
    if n <= 0 {
        LayoutModel { runs: Seq::empty(), current: None, regions: Seq::empty(), had_extras: false }
    } else {
        let i = n - 1;
        let cell = cells[i];
        let before = laid_out(cells, i, p);
        let start = if begins_line(cells, i) {
            LayoutModel {
                runs: flushed(before.runs, before.current),
                current: None,
                had_extras: false,
                ..before
            }
        } else {
            before
        };
        let line = screen_line(cells, i, p) as i32;
        let col = cell.point.column as i32;
        let regions = with_background(start.regions, line, col, cell.background_with(p.selection));
        let had_extras = extras_after(cell, start.had_extras);
        if !shows_text(cell, start.had_extras) {
            LayoutModel { regions, had_extras, ..start }
        } else {
            let style = drawn_style(cell, p);
            let point = ScreenPoint { line, column: col };
            if start.current is Some && continues(start.current->0, point, style) {
                LayoutModel {
                    runs: start.runs,
                    current: Some(
                        start.current->0.with_char(cell.c).with_zero_width(cell.zerowidth@),
                    ),
                    regions,
                    had_extras,
                }
            } else {
                LayoutModel {
                    runs: flushed(start.runs, start.current),
                    current: Some(
                        RunModel::of_char(point, cell.c, style, p.text_style.font_size).with_zero_width(
                            cell.zerowidth@,
                        ),
                    ),
                    regions,
                    had_extras,
                }
            }
        }
    }
}

/// The rectangles of a region's lines, up to but not at `to`.
pub open spec fn region_rects(r: BackgroundRegion, to: int) -> Seq<LayoutRect>
    decreases to - r.start_line,
{
    if to <= r.start_line {
        Seq::empty()
    } else {
        region_rects(r, to - 1).push(
            LayoutRect {
                point: ScreenPoint { line: (to - 1) as i32, column: r.start_col },
                num_of_cells: (r.end_col - r.start_col + 1) as usize,
                color: r.color,
            },
        )
    }
}

/// The rectangles of all regions.
pub open spec fn rects_of(regions: Seq<BackgroundRegion>) -> Seq<LayoutRect>
    decreases regions.len(),
{
    if regions.len() == 0 {
        Seq::empty()
    } else {
        rects_of(regions.drop_last()) + region_rects(regions.last(), regions.last().end_line + 1)
    }
}

/// How many characters the cells hold.
pub open spec fn text_units(cells: Seq<IndexedCell>) -> nat
    decreases cells.len(),
{
    if cells.len() == 0 {
        0
    } else {
        text_units(cells.drop_last()) + 1 + cells.last().zerowidth@.len()
    }
}

/// The grid fits the numbers that places and lengths are kept in.
pub open spec fn grid_fits(cells: Seq<IndexedCell>, start_line_offset: i32) -> bool {
    &&& cells.len() <= i32::MAX
    &&& start_line_offset + cells.len() <= i32::MAX
    &&& forall|i: int| 0 <= i < cells.len() ==> (#[trigger] cells[i]).point.column < i32::MAX
    &&& 4 * text_units(cells) <= usize::MAX
}

proof fn lemma_units_grow(cells: Seq<IndexedCell>, i: int)
    requires
        0 <= i <= cells.len(),
    ensures
        text_units(cells.take(i)) <= text_units(cells),
        i < cells.len() ==> text_units(cells.take(i + 1)) == text_units(cells.take(i)) + 1
            + cells[i].zerowidth@.len(),
    decreases cells.len() - i,
{
    if i < cells.len() {
        lemma_units_grow(cells, i + 1);
        assert(cells.take(i + 1).drop_last() =~= cells.take(i));
    } else {
        assert(cells.take(i) =~= cells);
    }
}

proof fn lemma_line_group(cells: Seq<IndexedCell>, i: int)
    requires
        0 <= i,
    ensures
        0 <= line_group(cells, i) <= i,
    decreases i,
{
    if i > 0 {
        lemma_line_group(cells, i - 1);
    }
}

proof fn lemma_line_group_grows(cells: Seq<IndexedCell>, i: int, j: int)
    requires
        0 <= i <= j,
    ensures
        line_group(cells, i) <= line_group(cells, j),
    decreases j - i,
{
    if i < j {
        lemma_line_group_grows(cells, i, j - 1);
    }
}

pub open spec fn run_models(runs: Seq<BatchedTextRun>) -> Seq<RunModel> {
    runs.map_values(|r: BatchedTextRun| r@)
}

pub open spec fn opt_run(run: Option<BatchedTextRun>) -> Option<RunModel> {
    match run {
        Some(r) => Some(r@),
        None => None,
    }
}

/// Whether the grid fits the numbers that places and lengths are kept in.
pub fn check_grid(cells: &[IndexedCell], start_line_offset: i32) -> (r: bool)
    ensures
        r == grid_fits(cells@, start_line_offset),
{
    let count: i128 = cells.len() as i128;
    if count > i32::MAX as i128 || start_line_offset as i128 + count > i32::MAX as i128 {
        return false;
    }
    let limit: usize = usize::MAX / 4;
    let mut units: usize = 0;
    let mut i: usize = 0;
    assert(cells@.take(0).len() == 0);
    while i < cells.len()
        invariant
            i <= cells@.len(),
            limit == usize::MAX / 4,
            units <= limit,
            units == text_units(cells@.take(i as int)),
            forall|j: int| 0 <= j < i ==> (#[trigger] cells@[j]).point.column < i32::MAX,
        decreases cells@.len() - i,
    {
        proof {
            lemma_units_grow(cells@, i as int);
            lemma_units_grow(cells@, i + 1);
        }
        if cells[i].point.column >= i32::MAX as usize {
            assert(cells@[i as int].point.column >= i32::MAX);
            return false;
        }
        let extra: usize = cells[i].zerowidth.len();
        if extra >= limit - units {
            return false;
        }
        units = units + extra + 1;
        i += 1;
    }
    assert(cells@.take(i as int) =~= cells@);
    true
}

/// Lines and columns of a region keep away from the largest number.
pub open spec fn region_fits(r: BackgroundRegion) -> bool {
    r.well_formed() && 0 <= r.start_col && r.end_col < i32::MAX && r.end_line < i32::MAX
}

proof fn lemma_regions_fit(cells: Seq<IndexedCell>, n: int, p: LayoutParams)
    requires
        0 <= n <= cells.len(),
        grid_fits(cells, p.start_line_offset),
    ensures
        forall|k: int|
            0 <= k < laid_out(cells, n, p).regions.len() ==> region_fits(
                #[trigger] laid_out(cells, n, p).regions[k],
            ),
    decreases n,
{
    if n > 0 {
        lemma_regions_fit(cells, n - 1, p);
        lemma_line_group(cells, n - 1);
        assert(cells[n - 1].point.column < i32::MAX);
        let before = laid_out(cells, n - 1, p).regions;
        let after = laid_out(cells, n, p).regions;
        assert forall|k: int| 0 <= k < after.len() implies region_fits(#[trigger] after[k]) by {
            if k < before.len() {
                assert(region_fits(before[k]));
            }
        }
    }
}

proof fn lemma_merged_fit(s: Seq<BackgroundRegion>)
    requires
        forall|k: int| 0 <= k < s.len() ==> region_fits(#[trigger] s[k]),
    ensures
        forall|k: int| 0 <= k < merged(s).len() ==> region_fits(#[trigger] merged(s)[k]),
{
    assert(all_well_formed(s)) by {
        assert forall|k: int| 0 <= k < s.len() implies (#[trigger] s[k]).well_formed() by {
            assert(region_fits(s[k]));
        }
    }
    assert forall|k: int| 0 <= k < merged(s).len() implies region_fits(#[trigger] merged(s)[k]) by {
        let r = merged(s)[k];
        lemma_merged(s, r.end_line as int, r.end_col as int, r.color);
        lemma_merged(s, r.start_line as int, r.start_col as int, r.color);
        assert(r.well_formed());
        assert(painted(merged(s), r.end_line as int, r.end_col as int, r.color));
        assert(painted(merged(s), r.start_line as int, r.start_col as int, r.color));
        let a = choose|a: int|
            0 <= a < s.len() && (#[trigger] s[a]).color == r.color && s[a].covers(
                r.end_line as int,
                r.end_col as int,
            );
        let b = choose|b: int|
            0 <= b < s.len() && (#[trigger] s[b]).color == r.color && s[b].covers(
                r.start_line as int,
                r.start_col as int,
            );
        assert(region_fits(s[a]));
        assert(region_fits(s[b]));
    }
}

/// The terminal as it is drawn.
pub struct TerminalElement;

impl TerminalElement {
    /// Whether a character's colours have to match those around it.
    pub fn is_decorative_character(ch: char) -> (r: bool)
        ensures
            r == decorative(ch),
    {
        ('\u{2500}' <= ch && ch <= '\u{25FF}') || ('\u{E0B0}' <= ch && ch <= '\u{E0CA}') || ('\u{E0CC}'
            <= ch && ch <= '\u{E0D7}')
    }

    /// Whether the program picked a colour that is to be drawn exactly.
    pub fn is_app_chosen_exact_color(fg: &Color) -> (r: bool)
        ensures
            r == exact_color(*fg),
    {
        match fg {
            Color::Named(_) => false,
            Color::Spec(_) => true,
            Color::Indexed(i) => *i >= 16,
        }
    }

    /// What has to be done to a cell's colours before they are drawn.
    pub fn ink_plan(cell: &IndexedCell) -> (r: InkPlan)
        ensures
            r == (InkPlan {
                fg: cell.drawn_fg(),
                bg: cell.drawn_bg(),
                adjust_contrast: !exact_color(cell.drawn_fg()) && !decorative(cell.c),
                dim: cell.flags.dim,
            }),
    {
        let (fg, bg) = if cell.flags.inverse {
            (cell.bg, cell.fg)
        } else {
            (cell.fg, cell.bg)
        };
        InkPlan {
            fg,
            bg,
            adjust_contrast: !Self::is_app_chosen_exact_color(&fg) && !Self::is_decorative_character(
                cell.c,
            ),
            dim: cell.flags.dim,
        }
    }

    /// How a cell's text looks.
    pub fn cell_style(
        cell: &IndexedCell,
        text_style: &TextStyle,
        hyperlink: Option<Hyperlink>,
    ) -> (r: TextRun)
        ensures
            r == style_of(*cell, *text_style, hyperlink),
    {
        let underline = if cell.flags.underline || cell.hyperlink {
            Some(
                UnderlineStyle {
                    color: Some(cell.ink),
                    thickness: ONE_PIXEL,
                    wavy: cell.flags.undercurl,
                },
            )
        } else {
            None
        };
        let strikethrough = if cell.flags.strikeout {
            Some(StrikethroughStyle { color: Some(cell.ink), thickness: ONE_PIXEL })
        } else {
            None
        };
        let weight: u32 = if cell.flags.bold {
            BOLD
        } else {
            text_style.font_weight
        };
        let style = if cell.flags.italic {
            FontStyle::Italic
        } else {
            FontStyle::Normal
        };
        let mut result = TextRun {
            len: char_utf8_len(cell.c),
            color: cell.ink,
            background_color: None,
            font: Font { family: text_style.font_family, weight, style },
            underline,
            strikethrough,
        };
        if let Some(link) = hyperlink {
            if !is_before(cell.point, link.start) && !is_before(link.end, cell.point) {
                if let Some(underline) = link.style.underline {
                    result.underline = Some(underline);
                }
                if let Some(color) = link.style.color {
                    result.color = color;
                }
            }
        }
        result
    }

    /// The rectangles and the runs of text that a grid is drawn as.
    pub fn layout_grid(
        grid: &[IndexedCell],
        start_line_offset: i32,
        text_style: &TextStyle,
        hyperlink: Option<Hyperlink>,
        selection_color: Hsla,
    ) -> (r: (Vec<LayoutRect>, Vec<BatchedTextRun>))
        requires
            grid_fits(grid@, start_line_offset),
        ensures
            ({
                let p = LayoutParams {
                    start_line_offset,
                    text_style: *text_style,
                    hyperlink,
                    selection: selection_color,
                };
                let m = laid_out(grid@, grid@.len() as int, p);
                &&& r.0@ == rects_of(merged(m.regions))
                &&& run_models(r.1@) == flushed(m.runs, m.current)
            }),
    {
        let ghost p = LayoutParams {
            start_line_offset,
            text_style: *text_style,
            hyperlink,
            selection: selection_color,
        };
        let sel_fg_color = selection_foreground(selection_color);
        let mut runs: Vec<BatchedTextRun> = Vec::new();
        let mut current: Option<BatchedTextRun> = None;
        let mut regions: Vec<BackgroundRegion> = Vec::new();
        let mut had_extras: bool = false;
        let mut line_index: i32 = 0;
        let mut i: usize = 0;
        assert(run_models(runs@) =~= Seq::<RunModel>::empty());
        while i < grid.len()
            invariant
                i <= grid@.len(),
                grid_fits(grid@, start_line_offset),
                p == (LayoutParams {
                    start_line_offset,
                    text_style: *text_style,
                    hyperlink,
                    selection: selection_color,
                }),
                sel_fg_color == selected_text_color(selection_color),
                run_models(runs@) == laid_out(grid@, i as int, p).runs,
                opt_run(current) == laid_out(grid@, i as int, p).current,
                regions@ == laid_out(grid@, i as int, p).regions,
                had_extras == laid_out(grid@, i as int, p).had_extras,
                line_index == line_group(grid@, i - 1),
                current matches Some(run) ==> run.cell_count <= i && run.style.len <= 4 * text_units(
                    grid@.take(i as int),
                ),
            decreases grid@.len() - i,
        {
            let cell = &grid[i];
            let ghost old_runs = runs@;
            let ghost before = laid_out(grid@, i as int, p);
            proof {
                lemma_units_grow(grid@, i as int);
                lemma_units_grow(grid@, i + 1);
                lemma_line_group(grid@, i as int);
                if i > 0 {
                    lemma_line_group(grid@, i - 1);
                }
                lemma_utf8_total_prefix(cell.zerowidth@, cell.zerowidth@.len() as int);
                assert(cell.point.column < i32::MAX);
            }
            let new_line = i == 0 || cell.point.line != grid[i - 1].point.line;
            if new_line {
                if i > 0 {
                    line_index += 1;
                }
                let finished = current.take();
                if let Some(batch) = finished {
                    runs.push(batch);
                    assert(run_models(runs@) =~= run_models(old_runs).push(batch@));
                }
                had_extras = false;
            }
            let ghost start_runs = runs@;
            assert(run_models(runs@) =~= (if begins_line(grid@, i as int) {
                flushed(before.runs, before.current)
            } else {
                before.runs
            }));
            let line: i32 = start_line_offset + line_index;
            let col: i32 = cell.point.column as i32;
            let bg = if cell.flags.inverse {
                cell.fg
            } else {
                cell.bg
            };
            let color = if cell.selected {
                Some(selection_color)
            } else if bg != Color::Named(NamedColor::Background) {
                Some(cell.background)
            } else {
                None
            };
            Self::add_background(&mut regions, line, col, color);
            if !cell.flags.wide_char_spacer && cell.c != PLACEHOLDER_CHAR {
                if cell.c == ' ' && had_extras {
                    had_extras = false;
                } else {
                    had_extras = cell.zerowidth.len() > 0;
                    if !is_blank(cell) {
                        let mut style = Self::cell_style(cell, text_style, hyperlink);
                        if cell.selected {
                            style.color = sel_fg_color;
                        }
                        let point = ScreenPoint { line, column: col };
                        match current.take() {
                            Some(mut batch) => {
                                if batch.can_append(&style) && batch.start_point.line == line
                                    && batch.start_point.column as i128 + batch.cell_count as i128
                                    == col as i128 {
                                    batch.append_char(cell.c);
                                    batch.append_zero_width_chars(cell.zerowidth.as_slice());
                                    current = Some(batch);
                                } else {
                                    let mut next = BatchedTextRun::new_from_char(
                                        point,
                                        cell.c,
                                        style,
                                        text_style.font_size,
                                    );
                                    next.append_zero_width_chars(cell.zerowidth.as_slice());
                                    runs.push(batch);
                                    assert(run_models(runs@) =~= run_models(start_runs).push(batch@));
                                    current = Some(next);
                                }
                            },
                            None => {
                                let mut next = BatchedTextRun::new_from_char(
                                    point,
                                    cell.c,
                                    style,
                                    text_style.font_size,
                                );
                                next.append_zero_width_chars(cell.zerowidth.as_slice());
                                current = Some(next);
                            },
                        }
                    }
                }
            }
            i += 1;
        }
        let ghost m = laid_out(grid@, grid@.len() as int, p);
        let ghost last_runs = runs@;
        if let Some(batch) = current {
            runs.push(batch);
            assert(run_models(runs@) =~= run_models(last_runs).push(batch@));
        }
        proof {
            lemma_regions_fit(grid@, grid@.len() as int, p);
            lemma_merged_fit(m.regions);
        }
        let joined = merge_background_regions(regions);
        (Self::rects(&joined), runs)
    }

    fn add_background(regions: &mut Vec<BackgroundRegion>, line: i32, col: i32, color: Option<Hsla>)
        ensures
            final(regions)@ == with_background(old(regions)@, line, col, color),
    {
        if let Some(color) = color {
            let count: usize = regions.len();
            if count > 0 {
                let last: BackgroundRegion = regions[count - 1];
                if last.color == color && last.start_line == line && last.end_line == line
                    && last.end_col as i64 + 1 == col as i64 {
                    let grown = BackgroundRegion { end_col: col, ..last };
                    regions.set(count - 1, grown);
                    return;
                }
            }
            regions.push(BackgroundRegion::new(line, col, color));
        }
    }

    fn rects(regions: &Vec<BackgroundRegion>) -> (r: Vec<LayoutRect>)
        requires
            forall|k: int| 0 <= k < regions@.len() ==> region_fits(#[trigger] regions@[k]),
        ensures
            r@ == rects_of(regions@),
    {
        let mut out: Vec<LayoutRect> = Vec::new();
        let mut k: usize = 0;
        while k < regions.len()
            invariant
                k <= regions@.len(),
                forall|k: int| 0 <= k < regions@.len() ==> region_fits(#[trigger] regions@[k]),
                out@ == rects_of(regions@.take(k as int)),
            decreases regions@.len() - k,
        {
            let region: BackgroundRegion = regions[k];
            assert(region_fits(region));
            let ghost before = out@;
            let mut line: i32 = region.start_line;
            assert(out@ =~= before + region_rects(region, line as int));
            while line <= region.end_line
                invariant
                    region.start_line <= line <= region.end_line + 1,
                    region.well_formed(),
                    0 <= region.start_col,
                    region.end_col < i32::MAX,
                    region.end_line < i32::MAX,
                    out@ == before + region_rects(region, line as int),
                decreases region.end_line + 1 - line,
            {
                out.push(
                    LayoutRect {
                        point: ScreenPoint { line, column: region.start_col },
                        num_of_cells: (region.end_col - region.start_col + 1) as usize,
                        color: region.color,
                    },
                );
                assert(out@ =~= before + region_rects(region, line + 1));
                line += 1;
            }
            assert(regions@.take(k + 1).drop_last() =~= regions@.take(k as int));
            k += 1;
        }
        assert(regions@.take(k as int) =~= regions@);
        out
    }
}

/// Whether some rectangle gives the cell this background.
pub open spec fn rect_painted(rects: Seq<LayoutRect>, line: int, col: int, color: Hsla) -> bool {
    exists|k: int|
        0 <= k < rects.len() && (#[trigger] rects[k]).color == color && rects[k].point.line == line
            && rects[k].point.column <= col < rects[k].point.column + rects[k].num_of_cells
}

/// Cell `i` is drawn at this place, with this background.
pub open spec fn has_background(
    cells: Seq<IndexedCell>,
    i: int,
    p: LayoutParams,
    line: int,
    col: int,
    color: Hsla,
) -> bool {
    &&& screen_line(cells, i, p) == line
    &&& cells[i].point.column == col
    &&& cells[i].background_with(p.selection) == Some(color)
}

proof fn lemma_region_rects(r: BackgroundRegion, to: int, line: int, col: int, color: Hsla)
    requires
        region_fits(r),
        r.start_line <= to <= r.end_line + 1,
    ensures
        rect_painted(region_rects(r, to), line, col, color) <==> r.color == color && r.covers(line, col)
            && line < to,
    decreases to - r.start_line,
{
    if to > r.start_line {
        lemma_region_rects(r, to - 1, line, col, color);
        let before = region_rects(r, to - 1);
        let all = region_rects(r, to);
        if rect_painted(before, line, col, color) {
            let k = choose|k: int|
                0 <= k < before.len() && (#[trigger] before[k]).color == color && before[k].point.line == line
                    && before[k].point.column <= col < before[k].point.column + before[k].num_of_cells;
            assert(all[k] == before[k]);
        }
        if r.color == color && r.covers(line, col) && line == to - 1 {
            assert(all[all.len() - 1].point.line == line);
        }
        if rect_painted(all, line, col, color) {
            let k = choose|k: int|
                0 <= k < all.len() && (#[trigger] all[k]).color == color && all[k].point.line == line
                    && all[k].point.column <= col < all[k].point.column + all[k].num_of_cells;
            if k < before.len() {
                assert(all[k] == before[k]);
            }
        }
    }
}

proof fn lemma_rects_of(s: Seq<BackgroundRegion>, line: int, col: int, color: Hsla)
    requires
        forall|k: int| 0 <= k < s.len() ==> region_fits(#[trigger] s[k]),
    ensures
        rect_painted(rects_of(s), line, col, color) <==> painted(s, line, col, color),
    decreases s.len(),
{
    if s.len() > 0 {
        let init = s.drop_last();
        assert forall|k: int| 0 <= k < init.len() implies region_fits(#[trigger] init[k]) by {
            assert(region_fits(s[k]));
        }
        let r = s.last();
        assert(region_fits(s[s.len() - 1]));
        lemma_rects_of(init, line, col, color);
        lemma_region_rects(r, r.end_line + 1, line, col, color);
        let a = rects_of(init);
        let b = region_rects(r, r.end_line + 1);
        let all = rects_of(s);
        if rect_painted(a, line, col, color) {
            let k = choose|k: int|
                0 <= k < a.len() && (#[trigger] a[k]).color == color && a[k].point.line == line
                    && a[k].point.column <= col < a[k].point.column + a[k].num_of_cells;
            assert(all[k] == a[k]);
        }
        if rect_painted(b, line, col, color) {
            let k = choose|k: int|
                0 <= k < b.len() && (#[trigger] b[k]).color == color && b[k].point.line == line
                    && b[k].point.column <= col < b[k].point.column + b[k].num_of_cells;
            assert(all[a.len() + k] == b[k]);
        }
        if rect_painted(all, line, col, color) {
            let k = choose|k: int|
                0 <= k < all.len() && (#[trigger] all[k]).color == color && all[k].point.line == line
                    && all[k].point.column <= col < all[k].point.column + all[k].num_of_cells;
            if k < a.len() {
                assert(all[k] == a[k]);
            } else {
                assert(all[k] == b[k - a.len()]);
            }
        }
        if painted(init, line, col, color) {
            let k = choose|k: int|
                0 <= k < init.len() && (#[trigger] init[k]).color == color && init[k].covers(line, col);
            assert(s[k] == init[k]);
        }
        if painted(s, line, col, color) {
            let k = choose|k: int|
                0 <= k < s.len() && (#[trigger] s[k]).color == color && s[k].covers(line, col);
            if k < init.len() {
                assert(init[k] == s[k]);
            }
        }
    }
}

proof fn lemma_regions_of_cells(
    cells: Seq<IndexedCell>,
    n: int,
    p: LayoutParams,
    line: int,
    col: int,
    color: Hsla,
)
    requires
        0 <= n <= cells.len(),
        grid_fits(cells, p.start_line_offset),
    ensures
        painted(laid_out(cells, n, p).regions, line, col, color) <==> exists|i: int|
            0 <= i < n && #[trigger] has_background(cells, i, p, line, col, color),
    decreases n,
{
    if n > 0 {
        let i = n - 1;
        lemma_regions_of_cells(cells, i, p, line, col, color);
        lemma_regions_fit(cells, i, p);
        lemma_line_group(cells, i);
        assert(cells[i].point.column < i32::MAX);
        let before = laid_out(cells, i, p).regions;
        let after = laid_out(cells, n, p).regions;
        if before.len() > 0 {
            assert(region_fits(before[before.len() - 1]));
        }
        if painted(before, line, col, color) {
            let k = choose|k: int|
                0 <= k < before.len() && (#[trigger] before[k]).color == color && before[k].covers(line, col);
            assert(after[k].covers(line, col) && after[k].color == color);
        }
        if has_background(cells, i, p, line, col, color) {
            assert(after[after.len() - 1].covers(line, col) && after[after.len() - 1].color == color);
        }
        if painted(after, line, col, color) {
            let k = choose|k: int|
                0 <= k < after.len() && (#[trigger] after[k]).color == color && after[k].covers(line, col);
            if k < before.len() && before[k] == after[k] {
                assert(painted(before, line, col, color));
                let j = choose|j: int| 0 <= j < i && #[trigger] has_background(cells, j, p, line, col, color);
                assert(has_background(cells, j, p, line, col, color));
            } else if k < before.len() && before[k].covers(line, col) {
                assert(painted(before, line, col, color));
                let j = choose|j: int| 0 <= j < i && #[trigger] has_background(cells, j, p, line, col, color);
                assert(has_background(cells, j, p, line, col, color));
            } else {
                assert(has_background(cells, i, p, line, col, color));
            }
        }
    }
}

/// The rectangles give exactly those places a background that a cell with one is drawn at, and
/// the same colours.
pub proof fn lemma_backgrounds_drawn(
    cells: Seq<IndexedCell>,
    p: LayoutParams,
    line: int,
    col: int,
    color: Hsla,
)
    requires
        grid_fits(cells, p.start_line_offset),
    ensures
        rect_painted(rects_of(merged(laid_out(cells, cells.len() as int, p).regions)), line, col, color)
            <==> exists|i: int|
            0 <= i < cells.len() && #[trigger] has_background(cells, i, p, line, col, color),
{
    let n = cells.len() as int;
    let s = laid_out(cells, n, p).regions;
    lemma_regions_of_cells(cells, n, p, line, col, color);
    lemma_regions_fit(cells, n, p);
    assert(all_well_formed(s)) by {
        assert forall|k: int| 0 <= k < s.len() implies (#[trigger] s[k]).well_formed() by {
            assert(region_fits(s[k]));
        }
    }
    lemma_merged(s, line, col, color);
    lemma_merged_fit(s);
    lemma_rects_of(merged(s), line, col, color);
}

/// How many of the rectangles a place lies in.
pub open spec fn times_in_rects(rects: Seq<LayoutRect>, line: int, col: int) -> nat
    decreases rects.len(),
{
    if rects.len() == 0 {
        0
    } else {
        times_in_rects(rects.drop_last(), line, col) + in_rect(rects.last(), line, col)
    }
}

/// 1 for a rectangle that a place lies in, 0 for any other.
pub open spec fn in_rect(rect: LayoutRect, line: int, col: int) -> nat {
    if rect.point.line == line && rect.point.column <= col < rect.point.column + rect.num_of_cells {
        1
    } else {
        0
    }
}

/// How many of the first `n` cells have a background and are drawn at a place.
pub open spec fn backgrounds_at(cells: Seq<IndexedCell>, n: int, p: LayoutParams, line: int, col: int) -> nat
    decreases n,
{
    if n <= 0 {
        0
    } else {
        backgrounds_at(cells, n - 1, p, line, col) + if screen_line(cells, n - 1, p) == line && cells[n
            - 1].point.column == col && cells[n - 1].background_with(p.selection) is Some {
            1nat
        } else {
            0
        }
    }
}

proof fn lemma_times_concat(a: Seq<LayoutRect>, b: Seq<LayoutRect>, line: int, col: int)
    ensures
        times_in_rects(a + b, line, col) == times_in_rects(a, line, col) + times_in_rects(b, line, col),
    decreases b.len(),
{
    if b.len() == 0 {
        assert(a + b =~= a);
    } else {
        assert((a + b).drop_last() =~= a + b.drop_last());
        lemma_times_concat(a, b.drop_last(), line, col);
    }
}

proof fn lemma_region_times(r: BackgroundRegion, to: int, line: int, col: int)
    requires
        region_fits(r),
        r.start_line <= to <= r.end_line + 1,
    ensures
        times_in_rects(region_rects(r, to), line, col) == if line < to {
            covering(r, line, col)
        } else {
            0
        },
    decreases to - r.start_line,
{
    if to > r.start_line {
        lemma_region_times(r, to - 1, line, col);
        assert(region_rects(r, to).drop_last() =~= region_rects(r, to - 1));
    }
}

proof fn lemma_rects_times(s: Seq<BackgroundRegion>, line: int, col: int)
    requires
        forall|k: int| 0 <= k < s.len() ==> region_fits(#[trigger] s[k]),
    ensures
        times_in_rects(rects_of(s), line, col) == times_covered(s, line, col),
    decreases s.len(),
{
    if s.len() > 0 {
        let init = s.drop_last();
        assert forall|k: int| 0 <= k < init.len() implies region_fits(#[trigger] init[k]) by {
            assert(region_fits(s[k]));
        }
        let r = s.last();
        assert(region_fits(s[s.len() - 1]));
        lemma_rects_times(init, line, col);
        lemma_region_times(r, r.end_line + 1, line, col);
        lemma_times_concat(rects_of(init), region_rects(r, r.end_line + 1), line, col);
    }
}

proof fn lemma_laid_out_times(cells: Seq<IndexedCell>, n: int, p: LayoutParams, line: int, col: int)
    requires
        0 <= n <= cells.len(),
        grid_fits(cells, p.start_line_offset),
    ensures
        times_covered(laid_out(cells, n, p).regions, line, col) == backgrounds_at(cells, n, p, line, col),
    decreases n,
{
    if n > 0 {
        let i = n - 1;
        lemma_laid_out_times(cells, i, p, line, col);
        lemma_regions_fit(cells, i, p);
        lemma_line_group(cells, i);
        assert(cells[i].point.column < i32::MAX);
        let before = laid_out(cells, i, p).regions;
        let after = laid_out(cells, n, p).regions;
        if before.len() > 0 {
            assert(region_fits(before[before.len() - 1]));
        }
        if after.len() > before.len() {
            assert(after.drop_last() =~= before);
        } else if before.len() > 0 {
            assert(after.drop_last() =~= before.drop_last());
        }
    }
}

/// A place lies in as many rectangles as cells with a background are drawn there. So where the grid
/// holds every place once, each place with a background lies in exactly one rectangle, and any other
/// in none.
pub proof fn lemma_each_place_once(cells: Seq<IndexedCell>, p: LayoutParams, line: int, col: int)
    requires
        grid_fits(cells, p.start_line_offset),
    ensures
        times_in_rects(rects_of(merged(laid_out(cells, cells.len() as int, p).regions)), line, col)
            == backgrounds_at(cells, cells.len() as int, p, line, col),
{
    let n = cells.len() as int;
    let s = laid_out(cells, n, p).regions;
    lemma_laid_out_times(cells, n, p, line, col);
    lemma_regions_fit(cells, n, p);
    assert(all_well_formed(s)) by {
        assert forall|k: int| 0 <= k < s.len() implies (#[trigger] s[k]).well_formed() by {
            assert(region_fits(s[k]));
        }
    }
    lemma_merged_times(s, line, col);
    lemma_merged_fit(s);
    lemma_rects_times(merged(s), line, col);
}

/// The characters of some cells, one cell after another.
pub open spec fn cells_text(cells: Seq<IndexedCell>, members: Seq<int>) -> Seq<char>
    decreases members.len(),
{
    if members.len() == 0 {
        Seq::empty()
    } else {
        cells_text(cells, members.drop_last()) + seq![cells[members.last()].c] + cells[members.last()].zerowidth@
    }
}

/// The run is made of these cells, all among the first `n`: as many as it counts, in one line, one
/// column after the other, of one look, and with their characters as its text.
pub open spec fn made_of(cells: Seq<IndexedCell>, n: int, p: LayoutParams, run: RunModel, members: Seq<int>) -> bool {
    &&& members.len() == run.cell_count
    &&& run.cell_count > 0
    &&& run.text == cells_text(cells, members)
    &&& forall|j: int|
        0 <= j < members.len() ==> {
            &&& 0 <= #[trigger] members[j] < n
            &&& screen_line(cells, members[j], p) == run.start_point.line
            &&& cells[members[j]].point.column == run.start_point.column + j
            &&& look(drawn_style(cells[members[j]], p)) == run.style
        }
}

/// The cells of a run sit in consecutive columns of one line, and the run counts them.
pub open spec fn in_a_row(cells: Seq<IndexedCell>, n: int, p: LayoutParams, run: RunModel) -> bool {
    exists|members: Seq<int>| made_of(cells, n, p, run, members)
}

proof fn lemma_one_cell(cells: Seq<IndexedCell>, i: int)
    ensures
        cells_text(cells, seq![i]) == seq![cells[i].c] + cells[i].zerowidth@,
{
    assert(seq![i].drop_last() =~= Seq::<int>::empty());
    assert(cells_text(cells, seq![i].drop_last()) =~= Seq::<char>::empty());
    assert(Seq::<char>::empty() + seq![cells[i].c] + cells[i].zerowidth@ =~= seq![cells[i].c]
        + cells[i].zerowidth@);
}

proof fn lemma_made_of_more(cells: Seq<IndexedCell>, n: int, more: int, p: LayoutParams, run: RunModel)
    requires
        n <= more,
        in_a_row(cells, n, p, run),
    ensures
        in_a_row(cells, more, p, run),
{
    let members = choose|members: Seq<int>| made_of(cells, n, p, run, members);
    assert(made_of(cells, more, p, run, members));
}

/// The cells of every run sit in consecutive columns of one line, and the run counts them.
pub proof fn lemma_run_columns(cells: Seq<IndexedCell>, n: int, p: LayoutParams)
    requires
        0 <= n <= cells.len(),
        grid_fits(cells, p.start_line_offset),
    ensures
        ({
            let m = laid_out(cells, n, p);
            forall|k: int|
                0 <= k < flushed(m.runs, m.current).len() ==> in_a_row(cells, n, p, #[trigger] flushed(m.runs, m.current)[k])
        }),
    decreases n,
{
    if n > 0 {
        let i = n - 1;
        let cell = cells[i];
        lemma_run_columns(cells, i, p);
        lemma_line_group(cells, i);
        assert(cell.point.column < i32::MAX);
        let before = laid_out(cells, i, p);
        let all = flushed(before.runs, before.current);
        let m = laid_out(cells, n, p);
        let now = flushed(m.runs, m.current);
        assert forall|k: int| 0 <= k < all.len() implies in_a_row(cells, n, p, #[trigger] all[k]) by {
            lemma_made_of_more(cells, i, n, p, all[k]);
        }
        let start_extras = if begins_line(cells, i) {
            false
        } else {
            before.had_extras
        };
        if shows_text(cell, start_extras) {
            let style = drawn_style(cell, p);
            let point = ScreenPoint {
                line: screen_line(cells, i, p) as i32,
                column: cell.point.column as i32,
            };
            if !begins_line(cells, i) && before.current is Some && continues(before.current->0, point, style) {
                let run = before.current->0;
                let grown = run.with_char(cell.c).with_zero_width(cell.zerowidth@);
                assert(all[all.len() - 1] == run);
                let members = choose|members: Seq<int>| made_of(cells, i, p, run, members);
                let longer = members.push(i);
                assert(longer.drop_last() =~= members);
                assert(grown.text =~= cells_text(cells, longer));
                assert forall|j: int| 0 <= j < longer.len() implies {
                    &&& 0 <= #[trigger] longer[j] < n
                    &&& screen_line(cells, longer[j], p) == grown.start_point.line
                    &&& cells[longer[j]].point.column == grown.start_point.column + j
                    &&& look(drawn_style(cells[longer[j]], p)) == grown.style
                } by {
                    if j < members.len() {
                        assert(longer[j] == members[j]);
                    }
                }
                assert(made_of(cells, n, p, grown, longer));
                assert forall|k: int| 0 <= k < now.len() implies in_a_row(cells, n, p, #[trigger] now[k]) by {
                    if k < before.runs.len() {
                        assert(now[k] == all[k]);
                    } else {
                        assert(now[k] == grown);
                    }
                }
            } else {
                let fresh = RunModel::of_char(point, cell.c, style, p.text_style.font_size).with_zero_width(
                    cell.zerowidth@,
                );
                lemma_one_cell(cells, i);
                assert(fresh.text =~= cells_text(cells, seq![i]));
                assert(made_of(cells, n, p, fresh, seq![i]));
                assert(m.runs =~= all);
                assert forall|k: int| 0 <= k < now.len() implies in_a_row(cells, n, p, #[trigger] now[k]) by {
                    if k < all.len() {
                        assert(now[k] == all[k]);
                    } else {
                        assert(now[k] == fresh);
                    }
                }
            }
        } else {
            assert(now =~= all);
            assert forall|k: int| 0 <= k < now.len() implies in_a_row(cells, n, p, #[trigger] now[k]) by {
                assert(now[k] == all[k]);
            }
        }
    } else {
        let m = laid_out(cells, n, p);
        assert(flushed(m.runs, m.current).len() == 0);
    }
}

/// The text of all runs.
pub open spec fn runs_text(runs: Seq<RunModel>) -> Seq<char>
    decreases runs.len(),
{
    if runs.len() == 0 {
        Seq::empty()
    } else {
        runs_text(runs.drop_last()) + runs.last().text
    }
}

/// Whether cell `i` follows, in its line, a cell with further characters.
pub open spec fn follows_extras(cells: Seq<IndexedCell>, i: int) -> bool
    decreases i,
{
    if i <= 0 || begins_line(cells, i) {
        false
    } else {
        extras_after(cells[i - 1], follows_extras(cells, i - 1))
    }
}

/// The text of the first `n` cells, as far as it is drawn.
pub open spec fn shown_text(cells: Seq<IndexedCell>, n: int) -> Seq<char>
    decreases n,
{
    if n <= 0 {
        Seq::empty()
    } else {
        let cell = cells[n - 1];
        shown_text(cells, n - 1) + if shows_text(cell, follows_extras(cells, n - 1)) {
            seq![cell.c] + cell.zerowidth@
        } else {
            Seq::empty()
        }
    }
}

proof fn lemma_runs_text_push(runs: Seq<RunModel>, run: RunModel)
    ensures
        runs_text(runs.push(run)) == runs_text(runs) + run.text,
{
    assert(runs.push(run).drop_last() =~= runs);
}

proof fn lemma_extras(cells: Seq<IndexedCell>, n: int, p: LayoutParams)
    requires
        0 < n <= cells.len(),
    ensures
        laid_out(cells, n, p).had_extras == extras_after(cells[n - 1], follows_extras(cells, n - 1)),
    decreases n,
{
    if n > 1 {
        lemma_extras(cells, n - 1, p);
    }
}

proof fn lemma_runs_text(cells: Seq<IndexedCell>, n: int, p: LayoutParams)
    requires
        0 <= n <= cells.len(),
    ensures
        ({
            let m = laid_out(cells, n, p);
            runs_text(flushed(m.runs, m.current)) == shown_text(cells, n)
        }),
    decreases n,
{
    let m = laid_out(cells, n, p);
    if n <= 0 {
        assert(flushed(m.runs, m.current) =~= Seq::<RunModel>::empty());
    } else {
        let i = n - 1;
        let cell = cells[i];
        lemma_runs_text(cells, i, p);
        if i > 0 {
            lemma_extras(cells, i, p);
        }
        let before = laid_out(cells, i, p);
        let all = flushed(before.runs, before.current);
        let start_extras = if begins_line(cells, i) {
            false
        } else {
            before.had_extras
        };
        assert(start_extras == follows_extras(cells, i));
        let piece = seq![cell.c] + cell.zerowidth@;
        if shows_text(cell, start_extras) {
            let style = drawn_style(cell, p);
            let point = ScreenPoint {
                line: screen_line(cells, i, p) as i32,
                column: cell.point.column as i32,
            };
            if !begins_line(cells, i) && before.current is Some && continues(before.current->0, point, style) {
                let run = before.current->0;
                let grown = run.with_char(cell.c).with_zero_width(cell.zerowidth@);
                lemma_runs_text_push(before.runs, run);
                lemma_runs_text_push(before.runs, grown);
                assert(grown.text =~= run.text + piece);
                assert(runs_text(flushed(m.runs, m.current)) =~= shown_text(cells, n));
            } else {
                let fresh = RunModel::of_char(point, cell.c, style, p.text_style.font_size).with_zero_width(
                    cell.zerowidth@,
                );
                assert(fresh.text =~= piece);
                assert(m.runs =~= all);
                lemma_runs_text_push(all, fresh);
            }
        } else {
            assert(flushed(m.runs, m.current) =~= all);
            assert(shown_text(cells, n) =~= shown_text(cells, i));
        }
    }
}

/// The runs hold the text of the cells that are drawn: all of it, in order, and nothing else.
pub proof fn lemma_text_kept(cells: Seq<IndexedCell>, p: LayoutParams)
    ensures
        ({
            let m = laid_out(cells, cells.len() as int, p);
            runs_text(flushed(m.runs, m.current)) == shown_text(cells, cells.len() as int)
        }),
{
    lemma_runs_text(cells, cells.len() as int, p);
}

proof fn lemma_utf8_concat(a: Seq<char>, b: Seq<char>)
    ensures
        utf8_total(a + b) == utf8_total(a) + utf8_total(b),
    decreases b.len(),
{
    if b.len() == 0 {
        assert(a + b =~= a);
    } else {
        assert((a + b).drop_last() =~= a + b.drop_last());
        lemma_utf8_concat(a, b.drop_last());
    }
}

/// Every run knows how many bytes its text takes.
pub proof fn lemma_run_lengths(cells: Seq<IndexedCell>, n: int, p: LayoutParams)
    requires
        0 <= n <= cells.len(),
    ensures
        ({
            let m = laid_out(cells, n, p);
            &&& forall|k: int|
                0 <= k < m.runs.len() ==> (#[trigger] m.runs[k]).len == utf8_total(m.runs[k].text)
            &&& m.current matches Some(run) ==> run.len == utf8_total(run.text)
        }),
    decreases n,
{
    if n > 0 {
        let i = n - 1;
        let cell = cells[i];
        lemma_run_lengths(cells, i, p);
        let before = laid_out(cells, i, p);
        reveal_with_fuel(utf8_total, 2);
        let one = seq![cell.c];
        assert(one.drop_last() =~= Seq::<char>::empty());
        assert(utf8_total(one) == utf8_len(cell.c));
        lemma_utf8_concat(one, cell.zerowidth@);
        if before.current is Some {
            let run = before.current->0;
            assert(run.text.push(cell.c) =~= run.text + one);
            lemma_utf8_concat(run.text, one);
            lemma_utf8_concat(run.text.push(cell.c), cell.zerowidth@);
        }
        let m = laid_out(cells, n, p);
        assert forall|k: int| 0 <= k < m.runs.len() implies (#[trigger] m.runs[k]).len == utf8_total(
            m.runs[k].text,
        ) by {
            if k < before.runs.len() {
                assert(m.runs[k] == before.runs[k]);
            }
        }
    }
}

/// Which cells lie in the visible rows: a stretch of the grid, from the first up to but not at
/// the second position. Rows are counted as they stand, whatever their numbers.
pub fn visible_cells(cells: &[IndexedCell], rows_above: usize, row_count: usize) -> (r: (usize, usize))
    ensures
        r.0 <= r.1 <= cells@.len(),
        forall|i: int|
            0 <= i < cells@.len() ==> (r.0 <= i < r.1 <==> rows_above <= #[trigger] line_group(cells@, i)
                < rows_above + row_count),
{
    let mut from: usize = cells.len();
    let mut to: usize = cells.len();
    let mut group: usize = 0;
    let mut found: bool = false;
    let mut i: usize = 0;
    while i < cells.len()
        invariant
            i <= cells@.len(),
            group == line_group(cells@, i - 1),
            group <= i,
            to == cells@.len(),
            found ==> from < i,
            !found ==> from == cells@.len(),
            forall|j: int|
                0 <= j < i ==> (if found {
                    from <= j
                } else {
                    false
                } <==> rows_above <= #[trigger] line_group(cells@, j)),
            forall|j: int| 0 <= j < i ==> #[trigger] line_group(cells@, j) < rows_above + row_count,
        decreases cells@.len() - i,
    {
        if i > 0 && cells[i].point.line != cells[i - 1].point.line {
            group += 1;
        }
        assert(group == line_group(cells@, i as int));
        if group as u128 >= rows_above as u128 + row_count as u128 {
            proof {
                assert forall|k: int| i <= k < cells@.len() implies rows_above + row_count
                    <= #[trigger] line_group(cells@, k) by {
                    lemma_line_group_grows(cells@, i as int, k);
                }
            }
            if !found {
                from = i;
            }
            return (from, i);
        }
        if group >= rows_above && !found {
            found = true;
            from = i;
        }
        i += 1;
        proof {
            assert forall|j: int| 0 <= j < i implies (if found {
                from <= j
            } else {
                false
            } <==> rows_above <= #[trigger] line_group(cells@, j)) by {
                lemma_line_group_grows(cells@, j, i - 1);
            }
        }
    }
    (from, to)
}

/// Cell `i` follows, in its line, a character with marks on top of it. What takes no place of its own
/// between them does not count, and a blank that was left out for such marks ends them.
pub open spec fn behind_marks(cells: Seq<IndexedCell>, i: int) -> bool
    decreases i,
{
    if i <= 0 || cells[i].point.line != cells[i - 1].point.line {
        false
    } else {
        let previous = cells[i - 1];
        if previous.flags.wide_char_spacer || previous.c == '\u{10EEEE}' {
            behind_marks(cells, i - 1)
        } else {
            previous.zerowidth@.len() > 0 && !(previous.c == ' ' && behind_marks(cells, i - 1))
        }
    }
}

/// The text of the first `n` cells. The second half of a wide character and the place of a picture
/// hold none. Any other character is there with its marks, whatever it looks like. A blank is there
/// only where something of it can be seen and it does not follow marks.
pub open spec fn grid_text(cells: Seq<IndexedCell>, n: int) -> Seq<char>
    decreases n,
{
    if n <= 0 {
        Seq::empty()
    } else {
        let cell = cells[n - 1];
        let seen = cell.bg != Color::Named(NamedColor::Background) || cell.hyperlink || cell.flags.underline
            || cell.flags.inverse || cell.flags.strikeout;
        grid_text(cells, n - 1) + if cell.flags.wide_char_spacer || cell.c == '\u{10EEEE}' {
            Seq::empty()
        } else if cell.c != ' ' || (seen && !behind_marks(cells, n - 1)) {
            seq![cell.c] + cell.zerowidth@
        } else {
            Seq::empty()
        }
    }
}

proof fn lemma_behind_marks(cells: Seq<IndexedCell>, i: int)
    requires
        0 <= i < cells.len(),
    ensures
        follows_extras(cells, i) == behind_marks(cells, i),
    decreases i,
{
    if i > 0 {
        lemma_behind_marks(cells, i - 1);
    }
}

proof fn lemma_shown_is_grid_text(cells: Seq<IndexedCell>, n: int)
    requires
        0 <= n <= cells.len(),
    ensures
        shown_text(cells, n) == grid_text(cells, n),
    decreases n,
{
    if n > 0 {
        lemma_shown_is_grid_text(cells, n - 1);
        lemma_behind_marks(cells, n - 1);
    }
}

/// Every character of the grid is drawn, in order, and nothing else is.
pub proof fn lemma_every_character_drawn(cells: Seq<IndexedCell>, p: LayoutParams)
    ensures
        ({
            let m = laid_out(cells, cells.len() as int, p);
            runs_text(flushed(m.runs, m.current)) == grid_text(cells, cells.len() as int)
        }),
{
    lemma_runs_text(cells, cells.len() as int, p);
    lemma_shown_is_grid_text(cells, cells.len() as int);
}

/// The characters of the cells that hold one, with their marks.
pub open spec fn characters(cells: Seq<IndexedCell>) -> Seq<char>
    decreases cells.len(),
{
    if cells.len() == 0 {
        Seq::empty()
    } else {
        characters(cells.drop_last()) + if cells.last().flags.wide_char_spacer || cells.last().c == '\u{10EEEE}' {
            Seq::empty()
        } else {
            seq![cells.last().c] + cells.last().zerowidth@
        }
    }
}

/// Where the grid holds no blanks, its text is drawn whole, whatever flags, colours and links the cells
/// have and whatever is selected.
pub proof fn lemma_looks_hide_no_text(cells: Seq<IndexedCell>, p: LayoutParams)
    requires
        forall|i: int| 0 <= i < cells.len() ==> (#[trigger] cells[i]).c != ' ',
    ensures
        ({
            let m = laid_out(cells, cells.len() as int, p);
            runs_text(flushed(m.runs, m.current)) == characters(cells)
        }),
{
    lemma_every_character_drawn(cells, p);
    lemma_characters(cells, cells.len() as int);
    assert(cells.take(cells.len() as int) =~= cells);
}

proof fn lemma_characters(cells: Seq<IndexedCell>, n: int)
    requires
        0 <= n <= cells.len(),
        forall|i: int| 0 <= i < cells.len() ==> (#[trigger] cells[i]).c != ' ',
    ensures
        grid_text(cells, n) == characters(cells.take(n)),
    decreases n,
{
    if n > 0 {
        lemma_characters(cells, n - 1);
        assert(cells.take(n).drop_last() =~= cells.take(n - 1));
        assert(cells[n - 1].c != ' ');
    }
}

/// A cell looks as its flags, its ink, the link under the mouse and the selection say. Bold and italic
/// pick the font, lines under and through the text have its ink, a link under the mouse goes before the
/// cell's own colour and underline, and the selection before all colours.
pub proof fn lemma_cell_look(cell: IndexedCell, p: LayoutParams)
    ensures
        ({
            let look = drawn_style(cell, p);
            let at = cell.point;
            let linked = p.hyperlink matches Some(h) && (at.line > h.start.line || at.line == h.start.line
                && at.column >= h.start.column) && (at.line < h.end.line || at.line == h.end.line && at.column
                <= h.end.column);
            let link = p.hyperlink->0.style;
            &&& look.font.family == p.text_style.font_family
            &&& cell.flags.bold ==> look.font.weight == 700
            &&& !cell.flags.bold ==> look.font.weight == p.text_style.font_weight
            &&& cell.flags.italic <==> look.font.style == FontStyle::Italic
            &&& look.background_color is None
            &&& cell.flags.strikeout ==> look.strikethrough == Some(
                StrikethroughStyle { color: Some(cell.ink), thickness: 1000 },
            )
            &&& !cell.flags.strikeout ==> look.strikethrough is None
            &&& linked && link.underline is Some ==> look.underline == link.underline
            &&& !(linked && link.underline is Some) && (cell.flags.underline || cell.hyperlink) ==> look.underline
                == Some(
                UnderlineStyle { color: Some(cell.ink), thickness: 1000, wavy: cell.flags.undercurl },
            )
            &&& !(linked && link.underline is Some) && !cell.flags.underline && !cell.hyperlink
                ==> look.underline is None
            &&& cell.selected ==> look.color == (if p.selection.l > 0x3f00_0000 {
                Hsla { h: 0, s: 0, l: 0, a: 0x3f80_0000 }
            } else {
                Hsla { h: 0, s: 0, l: 0x3f80_0000, a: 0x3f80_0000 }
            })
            &&& !cell.selected && linked && link.color is Some ==> look.color == link.color->0
            &&& !cell.selected && !(linked && link.color is Some) ==> look.color == cell.ink
        }),
{
}

/// Reverse video swaps the two colours of a cell, and nothing else does.
pub proof fn lemma_inverse_swaps(cell: IndexedCell)
    ensures
        cell.flags.inverse ==> cell.drawn_fg() == cell.bg && cell.drawn_bg() == cell.fg,
        !cell.flags.inverse ==> cell.drawn_fg() == cell.fg && cell.drawn_bg() == cell.bg,
{
}

/// The grid's first line is drawn at the offset, and each further one below the one before, whatever
/// the numbers of the lines.
pub proof fn lemma_screen_lines(cells: Seq<IndexedCell>, i: int, p: LayoutParams)
    requires
        0 <= i < cells.len(),
    ensures
        screen_line(cells, 0, p) == p.start_line_offset,
        i > 0 && cells[i].point.line == cells[i - 1].point.line ==> screen_line(cells, i, p) == screen_line(cells, i - 1, p),
        i > 0 && cells[i].point.line != cells[i - 1].point.line ==> screen_line(cells, i, p) == screen_line(
            cells,
            i - 1,
            p,
        ) + 1,
{
}

/// Cell `i` is drawn at this place with this background: that of the selection where it is selected,
/// else its own, where what is its background in the end is not that of the terminal.
pub open spec fn shows_background(
    cells: Seq<IndexedCell>,
    i: int,
    p: LayoutParams,
    line: int,
    col: int,
    color: Hsla,
) -> bool {
    let cell = cells[i];
    let own = if cell.flags.inverse {
        cell.fg
    } else {
        cell.bg
    };
    &&& screen_line(cells, i, p) == line
    &&& cell.point.column == col
    &&& cell.selected || own != Color::Named(NamedColor::Background)
    &&& color == if cell.selected {
        p.selection
    } else {
        cell.background
    }
}

/// A place is given a background exactly where a cell is drawn there that shows one, and it is given
/// that one.
pub proof fn lemma_backgrounds_shown(cells: Seq<IndexedCell>, p: LayoutParams, line: int, col: int, color: Hsla)
    requires
        grid_fits(cells, p.start_line_offset),
    ensures
        rect_painted(rects_of(merged(laid_out(cells, cells.len() as int, p).regions)), line, col, color)
            <==> exists|i: int|
            0 <= i < cells.len() && #[trigger] shows_background(cells, i, p, line, col, color),
{
    lemma_backgrounds_drawn(cells, p, line, col, color);
    if exists|i: int| 0 <= i < cells.len() && #[trigger] has_background(cells, i, p, line, col, color) {
        let i = choose|i: int| 0 <= i < cells.len() && #[trigger] has_background(cells, i, p, line, col, color);
        assert(shows_background(cells, i, p, line, col, color));
    }
    if exists|i: int| 0 <= i < cells.len() && #[trigger] shows_background(cells, i, p, line, col, color) {
        let i = choose|i: int| 0 <= i < cells.len() && #[trigger] shows_background(cells, i, p, line, col, color);
        assert(has_background(cells, i, p, line, col, color));
    }
}

/// The second run does not go on where the first ends, or it looks different.
pub open spec fn parted(first: RunModel, second: RunModel) -> bool {
    ||| first.style != second.style
    ||| first.start_point.line != second.start_point.line
    ||| first.start_point.column + first.cell_count != second.start_point.column
}

/// Neighbours that look the same are drawn in one run, and every run has the size of the terminal's
/// font.
pub proof fn lemma_runs_whole(cells: Seq<IndexedCell>, n: int, p: LayoutParams)
    requires
        0 <= n <= cells.len(),
        grid_fits(cells, p.start_line_offset),
    ensures
        ({
            let m = laid_out(cells, n, p);
            let runs = flushed(m.runs, m.current);
            &&& forall|k: int| 0 <= k < runs.len() ==> (#[trigger] runs[k]).font_size == p.text_style.font_size
            &&& forall|k: int| 0 < k < runs.len() ==> parted(runs[k - 1], #[trigger] runs[k])
            &&& n > 0 ==> forall|k: int|
                0 <= k < runs.len() ==> (#[trigger] runs[k]).start_point.line <= screen_line(cells, n - 1, p)
        }),
    decreases n,
{
    let m = laid_out(cells, n, p);
    let runs = flushed(m.runs, m.current);
    if n > 0 {
        let i = n - 1;
        let cell = cells[i];
        lemma_runs_whole(cells, i, p);
        lemma_line_group(cells, i);
        assert(cell.point.column < i32::MAX);
        let before = laid_out(cells, i, p);
        let all = flushed(before.runs, before.current);
        if i > 0 {
            lemma_screen_lines(cells, i, p);
            lemma_line_group(cells, i - 1);
        }
        let start_extras = if begins_line(cells, i) {
            false
        } else {
            before.had_extras
        };
        let style = drawn_style(cell, p);
        let point = ScreenPoint { line: screen_line(cells, i, p) as i32, column: cell.point.column as i32 };
        if shows_text(cell, start_extras) {
            if !begins_line(cells, i) && before.current is Some && continues(before.current->0, point, style) {
                let run = before.current->0;
                let grown = run.with_char(cell.c).with_zero_width(cell.zerowidth@);
                assert(all[all.len() - 1] == run);
                assert(runs =~= before.runs.push(grown));
                assert forall|k: int| 0 <= k < runs.len() implies (#[trigger] runs[k]).font_size
                    == p.text_style.font_size && runs[k].start_point.line <= screen_line(cells, i, p) by {
                    if k < before.runs.len() {
                        assert(runs[k] == all[k]);
                    }
                }
                assert forall|k: int| 0 < k < runs.len() implies parted(runs[k - 1], #[trigger] runs[k]) by {
                    assert(parted(all[k - 1], all[k]));
                    assert(runs[k - 1] == all[k - 1]);
                    if k < before.runs.len() {
                        assert(runs[k] == all[k]);
                    }
                }
            } else {
                let fresh = RunModel::of_char(point, cell.c, style, p.text_style.font_size).with_zero_width(
                    cell.zerowidth@,
                );
                assert(runs =~= all.push(fresh));
                assert forall|k: int| 0 <= k < runs.len() implies (#[trigger] runs[k]).font_size
                    == p.text_style.font_size && runs[k].start_point.line <= screen_line(cells, i, p) by {
                    if k < all.len() {
                        assert(runs[k] == all[k]);
                    }
                }
                assert forall|k: int| 0 < k < runs.len() implies parted(runs[k - 1], #[trigger] runs[k]) by {
                    assert(runs[k - 1] == all[k - 1]);
                    if k < all.len() {
                        assert(parted(all[k - 1], all[k]));
                        assert(runs[k] == all[k]);
                    } else if begins_line(cells, i) {
                        assert(all[k - 1].start_point.line <= screen_line(cells, i - 1, p));
                    } else if before.current is Some {
                        assert(all[k - 1] == before.current->0);
                    } else {
                        lemma_no_run_open(cells, i, p);
                        assert(all[k - 1].start_point.line < screen_line(cells, i, p));
                    }
                }
            }
        } else {
            assert(runs =~= all);
            assert forall|k: int| 0 <= k < runs.len() implies (#[trigger] runs[k]).font_size == p.text_style.font_size
                && runs[k].start_point.line <= screen_line(cells, i, p) by {
                assert(runs[k] == all[k]);
            }
            assert forall|k: int| 0 < k < runs.len() implies parted(runs[k - 1], #[trigger] runs[k]) by {
                assert(parted(all[k - 1], all[k]));
            }
        }
    }
}

/// Where no run is open, all runs lie in lines above.
proof fn lemma_no_run_open(cells: Seq<IndexedCell>, n: int, p: LayoutParams)
    requires
        0 < n <= cells.len(),
        grid_fits(cells, p.start_line_offset),
        laid_out(cells, n, p).current is None,
    ensures
        forall|k: int|
            0 <= k < laid_out(cells, n, p).runs.len() ==> (#[trigger] laid_out(cells, n, p).runs[k]).start_point.line
                < screen_line(cells, n - 1, p),
    decreases n,
{
    let i = n - 1;
    if i > 0 {
        lemma_screen_lines(cells, i, p);
        let m = laid_out(cells, n, p);
        let before = laid_out(cells, i, p);
        if begins_line(cells, i) {
            lemma_runs_whole(cells, i, p);
            let all = flushed(before.runs, before.current);
            assert(m.runs =~= all);
            assert forall|k: int| 0 <= k < m.runs.len() implies (#[trigger] m.runs[k]).start_point.line < screen_line(
                cells,
                i,
                p,
            ) by {
                assert(all[k].start_point.line <= screen_line(cells, i - 1, p));
            }
        } else {
            lemma_no_run_open(cells, i, p);
        }
    }
}

} // verus!
