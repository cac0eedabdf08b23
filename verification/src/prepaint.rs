//! What is drawn of a terminal, and how it answers the mouse.

use vstd::prelude::*;
use crate::color::Hsla;
use crate::layout::{
    flushed, grid_fits, in_a_row, laid_out, lemma_run_columns, line_group, made_of, rects_of, run_models,
    visible_cells, GridPoint,
    HighlightStyle, Hyperlink, IndexedCell, LayoutParams, LayoutRect, TerminalElement, TextStyle,
};
use crate::persistence::opt_list;
use crate::regions::merged;
use crate::runs::BatchedTextRun;
use crate::search::SearchMatch;
use crate::shell::CursorShape;
use crate::terminal_view::{
    content_mode_of, hover_model, ContentMode, HoverTarget, HoveredWord, TerminalMode, TerminalView,
};
use crate::text::clone_list;

verus! {

/// The cursor's place on the screen.
#[derive(Debug, Clone, Copy, PartialEq, Eq, Structural)]
pub struct DisplayCursor {
    pub line: i32,
    pub col: usize,
}

impl DisplayCursor {
    /// The cursor of the grid, as far as it is scrolled.
    pub fn from(cursor_point: GridPoint, display_offset: usize) -> (r: DisplayCursor)
        requires
            display_offset <= i32::MAX,
            cursor_point.line + display_offset <= i32::MAX,
        ensures
            r.line == cursor_point.line + display_offset,
            r.col == cursor_point.column,
    {
        DisplayCursor { line: cursor_point.line + display_offset as i32, col: cursor_point.column }
    }

    pub fn line(&self) -> (r: i32)
        ensures
            r == self.line,
    {
        self.line
    }

    pub fn col(&self) -> (r: usize)
        ensures
            r == self.col,
    {
        self.col
    }
}

/// The cell that the cursor is drawn in, unless it lies below the last line.
pub fn cursor_position(cursor: DisplayCursor, total_lines: usize) -> (r: Option<(i32, usize)>)
    ensures
        r == (if cursor.line < total_lines {
            Some((cursor.line, cursor.col))
        } else {
            None
        }),
{
    if (cursor.line() as i128) < total_lines as i128 {
        Some((cursor.line(), cursor.col()))
    } else {
        None
    }
}

/// The cursor shape that the terminal program asks for.
#[derive(Debug, Clone, Copy, PartialEq, Eq, Structural)]
pub enum AlacCursorShape {
    Block,
    Underline,
    Beam,
    HollowBlock,
    Hidden,
}

/// A cursor as it is drawn: its shape, and whether the character under it is drawn over it.
#[derive(Debug, Clone, Copy, PartialEq, Eq, Structural)]
pub struct CursorLook {
    pub shape: CursorShape,
    pub with_text: bool,
}

/// How the cursor looks. Without the focus it is hollow.
pub open spec fn look_of(shape: AlacCursorShape, focused: bool) -> Option<CursorLook> {
    match shape {
        AlacCursorShape::Hidden => None,
        AlacCursorShape::HollowBlock => Some(
            CursorLook { shape: CursorShape::Hollow, with_text: false },
        ),
        _ => if !focused {
            Some(CursorLook { shape: CursorShape::Hollow, with_text: false })
        } else if shape == AlacCursorShape::Block {
            Some(CursorLook { shape: CursorShape::Block, with_text: true })
        } else if shape == AlacCursorShape::Underline {
            Some(CursorLook { shape: CursorShape::Underline, with_text: false })
        } else {
            Some(CursorLook { shape: CursorShape::Bar, with_text: false })
        },
    }
}

/// How the cursor looks, unless it is hidden.
pub fn cursor_look(shape: AlacCursorShape, focused: bool) -> (r: Option<CursorLook>)
    ensures
        r == look_of(shape, focused),
{
    match shape {
        AlacCursorShape::Hidden => None,
        AlacCursorShape::HollowBlock => Some(
            CursorLook { shape: CursorShape::Hollow, with_text: false },
        ),
        AlacCursorShape::Block => Some(
            if focused {
                CursorLook { shape: CursorShape::Block, with_text: true }
            } else {
                CursorLook { shape: CursorShape::Hollow, with_text: false }
            },
        ),
        AlacCursorShape::Underline => Some(
            if focused {
                CursorLook { shape: CursorShape::Underline, with_text: false }
            } else {
                CursorLook { shape: CursorShape::Hollow, with_text: false }
            },
        ),
        AlacCursorShape::Beam => Some(
            if focused {
                CursorLook { shape: CursorShape::Bar, with_text: false }
            } else {
                CursorLook { shape: CursorShape::Hollow, with_text: false }
            },
        ),
    }
}

/// How many whole rows fit into a height, and what is left over, in device pixels.
#[derive(Debug, Clone, Copy, PartialEq, Eq, Structural)]
pub struct RowFit {
    pub rows: usize,
    pub snapped_height: i32,
    pub padding: i32,
}

/// Fits whole rows into a height; there is always one.
pub fn fit_rows(available_height: i32, line_height: i32) -> (r: RowFit)
    requires
        available_height >= 0,
        line_height >= 1,
    ensures
        r.rows == (if available_height >= line_height {
            available_height / line_height
        } else {
            1int
        }),
        r.snapped_height == r.rows * line_height,
        r.padding == (if available_height >= r.snapped_height {
            available_height - r.snapped_height
        } else {
            0
        }),
        r.padding < line_height,
{
    let quotient: i32 = available_height / line_height;
    proof {
        vstd::arithmetic::div_mod::lemma_fundamental_div_mod(available_height as int, line_height as int);
        vstd::arithmetic::div_mod::lemma_div_pos_is_pos(available_height as int, line_height as int);
        assert(line_height as int * (available_height as int / line_height as int) == (available_height as int
            / line_height as int) * line_height as int) by (nonlinear_arith);
        if available_height >= line_height {
            vstd::arithmetic::div_mod::lemma_div_is_ordered(
                line_height as int,
                available_height as int,
                line_height as int,
            );
            vstd::arithmetic::div_mod::lemma_div_by_self(line_height as int);
        } else {
            vstd::arithmetic::div_mod::lemma_basic_div(available_height as int, line_height as int);
        }
    }
    let rows: i32 = if quotient > 1 {
        quotient
    } else {
        1
    };
    let snapped_height: i32 = if quotient >= 1 {
        available_height - available_height % line_height
    } else {
        line_height
    };
    let padding: i32 = if available_height > snapped_height {
        available_height - snapped_height
    } else {
        0
    };
    RowFit { rows: rows as usize, snapped_height, padding }
}

/// The room that a terminal has: widths in thousandths of a pixel, heights in device pixels.
#[derive(Debug, Clone, Copy, PartialEq, Eq, Structural)]
pub struct GridSpace {
    pub width: i64,
    pub cell_width: i64,
    pub height: i32,
    pub line_height: i32,
}

/// How the grid lies in its room: its width, its rows and their height where they are fitted, and
/// how far down it begins.
#[derive(Debug, Clone, Copy, PartialEq, Eq, Structural)]
pub struct GridFit {
    pub width: i64,
    pub rows: Option<RowFit>,
    pub shift: i32,
}

/// Fits the grid into its room. A cell's width is left free beside it, but it is never narrower
/// than two cells. A terminal of its own shows whole rows only, and at the end of its content it is
/// the first row that is moved away from the edge.
pub fn fit_grid(space: GridSpace, mode: TerminalMode, scrolled_to_bottom: bool) -> (r: GridFit)
    requires
        0 <= space.width <= 0x1000_0000_0000_0000,
        0 <= space.cell_width <= 0x1000_0000_0000_0000,
        space.height >= 0,
        space.line_height >= 1,
    ensures
        r.width == if space.width - space.cell_width < 2 * space.cell_width {
            2 * space.cell_width
        } else {
            space.width - space.cell_width
        },
        r.rows is Some <==> mode == TerminalMode::Standalone,
        r.rows matches Some(rows) ==> {
            &&& rows.rows == if space.height >= space.line_height {
                space.height as int / space.line_height as int
            } else {
                1
            }
            &&& rows.snapped_height == rows.rows * space.line_height
            &&& rows.padding == if space.height >= rows.snapped_height {
                space.height - rows.snapped_height
            } else {
                0
            }
        },
        r.shift == match r.rows {
            Some(rows) => if scrolled_to_bottom {
                rows.padding
            } else {
                0
            },
            None => 0,
        },
{
    let beside: i64 = space.width - space.cell_width;
    let width: i64 = if beside < 2 * space.cell_width {
        2 * space.cell_width
    } else {
        beside
    };
    match mode {
        TerminalMode::Standalone => {
            let rows = fit_rows(space.height, space.line_height);
            let shift: i32 = if scrolled_to_bottom {
                rows.padding
            } else {
                0
            };
            GridFit { width, rows: Some(rows), shift }
        },
        TerminalMode::Embedded { .. } => GridFit { width, rows: None, shift: 0 },
    }
}

/// The part of the grid that has to be laid out.
#[derive(Debug, Clone, Copy, PartialEq, Eq, Structural)]
pub enum GridPortion {
    Nothing,
    All,
    Rows { skip: usize, take: usize },
}

/// Which part of the grid can be seen. `covered_rows` is the height that can be seen, in rows,
/// rounded up; one row more is laid out.
pub fn visible_portion(
    any_visible: bool,
    all_visible: bool,
    rows_above: usize,
    covered_rows: usize,
) -> (r: GridPortion)
    requires
        covered_rows < usize::MAX,
    ensures
        r == (if !any_visible {
            GridPortion::Nothing
        } else if all_visible {
            GridPortion::All
        } else {
            GridPortion::Rows { skip: rows_above, take: (covered_rows + 1) as usize }
        }),
{
    if !any_visible {
        GridPortion::Nothing
    } else if all_visible {
        GridPortion::All
    } else {
        GridPortion::Rows { skip: rows_above, take: covered_rows + 1 }
    }
}

/// The cells of a stretch of rows, and nothing else.
pub open spec fn is_stretch(
    cells: Seq<IndexedCell>,
    from: int,
    to: int,
    skip: usize,
    take: usize,
) -> bool {
    &&& 0 <= from <= to <= cells.len()
    &&& forall|i: int|
        0 <= i < cells.len() ==> (from <= i < to <==> skip <= #[trigger] line_group(cells, i) < skip + take)
}

/// What a grid is drawn as, whose first row lies in line `offset` of the screen.
pub open spec fn is_layout(
    rects: Seq<LayoutRect>,
    runs: Seq<BatchedTextRun>,
    cells: Seq<IndexedCell>,
    p: LayoutParams,
) -> bool {
    let m = laid_out(cells, cells.len() as int, p);
    rects == rects_of(merged(m.regions)) && run_models(runs) == flushed(m.runs, m.current)
}

/// What a part of the grid is drawn as; nothing where it does not fit the numbers.
pub open spec fn portion_drawn(
    portion: GridPortion,
    cells: Seq<IndexedCell>,
    text_style: TextStyle,
    hyperlink: Option<Hyperlink>,
    selection: Hsla,
    drawn: Option<(Seq<LayoutRect>, Seq<BatchedTextRun>)>,
) -> bool {
    match portion {
        GridPortion::Nothing => drawn matches Some((rects, runs)) && rects.len() == 0 && runs.len() == 0,
        GridPortion::All => {
            let p = LayoutParams { start_line_offset: 0, text_style, hyperlink, selection };
            &&& drawn is Some <==> grid_fits(cells, 0)
            &&& drawn matches Some((rects, runs)) ==> is_layout(rects, runs, cells, p)
        },
        GridPortion::Rows { skip, take } => exists|from: int, to: int|
            #![trigger cells.subrange(from, to)]
            {
                let seen = cells.subrange(from, to);
                let p = LayoutParams { start_line_offset: skip as i32, text_style, hyperlink, selection };
                &&& is_stretch(cells, from, to, skip, take)
                &&& drawn is Some <==> skip <= i32::MAX && grid_fits(seen, skip as i32)
                &&& drawn matches Some((rects, runs)) ==> is_layout(rects, runs, seen, p)
            },
    }
}

pub open spec fn drawn_views(r: Option<(Vec<LayoutRect>, Vec<BatchedTextRun>)>) -> Option<
    (Seq<LayoutRect>, Seq<BatchedTextRun>),
> {
    match r {
        Some((rects, runs)) => Some((rects@, runs@)),
        None => None,
    }
}

/// Lays out the part of the grid that can be seen. Rows that are skipped leave their place empty.
pub fn layout_portion(
    portion: GridPortion,
    cells: &[IndexedCell],
    text_style: &TextStyle,
    hyperlink: Option<Hyperlink>,
    selection_color: Hsla,
) -> (r: Option<(Vec<LayoutRect>, Vec<BatchedTextRun>)>)
    ensures
        portion_drawn(portion, cells@, *text_style, hyperlink, selection_color, drawn_views(r)),
{
    match portion {
        GridPortion::Nothing => Some((Vec::new(), Vec::new())),
        GridPortion::All => {
            if crate::layout::check_grid(cells, 0) {
                Some(TerminalElement::layout_grid(cells, 0, text_style, hyperlink, selection_color))
            } else {
                None
            }
        },
        GridPortion::Rows { skip, take } => {
            let (from, to) = visible_cells(cells, skip, take);
            let seen = vstd::slice::slice_subrange(cells, from, to);
            assert(is_stretch(cells@, from as int, to as int, skip, take));
            assert(seen@ == cells@.subrange(from as int, to as int));
            if skip <= i32::MAX as usize && crate::layout::check_grid(seen, skip as i32) {
                Some(
                    TerminalElement::layout_grid(
                        seen,
                        skip as i32,
                        text_style,
                        hyperlink,
                        selection_color,
                    ),
                )
            } else {
                None
            }
        },
    }
}

/// The line below the cursor, where something can be shown there.
pub fn block_target_line(display_offset: usize, cursor_line: i32) -> (r: Option<i64>)
    ensures
        r == (if display_offset == 0 {
            Some((cursor_line + 1) as i64)
        } else {
            None
        }),
{
    if display_offset == 0 {
        Some(cursor_line as i64 + 1)
    } else {
        None
    }
}

/// What a terminal holds at a moment.
#[derive(Debug)]
pub struct TerminalContent {
    pub cells: Vec<IndexedCell>,
    /// How far it is scrolled back.
    pub display_offset: usize,
    pub cursor: GridPoint,
    pub cursor_shape: AlacCursorShape,
    pub last_hovered_word: Option<HoveredWord>,
    /// What a search has found.
    pub matches: Vec<SearchMatch>,
    pub total_lines: usize,
}

/// How it is to be drawn, and where.
#[derive(Debug, Clone, Copy, PartialEq, Eq, Structural)]
pub struct DrawContext {
    pub portion: GridPortion,
    /// How many lines the screen has.
    pub num_lines: usize,
    pub focused: bool,
    pub secondary_held: bool,
    pub mouse_inside: bool,
    pub text_style: TextStyle,
    pub link_style: HighlightStyle,
    pub selection_color: Hsla,
}

/// What is drawn of a terminal.
#[derive(Debug)]
pub struct LayoutState {
    pub rects: Vec<LayoutRect>,
    pub batched_text_runs: Vec<BatchedTextRun>,
    /// The cell of the cursor, where the text that is being composed goes too.
    pub cursor_cell: Option<(i32, usize)>,
    pub cursor: Option<CursorLook>,
    pub highlighted: Vec<SearchMatch>,
    /// The link under the mouse.
    pub link: Option<HoverTarget>,
    /// The line of what is shown below the cursor.
    pub block_line: Option<i64>,
    pub content_mode: ContentMode,
}

/// The link that is drawn as one: the one of the view, where the word under the mouse is its word.
pub open spec fn drawn_link(view: TerminalView, content: TerminalContent, c: DrawContext) -> Option<Hyperlink> {
    match content.last_hovered_word {
        Some(word) => if c.secondary_held && c.mouse_inside && (hover_model(view.hover) matches Some(h)
            && h.word == word@) {
            Some(Hyperlink { style: c.link_style, start: word.start, end: word.end })
        } else {
            None
        },
        None => None,
    }
}

/// The family of the terminal's font and the fonts behind it: each is the terminal's own where that
/// is set, and the buffer's where it is not.
pub fn terminal_font(
    family: Option<&str>,
    buffer_family: &str,
    fallbacks: &Option<Vec<String>>,
    buffer_fallbacks: &Option<Vec<String>>,
) -> (r: (String, Option<Vec<String>>))
    ensures
        r.0@ == (match family {
            Some(own) => own@,
            None => buffer_family@,
        }),
        opt_list(r.1) == (if fallbacks is Some {
            opt_list(*fallbacks)
        } else {
            opt_list(*buffer_fallbacks)
        }),
{
    let chosen = match family {
        Some(own) => own.to_owned(),
        None => buffer_family.to_owned(),
    };
    let behind = match fallbacks {
        Some(own) => Some(clone_list(own)),
        None => match buffer_fallbacks {
            Some(list) => Some(clone_list(list)),
            None => None,
        },
    };
    (chosen, behind)
}

/// Prepares a terminal for drawing; nothing comes of it where its grid does not fit the numbers.
pub fn prepaint(view: &TerminalView, content: &TerminalContent, c: DrawContext) -> (r: Option<LayoutState>)
    requires
        content.display_offset <= i32::MAX,
        content.cursor.line + content.display_offset <= i32::MAX,
    ensures
        portion_drawn(
            c.portion,
            content.cells@,
            c.text_style,
            drawn_link(*view, *content, c),
            c.selection_color,
            match r {
                Some(state) => Some((state.rects@, state.batched_text_runs@)),
                None => None,
            },
        ),
        r matches Some(state) ==> {
            let line = content.cursor.line + content.display_offset;
            &&& state.cursor_cell == if line < c.num_lines {
                Some((line as i32, content.cursor.column))
            } else {
                None
            }
            &&& state.cursor == if state.cursor_cell is Some {
                look_of(content.cursor_shape, c.focused)
            } else {
                None
            }
            &&& state.highlighted@ == content.matches@
            &&& hover_model(state.link) == if drawn_link(*view, *content, c) is Some {
                hover_model(view.hover)
            } else {
                None
            }
            &&& state.block_line == if view.block_below_cursor is Some && content.display_offset == 0 {
                Some((content.cursor.line + 1) as i64)
            } else {
                None
            }
            &&& state.content_mode == content_mode_of(view.mode, content.total_lines, c.focused)
        },
{
    let link = view.link_under_mouse(c.secondary_held, c.mouse_inside, &content.last_hovered_word);
    let hyperlink = match (&link, &content.last_hovered_word) {
        (Some(_), Some(word)) => Some(
            Hyperlink { style: c.link_style, start: word.start, end: word.end },
        ),
        _ => None,
    };
    assert(hyperlink == drawn_link(*view, *content, c));
    let drawn = layout_portion(
        c.portion,
        content.cells.as_slice(),
        &c.text_style,
        hyperlink,
        c.selection_color,
    );
    let (rects, batched_text_runs) = match drawn {
        Some((rects, runs)) => (rects, runs),
        None => return None,
    };
    let cursor_cell = cursor_position(
        DisplayCursor::from(content.cursor, content.display_offset),
        c.num_lines,
    );
    let cursor = match cursor_cell {
        Some(_) => cursor_look(content.cursor_shape, c.focused),
        None => None,
    };
    let block_line = match view.block_below_cursor {
        Some(_) => block_target_line(content.display_offset, content.cursor.line),
        None => None,
    };
    let mut highlighted: Vec<SearchMatch> = Vec::new();
    let mut i: usize = 0;
    while i < content.matches.len()
        invariant
            i <= content.matches@.len(),
            highlighted@ == content.matches@.take(i as int),
        decreases content.matches@.len() - i,
    {
        highlighted.push(content.matches[i]);
        assert(highlighted@ =~= content.matches@.take(i + 1));
        i += 1;
    }
    assert(highlighted@ =~= content.matches@);
    let content_mode = view.content_mode(content.total_lines, c.focused);
    Some(
        LayoutState {
            rects,
            batched_text_runs,
            cursor_cell,
            cursor,
            highlighted,
            link,
            block_line,
            content_mode,
        },
    )
}

/// Which columns of a line are highlighted: from `start` up to but not at `end`.
#[derive(Debug, Clone, Copy, PartialEq, Eq, Structural)]
pub struct HighlightedRangeLine {
    pub start: usize,
    pub end: usize,
}

/// The highlighted columns of one line of a range whose lines are counted on the screen.
pub open spec fn highlighted_line(
    line: int,
    start_line: int,
    start_col: int,
    end_line: int,
    end_col: int,
    columns: int,
) -> HighlightedRangeLine {
    HighlightedRangeLine {
        start: (if line == start_line {
            start_col
        } else {
            0
        }) as usize,
        end: (if line == end_line {
            end_col + 1
        } else {
            columns
        }) as usize,
    }
}

/// The lines of the screen that a range covers, from the first on: the columns of each. A range
/// out of sight covers none.
pub fn to_highlighted_range_lines(
    start: GridPoint,
    end: GridPoint,
    display_offset: usize,
    num_lines: usize,
    columns: usize,
) -> (r: Option<(usize, Vec<HighlightedRangeLine>)>)
    requires
        display_offset <= i32::MAX,
        num_lines <= i32::MAX,
        end.column < usize::MAX,
    ensures
        ({
            let first = start.line + display_offset;
            let last = end.line + display_offset;
            let from = if first >= 0 {
                first
            } else {
                0
            };
            let to = if last <= num_lines {
                last
            } else {
                num_lines as int
            };
            match r {
                None => last < 0 || first > num_lines,
                Some((line, lines)) => {
                    &&& 0 <= last && first <= num_lines
                    &&& line == from
                    &&& lines@.len() == (if from <= to {
                        to - from + 1
                    } else {
                        0
                    })
                    &&& forall|k: int|
                        0 <= k < lines@.len() ==> #[trigger] lines@[k] == highlighted_line(
                            from + k,
                            first,
                            start.column as int,
                            last,
                            end.column as int,
                            columns as int,
                        )
                },
            }
        }),
{
    let first: i64 = start.line as i64 + display_offset as i64;
    let last: i64 = end.line as i64 + display_offset as i64;
    let count: i64 = num_lines as i64;
    if last < 0 || first > count {
        return None;
    }
    let from: i64 = if first >= 0 {
        first
    } else {
        0
    };
    let to: i64 = if last <= count {
        last
    } else {
        count
    };
    let mut lines: Vec<HighlightedRangeLine> = Vec::new();
    let mut line: i64 = from;
    while line <= to
        invariant
            from <= line,
            line <= to + 1 || line == from,
            0 <= from,
            from == first || (from == 0 && first < 0),
            to == last || (to == count && last > count),
            to <= count == num_lines <= i32::MAX,
            end.column < usize::MAX,
            lines@.len() == line - from,
            forall|k: int|
                0 <= k < lines@.len() ==> #[trigger] lines@[k] == highlighted_line(
                    from + k,
                    first as int,
                    start.column as int,
                    last as int,
                    end.column as int,
                    columns as int,
                ),
        decreases to + 1 - line,
    {
        let mut line_start: usize = 0;
        let mut line_end: usize = columns;
        if line == from && first >= 0 {
            line_start = start.column;
        }
        if line == to && last <= count {
            line_end = end.column + 1;
        }
        lines.push(HighlightedRangeLine { start: line_start, end: line_end });
        line += 1;
    }
    Some((from as usize, lines))
}

/// What the mouse looks like over the terminal.
#[derive(Debug, Clone, Copy, PartialEq, Eq, Structural)]
pub enum MouseCursor {
    PointingHand,
    IBeam,
}

pub fn mouse_cursor(secondary_held: bool, mouse_inside: bool, hovering_link: bool) -> (r: MouseCursor)
    ensures
        r == (if secondary_held && mouse_inside && hovering_link {
            MouseCursor::PointingHand
        } else {
            MouseCursor::IBeam
        }),
{
    if secondary_held && mouse_inside && hovering_link {
        MouseCursor::PointingHand
    } else {
        MouseCursor::IBeam
    }
}

/// What is drawn over the text: the text that is being composed, or the cursor.
#[derive(Debug, Clone, Copy, PartialEq, Eq, Structural)]
pub struct Overlay {
    pub marked_text: bool,
    pub cursor: bool,
}

/// `marked_len` is the length of the text that is being composed, where there is one.
pub fn overlay(
    marked_len: Option<usize>,
    cursor_on_screen: bool,
    cursor_visible: bool,
    has_cursor: bool,
) -> (r: Overlay)
    ensures
        r.marked_text == (marked_len matches Some(n) && n > 0 && cursor_on_screen),
        r.cursor == (cursor_visible && marked_len is None && has_cursor),
{
    Overlay {
        marked_text: match marked_len {
            Some(n) => n > 0 && cursor_on_screen,
            None => false,
        },
        cursor: cursor_visible && marked_len.is_none() && has_cursor,
    }
}

/// One layer of what is drawn.
#[derive(Debug, Clone, Copy, PartialEq, Eq, Structural)]
pub enum PaintLayer {
    Background,
    CellBackgrounds,
    Highlights,
    Text,
    Placements,
    MarkedText,
    Cursor,
    BlockBelowCursor,
    LinkTooltip,
}

/// The layers that a layer is drawn after, and the layer itself where it is there.
pub open spec fn over(layers: Seq<PaintLayer>, layer: PaintLayer, there: bool) -> Seq<PaintLayer> {
    if there {
        layers.push(layer)
    } else {
        layers
    }
}

/// The layers from the bottom to the top.
pub open spec fn paint_layers(marked: bool, cursor: bool, block: bool, tooltip: bool) -> Seq<PaintLayer> {
    let text = seq![
        PaintLayer::Background,
        PaintLayer::CellBackgrounds,
        PaintLayer::Highlights,
        PaintLayer::Text,
        PaintLayer::Placements,
    ];
    over(
        over(
            over(over(text, PaintLayer::MarkedText, marked), PaintLayer::Cursor, cursor),
            PaintLayer::BlockBelowCursor,
            block,
        ),
        PaintLayer::LinkTooltip,
        tooltip,
    )
}

/// The layers that are drawn, from the bottom to the top.
pub fn paint(
    marked_len: Option<usize>,
    cursor_on_screen: bool,
    cursor_visible: bool,
    has_cursor: bool,
    has_block: bool,
    has_tooltip: bool,
) -> (r: Vec<PaintLayer>)
    ensures
        r@ == paint_layers(
            marked_len matches Some(n) && n > 0 && cursor_on_screen,
            cursor_visible && marked_len is None && has_cursor,
            has_block,
            has_tooltip,
        ),
{
    let over_text = overlay(marked_len, cursor_on_screen, cursor_visible, has_cursor);
    let mut layers = vec![
        PaintLayer::Background,
        PaintLayer::CellBackgrounds,
        PaintLayer::Highlights,
        PaintLayer::Text,
        PaintLayer::Placements,
    ];
    assert(layers@ =~= seq![
        PaintLayer::Background,
        PaintLayer::CellBackgrounds,
        PaintLayer::Highlights,
        PaintLayer::Text,
        PaintLayer::Placements,
    ]);
    if over_text.marked_text {
        layers.push(PaintLayer::MarkedText);
    }
    if over_text.cursor {
        layers.push(PaintLayer::Cursor);
    }
    if has_block {
        layers.push(PaintLayer::BlockBelowCursor);
    }
    if has_tooltip {
        layers.push(PaintLayer::LinkTooltip);
    }
    layers
}

/// What follows from drawing: whether another frame is asked for, and whether the window is drawn at
/// once. Both only while something moves, the latter no more often than it is due.
pub fn redraw_after_paint(animating: bool, redraw_due: bool) -> (r: (bool, bool))
    ensures
        r == (animating, animating && redraw_due),
{
    (animating, animating && redraw_due)
}

/// What the terminal listens to.
#[derive(Debug, Clone, Copy, PartialEq, Eq, Structural)]
pub enum MouseListener {
    LeftDown,
    Move,
    LeftUp,
    MiddleDown,
    ScrollWheel,
    RightDown,
    RightUp,
    MiddleUp,
}

pub open spec fn listeners_for(scrollable: bool, mouse_mode: bool) -> Seq<MouseListener> {
    seq![MouseListener::LeftDown, MouseListener::Move, MouseListener::LeftUp, MouseListener::MiddleDown] + (
    if scrollable {
        seq![MouseListener::ScrollWheel]
    } else {
        Seq::empty()
    }) + (if mouse_mode {
        seq![MouseListener::RightDown, MouseListener::RightUp, MouseListener::MiddleUp]
    } else {
        Seq::empty()
    })
}

/// What the terminal listens to: the wheel only where it can scroll, the other buttons only where
/// the program asked for the mouse.
pub fn register_mouse_listeners(scrollable: bool, mouse_mode: bool) -> (r: Vec<MouseListener>)
    ensures
        r@ == listeners_for(scrollable, mouse_mode),
{
    let mut out: Vec<MouseListener> = Vec::new();
    out.push(MouseListener::LeftDown);
    out.push(MouseListener::Move);
    out.push(MouseListener::LeftUp);
    out.push(MouseListener::MiddleDown);
    if scrollable {
        out.push(MouseListener::ScrollWheel);
    }
    if mouse_mode {
        out.push(MouseListener::RightDown);
        out.push(MouseListener::RightUp);
        out.push(MouseListener::MiddleUp);
    }
    assert(out@ =~= listeners_for(scrollable, mouse_mode));
    out
}

/// What a button does: whether it takes the focus, and whether it reaches the terminal.
#[derive(Debug, Clone, Copy, PartialEq, Eq, Structural)]
pub struct ButtonResponse {
    pub take_focus: bool,
    pub handle: bool,
}

pub fn generic_button_handler(steal_focus: bool, focused: bool) -> (r: ButtonResponse)
    ensures
        r.take_focus == steal_focus,
        r.handle == (steal_focus || focused),
{
    ButtonResponse { take_focus: steal_focus, handle: steal_focus || focused }
}

/// Whether a button takes the focus: pressing one does, letting go of it does not.
pub fn takes_focus(listener: MouseListener) -> (r: bool)
    ensures
        r == (listener == MouseListener::LeftDown || listener == MouseListener::MiddleDown || listener
            == MouseListener::RightDown),
{
    match listener {
        MouseListener::LeftDown | MouseListener::MiddleDown | MouseListener::RightDown => true,
        _ => false,
    }
}

/// The height at which the terminal is told of a click or a drag: further down by what the block
/// below the cursor is scrolled up.
pub fn scrolled_position(y: i64, scroll_top: i64) -> (r: i64)
    requires
        y + scroll_top <= i64::MAX,
    ensures
        r == if scroll_top > 0 {
            y + scroll_top
        } else {
            y as int
        },
{
    if scroll_top > 0 {
        y + scroll_top
    } else {
        y
    }
}

/// What a movement of the mouse does.
#[derive(Debug, Clone, Copy, PartialEq, Eq, Structural)]
pub struct MoveResponse {
    pub drag: bool,
    pub hover: bool,
}

pub fn mouse_moved(
    button_pressed: bool,
    dragging_elsewhere: bool,
    focused: bool,
    hovered: bool,
    selection_started: bool,
) -> (r: MoveResponse)
    ensures
        r.drag == (button_pressed && !dragging_elsewhere && focused && (selection_started || hovered)),
        r.hover == hovered,
{
    MoveResponse {
        drag: button_pressed && !dragging_elsewhere && focused && (selection_started || hovered),
        hover: hovered,
    }
}

/// What the wheel does.
#[derive(Debug, Clone, Copy, PartialEq, Eq, Structural)]
pub enum WheelResponse {
    IncreaseFont,
    DecreaseFont,
    Scroll,
    Ignore,
}

/// With the secondary key the wheel changes the font, else it scrolls. `direction` is the sign of
/// the movement.
pub fn wheel_response(secondary_held: bool, direction: i8, standalone: bool, focused: bool) -> (r: WheelResponse)
    ensures
        r == (if secondary_held {
            if direction > 0 {
                WheelResponse::IncreaseFont
            } else if direction < 0 {
                WheelResponse::DecreaseFont
            } else {
                WheelResponse::Ignore
            }
        } else if standalone || focused {
            WheelResponse::Scroll
        } else {
            WheelResponse::Ignore
        }),
{
    if secondary_held {
        if direction > 0 {
            WheelResponse::IncreaseFont
        } else if direction < 0 {
            WheelResponse::DecreaseFont
        } else {
            WheelResponse::Ignore
        }
    } else if standalone || focused {
        WheelResponse::Scroll
    } else {
        WheelResponse::Ignore
    }
}

/// A hidden cursor is not drawn. Without the focus any other is hollow, and with it the cursor has the
/// shape that the program asks for. Only a full block hides the character under it, which is then drawn
/// over it.
pub proof fn lemma_cursor_looks(shape: AlacCursorShape, focused: bool)
    ensures
        look_of(shape, focused) is None <==> shape == AlacCursorShape::Hidden,
        look_of(shape, focused) matches Some(look) ==> {
            &&& look.shape == CursorShape::Hollow <==> !focused || shape == AlacCursorShape::HollowBlock
            &&& look.shape == CursorShape::Block <==> focused && shape == AlacCursorShape::Block
            &&& look.shape == CursorShape::Underline <==> focused && shape == AlacCursorShape::Underline
            &&& look.shape == CursorShape::Bar <==> focused && shape == AlacCursorShape::Beam
            &&& look.with_text <==> look.shape == CursorShape::Block
        },
{
}

/// How far up a layer lies.
pub open spec fn height(layer: PaintLayer) -> int {
    match layer {
        PaintLayer::Background => 0,
        PaintLayer::CellBackgrounds => 1,
        PaintLayer::Highlights => 2,
        PaintLayer::Text => 3,
        PaintLayer::Placements => 4,
        PaintLayer::MarkedText => 5,
        PaintLayer::Cursor => 6,
        PaintLayer::BlockBelowCursor => 7,
        PaintLayer::LinkTooltip => 8,
    }
}

/// The text lies over all backgrounds and under the pictures, and whatever is there of what is being
/// composed, the cursor, the block and the tooltip over them, in this order. Nothing is drawn twice.
pub proof fn lemma_layers_in_order(marked: bool, cursor: bool, block: bool, tooltip: bool)
    ensures
        ({
            let layers = paint_layers(marked, cursor, block, tooltip);
            &&& forall|i: int, j: int|
                0 <= i < j < layers.len() ==> height(#[trigger] layers[i]) < height(#[trigger] layers[j])
            &&& layers.contains(PaintLayer::Background)
            &&& layers.contains(PaintLayer::CellBackgrounds)
            &&& layers.contains(PaintLayer::Highlights)
            &&& layers.contains(PaintLayer::Text)
            &&& layers.contains(PaintLayer::Placements)
            &&& layers.contains(PaintLayer::MarkedText) <==> marked
            &&& layers.contains(PaintLayer::Cursor) <==> cursor
            &&& layers.contains(PaintLayer::BlockBelowCursor) <==> block
            &&& layers.contains(PaintLayer::LinkTooltip) <==> tooltip
        }),
{
    let layers = paint_layers(marked, cursor, block, tooltip);
    let m = if marked {
        1int
    } else {
        0
    };
    let c = if cursor {
        1int
    } else {
        0
    };
    let b = if block {
        1int
    } else {
        0
    };
    assert(layers[0] == PaintLayer::Background);
    assert(layers[1] == PaintLayer::CellBackgrounds);
    assert(layers[2] == PaintLayer::Highlights);
    assert(layers[3] == PaintLayer::Text);
    assert(layers[4] == PaintLayer::Placements);
    assert(marked ==> layers[5] == PaintLayer::MarkedText);
    assert(cursor ==> layers[5 + m] == PaintLayer::Cursor);
    assert(block ==> layers[5 + m + c] == PaintLayer::BlockBelowCursor);
    assert(tooltip ==> layers[5 + m + c + b] == PaintLayer::LinkTooltip);
}

/// The left button, movements and pressing the middle button are always listened to, the wheel where
/// the terminal can scroll, and the rest where the program asked for the mouse.
pub proof fn lemma_listened_to(scrollable: bool, mouse_mode: bool, listener: MouseListener)
    ensures
        listeners_for(scrollable, mouse_mode).contains(listener) <==> match listener {
            MouseListener::LeftDown => true,
            MouseListener::Move => true,
            MouseListener::LeftUp => true,
            MouseListener::MiddleDown => true,
            MouseListener::ScrollWheel => scrollable,
            MouseListener::RightDown => mouse_mode,
            MouseListener::RightUp => mouse_mode,
            MouseListener::MiddleUp => mouse_mode,
        },
{
    let all = listeners_for(scrollable, mouse_mode);
    let s = if scrollable {
        1int
    } else {
        0
    };
    assert(all[0] == MouseListener::LeftDown);
    assert(all[1] == MouseListener::Move);
    assert(all[2] == MouseListener::LeftUp);
    assert(all[3] == MouseListener::MiddleDown);
    assert(scrollable ==> all[4] == MouseListener::ScrollWheel);
    assert(mouse_mode ==> all[4 + s] == MouseListener::RightDown && all[5 + s] == MouseListener::RightUp && all[6 + s]
        == MouseListener::MiddleUp);
}

/// A column of a line is highlighted exactly where it lies in the range: not before its start, nor
/// behind its end.
pub proof fn lemma_highlights_the_range(
    line: int,
    column: int,
    start_line: int,
    start_col: usize,
    end_line: int,
    end_col: usize,
    columns: usize,
)
    requires
        start_line <= line <= end_line,
        0 <= column < columns,
        end_col < usize::MAX,
    ensures
        ({
            let h = highlighted_line(line, start_line, start_col as int, end_line, end_col as int, columns as int);
            h.start <= column < h.end <==> {
                &&& start_line < line || start_line == line && start_col <= column
                &&& line < end_line || line == end_line && column <= end_col
            }
        }),
{
}

/// A link is drawn only while the secondary key is held and the mouse is inside, and only the word that
/// is both under the mouse and the one the view knows, from its start to its end.
pub proof fn lemma_link_drawn(view: TerminalView, content: TerminalContent, c: DrawContext)
    ensures
        drawn_link(view, content, c) matches Some(link) ==> {
            &&& c.secondary_held
            &&& c.mouse_inside
            &&& link.style == c.link_style
            &&& content.last_hovered_word matches Some(word) && link.start == word.start && link.end == word.end && (
            hover_model(view.hover) matches Some(h) && h.word == word@)
        },
        c.secondary_held && c.mouse_inside && (content.last_hovered_word matches Some(word) && (hover_model(
            view.hover,
        ) matches Some(h) && h.word == word@)) ==> drawn_link(view, content, c) is Some,
{
}

proof fn lemma_group_steps(cells: Seq<IndexedCell>, i: int)
    requires
        0 <= i,
    ensures
        0 <= line_group(cells, i) <= i,
        i > 0 ==> line_group(cells, i - 1) <= line_group(cells, i) <= line_group(cells, i - 1) + 1,
    decreases i,
{
    if i > 0 {
        lemma_group_steps(cells, i - 1);
    }
}

/// A row of the grid is drawn in the same line of the screen whether all of the grid is laid out or only
/// the part of it that can be seen.
pub proof fn lemma_part_keeps_lines(cells: Seq<IndexedCell>, from: int, to: int, skip: usize, take: usize, i: int)
    requires
        is_stretch(cells, from, to, skip, take),
        0 <= i < to - from,
    ensures
        skip + line_group(cells.subrange(from, to), i) == line_group(cells, from + i),
    decreases i,
{
    let seen = cells.subrange(from, to);
    if i == 0 {
        lemma_group_steps(cells, from);
        assert(skip <= line_group(cells, from));
        if from > 0 {
            assert(!(skip <= line_group(cells, from - 1) < skip + take));
            lemma_group_steps(cells, from - 1);
        }
    } else {
        lemma_part_keeps_lines(cells, from, to, skip, take, i - 1);
        assert(seen[i] == cells[from + i]);
        assert(seen[i - 1] == cells[from + i - 1]);
    }
}

/// What is drawn of a part of the grid lies in the lines of that part: no run is drawn in any other.
pub proof fn lemma_part_drawn_in_place(
    skip: usize,
    take: usize,
    cells: Seq<IndexedCell>,
    text_style: TextStyle,
    hyperlink: Option<Hyperlink>,
    selection: Hsla,
    rects: Seq<LayoutRect>,
    runs: Seq<BatchedTextRun>,
    k: int,
)
    requires
        portion_drawn(
            GridPortion::Rows { skip, take },
            cells,
            text_style,
            hyperlink,
            selection,
            Some((rects, runs)),
        ),
        0 <= k < runs.len(),
    ensures
        exists|i: int|
            0 <= i < cells.len() && #[trigger] line_group(cells, i) == runs[k].start_point.line && skip <= line_group(cells, i)
                < skip + take && cells[i].point.column == runs[k].start_point.column,
{
    let drawn = Some((rects, runs));
    let (from, to) = choose|from: int, to: int|
        #![trigger cells.subrange(from, to)]
        {
            let seen = cells.subrange(from, to);
            let p = LayoutParams { start_line_offset: skip as i32, text_style, hyperlink, selection };
            &&& is_stretch(cells, from, to, skip, take)
            &&& drawn is Some <==> skip <= i32::MAX && grid_fits(seen, skip as i32)
            &&& drawn matches Some((rects, runs)) ==> is_layout(rects, runs, seen, p)
        };
    let seen = cells.subrange(from, to);
    let p = LayoutParams { start_line_offset: skip as i32, text_style, hyperlink, selection };
    lemma_run_columns(seen, seen.len() as int, p);
    let m = laid_out(seen, seen.len() as int, p);
    let all = flushed(m.runs, m.current);
    assert(run_models(runs)[k] == runs[k]@);
    assert(in_a_row(seen, seen.len() as int, p, all[k]));
    let members = choose|members: Seq<int>| made_of(seen, seen.len() as int, p, all[k], members);
    let first = members[0];
    assert(0 <= first < seen.len());
    lemma_part_keeps_lines(cells, from, to, skip, take, first);
    assert(seen[first] == cells[from + first]);
    assert(skip <= line_group(cells, from + first) < skip + take);
}

} // verus!
