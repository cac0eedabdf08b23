//! Pictures, sounds and films in the grid: where they lie, and the row that controls them.

use vstd::prelude::*;
use crate::color::{Color, Rgb};
use crate::decimal::{digits_of, digits_value, is_digit, lemma_digits_of, unsigned_text};

verus! {

/// The colours that tell which picture a cell belongs to. Only true colours do.
pub fn placeholder_colors(fg: Color, underline: Option<Color>) -> (r: Option<(Rgb, Option<Rgb>)>)
    ensures
        r == (match (fg, underline) {
            (Color::Spec(f), None) => Some((f, None)),
            (Color::Spec(f), Some(Color::Spec(u))) => Some((f, Some(u))),
            _ => None,
        }),
{
    match (fg, underline) {
        (Color::Spec(f), None) => Some((f, None)),
        (Color::Spec(f), Some(Color::Spec(u))) => Some((f, Some(u))),
        _ => None,
    }
}

/// A cell that a part of a picture is drawn in.
#[derive(Debug, Clone, Copy, PartialEq, Eq, Structural)]
pub struct PlacedCell {
    pub session_id: u32,
    pub file_id: u32,
    /// Where the cell is.
    pub line: i32,
    pub column: i32,
    /// Which part of the picture it shows.
    pub row_in_image: u32,
    pub column_in_image: u32,
}

/// A picture: where its top left corner is, though it may be out of sight, and how far the cells
/// that were seen reach.
#[derive(Debug, Clone, Copy, PartialEq, Eq, Structural)]
pub struct Placement {
    pub session_id: u32,
    pub file_id: u32,
    pub origin_line: i64,
    pub origin_column: i64,
    pub max_column: u32,
    pub max_row: u32,
}

/// The corner of a picture is where a cell of a grid can put it.
pub open spec fn in_grid(p: Placement) -> bool {
    -0x2_0000_0000 <= p.origin_line <= 0x1_0000_0000
}

pub open spec fn same_file(p: Placement, c: PlacedCell) -> bool {
    p.session_id == c.session_id && p.file_id == c.file_id
}

pub open spec fn larger(a: u32, b: u32) -> u32 {
    if a >= b {
        a
    } else {
        b
    }
}

/// The picture with one cell more.
pub open spec fn widened(p: Placement, c: PlacedCell) -> Placement {
    Placement {
        max_column: larger(p.max_column, c.column_in_image),
        max_row: larger(p.max_row, c.row_in_image),
        ..p
    }
}

/// The picture that a first cell belongs to.
pub open spec fn placement_of(c: PlacedCell) -> Placement {
    Placement {
        session_id: c.session_id,
        file_id: c.file_id,
        origin_line: (c.line - c.row_in_image) as i64,
        origin_column: (c.column - c.column_in_image) as i64,
        max_column: c.column_in_image,
        max_row: c.row_in_image,
    }
}

/// Which picture a cell belongs to, or the number of pictures.
pub open spec fn find_placement(s: Seq<Placement>, c: PlacedCell) -> int
    decreases s.len(),
{
    if s.len() == 0 || same_file(s[0], c) {
        0
    } else {
        1 + find_placement(s.drop_first(), c)
    }
}

/// The pictures that the cells belong to, in the order in which they are met. The first cell of a
/// picture tells where its corner is.
pub open spec fn placements_of(cells: Seq<PlacedCell>) -> Seq<Placement>
    decreases cells.len(),
{
    if cells.len() == 0 {
        Seq::empty()
    } else {
        let before = placements_of(cells.drop_last());
        let c = cells.last();
        let k = find_placement(before, c);
        if 0 <= k < before.len() {
            before.update(k, widened(before[k], c))
        } else {
            before.push(placement_of(c))
        }
    }
}

proof fn lemma_find_placement(s: Seq<Placement>, c: PlacedCell, k: int)
    requires
        0 <= k <= s.len(),
        k < s.len() ==> same_file(s[k], c),
        forall|j: int| 0 <= j < k ==> !same_file(#[trigger] s[j], c),
    ensures
        find_placement(s, c) == k,
    decreases s.len(),
{
    if k > 0 {
        assert(!same_file(s[0], c));
        assert forall|j: int| 0 <= j < k - 1 implies !same_file(#[trigger] s.drop_first()[j], c) by {
            assert(s.drop_first()[j] == s[j + 1]);
        }
        lemma_find_placement(s.drop_first(), c, k - 1);
    }
}

proof fn lemma_find_bounds(s: Seq<Placement>, c: PlacedCell)
    ensures
        0 <= find_placement(s, c) <= s.len(),
        find_placement(s, c) < s.len() ==> same_file(s[find_placement(s, c)], c),
        forall|j: int| 0 <= j < find_placement(s, c) ==> !same_file(#[trigger] s[j], c),
    decreases s.len(),
{
    if s.len() > 0 && !same_file(s[0], c) {
        lemma_find_bounds(s.drop_first(), c);
        assert forall|j: int| 0 <= j < find_placement(s, c) implies !same_file(#[trigger] s[j], c) by {
            if j > 0 {
                assert(s.drop_first()[j - 1] == s[j]);
            }
        }
    }
}

/// No picture is found twice, and every cell's picture is found.
pub proof fn lemma_placements(cells: Seq<PlacedCell>)
    ensures
        forall|a: int, b: int|
            0 <= a < b < placements_of(cells).len() ==> (#[trigger] placements_of(cells)[a]).session_id != (
            #[trigger] placements_of(cells)[b]).session_id || placements_of(cells)[a].file_id
                != placements_of(cells)[b].file_id,
        forall|i: int|
            0 <= i < cells.len() ==> exists|k: int|
                0 <= k < placements_of(cells).len() && same_file(
                    #[trigger] placements_of(cells)[k],
                    #[trigger] cells[i],
                ),
    decreases cells.len(),
{
    if cells.len() > 0 {
        let init = cells.drop_last();
        let before = placements_of(init);
        let c = cells.last();
        lemma_placements(init);
        lemma_find_bounds(before, c);
        let k = find_placement(before, c);
        let s = placements_of(cells);
        assert forall|i: int| 0 <= i < cells.len() implies exists|k: int|
            0 <= k < s.len() && same_file(#[trigger] s[k], #[trigger] cells[i]) by {
            if i == cells.len() - 1 {
                assert(same_file(s[k], cells[i]));
            } else {
                assert(init[i] == cells[i]);
                let m = choose|m: int| 0 <= m < before.len() && same_file(#[trigger] before[m], init[i]);
                assert(same_file(s[m], cells[i]));
            }
        }
    }
}

/// The pictures that the cells belong to.
pub fn scan_placements(cells: &Vec<PlacedCell>) -> (r: Vec<Placement>)
    ensures
        r@ == placements_of(cells@),
        forall|i: int| 0 <= i < r@.len() ==> in_grid(#[trigger] r@[i]),
{
    let mut out: Vec<Placement> = Vec::new();
    let mut i: usize = 0;
    assert(cells@.take(0).len() == 0);
    while i < cells.len()
        invariant
            i <= cells@.len(),
            out@ == placements_of(cells@.take(i as int)),
            forall|j: int| 0 <= j < out@.len() ==> in_grid(#[trigger] out@[j]),
        decreases cells@.len() - i,
    {
        let c: PlacedCell = cells[i];
        assert(cells@.take(i + 1).drop_last() =~= cells@.take(i as int));
        let mut k: usize = 0;
        while k < out.len() && !(out[k].session_id == c.session_id && out[k].file_id == c.file_id)
            invariant
                k <= out@.len(),
                forall|j: int| 0 <= j < k ==> !same_file(#[trigger] out@[j], c),
            decreases out@.len() - k,
        {
            k += 1;
        }
        proof {
            lemma_find_placement(out@, c, k as int);
        }
        if k < out.len() {
            let mut p: Placement = out[k];
            if c.column_in_image > p.max_column {
                p.max_column = c.column_in_image;
            }
            if c.row_in_image > p.max_row {
                p.max_row = c.row_in_image;
            }
            out.set(k, p);
        } else {
            out.push(
                Placement {
                    session_id: c.session_id,
                    file_id: c.file_id,
                    origin_line: c.line as i64 - c.row_in_image as i64,
                    origin_column: c.column as i64 - c.column_in_image as i64,
                    max_column: c.column_in_image,
                    max_row: c.row_in_image,
                },
            );
        }
        i += 1;
    }
    assert(cells@.take(i as int) =~= cells@);
    out
}

/// How far a picture reaches: at least as far as it was ever seen to. Nothing is remembered of a
/// picture whose data has not arrived.
pub fn remembered_extent(known: Option<u32>, seen: u32) -> (r: u32)
    ensures
        r == (match known {
            Some(k) => if k >= seen {
                k
            } else {
                seen
            },
            None => 0,
        }),
{
    match known {
        Some(k) => if k >= seen {
            k
        } else {
            seen
        },
        None => 0,
    }
}

/// What is drawn for a placement.
#[derive(Debug, Clone, Copy, PartialEq, Eq, Structural)]
pub enum PlacementKind {
    Audio,
    Video,
    Image,
    /// Its data is not there.
    Nothing,
}

pub fn placement_kind(is_audio: bool, is_video: bool, is_image: bool) -> (r: PlacementKind)
    ensures
        r == (if is_audio {
            PlacementKind::Audio
        } else if is_video {
            PlacementKind::Video
        } else if is_image {
            PlacementKind::Image
        } else {
            PlacementKind::Nothing
        }),
{
    if is_audio {
        PlacementKind::Audio
    } else if is_video {
        PlacementKind::Video
    } else if is_image {
        PlacementKind::Image
    } else {
        PlacementKind::Nothing
    }
}

/// How many rows a film's picture takes: all but the last, which controls it.
pub fn video_picture_rows(max_row_seen: Option<u32>) -> (r: u32)
    ensures
        r == (match max_row_seen {
            Some(m) => film_rows(m as int),
            None => 0int,
        }),
{
    match max_row_seen {
        Some(m) => m,
        None => 0,
    }
}

/// The line of the screen that a control row lies in, where it can be seen.
pub fn control_row_line(origin_line: i64, display_offset: u32, num_lines: u32) -> (r: Option<u32>)
    requires
        -0x2_0000_0000 <= origin_line <= 0x2_0000_0000,
    ensures
        match r {
            Some(line) => line == origin_line + display_offset && line < num_lines,
            None => origin_line + display_offset < 0 || origin_line + display_offset >= num_lines,
        },
{
    let line: i64 = origin_line + display_offset as i64;
    if line < 0 || line >= num_lines as i64 {
        None
    } else {
        Some(line as u32)
    }
}

/// How many columns a control row takes.
pub fn control_row_columns(max_column_seen: Option<u32>) -> (r: u64)
    ensures
        r == (match max_column_seen {
            Some(c) => c + 1,
            None => 1int,
        }),
{
    match max_column_seen {
        Some(c) => c as u64 + 1,
        None => 1,
    }
}

/// The signs of a control row: start, pause and stop, in characters that the font has.
pub fn control_glyphs(has_nerd_font_glyphs: bool) -> (r: (&'static str, &'static str, &'static str))
    ensures
        (r.0@, r.1@, r.2@) == (if has_nerd_font_glyphs {
            ("\u{f04b}"@, "\u{f04c}"@, "\u{f04d}"@)
        } else {
            (">"@, "||"@, "[]"@)
        }),
{
    if has_nerd_font_glyphs {
        ("\u{f04b}", "\u{f04c}", "\u{f04d}")
    } else {
        (">", "||", "[]")
    }
}

/// A number with at least two digits.
pub open spec fn two_digits(n: nat) -> Seq<char> {
    if n < 10 {
        seq!['0'] + digits_of(n)
    } else {
        digits_of(n)
    }
}

/// Hours, minutes and seconds.
pub open spec fn duration_text(seconds: nat) -> Seq<char> {
    two_digits(seconds / 3600) + seq![':'] + two_digits((seconds / 60) % 60) + seq![':'] + two_digits(
        seconds % 60,
    )
}

fn push_two_digits(out: &mut String, n: u64)
    ensures
        final(out)@ == old(out)@ + two_digits(n as nat),
{
    if n < 10 {
        out.push('0');
    }
    let digits = unsigned_text(n);
    out.append(digits.as_str());
    assert(out@ =~= old(out)@ + two_digits(n as nat));
}

/// A length of time in hours, minutes and seconds.
pub fn format_duration(total_seconds: u64) -> (r: String)
    ensures
        r@ == duration_text(total_seconds as nat),
{
    let mut out = String::new();
    push_two_digits(&mut out, total_seconds / 3600);
    out.push(':');
    push_two_digits(&mut out, (total_seconds / 60) % 60);
    out.push(':');
    push_two_digits(&mut out, total_seconds % 60);
    assert(out@ =~= duration_text(total_seconds as nat));
    out
}

/// A time of less than a hundred hours takes eight characters.
pub proof fn lemma_duration_length(seconds: nat)
    requires
        seconds < 360_000,
    ensures
        duration_text(seconds).len() == 8,
{
    lemma_two_digits(seconds / 3600);
    lemma_two_digits((seconds / 60) % 60);
    lemma_two_digits(seconds % 60);
}

proof fn lemma_two_digits(n: nat)
    requires
        n < 100,
    ensures
        two_digits(n).len() == 2,
{
    reveal_with_fuel(digits_of, 3);
}

/// Whether a character is a digit other than zero.
pub open spec fn significant(c: char) -> bool {
    is_digit(c) && c != '0'
}

/// How a time is drawn: its leading zeros faintly, `dim` characters of them, and `bright`
/// characters that count.
#[derive(Debug, Clone, Copy, PartialEq, Eq, Structural)]
pub struct TimeRuns {
    pub dim: usize,
    pub bright: usize,
}

/// Splits a time at its first digit other than zero.
pub fn time_runs(text: &str) -> (r: TimeRuns)
    ensures
        r.dim + r.bright == text@.len(),
        forall|i: int| 0 <= i < r.dim ==> !significant(#[trigger] text@[i]),
        r.bright > 0 ==> significant(text@[r.dim as int]),
{
    let chars = crate::text::chars_of(text);
    let mut i: usize = 0;
    while i < chars.len() && !('1' <= chars[i] && chars[i] <= '9')
        invariant
            i <= chars@.len(),
            chars@ == text@,
            forall|j: int| 0 <= j < i ==> !significant(#[trigger] text@[j]),
        decreases chars@.len() - i,
    {
        i += 1;
    }
    TimeRuns { dim: i, bright: chars.len() - i }
}

/// The bar of a control row that shows how far a recording has played, and what of it is filled.
#[derive(Debug, Clone, Copy, PartialEq, Eq, Structural)]
pub struct SeekBar {
    pub start: i128,
    pub width: i128,
    pub fill: i128,
}

/// A control row, from the left: the sign that starts or pauses, the time that has passed, the bar,
/// the whole time and the sign that stops. Lengths are in thousandths of a pixel, from the left edge
/// of the row.
#[derive(Debug)]
pub struct MediaRow {
    /// The line of the screen.
    pub line: u32,
    pub width: i128,
    pub play_glyph: &'static str,
    pub elapsed: String,
    pub elapsed_x: i128,
    pub bar: Option<SeekBar>,
    pub total: String,
    pub total_x: i128,
    pub stop_glyph: &'static str,
    pub stop_x: i128,
}

/// The places in a control row of a given width.
pub open spec fn row_places(width: int, cell: int, time: int) -> (int, int, int) {
    let stop = width - cell;
    (2 * cell, stop - 2 * cell - time, stop)
}

/// The bar takes what the two times leave, a cell away from each; there is none where they leave
/// nothing. `played` is in thousandths of the whole.
pub open spec fn bar_of(width: int, cell: int, time: int, played: int) -> Option<SeekBar> {
    let (elapsed_x, total_x, _) = row_places(width, cell, time);
    let start = elapsed_x + time + cell;
    let end = total_x - cell;
    let counted = if played < 1000 {
        played
    } else {
        1000
    };
    if end > start {
        Some(
            SeekBar {
                start: start as i128,
                width: (end - start) as i128,
                fill: ((end - start) * counted / 1000) as i128,
            },
        )
    } else {
        None
    }
}

/// Whatever the font, the parts of a control row with a bar follow one another from left to right
/// without touching, and no more than the bar is filled.
pub proof fn lemma_row_parts_apart(width: int, cell: int, time: int, played: int)
    requires
        cell > 0,
        time >= 0,
        played >= 0,
        width <= 0x1_0000_0000_0000_0000,
        bar_of(width, cell, time, played) is Some,
    ensures
        ({
            let (elapsed_x, total_x, stop_x) = row_places(width, cell, time);
            let bar = bar_of(width, cell, time, played)->0;
            &&& cell < elapsed_x
            &&& elapsed_x + time + cell == bar.start
            &&& 0 < bar.width
            &&& bar.start + bar.width + cell == total_x
            &&& total_x + time < stop_x
            &&& stop_x + cell == width
            &&& 0 <= bar.fill <= bar.width
        }),
{
    let (elapsed_x, total_x, _) = row_places(width, cell, time);
    let length = total_x - cell - (elapsed_x + time + cell);
    let counted = if played < 1000 {
        played
    } else {
        1000
    };
    assert(0 <= length * counted <= length * 1000) by (nonlinear_arith)
        requires
            0 <= length,
            0 <= counted <= 1000,
    ;
}

/// The control row of a recording, unless its line is out of sight. `time_width` is the width of a
/// time as the font draws it, and `played` how far it has played, in thousandths.
pub fn paint_rich_content_media_widget(
    max_column_seen: Option<u32>,
    played: u32,
    is_playing: bool,
    elapsed: u64,
    duration: u64,
    origin_line: i64,
    display_offset: u32,
    num_lines: u32,
    cell_width: u32,
    time_width: u32,
    has_nerd_font_glyphs: bool,
) -> (r: Option<MediaRow>)
    requires
        -0x2_0000_0000 <= origin_line <= 0x2_0000_0000,
    ensures
        match r {
            None => origin_line + display_offset < 0 || origin_line + display_offset >= num_lines,
            Some(row) => {
                let columns = match max_column_seen {
                    Some(c) => c + 1,
                    None => 1int,
                };
                let places = row_places(columns * cell_width, cell_width as int, time_width as int);
                &&& row.line == origin_line + display_offset && row.line < num_lines
                &&& row.width == columns * cell_width
                &&& (row.elapsed_x as int, row.total_x as int, row.stop_x as int) == places
                &&& row.bar == bar_of(
                    columns * cell_width,
                    cell_width as int,
                    time_width as int,
                    played as int,
                )
                &&& row.elapsed@ == duration_text(elapsed as nat)
                &&& row.total@ == duration_text(duration as nat)
                &&& (row.play_glyph@, row.stop_glyph@) == (match (has_nerd_font_glyphs, is_playing) {
                    (true, true) => ("\u{f04c}"@, "\u{f04d}"@),
                    (true, false) => ("\u{f04b}"@, "\u{f04d}"@),
                    (false, true) => ("||"@, "[]"@),
                    (false, false) => (">"@, "[]"@),
                })
            },
        },
{
    let line = match control_row_line(origin_line, display_offset, num_lines) {
        Some(line) => line,
        None => return None,
    };
    let columns = control_row_columns(max_column_seen);
    let cell: i128 = cell_width as i128;
    let time: i128 = time_width as i128;
    assert(0 <= columns * cell_width <= 0x1_0000_0000 * 0x1_0000_0000) by (nonlinear_arith)
        requires
            0 <= columns <= 0x1_0000_0000,
            0 <= cell_width <= 0xffff_ffff,
    ;
    let width: i128 = columns as i128 * cell;
    let elapsed_x: i128 = 2 * cell;
    let stop_x: i128 = width - cell;
    let total_x: i128 = stop_x - 2 * cell - time;
    let start: i128 = elapsed_x + time + cell;
    let end: i128 = total_x - cell;
    let counted: i128 = if played < 1000 {
        played as i128
    } else {
        1000
    };
    let bar = if end > start {
        let length: i128 = end - start;
        assert(0 <= length * counted <= 0x1_0000_0000_0000_0000 * 1000) by (nonlinear_arith)
            requires
                0 <= length <= 0x1_0000_0000_0000_0000,
                0 <= counted <= 1000,
        ;
        Some(SeekBar { start, width: length, fill: length * counted / 1000 })
    } else {
        None
    };
    let (play, pause, stop_glyph) = control_glyphs(has_nerd_font_glyphs);
    let play_glyph = if is_playing {
        pause
    } else {
        play
    };
    Some(
        MediaRow {
            line,
            width,
            play_glyph,
            elapsed: format_duration(elapsed),
            elapsed_x,
            bar,
            total: format_duration(duration),
            total_x,
            stop_glyph,
            stop_x,
        },
    )
}

/// A picture that can be drawn: whether it moves, and whether it has a size at all.
#[derive(Debug, Clone, Copy, PartialEq, Eq, Structural)]
pub struct PictureState {
    pub moving: bool,
    pub sized: bool,
}

/// A placement that was found in the grid, how far it was ever seen to reach, and what there is to
/// draw for it: a sound and whether it plays, a film or a picture.
#[derive(Debug, Clone, Copy, PartialEq, Eq, Structural)]
pub struct SeenPlacement {
    pub placement: Placement,
    pub known_column: Option<u32>,
    pub known_row: Option<u32>,
    pub audio: Option<bool>,
    pub video: Option<PictureState>,
    pub image: Option<PictureState>,
}

/// Something to draw, in cells of the screen.
#[derive(Debug, Clone, Copy, PartialEq, Eq, Structural)]
pub enum PlacementStep {
    /// A picture, which may begin above the screen. That of a film takes no clicks: its control row
    /// does.
    Picture {
        session_id: u32,
        file_id: u32,
        line: i64,
        column: i64,
        columns: u64,
        rows: u64,
        takes_clicks: bool,
    },
    /// The control row of a recording, which is drawn where its line is in sight.
    Controls { session_id: u32, file_id: u32, line: i64, column: i64, max_column: u32, playing: bool },
}

pub open spec fn extent(known: Option<u32>, seen: u32) -> int {
    match known {
        Some(k) => larger(k, seen) as int,
        None => 0,
    }
}

pub open spec fn in_sight(line: int, rows: int, num_lines: int) -> bool {
    line + rows >= 0 && line < num_lines
}

/// How many rows a film's picture takes where the last row of its placement is `max_row`, counted
/// from 0: the rows before that one.
pub open spec fn film_rows(max_row: int) -> int {
    max_row
}

pub open spec fn at_least_one(n: int) -> int {
    if n >= 1 {
        n
    } else {
        1
    }
}

/// A picture of so many cells, one cell where it has no size, if any of it is in sight.
pub open spec fn picture_steps(
    s: SeenPlacement,
    sized: bool,
    takes_clicks: bool,
    rows: int,
    display_offset: int,
    num_lines: int,
) -> Seq<PlacementStep> {
    let line = s.placement.origin_line + display_offset;
    let shown_rows = if sized {
        rows
    } else {
        1
    };
    if in_sight(line, shown_rows, num_lines) {
        seq![
            PlacementStep::Picture {
                session_id: s.placement.session_id,
                file_id: s.placement.file_id,
                line: line as i64,
                column: s.placement.origin_column,
                columns: (if sized {
                    extent(s.known_column, s.placement.max_column) + 1
                } else {
                    1
                }) as u64,
                rows: shown_rows as u64,
                takes_clicks,
            },
        ]
    } else {
        Seq::empty()
    }
}

/// The control row of a recording, so many rows below the top of its placement.
pub open spec fn controls_step(s: SeenPlacement, below: int, display_offset: int, playing: bool) -> PlacementStep {
    PlacementStep::Controls {
        session_id: s.placement.session_id,
        file_id: s.placement.file_id,
        line: (s.placement.origin_line + below + display_offset) as i64,
        column: s.placement.origin_column,
        max_column: extent(s.known_column, s.placement.max_column) as u32,
        playing,
    }
}

/// What is drawn for one placement: a sound is its control row, a film its picture with the control
/// row in the last row, and a picture fills all its rows.
pub open spec fn steps_for(s: SeenPlacement, display_offset: int, num_lines: int) -> Seq<PlacementStep> {
    let max_row = extent(s.known_row, s.placement.max_row);
    match (s.audio, s.video, s.image) {
        (Some(playing), _, _) => seq![controls_step(s, 0, display_offset, playing)],
        (None, Some(film), _) => picture_steps(
            s,
            film.sized,
            false,
            at_least_one(film_rows(max_row)),
            display_offset,
            num_lines,
        ).push(controls_step(s, film_rows(max_row), display_offset, film.moving)),
        (None, None, Some(picture)) => picture_steps(
            s,
            picture.sized,
            true,
            max_row + 1,
            display_offset,
            num_lines,
        ),
        (None, None, None) => Seq::empty(),
    }
}

/// Whether a placement keeps the window being drawn: a sound that plays does so out of sight too, a
/// film and a picture only while they are in sight.
pub open spec fn moves(s: SeenPlacement, display_offset: int, num_lines: int) -> bool {
    let max_row = extent(s.known_row, s.placement.max_row);
    match (s.audio, s.video, s.image) {
        (Some(playing), _, _) => playing,
        (None, Some(film), _) => film.moving && picture_steps(
            s,
            film.sized,
            false,
            at_least_one(film_rows(max_row)),
            display_offset,
            num_lines,
        ).len() > 0,
        (None, None, Some(picture)) => picture.moving && picture_steps(
            s,
            picture.sized,
            true,
            max_row + 1,
            display_offset,
            num_lines,
        ).len() > 0,
        (None, None, None) => false,
    }
}

pub open spec fn all_steps(seen: Seq<SeenPlacement>, display_offset: int, num_lines: int) -> Seq<PlacementStep>
    decreases seen.len(),
{
    if seen.len() == 0 {
        Seq::empty()
    } else {
        all_steps(seen.drop_last(), display_offset, num_lines) + steps_for(
            seen.last(),
            display_offset,
            num_lines,
        )
    }
}

fn picture_step(
    s: &SeenPlacement,
    sized: bool,
    takes_clicks: bool,
    rows: u64,
    display_offset: u32,
    num_lines: u32,
) -> (r: Option<PlacementStep>)
    requires
        in_grid(s.placement),
        1 <= rows <= 0x1_0000_0000,
    ensures
        picture_steps(*s, sized, takes_clicks, rows as int, display_offset as int, num_lines as int) == (match r {
            Some(step) => seq![step],
            None => Seq::empty(),
        }),
{
    let shown_rows: u64 = if sized {
        rows
    } else {
        1
    };
    let line: i64 = s.placement.origin_line + display_offset as i64;
    if line + shown_rows as i64 >= 0 && line < num_lines as i64 {
        let columns: u64 = if sized {
            remembered_extent(s.known_column, s.placement.max_column) as u64 + 1
        } else {
            1
        };
        Some(
            PlacementStep::Picture {
                session_id: s.placement.session_id,
                file_id: s.placement.file_id,
                line,
                column: s.placement.origin_column,
                columns,
                rows: shown_rows,
                takes_clicks,
            },
        )
    } else {
        None
    }
}

fn controls(s: &SeenPlacement, below: u32, display_offset: u32, playing: bool) -> (r: PlacementStep)
    requires
        in_grid(s.placement),
    ensures
        r == controls_step(*s, below as int, display_offset as int, playing),
{
    PlacementStep::Controls {
        session_id: s.placement.session_id,
        file_id: s.placement.file_id,
        line: s.placement.origin_line + below as i64 + display_offset as i64,
        column: s.placement.origin_column,
        max_column: remembered_extent(s.known_column, s.placement.max_column),
        playing,
    }
}

/// What is drawn for the placements in the grid, in their order, and whether any of them moves.
pub fn paint_rich_content_placements(seen: &Vec<SeenPlacement>, display_offset: u32, num_lines: u32) -> (r: (
    Vec<PlacementStep>,
    bool,
))
    requires
        forall|i: int| 0 <= i < seen@.len() ==> in_grid((#[trigger] seen@[i]).placement),
    ensures
        r.0@ == all_steps(seen@, display_offset as int, num_lines as int),
        r.1 == exists|i: int|
            0 <= i < seen@.len() && moves(#[trigger] seen@[i], display_offset as int, num_lines as int),
{
    let mut steps: Vec<PlacementStep> = Vec::new();
    let mut any_animating = false;
    let mut i: usize = 0;
    assert(steps@ =~= all_steps(seen@.take(0), display_offset as int, num_lines as int));
    while i < seen.len()
        invariant
            i <= seen@.len(),
            forall|k: int| 0 <= k < seen@.len() ==> in_grid((#[trigger] seen@[k]).placement),
            steps@ == all_steps(seen@.take(i as int), display_offset as int, num_lines as int),
            any_animating == exists|k: int|
                0 <= k < i && moves(#[trigger] seen@[k], display_offset as int, num_lines as int),
        decreases seen@.len() - i,
    {
        let s = &seen[i];
        let ghost before = steps@;
        let ghost moved = any_animating;
        proof {
            assert(seen@.take(i + 1).drop_last() =~= seen@.take(i as int));
            assert(seen@.take(i + 1).last() == seen@[i as int]);
        }
        let max_row = remembered_extent(s.known_row, s.placement.max_row);
        let mut moving = false;
        match placement_kind(s.audio.is_some(), s.video.is_some(), s.image.is_some()) {
            PlacementKind::Audio => {
                if let Some(playing) = s.audio {
                    steps.push(controls(s, 0, display_offset, playing));
                    moving = playing;
                }
            },
            PlacementKind::Video => {
                if let Some(PictureState { moving: playing, sized }) = s.video {
                    let rows = video_picture_rows(Some(max_row));
                    let shown: u64 = if rows >= 1 {
                        rows as u64
                    } else {
                        1
                    };
                    if let Some(step) = picture_step(s, sized, false, shown, display_offset, num_lines) {
                        steps.push(step);
                        moving = playing;
                    }
                    steps.push(controls(s, rows, display_offset, playing));
                }
            },
            PlacementKind::Image => {
                if let Some(PictureState { moving: animating, sized }) = s.image {
                    if let Some(step) = picture_step(
                        s,
                        sized,
                        true,
                        max_row as u64 + 1,
                        display_offset,
                        num_lines,
                    ) {
                        steps.push(step);
                        moving = animating;
                    }
                }
            },
            PlacementKind::Nothing => {},
        }
        assert(steps@ =~= before + steps_for(*s, display_offset as int, num_lines as int));
        assert(moving == moves(*s, display_offset as int, num_lines as int));
        if moving {
            any_animating = true;
            assert(moves(seen@[i as int], display_offset as int, num_lines as int));
        }
        proof {
            if moved {
                let k = choose|k: int|
                    0 <= k < i && moves(#[trigger] seen@[k], display_offset as int, num_lines as int);
                assert(moves(seen@[k], display_offset as int, num_lines as int));
            }
        }
        i += 1;
    }
    assert(seen@.take(i as int) =~= seen@);
    (steps, any_animating)
}

/// A film's control row lies in the last row of its placement, and where there is more than one row
/// the picture ends right above it: they never overlap.
pub proof fn lemma_controls_below_picture(s: SeenPlacement, display_offset: int, num_lines: int)
    requires
        in_grid(s.placement),
        s.audio is None,
        s.video is Some,
        0 <= display_offset <= u32::MAX,
        extent(s.known_row, s.placement.max_row) >= 1,
    ensures
        ({
            let steps = steps_for(s, display_offset, num_lines);
            let last = extent(s.known_row, s.placement.max_row);
            &&& steps.last() matches PlacementStep::Controls { line, .. } && line == s.placement.origin_line
                + display_offset + last
            &&& forall|i: int|
                0 <= i < steps.len() - 1 ==> (#[trigger] steps[i] matches PlacementStep::Picture { line, rows, .. }
                    && line + rows <= s.placement.origin_line + display_offset + last && (s.video->0.sized ==> line
                    + rows == s.placement.origin_line + display_offset + last))
        }),
{
}

/// What a click in a control row is meant for.
#[derive(Debug, Clone, Copy, PartialEq, Eq, Structural)]
pub enum ClickPart {
    /// The recording as a whole, which is started or paused.
    Recording,
    SeekBar,
    Stop,
}

/// A rectangle of a control row that takes clicks, in thousandths of a pixel from the row's upper
/// left corner.
#[derive(Debug, Clone, Copy, PartialEq, Eq, Structural)]
pub struct ClickArea {
    pub part: ClickPart,
    pub x: i128,
    pub y: i128,
    pub width: i128,
    pub height: i128,
}

/// The whole row, the bar itself, which is a fifth of the row high and centred in it, and the cell of
/// the sign that stops.
pub open spec fn click_areas(
    width: i128,
    bar: Option<SeekBar>,
    stop_x: i128,
    cell_width: u32,
    line_height: u32,
) -> Seq<ClickArea> {
    let row = seq![
        ClickArea { part: ClickPart::Recording, x: 0, y: 0, width, height: line_height as i128 },
    ];
    let seek = match bar {
        Some(bar) => seq![
            ClickArea {
                part: ClickPart::SeekBar,
                x: bar.start,
                y: (line_height * 2 / 5) as i128,
                width: bar.width,
                height: (line_height as int / 5) as i128,
            },
        ],
        None => Seq::empty(),
    };
    row + seek + seq![
        ClickArea {
            part: ClickPart::Stop,
            x: stop_x,
            y: 0,
            width: cell_width as i128,
            height: line_height as i128,
        },
    ]
}

/// The rectangles of a control row that take clicks.
pub fn control_click_areas(row: &MediaRow, cell_width: u32, line_height: u32) -> (r: Vec<ClickArea>)
    ensures
        r@ == click_areas(row.width, row.bar, row.stop_x, cell_width, line_height),
{
    let mut out: Vec<ClickArea> = Vec::new();
    let height: i128 = line_height as i128;
    out.push(ClickArea { part: ClickPart::Recording, x: 0, y: 0, width: row.width, height });
    if let Some(bar) = row.bar {
        out.push(
            ClickArea {
                part: ClickPart::SeekBar,
                x: bar.start,
                y: height * 2 / 5,
                width: bar.width,
                height: height / 5,
            },
        );
    }
    out.push(ClickArea { part: ClickPart::Stop, x: row.stop_x, y: 0, width: cell_width as i128, height });
    assert(out@ =~= click_areas(row.width, row.bar, row.stop_x, cell_width, line_height));
    out
}

/// A time is written as hours, minutes and seconds that make it up, the minutes and seconds being less
/// than sixty, and each of the three with two digits at least.
pub proof fn lemma_duration_read_back(seconds: nat)
    ensures
        ({
            let h = two_digits(seconds / 3600);
            let m = two_digits((seconds / 60) % 60);
            let s = two_digits(seconds % 60);
            &&& duration_text(seconds) == h + seq![':'] + m + seq![':'] + s
            &&& digits_value(h) * 3600 + digits_value(m) * 60 + digits_value(s) == seconds
            &&& digits_value(m) < 60
            &&& digits_value(s) < 60
            &&& h.len() >= 2
            &&& m.len() == 2
            &&& s.len() == 2
        }),
{
    lemma_two_digits_value(seconds / 3600);
    lemma_two_digits_value((seconds / 60) % 60);
    lemma_two_digits_value(seconds % 60);
    lemma_two_digits((seconds / 60) % 60);
    lemma_two_digits(seconds % 60);
    assert(seconds == (seconds / 3600) * 3600 + ((seconds / 60) % 60) * 60 + seconds % 60) by (nonlinear_arith);
}

proof fn lemma_two_digits_value(n: nat)
    ensures
        digits_value(two_digits(n)) == n,
        two_digits(n).len() >= 2,
{
    lemma_digits_of(n);
    if n < 10 {
        reveal_with_fuel(digits_value, 3);
        let s = two_digits(n);
        assert(digits_of(n).len() == 1);
        assert(s.drop_last() =~= seq!['0']);
        assert(seq!['0'].drop_last() =~= Seq::<char>::empty());
        assert(digits_of(n).drop_last() =~= Seq::<char>::empty());
        assert(s.last() == digits_of(n).last());
    } else {
        lemma_digits_of(n / 10);
        assert(digits_of(n).len() >= 2);
    }
}

/// The bar is filled as far as the recording has played: empty at the start, full at the end and
/// beyond, and never less than it was for an earlier place.
pub proof fn lemma_bar_filled(width: int, cell: int, time: int, played: int, later: int)
    requires
        cell > 0,
        time >= 0,
        0 <= played <= later,
        width <= 0x1_0000_0000_0000_0000,
        bar_of(width, cell, time, played) is Some,
    ensures
        ({
            let bar = bar_of(width, cell, time, played)->0;
            let next = bar_of(width, cell, time, later)->0;
            &&& played == 0 ==> bar.fill == 0
            &&& played >= 1000 ==> bar.fill == bar.width
            &&& played < 1000 ==> bar.fill * 1000 <= bar.width * played < (bar.fill + 1) * 1000
            &&& bar.start == next.start
            &&& bar.width == next.width
            &&& bar.fill <= next.fill
        }),
{
    lemma_row_parts_apart(width, cell, time, played);
    lemma_row_parts_apart(width, cell, time, later);
    let (elapsed_x, total_x, _) = row_places(width, cell, time);
    let length = total_x - cell - (elapsed_x + time + cell);
    let a = if played < 1000 {
        played
    } else {
        1000
    };
    let b = if later < 1000 {
        later
    } else {
        1000
    };
    assert(length * a <= length * b) by (nonlinear_arith)
        requires
            0 <= length,
            a <= b,
    ;
    assert(0 <= length * a && length * b <= length * 1000) by (nonlinear_arith)
        requires
            0 <= length,
            0 <= a,
            b <= 1000,
    ;
    let bar = bar_of(width, cell, time, played)->0;
    let next = bar_of(width, cell, time, later)->0;
    assert(bar.width == length && next.width == length);
    assert(bar.fill == length * a / 1000);
    assert(next.fill == length * b / 1000);
    if played == 0 {
        assert(length * a == 0) by (nonlinear_arith)
            requires
                a == 0,
        ;
    }
    assert(bar.fill * 1000 <= length * a < (bar.fill + 1) * 1000);
    if played < 1000 {
        assert(bar.width * played == length * a);
    } else {
        assert(length * a == length * 1000);
    }
}

/// Clicks reach the whole row, the sign that stops in the row's last cell, and the bar where it is
/// drawn, in the middle of the row's height and no higher than the row.
pub proof fn lemma_click_areas(width: i128, bar: Option<SeekBar>, stop_x: i128, cell_width: u32, line_height: u32)
    ensures
        ({
            let areas = click_areas(width, bar, stop_x, cell_width, line_height);
            let row = areas[0];
            let stop = areas[areas.len() - 1];
            &&& areas.len() == if bar is Some {
                3int
            } else {
                2
            }
            &&& row.part == ClickPart::Recording && row.x == 0 && row.y == 0 && row.width == width && row.height
                == line_height
            &&& stop.part == ClickPart::Stop && stop.x == stop_x && stop.y == 0 && stop.width == cell_width && stop.height
                == line_height
            &&& bar matches Some(b) ==> {
                let seek = areas[1];
                &&& seek.part == ClickPart::SeekBar
                &&& seek.x == b.start
                &&& seek.width == b.width
                &&& 5 * seek.height <= line_height < 5 * (seek.height + 1)
                &&& 5 * seek.y <= 2 * line_height < 5 * (seek.y + 1)
                &&& 0 <= seek.y && seek.y + seek.height <= line_height
            }
        }),
{
}

/// What is drawn for a sound is its control row, at its own place. For a picture it is the picture, as
/// far down and to the right as it was ever seen to reach, unless all of it is out of sight. A film
/// takes the same place as such a picture, with its control row in the last row. Without data nothing
/// is drawn.
pub proof fn lemma_drawn_for_placement(s: SeenPlacement, display_offset: int, num_lines: int)
    requires
        in_grid(s.placement),
        0 <= display_offset <= u32::MAX,
        0 <= num_lines <= u32::MAX,
    ensures
        ({
            let steps = steps_for(s, display_offset, num_lines);
            let top = s.placement.origin_line + display_offset;
            let reach_row = match s.known_row {
                Some(k) => if k >= s.placement.max_row {
                    k as int
                } else {
                    s.placement.max_row as int
                },
                None => 0,
            };
            let reach_column = match s.known_column {
                Some(k) => if k >= s.placement.max_column {
                    k as int
                } else {
                    s.placement.max_column as int
                },
                None => 0,
            };
            let own = |step: PlacementStep|
                match step {
                    PlacementStep::Picture { session_id, file_id, column, .. } => session_id == s.placement.session_id
                        && file_id == s.placement.file_id && column == s.placement.origin_column,
                    PlacementStep::Controls { session_id, file_id, column, max_column, .. } => session_id
                        == s.placement.session_id && file_id == s.placement.file_id && column
                        == s.placement.origin_column && max_column == reach_column,
                };
            &&& forall|i: int| 0 <= i < steps.len() ==> own(#[trigger] steps[i])
            &&& s.audio matches Some(playing) ==> steps.len() == 1 && (steps[0] matches PlacementStep::Controls {
                line,
                playing: p,
                ..
            } && line == top && p == playing)
            &&& s.audio is None && s.video is None && s.image is None ==> steps.len() == 0
            &&& s.audio is None && s.video is None ==> (s.image matches Some(picture) ==> {
                let rows = if picture.sized {
                    reach_row + 1
                } else {
                    1
                };
                let columns = if picture.sized {
                    reach_column + 1
                } else {
                    1
                };
                &&& steps.len() == 1 <==> top + rows >= 0 && top < num_lines
                &&& steps.len() <= 1
                &&& steps.len() == 1 ==> (steps[0] matches PlacementStep::Picture {
                    line,
                    columns: c,
                    rows: r,
                    takes_clicks,
                    ..
                } && line == top && c == columns && r == rows && takes_clicks)
            })
            &&& s.audio is None ==> (s.video matches Some(film) ==> {
                let rows = if film.sized && reach_row >= 1 {
                    reach_row
                } else {
                    1
                };
                let columns = if film.sized {
                    reach_column + 1
                } else {
                    1
                };
                &&& steps.len() == if top + rows >= 0 && top < num_lines {
                    2int
                } else {
                    1
                }
                &&& steps.len() == 2 ==> (steps[0] matches PlacementStep::Picture {
                    line,
                    columns: c,
                    rows: r,
                    takes_clicks,
                    ..
                } && line == top && c == columns && r == rows && !takes_clicks)
                &&& steps.last() matches PlacementStep::Controls { line, playing, .. } && line == top + reach_row && playing
                    == film.moving
            })
        }),
{
}

/// The window is drawn again and again while a sound plays, or while a film or a picture that moves is
/// drawn.
pub proof fn lemma_moves_while_drawn(s: SeenPlacement, display_offset: int, num_lines: int)
    ensures
        s.audio matches Some(playing) ==> moves(s, display_offset, num_lines) == playing,
        s.audio is None ==> (s.video matches Some(film) ==> (moves(s, display_offset, num_lines) <==> film.moving
            && steps_for(s, display_offset, num_lines).len() == 2)),
        s.audio is None && s.video is None ==> (s.image matches Some(picture) ==> (moves(s, display_offset, num_lines)
            <==> picture.moving && steps_for(s, display_offset, num_lines).len() == 1)),
        s.audio is None && s.video is None && s.image is None ==> !moves(s, display_offset, num_lines),
{
}

/// Placements are drawn one by one, in their order.
pub proof fn lemma_placements_drawn_one_by_one(
    a: Seq<SeenPlacement>,
    b: Seq<SeenPlacement>,
    display_offset: int,
    num_lines: int,
)
    ensures
        all_steps(a + b, display_offset, num_lines) == all_steps(a, display_offset, num_lines) + all_steps(
            b,
            display_offset,
            num_lines,
        ),
        all_steps(seq![], display_offset, num_lines).len() == 0,
    decreases b.len(),
{
    if b.len() == 0 {
        assert(a + b =~= a);
        assert(all_steps(a + b, display_offset, num_lines) =~= all_steps(a, display_offset, num_lines) + all_steps(
            b,
            display_offset,
            num_lines,
        ));
    } else {
        lemma_placements_drawn_one_by_one(a, b.drop_last(), display_offset, num_lines);
        assert((a + b).drop_last() =~= a + b.drop_last());
        assert(all_steps(a + b, display_offset, num_lines) =~= all_steps(a, display_offset, num_lines) + all_steps(
            b,
            display_offset,
            num_lines,
        ));
    }
}

/// A picture reaches as far as any of its cells does, and its corner lies where its first cell puts it.
pub proof fn lemma_placement_reach(cells: Seq<PlacedCell>, k: int)
    requires
        0 <= k < placements_of(cells).len(),
    ensures
        ({
            let p = placements_of(cells)[k];
            &&& forall|i: int|
                0 <= i < cells.len() && (#[trigger] cells[i]).session_id == p.session_id && cells[i].file_id == p.file_id
                    ==> cells[i].row_in_image <= p.max_row && cells[i].column_in_image <= p.max_column
            &&& exists|i: int| 0 <= i < cells.len() && same_file(p, #[trigger] cells[i]) && cells[i].row_in_image == p.max_row
            &&& exists|i: int|
                0 <= i < cells.len() && same_file(p, #[trigger] cells[i]) && cells[i].column_in_image == p.max_column
            &&& exists|i: int|
                0 <= i < cells.len() && same_file(p, #[trigger] cells[i]) && (forall|j: int|
                    0 <= j < i ==> !same_file(p, #[trigger] cells[j])) && p.origin_line == cells[i].line
                    - cells[i].row_in_image && p.origin_column == cells[i].column - cells[i].column_in_image
        }),
    decreases cells.len(),
{
    let init = cells.drop_last();
    let before = placements_of(init);
    let c = cells.last();
    let n = cells.len() - 1;
    lemma_placements(init);
    lemma_find_bounds(before, c);
    let f = find_placement(before, c);
    let p = placements_of(cells)[k];
    assert(cells[n] == c);
    if k < before.len() {
        lemma_placement_reach(init, k);
        let q = before[k];
        let i1 = choose|i: int| 0 <= i < init.len() && same_file(q, #[trigger] init[i]) && init[i].row_in_image == q.max_row;
        let i2 = choose|i: int|
            0 <= i < init.len() && same_file(q, #[trigger] init[i]) && init[i].column_in_image == q.max_column;
        let i3 = choose|i: int|
            0 <= i < init.len() && same_file(q, #[trigger] init[i]) && (forall|j: int|
                0 <= j < i ==> !same_file(q, #[trigger] init[j])) && q.origin_line == init[i].line - init[i].row_in_image
                && q.origin_column == init[i].column - init[i].column_in_image;
        assert(cells[i1] == init[i1] && cells[i2] == init[i2] && cells[i3] == init[i3]);
        if k != f {
            assert(!same_file(q, c)) by {
                if same_file(q, c) {
                    assert(f <= k);
                    assert(same_file(before[f], c));
                }
            }
        }
        assert(same_file(p, cells[i1]) && same_file(p, cells[i2]) && same_file(p, cells[i3]));
        assert forall|i: int|
            0 <= i < cells.len() && (#[trigger] cells[i]).session_id == p.session_id && cells[i].file_id == p.file_id implies cells[i].row_in_image
            <= p.max_row && cells[i].column_in_image <= p.max_column by {
            if i < n {
                assert(init[i] == cells[i]);
            }
        }
        assert forall|j: int| 0 <= j < i3 implies !same_file(p, #[trigger] cells[j]) by {
            assert(init[j] == cells[j]);
            assert(!same_file(q, init[j]));
        }
    } else {
        assert(p == placement_of(c));
        assert forall|i: int| 0 <= i < n implies !same_file(p, #[trigger] cells[i]) by {
            assert(init[i] == cells[i]);
            let m = choose|m: int| 0 <= m < before.len() && same_file(#[trigger] before[m], init[i]);
            assert(same_file(before[m], init[i]));
            assert(!same_file(before[m], c));
        }
        assert(same_file(p, cells[n]));
        assert(p.origin_line == cells[n].line - cells[n].row_in_image);
    }
}

} // verus!
