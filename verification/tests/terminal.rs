use som::color::{convert_color, selection_foreground, Color, ColorSource, Hsla, NamedColor, Rgb, ThemeColors};
use som::key_context::{dispatch_context, ContextEntry, TermMode};
use som::layout::{
    check_grid, is_blank, visible_cells, GridPoint, HighlightStyle, Hyperlink, IndexedCell, TerminalElement, TextStyle,
    BOLD,
};
use som::placements::{
    control_click_areas, control_glyphs, control_row_columns, control_row_line, format_duration, paint_rich_content_media_widget,
    paint_rich_content_placements, placeholder_colors, placement_kind, remembered_extent,
    scan_placements, time_runs, video_picture_rows, ClickArea, ClickPart, PictureState, PlacedCell, Placement, PlacementKind, PlacementStep,
    SeekBar, SeenPlacement, TimeRuns,
};
use som::prepaint::{
    block_target_line, cursor_look, cursor_position, fit_grid, fit_rows, generic_button_handler, layout_portion, mouse_cursor,
    mouse_moved, overlay, paint, prepaint, redraw_after_paint, register_mouse_listeners, scrolled_position,
    takes_focus, terminal_font, to_highlighted_range_lines,
    visible_portion, wheel_response, AlacCursorShape, ButtonResponse, CursorLook, DisplayCursor, DrawContext, GridFit,
    GridPortion, GridSpace,
    HighlightedRangeLine, MouseCursor, MouseListener, MoveResponse, Overlay, PaintLayer, RowFit,
    TerminalContent, WheelResponse,
};
use som::runs::{char_utf8_len, FontStyle};
use som::search::{active_match_index, regex_search_for_query, supported_options, Direction, SearchMatch};
use som::shell::CursorShape;
use som::terminal_view::{ContentMode, Event, EventContext, HoveredWord, MaybeNavigationTarget, TerminalBlink, TerminalMode, TerminalView};

fn named(color: NamedColor) -> Color {
    Color::Named(color)
}

fn style() -> TextStyle {
    TextStyle { font_family: 1, font_weight: 400, font_size: 12_000 }
}

fn red() -> Hsla {
    Hsla { h: 0, s: 1.0f32.to_bits(), l: 0.5f32.to_bits(), a: 1.0f32.to_bits() }
}

fn cell(line: i32, column: usize, c: char) -> IndexedCell {
    let mut cell = IndexedCell::new(line, column);
    cell.c = c;
    cell
}

#[test]
fn every_coloured_place_lies_in_one_rectangle() {
    let mut cells = Vec::new();
    for line in 0..3 {
        for column in 0..4 {
            let mut c = cell(line, column, if column == 3 { ' ' } else { 'x' });
            if line != 1 || column != 2 {
                c.bg = named(NamedColor::Red);
            }
            c.selected = column == 0;
            cells.push(c);
        }
    }
    let (rects, runs) = TerminalElement::layout_grid(&cells, 0, &style(), None, red());
    for line in 0..3 {
        for column in 0..4 {
            let times = rects
                .iter()
                .filter(|r| r.point.line == line)
                .filter(|r| r.point.column <= column && column < r.point.column + r.num_of_cells as i32)
                .count();
            assert_eq!(times, if line == 1 && column == 2 { 0 } else { 1 });
        }
    }
    for run in &runs {
        assert_eq!(run.text.chars().count(), run.cell_count);
    }
}

#[test]
fn a_cell_is_blank_where_nothing_shows() {
    assert!(is_blank(&cell(0, 0, ' ')));
    assert!(!is_blank(&cell(0, 0, 'x')));
    let mut marked = cell(0, 0, ' ');
    marked.bg = named(NamedColor::Red);
    assert!(!is_blank(&marked));
    let mut underlined = cell(0, 0, ' ');
    underlined.flags.underline = true;
    assert!(!is_blank(&underlined));
}

#[test]
fn flags_change_the_text() {
    let mut c = cell(0, 0, 'é');
    c.flags.bold = true;
    c.flags.italic = true;
    c.flags.strikeout = true;
    c.hyperlink = true;
    let run = TerminalElement::cell_style(&c, &style(), None);
    assert_eq!(run.len, 2);
    assert_eq!((run.font.weight, run.font.style), (BOLD, FontStyle::Italic));
    assert_eq!(run.underline.unwrap().color, Some(c.ink));
    assert!(!run.underline.unwrap().wavy);
    assert!(run.strikethrough.is_some());
    let link = |line: i32| Hyperlink {
        style: HighlightStyle { color: Some(red()), underline: None },
        start: GridPoint { line: line - 1, column: 9 },
        end: GridPoint { line, column: 0 },
    };
    assert_eq!(TerminalElement::cell_style(&c, &style(), Some(link(0))).color, red());
    assert_eq!(TerminalElement::cell_style(&c, &style(), Some(link(5))).color, c.ink);
}

#[test]
fn the_colors_of_an_inverse_cell_are_swapped() {
    let mut c = cell(0, 0, 'x');
    c.fg = named(NamedColor::Red);
    c.bg = named(NamedColor::Blue);
    let plan = TerminalElement::ink_plan(&c);
    assert_eq!((plan.fg, plan.bg), (named(NamedColor::Red), named(NamedColor::Blue)));
    assert!(plan.adjust_contrast);
    c.flags.inverse = true;
    let plan = TerminalElement::ink_plan(&c);
    assert_eq!((plan.fg, plan.bg), (named(NamedColor::Blue), named(NamedColor::Red)));
    let line = cell(0, 0, '─');
    assert!(!TerminalElement::ink_plan(&line).adjust_contrast);
    let mut chosen = cell(0, 0, 'x');
    chosen.fg = Color::Spec(Rgb { r: 1, g: 2, b: 3 });
    assert!(!TerminalElement::ink_plan(&chosen).adjust_contrast);
}

#[test]
fn neighbours_of_one_style_are_drawn_together() {
    let mut odd = cell(5, 2, 'c');
    odd.flags.bold = true;
    let cells = vec![cell(5, 0, 'a'), cell(5, 1, 'b'), odd, cell(6, 0, 'd')];
    assert!(check_grid(&cells, 0));
    let (rects, runs) = TerminalElement::layout_grid(&cells, 0, &style(), None, red());
    assert!(rects.is_empty());
    let texts: Vec<&str> = runs.iter().map(|r| r.text.as_str()).collect();
    assert_eq!(texts, vec!["ab", "c", "d"]);
    assert_eq!((runs[2].start_point.line, runs[2].start_point.column), (1, 0));
    assert_eq!(runs[0].style.len, 2);
}

#[test]
fn backgrounds_of_one_color_become_one_rectangle() {
    let marked = |line: i32, column: usize| {
        let mut c = cell(line, column, 'x');
        c.bg = named(NamedColor::Red);
        c.background = red();
        c
    };
    let cells = vec![marked(0, 0), marked(0, 1), marked(1, 0), marked(1, 1)];
    let (rects, _) = TerminalElement::layout_grid(&cells, 0, &style(), None, red());
    assert_eq!(rects.len(), 2);
    assert_eq!((rects[0].point.line, rects[0].num_of_cells), (0, 2));
    assert_eq!((rects[1].point.line, rects[1].num_of_cells), (1, 2));
}

#[test]
fn a_column_out_of_reach_cannot_be_laid_out() {
    let cells = vec![cell(0, usize::MAX, 'a')];
    assert!(!check_grid(&cells, 0));
    assert!(layout_portion(GridPortion::All, &cells, &style(), None, red()).is_none());
}

#[test]
fn only_what_is_seen_is_laid_out() {
    let cells = vec![cell(-3, 0, 'a'), cell(-2, 0, 'b'), cell(-1, 0, 'c'), cell(0, 0, 'd')];
    let texts = |portion: GridPortion| {
        let (_, runs) = layout_portion(portion, &cells, &style(), None, red()).unwrap();
        runs.iter().map(|r| (r.start_point.line, r.text.clone())).collect::<Vec<(i32, String)>>()
    };
    assert_eq!(texts(GridPortion::Nothing), vec![]);
    assert_eq!(texts(GridPortion::All).len(), 4);
    assert_eq!(
        texts(GridPortion::Rows { skip: 1, take: 2 }),
        vec![(1, "b".to_string()), (2, "c".to_string())]
    );
    assert_eq!(visible_portion(false, false, 1, 2), GridPortion::Nothing);
    assert_eq!(visible_portion(true, true, 1, 2), GridPortion::All);
    assert_eq!(visible_portion(true, false, 1, 2), GridPortion::Rows { skip: 1, take: 3 });
    assert_eq!(visible_cells(&cells, 1, 2), (1, 3));
}

#[test]
fn characters_take_one_to_four_bytes() {
    assert_eq!(
        [char_utf8_len('a'), char_utf8_len('é'), char_utf8_len('─'), char_utf8_len('🎉')],
        [1, 2, 3, 4]
    );
}

fn theme() -> ThemeColors {
    let at = |n: u32| Hsla { h: n, s: 0, l: 0, a: 0 };
    ThemeColors {
        terminal_ansi_black: at(0),
        terminal_ansi_red: at(1),
        terminal_ansi_green: at(2),
        terminal_ansi_yellow: at(3),
        terminal_ansi_blue: at(4),
        terminal_ansi_magenta: at(5),
        terminal_ansi_cyan: at(6),
        terminal_ansi_white: at(7),
        terminal_ansi_bright_black: at(8),
        terminal_ansi_bright_red: at(9),
        terminal_ansi_bright_green: at(10),
        terminal_ansi_bright_yellow: at(11),
        terminal_ansi_bright_blue: at(12),
        terminal_ansi_bright_magenta: at(13),
        terminal_ansi_bright_cyan: at(14),
        terminal_ansi_bright_white: at(15),
        terminal_foreground: at(16),
        terminal_ansi_background: at(17),
        cursor: at(18),
        terminal_ansi_dim_black: at(19),
        terminal_ansi_dim_red: at(20),
        terminal_ansi_dim_green: at(21),
        terminal_ansi_dim_yellow: at(22),
        terminal_ansi_dim_blue: at(23),
        terminal_ansi_dim_magenta: at(24),
        terminal_ansi_dim_cyan: at(25),
        terminal_ansi_dim_white: at(26),
        terminal_bright_foreground: at(27),
        terminal_dim_foreground: at(28),
    }
}

#[test]
fn colors_come_from_the_theme_or_the_program() {
    let t = theme();
    assert_eq!(convert_color(&named(NamedColor::Cyan), &t), ColorSource::Theme(t.terminal_ansi_cyan));
    assert_eq!(convert_color(&named(NamedColor::Background), &t), ColorSource::Theme(t.terminal_ansi_background));
    let rgb = Rgb { r: 1, g: 2, b: 3 };
    assert_eq!(convert_color(&Color::Spec(rgb), &t), ColorSource::TrueColor(rgb));
    assert_eq!(convert_color(&Color::Indexed(200), &t), ColorSource::Palette(200));
}

#[test]
fn selected_text_stands_out_from_the_selection() {
    let light = Hsla { l: 0.9f32.to_bits(), ..red() };
    let dark = Hsla { l: 0.1f32.to_bits(), ..red() };
    assert_eq!(selection_foreground(light), Hsla::black());
    assert_eq!(selection_foreground(dark), Hsla::white());
}

fn placed(file_id: u32, line: i32, column: i32, row_in_image: u32, column_in_image: u32) -> PlacedCell {
    PlacedCell { session_id: 1, file_id, line, column, row_in_image, column_in_image }
}

#[test]
fn a_picture_is_found_by_any_of_its_cells() {
    let cells = vec![placed(7, 2, 5, 1, 0), placed(8, 2, 9, 0, 0), placed(7, 2, 6, 1, 1), placed(7, 3, 5, 2, 0)];
    assert_eq!(
        scan_placements(&cells),
        vec![
            Placement { session_id: 1, file_id: 7, origin_line: 1, origin_column: 5, max_column: 1, max_row: 2 },
            Placement { session_id: 1, file_id: 8, origin_line: 2, origin_column: 9, max_column: 0, max_row: 0 },
        ]
    );
    assert_eq!(scan_placements(&vec![]), vec![]);
}

#[test]
fn a_picture_is_named_by_colors() {
    let rgb = Rgb { r: 1, g: 2, b: 3 };
    assert_eq!(placeholder_colors(Color::Spec(rgb), None), Some((rgb, None)));
    assert_eq!(placeholder_colors(Color::Spec(rgb), Some(Color::Spec(rgb))), Some((rgb, Some(rgb))));
    assert_eq!(placeholder_colors(Color::Indexed(1), None), None);
}

#[test]
fn a_picture_keeps_the_size_it_was_seen_with() {
    assert_eq!(remembered_extent(Some(4), 2), 4);
    assert_eq!(remembered_extent(Some(4), 6), 6);
    assert_eq!(remembered_extent(None, 6), 0);
    assert_eq!(video_picture_rows(Some(5)), 5);
    assert_eq!(video_picture_rows(Some(0)), 0);
    assert_eq!(video_picture_rows(None), 0);
    assert_eq!(control_row_columns(Some(9)), 10);
    assert_eq!(control_row_columns(None), 1);
}

#[test]
fn controls_out_of_sight_are_not_drawn() {
    assert_eq!(control_row_line(-2, 5, 10), Some(3));
    assert_eq!(control_row_line(-2, 1, 10), None);
    assert_eq!(control_row_line(9, 1, 10), None);
}

#[test]
fn sound_comes_before_film_and_film_before_picture() {
    assert_eq!(placement_kind(true, true, true), PlacementKind::Audio);
    assert_eq!(placement_kind(false, true, true), PlacementKind::Video);
    assert_eq!(placement_kind(false, false, true), PlacementKind::Image);
    assert_eq!(placement_kind(false, false, false), PlacementKind::Nothing);
    assert_eq!(control_glyphs(false), (">", "||", "[]"));
    assert_eq!(control_glyphs(true).0, "\u{f04b}");
}

#[test]
fn times_have_hours_minutes_and_seconds() {
    assert_eq!(format_duration(0), "00:00:00");
    assert_eq!(format_duration(3725), "01:02:05");
    assert_eq!(format_duration(360_000), "100:00:00");
    assert_eq!(time_runs("00:02:05"), TimeRuns { dim: 4, bright: 4 });
    assert_eq!(time_runs("00:00:00"), TimeRuns { dim: 8, bright: 0 });
}

#[test]
fn the_cursor_is_drawn_on_the_screen_only() {
    let cursor = DisplayCursor::from(GridPoint { line: -2, column: 4 }, 5);
    assert_eq!((cursor.line(), cursor.col()), (3, 4));
    assert_eq!(cursor_position(cursor, 4), Some((3, 4)));
    assert_eq!(cursor_position(cursor, 3), None);
}

#[test]
fn the_cursor_is_hollow_without_the_focus() {
    let look = |shape: CursorShape, with_text: bool| Some(CursorLook { shape, with_text });
    assert_eq!(cursor_look(AlacCursorShape::Block, true), look(CursorShape::Block, true));
    assert_eq!(cursor_look(AlacCursorShape::Beam, true), look(CursorShape::Bar, false));
    assert_eq!(cursor_look(AlacCursorShape::Beam, false), look(CursorShape::Hollow, false));
    assert_eq!(cursor_look(AlacCursorShape::HollowBlock, true), look(CursorShape::Hollow, false));
    assert_eq!(cursor_look(AlacCursorShape::Hidden, true), None);
}

#[test]
fn whole_rows_fit_into_the_height() {
    assert_eq!(fit_rows(105, 20), RowFit { rows: 5, snapped_height: 100, padding: 5 });
    assert_eq!(fit_rows(100, 20), RowFit { rows: 5, snapped_height: 100, padding: 0 });
    assert_eq!(fit_rows(10, 20), RowFit { rows: 1, snapped_height: 20, padding: 0 });
}

#[test]
fn a_block_lies_below_the_cursor() {
    assert_eq!(block_target_line(0, 7), Some(8));
    assert_eq!(block_target_line(1, 7), None);
}

#[test]
fn a_range_covers_lines_of_the_screen() {
    let point = |line: i32, column: usize| GridPoint { line, column };
    let line = |start: usize, end: usize| HighlightedRangeLine { start, end };
    assert_eq!(
        to_highlighted_range_lines(point(1, 3), point(3, 4), 0, 10, 80),
        Some((1, vec![line(3, 80), line(0, 80), line(0, 5)]))
    );
    assert_eq!(to_highlighted_range_lines(point(1, 3), point(1, 4), 2, 10, 80), Some((3, vec![line(3, 5)])));
    assert_eq!(
        to_highlighted_range_lines(point(-5, 3), point(0, 4), 0, 10, 80),
        Some((0, vec![line(0, 5)]))
    );
    assert_eq!(to_highlighted_range_lines(point(-5, 3), point(-1, 4), 0, 10, 80), None);
    assert_eq!(to_highlighted_range_lines(point(11, 3), point(12, 4), 0, 10, 80), None);
}

#[test]
fn the_mouse_points_at_links() {
    assert_eq!(mouse_cursor(true, true, true), MouseCursor::PointingHand);
    assert_eq!(mouse_cursor(false, true, true), MouseCursor::IBeam);
}

#[test]
fn composed_text_takes_the_place_of_the_cursor() {
    assert_eq!(overlay(None, true, true, true), Overlay { marked_text: false, cursor: true });
    assert_eq!(overlay(Some(2), true, true, true), Overlay { marked_text: true, cursor: false });
    assert_eq!(overlay(Some(0), true, true, true), Overlay { marked_text: false, cursor: false });
    assert_eq!(
        paint(None, true, true, true, true, true)[4..],
        [PaintLayer::Placements, PaintLayer::Cursor, PaintLayer::BlockBelowCursor, PaintLayer::LinkTooltip]
    );
    assert_eq!(paint(Some(1), true, true, true, false, false).last(), Some(&PaintLayer::MarkedText));
    assert_eq!(redraw_after_paint(true, false), (true, false));
    assert_eq!(redraw_after_paint(false, true), (false, false));
}

#[test]
fn the_mouse_is_heard_as_far_as_it_is_asked_for() {
    let basic = vec![MouseListener::LeftDown, MouseListener::Move, MouseListener::LeftUp, MouseListener::MiddleDown];
    assert_eq!(register_mouse_listeners(false, false), basic);
    assert_eq!(register_mouse_listeners(true, true).len(), 8);
    assert_eq!(register_mouse_listeners(true, false)[4], MouseListener::ScrollWheel);
    assert_eq!(generic_button_handler(true, false), ButtonResponse { take_focus: true, handle: true });
    assert_eq!(generic_button_handler(false, false), ButtonResponse { take_focus: false, handle: false });
    assert!(takes_focus(MouseListener::MiddleDown));
    assert!(!takes_focus(MouseListener::MiddleUp));
    assert_eq!((scrolled_position(5, 7), scrolled_position(5, -7)), (12, 5));
    assert_eq!(mouse_moved(true, false, true, false, true), MoveResponse { drag: true, hover: false });
    assert_eq!(mouse_moved(true, true, true, true, true), MoveResponse { drag: false, hover: true });
    assert_eq!(wheel_response(true, 1, false, false), WheelResponse::IncreaseFont);
    assert_eq!(wheel_response(true, -1, false, false), WheelResponse::DecreaseFont);
    assert_eq!(wheel_response(true, 0, true, true), WheelResponse::Ignore);
    assert_eq!(wheel_response(false, 1, true, false), WheelResponse::Scroll);
    assert_eq!(wheel_response(false, 1, false, false), WheelResponse::Ignore);
}

#[test]
fn a_plain_query_is_taken_literally() {
    assert_eq!(regex_search_for_query("a.b(c)", false), Some("a\\.b\\(c\\)".to_string()));
    assert_eq!(regex_search_for_query("a-b #~&", false), Some("a\\-b \\#\\~\\&".to_string()));
    assert_eq!(regex_search_for_query("a.b", true), Some("a.b".to_string()));
    assert_eq!(regex_search_for_query(".", true), None);
    assert_eq!(regex_search_for_query(".", false), Some("\\.".to_string()));
    assert!(supported_options().regex);
}

#[test]
fn the_current_match_follows_the_selection() {
    let at = |line: i32| SearchMatch {
        start: GridPoint { line, column: 2 },
        end: GridPoint { line, column: 5 },
    };
    let matches = [at(0), at(2), at(4)];
    let head = |line: i32, column: usize| Some(GridPoint { line, column });
    assert_eq!(active_match_index(Direction::Prev, &matches, head(3, 0)), Some(1));
    assert_eq!(active_match_index(Direction::Next, &matches, head(3, 0)), Some(2));
    assert_eq!(active_match_index(Direction::Next, &matches, head(2, 3)), Some(1));
    assert_eq!(active_match_index(Direction::Prev, &matches, head(-1, 0)), Some(0));
    assert_eq!(active_match_index(Direction::Next, &matches, head(9, 0)), Some(2));
    assert_eq!(active_match_index(Direction::Next, &matches, None), Some(2));
    assert_eq!(active_match_index(Direction::Next, &[], head(0, 0)), None);
}

#[test]
fn keys_are_looked_up_in_the_terminals_modes() {
    let off = TermMode {
        alt_screen: false,
        app_cursor: false,
        app_keypad: false,
        show_cursor: false,
        line_wrap: false,
        origin: false,
        insert: false,
        line_feed_new_line: false,
        focus_in_out: false,
        alternate_scroll: false,
        bracketed_paste: false,
        mouse_report_click: false,
        mouse_drag: false,
        mouse_motion: false,
        sgr_mouse: false,
        utf8_mouse: false,
    };
    let show = |entries: Vec<ContextEntry>| {
        entries
            .iter()
            .map(|e| match &e.value {
                Some(value) => format!("{}={}", e.key, value),
                None => e.key.clone(),
            })
            .collect::<Vec<String>>()
            .join(" ")
    };
    assert_eq!(
        show(dispatch_context(off, false, false)),
        "Terminal screen=normal DECPNM mouse_reporting=off mouse_format=normal"
    );
    let on = TermMode { alt_screen: true, app_keypad: true, mouse_drag: true, sgr_mouse: true, ..off };
    assert_eq!(
        show(dispatch_context(on, true, true)),
        "Terminal vi_mode screen=alt DECPAM any_mouse_reporting mouse_reporting=drag mouse_format=sgr selection"
    );
}

fn seen(placement: Placement) -> SeenPlacement {
    SeenPlacement { placement, known_column: Some(0), known_row: Some(0), audio: None, video: None, image: None }
}

fn placement(origin_line: i64, max_column: u32, max_row: u32) -> Placement {
    Placement { session_id: 1, file_id: 2, origin_line, origin_column: 4, max_column, max_row }
}

#[test]
fn a_picture_fills_its_rows() {
    let mut s = seen(placement(-2, 9, 3));
    s.image = Some(PictureState { moving: true, sized: true });
    let picture = |line: i64, columns: u64, rows: u64| PlacementStep::Picture {
        session_id: 1,
        file_id: 2,
        line,
        column: 4,
        columns,
        rows,
        takes_clicks: true,
    };
    assert_eq!(paint_rich_content_placements(&vec![s], 1, 20), (vec![picture(-1, 10, 4)], true));
    s.image = Some(PictureState { moving: true, sized: false });
    assert_eq!(paint_rich_content_placements(&vec![s], 1, 20), (vec![picture(-1, 1, 1)], true));
    s.placement.origin_line = -9;
    assert_eq!(paint_rich_content_placements(&vec![s], 1, 20), (vec![], false));
    assert_eq!(paint_rich_content_placements(&vec![seen(placement(0, 0, 0))], 0, 20), (vec![], false));
}

#[test]
fn a_film_has_its_controls_in_the_last_row() {
    let film = |max_row: u32| {
        let mut s = seen(placement(5, 9, max_row));
        s.video = Some(PictureState { moving: true, sized: true });
        s.image = Some(PictureState { moving: false, sized: true });
        paint_rich_content_placements(&vec![s], 0, 20)
    };
    let steps = |rows: u64, controls: i64| {
        let picture = PlacementStep::Picture {
            session_id: 1,
            file_id: 2,
            line: 5,
            column: 4,
            columns: 10,
            rows,
            takes_clicks: false,
        };
        let controls = PlacementStep::Controls {
            session_id: 1,
            file_id: 2,
            line: controls,
            column: 4,
            max_column: 9,
            playing: true,
        };
        (vec![picture, controls], true)
    };
    assert_eq!(film(3), steps(3, 8));
    assert_eq!(film(1), steps(1, 6));
    assert_eq!(film(0), steps(1, 5));
}

#[test]
fn a_sound_plays_on_out_of_sight() {
    let mut s = seen(placement(-50, 9, 0));
    s.audio = Some(true);
    let (steps, moving) = paint_rich_content_placements(&vec![s], 0, 20);
    assert!(moving);
    assert!(matches!(steps[..], [PlacementStep::Controls { line: -50, playing: true, .. }]));
}

#[test]
fn a_control_row_is_laid_out_from_both_ends() {
    let row = |columns: u32, played: u32, playing: bool| {
        paint_rich_content_media_widget(
            Some(columns - 1),
            played,
            playing,
            65,
            3600,
            3,
            0,
            10,
            10_000,
            75_000,
            false,
        )
        .unwrap()
    };
    let r = row(40, 500, true);
    assert_eq!((r.line, r.width), (3, 400_000));
    assert_eq!((r.play_glyph, r.stop_glyph), ("||", "[]"));
    assert_eq!((r.elapsed.as_str(), r.total.as_str()), ("00:01:05", "01:00:00"));
    assert_eq!((r.elapsed_x, r.total_x, r.stop_x), (20_000, 295_000, 390_000));
    assert_eq!(r.bar, Some(SeekBar { start: 105_000, width: 180_000, fill: 90_000 }));
    let areas = control_click_areas(&r, 10_000, 20_000);
    let area = |part: ClickPart, x: i128, y: i128, width: i128, height: i128| ClickArea { part, x, y, width, height };
    assert_eq!(
        areas,
        vec![
            area(ClickPart::Recording, 0, 0, 400_000, 20_000),
            area(ClickPart::SeekBar, 105_000, 8_000, 180_000, 4_000),
            area(ClickPart::Stop, 390_000, 0, 10_000, 20_000),
        ]
    );
    assert_eq!(control_click_areas(&row(20, 500, false), 10_000, 20_000).len(), 2);
    assert_eq!(row(40, 2000, false).bar.unwrap().fill, 180_000);
    assert_eq!(row(40, 0, false).play_glyph, ">");
    assert_eq!(row(20, 500, false).bar, None);
    assert!(paint_rich_content_media_widget(None, 0, false, 0, 0, 10, 0, 10, 1, 1, true).is_none());
}

#[test]
fn the_grid_fits_its_room() {
    let space = GridSpace { width: 100_000, cell_width: 10_000, height: 105, line_height: 20 };
    let rows = RowFit { rows: 5, snapped_height: 100, padding: 5 };
    assert_eq!(
        fit_grid(space, TerminalMode::Standalone, true),
        GridFit { width: 90_000, rows: Some(rows), shift: 5 }
    );
    assert_eq!(fit_grid(space, TerminalMode::Standalone, false).shift, 0);
    let embedded = TerminalMode::Embedded { max_lines_when_unfocused: None };
    let narrow = GridSpace { width: 25_000, ..space };
    assert_eq!(fit_grid(narrow, embedded, true), GridFit { width: 20_000, rows: None, shift: 0 });
}

fn hovered_word() -> HoveredWord {
    HoveredWord {
        word: "w".to_string(),
        start: GridPoint { line: 0, column: 1 },
        end: GridPoint { line: 0, column: 1 },
        id: 1,
    }
}

#[test]
fn a_terminal_is_prepared_for_drawing() {
    let mut view = TerminalView::new_with_title_and_icon(None, None, None, CursorShape::Block, false);
    let content = TerminalContent {
        cells: vec![cell(0, 0, 'a'), cell(0, 1, 'b'), cell(0, 2, 'c')],
        display_offset: 0,
        cursor: GridPoint { line: 4, column: 2 },
        cursor_shape: AlacCursorShape::Block,
        last_hovered_word: Some(hovered_word()),
        matches: vec![],
        total_lines: 1,
    };
    let context = DrawContext {
        portion: GridPortion::All,
        num_lines: 10,
        focused: true,
        secondary_held: true,
        mouse_inside: true,
        text_style: style(),
        link_style: HighlightStyle { color: Some(red()), underline: None },
        selection_color: red(),
    };
    let state = prepaint(&view, &content, context).unwrap();
    assert_eq!(state.batched_text_runs.len(), 1);
    assert_eq!(state.cursor_cell, Some((4, 2)));
    assert_eq!(state.cursor, Some(CursorLook { shape: CursorShape::Block, with_text: true }));
    assert_eq!(state.block_line, None);
    assert_eq!(state.content_mode, ContentMode::Scrollable);
    assert!(state.link.is_none());
    view.set_block_below_cursor(3, true, 0);
    view.on_terminal_event(
        Event::NewNavigationTarget(Some(MaybeNavigationTarget::Url("u".to_string()))),
        EventContext {
            working_directory: None,
            blinking: TerminalBlink::Off,
            system_bell: false,
            focused: true,
            last_hovered_word: Some(hovered_word()),
        },
    );
    let state = prepaint(&view, &content, context).unwrap();
    assert_eq!(state.batched_text_runs.len(), 3);
    assert_eq!(state.batched_text_runs[1].style.color, red());
    assert_eq!(state.link.unwrap().tooltip, "u");
    assert_eq!(state.block_line, Some(5));
    let out_of_sight = DrawContext { num_lines: 4, ..context };
    let state = prepaint(&view, &content, out_of_sight).unwrap();
    assert_eq!((state.cursor_cell, state.cursor), (None, None));
}

#[test]
fn the_terminals_own_font_goes_before_the_buffers() {
    let own = Some(vec!["A".to_string()]);
    let buffer = Some(vec!["B".to_string(), "C".to_string()]);
    assert_eq!(terminal_font(Some("Mono"), "Sans", &own, &buffer), ("Mono".to_string(), own.clone()));
    assert_eq!(terminal_font(None, "Sans", &None, &buffer), ("Sans".to_string(), buffer.clone()));
    assert_eq!(terminal_font(None, "Sans", &Some(vec![]), &buffer), ("Sans".to_string(), Some(vec![])));
    assert_eq!(terminal_font(Some(""), "Sans", &None, &None), (String::new(), None));
}
