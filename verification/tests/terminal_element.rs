use som::color::{Color, Hsla, NamedColor, Rgb};
use som::layout::{visible_cells, IndexedCell, TerminalElement, TextStyle};
use som::regions::{merge_background_regions, BackgroundRegion};
use som::runs::{BatchedTextRun, Font, FontStyle, ScreenPoint, TextRun};

fn hsla(h: f32, s: f32, l: f32, a: f32) -> Hsla {
    Hsla { h: h.to_bits(), s: s.to_bits(), l: l.to_bits(), a: a.to_bits() }
}

fn red() -> Hsla {
    hsla(0.0, 1.0, 0.5, 1.0)
}

fn blue() -> Hsla {
    hsla(0.6666667, 1.0, 0.5, 1.0)
}

fn style(color: Hsla) -> TextRun {
    TextRun {
        len: 1,
        font: Font { family: 1, weight: 400, style: FontStyle::Normal },
        color,
        background_color: None,
        underline: None,
        strikethrough: None,
    }
}

fn font_size() -> u32 {
    12_000
}

#[test]
fn test_is_decorative_character() {
    // Box Drawing characters (U+2500 to U+257F)
    assert!(TerminalElement::is_decorative_character('─')); // U+2500
    assert!(TerminalElement::is_decorative_character('│')); // U+2502
    assert!(TerminalElement::is_decorative_character('┌')); // U+250C
    assert!(TerminalElement::is_decorative_character('┐')); // U+2510
    assert!(TerminalElement::is_decorative_character('└')); // U+2514
    assert!(TerminalElement::is_decorative_character('┘')); // U+2518
    assert!(TerminalElement::is_decorative_character('┼')); // U+253C

    // Block Elements (U+2580 to U+259F)
    assert!(TerminalElement::is_decorative_character('▀')); // U+2580
    assert!(TerminalElement::is_decorative_character('▄')); // U+2584
    assert!(TerminalElement::is_decorative_character('█')); // U+2588
    assert!(TerminalElement::is_decorative_character('░')); // U+2591
    assert!(TerminalElement::is_decorative_character('▒')); // U+2592
    assert!(TerminalElement::is_decorative_character('▓')); // U+2593

    // Geometric Shapes (U+25A0 to U+25FF)
    assert!(TerminalElement::is_decorative_character('■')); // U+25A0
    assert!(TerminalElement::is_decorative_character('□')); // U+25A1
    assert!(TerminalElement::is_decorative_character('▲')); // U+25B2
    assert!(TerminalElement::is_decorative_character('▼')); // U+25BC
    assert!(TerminalElement::is_decorative_character('◆')); // U+25C6
    assert!(TerminalElement::is_decorative_character('●')); // U+25CF
    assert!(TerminalElement::is_decorative_character('◗')); // U+25D7
    assert!(TerminalElement::is_decorative_character('◘')); // U+25D8
    assert!(TerminalElement::is_decorative_character('◙')); // U+25D9

    // Powerline symbols (Private Use Area)
    assert!(TerminalElement::is_decorative_character('\u{E0B0}'));
    assert!(TerminalElement::is_decorative_character('\u{E0B2}'));
    assert!(TerminalElement::is_decorative_character('\u{E0B4}'));
    assert!(TerminalElement::is_decorative_character('\u{E0B6}'));
    assert!(TerminalElement::is_decorative_character('\u{E0CA}'));
    assert!(TerminalElement::is_decorative_character('\u{E0D7}'));

    // Characters that are not decorative
    assert!(!TerminalElement::is_decorative_character('A'));
    assert!(!TerminalElement::is_decorative_character('$'));
    assert!(!TerminalElement::is_decorative_character(' '));
    assert!(!TerminalElement::is_decorative_character('←')); // U+2190
    assert!(!TerminalElement::is_decorative_character('→')); // U+2192
    assert!(!TerminalElement::is_decorative_character('\u{F00C}')); // Font Awesome check
    assert!(!TerminalElement::is_decorative_character('\u{E711}')); // Devicons
    assert!(!TerminalElement::is_decorative_character('\u{EA71}')); // Codicons folder
    assert!(!TerminalElement::is_decorative_character('\u{F401}')); // Octicons
    assert!(!TerminalElement::is_decorative_character('\u{1F600}')); // Emoji
}

#[test]
fn test_decorative_character_boundary_cases() {
    assert!(TerminalElement::is_decorative_character('\u{2500}'));
    assert!(TerminalElement::is_decorative_character('\u{257F}'));
    assert!(!TerminalElement::is_decorative_character('\u{24FF}'));

    assert!(TerminalElement::is_decorative_character('\u{2580}'));
    assert!(TerminalElement::is_decorative_character('\u{259F}'));

    assert!(TerminalElement::is_decorative_character('\u{25A0}'));
    assert!(TerminalElement::is_decorative_character('\u{25FF}'));
    assert!(!TerminalElement::is_decorative_character('\u{2600}'));
}

#[test]
fn test_decorative_characters_bypass_contrast_adjustment() {
    let problematic_char = '◗'; // U+25D7
    assert!(
        TerminalElement::is_decorative_character(problematic_char),
        "Character ◗ (U+25D7) should be recognized as decorative"
    );

    assert!(TerminalElement::is_decorative_character('│'));
    assert!(TerminalElement::is_decorative_character('─'));
    assert!(TerminalElement::is_decorative_character('█'));
    assert!(TerminalElement::is_decorative_character('▓'));
    assert!(TerminalElement::is_decorative_character('■'));
    assert!(TerminalElement::is_decorative_character('●'));

    assert!(!TerminalElement::is_decorative_character('A'));
    assert!(!TerminalElement::is_decorative_character('1'));
    assert!(!TerminalElement::is_decorative_character('$'));
    assert!(!TerminalElement::is_decorative_character(' '));
}

#[test]
fn test_is_app_chosen_exact_color() {
    assert!(!TerminalElement::is_app_chosen_exact_color(&Color::Indexed(0)));
    assert!(!TerminalElement::is_app_chosen_exact_color(&Color::Indexed(15)));

    assert!(TerminalElement::is_app_chosen_exact_color(&Color::Indexed(16)));
    assert!(TerminalElement::is_app_chosen_exact_color(&Color::Indexed(17)));
    assert!(TerminalElement::is_app_chosen_exact_color(&Color::Indexed(231)));
    assert!(TerminalElement::is_app_chosen_exact_color(&Color::Indexed(232)));
    assert!(TerminalElement::is_app_chosen_exact_color(&Color::Indexed(255)));

    assert!(TerminalElement::is_app_chosen_exact_color(&Color::Spec(Rgb { r: 10, g: 20, b: 30 })));

    assert!(!TerminalElement::is_app_chosen_exact_color(&Color::Named(NamedColor::Red)));
    assert!(!TerminalElement::is_app_chosen_exact_color(&Color::Named(NamedColor::Foreground)));
}

#[test]
fn test_batched_text_run_can_append() {
    let style1 = style(red());
    let style2 = style(red());
    let style3 = style(blue());

    let batch = BatchedTextRun::new_from_char(ScreenPoint { line: 0, column: 0 }, 'a', style1, font_size());

    assert!(batch.can_append(&style2));
    assert!(!batch.can_append(&style3));
}

#[test]
fn test_batched_text_run_append() {
    let mut batch =
        BatchedTextRun::new_from_char(ScreenPoint { line: 0, column: 0 }, 'a', style(red()), font_size());

    assert_eq!(batch.text, "a");
    assert_eq!(batch.cell_count, 1);
    assert_eq!(batch.style.len, 1);

    batch.append_char('b');

    assert_eq!(batch.text, "ab");
    assert_eq!(batch.cell_count, 2);
    assert_eq!(batch.style.len, 2);

    batch.append_char('c');

    assert_eq!(batch.text, "abc");
    assert_eq!(batch.cell_count, 3);
    assert_eq!(batch.style.len, 3);
}

#[test]
fn test_batched_text_run_append_char() {
    let mut batch =
        BatchedTextRun::new_from_char(ScreenPoint { line: 0, column: 0 }, 'x', style(red()), font_size());

    assert_eq!(batch.text, "x");
    assert_eq!(batch.cell_count, 1);
    assert_eq!(batch.style.len, 1);

    batch.append_char('y');

    assert_eq!(batch.text, "xy");
    assert_eq!(batch.cell_count, 2);
    assert_eq!(batch.style.len, 2);

    batch.append_char('😀');

    assert_eq!(batch.text, "xy😀");
    assert_eq!(batch.cell_count, 3);
    assert_eq!(batch.style.len, 6);
}

#[test]
fn test_batched_text_run_append_zero_width_char() {
    let mut batch =
        BatchedTextRun::new_from_char(ScreenPoint { line: 0, column: 0 }, 'x', style(red()), font_size());

    let combining = '\u{0301}';
    batch.append_zero_width_chars(&[combining]);

    assert_eq!(batch.text, format!("x{}", combining));
    assert_eq!(batch.cell_count, 1);
    assert_eq!(batch.style.len, 1 + combining.len_utf8());
}

#[test]
fn test_background_region_can_merge() {
    let color1 = red();
    let color2 = blue();

    let mut region1 = BackgroundRegion::new(0, 0, color1);
    region1.end_col = 5;
    let region2 = BackgroundRegion::new(0, 6, color1);
    assert!(region1.can_merge_with(&region2));

    let mut region3 = BackgroundRegion::new(0, 0, color1);
    region3.end_col = 5;
    let mut region4 = BackgroundRegion::new(1, 0, color1);
    region4.end_col = 5;
    assert!(region3.can_merge_with(&region4));

    let region5 = BackgroundRegion::new(0, 0, color1);
    let region6 = BackgroundRegion::new(0, 1, color2);
    assert!(!region5.can_merge_with(&region6));

    let region7 = BackgroundRegion::new(0, 0, color1);
    let region8 = BackgroundRegion::new(0, 2, color1);
    assert!(!region7.can_merge_with(&region8));

    let mut region9 = BackgroundRegion::new(0, 0, color1);
    region9.end_col = 5;
    let mut region10 = BackgroundRegion::new(1, 0, color1);
    region10.end_col = 6;
    assert!(!region9.can_merge_with(&region10));
}

#[test]
fn test_background_region_merge() {
    let color = red();

    let mut region1 = BackgroundRegion::new(0, 0, color);
    region1.end_col = 5;
    let mut region2 = BackgroundRegion::new(0, 6, color);
    region2.end_col = 10;
    region1.merge_with(&region2);
    assert_eq!(region1.start_col, 0);
    assert_eq!(region1.end_col, 10);
    assert_eq!(region1.start_line, 0);
    assert_eq!(region1.end_line, 0);

    let mut region3 = BackgroundRegion::new(0, 0, color);
    region3.end_col = 5;
    let mut region4 = BackgroundRegion::new(1, 0, color);
    region4.end_col = 5;
    region3.merge_with(&region4);
    assert_eq!(region3.start_col, 0);
    assert_eq!(region3.end_col, 5);
    assert_eq!(region3.start_line, 0);
    assert_eq!(region3.end_line, 1);
}

#[test]
fn test_merge_background_regions() {
    let color = red();

    let regions = vec![
        BackgroundRegion::new(0, 0, color),
        BackgroundRegion::new(0, 1, color),
        BackgroundRegion::new(0, 2, color),
        BackgroundRegion::new(1, 0, color),
        BackgroundRegion::new(1, 1, color),
        BackgroundRegion::new(1, 2, color),
    ];

    let merged = merge_background_regions(regions);
    assert_eq!(merged.len(), 1);
    assert_eq!(merged[0].start_line, 0);
    assert_eq!(merged[0].end_line, 1);
    assert_eq!(merged[0].start_col, 0);
    assert_eq!(merged[0].end_col, 2);

    let color2 = blue();
    let regions2 = vec![
        BackgroundRegion::new(0, 0, color),
        BackgroundRegion::new(0, 2, color),
        BackgroundRegion::new(1, 0, color2),
    ];

    let merged2 = merge_background_regions(regions2);
    assert_eq!(merged2.len(), 3);
}

#[test]
fn test_screen_position_filtering_with_positive_lines() {
    let mut cells = Vec::new();
    for line in 0..24i32 {
        for col in 0..3i32 {
            cells.push(IndexedCell::new(line, col as usize));
        }
    }

    let rows_above_viewport = 5usize;
    let visible_row_count = 11usize;

    let (from, to) = visible_cells(&cells, rows_above_viewport, visible_row_count);
    let filtered = &cells[from..to];

    assert_eq!(filtered.len(), 11 * 3, "Should have 33 cells for 11 lines");
    assert_eq!(filtered.first().unwrap().point.line, 5, "First cell should be on line 5");
    assert_eq!(filtered.last().unwrap().point.line, 15, "Last cell should be on line 15");
}

#[test]
fn test_screen_position_filtering_with_negative_lines() {
    let mut scrollback_cells = Vec::new();
    for line in -588i32..=-578i32 {
        for col in 0..80i32 {
            scrollback_cells.push(IndexedCell::new(line, col as usize));
        }
    }

    let rows_above_viewport = 3usize;
    let visible_row_count = 5usize;

    let (from, to) = visible_cells(&scrollback_cells, rows_above_viewport, visible_row_count);
    let filtered = &scrollback_cells[from..to];

    assert_eq!(filtered.len(), 5 * 80, "Should have 400 cells for 5 lines");
    assert_eq!(filtered.first().unwrap().point.line, -585, "First cell should be on line -585");
    assert_eq!(filtered.last().unwrap().point.line, -581, "Last cell should be on line -581");
}

#[test]
fn test_screen_position_filtering_skip_all() {
    let mut cells = Vec::new();
    for line in 0..10i32 {
        cells.push(IndexedCell::new(line, 0));
    }

    let rows_above_viewport = 100usize;
    let visible_row_count = 5usize;

    let (from, to) = visible_cells(&cells, rows_above_viewport, visible_row_count);
    let filtered = &cells[from..to];

    assert_eq!(filtered.len(), 0, "Should have no cells when all are skipped");
}

#[test]
fn test_layout_grid_positioning_math() {
    let terminal_origin_y = -100.0f32;
    let line_height = 20.0f32;
    let rows_skipped = 5;

    // One visible letter on each of ten lines, laid out from the fifth screen row on.
    let mut cells = Vec::new();
    for line in 0..10i32 {
        let mut cell = IndexedCell::new(line, 0);
        cell.c = 'a';
        cells.push(cell);
    }
    let text_style = TextStyle { font_family: 1, font_weight: 400, font_size: font_size() };
    let (_, runs) = TerminalElement::layout_grid(&cells, rows_skipped, &text_style, None, red());

    let first_visible_y = terminal_origin_y + runs[0].start_point.line as f32 * line_height;
    assert_eq!(first_visible_y, 0.0, "First visible line should be at viewport top (y=0)");
    assert_eq!(terminal_origin_y + rows_skipped as f32 * line_height, 0.0);

    let sixth_visible_y = terminal_origin_y + runs[5].start_point.line as f32 * line_height;
    assert_eq!(sixth_visible_y, 100.0, "6th visible line should be at y=100");
    assert_eq!(terminal_origin_y + (rows_skipped + 5) as f32 * line_height, 100.0);
}

#[test]
fn test_unified_filtering_works_for_both_modes() {
    let positive_cells: Vec<_> =
        (0..10i32).flat_map(|line| (0..3i32).map(move |col| IndexedCell::new(line, col as usize))).collect();

    let negative_cells: Vec<_> =
        (-10i32..0i32).flat_map(|line| (0..3i32).map(move |col| IndexedCell::new(line, col as usize))).collect();

    let rows_to_skip = 3usize;
    let rows_to_take = 4usize;

    let (from, to) = visible_cells(&positive_cells, rows_to_skip, rows_to_take);
    let positive_filtered = &positive_cells[from..to];
    let (from, to) = visible_cells(&negative_cells, rows_to_skip, rows_to_take);
    let negative_filtered = &negative_cells[from..to];

    assert_eq!(positive_filtered.len(), 12);
    assert_eq!(negative_filtered.len(), 12);

    assert_eq!(positive_filtered.first().unwrap().point.line, 3);
    assert_eq!(positive_filtered.last().unwrap().point.line, 6);

    assert_eq!(negative_filtered.first().unwrap().point.line, -7);
    assert_eq!(negative_filtered.last().unwrap().point.line, -4);
}
