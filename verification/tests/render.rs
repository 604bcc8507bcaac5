use ascii_art::ascii_art::{
    can_resize, cells_of_pixels, compose_text, join_pieces, paint_cells, target_dimensions,
    AsciiArtGenerator, Cell, RenderError,
};
use ascii_art::char_sets::{CharSet, CharSets};
use ascii_art::filter_type::FilterType;
use ascii_art::image_data::{Color, Image};

fn gray_image(width: u32, height: u32, levels: &[u8]) -> Image {
    let mut data = Vec::new();
    for level in levels {
        data.push(*level);
        data.push(*level);
        data.push(*level);
    }
    Image::from_raw(width, height, data).unwrap()
}

fn glyphs_of(rows: &Vec<Vec<Cell>>) -> Vec<String> {
    rows.iter().map(|row| row.iter().map(|c| c.glyph).collect()).collect()
}

#[test]
fn wide_image_takes_the_full_width() {
    assert_eq!(target_dimensions(200, 100, 100, 100), (100, 50));
}

#[test]
fn tall_image_takes_the_full_height() {
    assert_eq!(target_dimensions(100, 200, 100, 100), (50, 100));
}

#[test]
fn square_image_takes_the_height_limit() {
    assert_eq!(target_dimensions(10, 10, 7, 3), (3, 3));
}

#[test]
fn target_may_exceed_the_other_limit() {
    // wide: the height follows the width limit, whatever the height limit
    assert_eq!(target_dimensions(101, 100, 200, 10), (200, 198));
    // tall: the width follows the height limit
    assert_eq!(target_dimensions(100, 101, 10, 200), (198, 200));
}

#[test]
fn target_rounds_halves_up() {
    // 3 * 1 / 2 = 1.5
    assert_eq!(target_dimensions(2, 1, 3, 0), (3, 2));
    // 1 * 1 / 3 = 0.33
    assert_eq!(target_dimensions(3, 1, 1, 9), (1, 0));
    // 4 * 2 / 3 = 2.67
    assert_eq!(target_dimensions(2, 3, 9, 4), (3, 4));
    assert_eq!(target_dimensions(5, 5, 0, 0), (0, 0));
}

#[test]
fn target_at_the_largest_sizes() {
    let top = u32::MAX;
    assert_eq!(target_dimensions(top, top, top, top), (top, top));
    assert_eq!(target_dimensions(top, 1, top, top), (top, 1));
    assert_eq!(target_dimensions(1, top, top, top), (1, top));
}

#[test]
fn small_images_fit_and_absurd_ones_do_not() {
    assert!(can_resize(200, 100, 100, 100));
    assert!(!can_resize(u32::MAX, u32::MAX, u32::MAX, u32::MAX));
}

#[test]
fn render_without_image_fails() {
    let generator = AsciiArtGenerator::new();
    assert!(!generator.can_render(10, 10));
    assert_eq!(generator.generate_ascii_art(10, 10, None), Err(RenderError::NoImageLoaded));
    assert_eq!(
        generator.generate_ascii_art(10, 10, Some(FilterType::Sobel)),
        Err(RenderError::NoImageLoaded)
    );
    assert_eq!(generator.generate_cells(10, 10, None), Err(RenderError::NoImageLoaded));
}

#[test]
fn error_message() {
    assert_eq!(RenderError::NoImageLoaded.message(), "No image loaded.");
}

#[test]
fn cells_follow_the_pixels() {
    let mut sets = CharSets::new();
    sets.set_charset(CharSet::Point);
    let data = vec![0, 0, 0, 255, 255, 255, 255, 0, 0, 10, 255, 255];
    let rows = cells_of_pixels(&data, 2, 2, &sets, false);
    assert_eq!(glyphs_of(&rows), vec![". ", " ."]);
    assert!(rows.iter().all(|row| row.iter().all(|c| c.color.is_none())));
    let colored = cells_of_pixels(&data, 2, 2, &sets, true);
    assert_eq!(glyphs_of(&colored), vec![". ", " ."]);
    assert_eq!(colored[0][0].color, Some(Color { r: 0, g: 0, b: 0 }));
    assert_eq!(colored[1][0].color, Some(Color { r: 255, g: 0, b: 0 }));
    assert_eq!(colored[1][1].color, Some(Color { r: 10, g: 255, b: 255 }));
}

#[test]
fn cells_of_an_empty_grid() {
    let mut sets = CharSets::new();
    sets.set_charset(CharSet::Point);
    assert!(cells_of_pixels(&Vec::new(), 0, 0, &sets, false).is_empty());
    assert!(cells_of_pixels(&Vec::new(), 3, 0, &sets, false).is_empty());
    let rows = cells_of_pixels(&Vec::new(), 0, 2, &sets, false);
    assert_eq!(rows.len(), 2);
    assert!(rows[0].is_empty());
}

#[test]
fn text_has_a_newline_after_each_row() {
    let a = Cell { glyph: 'a', color: None };
    let b = Cell { glyph: 'b', color: None };
    assert_eq!(compose_text(&vec![vec![a, b], vec![b, a]]), "ab\nba\n");
    assert_eq!(compose_text(&vec![vec![], vec![a]]), "\na\n");
    assert_eq!(compose_text(&Vec::new()), "");
}

#[test]
fn painted_text_keeps_glyphs_and_newlines() {
    let red = Cell { glyph: 'x', color: Some(Color { r: 255, g: 0, b: 0 }) };
    let text = compose_text(&vec![vec![red], vec![red]]);
    assert_eq!(text.matches('x').count(), 2);
    assert_eq!(text.matches('\n').count(), 2);
    assert!(text.ends_with('\n'));
}

fn is_painted(glyph: char, piece: &str) -> bool {
    if piece == glyph.to_string() {
        return true;
    }
    let tail = format!("m{}\u{1b}[0m", glyph);
    match piece.strip_prefix("\u{1b}[").and_then(|rest| rest.strip_suffix(tail.as_str())) {
        Some(code) => code.chars().all(|c| c == ';' || c.is_ascii_digit()),
        None => false,
    }
}

#[test]
fn pieces_are_glyphs_alone_or_wrapped_in_escapes() {
    let plain = Cell { glyph: 'a', color: None };
    let red = Cell { glyph: 'x', color: Some(Color { r: 255, g: 0, b: 0 }) };
    let gray = Cell { glyph: '█', color: Some(Color { r: 12, g: 120, b: 7 }) };
    let pieces = paint_cells(&vec![vec![plain, red], vec![], vec![gray]]);
    assert_eq!(pieces.len(), 3);
    assert_eq!(pieces[0].len(), 2);
    assert!(pieces[1].is_empty());
    assert_eq!(pieces[2].len(), 1);
    assert_eq!(pieces[0][0], "a");
    assert!(is_painted('x', &pieces[0][1]));
    assert!(is_painted('█', &pieces[2][0]));
    assert!(!pieces[0][1].contains('\n'));
}

#[test]
fn pieces_are_joined_row_by_row() {
    let pieces = vec![
        vec![String::from("ab"), String::new(), String::from("c")],
        Vec::new(),
        vec![String::from("\u{1b}[31mx\u{1b}[0m")],
    ];
    assert_eq!(join_pieces(&pieces), "abc\n\n\u{1b}[31mx\u{1b}[0m\n");
    assert_eq!(join_pieces(&Vec::new()), "");
}

#[test]
fn painted_text_is_the_joined_pieces() {
    let red = Cell { glyph: 'x', color: Some(Color { r: 255, g: 0, b: 0 }) };
    let plain = Cell { glyph: 'y', color: None };
    let rows = vec![vec![red, plain], vec![plain]];
    assert_eq!(compose_text(&rows), join_pieces(&paint_cells(&rows)));
    let text = compose_text(&rows);
    let lines: Vec<&str> = text.split_terminator('\n').collect();
    assert_eq!(lines.len(), 2);
    assert!(lines[0].ends_with('y'));
    assert!(is_painted('x', lines[0].strip_suffix('y').unwrap()));
    assert_eq!(lines[1], "y");
}

#[test]
fn render_keeps_an_image_of_the_target_size() {
    let mut generator = AsciiArtGenerator::new();
    generator.load_image(gray_image(2, 2, &[0, 255, 255, 0]));
    assert!(generator.can_render(2, 2));
    assert_eq!(generator.generate_ascii_art(2, 2, None), Ok(String::from(". \n .\n")));
}

#[test]
fn render_picks_the_nearest_pixels() {
    let mut generator = AsciiArtGenerator::new();
    generator.set_charset(CharSet::Chinese);
    generator.enable_colors();
    // 4 x 2 to 2 x 1: the pixels under the centres of the two target cells
    generator.load_image(gray_image(4, 2, &[0, 17, 34, 51, 68, 85, 102, 119]));
    let rows = generator.generate_cells(2, 2, None).unwrap();
    assert_eq!(rows.len(), 1);
    assert_eq!(rows[0].len(), 2);
    assert_eq!(rows[0][0], Cell { glyph: '字', color: Some(Color { r: 85, g: 85, b: 85 }) });
    assert_eq!(rows[0][1], Cell { glyph: '好', color: Some(Color { r: 119, g: 119, b: 119 }) });
}

#[test]
fn render_enlarges_by_repeating_pixels() {
    let mut generator = AsciiArtGenerator::new();
    generator.load_image(gray_image(1, 2, &[0, 255]));
    assert_eq!(generator.generate_ascii_art(9, 4, None), Ok(String::from("..\n..\n  \n  \n")));
}

#[test]
fn render_dimensions_match_the_target() {
    let mut generator = AsciiArtGenerator::new();
    generator.load_image(gray_image(5, 3, &[7; 15]));
    let (width, height) = target_dimensions(5, 3, 4, 4);
    assert_eq!((width, height), (4, 2));
    let rows = generator.generate_cells(4, 4, None).unwrap();
    assert_eq!(rows.len(), 2);
    assert!(rows.iter().all(|row| row.len() == 4));
    let text = generator.generate_ascii_art(4, 4, None).unwrap();
    let lines: Vec<&str> = text.split_terminator('\n').collect();
    assert_eq!(lines.len(), 2);
    assert!(lines.iter().all(|line| line.chars().count() == 4));
    let filtered = generator.generate_cells(4, 4, Some(FilterType::Fourier)).unwrap();
    assert_eq!(filtered.len(), 2);
    assert!(filtered.iter().all(|row| row.len() == 4));
}

#[test]
fn render_with_zero_limits_is_empty() {
    let mut generator = AsciiArtGenerator::new();
    generator.load_image(gray_image(2, 1, &[0, 255]));
    assert_eq!(generator.generate_ascii_art(0, 5, None), Ok(String::new()));
    generator.load_image(gray_image(1, 1, &[0]));
    assert_eq!(generator.generate_ascii_art(5, 0, None), Ok(String::new()));
}

#[test]
fn render_twice_gives_the_same() {
    let mut generator = AsciiArtGenerator::new();
    generator.set_charset(CharSet::Japanese);
    generator.load_image(gray_image(3, 2, &[0, 50, 100, 150, 200, 250]));
    let first = generator.generate_ascii_art(6, 6, Some(FilterType::Sobel));
    let second = generator.generate_ascii_art(6, 6, Some(FilterType::Sobel));
    assert!(first.is_ok());
    assert_eq!(first, second);
    assert_eq!(generator.generate_cells(6, 6, None), generator.generate_cells(6, 6, None));
}

#[test]
fn render_after_filter_uses_the_filtered_levels() {
    let mut generator = AsciiArtGenerator::new();
    generator.set_charset(CharSet::MonoBlock);
    generator.load_image(gray_image(1, 1, &[100]));
    // unfiltered: red 100 falls on the first glyph
    assert_eq!(generator.generate_ascii_art(1, 1, None), Ok(String::from("█\n")));
    // sharpened: 5 * 100 clamps to white
    assert_eq!(
        generator.generate_ascii_art(1, 1, Some(FilterType::Fourier)),
        Ok(String::from(" \n"))
    );
    // edges: a single pixel has no gradient
    assert_eq!(
        generator.generate_ascii_art(1, 1, Some(FilterType::Sobel)),
        Ok(String::from("█\n"))
    );
}

#[test]
fn colours_can_be_switched_on_and_off() {
    let mut generator = AsciiArtGenerator::new();
    generator.load_image(Image::from_raw(1, 1, vec![1, 2, 3]).unwrap());
    let plain = generator.generate_cells(1, 1, None).unwrap();
    assert_eq!(plain, vec![vec![Cell { glyph: '.', color: None }]]);
    generator.enable_colors();
    let colored = generator.generate_cells(1, 1, None).unwrap();
    assert_eq!(colored, vec![vec![Cell { glyph: '.', color: Some(Color { r: 1, g: 2, b: 3 }) }]]);
    generator.disable_colors();
    assert_eq!(generator.generate_cells(1, 1, None).unwrap(), plain);
}

#[test]
fn loading_replaces_the_image() {
    let mut generator = AsciiArtGenerator::new();
    generator.load_image(gray_image(1, 1, &[0]));
    generator.load_image(gray_image(1, 1, &[255]));
    assert_eq!(generator.generate_ascii_art(1, 1, None), Ok(String::from(" \n")));
}
