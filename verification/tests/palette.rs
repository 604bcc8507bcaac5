use ascii_art::char_sets::{CharSet, CharSets};

fn selected(set: CharSet) -> CharSets {
    let mut sets = CharSets::new();
    sets.set_charset(set);
    sets
}

#[test]
fn new_palette_is_the_point_palette() {
    assert_eq!(CharSets::new().ascii_chars, vec!['.', ' ']);
    assert!(!CharSets::new().ascii_chars.is_empty());
}

#[test]
fn point_palette_is_dot_then_blank() {
    assert_eq!(selected(CharSet::Point).ascii_chars, vec!['.', ' ']);
}

#[test]
fn mono_block_palette_is_block_then_blank() {
    assert_eq!(selected(CharSet::MonoBlock).ascii_chars, vec!['█', ' ']);
}

#[test]
fn palette_sizes() {
    assert_eq!(selected(CharSet::Japanese).ascii_chars.len(), 92);
    assert_eq!(selected(CharSet::Korean).ascii_chars.len(), 40);
    assert_eq!(selected(CharSet::Block).ascii_chars.len(), 29);
    assert_eq!(selected(CharSet::Chinese).ascii_chars.len(), 16);
}

#[test]
fn palette_ends() {
    let japanese = selected(CharSet::Japanese).ascii_chars;
    assert_eq!(japanese[0], 'あ');
    assert_eq!(japanese[91], 'ン');
    let korean = selected(CharSet::Korean).ascii_chars;
    assert_eq!(korean[0], '가');
    assert_eq!(korean[39], '타');
    let block = selected(CharSet::Block).ascii_chars;
    assert_eq!(block[0], '░');
    assert_eq!(block[28], '▓');
    let chinese = selected(CharSet::Chinese).ascii_chars;
    assert_eq!(chinese[0], '中');
    assert_eq!(chinese[15], '程');
}

#[test]
fn selecting_replaces_the_palette() {
    let mut sets = selected(CharSet::Japanese);
    sets.set_charset(CharSet::Point);
    assert_eq!(sets.ascii_chars, vec!['.', ' ']);
}

#[test]
fn contains_space_only_where_there_is_one() {
    assert!(selected(CharSet::Point).contains_space());
    assert!(selected(CharSet::MonoBlock).contains_space());
    assert!(!selected(CharSet::Chinese).contains_space());
    assert!(!selected(CharSet::Block).contains_space());
    assert!(CharSets::new().contains_space());
    assert!(!CharSets { ascii_chars: Vec::new() }.contains_space());
}

#[test]
fn point_palette_quantization() {
    let sets = selected(CharSet::Point);
    assert_eq!(sets.pixel_to_ascii(0), '.');
    assert_eq!(sets.pixel_to_ascii(254), '.');
    assert_eq!(sets.pixel_to_ascii(255), ' ');
    assert_eq!(sets.glyph_of_pixel(0, 0, 0), '.');
    assert_eq!(sets.glyph_of_pixel(255, 255, 255), ' ');
    assert_eq!(sets.glyph_of_pixel(255, 0, 0), ' ');
}

#[test]
fn red_channel_selects_the_glyph() {
    let sets = selected(CharSet::Chinese);
    assert_eq!(sets.pixel_to_ascii(0), '中');
    assert_eq!(sets.pixel_to_ascii(16), '中');
    assert_eq!(sets.pixel_to_ascii(17), '国');
    assert_eq!(sets.pixel_to_ascii(128), '好');
    assert_eq!(sets.pixel_to_ascii(255), '程');
    // green and blue play no part without a blank in the palette
    assert_eq!(sets.glyph_of_pixel(17, 255, 255), '国');
}

#[test]
fn white_is_blank_wherever_the_blank_stands() {
    let front = CharSets { ascii_chars: vec![' ', '#', '@'] };
    assert_eq!(front.glyph_of_pixel(255, 255, 255), ' ');
    let middle = CharSets { ascii_chars: vec!['#', ' ', '@'] };
    assert_eq!(middle.glyph_of_pixel(255, 255, 255), ' ');
    let none = CharSets { ascii_chars: vec!['#', '@'] };
    assert_eq!(none.glyph_of_pixel(255, 255, 255), '@');
}

#[test]
fn brightness_threshold_is_strict() {
    let sets = CharSets { ascii_chars: vec![' ', '#'] };
    // luminosity exactly 0.8: not bright, so the red channel decides
    assert_eq!(sets.glyph_of_pixel(204, 204, 204), ' ');
    let other = CharSets { ascii_chars: vec!['#', '@', ' '] };
    assert_eq!(other.glyph_of_pixel(204, 204, 204), '@');
    assert_eq!(other.glyph_of_pixel(205, 205, 205), ' ');
    // a bright pixel with little red still takes the blank
    assert_eq!(other.glyph_of_pixel(100, 255, 255), ' ');
    // a dim pixel with full red takes the last glyph
    assert_eq!(other.glyph_of_pixel(255, 0, 0), ' ');
    assert_eq!(other.glyph_of_pixel(254, 0, 0), '@');
}
