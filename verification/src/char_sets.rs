//! Glyph palettes: fixed, ordered lists of characters, the first one standing
//! for the strongest intensity and the last one for the weakest.

use vstd::prelude::*;

verus! {

/// The names of the built-in palettes.
#[derive(Clone, Copy, Debug, PartialEq, Eq)]
pub enum CharSet {
    Japanese,
    Korean,
    Block,
    Point,
    Chinese,
    MonoBlock,
}

/// The glyphs of each built-in palette, strongest first.
pub open spec fn glyphs(char_set: CharSet) -> Seq<char> {
    match char_set {
        CharSet::Japanese => seq![
            'あ', 'い', 'う', 'え', 'お', 'か', 'き', 'く', 'け', 'こ',
            'さ', 'し', 'す', 'せ', 'そ', 'た', 'ち', 'つ', 'て', 'と',
            'な', 'に', 'ぬ', 'ね', 'の', 'は', 'ひ', 'ふ', 'へ', 'ほ',
            'ま', 'み', 'む', 'め', 'も', 'や', 'ゆ', 'よ', 'ら', 'り',
            'る', 'れ', 'ろ', 'わ', 'を', 'ん', 'ア', 'イ', 'ウ', 'エ', 'オ',
            'カ', 'キ', 'ク', 'ケ', 'コ', 'サ', 'シ', 'ス', 'セ', 'ソ',
            'タ', 'チ', 'ツ', 'テ', 'ト', 'ナ', 'ニ', 'ヌ', 'ネ', 'ノ',
            'ハ', 'ヒ', 'フ', 'ヘ', 'ホ', 'マ', 'ミ', 'ム', 'メ', 'モ',
            'ヤ', 'ユ', 'ヨ', 'ラ', 'リ', 'ル', 'レ', 'ロ', 'ワ', 'ヲ', 'ン'
        ],
        CharSet::Korean => seq![
            '가', '나', '다', '라', '마', '바', '사', '아', '자', '차',
            '카', '타', '파', '하', '거', '너', '더', '러', '머', '버',
            '서', '어', '저', '처', '커', '터', '퍼', '허', '길', '난',
            '다', '라', '마', '바', '사', '아', '자', '차', '카', '타'
        ],
        CharSet::Block => seq![
            '░', '▒', '▓', '█', '▒', '░', '▓', '█', '░', '▒',
            '▓', '█', '░', '▒', '▓', '█', '▒', '░', '▓',
            '█', '▒', '░', '░', '▒', '▓', '█', '▒', '░', '▓'
        ],
        CharSet::Point => seq!['.', ' '],
        CharSet::Chinese => seq![
            '中', '国', '文', '字', '汉', '字', '你', '好', '我', '们', '学', '习', '程', '序',
            '编', '程'
        ],
        CharSet::MonoBlock => seq!['█', ' '],
    }
}

/// The active palette of a renderer.
pub struct CharSets {
    pub ascii_chars: Vec<char>,
}

/// Where a red-channel value falls in a palette of `size` glyphs: the value
/// scaled linearly from 0..=255 onto 0..=size-1, rounded down.
pub open spec fn glyph_index(red: u8, size: int) -> int {
    (red as int) * (size - 1) / 255
}

/// Whether the luminosity of a pixel, (0.299 R + 0.587 G + 0.114 B) / 255,
/// is above 0.8. Stated over integers: both sides are scaled by 255000.
pub open spec fn is_bright(r: u8, g: u8, b: u8) -> bool {
    299 * (r as int) + 587 * (g as int) + 114 * (b as int) > 204000
}

/// The glyph that stands for a pixel: a blank for a bright pixel where the
/// palette has one, otherwise the glyph that the red channel selects.
pub open spec fn glyph_for(palette: Seq<char>, r: u8, g: u8, b: u8) -> char {
    if palette.contains(' ') && is_bright(r, g, b) {
        ' '
    } else {
        palette[glyph_index(r, palette.len() as int)]
    }
}

/// The red channel always selects a glyph inside a non-empty palette.
pub proof fn lemma_glyph_index_in_range(red: u8, size: int)
    requires
        size > 0,
    ensures
        0 <= glyph_index(red, size) < size,
        red == 0 ==> glyph_index(red, size) == 0,
        red == 255 ==> glyph_index(red, size) == size - 1,
{
    let r = red as int;
    assert(0 <= r * (size - 1) <= 255 * (size - 1)) by (nonlinear_arith)
        requires
            0 <= r <= 255,
            size >= 1,
    ;
    assert(r * (size - 1) / 255 <= size - 1) by (nonlinear_arith)
        requires
            0 <= r * (size - 1) <= 255 * (size - 1),
    ;
    if red == 0 {
        assert(r * (size - 1) == 0) by (nonlinear_arith)
            requires
                r == 0,
        ;
    }
    if red == 255 {
        assert(255 * (size - 1) / 255 == size - 1) by (nonlinear_arith);
    }
}

/// Every built-in palette has at least one glyph.
pub proof fn lemma_glyphs_nonempty(char_set: CharSet)
    ensures
        glyphs(char_set).len() > 0,
{
}

/// A pure-white pixel is drawn as a blank by every palette that holds a
/// blank, wherever in the palette the blank stands.
pub proof fn lemma_white_is_blank(palette: Seq<char>)
    requires
        palette.contains(' '),
    ensures
        glyph_for(palette, 255, 255, 255) == ' ',
{
}

impl CharSets {
    /// A palette is selected when it holds at least one glyph.
    pub open spec fn is_selected(&self) -> bool {
        self.ascii_chars@.len() > 0
    }

    /// The two-glyph point palette; `set_charset` selects another.
    pub fn new() -> (sets: Self)
        ensures
            sets.ascii_chars@ == glyphs(CharSet::Point),
            sets.is_selected(),
    {
        let ascii_chars: Vec<char> = vec!['.', ' '];
        assert(ascii_chars@ =~= glyphs(CharSet::Point));
        CharSets { ascii_chars }
    }

    /// Replaces the active palette by the named built-in one.
    pub fn set_charset(&mut self, char_set: CharSet)
        ensures
            final(self).ascii_chars@ == glyphs(char_set),
            final(self).is_selected(),
    {
        self.ascii_chars = match char_set {
            CharSet::Japanese => vec![
                'あ', 'い', 'う', 'え', 'お', 'か', 'き', 'く', 'け', 'こ',
                'さ', 'し', 'す', 'せ', 'そ', 'た', 'ち', 'つ', 'て', 'と',
                'な', 'に', 'ぬ', 'ね', 'の', 'は', 'ひ', 'ふ', 'へ', 'ほ',
                'ま', 'み', 'む', 'め', 'も', 'や', 'ゆ', 'よ', 'ら', 'り',
                'る', 'れ', 'ろ', 'わ', 'を', 'ん', 'ア', 'イ', 'ウ', 'エ', 'オ',
                'カ', 'キ', 'ク', 'ケ', 'コ', 'サ', 'シ', 'ス', 'セ', 'ソ',
                'タ', 'チ', 'ツ', 'テ', 'ト', 'ナ', 'ニ', 'ヌ', 'ネ', 'ノ',
                'ハ', 'ヒ', 'フ', 'ヘ', 'ホ', 'マ', 'ミ', 'ム', 'メ', 'モ',
                'ヤ', 'ユ', 'ヨ', 'ラ', 'リ', 'ル', 'レ', 'ロ', 'ワ', 'ヲ', 'ン'
            ],
            CharSet::Korean => vec![
                '가', '나', '다', '라', '마', '바', '사', '아', '자', '차',
                '카', '타', '파', '하', '거', '너', '더', '러', '머', '버',
                '서', '어', '저', '처', '커', '터', '퍼', '허', '길', '난',
                '다', '라', '마', '바', '사', '아', '자', '차', '카', '타'
            ],
            CharSet::Block => vec![
                '░', '▒', '▓', '█', '▒', '░', '▓', '█', '░', '▒',
                '▓', '█', '░', '▒', '▓', '█', '▒', '░', '▓',
                '█', '▒', '░', '░', '▒', '▓', '█', '▒', '░', '▓'
            ],
            CharSet::Point => vec!['.', ' '],
            CharSet::Chinese => vec![
                '中', '国', '文', '字', '汉', '字', '你', '好', '我', '们', '学', '习', '程', '序',
                '编', '程'
            ],
            CharSet::MonoBlock => vec!['█', ' '],
        };
        assert(self.ascii_chars@ =~= glyphs(char_set));
    }

    /// Whether the palette holds the blank glyph.
    pub fn contains_space(&self) -> (found: bool)
        ensures
            found == self.ascii_chars@.contains(' '),
    {
        let mut i: usize = 0;
        while i < self.ascii_chars.len()
            invariant
                i <= self.ascii_chars@.len(),
                forall|j: int| 0 <= j < i ==> self.ascii_chars@[j] != ' ',
            decreases self.ascii_chars@.len() - i,
        {
            if self.ascii_chars[i] == ' ' {
                return true;
            }
            i += 1;
        }
        false
    }

    /// The glyph at the place where `pixel_value` falls in the palette.
    pub fn pixel_to_ascii(&self, pixel_value: u8) -> (glyph: char)
        requires
            self.is_selected(),
        ensures
            glyph == self.ascii_chars@[glyph_index(pixel_value, self.ascii_chars@.len() as int)],
    {
        let size: usize = self.ascii_chars.len();
        proof {
            lemma_glyph_index_in_range(pixel_value, size as int);
        }
        let scaled: u128 = (pixel_value as u128) * ((size - 1) as u128);
        let index: usize = (scaled / 255) as usize;
        self.ascii_chars[index]
    }

    /// The glyph of a pixel: the blank for a bright pixel where the palette
    /// has one, the glyph that the red channel selects otherwise.
    pub fn glyph_of_pixel(&self, r: u8, g: u8, b: u8) -> (glyph: char)
        requires
            self.is_selected(),
        ensures
            glyph == glyph_for(self.ascii_chars@, r, g, b),
    {
        let has_space: bool = self.contains_space();
        self.glyph_given_blank(has_space, r, g, b)
    }

    /// The glyph of a pixel, for a caller that has already looked for the
    /// blank, so that the palette is searched once for a whole image.
    pub(crate) fn glyph_given_blank(&self, has_space: bool, r: u8, g: u8, b: u8) -> (glyph: char)
        requires
            self.is_selected(),
            has_space == self.ascii_chars@.contains(' '),
        ensures
            glyph == glyph_for(self.ascii_chars@, r, g, b),
    {
        let weighted: u32 = 299 * (r as u32) + 587 * (g as u32) + 114 * (b as u32);
        if has_space && weighted > 204000 {
            ' '
        } else {
            self.pixel_to_ascii(r)
        }
    }
}

} // verus!
