//! The renderer: filter, resize, and map each pixel onto a glyph.

use crate::char_sets::{glyph_for, glyphs, lemma_glyph_index_in_range, CharSet, CharSets};
use crate::filter_type::{filtered, FilterType};
use crate::image_data::{lemma_cell_in_grid, pixel_of, Color, Image};
use vstd::prelude::*;
use vstd::string::*;

verus! {

/// Why a rendering produced nothing.
#[derive(Clone, Copy, Debug, PartialEq, Eq)]
pub enum RenderError {
    /// Rendering was asked for before an image was supplied.
    NoImageLoaded,
}

/// One cell of the rendered output: a glyph and, where colours are enabled,
/// the colour of the pixel it stands for.
#[derive(Clone, Copy, Debug, PartialEq, Eq)]
pub struct Cell {
    pub glyph: char,
    pub color: Option<Color>,
}

/// Turns images into rows of glyphs.
pub struct AsciiArtGenerator {
    img: Option<Image>,
    char_sets: CharSets,
    use_colors: bool,
}

/// `a / b` rounded to the nearest whole number, halves upwards.
pub open spec fn rounded_div(a: int, b: int) -> int {
    (2 * a + b) / (2 * b)
}

/// The output dimensions `(width, height)` for an image of the given size:
/// a wide image takes the full `max_width` and a height in proportion; any
/// other image takes the full `max_height` and a width in proportion.
pub open spec fn target_size(width: u32, height: u32, max_width: u32, max_height: u32) -> (
    int,
    int,
) {
    if width > height {
        (max_width as int, rounded_div(max_width * height, width as int))
    } else {
        (rounded_div(max_height * width, height as int), max_height as int)
    }
}

/// Whether the buffers that resizing allocates can exist on this machine:
/// an intermediate one of four 4-byte samples per pixel, as wide as the
/// source and as high as the target, and the resized image itself.
pub open spec fn fits_memory(width: u32, height: u32, max_width: u32, max_height: u32) -> bool {
    let (w, h) = target_size(width, height, max_width, max_height);
    &&& 16 * (width * h) <= isize::MAX
    &&& 3 * (w * h) <= isize::MAX
}

/// The bytes of a `width` by `height` RGB image after
/// `image::imageops::resize` with the nearest-neighbour filter has brought it
/// to `new_width` by `new_height`.
pub uninterp spec fn nearest_resized(
    data: Seq<u8>,
    width: u32,
    height: u32,
    new_width: u32,
    new_height: u32,
) -> Seq<u8>;

/// The cell that stands for one pixel.
pub open spec fn cell_of(palette: Seq<char>, colors: bool, pixel: Color) -> Cell {
    Cell {
        glyph: glyph_for(palette, pixel.r, pixel.g, pixel.b),
        color: if colors {
            Some(pixel)
        } else {
            None
        },
    }
}

/// The cells of a `width` by `height` RGB buffer, one row of cells per row
/// of pixels.
pub open spec fn cells_of(
    data: Seq<u8>,
    width: int,
    height: int,
    palette: Seq<char>,
    colors: bool,
) -> Seq<Seq<Cell>> {
    Seq::new(
        height as nat,
        |y: int|
            Seq::new(width as nat, |x: int| cell_of(palette, colors, pixel_of(data, width, x, y))),
    )
}

/// Rows of cells as mathematical sequences.
pub open spec fn rows_view(rows: Seq<Vec<Cell>>) -> Seq<Seq<Cell>> {
    Seq::new(rows.len(), |y: int| rows[y]@)
}

/// The bytes that are resized: those of the filtered image where a filter is
/// chosen, those of the image itself otherwise.
pub open spec fn working_bytes(img: Image, filter: Option<FilterType>) -> Seq<u8> {
    match filter {
        Some(f) => filtered(f, img),
        None => img.data@,
    }
}

/// The rendered cells of an image under a configuration.
pub open spec fn rendered(
    img: Image,
    palette: Seq<char>,
    colors: bool,
    max_width: u32,
    max_height: u32,
    filter: Option<FilterType>,
) -> Seq<Seq<Cell>> {
    let (w, h) = target_size(img.width, img.height, max_width, max_height);
    cells_of(
        nearest_resized(working_bytes(img, filter), img.width, img.height, w as u32, h as u32),
        w,
        h,
        palette,
        colors,
    )
}

/// Whether the target dimensions of an image are its own, so that resizing
/// leaves it as it is.
pub open spec fn keeps_size(img: Image, max_width: u32, max_height: u32) -> bool {
    target_size(img.width, img.height, max_width, max_height) == (
        img.width as int,
        img.height as int,
    )
}

/// The glyphs of the first `n` cells of a row.
pub open spec fn row_glyphs(row: Seq<Cell>, n: int) -> Seq<char> {
    Seq::new(n as nat, |x: int| row[x].glyph)
}

/// The text of the first `n` rows: the glyphs of each row, then a newline.
pub open spec fn text_upto(rows: Seq<Seq<Cell>>, n: nat) -> Seq<char>
    decreases n,
{
    if n == 0 {
        Seq::empty()
    } else {
        text_upto(rows, (n - 1) as nat) + row_glyphs(rows[n - 1], rows[n - 1].len() as int).push(
            '\n',
        )
    }
}

/// The text of all rows.
pub open spec fn text_of(rows: Seq<Seq<Cell>>) -> Seq<char> {
    text_upto(rows, rows.len())
}

/// The pieces of one row of text, joined in order.
pub open spec fn row_joined(pieces: Seq<Seq<char>>) -> Seq<char>
    decreases pieces.len(),
{
    if pieces.len() == 0 {
        Seq::empty()
    } else {
        row_joined(pieces.drop_last()) + pieces.last()
    }
}

/// The pieces of all rows, joined in order, with a newline after each row.
pub open spec fn joined(pieces: Seq<Seq<Seq<char>>>) -> Seq<char>
    decreases pieces.len(),
{
    if pieces.len() == 0 {
        Seq::empty()
    } else {
        joined(pieces.drop_last()) + row_joined(pieces.last()).push('\n')
    }
}

/// Whether `c` can stand in the code of an escape sequence: a digit or a
/// semicolon.
pub open spec fn is_code_char(c: char) -> bool {
    c == ';' || c == '0' || c == '1' || c == '2' || c == '3' || c == '4' || c == '5' || c == '6'
        || c == '7' || c == '8' || c == '9'
}

/// The escape sequence that switches to the style with the given code.
pub open spec fn style_escape(code: Seq<char>) -> Seq<char> {
    seq!['\x1b', '['] + code + seq!['m']
}

/// The escape sequence that switches back to the plain style.
pub open spec fn reset_escape() -> Seq<char> {
    seq!['\x1b', '[', '0', 'm']
}

/// Whether `piece` is the glyph wrapped in the escape sequences of the style
/// with the given code.
pub open spec fn is_styled(glyph: char, code: Seq<char>, piece: Seq<char>) -> bool {
    &&& forall|i: int| 0 <= i < code.len() ==> is_code_char(#[trigger] code[i])
    &&& piece == style_escape(code) + seq![glyph] + reset_escape()
}

/// Whether `piece` is a painted glyph: the glyph alone, where the terminal
/// takes no colours, or one escape sequence, the glyph, and the reset
/// sequence.
pub open spec fn is_painted(glyph: char, piece: Seq<char>) -> bool {
    piece == seq![glyph] || exists|code: Seq<char>| #[trigger] is_styled(glyph, code, piece)
}

/// Whether `pieces` has one piece of text for each cell of `rows`: the
/// glyph alone for a cell without a colour, the painted glyph for a cell
/// with one.
pub open spec fn pieces_fit(rows: Seq<Seq<Cell>>, pieces: Seq<Seq<Seq<char>>>) -> bool {
    &&& pieces.len() == rows.len()
    &&& forall|y: int| 0 <= y < rows.len() ==> (#[trigger] pieces[y]).len() == rows[y].len()
    &&& forall|y: int, x: int|
        0 <= y < rows.len() && 0 <= x < rows[y].len() ==> piece_fits(
            rows[y][x],
            #[trigger] pieces[y][x],
        )
}

/// Whether `piece` is the text of `cell`.
pub open spec fn piece_fits(cell: Cell, piece: Seq<char>) -> bool {
    if cell.color.is_none() {
        piece == seq![cell.glyph]
    } else {
        is_painted(cell.glyph, piece)
    }
}

/// Pieces of text as mathematical sequences.
pub open spec fn pieces_view(pieces: Seq<Vec<String>>) -> Seq<Seq<Seq<char>>> {
    Seq::new(pieces.len(), |y: int| Seq::new(pieces[y]@.len(), |x: int| pieces[y]@[x]@))
}

/// Whether no cell carries a colour.
pub open spec fn is_plain(rows: Seq<Seq<Cell>>) -> bool {
    forall|y: int, x: int|
        0 <= y < rows.len() && 0 <= x < rows[y].len() ==> (#[trigger] rows[y][x]).color.is_none()
}

/// The rendered output has as many rows as the target height, and each row
/// as many cells as the target width.
pub proof fn lemma_rendered_dimensions(
    img: Image,
    palette: Seq<char>,
    colors: bool,
    max_width: u32,
    max_height: u32,
    filter: Option<FilterType>,
)
    requires
        img.wf(),
    ensures
        rendered(img, palette, colors, max_width, max_height, filter).len() == target_size(
            img.width,
            img.height,
            max_width,
            max_height,
        ).1,
        forall|y: int|
            0 <= y < rendered(img, palette, colors, max_width, max_height, filter).len() ==> (
            #[trigger] rendered(img, palette, colors, max_width, max_height, filter)[y]).len()
                == target_size(img.width, img.height, max_width, max_height).0,
{
    lemma_target_size_bounds(img.width, img.height, max_width, max_height);
}

/// Where the cell in column `x` of row `y` stands in the text of a grid of
/// `width` columns; with `x == width`, where the newline of row `y` stands.
pub open spec fn text_index(y: int, x: int, width: nat) -> int {
    y * (width + 1) + x
}

/// The places of row `y` in the text lie in the text of the first `n` rows,
/// and after the text of the rows before it.
proof fn lemma_text_index(y: int, x: int, width: nat, n: nat)
    requires
        0 <= y < n,
        0 <= x <= width,
    ensures
        0 <= text_index(y, x, width) < n * (width + 1),
        n * (width + 1) == (n - 1) * (width + 1) + (width + 1),
        y < n - 1 ==> text_index(y, x, width) < (n - 1) * (width + 1),
        y == n - 1 ==> text_index(y, x, width) - (n - 1) * (width + 1) == x,
{
    assert(0 <= y * (width + 1) && (y + 1) * (width + 1) <= n * (width + 1) && (y + 1) * (width
        + 1) == y * (width + 1) + width + 1) by (nonlinear_arith)
        requires
            0 <= y < n,
    ;
    assert(n * (width + 1) == (n - 1) * (width + 1) + (width + 1)) by (nonlinear_arith);
    if y < n - 1 {
        assert((y + 1) * (width + 1) <= (n - 1) * (width + 1)) by (nonlinear_arith)
            requires
                0 <= y < n - 1,
        ;
    }
}

/// The text of a grid of `width` columns gives each row `width + 1`
/// characters: the glyphs of its cells in order, then a newline.
pub proof fn lemma_text_layout(rows: Seq<Seq<Cell>>, width: nat, n: nat)
    requires
        n <= rows.len(),
        forall|y: int| 0 <= y < rows.len() ==> (#[trigger] rows[y]).len() == width,
    ensures
        text_upto(rows, n).len() == n * (width + 1),
        forall|y: int, x: int|
            0 <= y < n && 0 <= x < width ==> text_upto(rows, n)[#[trigger] text_index(y, x, width)]
                == rows[y][x].glyph,
        forall|y: int|
            0 <= y < n ==> text_upto(rows, n)[#[trigger] text_index(y, width as int, width)]
                == '\n',
    decreases n,
{
    if n > 0 {
        let before = text_upto(rows, (n - 1) as nat);
        let line = row_glyphs(rows[n - 1], width as int).push('\n');
        lemma_text_layout(rows, width, (n - 1) as nat);
        assert(text_upto(rows, n) == before + line);
        lemma_text_index(0, 0, width, n);
        assert forall|y: int, x: int| 0 <= y < n && 0 <= x < width implies text_upto(
            rows,
            n,
        )[#[trigger] text_index(y, x, width)] == rows[y][x].glyph by {
            lemma_text_index(y, x, width, n);
        }
        assert forall|y: int| 0 <= y < n implies text_upto(rows, n)[#[trigger] text_index(
            y,
            width as int,
            width,
        )] == '\n' by {
            lemma_text_index(y, width as int, width, n);
        }
    }
}

/// The rendered text gives each row one character per column of the target
/// width and a newline, for as many rows as the target height.
pub proof fn lemma_rendered_text_layout(
    img: Image,
    palette: Seq<char>,
    colors: bool,
    max_width: u32,
    max_height: u32,
    filter: Option<FilterType>,
)
    requires
        img.wf(),
    ensures
        ({
            let (w, h) = target_size(img.width, img.height, max_width, max_height);
            let rows = rendered(img, palette, colors, max_width, max_height, filter);
            let text = text_of(rows);
            &&& text.len() == h * (w + 1)
            &&& forall|y: int, x: int|
                0 <= y < h && 0 <= x < w ==> text[#[trigger] text_index(y, x, w as nat)]
                    == rows[y][x].glyph
            &&& forall|y: int| 0 <= y < h ==> text[#[trigger] text_index(y, w, w as nat)] == '\n'
        }),
{
    lemma_target_size_bounds(img.width, img.height, max_width, max_height);
    let (w, h) = target_size(img.width, img.height, max_width, max_height);
    let rows = rendered(img, palette, colors, max_width, max_height, filter);
    lemma_text_layout(rows, w as nat, h as nat);
}

/// Every rendered glyph is the blank or a glyph of the palette.
pub proof fn lemma_rendered_glyphs(
    img: Image,
    palette: Seq<char>,
    colors: bool,
    max_width: u32,
    max_height: u32,
    filter: Option<FilterType>,
)
    requires
        palette.len() > 0,
    ensures
        forall|y: int, x: int|
            0 <= y < rendered(img, palette, colors, max_width, max_height, filter).len() && 0 <= x
                < rendered(img, palette, colors, max_width, max_height, filter)[y].len() ==> {
                let glyph = (#[trigger] rendered(
                    img,
                    palette,
                    colors,
                    max_width,
                    max_height,
                    filter,
                )[y][x]).glyph;
                glyph == ' ' || palette.contains(glyph)
            },
{
    let rows = rendered(img, palette, colors, max_width, max_height, filter);
    assert forall|y: int, x: int| 0 <= y < rows.len() && 0 <= x < rows[y].len() implies {
        let glyph = (#[trigger] rows[y][x]).glyph;
        glyph == ' ' || palette.contains(glyph)
    } by {
        let (w, h) = target_size(img.width, img.height, max_width, max_height);
        let data = nearest_resized(
            working_bytes(img, filter),
            img.width,
            img.height,
            w as u32,
            h as u32,
        );
        let pixel = pixel_of(data, w, x, y);
        lemma_glyph_index_in_range(pixel.r, palette.len() as int);
    }
}

/// A pure-white pixel of the resized image is rendered as a blank by every
/// palette that holds a blank, wherever in the palette the blank stands.
pub proof fn lemma_rendered_white_is_blank(
    img: Image,
    palette: Seq<char>,
    colors: bool,
    max_width: u32,
    max_height: u32,
    filter: Option<FilterType>,
    x: int,
    y: int,
)
    requires
        palette.contains(' '),
        0 <= y < target_size(img.width, img.height, max_width, max_height).1,
        0 <= x < target_size(img.width, img.height, max_width, max_height).0,
        pixel_of(
            nearest_resized(
                working_bytes(img, filter),
                img.width,
                img.height,
                target_size(img.width, img.height, max_width, max_height).0 as u32,
                target_size(img.width, img.height, max_width, max_height).1 as u32,
            ),
            target_size(img.width, img.height, max_width, max_height).0,
            x,
            y,
        ) == (Color { r: 255, g: 255, b: 255 }),
    ensures
        rendered(img, palette, colors, max_width, max_height, filter)[y][x].glyph == ' ',
{
}

/// A piece of text holds a newline only where its glyph is one.
pub proof fn lemma_piece_has_no_newline(cell: Cell, piece: Seq<char>)
    requires
        piece_fits(cell, piece),
        cell.glyph != '\n',
    ensures
        !piece.contains('\n'),
{
    if piece != seq![cell.glyph] {
        let code = choose|code: Seq<char>| is_styled(cell.glyph, code, piece);
        assert(is_styled(cell.glyph, code, piece));
        assert forall|i: int| 0 <= i < piece.len() implies piece[i] != '\n' by {
            if 2 <= i < 2 + code.len() {
                assert(piece[i] == code[i - 2]);
                assert(is_code_char(code[i - 2]));
            }
        }
    }
}

/// The joined pieces of the first `n` cells of a row hold no newline where
/// no glyph of the row is one.
proof fn lemma_line_has_no_newline(row: Seq<Cell>, line: Seq<Seq<char>>, n: nat)
    requires
        n <= row.len(),
        line.len() == row.len(),
        forall|x: int| 0 <= x < row.len() ==> piece_fits(row[x], #[trigger] line[x]),
        forall|x: int| 0 <= x < row.len() ==> (#[trigger] row[x]).glyph != '\n',
    ensures
        !row_joined(line.take(n as int)).contains('\n'),
    decreases n,
{
    if n == 0 {
        assert(line.take(0) =~= Seq::<Seq<char>>::empty());
    } else {
        lemma_line_has_no_newline(row, line, (n - 1) as nat);
        lemma_piece_has_no_newline(row[n - 1], line[n - 1]);
        assert(line.take(n as int).drop_last() =~= line.take(n - 1));
        assert(line.take(n as int).last() == line[n - 1]);
        let before = row_joined(line.take(n - 1));
        let all = before + line[n - 1];
        assert forall|i: int| 0 <= i < all.len() implies all[i] != '\n' by {
            if i < before.len() {
                assert(before[i] == all[i]);
            } else {
                assert(line[n - 1][i - before.len()] == all[i]);
            }
        }
    }
}

/// The rendered text, with or without colours, is one line for each row of
/// the target height, each made of one piece for each column of the target
/// width and ended by a newline; a piece is its cell's glyph, alone or
/// between escape sequences. Where the palette holds no newline, no line
/// holds one before its end.
pub proof fn lemma_painted_layout(
    img: Image,
    palette: Seq<char>,
    colors: bool,
    max_width: u32,
    max_height: u32,
    filter: Option<FilterType>,
    pieces: Seq<Seq<Seq<char>>>,
)
    requires
        img.wf(),
        palette.len() > 0,
        pieces_fit(rendered(img, palette, colors, max_width, max_height, filter), pieces),
    ensures
        pieces.len() == target_size(img.width, img.height, max_width, max_height).1,
        forall|y: int|
            0 <= y < pieces.len() ==> (#[trigger] pieces[y]).len() == target_size(
                img.width,
                img.height,
                max_width,
                max_height,
            ).0,
        forall|y: int, x: int|
            0 <= y < pieces.len() && 0 <= x < pieces[y].len() ==> piece_fits(
                rendered(img, palette, colors, max_width, max_height, filter)[y][x],
                #[trigger] pieces[y][x],
            ),
        !palette.contains('\n') ==> forall|y: int|
            0 <= y < pieces.len() ==> !row_joined(#[trigger] pieces[y]).contains('\n'),
{
    let rows = rendered(img, palette, colors, max_width, max_height, filter);
    lemma_rendered_dimensions(img, palette, colors, max_width, max_height, filter);
    lemma_rendered_glyphs(img, palette, colors, max_width, max_height, filter);
    if !palette.contains('\n') {
        assert forall|y: int| 0 <= y < pieces.len() implies !row_joined(
            #[trigger] pieces[y],
        ).contains('\n') by {
            assert forall|x: int| 0 <= x < rows[y].len() implies (#[trigger] rows[y][x]).glyph
                != '\n' by {}
            lemma_line_has_no_newline(rows[y], pieces[y], rows[y].len());
            assert(pieces[y].take(rows[y].len() as int) =~= pieces[y]);
        }
    }
}

/// Neither target dimension exceeds the limit it was derived from.
pub proof fn lemma_target_size_bounds(width: u32, height: u32, max_width: u32, max_height: u32)
    requires
        width > 0,
        height > 0,
    ensures
        0 <= target_size(width, height, max_width, max_height).0 <= u32::MAX,
        0 <= target_size(width, height, max_width, max_height).1 <= u32::MAX,
        width > height ==> target_size(width, height, max_width, max_height).1 <= max_width,
        width <= height ==> target_size(width, height, max_width, max_height).0 <= max_height,
{
    if width > height {
        lemma_rounded_ratio(max_width as int, height as int, width as int);
    } else {
        lemma_rounded_ratio(max_height as int, width as int, height as int);
    }
}

/// A limit scaled by a ratio of at most one stays within the limit.
pub proof fn lemma_rounded_ratio(limit: int, part: int, whole: int)
    requires
        0 <= limit,
        0 <= part <= whole,
        0 < whole,
    ensures
        0 <= rounded_div(limit * part, whole) <= limit,
{
    assert(0 <= limit * part <= limit * whole) by (nonlinear_arith)
        requires
            0 <= limit,
            0 <= part <= whole,
    ;
    let a = limit * part;
    assert(2 * a + whole < (limit + 1) * (2 * whole)) by (nonlinear_arith)
        requires
            a <= limit * whole,
            0 < whole,
    ;
    assert((2 * a + whole) / (2 * whole) < limit + 1) by (nonlinear_arith)
        requires
            2 * a + whole < (limit + 1) * (2 * whole),
            0 < whole,
    ;
    assert(0 <= (2 * a + whole) / (2 * whole)) by (nonlinear_arith)
        requires
            0 <= a,
            0 < whole,
    ;
}

/// Rendering depends on nothing but the image and the configuration: equal
/// images under equal configurations give equal output.
pub proof fn lemma_rendering_is_determined(
    first: Image,
    second: Image,
    palette: Seq<char>,
    colors: bool,
    max_width: u32,
    max_height: u32,
    filter: Option<FilterType>,
)
    requires
        first.width == second.width,
        first.height == second.height,
        first.data@ == second.data@,
    ensures
        rendered(first, palette, colors, max_width, max_height, filter) == rendered(
            second,
            palette,
            colors,
            max_width,
            max_height,
            filter,
        ),
        text_of(rendered(first, palette, colors, max_width, max_height, filter)) == text_of(
            rendered(second, palette, colors, max_width, max_height, filter),
        ),
{
}

/// The output dimensions `(width, height)` for an image of the given size.
pub fn target_dimensions(width: u32, height: u32, max_width: u32, max_height: u32) -> (size: (
    u32,
    u32,
))
    requires
        width > 0,
        height > 0,
    ensures
        size.0 == target_size(width, height, max_width, max_height).0,
        size.1 == target_size(width, height, max_width, max_height).1,
{
    if width > height {
        (max_width, rounded_ratio(max_width, height, width))
    } else {
        (rounded_ratio(max_height, width, height), max_height)
    }
}

/// Whether the buffers that resizing an image of the given size allocates can
/// exist on this machine.
pub fn can_resize(width: u32, height: u32, max_width: u32, max_height: u32) -> (fits: bool)
    requires
        width > 0,
        height > 0,
    ensures
        fits == fits_memory(width, height, max_width, max_height),
{
    let size: (u32, u32) = target_dimensions(width, height, max_width, max_height);
    assert(width * size.1 <= 0xffff_ffff * 0xffff_ffff && size.0 * size.1 <= 0xffff_ffff
        * 0xffff_ffff) by (nonlinear_arith)
        requires
            0 <= width <= 0xffff_ffff,
            0 <= size.0 <= 0xffff_ffff,
            0 <= size.1 <= 0xffff_ffff,
    ;
    let limit: u128 = isize::MAX as u128;
    let samples: u128 = 16 * ((width as u128) * (size.1 as u128));
    let bytes: u128 = 3 * ((size.0 as u128) * (size.1 as u128));
    samples <= limit && bytes <= limit
}

/// `limit * part / whole`, rounded to the nearest whole number.
fn rounded_ratio(limit: u32, part: u32, whole: u32) -> (r: u32)
    requires
        0 < whole,
        part <= whole,
    ensures
        r == rounded_div(limit * part, whole as int),
{
    proof {
        lemma_rounded_ratio(limit as int, part as int, whole as int);
        assert(0 <= limit * part <= 0xffff_ffff * 0xffff_ffff) by (nonlinear_arith)
            requires
                0 <= limit <= 0xffff_ffff,
                0 <= part <= 0xffff_ffff,
        ;
    }
    let product: u128 = (limit as u128) * (part as u128);
    let rounded: u128 = (2 * product + (whole as u128)) / (2 * (whole as u128));
    rounded as u32
}

/// `image::imageops::resize` with `FilterType::Nearest` on an RGB image
/// built from `data`. The contract names the bytes it returns and states
/// their number, three for each pixel of the new dimensions, and that an
/// image asked for at its own dimensions comes back as a copy. The
/// preconditions keep the buffers that it allocates within what a vector
/// can hold.
#[verifier::external_body]
fn resize_nearest(data: &Vec<u8>, width: u32, height: u32, new_width: u32, new_height: u32) -> (out:
    Vec<u8>)
    requires
        width > 0,
        height > 0,
        data@.len() == 3 * (width * height),
        16 * (width * new_height) <= isize::MAX,
        3 * (new_width * new_height) <= isize::MAX,
    ensures
        out@ == nearest_resized(data@, width, height, new_width, new_height),
        out@.len() == 3 * (new_width * new_height),
        new_width == width && new_height == height ==> out@ == data@,
{
    let source = image::RgbImage::from_raw(width, height, data.clone()).unwrap();
    let nearest = image::imageops::FilterType::Nearest;
    image::imageops::resize(&source, new_width, new_height, nearest).into_raw()
}

/// `colored::Colorize::truecolor` on the glyph, formatted. Whether colours
/// are written, and with which code, depends on the terminal and the
/// environment. The contract states what holds in each of them: the text is
/// the glyph alone, or an escape sequence whose code is made of digits and
/// semicolons, then the glyph, then the reset sequence.
#[verifier::external_body]
fn paint(glyph: char, r: u8, g: u8, b: u8) -> (painted: String)
    ensures
        is_painted(glyph, painted@),
{
    format!("{}", colored::Colorize::truecolor(glyph.to_string().as_str(), r, g, b))
}

/// `String::push`: appends one character to the text.
#[verifier::external_body]
fn push_char(text: &mut String, glyph: char)
    ensures
        final(text)@ == old(text)@.push(glyph),
{
    text.push(glyph);
}

/// The cells of a `width` by `height` RGB buffer under a palette.
pub fn cells_of_pixels(
    data: &Vec<u8>,
    width: u32,
    height: u32,
    char_sets: &CharSets,
    use_colors: bool,
) -> (rows: Vec<Vec<Cell>>)
    requires
        data@.len() == 3 * (width * height),
        char_sets.is_selected(),
    ensures
        rows_view(rows@) == cells_of(
            data@,
            width as int,
            height as int,
            char_sets.ascii_chars@,
            use_colors,
        ),
{
    let len: usize = data.len();
    let has_space: bool = char_sets.contains_space();
    let mut rows: Vec<Vec<Cell>> = Vec::new();
    let mut y: u32 = 0;
    while y < height
        invariant
            y <= height,
            len == data@.len(),
            data@.len() == 3 * (width * height),
            char_sets.is_selected(),
            has_space == char_sets.ascii_chars@.contains(' '),
            rows@.len() == y,
            forall|j: int|
                0 <= j < y ==> (#[trigger] rows@[j])@ == cells_of(
                    data@,
                    width as int,
                    height as int,
                    char_sets.ascii_chars@,
                    use_colors,
                )[j],
        decreases height - y,
    {
        let mut row: Vec<Cell> = Vec::new();
        let mut x: u32 = 0;
        while x < width
            invariant
                x <= width,
                y < height,
                len == data@.len(),
                data@.len() == 3 * (width * height),
                char_sets.is_selected(),
                has_space == char_sets.ascii_chars@.contains(' '),
                row@.len() == x,
                forall|i: int|
                    0 <= i < x ==> row@[i] == cell_of(
                        char_sets.ascii_chars@,
                        use_colors,
                        pixel_of(data@, width as int, i, y as int),
                    ),
            decreases width - x,
        {
            proof {
                lemma_cell_in_grid(x as int, y as int, width as int, height as int);
                assert(3 * (y * width + x) + 2 < len);
            }
            let at: usize = 3 * ((y as usize) * (width as usize) + (x as usize));
            let pixel = Color { r: data[at], g: data[at + 1], b: data[at + 2] };
            let glyph: char = char_sets.glyph_given_blank(has_space, pixel.r, pixel.g, pixel.b);
            let color: Option<Color> = if use_colors {
                Some(pixel)
            } else {
                None
            };
            row.push(Cell { glyph, color });
            x += 1;
        }
        assert(row@ =~= cells_of(
            data@,
            width as int,
            height as int,
            char_sets.ascii_chars@,
            use_colors,
        )[y as int]);
        rows.push(row);
        y += 1;
    }
    assert(rows_view(rows@) =~= cells_of(
        data@,
        width as int,
        height as int,
        char_sets.ascii_chars@,
        use_colors,
    ));
    rows
}

/// The pieces of text of rows of cells: for each cell its glyph, painted in
/// its colour where it has one.
pub fn paint_cells(rows: &Vec<Vec<Cell>>) -> (pieces: Vec<Vec<String>>)
    ensures
        pieces_fit(rows_view(rows@), pieces_view(pieces@)),
{
    let mut pieces: Vec<Vec<String>> = Vec::new();
    let mut y: usize = 0;
    while y < rows.len()
        invariant
            y <= rows@.len(),
            pieces@.len() == y,
            forall|j: int| 0 <= j < y ==> (#[trigger] pieces@[j])@.len() == rows@[j]@.len(),
            forall|j: int, i: int|
                0 <= j < y && 0 <= i < rows@[j]@.len() ==> piece_fits(
                    rows@[j]@[i],
                    #[trigger] pieces@[j]@[i]@,
                ),
        decreases rows@.len() - y,
    {
        let row: &Vec<Cell> = &rows[y];
        let mut line: Vec<String> = Vec::new();
        let mut x: usize = 0;
        while x < row.len()
            invariant
                x <= row@.len(),
                line@.len() == x,
                forall|i: int| 0 <= i < x ==> piece_fits(row@[i], #[trigger] line@[i]@),
            decreases row@.len() - x,
        {
            let cell: Cell = row[x];
            let piece: String = match cell.color {
                Some(c) => paint(cell.glyph, c.r, c.g, c.b),
                None => {
                    let mut plain: String = String::new();
                    push_char(&mut plain, cell.glyph);
                    assert(plain@ =~= seq![cell.glyph]);
                    plain
                },
            };
            line.push(piece);
            x += 1;
        }
        pieces.push(line);
        y += 1;
    }
    pieces
}

/// Joins pieces of text: the pieces of each row in order, and a newline
/// after each row.
pub fn join_pieces(pieces: &Vec<Vec<String>>) -> (text: String)
    ensures
        text@ == joined(pieces_view(pieces@)),
{
    let ghost all = pieces_view(pieces@);
    let mut text: String = String::new();
    let mut y: usize = 0;
    assert(all.take(0) =~= Seq::<Seq<Seq<char>>>::empty());
    while y < pieces.len()
        invariant
            y <= pieces@.len(),
            all == pieces_view(pieces@),
            text@ == joined(all.take(y as int)),
        decreases pieces@.len() - y,
    {
        let line: &Vec<String> = &pieces[y];
        let ghost before = text@;
        let ghost row = all[y as int];
        let mut x: usize = 0;
        assert(row.take(0) =~= Seq::<Seq<char>>::empty());
        while x < line.len()
            invariant
                x <= line@.len(),
                y < pieces@.len(),
                line@ == pieces@[y as int]@,
                all == pieces_view(pieces@),
                row == all[y as int],
                text@ == before + row_joined(row.take(x as int)),
            decreases line@.len() - x,
        {
            text.append(line[x].as_str());
            proof {
                assert(row.take(x + 1).drop_last() =~= row.take(x as int));
                assert(row.take(x + 1).last() == line@[x as int]@);
            }
            x += 1;
        }
        push_char(&mut text, '\n');
        proof {
            assert(row.take(x as int) =~= row);
            assert(all.take(y + 1).drop_last() =~= all.take(y as int));
            assert(all.take(y + 1).last() == row);
        }
        y += 1;
    }
    assert(all.take(y as int) =~= all);
    text
}

/// Joined pieces of the cells of one row, none of which carries a colour,
/// are the glyphs of the row.
proof fn lemma_plain_row(row: Seq<Cell>, pieces: Seq<Seq<char>>, n: nat)
    requires
        n <= row.len(),
        pieces.len() == row.len(),
        forall|x: int| 0 <= x < row.len() ==> #[trigger] pieces[x] == seq![row[x].glyph],
    ensures
        row_joined(pieces.take(n as int)) == row_glyphs(row, n as int),
    decreases n,
{
    if n == 0 {
        assert(pieces.take(0) =~= Seq::<Seq<char>>::empty());
        assert(row_glyphs(row, 0) =~= Seq::<char>::empty());
    } else {
        lemma_plain_row(row, pieces, (n - 1) as nat);
        assert(pieces.take(n as int).drop_last() =~= pieces.take(n - 1));
        assert(pieces.take(n as int).last() == pieces[n - 1]);
        assert(row_glyphs(row, n - 1) + seq![row[n - 1].glyph] =~= row_glyphs(row, n as int));
    }
}

/// Where no cell carries a colour, the joined pieces are the plain text.
pub proof fn lemma_plain_text(rows: Seq<Seq<Cell>>, pieces: Seq<Seq<Seq<char>>>, n: nat)
    requires
        n <= rows.len(),
        is_plain(rows),
        pieces_fit(rows, pieces),
    ensures
        joined(pieces.take(n as int)) == text_upto(rows, n),
        n == rows.len() ==> joined(pieces) == text_of(rows),
    decreases n,
{
    if n == 0 {
        assert(pieces.take(0) =~= Seq::<Seq<Seq<char>>>::empty());
    } else {
        lemma_plain_text(rows, pieces, (n - 1) as nat);
        let row = rows[n - 1];
        let line = pieces[n - 1];
        assert(pieces.take(n as int).drop_last() =~= pieces.take(n - 1));
        assert(pieces.take(n as int).last() == line);
        assert forall|x: int| 0 <= x < row.len() implies #[trigger] line[x] == seq![
            row[x].glyph,
        ] by {
            assert(rows[n - 1][x].color.is_none());
            assert(piece_fits(rows[n - 1][x], pieces[n - 1][x]));
        }
        lemma_plain_row(row, line, row.len());
        assert(line.take(row.len() as int) =~= line);
    }
    if n == rows.len() {
        assert(pieces.take(n as int) =~= pieces);
    }
}

/// The text of rows of cells: each glyph in turn, painted in its colour
/// where it has one, and a newline after each row.
pub fn compose_text(rows: &Vec<Vec<Cell>>) -> (text: String)
    ensures
        exists|pieces: Seq<Seq<Seq<char>>>| #[trigger]
            pieces_fit(rows_view(rows@), pieces) && text@ == joined(pieces),
        is_plain(rows_view(rows@)) ==> text@ == text_of(rows_view(rows@)),
{
    let pieces: Vec<Vec<String>> = paint_cells(rows);
    proof {
        if is_plain(rows_view(rows@)) {
            lemma_plain_text(rows_view(rows@), pieces_view(pieces@), rows@.len());
        }
    }
    join_pieces(&pieces)
}

impl RenderError {
    /// The error in words.
    pub fn message(&self) -> (text: String)
        ensures
            text@ == "No image loaded."@,
    {
        String::from_str("No image loaded.")
    }
}

impl AsciiArtGenerator {
    /// The image that was supplied, if any.
    pub closed spec fn image(&self) -> Option<Image> {
        self.img
    }

    /// The glyphs of the active palette.
    pub closed spec fn palette(&self) -> Seq<char> {
        self.char_sets.ascii_chars@
    }

    /// Whether cells carry the colour of their pixel.
    pub closed spec fn colors(&self) -> bool {
        self.use_colors
    }

    /// A renderer always has a palette selected, and its image, if it has
    /// one, is valid.
    pub closed spec fn wf(&self) -> bool {
        &&& self.char_sets.is_selected()
        &&& self.img matches Some(img) ==> img.wf()
    }

    /// A valid renderer holds a valid image, if it holds one, and a palette
    /// with at least one glyph.
    pub proof fn lemma_valid_parts(&self)
        requires
            self.wf(),
        ensures
            self.image() matches Some(img) ==> img.wf(),
            self.palette().len() > 0,
    {
    }

    /// A renderer without an image, with the two-glyph point palette and
    /// without colours.
    pub fn new() -> (generator: Self)
        ensures
            generator.wf(),
            generator.image().is_none(),
            generator.palette() == glyphs(CharSet::Point),
            !generator.colors(),
    {
        let char_sets = CharSets::new();
        AsciiArtGenerator { img: None, char_sets, use_colors: false }
    }

    /// Replaces the active palette.
    pub fn set_charset(&mut self, char_set: CharSet)
        requires
            old(self).wf(),
        ensures
            final(self).wf(),
            final(self).palette() == glyphs(char_set),
            final(self).image() == old(self).image(),
            final(self).colors() == old(self).colors(),
    {
        self.char_sets.set_charset(char_set);
    }

    /// Makes every cell carry the colour of its pixel.
    pub fn enable_colors(&mut self)
        requires
            old(self).wf(),
        ensures
            final(self).wf(),
            final(self).colors(),
            final(self).image() == old(self).image(),
            final(self).palette() == old(self).palette(),
    {
        self.use_colors = true;
    }

    /// Makes cells carry no colour.
    pub fn disable_colors(&mut self)
        requires
            old(self).wf(),
        ensures
            final(self).wf(),
            !final(self).colors(),
            final(self).image() == old(self).image(),
            final(self).palette() == old(self).palette(),
    {
        self.use_colors = false;
    }

    /// Supplies the image to render, in place of any earlier one.
    pub fn load_image(&mut self, image: Image)
        requires
            old(self).wf(),
            image.wf(),
        ensures
            final(self).wf(),
            final(self).image() == Some(image),
            final(self).palette() == old(self).palette(),
            final(self).colors() == old(self).colors(),
    {
        self.img = Some(image);
    }

    /// Whether an image was supplied and the buffers that rendering it at
    /// the given limits allocates can exist on this machine.
    pub fn can_render(&self, max_width: u32, max_height: u32) -> (ready: bool)
        requires
            self.wf(),
        ensures
            ready == (self.image() matches Some(img) && fits_memory(
                img.width,
                img.height,
                max_width,
                max_height,
            )),
    {
        match &self.img {
            None => false,
            Some(img) => can_resize(img.width, img.height, max_width, max_height),
        }
    }

    /// Renders the image as rows of cells: filtered if a filter is given,
    /// resized to the target dimensions, one cell per pixel. Fails only
    /// where no image was supplied.
    pub fn generate_cells(
        &self,
        max_width: u32,
        max_height: u32,
        filter_type: Option<FilterType>,
    ) -> (out: Result<Vec<Vec<Cell>>, RenderError>)
        requires
            self.wf(),
            self.image() matches Some(img) ==> fits_memory(
                img.width,
                img.height,
                max_width,
                max_height,
            ),
        ensures
            out.is_err() <==> self.image().is_none(),
            out matches Err(e) ==> e == RenderError::NoImageLoaded,
            out matches Ok(rows) ==> rows_view(rows@) == rendered(
                self.image().unwrap(),
                self.palette(),
                self.colors(),
                max_width,
                max_height,
                filter_type,
            ),
            out matches Ok(rows) ==> keeps_size(self.image().unwrap(), max_width, max_height)
                ==> rows_view(rows@) == cells_of(
                working_bytes(self.image().unwrap(), filter_type),
                self.image().unwrap().width as int,
                self.image().unwrap().height as int,
                self.palette(),
                self.colors(),
            ),
    {
        match &self.img {
            None => Err(RenderError::NoImageLoaded),
            Some(img) => {
                proof {
                    lemma_target_size_bounds(img.width, img.height, max_width, max_height);
                }
                let size: (u32, u32) = target_dimensions(
                    img.width,
                    img.height,
                    max_width,
                    max_height,
                );
                let resized: Vec<u8> = match filter_type {
                    Some(filter) => {
                        let processed: Image = filter.apply_filter(img);
                        resize_nearest(&processed.data, img.width, img.height, size.0, size.1)
                    },
                    None => resize_nearest(&img.data, img.width, img.height, size.0, size.1),
                };
                Ok(cells_of_pixels(&resized, size.0, size.1, &self.char_sets, self.use_colors))
            },
        }
    }

    /// Renders the image as text: the glyphs of each row of cells, each
    /// painted in its colour where colours are enabled, and a newline after
    /// each row. Fails only where no image was supplied.
    pub fn generate_ascii_art(
        &self,
        max_width: u32,
        max_height: u32,
        filter_type: Option<FilterType>,
    ) -> (out: Result<String, RenderError>)
        requires
            self.wf(),
            self.image() matches Some(img) ==> fits_memory(
                img.width,
                img.height,
                max_width,
                max_height,
            ),
        ensures
            out.is_err() <==> self.image().is_none(),
            out matches Err(e) ==> e == RenderError::NoImageLoaded,
            out matches Ok(text) ==> exists|pieces: Seq<Seq<Seq<char>>>| #[trigger]
                pieces_fit(
                    rendered(
                        self.image().unwrap(),
                        self.palette(),
                        self.colors(),
                        max_width,
                        max_height,
                        filter_type,
                    ),
                    pieces,
                ) && text@ == joined(pieces),
            out matches Ok(text) ==> (!self.colors() ==> text@ == text_of(
                rendered(
                    self.image().unwrap(),
                    self.palette(),
                    false,
                    max_width,
                    max_height,
                    filter_type,
                ),
            )),
            out matches Ok(text) ==> (!self.colors() && keeps_size(
                self.image().unwrap(),
                max_width,
                max_height,
            ) ==> text@ == text_of(
                cells_of(
                    working_bytes(self.image().unwrap(), filter_type),
                    self.image().unwrap().width as int,
                    self.image().unwrap().height as int,
                    self.palette(),
                    false,
                ),
            )),
    {
        match self.generate_cells(max_width, max_height, filter_type) {
            Err(e) => Err(e),
            Ok(rows) => {
                proof {
                    if !self.colors() {
                        assert(is_plain(rows_view(rows@)));
                    }
                }
                Ok(compose_text(&rows))
            },
        }
    }
}

} // verus!
