//! Convolution filters on the grey levels of an image: edge detection by
//! gradient magnitude, and sharpening.
//!
//! Kernel weights are whole numbers. A pixel outside the image contributes
//! nothing to a sum (zero padding), and every result is clamped to 0..=255.

use crate::image_data::{lemma_cell_in_grid, Image};
use vstd::arithmetic::div_mod::{lemma_fundamental_div_mod, lemma_fundamental_div_mod_converse};
use vstd::prelude::*;

verus! {

/// The filters that can be applied before rendering.
#[derive(Clone, Copy, Debug, PartialEq, Eq)]
pub enum FilterType {
    /// Edge detection: the magnitude of the horizontal and vertical gradients.
    Sobel,
    /// Sharpening with a high-pass kernel.
    Fourier,
}

/// A square matrix of weights with an odd side, stored row by row.
#[derive(Debug)]
pub struct Kernel {
    pub side: usize,
    pub weights: Vec<i32>,
}

/// The grey level of a pixel: (2126 R + 7152 G + 722 B) / 10000, rounded down.
pub open spec fn luma_of(r: u8, g: u8, b: u8) -> int {
    (2126 * (r as int) + 7152 * (g as int) + 722 * (b as int)) / 10000
}

/// The grey levels of a row-major RGB buffer, one byte per pixel.
pub open spec fn gray_of(data: Seq<u8>) -> Seq<u8> {
    Seq::new(
        (data.len() / 3) as nat,
        |j: int| luma_of(data[3 * j], data[3 * j + 1], data[3 * j + 2]) as u8,
    )
}

/// A grey plane as an RGB buffer: each level repeated on the three channels.
pub open spec fn promoted(gray: Seq<u8>) -> Seq<u8> {
    Seq::new(3 * gray.len(), |i: int| gray[i / 3])
}

/// `v` clamped to 0..=255.
pub open spec fn clamp_byte(v: int) -> int {
    if v < 0 {
        0
    } else if v > 255 {
        255
    } else {
        v
    }
}

/// What the `i`-th weight of a kernel, counted row by row, adds to the sum at
/// `(x, y)`: the weight times the grey level under it, or nothing where it
/// lies outside the image.
pub open spec fn tap(
    gray: Seq<u8>,
    width: int,
    height: int,
    side: int,
    weights: Seq<i32>,
    x: int,
    y: int,
    i: int,
) -> int {
    let px = x + i % side - side / 2;
    let py = y + i / side - side / 2;
    if 0 <= px < width && 0 <= py < height {
        (weights[i] as int) * (gray[py * width + px] as int)
    } else {
        0
    }
}

/// The sum of the first `n` taps of a kernel centred on `(x, y)`.
pub open spec fn weighted_sum(
    gray: Seq<u8>,
    width: int,
    height: int,
    side: int,
    weights: Seq<i32>,
    x: int,
    y: int,
    n: nat,
) -> int
    decreases n,
{
    if n == 0 {
        0
    } else {
        weighted_sum(gray, width, height, side, weights, x, y, (n - 1) as nat) + tap(
            gray,
            width,
            height,
            side,
            weights,
            x,
            y,
            n - 1,
        )
    }
}

/// The convolved grey level at `(x, y)`: the whole weighted sum, clamped.
pub open spec fn convolved_at(
    gray: Seq<u8>,
    width: int,
    height: int,
    side: int,
    weights: Seq<i32>,
    x: int,
    y: int,
) -> int {
    clamp_byte(weighted_sum(gray, width, height, side, weights, x, y, (side * side) as nat))
}

/// A grey plane convolved with a kernel, pixel by pixel.
pub open spec fn convolved(
    gray: Seq<u8>,
    width: int,
    height: int,
    side: int,
    weights: Seq<i32>,
) -> Seq<u8> {
    Seq::new(
        gray.len(),
        |j: int| convolved_at(gray, width, height, side, weights, j % width, j / width) as u8,
    )
}

/// The largest `r` in `0..=cap` whose square is at most `n` (0 if there is
/// none).
pub open spec fn capped_root(n: int, cap: nat) -> int
    decreases cap,
{
    if cap == 0 {
        0
    } else if cap * cap <= n {
        cap as int
    } else {
        capped_root(n, (cap - 1) as nat)
    }
}

/// The Euclidean length of the gradient `(gx, gy)`, rounded down and clamped
/// to 255.
pub open spec fn magnitude(gx: u8, gy: u8) -> int {
    capped_root((gx as int) * (gx as int) + (gy as int) * (gy as int), 255)
}

/// The weights of the horizontal-gradient kernel.
pub open spec fn sobel_x_weights() -> Seq<i32> {
    seq![-1i32, 0i32, 1i32, -2i32, 0i32, 2i32, -1i32, 0i32, 1i32]
}

/// The weights of the vertical-gradient kernel.
pub open spec fn sobel_y_weights() -> Seq<i32> {
    seq![-1i32, -2i32, -1i32, 0i32, 0i32, 0i32, 1i32, 2i32, 1i32]
}

/// The weights of the sharpening kernel.
pub open spec fn sharpen_weights() -> Seq<i32> {
    seq![0i32, -1i32, 0i32, -1i32, 5i32, -1i32, 0i32, -1i32, 0i32]
}

/// The gradient magnitudes of a grey plane.
pub open spec fn edges(gray: Seq<u8>, width: int, height: int) -> Seq<u8> {
    Seq::new(
        gray.len(),
        |j: int|
            magnitude(
                convolved_at(gray, width, height, 3, sobel_x_weights(), j % width, j / width) as u8,
                convolved_at(gray, width, height, 3, sobel_y_weights(), j % width, j / width) as u8,
            ) as u8,
    )
}

/// The bytes of an image after a filter.
pub open spec fn filtered(filter: FilterType, img: Image) -> Seq<u8> {
    let gray = gray_of(img.data@);
    match filter {
        FilterType::Sobel => promoted(edges(gray, img.width as int, img.height as int)),
        FilterType::Fourier => promoted(
            convolved(gray, img.width as int, img.height as int, 3, sharpen_weights()),
        ),
    }
}

/// A grey plane after a half turn: its pixels in reverse order, so that the
/// pixel at `(x, y)` comes to stand at `(width - 1 - x, height - 1 - y)`.
pub open spec fn half_turn(gray: Seq<u8>) -> Seq<u8> {
    Seq::new(gray.len(), |j: int| gray[gray.len() - 1 - j])
}

/// The whole weighted sum of a 3 by 3 kernel at the pixel with row-major
/// index `j`, before clamping.
pub open spec fn raw_gradient(
    gray: Seq<u8>,
    width: int,
    height: int,
    weights: Seq<i32>,
    j: int,
) -> int {
    weighted_sum(gray, width, height, 3, weights, j % width, j / width, 9)
}

/// Whether each weight of a 3 by 3 kernel is the negative of the weight
/// opposite to it, as in both gradient kernels.
pub open spec fn is_odd_kernel(weights: Seq<i32>) -> bool {
    &&& weights.len() == 9
    &&& forall|i: int| 0 <= i < 9 ==> #[trigger] weights[8 - i] == -weights[i]
}

/// Under a half turn, the tap opposite to tap `i` meets the same pixel with
/// the negated weight.
proof fn lemma_tap_half_turn(
    gray: Seq<u8>,
    width: int,
    height: int,
    weights: Seq<i32>,
    x: int,
    y: int,
    i: int,
)
    requires
        gray.len() == width * height,
        width > 0,
        height > 0,
        is_odd_kernel(weights),
        0 <= i < 9,
    ensures
        tap(half_turn(gray), width, height, 3, weights, width - 1 - x, height - 1 - y, 8 - i)
            == -tap(gray, width, height, 3, weights, x, y, i),
{
    let px = x + i % 3 - 1;
    let py = y + i / 3 - 1;
    let qx = (width - 1 - x) + (8 - i) % 3 - 1;
    let qy = (height - 1 - y) + (8 - i) / 3 - 1;
    assert(qx == width - 1 - px);
    assert(qy == height - 1 - py);
    assert(weights[8 - i] == -weights[i]);
    if 0 <= px < width && 0 <= py < height {
        lemma_cell_in_grid(px, py, width, height);
        lemma_cell_in_grid(qx, qy, width, height);
        assert(qy * width + qx == width * height - 1 - (py * width + px)) by (nonlinear_arith)
            requires
                qx == width - 1 - px,
                qy == height - 1 - py,
        ;
        let level = gray[py * width + px] as int;
        assert(half_turn(gray)[qy * width + qx] == gray[py * width + px]);
        let weight = weights[i] as int;
        assert((-weight) * level == -(weight * level)) by (nonlinear_arith);
    }
}

/// A half turn of the plane negates the sum of a kernel whose opposite
/// weights are negatives of each other, taken at the turned place.
pub proof fn lemma_gradient_half_turn(
    gray: Seq<u8>,
    width: int,
    height: int,
    weights: Seq<i32>,
    x: int,
    y: int,
)
    requires
        gray.len() == width * height,
        width > 0,
        height > 0,
        is_odd_kernel(weights),
    ensures
        weighted_sum(half_turn(gray), width, height, 3, weights, width - 1 - x, height - 1 - y, 9)
            == -weighted_sum(gray, width, height, 3, weights, x, y, 9),
{
    reveal_with_fuel(weighted_sum, 10);
    lemma_tap_half_turn(gray, width, height, weights, x, y, 0);
    lemma_tap_half_turn(gray, width, height, weights, x, y, 1);
    lemma_tap_half_turn(gray, width, height, weights, x, y, 2);
    lemma_tap_half_turn(gray, width, height, weights, x, y, 3);
    lemma_tap_half_turn(gray, width, height, weights, x, y, 4);
    lemma_tap_half_turn(gray, width, height, weights, x, y, 5);
    lemma_tap_half_turn(gray, width, height, weights, x, y, 6);
    lemma_tap_half_turn(gray, width, height, weights, x, y, 7);
    lemma_tap_half_turn(gray, width, height, weights, x, y, 8);
}

/// The row and column of a pixel after a half turn.
proof fn lemma_turned_index(j: int, width: int, height: int)
    requires
        width > 0,
        0 <= j < width * height,
    ensures
        0 <= j % width < width,
        0 <= j / width < height,
        (width * height - 1 - j) % width == width - 1 - j % width,
        (width * height - 1 - j) / width == height - 1 - j / width,
{
    let x = j % width;
    let y = j / width;
    lemma_fundamental_div_mod(j, width);
    assert(0 <= y < height) by (nonlinear_arith)
        requires
            j == width * y + x,
            0 <= x < width,
            0 <= j < width * height,
    ;
    assert(width * height - 1 - j == (height - 1 - y) * width + (width - 1 - x))
        by (nonlinear_arith)
        requires
            j == width * y + x,
    ;
    lemma_fundamental_div_mod_converse(
        width * height - 1 - j,
        width,
        height - 1 - y,
        width - 1 - x,
    );
}

/// Edge detection after a half turn: at the turned place of pixel `j`
/// stands the magnitude of the negated gradients of `j`, each clamped.
pub proof fn lemma_edges_half_turn(gray: Seq<u8>, width: int, height: int, j: int)
    requires
        gray.len() == width * height,
        width > 0,
        height > 0,
        0 <= j < gray.len(),
    ensures
        edges(half_turn(gray), width, height)[gray.len() - 1 - j] as int == magnitude(
            clamp_byte(-raw_gradient(gray, width, height, sobel_x_weights(), j)) as u8,
            clamp_byte(-raw_gradient(gray, width, height, sobel_y_weights(), j)) as u8,
        ),
        edges(gray, width, height)[j] as int == magnitude(
            clamp_byte(raw_gradient(gray, width, height, sobel_x_weights(), j)) as u8,
            clamp_byte(raw_gradient(gray, width, height, sobel_y_weights(), j)) as u8,
        ),
{
    lemma_turned_index(j, width, height);
    assert(is_odd_kernel(sobel_x_weights()));
    assert(is_odd_kernel(sobel_y_weights()));
    lemma_gradient_half_turn(gray, width, height, sobel_x_weights(), j % width, j / width);
    lemma_gradient_half_turn(gray, width, height, sobel_y_weights(), j % width, j / width);
    lemma_magnitude_is_byte(
        clamp_byte(-raw_gradient(gray, width, height, sobel_x_weights(), j)) as u8,
        clamp_byte(-raw_gradient(gray, width, height, sobel_y_weights(), j)) as u8,
    );
    lemma_magnitude_is_byte(
        clamp_byte(raw_gradient(gray, width, height, sobel_x_weights(), j)) as u8,
        clamp_byte(raw_gradient(gray, width, height, sobel_y_weights(), j)) as u8,
    );
}

/// The edges of an image that is its own half turn agree at a pixel and at
/// its turned place, provided that negating both gradients of the pixel
/// leaves the magnitude of their clamped values as it is. Clamping drops a
/// negative gradient, so without the proviso the two places can differ.
pub proof fn lemma_edges_of_symmetric_image(gray: Seq<u8>, width: int, height: int, j: int)
    requires
        gray.len() == width * height,
        width > 0,
        height > 0,
        0 <= j < gray.len(),
        half_turn(gray) == gray,
        magnitude(
            clamp_byte(raw_gradient(gray, width, height, sobel_x_weights(), j)) as u8,
            clamp_byte(raw_gradient(gray, width, height, sobel_y_weights(), j)) as u8,
        ) == magnitude(
            clamp_byte(-raw_gradient(gray, width, height, sobel_x_weights(), j)) as u8,
            clamp_byte(-raw_gradient(gray, width, height, sobel_y_weights(), j)) as u8,
        ),
    ensures
        edges(gray, width, height)[gray.len() - 1 - j] == edges(gray, width, height)[j],
{
    lemma_edges_half_turn(gray, width, height, j);
}

/// A magnitude lies in 0..=255.
pub proof fn lemma_magnitude_is_byte(gx: u8, gy: u8)
    ensures
        0 <= magnitude(gx, gy) <= 255,
{
    lemma_capped_root_bounds((gx as int) * (gx as int) + (gy as int) * (gy as int), 255);
}

/// `capped_root` lies between 0 and its cap.
pub proof fn lemma_capped_root_bounds(n: int, cap: nat)
    ensures
        0 <= capped_root(n, cap) <= cap,
    decreases cap,
{
    if cap > 0 && cap * cap > n {
        lemma_capped_root_bounds(n, (cap - 1) as nat);
    }
}

/// `capped_root` is the only value with its defining property.
pub proof fn lemma_capped_root_unique(n: int, cap: nat, r: int)
    requires
        0 <= r <= cap,
        r * r <= n,
        r == cap || (r + 1) * (r + 1) > n,
    ensures
        capped_root(n, cap) == r,
    decreases cap,
{
    if cap == 0 {
    } else if cap * cap <= n {
        if r < cap {
            assert((r + 1) * (r + 1) <= cap * cap) by (nonlinear_arith)
                requires
                    0 <= r + 1 <= cap,
            ;
        }
    } else {
        lemma_capped_root_unique(n, (cap - 1) as nat, r);
    }
}

/// With a 3 by 3 kernel, the one pixel of a 1 by 1 image becomes the centre
/// weight times its level, clamped: all its neighbours lie outside the image.
pub proof fn lemma_single_pixel_convolution(gray: Seq<u8>, weights: Seq<i32>)
    requires
        gray.len() == 1,
        weights.len() == 9,
    ensures
        convolved_at(gray, 1, 1, 3, weights, 0, 0) == clamp_byte(
            (weights[4] as int) * (gray[0] as int),
        ),
        convolved(gray, 1, 1, 3, weights) =~= seq![
            clamp_byte((weights[4] as int) * (gray[0] as int)) as u8,
        ],
{
    reveal_with_fuel(weighted_sum, 10);
    assert(weighted_sum(gray, 1, 1, 3, weights, 0, 0, 9) == (weights[4] as int) * (
    gray[0] as int));
}

impl Kernel {
    /// A kernel is valid when its side is odd and it has a weight for each
    /// cell.
    pub open spec fn wf(&self) -> bool {
        &&& self.side % 2 == 1
        &&& self.weights@.len() == self.side * self.side
    }

    /// Builds a kernel from its weights, row by row, if the side is odd and
    /// the weights fill the square.
    pub fn new(side: usize, weights: Vec<i32>) -> (kernel: Option<Kernel>)
        ensures
            kernel.is_some() <==> side % 2 == 1 && weights@.len() == side * side,
            kernel matches Some(k) ==> k.wf() && k.side == side && k.weights@ == weights@,
    {
        assert(side * side <= 0xffff_ffff_ffff_ffff * 0xffff_ffff_ffff_ffff) by (nonlinear_arith)
            requires
                side <= 0xffff_ffff_ffff_ffff,
        ;
        let cells: u128 = (side as u128) * (side as u128);
        if side % 2 == 1 && (weights.len() as u128) == cells {
            Some(Kernel { side, weights })
        } else {
            None
        }
    }

    /// The horizontal-gradient kernel.
    pub fn sobel_x() -> (kernel: Kernel)
        ensures
            kernel.wf(),
            kernel.side == 3,
            kernel.weights@ == sobel_x_weights(),
    {
        let weights: Vec<i32> = vec![-1i32, 0i32, 1i32, -2i32, 0i32, 2i32, -1i32, 0i32, 1i32];
        assert(weights@ =~= sobel_x_weights());
        Kernel { side: 3, weights }
    }

    /// The vertical-gradient kernel.
    pub fn sobel_y() -> (kernel: Kernel)
        ensures
            kernel.wf(),
            kernel.side == 3,
            kernel.weights@ == sobel_y_weights(),
    {
        let weights: Vec<i32> = vec![-1i32, -2i32, -1i32, 0i32, 0i32, 0i32, 1i32, 2i32, 1i32];
        assert(weights@ =~= sobel_y_weights());
        Kernel { side: 3, weights }
    }

    /// The sharpening kernel.
    pub fn sharpen() -> (kernel: Kernel)
        ensures
            kernel.wf(),
            kernel.side == 3,
            kernel.weights@ == sharpen_weights(),
    {
        let weights: Vec<i32> = vec![0i32, -1i32, 0i32, -1i32, 5i32, -1i32, 0i32, -1i32, 0i32];
        assert(weights@ =~= sharpen_weights());
        Kernel { side: 3, weights }
    }
}

/// The grey level that `image::Pixel::to_luma` gives an `image::Rgb<u8>`
/// pixel. The contract states its integer formula: the channels weighted by
/// 2126, 7152 and 722, the sum divided by 10000 and rounded down.
#[verifier::external_body]
fn pixel_luma(r: u8, g: u8, b: u8) -> (level: u8)
    ensures
        level as int == luma_of(r, g, b),
{
    image::Pixel::to_luma(&image::Rgb([r, g, b])).0[0]
}

/// The grey levels of an image.
pub fn luma_plane(img: &Image) -> (gray: Vec<u8>)
    requires
        img.wf(),
    ensures
        gray@ == gray_of(img.data@),
        gray@.len() == img.width * img.height,
{
    let count: usize = img.data.len() / 3;
    let mut gray: Vec<u8> = Vec::new();
    let mut j: usize = 0;
    while j < count
        invariant
            j <= count,
            count == img.data@.len() / 3,
            img.data@.len() <= usize::MAX,
            gray@.len() == j,
            forall|p: int|
                0 <= p < j ==> gray@[p] == luma_of(
                    img.data@[3 * p],
                    img.data@[3 * p + 1],
                    img.data@[3 * p + 2],
                ) as u8,
        decreases count - j,
    {
        let level: u8 = pixel_luma(img.data[3 * j], img.data[3 * j + 1], img.data[3 * j + 2]);
        gray.push(level);
        j += 1;
    }
    assert(gray@ =~= gray_of(img.data@));
    gray
}

/// A grey plane as an image whose three channels all hold the grey level.
pub fn gray_to_image(gray: &Vec<u8>, width: u32, height: u32) -> (img: Image)
    requires
        width > 0,
        height > 0,
        gray@.len() == width * height,
    ensures
        img.wf(),
        img.width == width,
        img.height == height,
        img.data@ == promoted(gray@),
{
    let mut data: Vec<u8> = Vec::new();
    let mut j: usize = 0;
    while j < gray.len()
        invariant
            j <= gray@.len(),
            data@.len() == 3 * j,
            forall|i: int| 0 <= i < 3 * j ==> data@[i] == gray@[i / 3],
        decreases gray@.len() - j,
    {
        let level: u8 = gray[j];
        data.push(level);
        data.push(level);
        data.push(level);
        j += 1;
    }
    assert(data@ =~= promoted(gray@));
    Image { width, height, data }
}

/// The convolved grey level at `(x, y)`.
pub fn convolve_at(
    gray: &Vec<u8>,
    width: u32,
    height: u32,
    kernel: &Kernel,
    x: usize,
    y: usize,
) -> (level: u8)
    requires
        gray@.len() == width * height,
        kernel.wf(),
    ensures
        level as int == convolved_at(
            gray@,
            width as int,
            height as int,
            kernel.side as int,
            kernel.weights@,
            x as int,
            y as int,
        ),
{
    let side: usize = kernel.side;
    let half: usize = side / 2;
    let taps: usize = kernel.weights.len();
    let cells: usize = gray.len();
    let mut sum: i128 = 0;
    let mut i: usize = 0;
    while i < taps
        invariant
            i <= taps,
            taps == kernel.weights@.len(),
            taps == side * side,
            side == kernel.side,
            side > 0,
            half == side / 2,
            gray@.len() == width * height,
            gray@.len() == cells,
            sum == weighted_sum(
                gray@,
                width as int,
                height as int,
                side as int,
                kernel.weights@,
                x as int,
                y as int,
                i as nat,
            ),
            -(i * 547608330240) <= sum <= i * 547608330240,
        decreases taps - i,
    {
        assert(weighted_sum(
            gray@,
            width as int,
            height as int,
            side as int,
            kernel.weights@,
            x as int,
            y as int,
            (i + 1) as nat,
        ) == sum + tap(
            gray@,
            width as int,
            height as int,
            side as int,
            kernel.weights@,
            x as int,
            y as int,
            i as int,
        ));
        let px: i128 = x as i128 + (i % side) as i128 - half as i128;
        let py: i128 = y as i128 + (i / side) as i128 - half as i128;
        if px >= 0 && px < width as i128 && py >= 0 && py < height as i128 {
            proof {
                lemma_cell_in_grid(px as int, py as int, width as int, height as int);
            }
            let at: usize = (py * (width as i128) + px) as usize;
            let level: i128 = gray[at] as i128;
            let weight: i128 = kernel.weights[i] as i128;
            assert(-547608330240 <= weight * level <= 547608330240) by (nonlinear_arith)
                requires
                    -2147483648 <= weight <= 2147483647,
                    0 <= level <= 255,
            ;
            sum = sum + weight * level;
        }
        i += 1;
    }
    if sum < 0 {
        0
    } else if sum > 255 {
        255
    } else {
        sum as u8
    }
}

/// A grey plane convolved with a kernel.
pub fn convolve_plane(gray: &Vec<u8>, width: u32, height: u32, kernel: &Kernel) -> (out: Vec<u8>)
    requires
        width > 0,
        gray@.len() == width * height,
        kernel.wf(),
    ensures
        out@ == convolved(
            gray@,
            width as int,
            height as int,
            kernel.side as int,
            kernel.weights@,
        ),
{
    let count: usize = gray.len();
    let row: usize = width as usize;
    let mut out: Vec<u8> = Vec::new();
    let mut j: usize = 0;
    while j < count
        invariant
            j <= count,
            count == gray@.len(),
            row == width,
            row > 0,
            gray@.len() == width * height,
            kernel.wf(),
            out@.len() == j,
            forall|p: int|
                0 <= p < j ==> out@[p] as int == convolved_at(
                    gray@,
                    width as int,
                    height as int,
                    kernel.side as int,
                    kernel.weights@,
                    p % (width as int),
                    p / (width as int),
                ),
        decreases count - j,
    {
        let level: u8 = convolve_at(gray, width, height, kernel, j % row, j / row);
        out.push(level);
        j += 1;
    }
    assert(out@ =~= convolved(
        gray@,
        width as int,
        height as int,
        kernel.side as int,
        kernel.weights@,
    ));
    out
}

/// The length of the gradient `(gx, gy)`, rounded down and clamped to 255.
pub fn gradient_magnitude(gx: u8, gy: u8) -> (m: u8)
    ensures
        m as int == magnitude(gx, gy),
{
    assert(gx * gx <= 65025 && gy * gy <= 65025) by (nonlinear_arith)
        requires
            gx <= 255,
            gy <= 255,
    ;
    let n: u32 = (gx as u32) * (gx as u32) + (gy as u32) * (gy as u32);
    let mut lo: u32 = 0;
    let mut hi: u32 = 255;
    while lo < hi
        invariant
            lo <= hi <= 255,
            lo * lo <= n,
            hi == 255 || (hi + 1) * (hi + 1) > n,
        decreases hi - lo,
    {
        let mid: u32 = (lo + hi + 1) / 2;
        assert(mid * mid <= 255 * 255) by (nonlinear_arith)
            requires
                0 <= mid <= 255,
        ;
        if mid * mid <= n {
            lo = mid;
        } else {
            hi = mid - 1;
        }
    }
    proof {
        lemma_capped_root_unique(n as int, 255, lo as int);
    }
    lo as u8
}

impl FilterType {
    /// Applies the filter to the grey levels of `img`. The result has the
    /// dimensions of `img` and holds the filtered level on all three channels.
    pub fn apply_filter(&self, img: &Image) -> (out: Image)
        requires
            img.wf(),
        ensures
            out.wf(),
            out.width == img.width,
            out.height == img.height,
            out.data@ == filtered(*self, *img),
    {
        match self {
            FilterType::Sobel => Self::apply_sobel_filter(img),
            FilterType::Fourier => Self::apply_fourier_filter(img),
        }
    }

    /// Edge detection: convolves the grey levels with the horizontal and the
    /// vertical gradient kernel and takes, pixel by pixel, the magnitude of
    /// the two clamped results.
    pub fn apply_sobel_filter(img: &Image) -> (out: Image)
        requires
            img.wf(),
        ensures
            out.wf(),
            out.width == img.width,
            out.height == img.height,
            out.data@ == filtered(FilterType::Sobel, *img),
    {
        let gray: Vec<u8> = luma_plane(img);
        let kernel_x: Kernel = Kernel::sobel_x();
        let kernel_y: Kernel = Kernel::sobel_y();
        let plane_x: Vec<u8> = convolve_plane(&gray, img.width, img.height, &kernel_x);
        let plane_y: Vec<u8> = convolve_plane(&gray, img.width, img.height, &kernel_y);
        let count: usize = gray.len();
        let mut out: Vec<u8> = Vec::new();
        let mut j: usize = 0;
        while j < count
            invariant
                j <= count,
                count == gray@.len(),
                plane_x@ == convolved(
                    gray@,
                    img.width as int,
                    img.height as int,
                    3,
                    sobel_x_weights(),
                ),
                plane_y@ == convolved(
                    gray@,
                    img.width as int,
                    img.height as int,
                    3,
                    sobel_y_weights(),
                ),
                out@.len() == j,
                forall|p: int|
                    0 <= p < j ==> out@[p] == edges(gray@, img.width as int, img.height as int)[p],
            decreases count - j,
        {
            let m: u8 = gradient_magnitude(plane_x[j], plane_y[j]);
            out.push(m);
            j += 1;
        }
        assert(out@ =~= edges(gray@, img.width as int, img.height as int));
        gray_to_image(&out, img.width, img.height)
    }

    /// Sharpening: one convolution of the grey levels with the sharpening
    /// kernel.
    pub fn apply_fourier_filter(img: &Image) -> (out: Image)
        requires
            img.wf(),
        ensures
            out.wf(),
            out.width == img.width,
            out.height == img.height,
            out.data@ == filtered(FilterType::Fourier, *img),
    {
        let kernel: Kernel = Kernel::sharpen();
        Self::apply_convolution_filter(img, &kernel)
    }

    /// Convolves the grey levels of `img` with `kernel`.
    pub fn apply_convolution_filter(img: &Image, kernel: &Kernel) -> (out: Image)
        requires
            img.wf(),
            kernel.wf(),
        ensures
            out.wf(),
            out.width == img.width,
            out.height == img.height,
            out.data@ == promoted(
                convolved(
                    gray_of(img.data@),
                    img.width as int,
                    img.height as int,
                    kernel.side as int,
                    kernel.weights@,
                ),
            ),
    {
        let gray: Vec<u8> = luma_plane(img);
        let plane: Vec<u8> = convolve_plane(&gray, img.width, img.height, kernel);
        gray_to_image(&plane, img.width, img.height)
    }
}

} // verus!
