use vstd::prelude::*;

use crate::pixel::{Color, PixelGrid};

verus! {

/// The largest kernel size accepted: with it the visited square has 4097 × 4097 cells,
/// and 255 · 4097² still fits the 32-bit channel accumulators.
pub const MAX_KERNEL_SIZE: u32 = 4096;

/// Why a run was refused before any pixel was touched.
#[derive(Clone, Copy, Debug, PartialEq, Eq, Structural)]
pub enum InputError {
    /// Fewer arguments than the kernel size and the two paths.
    MissingArguments,
    /// The kernel size is not a non-negative decimal number that fits 32 bits.
    NotANumber,
    /// A kernel size of zero has no neighborhood to average.
    ZeroKernel,
    /// A kernel size above `MAX_KERNEL_SIZE`.
    KernelTooLarge,
}

pub open spec fn valid_kernel_size(k: int) -> bool {
    1 <= k <= MAX_KERNEL_SIZE
}

/// Pixels closer than `k / 2` to an edge are passed through unchanged.
pub open spec fn is_border(width: int, height: int, x: int, y: int, k: int) -> bool {
    let half = k / 2;
    x < half || x >= width - half || y < half || y >= height - half
}

/// Side of the square that is visited around a pixel: `2 · (k / 2) + 1`, which is `k` for
/// odd `k` and `k + 1` for even `k`.
pub open spec fn window_side(k: int) -> int {
    2 * (k / 2) + 1
}

/// Channel `ch` of a color: 0 is red, 1 green, anything else blue.
pub open spec fn channel(c: Color, ch: int) -> int {
    if ch == 0 {
        c.r as int
    } else if ch == 1 {
        c.g as int
    } else {
        c.b as int
    }
}

/// Sum of channel `ch` over the `n` cells `(lo, y)`, ..., `(lo + n - 1, y)`.
pub open spec fn row_sum(g: PixelGrid, ch: int, lo: int, n: nat, y: int) -> int
    decreases n,
{
    if n == 0 {
        0
    } else {
        row_sum(g, ch, lo, (n - 1) as nat, y) + channel(g.at(lo + n - 1, y), ch)
    }
}

/// Sum of channel `ch` over the `rows` rows of `side` cells whose top-left cell is
/// `(lo_x, lo_y)`.
pub open spec fn window_sum(g: PixelGrid, ch: int, lo_x: int, lo_y: int, side: nat, rows: nat) -> int
    decreases rows,
{
    if rows == 0 {
        0
    } else {
        window_sum(g, ch, lo_x, lo_y, side, (rows - 1) as nat) + row_sum(
            g,
            ch,
            lo_x,
            side,
            lo_y + rows - 1,
        )
    }
}

/// Floor of the mean of channel `ch` over the square centred on `(x, y)`.
pub open spec fn window_mean(g: PixelGrid, x: int, y: int, k: int, ch: int) -> int {
    let half = k / 2;
    let side = window_side(k);
    window_sum(g, ch, x - half, y - half, side as nat, side as nat) / (side * side)
}

/// The color that the box filter of size `k` gives at `(x, y)`.
pub open spec fn box_filtered(g: PixelGrid, x: int, y: int, k: int) -> Color {
    if is_border(g.spec_width(), g.spec_height(), x, y, k) {
        g.at(x, y)
    } else {
        Color {
            r: window_mean(g, x, y, k, 0) as u8,
            g: window_mean(g, x, y, k, 1) as u8,
            b: window_mean(g, x, y, k, 2) as u8,
            a: g.at(x, y).a,
        }
    }
}

/// `out` is `src` blurred with kernel size `k`: same size, and every coordinate holds the
/// filtered color.
pub open spec fn blurred(src: PixelGrid, out: PixelGrid, k: int) -> bool {
    &&& out.wf()
    &&& out.spec_width() == src.spec_width()
    &&& out.spec_height() == src.spec_height()
    &&& forall|x: int, y: int| #[trigger]
        src.in_bounds(x, y) ==> out.at(x, y) == box_filtered(src, x, y, k)
}

pub proof fn lemma_row_sum_bounds(g: PixelGrid, ch: int, lo: int, n: nat, y: int)
    ensures
        0 <= row_sum(g, ch, lo, n, y) <= 255 * n,
    decreases n,
{
    if n > 0 {
        lemma_row_sum_bounds(g, ch, lo, (n - 1) as nat, y);
    }
}

pub proof fn lemma_window_sum_bounds(g: PixelGrid, ch: int, lo_x: int, lo_y: int, side: nat, rows: nat)
    ensures
        0 <= window_sum(g, ch, lo_x, lo_y, side, rows) <= 255 * side * rows,
    decreases rows,
{
    if rows > 0 {
        lemma_window_sum_bounds(g, ch, lo_x, lo_y, side, (rows - 1) as nat);
        lemma_row_sum_bounds(g, ch, lo_x, side, lo_y + rows - 1);
        assert(255 * side * (rows - 1) + 255 * side == 255 * side * rows) by (nonlinear_arith);
    }
}

proof fn lemma_mean_fits_channel(total: int, area: int)
    requires
        0 < area,
        0 <= total <= 255 * area,
    ensures
        0 <= total / area <= 255,
{
    assert(0 <= total / area <= 255) by (nonlinear_arith)
        requires
            0 < area,
            0 <= total <= 255 * area,
    ;
}

/// Sums channel `ch` over the visited square around `(x, y)`.
fn window_total(img: &PixelGrid, x: u32, y: u32, half: u32, ch: u8) -> (total: u32)
    requires
        img.wf(),
        half <= MAX_KERNEL_SIZE / 2,
        half <= x,
        x + half < img.spec_width(),
        half <= y,
        y + half < img.spec_height(),
    ensures
        total == window_sum(*img, ch as int, x - half, y - half, (2 * half + 1) as nat, (2 * half + 1) as nat),
{
    let side: u32 = 2 * half + 1;
    let x0: u32 = x - half;
    let y0: u32 = y - half;
    let ghost g = *img;
    proof {
        assert(side * side <= 4097 * 4097) by (nonlinear_arith)
            requires
                side <= 4097,
        ;
    }
    let mut total: u32 = 0;
    let mut dy: u32 = 0;
    while dy < side
        invariant
            g == *img,
            img.wf(),
            side == 2 * half + 1,
            side * side <= 4097 * 4097,
            x0 + side <= img.spec_width(),
            y0 + side <= img.spec_height(),
            dy <= side,
            total == window_sum(g, ch as int, x0 as int, y0 as int, side as nat, dy as nat),
        decreases side - dy,
    {
        let mut dx: u32 = 0;
        while dx < side
            invariant
                g == *img,
                img.wf(),
                side == 2 * half + 1,
                side * side <= 4097 * 4097,
                x0 + side <= img.spec_width(),
                y0 + side <= img.spec_height(),
                dy < side,
                dx <= side,
                total == window_sum(g, ch as int, x0 as int, y0 as int, side as nat, dy as nat)
                    + row_sum(g, ch as int, x0 as int, dx as nat, y0 + dy),
            decreases side - dx,
        {
            let c = img.get_pixel(x0 + dx, y0 + dy);
            let v: u32 = if ch == 0 {
                c.r as u32
            } else if ch == 1 {
                c.g as u32
            } else {
                c.b as u32
            };
            proof {
                lemma_window_sum_bounds(g, ch as int, x0 as int, y0 as int, side as nat, dy as nat);
                lemma_row_sum_bounds(g, ch as int, x0 as int, dx as nat, y0 + dy);
                assert(255 * side * dy + 255 * dx + 255 <= 255 * (side * side)) by (nonlinear_arith)
                    requires
                        dy < side,
                        dx < side,
                ;
            }
            total = total + v;
            dx = dx + 1;
        }
        dy = dy + 1;
    }
    total
}

/// The box-filtered color of `(x, y)`: the source color near the border, else the floor
/// of the mean of each of red, green and blue over the visited square, with the source
/// alpha.
///
/// The mean divides by the number of cells visited, `(2 · (k / 2) + 1)²`. For odd `k`
/// that is `k²`; for even `k` the square is one cell wider than `k`, and dividing by `k²`
/// there would not give a mean, so the visited count is used throughout.
pub fn apply_box_kernel(img: &PixelGrid, x: u32, y: u32, ksize: u32) -> (c: Color)
    requires
        img.wf(),
        img.in_bounds(x as int, y as int),
        valid_kernel_size(ksize as int),
    ensures
        c == box_filtered(*img, x as int, y as int, ksize as int),
{
    let pixel = img.get_pixel(x, y);
    let half: u32 = ksize / 2;
    let width = img.width();
    let height = img.height();
    if x < half || width - x <= half || y < half || height - y <= half {
        return pixel;
    }
    let side: u32 = 2 * half + 1;
    proof {
        assert(1 <= side * side <= 4097 * 4097 && 255 * side * side == 255 * (side * side))
            by (nonlinear_arith)
            requires
                1 <= side <= 4097,
        ;
    }
    let area: u32 = side * side;
    let red = window_total(img, x, y, half, 0);
    let green = window_total(img, x, y, half, 1);
    let blue = window_total(img, x, y, half, 2);
    proof {
        let lo_x = x - half;
        let lo_y = y - half;
        lemma_window_sum_bounds(*img, 0, lo_x, lo_y, side as nat, side as nat);
        lemma_window_sum_bounds(*img, 1, lo_x, lo_y, side as nat, side as nat);
        lemma_window_sum_bounds(*img, 2, lo_x, lo_y, side as nat, side as nat);
        lemma_mean_fits_channel(red as int, side * side);
        lemma_mean_fits_channel(green as int, side * side);
        lemma_mean_fits_channel(blue as int, side * side);
    }
    Color { r: (red / area) as u8, g: (green / area) as u8, b: (blue / area) as u8, a: pixel.a }
}

/// Applies the box filter of size `ksize` to every coordinate of `img`, reading only
/// from `img` and writing each coordinate of a new grid of the same size once.
pub fn blur_pixels(img: &PixelGrid, ksize: u32) -> (out: PixelGrid)
    requires
        img.wf(),
        valid_kernel_size(ksize as int),
    ensures
        blurred(*img, out, ksize as int),
{
    let width = img.width();
    let height = img.height();
    let mut out = PixelGrid::filled(width, height, Color { r: 0, g: 0, b: 0, a: 0 });
    let mut y: u32 = 0;
    while y < height
        invariant
            img.wf(),
            valid_kernel_size(ksize as int),
            width == img.spec_width(),
            height == img.spec_height(),
            out.wf(),
            out.spec_width() == width,
            out.spec_height() == height,
            y <= height,
            forall|i: int, j: int|
                0 <= i < width && 0 <= j < y ==> #[trigger] out.at(i, j) == box_filtered(*img, i, j, ksize as int),
        decreases height - y,
    {
        let mut x: u32 = 0;
        while x < width
            invariant
                img.wf(),
                valid_kernel_size(ksize as int),
                width == img.spec_width(),
                height == img.spec_height(),
                out.wf(),
                out.spec_width() == width,
                out.spec_height() == height,
                y < height,
                x <= width,
                forall|i: int, j: int|
                    0 <= i < width && 0 <= j < y ==> #[trigger] out.at(i, j) == box_filtered(*img, i, j, ksize as int),
                forall|i: int| 0 <= i < x ==> #[trigger] out.at(i, y as int) == box_filtered(*img, i, y as int, ksize as int),
            decreases width - x,
        {
            let c = apply_box_kernel(img, x, y, ksize);
            out.put_pixel(x, y, c);
            x = x + 1;
        }
        y = y + 1;
    }
    out
}

/// Checks a requested kernel size: `ZeroKernel` for 0, `KernelTooLarge` above
/// `MAX_KERNEL_SIZE`, else the size itself.
pub fn check_kernel_size(ksize: u32) -> (r: Result<u32, InputError>)
    ensures
        r == (if ksize == 0 {
            Err(InputError::ZeroKernel)
        } else if ksize > MAX_KERNEL_SIZE {
            Err(InputError::KernelTooLarge)
        } else {
            Ok(ksize)
        }),
{
    if ksize == 0 {
        Err(InputError::ZeroKernel)
    } else if ksize > MAX_KERNEL_SIZE {
        Err(InputError::KernelTooLarge)
    } else {
        Ok(ksize)
    }
}

/// Blurs `img` with kernel size `ksize`, refusing a size that `check_kernel_size` refuses.
pub fn blur(img: &PixelGrid, ksize: u32) -> (r: Result<PixelGrid, InputError>)
    requires
        img.wf(),
    ensures
        ksize == 0 ==> r == Err::<PixelGrid, InputError>(InputError::ZeroKernel),
        ksize > MAX_KERNEL_SIZE ==> r == Err::<PixelGrid, InputError>(InputError::KernelTooLarge),
        valid_kernel_size(ksize as int) <==> r is Ok,
        r matches Ok(out) ==> blurred(*img, out, ksize as int),
{
    match check_kernel_size(ksize) {
        Ok(k) => Ok(blur_pixels(img, k)),
        Err(e) => Err(e),
    }
}

/// The sum over a row of identical colors is the row length times the channel.
pub proof fn lemma_row_sum_uniform(g: PixelGrid, ch: int, lo: int, n: nat, y: int, c: Color)
    requires
        forall|i: int| lo <= i < lo + n ==> #[trigger] g.at(i, y) == c,
    ensures
        row_sum(g, ch, lo, n, y) == n * channel(c, ch),
    decreases n,
{
    if n > 0 {
        lemma_row_sum_uniform(g, ch, lo, (n - 1) as nat, y, c);
        assert(g.at(lo + n - 1, y) == c);
        assert((n - 1) * channel(c, ch) + channel(c, ch) == n * channel(c, ch)) by (nonlinear_arith);
    } else {
        assert(0 * channel(c, ch) == 0) by (nonlinear_arith);
    }
}

/// The sum over a block of identical colors is its cell count times the channel.
pub proof fn lemma_window_sum_uniform(
    g: PixelGrid,
    ch: int,
    lo_x: int,
    lo_y: int,
    side: nat,
    rows: nat,
    c: Color,
)
    requires
        forall|i: int, j: int|
            lo_x <= i < lo_x + side && lo_y <= j < lo_y + rows ==> #[trigger] g.at(i, j) == c,
    ensures
        window_sum(g, ch, lo_x, lo_y, side, rows) == rows * side * channel(c, ch),
    decreases rows,
{
    if rows > 0 {
        lemma_window_sum_uniform(g, ch, lo_x, lo_y, side, (rows - 1) as nat, c);
        let y = lo_y + rows - 1;
        assert forall|i: int| lo_x <= i < lo_x + side implies #[trigger] g.at(i, y) == c by {
            assert(g.at(i, y) == c);
        }
        lemma_row_sum_uniform(g, ch, lo_x, side, y, c);
        let v = channel(c, ch);
        assert((rows - 1) * side * v + side * v == rows * side * v) by (nonlinear_arith);
    } else {
        assert(0 * side * channel(c, ch) == 0) by (nonlinear_arith);
    }
}

/// Every pixel of the border band, closer than `k / 2` to an edge, keeps its source color.
pub proof fn lemma_border_unchanged(src: PixelGrid, out: PixelGrid, k: int, x: int, y: int)
    requires
        blurred(src, out, k),
        src.in_bounds(x, y),
        is_border(src.spec_width(), src.spec_height(), x, y, k),
    ensures
        out.at(x, y) == src.at(x, y),
{
    assert(out.at(x, y) == box_filtered(src, x, y, k));
}

/// The alpha channel of every pixel is carried over from the source.
pub proof fn lemma_alpha_preserved(src: PixelGrid, out: PixelGrid, k: int, x: int, y: int)
    requires
        blurred(src, out, k),
        src.in_bounds(x, y),
    ensures
        out.at(x, y).a == src.at(x, y).a,
{
    assert(out.at(x, y) == box_filtered(src, x, y, k));
}

/// Blurring keeps the width and the height.
pub proof fn lemma_dimensions_kept(src: PixelGrid, out: PixelGrid, k: int)
    requires
        blurred(src, out, k),
    ensures
        out.spec_width() == src.spec_width(),
        out.spec_height() == src.spec_height(),
        out.wf(),
{
}

/// Blurring a grid whose pixels all hold one color gives back that color everywhere.
pub proof fn lemma_uniform_unchanged(src: PixelGrid, out: PixelGrid, k: int, c: Color)
    requires
        src.wf(),
        valid_kernel_size(k),
        blurred(src, out, k),
        forall|x: int, y: int| src.in_bounds(x, y) ==> #[trigger] src.at(x, y) == c,
    ensures
        forall|x: int, y: int| src.in_bounds(x, y) ==> #[trigger] out.at(x, y) == c,
{
    assert forall|x: int, y: int| src.in_bounds(x, y) implies #[trigger] out.at(x, y) == c by {
        assert(out.at(x, y) == box_filtered(src, x, y, k));
        if !is_border(src.spec_width(), src.spec_height(), x, y, k) {
            let half = k / 2;
            let side = window_side(k);
            assert forall|i: int, j: int|
                x - half <= i < x - half + side && y - half <= j < y - half + side implies #[trigger] src.at(i, j)
                == c by {
                assert(src.in_bounds(i, j));
            }
            assert(1 <= side * side) by (nonlinear_arith)
                requires
                    1 <= side,
            ;
            lemma_window_sum_uniform(src, 0, x - half, y - half, side as nat, side as nat, c);
            lemma_window_sum_uniform(src, 1, x - half, y - half, side as nat, side as nat, c);
            lemma_window_sum_uniform(src, 2, x - half, y - half, side as nat, side as nat, c);
            lemma_exact_mean(side * side, c.r as int);
            lemma_exact_mean(side * side, c.g as int);
            lemma_exact_mean(side * side, c.b as int);
        }
    }
}

proof fn lemma_exact_mean(area: int, v: int)
    requires
        1 <= area,
    ensures
        area * v / area == v,
{
    assert(area * v / area == v) by (nonlinear_arith)
        requires
            1 <= area,
    ;
}

/// With kernel size 1 every pixel keeps its source color.
pub proof fn lemma_unit_kernel_identity(src: PixelGrid, out: PixelGrid)
    requires
        src.wf(),
        blurred(src, out, 1),
    ensures
        forall|x: int, y: int| src.in_bounds(x, y) ==> #[trigger] out.at(x, y) == src.at(x, y),
{
    assert forall|x: int, y: int| src.in_bounds(x, y) implies #[trigger] out.at(x, y) == src.at(x, y) by {
        assert(out.at(x, y) == box_filtered(src, x, y, 1));
        let c = src.at(x, y);
        assert forall|i: int, j: int| x <= i < x + 1 && y <= j < y + 1 implies #[trigger] src.at(i, j) == c by {}
        assert(1int / 2 == 0 && window_side(1) == 1);
        assert forall|ch: int| #[trigger] window_mean(src, x, y, 1, ch) == channel(c, ch) by {
            lemma_window_sum_uniform(src, ch, x, y, 1, 1, c);
            assert(1 * 1 * channel(c, ch) == channel(c, ch)) by (nonlinear_arith);
        }
        assert(window_mean(src, x, y, 1, 0) == c.r);
        assert(window_mean(src, x, y, 1, 1) == c.g);
        assert(window_mean(src, x, y, 1, 2) == c.b);
    }
}

/// For every accepted kernel size the channel sum over the visited square, even of
/// pure white, stays within the 32-bit accumulator.
pub proof fn lemma_accumulator_fits(g: PixelGrid, k: int, ch: int, x: int, y: int)
    requires
        valid_kernel_size(k),
    ensures
        0 <= window_sum(g, ch, x - k / 2, y - k / 2, window_side(k) as nat, window_side(k) as nat)
            <= 255 * window_side(k) * window_side(k) <= u32::MAX,
{
    let side = window_side(k);
    lemma_window_sum_bounds(g, ch, x - k / 2, y - k / 2, side as nat, side as nat);
    assert(255 * side * side <= u32::MAX) by (nonlinear_arith)
        requires
            1 <= side <= 4097,
    ;
}

} // verus!
