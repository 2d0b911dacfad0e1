//! The box blur that turns a screenshot into a backdrop.

use vstd::prelude::*;

use crate::picture::{Image, Picture, Pixel};

verus! {

/// The three color channels of a pixel.
pub enum Channel {
    Red,
    Green,
    Blue,
}

/// What a pixel holds in one channel.
pub open spec fn channel(pixel: Pixel, c: Channel) -> int {
    match c {
        Channel::Red => pixel.red as int,
        Channel::Green => pixel.green as int,
        Channel::Blue => pixel.blue as int,
    }
}

/// The number from `0` to `size - 1` that is nearest to `v`.
pub open spec fn nearest(v: int, size: int) -> int {
    if v < 0 {
        0
    } else if v >= size {
        size - 1
    } else {
        v
    }
}

/// One channel at a place that may lie outside the picture: the nearest pixel counts there.
pub open spec fn sample(pic: Picture, c: Channel, x: int, y: int) -> int {
    channel(pic.pixel(nearest(x, pic.width as int), nearest(y, pic.height as int)), c)
}

/// One channel summed over the `n` places from column `x` on in row `y`.
pub open spec fn run_sum(pic: Picture, c: Channel, x: int, y: int, n: nat) -> int
    decreases n,
{
    if n == 0 {
        0
    } else {
        run_sum(pic, c, x, y, (n - 1) as nat) + sample(pic, c, x + n - 1, y)
    }
}

/// One channel summed over `m` such runs, from row `y` on downwards.
pub open spec fn window_sum(pic: Picture, c: Channel, x: int, y: int, n: nat, m: nat) -> int
    decreases m,
{
    if m == 0 {
        0
    } else {
        window_sum(pic, c, x, y, n, (m - 1) as nat) + run_sum(pic, c, x, y + m - 1, n)
    }
}

/// The mean of one channel over the square of places at most `r` away from (`x`, `y`),
/// rounded down.
pub open spec fn window_mean(pic: Picture, c: Channel, x: int, y: int, r: nat) -> int {
    let side = 2 * r + 1;
    window_sum(pic, c, x - r, y - r, side, side) / (side * side) as int
}

/// The blurred pixel at (`x`, `y`): the means of the colors, and opaque.
pub open spec fn blurred(pic: Picture, x: int, y: int, r: nat) -> Pixel {
    Pixel {
        red: window_mean(pic, Channel::Red, x, y, r) as u8,
        green: window_mean(pic, Channel::Green, x, y, r) as u8,
        blue: window_mean(pic, Channel::Blue, x, y, r) as u8,
        alpha: 255,
    }
}

/// The whole picture blurred.
pub open spec fn blur(pic: Picture, r: nat) -> Picture {
    Picture {
        pixels: Seq::new(
            pic.width * pic.height,
            |i: int| blurred(pic, i % pic.width as int, i / pic.width as int, r),
        ),
        ..pic
    }
}

/// Coordinates within reach of a blur of this radius, and the size of its window, are
/// 32-bit integers.
pub open spec fn blur_fits(width: u32, height: u32, radius: u32) -> bool {
    &&& width <= i32::MAX
    &&& width - 1 + radius <= i32::MAX
    &&& height <= i32::MAX
    &&& height - 1 + radius <= i32::MAX
    &&& (2 * radius + 1) * (2 * radius + 1) <= i32::MAX
}

/// A place lies in the picture and at most `r` away from (`x`, `y`) in either direction.
pub open spec fn in_window(pic: Picture, x: int, y: int, r: nat, u: int, v: int) -> bool {
    &&& 0 <= u < pic.width
    &&& 0 <= v < pic.height
    &&& x - r <= u <= x + r
    &&& y - r <= v <= y + r
}

proof fn lemma_run_sum_bounds(pic: Picture, c: Channel, x: int, y: int, n: nat, lo: int, hi: int)
    requires
        forall|u: int| x <= u < x + n ==> lo <= #[trigger] sample(pic, c, u, y) <= hi,
    ensures
        n * lo <= run_sum(pic, c, x, y, n) <= n * hi,
    decreases n,
{
    if n == 0 {
        assert(0 * lo == 0 && 0 * hi == 0) by (nonlinear_arith);
    } else {
        lemma_run_sum_bounds(pic, c, x, y, (n - 1) as nat, lo, hi);
        assert(lo <= sample(pic, c, x + n - 1, y) <= hi);
        assert((n - 1) * lo + lo == n * lo) by (nonlinear_arith);
        assert((n - 1) * hi + hi == n * hi) by (nonlinear_arith);
    }
}

proof fn lemma_window_sum_bounds(
    pic: Picture,
    c: Channel,
    x: int,
    y: int,
    n: nat,
    m: nat,
    lo: int,
    hi: int,
)
    requires
        forall|u: int, v: int|
            x <= u < x + n && y <= v < y + m ==> lo <= #[trigger] sample(pic, c, u, v) <= hi,
    ensures
        (n * m) * lo <= window_sum(pic, c, x, y, n, m) <= (n * m) * hi,
    decreases m,
{
    if m == 0 {
        assert((n * 0) * lo == 0 && (n * 0) * hi == 0) by (nonlinear_arith);
    } else {
        lemma_window_sum_bounds(pic, c, x, y, n, (m - 1) as nat, lo, hi);
        lemma_run_sum_bounds(pic, c, x, y + m - 1, n, lo, hi);
        assert((n * (m - 1)) * lo + n * lo == (n * m) * lo) by (nonlinear_arith);
        assert((n * (m - 1)) * hi + n * hi == (n * m) * hi) by (nonlinear_arith);
    }
}

/// Blurring invents no color: if a channel lies between two bounds in the part of the window
/// that is in the picture, so does the mean.
pub proof fn lemma_mean_within_window(
    pic: Picture,
    c: Channel,
    x: int,
    y: int,
    r: nat,
    lo: int,
    hi: int,
)
    requires
        0 <= x < pic.width,
        0 <= y < pic.height,
        forall|u: int, v: int|
            in_window(pic, x, y, r, u, v) ==> lo <= channel(#[trigger] pic.pixel(u, v), c) <= hi,
    ensures
        lo <= window_mean(pic, c, x, y, r) <= hi,
{
    let side = 2 * r + 1;
    assert forall|u: int, v: int|
        x - r <= u < x - r + side && y - r <= v < y - r + side implies lo <= #[trigger] sample(
        pic,
        c,
        u,
        v,
    ) <= hi by {
        let (nu, nv) = (nearest(u, pic.width as int), nearest(v, pic.height as int));
        assert(in_window(pic, x, y, r, nu, nv));
        assert(lo <= channel(pic.pixel(nu, nv), c) <= hi);
    }
    lemma_window_sum_bounds(pic, c, x - r, y - r, side, side, lo, hi);
    let total = window_sum(pic, c, x - r, y - r, side, side);
    let area = (side * side) as int;
    assert(area > 0) by (nonlinear_arith)
        requires
            side >= 1,
            area == side * side,
    ;
    assert(lo <= total / area <= hi) by (nonlinear_arith)
        requires
            area > 0,
            area * lo <= total <= area * hi,
    ;
}

/// What a blurred picture holds: the mean in each channel, and full alpha.
pub proof fn lemma_blurred_channel(pic: Picture, c: Channel, x: int, y: int, r: nat)
    requires
        0 <= x < pic.width,
        0 <= y < pic.height,
    ensures
        channel(blur(pic, r).pixel(x, y), c) == window_mean(pic, c, x, y, r),
        blur(pic, r).pixel(x, y).alpha == 255,
        blur(pic, r).wf(),
{
    crate::picture::lemma_cell_in_grid(x, y, pic.width as int, pic.height as int);
    crate::picture::lemma_cell_of_place(x, y, pic.width as int);
    lemma_mean_within_window(pic, c, x, y, r, 0, 255);
}

/// Blurs a picture. The result has the same size; each of its pixels has the mean of the colors
/// around it and is opaque.
pub fn box_blur(img: &Image, radius: u32) -> (out: Image)
    requires
        img.wf(),
        blur_fits(img.width, img.height, radius),
    ensures
        out.wf(),
        out.width == img.width,
        out.height == img.height,
        out@ == blur(img@, radius as nat),
{
    let mut out = Image { width: img.width, height: img.height, data: img.data.clone() };
    let ghost target = blur(img@, radius as nat);
    let ghost (w, h) = (img.width as int, img.height as int);
    let mut y: u32 = 0;
    while y < img.height
        invariant
            img.wf(),
            blur_fits(img.width, img.height, radius),
            target == blur(img@, radius as nat),
            w == img.width,
            h == img.height,
            y <= h,
            out.wf(),
            out.width == w,
            out.height == h,
            forall|i: int| 0 <= i < y * w ==> #[trigger] out@.pixels[i] == target.pixels[i],
        decreases h - y,
    {
        let mut x: u32 = 0;
        while x < img.width
            invariant
                img.wf(),
                blur_fits(img.width, img.height, radius),
                target == blur(img@, radius as nat),
                w == img.width,
                h == img.height,
                x <= w,
                y < h,
                out.wf(),
                out.width == w,
                out.height == h,
                forall|i: int|
                    0 <= i < y * w + x ==> #[trigger] out@.pixels[i] == target.pixels[i],
            decreases w - x,
        {
            let pixel = blurred_pixel(img, x, y, radius);
            proof {
                crate::picture::lemma_cell_in_grid(x as int, y as int, w, h);
                crate::picture::lemma_cell_of_place(x as int, y as int, w);
            }
            out.put_pixel(x, y, pixel);
            x = x + 1;
        }
        assert(y * w + w == (y + 1) * w) by (nonlinear_arith);
        y = y + 1;
    }
    assert(h * w == w * h) by (nonlinear_arith);
    assert(out@.pixels =~= target.pixels);
    out
}

/// The blurred pixel at (`x`, `y`).
fn blurred_pixel(img: &Image, x: u32, y: u32, radius: u32) -> (pixel: Pixel)
    requires
        img.wf(),
        blur_fits(img.width, img.height, radius),
        x < img.width,
        y < img.height,
    ensures
        pixel == blurred(img@, x as int, y as int, radius as nat),
{
    proof {
        assert(radius <= 0x10000) by (nonlinear_arith)
            requires
                (2 * radius + 1) * (2 * radius + 1) <= i32::MAX,
        ;
    }
    let r: i32 = radius as i32;
    let side: i32 = 2 * r + 1;
    let area: u64 = (side * side) as u64;
    let ghost n = (2 * radius + 1) as nat;
    let ghost left = x - radius;
    let ghost top = y - radius;
    let mut rs: u64 = 0;
    let mut gs: u64 = 0;
    let mut bs: u64 = 0;
    let mut dy: i32 = -r;
    while dy <= r
        invariant
            img.wf(),
            blur_fits(img.width, img.height, radius),
            x < img.width,
            y < img.height,
            r == radius <= 0x10000,
            n == 2 * radius + 1,
            n * n <= i32::MAX,
            left == x - radius,
            top == y - radius,
            -r <= dy <= r + 1,
            rs == window_sum(img@, Channel::Red, left, top, n, (dy + r) as nat),
            gs == window_sum(img@, Channel::Green, left, top, n, (dy + r) as nat),
            bs == window_sum(img@, Channel::Blue, left, top, n, (dy + r) as nat),
            rs <= 255 * (n * (dy + r)),
            gs <= 255 * (n * (dy + r)),
            bs <= 255 * (n * (dy + r)),
        decreases r + 1 - dy,
    {
        let ghost row = (dy + r) as nat;
        let mut dx: i32 = -r;
        while dx <= r
            invariant
                img.wf(),
                blur_fits(img.width, img.height, radius),
                x < img.width,
                y < img.height,
                r == radius <= 0x10000,
                n == 2 * radius + 1,
                n * n <= i32::MAX,
                left == x - radius,
                top == y - radius,
                -r <= dy <= r,
                row == dy + r,
                -r <= dx <= r + 1,
                rs == window_sum(img@, Channel::Red, left, top, n, row) + run_sum(
                    img@,
                    Channel::Red,
                    left,
                    top + row,
                    (dx + r) as nat,
                ),
                gs == window_sum(img@, Channel::Green, left, top, n, row) + run_sum(
                    img@,
                    Channel::Green,
                    left,
                    top + row,
                    (dx + r) as nat,
                ),
                bs == window_sum(img@, Channel::Blue, left, top, n, row) + run_sum(
                    img@,
                    Channel::Blue,
                    left,
                    top + row,
                    (dx + r) as nat,
                ),
                rs <= 255 * (n * row) + 255 * (dx + r),
                gs <= 255 * (n * row) + 255 * (dx + r),
                bs <= 255 * (n * row) + 255 * (dx + r),
            decreases r + 1 - dx,
        {
            let px: u32 = nearest_in(x as i32 + dx, img.width);
            let py: u32 = nearest_in(y as i32 + dy, img.height);
            let p = img.get_pixel(px, py);
            assert(n * row <= n * n) by (nonlinear_arith)
                requires
                    row <= n,
            ;
            rs = rs + p.red as u64;
            gs = gs + p.green as u64;
            bs = bs + p.blue as u64;
            dx = dx + 1;
        }
        assert(n * row + n == n * (row + 1)) by (nonlinear_arith);
        dy = dy + 1;
    }
    proof {
        assert(n * n > 0) by (nonlinear_arith)
            requires
                n >= 1,
        ;
        lemma_mean_within_window(img@, Channel::Red, x as int, y as int, radius as nat, 0, 255);
        lemma_mean_within_window(img@, Channel::Green, x as int, y as int, radius as nat, 0, 255);
        lemma_mean_within_window(img@, Channel::Blue, x as int, y as int, radius as nat, 0, 255);
    }
    Pixel {
        red: (rs / area) as u8,
        green: (gs / area) as u8,
        blue: (bs / area) as u8,
        alpha: 255,
    }
}

/// The three blurs, one after the other, that make a backdrop.
pub open spec fn backdrop(pic: Picture) -> Picture {
    blur(blur(blur(pic, 14), 12), 10)
}

/// Blurs a screenshot into a backdrop.
pub fn blur_backdrop(shot: &Image) -> (out: Image)
    requires
        shot.wf(),
        shot.width - 1 + 14 <= i32::MAX,
        shot.height - 1 + 14 <= i32::MAX,
    ensures
        out.wf(),
        out@ == backdrop(shot@),
{
    assert((2 * 14 + 1) * (2 * 14 + 1) <= i32::MAX) by (nonlinear_arith);
    assert((2 * 12 + 1) * (2 * 12 + 1) <= i32::MAX) by (nonlinear_arith);
    assert((2 * 10 + 1) * (2 * 10 + 1) <= i32::MAX) by (nonlinear_arith);
    let first = box_blur(shot, 14);
    let second = box_blur(&first, 12);
    box_blur(&second, 10)
}

/// The number below `size` that is nearest to `v`.
fn nearest_in(v: i32, size: u32) -> (n: u32)
    requires
        0 < size <= i32::MAX,
    ensures
        n == nearest(v as int, size as int),
        n < size,
{
    if v < 0 {
        0
    } else if v as u32 >= size {
        size - 1
    } else {
        v as u32
    }
}

} // verus!
