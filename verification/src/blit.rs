//! Painting the backdrop and the animation onto the canvas.
//!
//! The canvas holds premultiplied pixels, four bytes each, in the byte order of the display
//! server: blue stands where a picture has its red, and red where it has its blue. How a channel
//! is mixed with what is there is a table that the caller makes.

use vstd::prelude::*;

use crate::picture::{Image, Picture, Pixel};

verus! {

/// What `demultiply` of `tiny_skia` makes of a premultiplied color.
pub uninterp spec fn demultiplied(r: u8, g: u8, b: u8, a: u8) -> (u8, u8, u8, u8);

/// Calls `tiny_skia::PremultipliedColorU8::demultiply` on a pixel with these four bytes.
///
/// The result depends on the bytes alone. The alpha stays, and an opaque color stays as it is.
#[verifier::external_body]
fn demultiply(r: u8, g: u8, b: u8, a: u8) -> (color: (u8, u8, u8, u8))
    ensures
        color == demultiplied(r, g, b, a),
        color.3 == a,
        a == 255 ==> color == (r, g, b, a),
{
    let bytes = [r, g, b, a];
    let color = tiny_skia::PixmapRef::from_bytes(&bytes, 1, 1).unwrap().pixels()[0].demultiply();
    (color.red(), color.green(), color.blue(), color.alpha())
}

/// A channel times an alpha, both out of 255, rounded.
pub open spec fn scaled(c: u8, a: u8) -> u8 {
    let prod = c * a + 128;
    ((prod + prod / 256) / 256) as u8
}

/// A color with its channels multiplied by its alpha.
pub open spec fn premultiplied(r: u8, g: u8, b: u8, a: u8) -> (u8, u8, u8, u8) {
    if a == 255 {
        (r, g, b, a)
    } else {
        (scaled(r, a), scaled(g, a), scaled(b, a), a)
    }
}

/// Calls `tiny_skia::ColorU8::premultiply`, which multiplies each channel by the alpha; an
/// opaque color stays as it is.
#[verifier::external_body]
fn premultiply(r: u8, g: u8, b: u8, a: u8) -> (color: (u8, u8, u8, u8))
    ensures
        color == premultiplied(r, g, b, a),
{
    let color = tiny_skia::ColorU8::from_rgba(r, g, b, a).premultiply();
    (color.red(), color.green(), color.blue(), color.alpha())
}

/// How two values of a channel mix: what is painted, over what is there.
#[derive(Debug)]
pub struct Mix {
    /// The mixed value for `painted` over `there` stands at `256 * painted + there`.
    pub table: Vec<u8>,
}

impl Mix {
    /// There is an entry for every pair of values.
    pub open spec fn wf(self) -> bool {
        self.table@.len() == 0x10000
    }

    /// The mixed value of `painted` over `there`.
    pub open spec fn of(self, painted: u8, there: u8) -> u8 {
        self.table@[256 * painted + there]
    }

    /// Looks up a mixed value.
    pub fn get(&self, painted: u8, there: u8) -> (mixed: u8)
        requires
            self.wf(),
        ensures
            mixed == self.of(painted, there),
    {
        self.table[256 * painted as usize + there as usize]
    }
}

/// The channels of a pixel of the canvas with the alpha taken out. An opaque pixel has its
/// channels as they are.
pub open spec fn channels_of(there: Pixel) -> (u8, u8, u8) {
    if there.alpha == 255 {
        (there.red, there.green, there.blue)
    } else {
        let (r, g, b, _a) = demultiplied(there.red, there.green, there.blue, there.alpha);
        (r, g, b)
    }
}

/// The pixel that a pixel of the canvas becomes when the three values are mixed into its three
/// channels, in their order. It is opaque.
pub open spec fn mixed_pixel(there: Pixel, first: u8, second: u8, third: u8, mix: Mix) -> Pixel {
    let (r, g, b) = channels_of(there);
    let (nr, ng, nb, na) = premultiplied(
        mix.of(first, r),
        mix.of(second, g),
        mix.of(third, b),
        255,
    );
    Pixel { red: nr, green: ng, blue: nb, alpha: na }
}

fn mix_pixel(there: Pixel, first: u8, second: u8, third: u8, mix: &Mix) -> (pixel: Pixel)
    requires
        mix.wf(),
    ensures
        pixel == mixed_pixel(there, first, second, third, *mix),
{
    let (r, g, b, _a) = demultiply(there.red, there.green, there.blue, there.alpha);
    let (nr, ng, nb, na) = premultiply(
        mix.get(first, r),
        mix.get(second, g),
        mix.get(third, b),
        255,
    );
    Pixel { red: nr, green: ng, blue: nb, alpha: na }
}

fn read_pixel(canvas: &[u8], i: usize) -> (pixel: Pixel)
    requires
        4 * i + 3 < canvas@.len(),
    ensures
        pixel == crate::picture::pixel_at(canvas@, i as int),
{
    assert(canvas.len() == canvas@.len());
    Pixel {
        red: canvas[4 * i],
        green: canvas[4 * i + 1],
        blue: canvas[4 * i + 2],
        alpha: canvas[4 * i + 3],
    }
}

fn write_pixel(canvas: &mut [u8], i: usize, pixel: Pixel)
    requires
        4 * i + 3 < old(canvas)@.len(),
    ensures
        final(canvas)@.len() == old(canvas)@.len(),
        crate::picture::pixel_at(final(canvas)@, i as int) == pixel,
        forall|j: int|
            0 <= j && j != i && 4 * j + 3 < old(canvas)@.len()
                ==> #[trigger] crate::picture::pixel_at(final(canvas)@, j)
                == crate::picture::pixel_at(old(canvas)@, j),
        forall|k: int|
            4 * i + 4 <= k < old(canvas)@.len() ==> #[trigger] final(canvas)@[k] == old(canvas)@[k],
{
    assert(canvas.len() == canvas@.len());
    canvas[4 * i] = pixel.red;
    canvas[4 * i + 1] = pixel.green;
    canvas[4 * i + 2] = pixel.blue;
    canvas[4 * i + 3] = pixel.alpha;
}

/// The last place below `size` if `v` is beyond it, else `v`.
pub open spec fn at_most_last(v: u32, size: nat) -> int {
    if v < size {
        v as int
    } else {
        size - 1
    }
}

/// The canvas with a backdrop over all of it. The pixel in column `x` of row `y` takes in the
/// pixel of the backdrop in column `cols[x]` of row `rows[y]`, or in the last column or row, with
/// red and blue in the places that the canvas has them in.
pub open spec fn with_background(
    canvas: Picture,
    img: Picture,
    cols: Seq<u32>,
    rows: Seq<u32>,
    mix: Mix,
) -> Picture {
    Picture {
        pixels: Seq::new(
            canvas.pixels.len(),
            |i: int|
                {
                    let x = i % canvas.width as int;
                    let y = i / canvas.width as int;
                    let p = img.pixel(
                        at_most_last(cols[x], img.width),
                        at_most_last(rows[y], img.height),
                    );
                    mixed_pixel(canvas.pixels[i], p.blue, p.green, p.red, mix)
                },
        ),
        ..canvas
    }
}

fn limit(v: u32, size: u32) -> (n: u32)
    requires
        size > 0,
    ensures
        n == at_most_last(v, size as nat),
        n < size,
{
    if v < size {
        v
    } else {
        size - 1
    }
}

/// Paints a backdrop over the whole canvas of `pw` by `ph` pixels.
pub fn blit_background(
    canvas: &mut [u8],
    pw: u32,
    ph: u32,
    img: &Image,
    cols: &Vec<u32>,
    rows: &Vec<u32>,
    mix: &Mix,
)
    requires
        4 * (pw * ph) <= old(canvas)@.len(),
        img.wf(),
        img.width > 0,
        img.height > 0,
        cols@.len() == pw,
        rows@.len() == ph,
        mix.wf(),
    ensures
        final(canvas)@.len() == old(canvas)@.len(),
        crate::picture::picture_of(pw, ph, final(canvas)@) == with_background(
            crate::picture::picture_of(pw, ph, old(canvas)@),
            img@,
            cols@,
            rows@,
            *mix,
        ),
        forall|k: int|
            4 * (pw * ph) <= k < old(canvas)@.len() ==> #[trigger] final(canvas)@[k] == old(
                canvas,
            )@[k],
{
    let ghost before = canvas@;
    let ghost (w, h) = (pw as int, ph as int);
    let ghost target = with_background(
        crate::picture::picture_of(pw, ph, before),
        img@,
        cols@,
        rows@,
        *mix,
    );
    assert(canvas.len() == canvas@.len());
    assert(h * w == w * h) by (nonlinear_arith);
    let mut i: usize = 0;
    let mut py: u32 = 0;
    while py < ph
        invariant
            4 * (w * h) <= before.len() <= usize::MAX,
            canvas@.len() == before.len(),
            img.wf(),
            img.width > 0,
            img.height > 0,
            cols@.len() == pw,
            rows@.len() == ph,
            mix.wf(),
            w == pw,
            h == ph,
            py <= h,
            h * w == w * h,
            i == py * w,
            target == with_background(
                crate::picture::picture_of(pw, ph, before),
                img@,
                cols@,
                rows@,
                *mix,
            ),
            forall|j: int|
                0 <= j < i ==> #[trigger] crate::picture::pixel_at(canvas@, j) == target.pixels[j],
            forall|j: int|
                i <= j < w * h ==> #[trigger] crate::picture::pixel_at(canvas@, j)
                    == crate::picture::pixel_at(before, j),
            forall|k: int| 4 * (w * h) <= k < before.len() ==> #[trigger] canvas@[k] == before[k],
        decreases h - py,
    {
        let mut px: u32 = 0;
        assert(py * w + w == (py + 1) * w) by (nonlinear_arith);
        assert((py + 1) * w <= h * w) by (nonlinear_arith)
            requires
                py + 1 <= h,
                w >= 0,
        ;
        while px < pw
            invariant
                4 * (w * h) <= before.len() <= usize::MAX,
                canvas@.len() == before.len(),
                img.wf(),
                img.width > 0,
                img.height > 0,
                cols@.len() == pw,
                rows@.len() == ph,
                mix.wf(),
                w == pw,
                h == ph,
                py < h,
                px <= w,
                py * w + w <= w * h,
                i == py * w + px,
                target == with_background(
                    crate::picture::picture_of(pw, ph, before),
                    img@,
                    cols@,
                    rows@,
                    *mix,
                ),
                forall|j: int|
                    0 <= j < i ==> #[trigger] crate::picture::pixel_at(canvas@, j)
                        == target.pixels[j],
                forall|j: int|
                    i <= j < w * h ==> #[trigger] crate::picture::pixel_at(canvas@, j)
                        == crate::picture::pixel_at(before, j),
                forall|k: int|
                    4 * (w * h) <= k < before.len() ==> #[trigger] canvas@[k] == before[k],
            decreases w - px,
        {
            let sx: u32 = limit(cols[px as usize], img.width);
            let sy: u32 = limit(rows[py as usize], img.height);
            let p = img.get_pixel(sx, sy);
            proof {
                crate::picture::lemma_cell_of_place(px as int, py as int, w);
            }
            let there = read_pixel(canvas, i);
            let pixel = mix_pixel(there, p.blue, p.green, p.red, mix);
            assert(pixel == target.pixels[i as int]);
            write_pixel(canvas, i, pixel);
            px = px + 1;
            i = i + 1;
        }
        py = py + 1;
    }
    assert(crate::picture::picture_of(pw, ph, canvas@).pixels =~= target.pixels);
}

/// Where a frame stands on the canvas, in pixels; the upper left corner may lie outside.
#[derive(Clone, Copy, Debug, PartialEq, Eq, Structural)]
pub struct Placement {
    pub left: i64,
    pub top: i64,
    pub width: i64,
    pub height: i64,
}

/// A quarter of `n`, rounded toward zero.
pub open spec fn quarter(n: int) -> int {
    if n >= 0 {
        n / 4
    } else {
        -((-n) / 4)
    }
}

/// A frame is painted at one and a half times its size, rounded down, in the middle of the
/// canvas. The distances from the edges, `pw / 2 - 3 * gw / 4` and `ph / 2 - 3 * gh / 4`, are
/// rounded toward zero.
pub open spec fn placement(pw: u32, ph: u32, gw: u32, gh: u32) -> Placement {
    Placement {
        left: quarter(2 * pw - 3 * gw) as i64,
        top: quarter(2 * ph - 3 * gh) as i64,
        width: (3 * gw / 2) as i64,
        height: (3 * gh / 2) as i64,
    }
}

fn quarter_of(n: i64) -> (q: i64)
    requires
        n > i64::MIN,
    ensures
        q == quarter(n as int),
{
    if n >= 0 {
        n / 4
    } else {
        -((-n) / 4)
    }
}

/// Finds the place of a frame of `gw` by `gh` pixels on a canvas of `pw` by `ph` pixels.
pub fn gif_placement(pw: u32, ph: u32, gw: u32, gh: u32) -> (place: Placement)
    ensures
        place == placement(pw, ph, gw, gh),
{
    Placement {
        left: quarter_of(2 * pw as i64 - 3 * gw as i64),
        top: quarter_of(2 * ph as i64 - 3 * gh as i64),
        width: 3 * gw as i64 / 2,
        height: 3 * gh as i64 / 2,
    }
}

/// The frame is centered: the margins on its left and right differ by no more than two pixels,
/// and so do those above and below it.
pub proof fn lemma_gif_is_centered(pw: u32, ph: u32, gw: u32, gh: u32)
    ensures
        ({
            let place = placement(pw, ph, gw, gh);
            &&& -2 <= (pw - place.left - place.width) - place.left <= 2
            &&& -2 <= (ph - place.top - place.height) - place.top <= 2
        }),
{
}

/// There is a table, or none, for each alpha.
pub open spec fn mixes_wf(mixes: Seq<Option<Mix>>) -> bool {
    &&& mixes.len() == 256
    &&& forall|a: int| 0 <= a < 256 ==> ((#[trigger] mixes[a]) matches Some(mix) ==> mix.wf())
}

/// The canvas with a frame on it. The frame's pixel in column `cols[dx]` of row `rows[dy]`, or
/// in the last column or row, goes `dx` to the right and `dy` down from the upper left corner of
/// the frame's place. It is mixed in by the table of its alpha, with red and blue in the places
/// that the canvas has them in; without a table the canvas shows through.
pub open spec fn with_gif(
    canvas: Picture,
    gif: Picture,
    place: Placement,
    cols: Seq<u32>,
    rows: Seq<u32>,
    mixes: Seq<Option<Mix>>,
) -> Picture {
    Picture {
        pixels: Seq::new(
            canvas.pixels.len(),
            |i: int|
                {
                    let dx = i % canvas.width as int - place.left;
                    let dy = i / canvas.width as int - place.top;
                    if 0 <= dx < place.width && 0 <= dy < place.height {
                        let p = gif.pixel(
                            at_most_last(cols[dx], gif.width),
                            at_most_last(rows[dy], gif.height),
                        );
                        match mixes[p.alpha as int] {
                            Some(mix) => mixed_pixel(
                                canvas.pixels[i],
                                p.blue,
                                p.green,
                                p.red,
                                mix,
                            ),
                            None => canvas.pixels[i],
                        }
                    } else {
                        canvas.pixels[i]
                    }
                },
        ),
        ..canvas
    }
}

/// Pixel `i` of the canvas comes before the place `dx` right and `dy` down of the frame's
/// corner.
spec fn passed(i: int, w: int, place: Placement, dx: int, dy: int) -> bool {
    i / w - place.top < dy || (i / w - place.top == dy && i % w - place.left < dx)
}

/// Paints a frame onto the canvas of `pw` by `ph` pixels.
pub fn blit_gif(
    canvas: &mut [u8],
    pw: u32,
    ph: u32,
    gif: &Image,
    cols: &Vec<u32>,
    rows: &Vec<u32>,
    mixes: &Vec<Option<Mix>>,
)
    requires
        4 * (pw * ph) <= old(canvas)@.len(),
        gif.wf(),
        cols@.len() == placement(pw, ph, gif.width, gif.height).width,
        rows@.len() == placement(pw, ph, gif.width, gif.height).height,
        mixes_wf(mixes@),
    ensures
        final(canvas)@.len() == old(canvas)@.len(),
        crate::picture::picture_of(pw, ph, final(canvas)@) == with_gif(
            crate::picture::picture_of(pw, ph, old(canvas)@),
            gif@,
            placement(pw, ph, gif.width, gif.height),
            cols@,
            rows@,
            mixes@,
        ),
        forall|k: int|
            4 * (pw * ph) <= k < old(canvas)@.len() ==> #[trigger] final(canvas)@[k] == old(
                canvas,
            )@[k],
{
    let place = gif_placement(pw, ph, gif.width, gif.height);
    let ghost before = canvas@;
    let ghost (w, h) = (pw as int, ph as int);
    let ghost target = with_gif(
        crate::picture::picture_of(pw, ph, before),
        gif@,
        place,
        cols@,
        rows@,
        mixes@,
    );
    assert(canvas.len() == canvas@.len());
    let mut dy: i64 = 0;
    while dy < place.height
        invariant
            4 * (w * h) <= before.len() <= usize::MAX,
            canvas@.len() == before.len(),
            gif.wf(),
            place == placement(pw, ph, gif.width, gif.height),
            cols@.len() == place.width,
            rows@.len() == place.height,
            mixes_wf(mixes@),
            w == pw,
            h == ph,
            0 <= dy <= place.height,
            target == with_gif(
                crate::picture::picture_of(pw, ph, before),
                gif@,
                place,
                cols@,
                rows@,
                mixes@,
            ),
            forall|i: int|
                0 <= i < w * h && passed(i, w, place, 0, dy as int)
                    ==> #[trigger] crate::picture::pixel_at(canvas@, i) == target.pixels[i],
            forall|i: int|
                0 <= i < w * h && !passed(i, w, place, 0, dy as int)
                    ==> #[trigger] crate::picture::pixel_at(canvas@, i)
                    == crate::picture::pixel_at(before, i),
            forall|k: int| 4 * (w * h) <= k < before.len() ==> #[trigger] canvas@[k] == before[k],
        decreases place.height - dy,
    {
        let mut dx: i64 = 0;
        while dx < place.width
            invariant
                4 * (w * h) <= before.len() <= usize::MAX,
                canvas@.len() == before.len(),
                gif.wf(),
                place == placement(pw, ph, gif.width, gif.height),
                cols@.len() == place.width,
                rows@.len() == place.height,
                mixes_wf(mixes@),
                w == pw,
                h == ph,
                0 <= dy < place.height,
                0 <= dx <= place.width,
                target == with_gif(
                    crate::picture::picture_of(pw, ph, before),
                    gif@,
                    place,
                    cols@,
                    rows@,
                    mixes@,
                ),
                forall|i: int|
                    0 <= i < w * h && passed(i, w, place, dx as int, dy as int)
                        ==> #[trigger] crate::picture::pixel_at(canvas@, i) == target.pixels[i],
                forall|i: int|
                    0 <= i < w * h && !passed(i, w, place, dx as int, dy as int)
                        ==> #[trigger] crate::picture::pixel_at(canvas@, i)
                        == crate::picture::pixel_at(before, i),
                forall|k: int|
                    4 * (w * h) <= k < before.len() ==> #[trigger] canvas@[k] == before[k],
            decreases place.width - dx,
        {
            let px: i64 = place.left + dx;
            let py: i64 = place.top + dy;
            let ghost unpainted = canvas@;
            if 0 <= px && 0 <= py && px < pw as i64 && py < ph as i64 {
                proof {
                    crate::picture::lemma_cell_in_grid(px as int, py as int, w, h);
                    crate::picture::lemma_cell_of_place(px as int, py as int, w);
                }
                let i: usize = py as usize * pw as usize + px as usize;
                let sx: u32 = limit(cols[dx as usize], gif.width);
                let sy: u32 = limit(rows[dy as usize], gif.height);
                let p = gif.get_pixel(sx, sy);
                match &mixes[p.alpha as usize] {
                    Some(mix) => {
                        let there = read_pixel(canvas, i);
                        let pixel = mix_pixel(there, p.blue, p.green, p.red, mix);
                        write_pixel(canvas, i, pixel);
                    },
                    None => {},
                }
                assert(crate::picture::pixel_at(canvas@, i as int) == target.pixels[i as int]);
            }
            proof {
                assert forall|i: int|
                    0 <= i < w * h && passed(i, w, place, dx + 1, dy as int) && !passed(
                        i,
                        w,
                        place,
                        dx as int,
                        dy as int,
                    ) implies #[trigger] crate::picture::pixel_at(canvas@, i)
                    == target.pixels[i] by {
                    crate::picture::lemma_place_in_grid(i, w, h);
                }
            }
            dx = dx + 1;
        }
        dy = dy + 1;
    }
    assert(crate::picture::picture_of(pw, ph, canvas@).pixels =~= target.pixels);
}

/// A pixel of the picture has this alpha.
pub open spec fn has_alpha(pic: Picture, alpha: int) -> bool {
    exists|i: int| 0 <= i < pic.pixels.len() && (#[trigger] pic.pixels[i]).alpha == alpha
}

/// Finds the alphas that occur in a frame: only these need a table.
pub fn alphas_used(gif: &Image) -> (used: Vec<bool>)
    requires
        gif.wf(),
    ensures
        used@.len() == 256,
        forall|a: int| 0 <= a < 256 ==> #[trigger] used@[a] == has_alpha(gif@, a),
{
    let mut used: Vec<bool> = Vec::new();
    used.resize(256, false);
    let ghost (w, h) = (gif.width as int, gif.height as int);
    assert(gif.data.len() == gif.data@.len());
    assert(0 <= w * h) by (nonlinear_arith)
        requires
            w >= 0,
            h >= 0,
    ;
    let count: usize = gif.width as usize * gif.height as usize;
    let mut i: usize = 0;
    while i < count
        invariant
            gif.wf(),
            w == gif.width,
            h == gif.height,
            count == w * h,
            4 * count <= gif.data@.len() <= usize::MAX,
            i <= count,
            used@.len() == 256,
            forall|a: int|
                0 <= a < 256 ==> (#[trigger] used@[a] <==> exists|j: int|
                    0 <= j < i && (#[trigger] gif@.pixels[j]).alpha == a),
        decreases count - i,
    {
        let ghost before = used@;
        let alpha: u8 = gif.data[4 * i + 3];
        assert(gif@.pixels[i as int].alpha == alpha);
        used[alpha as usize] = true;
        assert forall|a: int| 0 <= a < 256 implies (#[trigger] used@[a] <==> exists|j: int|
            0 <= j < i + 1 && (#[trigger] gif@.pixels[j]).alpha == a) by {
            assert(before[a] ==> used@[a]);
            if used@[a] && a != alpha {
                let j = choose|j: int| 0 <= j < i && (#[trigger] gif@.pixels[j]).alpha == a;
                assert(gif@.pixels[j].alpha == a);
            }
        }
        i = i + 1;
    }
    used
}

/// Tables for alphas that do not occur in a frame make no difference to it.
pub proof fn lemma_only_used_alphas_matter(
    canvas: Picture,
    gif: Picture,
    place: Placement,
    cols: Seq<u32>,
    rows: Seq<u32>,
    one: Seq<Option<Mix>>,
    other: Seq<Option<Mix>>,
)
    requires
        gif.wf(),
        place.width > 0 ==> gif.width > 0,
        place.height > 0 ==> gif.height > 0,
        forall|a: int| 0 <= a < 256 && has_alpha(gif, a) ==> #[trigger] one[a] == other[a],
    ensures
        with_gif(canvas, gif, place, cols, rows, one) == with_gif(
            canvas,
            gif,
            place,
            cols,
            rows,
            other,
        ),
{
    let (a, b) = (
        with_gif(canvas, gif, place, cols, rows, one),
        with_gif(canvas, gif, place, cols, rows, other),
    );
    assert forall|i: int| 0 <= i < a.pixels.len() implies #[trigger] a.pixels[i]
        == b.pixels[i] by {
        let dx = i % canvas.width as int - place.left;
        let dy = i / canvas.width as int - place.top;
        if 0 <= dx < place.width && 0 <= dy < place.height {
            let sx = at_most_last(cols[dx], gif.width);
            let sy = at_most_last(rows[dy], gif.height);
            crate::picture::lemma_cell_in_grid(sx, sy, gif.width as int, gif.height as int);
            assert(has_alpha(gif, gif.pixels[sy * gif.width + sx].alpha as int));
        }
    }
    assert(a.pixels =~= b.pixels);
}

/// A frame leaves every pixel outside its place as it was.
pub proof fn lemma_gif_stays_in_place(
    canvas: Picture,
    gif: Picture,
    place: Placement,
    cols: Seq<u32>,
    rows: Seq<u32>,
    mixes: Seq<Option<Mix>>,
    x: int,
    y: int,
)
    requires
        canvas.wf(),
        0 <= x < canvas.width,
        0 <= y < canvas.height,
        !(place.left <= x < place.left + place.width && place.top <= y < place.top
            + place.height),
    ensures
        with_gif(canvas, gif, place, cols, rows, mixes).pixel(x, y) == canvas.pixel(x, y),
{
    crate::picture::lemma_cell_in_grid(x, y, canvas.width as int, canvas.height as int);
    crate::picture::lemma_cell_of_place(x, y, canvas.width as int);
}

/// Where a backdrop has been painted the canvas is opaque.
pub proof fn lemma_background_is_opaque(
    canvas: Picture,
    img: Picture,
    cols: Seq<u32>,
    rows: Seq<u32>,
    mix: Mix,
    i: int,
)
    requires
        0 <= i < canvas.pixels.len(),
    ensures
        with_background(canvas, img, cols, rows, mix).pixels[i].alpha == 255,
{
}

/// Every pixel is opaque.
pub open spec fn opaque(pic: Picture) -> bool {
    forall|i: int| 0 <= i < pic.pixels.len() ==> (#[trigger] pic.pixels[i]).alpha == 255
}

/// The table leaves what is there.
pub open spec fn keeps(mix: Mix) -> bool {
    forall|painted: u8, there: u8| #[trigger] mix.of(painted, there) == there
}

/// The table puts what is painted in the place of what is there.
pub open spec fn replaces(mix: Mix) -> bool {
    forall|painted: u8, there: u8| #[trigger] mix.of(painted, there) == painted
}

/// A table that keeps what is there leaves an opaque canvas as it was under a backdrop.
pub proof fn lemma_kept_under_background(
    canvas: Picture,
    img: Picture,
    cols: Seq<u32>,
    rows: Seq<u32>,
    mix: Mix,
)
    requires
        opaque(canvas),
        keeps(mix),
    ensures
        with_background(canvas, img, cols, rows, mix) == canvas,
{
    assert(with_background(canvas, img, cols, rows, mix).pixels =~= canvas.pixels);
}

/// Tables that keep what is there leave an opaque canvas as it was under a frame.
pub proof fn lemma_kept_under_gif(
    canvas: Picture,
    gif: Picture,
    place: Placement,
    cols: Seq<u32>,
    rows: Seq<u32>,
    mixes: Seq<Option<Mix>>,
)
    requires
        opaque(canvas),
        forall|a: int|
            0 <= a < 256 ==> ((#[trigger] mixes[a]) matches Some(mix) ==> keeps(mix)),
    ensures
        with_gif(canvas, gif, place, cols, rows, mixes) == canvas,
{
    assert(with_gif(canvas, gif, place, cols, rows, mixes).pixels =~= canvas.pixels);
}

/// A backdrop that has faded in shows in its own colors: where it stands in for what was there,
/// each pixel of the canvas has its channels, blue first as the canvas has them.
pub proof fn lemma_background_keeps_its_colors(
    canvas: Picture,
    img: Picture,
    cols: Seq<u32>,
    rows: Seq<u32>,
    mix: Mix,
    x: int,
    y: int,
)
    requires
        canvas.wf(),
        replaces(mix),
        0 <= x < canvas.width,
        0 <= y < canvas.height,
    ensures
        with_background(canvas, img, cols, rows, mix).pixel(x, y) == ({
            let p = img.pixel(at_most_last(cols[x], img.width), at_most_last(rows[y], img.height));
            Pixel { red: p.blue, green: p.green, blue: p.red, alpha: 255 }
        }),
{
    crate::picture::lemma_cell_in_grid(x, y, canvas.width as int, canvas.height as int);
    crate::picture::lemma_cell_of_place(x, y, canvas.width as int);
}

/// A table is looked up by what is painted and what is there.
pub proof fn lemma_mixed_by_the_table(mix: Mix, painted: u8, there: u8)
    ensures
        mix.of(painted, there) == mix.table@[256 * painted + there],
{
}

/// A backdrop covers the whole canvas upright: each pixel of the canvas takes in the pixel of its
/// own column and row of samples, held at the last column and row. Blue goes over the first
/// channel of the canvas, green over the second and red over the third, each by the table, and the
/// canvas becomes opaque.
pub proof fn lemma_background_stands_upright(
    canvas: Picture,
    img: Picture,
    cols: Seq<u32>,
    rows: Seq<u32>,
    mix: Mix,
    x: int,
    y: int,
)
    requires
        canvas.wf(),
        0 <= x < canvas.width,
        0 <= y < canvas.height,
    ensures
        ({
            let after = with_background(canvas, img, cols, rows, mix);
            let sx = if cols[x] < img.width { cols[x] as int } else { img.width - 1 };
            let sy = if rows[y] < img.height { rows[y] as int } else { img.height - 1 };
            let p = img.pixels[sy * img.width + sx];
            let there = canvas.pixels[y * canvas.width + x];
            let now = after.pixels[y * canvas.width + x];
            let raw = demultiplied(there.red, there.green, there.blue, there.alpha);
            &&& after.width == canvas.width && after.height == canvas.height
            &&& after.pixels.len() == canvas.pixels.len()
            &&& now.alpha == 255
            &&& there.alpha == 255 ==> {
                &&& now.red == mix.table@[256 * p.blue + there.red]
                &&& now.green == mix.table@[256 * p.green + there.green]
                &&& now.blue == mix.table@[256 * p.red + there.blue]
            }
            &&& there.alpha != 255 ==> {
                &&& now.red == mix.table@[256 * p.blue + raw.0]
                &&& now.green == mix.table@[256 * p.green + raw.1]
                &&& now.blue == mix.table@[256 * p.red + raw.2]
            }
        }),
{
    crate::picture::lemma_cell_in_grid(x, y, canvas.width as int, canvas.height as int);
    crate::picture::lemma_cell_of_place(x, y, canvas.width as int);
}

/// A frame stands upright in its place: the pixel of the canvas so many columns right and rows
/// down of its corner takes in the frame's pixel of that column and row of samples, held at the
/// last column and row. Blue goes over the first channel of the canvas, green over the second and
/// red over the third, each by the table of the pixel's alpha, and the pixel becomes opaque. A
/// pixel whose alpha has no table leaves the canvas as it was.
pub proof fn lemma_gif_stands_upright(
    canvas: Picture,
    gif: Picture,
    place: Placement,
    cols: Seq<u32>,
    rows: Seq<u32>,
    mixes: Seq<Option<Mix>>,
    x: int,
    y: int,
)
    requires
        canvas.wf(),
        0 <= x < canvas.width,
        0 <= y < canvas.height,
        place.left <= x < place.left + place.width,
        place.top <= y < place.top + place.height,
    ensures
        ({
            let after = with_gif(canvas, gif, place, cols, rows, mixes);
            let (col, row) = (cols[x - place.left], rows[y - place.top]);
            let sx = if col < gif.width { col as int } else { gif.width - 1 };
            let sy = if row < gif.height { row as int } else { gif.height - 1 };
            let p = gif.pixels[sy * gif.width + sx];
            let there = canvas.pixels[y * canvas.width + x];
            let now = after.pixels[y * canvas.width + x];
            let raw = demultiplied(there.red, there.green, there.blue, there.alpha);
            &&& after.width == canvas.width && after.height == canvas.height
            &&& after.pixels.len() == canvas.pixels.len()
            &&& mixes[p.alpha as int] is None ==> now == there
            &&& mixes[p.alpha as int] matches Some(mix) ==> {
                &&& now.alpha == 255
                &&& there.alpha == 255 ==> {
                    &&& now.red == mix.table@[256 * p.blue + there.red]
                    &&& now.green == mix.table@[256 * p.green + there.green]
                    &&& now.blue == mix.table@[256 * p.red + there.blue]
                }
                &&& there.alpha != 255 ==> {
                    &&& now.red == mix.table@[256 * p.blue + raw.0]
                    &&& now.green == mix.table@[256 * p.green + raw.1]
                    &&& now.blue == mix.table@[256 * p.red + raw.2]
                }
            }
        }),
{
    crate::picture::lemma_cell_in_grid(x, y, canvas.width as int, canvas.height as int);
    crate::picture::lemma_cell_of_place(x, y, canvas.width as int);
}

/// A frame that has faded in shows in its own colors: where the table of a pixel's alpha puts what
/// is painted in place, the canvas has the pixel's channels, blue first as the canvas has them.
pub proof fn lemma_gif_keeps_its_colors(
    canvas: Picture,
    gif: Picture,
    place: Placement,
    cols: Seq<u32>,
    rows: Seq<u32>,
    mixes: Seq<Option<Mix>>,
    x: int,
    y: int,
)
    requires
        canvas.wf(),
        0 <= x < canvas.width,
        0 <= y < canvas.height,
        place.left <= x < place.left + place.width,
        place.top <= y < place.top + place.height,
    ensures
        ({
            let after = with_gif(canvas, gif, place, cols, rows, mixes);
            let (col, row) = (cols[x - place.left], rows[y - place.top]);
            let sx = if col < gif.width { col as int } else { gif.width - 1 };
            let sy = if row < gif.height { row as int } else { gif.height - 1 };
            let p = gif.pixels[sy * gif.width + sx];
            mixes[p.alpha as int] matches Some(mix) ==> replaces(mix) ==> after.pixels[y
                * canvas.width + x] == (Pixel {
                red: p.blue,
                green: p.green,
                blue: p.red,
                alpha: 255,
            })
        }),
{
    crate::picture::lemma_cell_in_grid(x, y, canvas.width as int, canvas.height as int);
    crate::picture::lemma_cell_of_place(x, y, canvas.width as int);
}

/// A frame is painted at one and a half times its size, rounded down, and half of the room that is
/// left, or lacking, is on its left and half above it, rounded toward zero.
pub proof fn lemma_gif_takes_half_of_the_room(pw: u32, ph: u32, gw: u32, gh: u32)
    ensures
        ({
            let place = placement(pw, ph, gw, gh);
            let (across, down) = (2 * pw - 3 * gw, 2 * ph - 3 * gh);
            &&& 2 * place.width <= 3 * gw < 2 * place.width + 2
            &&& 2 * place.height <= 3 * gh < 2 * place.height + 2
            &&& across >= 0 ==> 4 * place.left <= across < 4 * place.left + 4
            &&& across < 0 ==> 4 * place.left - 4 < across <= 4 * place.left
            &&& down >= 0 ==> 4 * place.top <= down < 4 * place.top + 4
            &&& down < 0 ==> 4 * place.top - 4 < down <= 4 * place.top
        }),
{
}

/// An alpha occurs if and only if some pixel has it.
pub proof fn lemma_alphas_that_occur(pic: Picture, alpha: int)
    ensures
        has_alpha(pic, alpha) ==> exists|i: int|
            0 <= i < pic.pixels.len() && (#[trigger] pic.pixels[i]).alpha == alpha,
        forall|i: int|
            0 <= i < pic.pixels.len() && (#[trigger] pic.pixels[i]).alpha == alpha ==> has_alpha(
                pic,
                alpha,
            ),
{
}

} // verus!
