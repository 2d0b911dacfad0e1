//! What a frame of the overlay is made of.

use vstd::prelude::*;

use crate::seed::lcg_bits;

verus! {

/// The layers of a frame.
#[derive(Clone, Copy, Debug, PartialEq, Eq, Structural)]
pub enum Layer {
    /// A dark color over everything.
    Base,
    /// The blurred screenshot.
    Backdrop,
    /// Darkness over the screenshot.
    Darken,
    /// A touch of the secondary accent over the screenshot.
    Tint,
    /// The moving grid.
    Grid,
    /// The brackets in the corners.
    Corners,
    /// The pulsing rings.
    Rings,
    /// The frame of the animation.
    Gif,
    /// The counter of scrolling digits.
    Counter,
    /// The scanline and the glitch bars.
    Glitch,
}

/// The layers over the base color: the backdrop once it has begun to fade in.
pub open spec fn backdrop_layers(backdrop: bool, fading: bool, glitch: bool) -> Seq<Layer> {
    if backdrop && fading {
        if glitch {
            seq![Layer::Backdrop, Layer::Darken, Layer::Tint]
        } else {
            seq![Layer::Backdrop, Layer::Darken]
        }
    } else {
        seq![]
    }
}

/// A layer that is there or not.
pub open spec fn layer_if(there: bool, layer: Layer) -> Seq<Layer> {
    if there {
        seq![layer]
    } else {
        seq![]
    }
}

/// The layers of a frame, from the bottom up.
pub open spec fn layers(
    backdrop: bool,
    fading: bool,
    glitch: bool,
    gif: bool,
    no_counter: bool,
) -> Seq<Layer> {
    seq![Layer::Base] + backdrop_layers(backdrop, fading, glitch) + seq![
        Layer::Grid,
        Layer::Corners,
        Layer::Rings,
    ] + layer_if(gif, Layer::Gif) + layer_if(!no_counter, Layer::Counter) + layer_if(
        glitch,
        Layer::Glitch,
    )
}

/// Lists the layers of a frame, from the bottom up: whether there is a `backdrop`, and it is
/// `fading` in or has done so; whether `glitch` effects are on; whether there is a frame of a
/// `gif`; and whether the counter is off.
pub fn draw_frame(
    backdrop: bool,
    fading: bool,
    glitch: bool,
    gif: bool,
    no_counter: bool,
) -> (res: Vec<Layer>)
    ensures
        res@ == layers(backdrop, fading, glitch, gif, no_counter),
{
    let mut res: Vec<Layer> = Vec::new();
    res.push(Layer::Base);
    if backdrop && fading {
        res.push(Layer::Backdrop);
        res.push(Layer::Darken);
        if glitch {
            res.push(Layer::Tint);
        }
    }
    res.push(Layer::Grid);
    res.push(Layer::Corners);
    res.push(Layer::Rings);
    if gif {
        res.push(Layer::Gif);
    }
    if !no_counter {
        res.push(Layer::Counter);
    }
    if glitch {
        res.push(Layer::Glitch);
    }
    assert(res@ =~= layers(backdrop, fading, glitch, gif, no_counter));
    res
}

/// Each option does what it says: the counter is there unless it is off, the glitch bars are
/// there if they are on, the animation if there is one, the backdrop once it fades in.
pub proof fn lemma_layers_follow_the_options(
    backdrop: bool,
    fading: bool,
    glitch: bool,
    gif: bool,
    no_counter: bool,
)
    ensures
        ({
            let all = layers(backdrop, fading, glitch, gif, no_counter);
            &&& all.contains(Layer::Counter) <==> !no_counter
            &&& all.contains(Layer::Glitch) <==> glitch
            &&& all.contains(Layer::Gif) <==> gif
            &&& all.contains(Layer::Backdrop) <==> backdrop && fading
            &&& all.contains(Layer::Darken) <==> backdrop && fading
            &&& all.contains(Layer::Tint) <==> backdrop && fading && glitch
        }),
{
    let under = seq![Layer::Base] + backdrop_layers(backdrop, fading, glitch);
    let all = layers(backdrop, fading, glitch, gif, no_counter);
    let n = under.len() as int + 3;
    let g = if gif { 1int } else { 0 };
    let c = if no_counter { 0int } else { 1 };
    if backdrop && fading {
        assert(all[1] == Layer::Backdrop);
        assert(all[2] == Layer::Darken);
        if glitch {
            assert(all[3] == Layer::Tint);
        }
    }
    if gif {
        assert(all[n] == Layer::Gif);
    }
    if !no_counter {
        assert(all[n + g] == Layer::Counter);
    }
    if glitch {
        assert(all[n + g + c] == Layer::Glitch);
    }
}

/// A rectangle of whole pixels; it may lie outside the canvas.
#[derive(Clone, Copy, Debug, PartialEq, Eq, Structural)]
pub struct Bar {
    pub x: i64,
    pub y: i64,
    pub width: i64,
    pub height: i64,
}

/// A bar 60 pixels long and 2 pixels thick that lies flat.
pub open spec fn flat_bar(x: int, y: int) -> Bar {
    Bar { x: x as i64, y: y as i64, width: 60, height: 2 }
}

/// A bar of that size that stands upright.
pub open spec fn upright_bar(x: int, y: int) -> Bar {
    Bar { x: x as i64, y: y as i64, width: 2, height: 60 }
}

/// The brackets in the corners of a canvas of `w` by `h` pixels, 30 pixels from its edges: a flat
/// and an upright bar each, upper left, upper right, lower left, lower right.
pub open spec fn corners(w: u32, h: u32) -> Seq<Bar> {
    seq![
        flat_bar(30, 30),
        upright_bar(30, 30),
        flat_bar(w - 90, 30),
        upright_bar(w - 32, 30),
        flat_bar(30, h - 32),
        upright_bar(30, h - 90),
        flat_bar(w - 90, h - 32),
        upright_bar(w - 32, h - 90),
    ]
}

/// Works out the brackets in the corners.
pub fn corner_bars(w: u32, h: u32) -> (bars: Vec<Bar>)
    ensures
        bars@ == corners(w, h),
{
    let m: i64 = 30;
    let cs: i64 = 60;
    let cw: i64 = 2;
    let right: i64 = w as i64 - m;
    let bottom: i64 = h as i64 - m;
    let mut bars: Vec<Bar> = Vec::new();
    bars.push(Bar { x: m, y: m, width: cs, height: cw });
    bars.push(Bar { x: m, y: m, width: cw, height: cs });
    bars.push(Bar { x: right - cs, y: m, width: cs, height: cw });
    bars.push(Bar { x: right - cw, y: m, width: cw, height: cs });
    bars.push(Bar { x: m, y: bottom - cw, width: cs, height: cw });
    bars.push(Bar { x: m, y: bottom - cs, width: cw, height: cs });
    bars.push(Bar { x: right - cs, y: bottom - cw, width: cs, height: cw });
    bars.push(Bar { x: right - cw, y: bottom - cs, width: cw, height: cs });
    assert(bars@ =~= corners(w, h));
    bars
}

/// The brackets mirror each other: left and right, and top and bottom.
pub proof fn lemma_corners_mirror(w: u32, h: u32, k: int)
    requires
        0 <= k < 8,
    ensures
        ({
            let bars = corners(w, h);
            let (a, across) = (bars[k], bars[if k % 4 < 2 { k + 2 } else { k - 2 }]);
            let below = bars[if k < 4 { k + 4 } else { k - 4 }];
            &&& across == (Bar { x: (w - a.x - a.width) as i64, ..a })
            &&& below == (Bar { y: (h - a.y - a.height) as i64, ..a })
        }),
{
}

/// The row that the scanline has come to after so many steps; it runs down and starts over.
pub open spec fn row_after(steps: u32, height: u32) -> u32 {
    if height == 0 {
        0
    } else {
        steps % height
    }
}

/// Finds the row of a scanline or a glitch bar.
pub fn scan_row(steps: u32, height: u32) -> (row: u32)
    ensures
        row == row_after(steps, height),
{
    if height == 0 {
        0
    } else {
        steps % height
    }
}

/// A glitch bar: its row, and the numbers drawn for its length and for its distance from the
/// left.
#[derive(Clone, Copy, Debug, PartialEq, Eq, Structural)]
pub struct GlitchBar {
    pub row: u32,
    pub length: u32,
    pub offset: u32,
}

/// The glitch bars of a frame, from how many steps each has made.
pub open spec fn glitches(steps: Seq<u32>, height: u32, seed: u64) -> Seq<GlitchBar> {
    Seq::new(
        3,
        |i: int|
            GlitchBar {
                row: row_after(steps[i], height),
                length: crate::seed::drawn(seed, i as u64),
                offset: crate::seed::drawn(seed, (i + 100) as u64),
            },
    )
}

/// Works out the glitch bars.
pub fn glitch_bars(steps: &Vec<u32>, height: u32, seed: u64) -> (bars: Vec<GlitchBar>)
    requires
        steps@.len() == 3,
    ensures
        bars@ == glitches(steps@, height, seed),
{
    let mut bars: Vec<GlitchBar> = Vec::new();
    let mut i: usize = 0;
    while i < 3
        invariant
            steps@.len() == 3,
            i <= 3,
            bars@ == glitches(steps@, height, seed).take(i as int),
        decreases 3 - i,
    {
        bars.push(
            GlitchBar {
                row: scan_row(steps[i], height),
                length: lcg_bits(seed, i as u64),
                offset: lcg_bits(seed, i as u64 + 100),
            },
        );
        assert(bars@ =~= glitches(steps@, height, seed).take(i + 1));
        i = i + 1;
    }
    assert(bars@ =~= glitches(steps@, height, seed));
    bars
}

/// The place of a layer among all layers, from the bottom up.
pub open spec fn height_of(layer: Layer) -> int {
    match layer {
        Layer::Base => 0,
        Layer::Backdrop => 1,
        Layer::Darken => 2,
        Layer::Tint => 3,
        Layer::Grid => 4,
        Layer::Corners => 5,
        Layer::Rings => 6,
        Layer::Gif => 7,
        Layer::Counter => 8,
        Layer::Glitch => 9,
    }
}

/// Whatever the options, the base color, the grid, the brackets and the rings are there; no layer
/// is there twice; and a layer lies over all those that are meant to be below it.
pub proof fn lemma_layers_lie_in_order(
    backdrop: bool,
    fading: bool,
    glitch: bool,
    gif: bool,
    no_counter: bool,
)
    ensures
        ({
            let all = layers(backdrop, fading, glitch, gif, no_counter);
            &&& all.contains(Layer::Base)
            &&& all.contains(Layer::Grid)
            &&& all.contains(Layer::Corners)
            &&& all.contains(Layer::Rings)
            &&& forall|i: int, j: int|
                0 <= i < j < all.len() ==> height_of(#[trigger] all[i]) < height_of(
                    #[trigger] all[j],
                )
        }),
{
    let all = layers(backdrop, fading, glitch, gif, no_counter);
    let n = backdrop_layers(backdrop, fading, glitch).len() as int;
    assert(all[0] == Layer::Base);
    assert(all[n + 1] == Layer::Grid);
    assert(all[n + 2] == Layer::Corners);
    assert(all[n + 3] == Layer::Rings);
}

/// There are four brackets, each of a flat and an upright bar 60 pixels long and 2 pixels thick.
/// Both bars of a bracket begin in its corner, 30 pixels from either edge of the canvas.
pub proof fn lemma_brackets_stand_in_the_corners(w: u32, h: u32, q: int)
    requires
        0 <= q < 4,
    ensures
        ({
            let bars = corners(w, h);
            let (flat, upright) = (bars[2 * q], bars[2 * q + 1]);
            let (on_the_left, on_top) = (q % 2 == 0, q < 2);
            &&& bars.len() == 8
            &&& flat.width == 60 && flat.height == 2
            &&& upright.width == 2 && upright.height == 60
            &&& on_the_left ==> flat.x == 30 && upright.x == 30
            &&& !on_the_left ==> w - (flat.x + flat.width) == 30 && w - (upright.x + upright.width)
                == 30
            &&& on_top ==> flat.y == 30 && upright.y == 30
            &&& !on_top ==> h - (flat.y + flat.height) == 30 && h - (upright.y + upright.height)
                == 30
        }),
{
}

/// A scanline stays on the canvas, moves down one row with each step, and starts over after as
/// many steps as the canvas has rows.
pub proof fn lemma_scanline_runs_down(steps: u32, height: u32)
    ensures
        height == 0 ==> row_after(steps, height) == 0,
        height > 0 ==> row_after(steps, height) < height,
        steps < height ==> row_after(steps, height) == steps,
        height > 0 && steps + height <= u32::MAX ==> row_after((steps + height) as u32, height)
            == row_after(steps, height),
{
    if height > 0 {
        if steps < height {
            vstd::arithmetic::div_mod::lemma_small_mod(steps as nat, height as nat);
        }
        vstd::arithmetic::div_mod::lemma_mod_add_multiples_vanish(steps as int, height as int);
    }
}

/// There are three glitch bars. Each runs down like a scanline, by its own steps alone, and takes
/// its length and its distance from the left from two draws that no other bar shares.
pub proof fn lemma_glitch_bars_run_on_their_own(steps: Seq<u32>, height: u32, seed: u64, i: int)
    requires
        steps.len() == 3,
        0 <= i < 3,
    ensures
        ({
            let bars = glitches(steps, height, seed);
            &&& bars.len() == 3
            &&& height == 0 ==> bars[i].row == 0
            &&& height > 0 ==> bars[i].row < height && (steps[i] - bars[i].row) % height as int == 0
            &&& bars[i].length == crate::seed::drawn(seed, i as u64)
            &&& bars[i].offset == crate::seed::drawn(seed, (100 + i) as u64)
        }),
{
    if height > 0 {
        let (s, h) = (steps[i] as int, height as int);
        vstd::arithmetic::div_mod::lemma_fundamental_div_mod(s, h);
        vstd::arithmetic::div_mod::lemma_mod_multiples_basic(s / h, h);
        assert(s - s % h == (s / h) * h) by (nonlinear_arith)
            requires
                s == h * (s / h) + s % h,
        ;
    }
}

} // verus!
