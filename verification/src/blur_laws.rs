//! What a blur keeps: flat pictures, the order of darker and lighter, and every symmetry.

use vstd::prelude::*;

use crate::blur::Channel;
use crate::picture::{Picture, Pixel};

verus! {

/// Two pictures of one size that hold the same pixel in every place are the same.
proof fn lemma_same_picture(a: Picture, b: Picture)
    requires
        a.wf(),
        b.wf(),
        a.width == b.width,
        a.height == b.height,
        forall|x: int, y: int|
            0 <= x < a.width && 0 <= y < a.height ==> #[trigger] a.pixel(x, y) == b.pixel(x, y),
    ensures
        a == b,
{
    assert forall|i: int| 0 <= i < a.pixels.len() implies a.pixels[i] == b.pixels[i] by {
        crate::picture::lemma_place_in_grid(i, a.width as int, a.height as int);
        let (x, y) = (i % a.width as int, i / a.width as int);
        assert(a.pixel(x, y) == b.pixel(x, y));
    }
    assert(a.pixels =~= b.pixels);
}

/// Each channel of a blurred picture lies between any bounds that it keeps in the part of the
/// window around the place that is in the picture.
pub proof fn lemma_blur_within_window(
    pic: Picture,
    c: Channel,
    x: int,
    y: int,
    r: nat,
    lo: int,
    hi: int,
)
    requires
        0 <= x < pic.width,
        0 <= y < pic.height,
        forall|u: int, v: int|
            crate::blur::in_window(pic, x, y, r, u, v) ==> lo <= crate::blur::channel(
                #[trigger] pic.pixel(u, v),
                c,
            ) <= hi,
    ensures
        lo <= crate::blur::channel(crate::blur::blur(pic, r).pixel(x, y), c) <= hi,
{
    crate::blur::lemma_mean_within_window(pic, c, x, y, r, lo, hi);
    crate::blur::lemma_blurred_channel(pic, c, x, y, r);
}

/// Two pixels have the same color, whatever their alpha.
pub open spec fn same_color(p: Pixel, q: Pixel) -> bool {
    p.red == q.red && p.green == q.green && p.blue == q.blue
}

/// All pixels have one color.
pub open spec fn flat(pic: Picture) -> bool {
    forall|i: int, j: int|
        0 <= i < pic.pixels.len() && 0 <= j < pic.pixels.len() ==> same_color(
            #[trigger] pic.pixels[i],
            #[trigger] pic.pixels[j],
        )
}

/// The picture with full alpha everywhere.
pub open spec fn made_opaque(pic: Picture) -> Picture {
    Picture { pixels: pic.pixels.map_values(|p: Pixel| Pixel { alpha: 255, ..p }), ..pic }
}

/// A picture of one color keeps that color and becomes opaque.
pub proof fn lemma_blur_keeps_flat_color(pic: Picture, r: nat)
    requires
        pic.wf(),
        flat(pic),
    ensures
        crate::blur::blur(pic, r) == made_opaque(pic),
{
    let (w, h) = (pic.width as int, pic.height as int);
    assert forall|x: int, y: int| 0 <= x < w && 0 <= y < h implies #[trigger] crate::blur::blur(
        pic,
        r,
    ).pixel(x, y) == made_opaque(pic).pixel(x, y) by {
        crate::picture::lemma_cell_in_grid(x, y, w, h);
        let p = pic.pixel(x, y);
        assert forall|u: int, v: int| 0 <= u < w && 0 <= v < h implies same_color(
            #[trigger] pic.pixel(u, v),
            p,
        ) by {
            crate::picture::lemma_cell_in_grid(u, v, w, h);
        }
        lemma_one_color(pic, Channel::Red, x, y, r);
        lemma_one_color(pic, Channel::Green, x, y, r);
        lemma_one_color(pic, Channel::Blue, x, y, r);
    }
    lemma_same_picture(crate::blur::blur(pic, r), made_opaque(pic));
}

/// Where a channel is the same all over the picture a blur leaves it.
proof fn lemma_one_color(pic: Picture, c: Channel, x: int, y: int, r: nat)
    requires
        0 <= x < pic.width,
        0 <= y < pic.height,
        forall|u: int, v: int|
            0 <= u < pic.width && 0 <= v < pic.height ==> crate::blur::channel(
                #[trigger] pic.pixel(u, v),
                c,
            ) == crate::blur::channel(pic.pixel(x, y), c),
    ensures
        crate::blur::channel(crate::blur::blur(pic, r).pixel(x, y), c) == crate::blur::channel(
            pic.pixel(x, y),
            c,
        ),
        crate::blur::blur(pic, r).pixel(x, y).alpha == 255,
{
    let value = crate::blur::channel(pic.pixel(x, y), c);
    crate::blur::lemma_mean_within_window(pic, c, x, y, r, value, value);
    crate::blur::lemma_blurred_channel(pic, c, x, y, r);
}

/// A blur of radius 0 changes no color and makes every pixel opaque.
pub proof fn lemma_blur_radius_zero(pic: Picture)
    requires
        pic.wf(),
    ensures
        crate::blur::blur(pic, 0) == made_opaque(pic),
{
    assert forall|x: int, y: int|
        0 <= x < pic.width && 0 <= y < pic.height implies #[trigger] crate::blur::blur(
        pic,
        0,
    ).pixel(x, y) == made_opaque(pic).pixel(x, y) by {
        crate::picture::lemma_cell_in_grid(x, y, pic.width as int, pic.height as int);
        lemma_own_color(pic, Channel::Red, x, y);
        lemma_own_color(pic, Channel::Green, x, y);
        lemma_own_color(pic, Channel::Blue, x, y);
    }
    lemma_same_picture(crate::blur::blur(pic, 0), made_opaque(pic));
}

/// The window of a blur of radius 0 is the place itself.
proof fn lemma_own_color(pic: Picture, c: Channel, x: int, y: int)
    requires
        0 <= x < pic.width,
        0 <= y < pic.height,
    ensures
        crate::blur::channel(crate::blur::blur(pic, 0).pixel(x, y), c) == crate::blur::channel(
            pic.pixel(x, y),
            c,
        ),
        crate::blur::blur(pic, 0).pixel(x, y).alpha == 255,
{
    let value = crate::blur::channel(pic.pixel(x, y), c);
    crate::blur::lemma_mean_within_window(pic, c, x, y, 0, value, value);
    crate::blur::lemma_blurred_channel(pic, c, x, y, 0);
}

/// Where a blur changes no color, because its radius is 0 or the picture is of one color, the
/// same blur again changes nothing.
pub proof fn lemma_blur_again_changes_nothing(pic: Picture, r: nat)
    requires
        pic.wf(),
        r == 0 || flat(pic),
    ensures
        crate::blur::blur(crate::blur::blur(pic, r), r) == crate::blur::blur(pic, r),
{
    let once = made_opaque(pic);
    if r == 0 {
        lemma_blur_radius_zero(pic);
        lemma_blur_radius_zero(once);
    } else {
        lemma_blur_keeps_flat_color(pic, r);
        assert(flat(once));
        lemma_blur_keeps_flat_color(once, r);
    }
    assert(made_opaque(once).pixels =~= once.pixels);
}

/// A channel-wise darker picture of the same size.
pub open spec fn darker(a: Picture, b: Picture) -> bool {
    &&& a.width == b.width
    &&& a.height == b.height
    &&& forall|c: Channel, x: int, y: int|
        0 <= x < a.width && 0 <= y < a.height ==> #[trigger] crate::blur::channel(a.pixel(x, y), c)
            <= crate::blur::channel(b.pixel(x, y), c)
}

proof fn lemma_darker_window(a: Picture, b: Picture, c: Channel, x: int, y: int, n: nat, m: nat)
    requires
        darker(a, b),
        a.width > 0,
        a.height > 0,
    ensures
        crate::blur::window_sum(a, c, x, y, n, m) <= crate::blur::window_sum(b, c, x, y, n, m),
    decreases m,
{
    if m > 0 {
        lemma_darker_window(a, b, c, x, y, n, (m - 1) as nat);
        lemma_darker_run(a, b, c, x, y + m - 1, n);
    }
}

proof fn lemma_darker_run(a: Picture, b: Picture, c: Channel, x: int, y: int, n: nat)
    requires
        darker(a, b),
        a.width > 0,
        a.height > 0,
    ensures
        crate::blur::run_sum(a, c, x, y, n) <= crate::blur::run_sum(b, c, x, y, n),
    decreases n,
{
    if n > 0 {
        lemma_darker_run(a, b, c, x, y, (n - 1) as nat);
        assert(crate::blur::sample(a, c, x + n - 1, y) <= crate::blur::sample(b, c, x + n - 1, y));
    }
}

/// A darker picture blurs darker.
pub proof fn lemma_darker_blurs_darker(a: Picture, b: Picture, r: nat)
    requires
        darker(a, b),
    ensures
        darker(crate::blur::blur(a, r), crate::blur::blur(b, r)),
{
    let (da, db) = (crate::blur::blur(a, r), crate::blur::blur(b, r));
    assert forall|c: Channel, x: int, y: int|
        0 <= x < da.width && 0 <= y < da.height implies #[trigger] crate::blur::channel(
        da.pixel(x, y),
        c,
    ) <= crate::blur::channel(db.pixel(x, y), c) by {
        let side = 2 * r + 1;
        lemma_darker_window(a, b, c, x - r, y - r, side, side);
        lemma_area(side);
        vstd::arithmetic::div_mod::lemma_div_is_ordered(
            crate::blur::window_sum(a, c, x - r, y - r, side, side),
            crate::blur::window_sum(b, c, x - r, y - r, side, side),
            (side * side) as int,
        );
        crate::blur::lemma_blurred_channel(a, c, x, y, r);
        crate::blur::lemma_blurred_channel(b, c, x, y, r);
    }
}

proof fn lemma_area(side: nat)
    requires
        side > 0,
    ensures
        side * side > 0,
{
    assert(side * side > 0) by (nonlinear_arith)
        requires
            side > 0,
    ;
}

/// The picture with left and right exchanged.
pub open spec fn flipped(pic: Picture) -> Picture {
    Picture {
        pixels: Seq::new(
            pic.width * pic.height,
            |i: int| pic.pixel(pic.width - 1 - i % pic.width as int, i / pic.width as int),
        ),
        ..pic
    }
}

/// The picture with top and bottom exchanged.
pub open spec fn upended(pic: Picture) -> Picture {
    Picture {
        pixels: Seq::new(
            pic.width * pic.height,
            |i: int| pic.pixel(i % pic.width as int, pic.height - 1 - i / pic.width as int),
        ),
        ..pic
    }
}

/// The picture with its columns as rows.
pub open spec fn transposed(pic: Picture) -> Picture {
    Picture {
        width: pic.height,
        height: pic.width,
        pixels: Seq::new(
            pic.height * pic.width,
            |i: int| pic.pixel(i / pic.height as int, i % pic.height as int),
        ),
    }
}

/// The picture with each channel `c` taken from channel `from(c)`.
pub open spec fn recolored(pic: Picture, from: spec_fn(Channel) -> Channel) -> Picture {
    Picture { pixels: pic.pixels.map_values(|p: Pixel| recolored_pixel(p, from)), ..pic }
}

/// The pixel with each channel `c` taken from channel `from(c)`.
pub open spec fn recolored_pixel(p: Pixel, from: spec_fn(Channel) -> Channel) -> Pixel {
    Pixel {
        red: crate::blur::channel(p, from(Channel::Red)) as u8,
        green: crate::blur::channel(p, from(Channel::Green)) as u8,
        blue: crate::blur::channel(p, from(Channel::Blue)) as u8,
        alpha: p.alpha,
    }
}

proof fn lemma_flipped_pixel(pic: Picture, x: int, y: int)
    requires
        0 <= x < pic.width,
        0 <= y < pic.height,
    ensures
        flipped(pic).pixel(x, y) == pic.pixel(pic.width - 1 - x, y),
{
    crate::picture::lemma_cell_in_grid(x, y, pic.width as int, pic.height as int);
    crate::picture::lemma_cell_of_place(x, y, pic.width as int);
}

proof fn lemma_upended_pixel(pic: Picture, x: int, y: int)
    requires
        0 <= x < pic.width,
        0 <= y < pic.height,
    ensures
        upended(pic).pixel(x, y) == pic.pixel(x, pic.height - 1 - y),
{
    crate::picture::lemma_cell_in_grid(x, y, pic.width as int, pic.height as int);
    crate::picture::lemma_cell_of_place(x, y, pic.width as int);
}

proof fn lemma_transposed_pixel(pic: Picture, x: int, y: int)
    requires
        0 <= x < pic.height,
        0 <= y < pic.width,
    ensures
        transposed(pic).pixel(x, y) == pic.pixel(y, x),
{
    crate::picture::lemma_cell_in_grid(x, y, pic.height as int, pic.width as int);
    crate::picture::lemma_cell_of_place(x, y, pic.height as int);
}

/// A run begins with its first place.
proof fn lemma_run_from_the_left(pic: Picture, c: Channel, x: int, y: int, n: nat)
    requires
        n > 0,
    ensures
        crate::blur::run_sum(pic, c, x, y, n) == crate::blur::sample(pic, c, x, y)
            + crate::blur::run_sum(pic, c, x + 1, y, (n - 1) as nat),
    decreases n,
{
    if n == 1 {
        assert(crate::blur::run_sum(pic, c, x, y, 0) == 0);
        assert(crate::blur::run_sum(pic, c, x + 1, y, 0) == 0);
    } else {
        lemma_run_from_the_left(pic, c, x, y, (n - 1) as nat);
        assert(x + 1 + (n - 1) - 1 == x + n - 1);
    }
}

/// A window begins with its first row.
proof fn lemma_window_from_the_top(pic: Picture, c: Channel, x: int, y: int, n: nat, m: nat)
    requires
        m > 0,
    ensures
        crate::blur::window_sum(pic, c, x, y, n, m) == crate::blur::run_sum(pic, c, x, y, n)
            + crate::blur::window_sum(pic, c, x, y + 1, n, (m - 1) as nat),
    decreases m,
{
    if m == 1 {
        assert(crate::blur::window_sum(pic, c, x, y, n, 0) == 0);
        assert(crate::blur::window_sum(pic, c, x, y + 1, n, 0) == 0);
    } else {
        lemma_window_from_the_top(pic, c, x, y, n, (m - 1) as nat);
        assert(y + 1 + (m - 1) - 1 == y + m - 1);
    }
}

proof fn lemma_flipped_run(pic: Picture, c: Channel, x: int, y: int, n: nat)
    requires
        pic.width > 0,
        pic.height > 0,
    ensures
        crate::blur::run_sum(flipped(pic), c, x, y, n) == crate::blur::run_sum(
            pic,
            c,
            pic.width - x - n,
            y,
            n,
        ),
    decreases n,
{
    if n > 0 {
        let (w, h) = (pic.width as int, pic.height as int);
        lemma_flipped_run(pic, c, x, y, (n - 1) as nat);
        lemma_run_from_the_left(pic, c, w - x - n, y, n);
        assert(w - x - n + 1 == w - x - (n - 1));
        lemma_flipped_pixel(pic, crate::blur::nearest(x + n - 1, w), crate::blur::nearest(y, h));
        assert(crate::blur::sample(flipped(pic), c, x + n - 1, y) == crate::blur::sample(
            pic,
            c,
            w - x - n,
            y,
        ));
    }
}

proof fn lemma_flipped_window(pic: Picture, c: Channel, x: int, y: int, n: nat, m: nat)
    requires
        pic.width > 0,
        pic.height > 0,
    ensures
        crate::blur::window_sum(flipped(pic), c, x, y, n, m) == crate::blur::window_sum(
            pic,
            c,
            pic.width - x - n,
            y,
            n,
            m,
        ),
    decreases m,
{
    if m > 0 {
        lemma_flipped_window(pic, c, x, y, n, (m - 1) as nat);
        lemma_flipped_run(pic, c, x, y + m - 1, n);
    }
}

proof fn lemma_upended_run(pic: Picture, c: Channel, x: int, y: int, n: nat)
    requires
        pic.width > 0,
        pic.height > 0,
    ensures
        crate::blur::run_sum(upended(pic), c, x, y, n) == crate::blur::run_sum(
            pic,
            c,
            x,
            pic.height - 1 - y,
            n,
        ),
    decreases n,
{
    if n > 0 {
        let (w, h) = (pic.width as int, pic.height as int);
        lemma_upended_run(pic, c, x, y, (n - 1) as nat);
        lemma_upended_pixel(pic, crate::blur::nearest(x + n - 1, w), crate::blur::nearest(y, h));
        assert(crate::blur::sample(upended(pic), c, x + n - 1, y) == crate::blur::sample(
            pic,
            c,
            x + n - 1,
            h - 1 - y,
        ));
    }
}

proof fn lemma_upended_window(pic: Picture, c: Channel, x: int, y: int, n: nat, m: nat)
    requires
        pic.width > 0,
        pic.height > 0,
    ensures
        crate::blur::window_sum(upended(pic), c, x, y, n, m) == crate::blur::window_sum(
            pic,
            c,
            x,
            pic.height - y - m,
            n,
            m,
        ),
    decreases m,
{
    if m > 0 {
        let h = pic.height as int;
        lemma_upended_window(pic, c, x, y, n, (m - 1) as nat);
        lemma_window_from_the_top(pic, c, x, h - y - m, n, m);
        lemma_upended_run(pic, c, x, y + m - 1, n);
        assert(h - 1 - (y + m - 1) == h - y - m);
        assert(h - y - m + 1 == h - y - (m - 1));
    }
}

/// One channel summed over the `m` places from row `y` on in column `x`.
spec fn column_sum(pic: Picture, c: Channel, x: int, y: int, m: nat) -> int
    decreases m,
{
    if m == 0 {
        0
    } else {
        column_sum(pic, c, x, y, (m - 1) as nat) + crate::blur::sample(pic, c, x, y + m - 1)
    }
}

/// A window ends with its last column.
proof fn lemma_window_last_column(pic: Picture, c: Channel, x: int, y: int, n: nat, m: nat)
    requires
        n > 0,
    ensures
        crate::blur::window_sum(pic, c, x, y, n, m) == crate::blur::window_sum(
            pic,
            c,
            x,
            y,
            (n - 1) as nat,
            m,
        ) + column_sum(pic, c, x + n - 1, y, m),
    decreases m,
{
    if m > 0 {
        lemma_window_last_column(pic, c, x, y, n, (m - 1) as nat);
    }
}

proof fn lemma_transposed_run(pic: Picture, c: Channel, x: int, y: int, n: nat)
    requires
        pic.width > 0,
        pic.height > 0,
    ensures
        crate::blur::run_sum(transposed(pic), c, x, y, n) == column_sum(pic, c, y, x, n),
    decreases n,
{
    if n > 0 {
        let (w, h) = (pic.width as int, pic.height as int);
        lemma_transposed_run(pic, c, x, y, (n - 1) as nat);
        lemma_transposed_pixel(pic, crate::blur::nearest(x + n - 1, h), crate::blur::nearest(y, w));
    }
}

proof fn lemma_empty_window(pic: Picture, c: Channel, x: int, y: int, m: nat)
    ensures
        crate::blur::window_sum(pic, c, x, y, 0, m) == 0,
    decreases m,
{
    if m > 0 {
        lemma_empty_window(pic, c, x, y, (m - 1) as nat);
    }
}

proof fn lemma_transposed_window(pic: Picture, c: Channel, x: int, y: int, n: nat, m: nat)
    requires
        pic.width > 0,
        pic.height > 0,
    ensures
        crate::blur::window_sum(transposed(pic), c, x, y, n, m) == crate::blur::window_sum(
            pic,
            c,
            y,
            x,
            m,
            n,
        ),
    decreases m,
{
    if m == 0 {
        lemma_empty_window(pic, c, y, x, n);
    } else {
        lemma_transposed_window(pic, c, x, y, n, (m - 1) as nat);
        lemma_transposed_run(pic, c, x, y + m - 1, n);
        lemma_window_last_column(pic, c, y, x, m, n);
    }
}

proof fn lemma_recolored_run(
    pic: Picture,
    from: spec_fn(Channel) -> Channel,
    c: Channel,
    x: int,
    y: int,
    n: nat,
)
    requires
        pic.wf(),
        pic.width > 0,
        pic.height > 0,
    ensures
        crate::blur::run_sum(recolored(pic, from), c, x, y, n) == crate::blur::run_sum(
            pic,
            from(c),
            x,
            y,
            n,
        ),
    decreases n,
{
    if n > 0 {
        let (w, h) = (pic.width as int, pic.height as int);
        lemma_recolored_run(pic, from, c, x, y, (n - 1) as nat);
        crate::picture::lemma_cell_in_grid(
            crate::blur::nearest(x + n - 1, w),
            crate::blur::nearest(y, h),
            w,
            h,
        );
    }
}

proof fn lemma_recolored_window(
    pic: Picture,
    from: spec_fn(Channel) -> Channel,
    c: Channel,
    x: int,
    y: int,
    n: nat,
    m: nat,
)
    requires
        pic.wf(),
        pic.width > 0,
        pic.height > 0,
    ensures
        crate::blur::window_sum(recolored(pic, from), c, x, y, n, m) == crate::blur::window_sum(
            pic,
            from(c),
            x,
            y,
            n,
            m,
        ),
    decreases m,
{
    if m > 0 {
        lemma_recolored_window(pic, from, c, x, y, n, (m - 1) as nat);
        lemma_recolored_run(pic, from, c, x, y + m - 1, n);
    }
}

/// Blurring prefers neither left nor right: a flipped picture blurs to the blurred one flipped.
pub proof fn lemma_blur_of_flipped(pic: Picture, r: nat)
    ensures
        crate::blur::blur(flipped(pic), r) == flipped(crate::blur::blur(pic, r)),
{
    let (one, other) = (crate::blur::blur(flipped(pic), r), flipped(crate::blur::blur(pic, r)));
    assert forall|x: int, y: int|
        0 <= x < pic.width && 0 <= y < pic.height implies #[trigger] one.pixel(x, y) == other.pixel(
        x,
        y,
    ) by {
        lemma_flipped_pixel(crate::blur::blur(pic, r), x, y);
        lemma_flipped_mean(pic, Channel::Red, x, y, r);
        lemma_flipped_mean(pic, Channel::Green, x, y, r);
        lemma_flipped_mean(pic, Channel::Blue, x, y, r);
    }
    lemma_same_picture(one, other);
}

proof fn lemma_flipped_mean(pic: Picture, c: Channel, x: int, y: int, r: nat)
    requires
        0 <= x < pic.width,
        0 <= y < pic.height,
    ensures
        crate::blur::channel(crate::blur::blur(flipped(pic), r).pixel(x, y), c)
            == crate::blur::channel(crate::blur::blur(pic, r).pixel(pic.width - 1 - x, y), c),
        crate::blur::blur(flipped(pic), r).pixel(x, y).alpha == 255,
        crate::blur::blur(pic, r).pixel(pic.width - 1 - x, y).alpha == 255,
{
    let side = 2 * r + 1;
    lemma_flipped_window(pic, c, x - r, y - r, side, side);
    assert(pic.width - (x - r) - side == pic.width - 1 - x - r);
    crate::blur::lemma_blurred_channel(flipped(pic), c, x, y, r);
    crate::blur::lemma_blurred_channel(pic, c, pic.width - 1 - x, y, r);
}

/// Blurring prefers neither top nor bottom: an upended picture blurs to the blurred one upended.
pub proof fn lemma_blur_of_upended(pic: Picture, r: nat)
    ensures
        crate::blur::blur(upended(pic), r) == upended(crate::blur::blur(pic, r)),
{
    let (one, other) = (crate::blur::blur(upended(pic), r), upended(crate::blur::blur(pic, r)));
    assert forall|x: int, y: int|
        0 <= x < pic.width && 0 <= y < pic.height implies #[trigger] one.pixel(x, y) == other.pixel(
        x,
        y,
    ) by {
        lemma_upended_pixel(crate::blur::blur(pic, r), x, y);
        lemma_upended_mean(pic, Channel::Red, x, y, r);
        lemma_upended_mean(pic, Channel::Green, x, y, r);
        lemma_upended_mean(pic, Channel::Blue, x, y, r);
    }
    lemma_same_picture(one, other);
}

proof fn lemma_upended_mean(pic: Picture, c: Channel, x: int, y: int, r: nat)
    requires
        0 <= x < pic.width,
        0 <= y < pic.height,
    ensures
        crate::blur::channel(crate::blur::blur(upended(pic), r).pixel(x, y), c)
            == crate::blur::channel(crate::blur::blur(pic, r).pixel(x, pic.height - 1 - y), c),
        crate::blur::blur(upended(pic), r).pixel(x, y).alpha == 255,
        crate::blur::blur(pic, r).pixel(x, pic.height - 1 - y).alpha == 255,
{
    let side = 2 * r + 1;
    lemma_upended_window(pic, c, x - r, y - r, side, side);
    assert(pic.height - (y - r) - side == pic.height - 1 - y - r);
    crate::blur::lemma_blurred_channel(upended(pic), c, x, y, r);
    crate::blur::lemma_blurred_channel(pic, c, x, pic.height - 1 - y, r);
}

/// Blurring prefers neither rows nor columns: a transposed picture blurs to the blurred one
/// transposed.
pub proof fn lemma_blur_of_transposed(pic: Picture, r: nat)
    ensures
        crate::blur::blur(transposed(pic), r) == transposed(crate::blur::blur(pic, r)),
{
    let one = crate::blur::blur(transposed(pic), r);
    let other = transposed(crate::blur::blur(pic, r));
    assert forall|x: int, y: int|
        0 <= x < one.width && 0 <= y < one.height implies #[trigger] one.pixel(x, y) == other.pixel(
        x,
        y,
    ) by {
        lemma_transposed_pixel(crate::blur::blur(pic, r), x, y);
        lemma_transposed_mean(pic, Channel::Red, x, y, r);
        lemma_transposed_mean(pic, Channel::Green, x, y, r);
        lemma_transposed_mean(pic, Channel::Blue, x, y, r);
    }
    lemma_same_picture(one, other);
}

proof fn lemma_transposed_mean(pic: Picture, c: Channel, x: int, y: int, r: nat)
    requires
        0 <= x < pic.height,
        0 <= y < pic.width,
    ensures
        crate::blur::channel(crate::blur::blur(transposed(pic), r).pixel(x, y), c)
            == crate::blur::channel(crate::blur::blur(pic, r).pixel(y, x), c),
        crate::blur::blur(transposed(pic), r).pixel(x, y).alpha == 255,
        crate::blur::blur(pic, r).pixel(y, x).alpha == 255,
{
    let side = 2 * r + 1;
    lemma_transposed_window(pic, c, x - r, y - r, side, side);
    crate::blur::lemma_blurred_channel(transposed(pic), c, x, y, r);
    crate::blur::lemma_blurred_channel(pic, c, y, x, r);
}

/// Blurring prefers no channel: a picture with its channels exchanged blurs to the blurred one
/// with its channels exchanged.
pub proof fn lemma_blur_of_recolored(pic: Picture, from: spec_fn(Channel) -> Channel, r: nat)
    requires
        pic.wf(),
    ensures
        crate::blur::blur(recolored(pic, from), r) == recolored(crate::blur::blur(pic, r), from),
{
    let one = crate::blur::blur(recolored(pic, from), r);
    let other = recolored(crate::blur::blur(pic, r), from);
    assert forall|x: int, y: int|
        0 <= x < pic.width && 0 <= y < pic.height implies #[trigger] one.pixel(x, y) == other.pixel(
        x,
        y,
    ) by {
        crate::picture::lemma_cell_in_grid(x, y, pic.width as int, pic.height as int);
        lemma_recolored_mean(pic, from, Channel::Red, x, y, r);
        lemma_recolored_mean(pic, from, Channel::Green, x, y, r);
        lemma_recolored_mean(pic, from, Channel::Blue, x, y, r);
    }
    lemma_same_picture(one, other);
}

proof fn lemma_recolored_mean(
    pic: Picture,
    from: spec_fn(Channel) -> Channel,
    c: Channel,
    x: int,
    y: int,
    r: nat,
)
    requires
        pic.wf(),
        0 <= x < pic.width,
        0 <= y < pic.height,
    ensures
        crate::blur::channel(crate::blur::blur(recolored(pic, from), r).pixel(x, y), c)
            == crate::blur::channel(crate::blur::blur(pic, r).pixel(x, y), from(c)),
        crate::blur::blur(recolored(pic, from), r).pixel(x, y).alpha == 255,
        crate::blur::blur(pic, r).pixel(x, y).alpha == 255,
{
    let side = 2 * r + 1;
    lemma_recolored_window(pic, from, c, x - r, y - r, side, side);
    crate::blur::lemma_blurred_channel(recolored(pic, from), c, x, y, r);
    crate::blur::lemma_blurred_channel(pic, from(c), x, y, r);
}

/// What the places of a window of radius `r` around (`x`, `y`) hold, row by row. A place outside
/// the picture holds what the nearest place inside holds.
pub open spec fn window_values(
    pic: Picture,
    value: spec_fn(Pixel) -> int,
    x: int,
    y: int,
    r: nat,
) -> Seq<int> {
    let side = 2 * r + 1;
    Seq::new(
        side * side,
        |k: int|
            {
                let (u, v) = (x - r + k % side as int, y - r + k / side as int);
                let px = if u < 0 {
                    0
                } else if u >= pic.width {
                    pic.width - 1
                } else {
                    u
                };
                let py = if v < 0 {
                    0
                } else if v >= pic.height {
                    pic.height - 1
                } else {
                    v
                };
                value(pic.pixels[py * pic.width + px])
            },
    )
}

/// This is the mean of the values, rounded down.
pub open spec fn is_mean(mean: int, values: Seq<int>) -> bool {
    let sum = values.fold_left(0int, |sum: int, v: int| sum + v);
    values.len() * mean <= sum < values.len() * (mean + 1)
}

/// What one channel holds, as a function of the pixel.
spec fn value_of(c: Channel) -> spec_fn(Pixel) -> int {
    |p: Pixel| crate::blur::channel(p, c)
}

proof fn lemma_window_so_far(pic: Picture, c: Channel, x: int, y: int, r: nat, m: nat, j: nat)
    requires
        m <= 2 * r,
        j <= 2 * r + 1,
    ensures
        m * (2 * r + 1) + j <= (2 * r + 1) * (2 * r + 1),
        window_values(pic, value_of(c), x, y, r).take((m * (2 * r + 1) + j) as int).fold_left(
            0int,
            |sum: int, v: int| sum + v,
        ) == crate::blur::window_sum(pic, c, x - r, y - r, 2 * r + 1, m) + crate::blur::run_sum(
            pic,
            c,
            x - r,
            y - r + m,
            j,
        ),
    decreases m, j,
{
    let side = 2 * r + 1;
    let all = window_values(pic, value_of(c), x, y, r);
    let n = (m * side + j) as int;
    assert(m * side + side <= side * side) by (nonlinear_arith)
        requires
            m + 1 <= side,
    ;
    assert(m * side >= 0) by (nonlinear_arith);
    if j > 0 {
        lemma_window_so_far(pic, c, x, y, r, m, (j - 1) as nat);
        assert(all.take(n).drop_last() =~= all.take(n - 1));
        crate::picture::lemma_cell_of_place(j - 1, m as int, side as int);
        assert(all.take(n).last() == all[n - 1]);
        assert(x - r + (j - 1) == x - r + j - 1);
        assert(all[n - 1] == crate::blur::sample(pic, c, x - r + j - 1, y - r + m));
    } else if m > 0 {
        lemma_window_so_far(pic, c, x, y, r, (m - 1) as nat, side);
        assert((m - 1) * side + side == m * side) by (nonlinear_arith);
        assert(y - r + (m - 1) == y - r + m - 1);
    } else {
        assert(0 * side == 0) by (nonlinear_arith);
        assert(all.take(0) =~= Seq::<int>::empty());
    }
}

proof fn lemma_channel_is_the_mean(pic: Picture, c: Channel, x: int, y: int, r: nat)
    requires
        0 <= x < pic.width,
        0 <= y < pic.height,
    ensures
        is_mean(
            crate::blur::channel(crate::blur::blur(pic, r).pixel(x, y), c),
            window_values(pic, value_of(c), x, y, r),
        ),
        crate::blur::blur(pic, r).pixel(x, y).alpha == 255,
{
    let side = 2 * r + 1;
    let all = window_values(pic, value_of(c), x, y, r);
    lemma_window_so_far(pic, c, x, y, r, (side - 1) as nat, side);
    assert((side - 1) * side + side == side * side) by (nonlinear_arith);
    assert(all.take((side * side) as int) =~= all);
    crate::blur::lemma_blurred_channel(pic, c, x, y, r);
    lemma_area(side);
    let sum = all.fold_left(0int, |sum: int, v: int| sum + v);
    assert(y - r + (side - 1) == y - r + side - 1);
    assert(sum == crate::blur::window_sum(pic, c, x - r, y - r, side, side));
    let area = (side * side) as int;
    let mean = sum / area;
    vstd::arithmetic::div_mod::lemma_fundamental_div_mod(sum, area);
    vstd::arithmetic::div_mod::lemma_mod_bound(sum, area);
    assert(area * (mean + 1) == area * mean + area) by (nonlinear_arith);
}

/// A blur takes means: each channel of a blurred pixel is the mean of that channel over the whole
/// window around it, rounded down, every place counting once. The pixel is opaque, and the picture
/// keeps its size.
pub proof fn lemma_blur_takes_the_mean(pic: Picture, x: int, y: int, r: nat)
    requires
        0 <= x < pic.width,
        0 <= y < pic.height,
    ensures
        ({
            let after = crate::blur::blur(pic, r);
            let p = after.pixels[y * pic.width + x];
            &&& after.width == pic.width && after.height == pic.height
            &&& after.pixels.len() == pic.width * pic.height
            &&& is_mean(p.red as int, window_values(pic, |q: Pixel| q.red as int, x, y, r))
            &&& is_mean(p.green as int, window_values(pic, |q: Pixel| q.green as int, x, y, r))
            &&& is_mean(p.blue as int, window_values(pic, |q: Pixel| q.blue as int, x, y, r))
            &&& p.alpha == 255
        }),
{
    lemma_channel_is_the_mean(pic, Channel::Red, x, y, r);
    lemma_channel_is_the_mean(pic, Channel::Green, x, y, r);
    lemma_channel_is_the_mean(pic, Channel::Blue, x, y, r);
    assert(value_of(Channel::Red) =~= |q: Pixel| q.red as int);
    assert(value_of(Channel::Green) =~= |q: Pixel| q.green as int);
    assert(value_of(Channel::Blue) =~= |q: Pixel| q.blue as int);
}

/// A backdrop is blurred with the radii 14, 12 and 10, so a pixel of it comes of the screenshot
/// within 36 pixels: it keeps any bounds that a channel keeps there.
pub proof fn lemma_backdrop_comes_of_its_surroundings(
    pic: Picture,
    c: Channel,
    x: int,
    y: int,
    lo: int,
    hi: int,
)
    requires
        0 <= x < pic.width,
        0 <= y < pic.height,
        forall|u: int, v: int|
            0 <= u < pic.width && 0 <= v < pic.height && x - 36 <= u <= x + 36 && y - 36 <= v <= y
                + 36 ==> lo <= crate::blur::channel(#[trigger] pic.pixel(u, v), c) <= hi,
    ensures
        crate::blur::backdrop(pic) == crate::blur::blur(
            crate::blur::blur(crate::blur::blur(pic, 14), 12),
            10,
        ),
        lo <= crate::blur::channel(crate::blur::backdrop(pic).pixel(x, y), c) <= hi,
{
    let first = crate::blur::blur(pic, 14);
    let second = crate::blur::blur(first, 12);
    assert forall|u: int, v: int|
        0 <= u < pic.width && 0 <= v < pic.height && x - 22 <= u <= x + 22 && y - 22 <= v <= y
            + 22 implies lo <= crate::blur::channel(#[trigger] first.pixel(u, v), c) <= hi by {
        lemma_blur_within_window(pic, c, u, v, 14, lo, hi);
    }
    assert forall|u: int, v: int|
        0 <= u < pic.width && 0 <= v < pic.height && x - 10 <= u <= x + 10 && y - 10 <= v <= y
            + 10 implies lo <= crate::blur::channel(#[trigger] second.pixel(u, v), c) <= hi by {
        lemma_blur_within_window(first, c, u, v, 12, lo, hi);
    }
    lemma_blur_within_window(second, c, x, y, 10, lo, hi);
}

} // verus!
