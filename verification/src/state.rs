//! The state of the overlay: a surface on every output, and what the display server's events
//! make of it.
//!
//! Outputs and surfaces are known by numbers; equal numbers stand for the same output or
//! surface. Times are nanoseconds since the start.

use vstd::prelude::*;

use crate::gif::{gif_frame_index, GifFrame};
use crate::seed::{next_seed, FIRST_SEED};

verus! {

/// The overlay's surface on one output.
#[derive(Clone, Copy, Debug, PartialEq, Eq, Structural)]
pub struct OutputSurface {
    pub output: u64,
    pub surface: u64,
    pub width: u32,
    pub height: u32,
    /// The display server has said that it may be drawn.
    pub configured: bool,
}

/// A mode of an output, as far as it matters here.
#[derive(Clone, Copy, Debug, PartialEq, Eq, Structural)]
pub struct Mode {
    /// It is the one in use.
    pub current: bool,
    pub width: i32,
    pub height: i32,
}

/// The size of a surface on an output whose mode is not known.
pub const DEFAULT_WIDTH: u32 = 1920;

/// The height to go with it.
pub const DEFAULT_HEIGHT: u32 = 1080;

/// The first of the modes that is in use.
pub open spec fn current_mode(modes: Seq<Mode>) -> Option<Mode>
    decreases modes.len(),
{
    if modes.len() == 0 {
        None
    } else if modes[0].current {
        Some(modes[0])
    } else {
        current_mode(modes.drop_first())
    }
}

/// A length of at least one pixel.
pub open spec fn at_least_one(length: i32) -> u32 {
    if length < 1 {
        1
    } else {
        length as u32
    }
}

/// The size that a surface starts with on an output with these modes.
pub open spec fn initial_size(modes: Seq<Mode>) -> (u32, u32) {
    match current_mode(modes) {
        Some(mode) => (at_least_one(mode.width), at_least_one(mode.height)),
        None => (DEFAULT_WIDTH, DEFAULT_HEIGHT),
    }
}

/// The bytes to set aside for a surface: two buffers of four bytes to the pixel.
pub open spec fn pool_bytes(size: (u32, u32)) -> int {
    size.0 * size.1 * 4 * 2
}

/// The state, as the contracts speak of it.
#[verifier::ext_equal]
pub struct Overlay {
    pub outputs: Seq<OutputSurface>,
    pub counter_seed: u64,
    pub bg_fade_start: Option<u64>,
    pub exit: bool,
}

/// `index` is the first of the outputs with this surface, if any has it.
pub open spec fn finds(outputs: Seq<OutputSurface>, surface: u64, index: Option<usize>) -> bool {
    match index {
        Some(i) => {
            &&& i < outputs.len()
            &&& outputs[i as int].surface == surface
            &&& forall|j: int| 0 <= j < i ==> (#[trigger] outputs[j]).surface != surface
        },
        None => forall|j: int|
            0 <= j < outputs.len() ==> (#[trigger] outputs[j]).surface != surface,
    }
}

/// A length from a configure event, where zero leaves it to the client.
pub open spec fn new_length(asked: u32, length: u32) -> u32 {
    if asked > 0 {
        asked
    } else {
        length
    }
}

impl Overlay {
    /// Every surface has at least one pixel.
    pub open spec fn wf(self) -> bool {
        forall|i: int|
            0 <= i < self.outputs.len() ==> (#[trigger] self.outputs[i]).width > 0
                && self.outputs[i].height > 0
    }

    /// Before any event.
    pub open spec fn start() -> Overlay {
        Overlay {
            outputs: Seq::empty(),
            counter_seed: FIRST_SEED,
            bg_fade_start: None,
            exit: false,
        }
    }

    /// After a frame at time `now`. The seed steps; the backdrop starts to fade in with the
    /// first frame that finds it there.
    pub open spec fn after_frame(self, has_background: bool, now: u64) -> Overlay {
        Overlay {
            counter_seed: crate::seed::seed_after(self.counter_seed),
            bg_fade_start: match self.bg_fade_start {
                Some(start) => Some(start),
                None => if has_background {
                    Some(now)
                } else {
                    None
                },
            },
            ..self
        }
    }

    /// After an output has come: it has a surface of its own, not yet configured.
    pub open spec fn after_new_output(
        self,
        output: u64,
        surface: u64,
        modes: Seq<Mode>,
    ) -> Overlay {
        let (width, height) = initial_size(modes);
        Overlay {
            outputs: self.outputs.push(
                OutputSurface { output, surface, width, height, configured: false },
            ),
            ..self
        }
    }

    /// With these outputs only; the overlay is over when there are none.
    pub open spec fn left_with(self, outputs: Seq<OutputSurface>) -> Overlay {
        Overlay { outputs, exit: self.exit || outputs.len() == 0, ..self }
    }

    /// After an output has gone.
    pub open spec fn after_output_destroyed(self, output: u64) -> Overlay {
        self.left_with(self.outputs.filter(|o: OutputSurface| o.output != output))
    }

    /// After a surface has been closed.
    pub open spec fn after_closed(self, surface: u64) -> Overlay {
        self.left_with(self.outputs.filter(|o: OutputSurface| o.surface != surface))
    }

    /// After the output at `index` has been configured.
    pub open spec fn after_configure(self, index: int, width: u32, height: u32) -> Overlay {
        let o = self.outputs[index];
        Overlay {
            outputs: self.outputs.update(
                index,
                OutputSurface {
                    width: new_length(width, o.width),
                    height: new_length(height, o.height),
                    configured: true,
                    ..o
                },
            ),
            ..self
        }
    }
}

impl Overlay {
    /// This is what to draw on the output at `index`, with an animation of these delays whose
    /// clock stands at `clock`.
    pub open spec fn plans(
        self,
        index: int,
        delays: Seq<u32>,
        clock: nat,
        plan: Option<RenderPlan>,
    ) -> bool {
        &&& plan is Some <==> index < self.outputs.len() && self.outputs[index].configured
        &&& plan matches Some(p) ==> {
            let o = self.outputs[index];
            &&& p.width == o.width as i32
            &&& p.height == o.height as i32
            &&& p.stride == (4 * o.width) as i32
            &&& p.gif_frame is None <==> delays.len() == 0
            &&& p.gif_frame matches Some(i) ==> crate::gif::shows(delays, clock, i as int)
        }
    }
}

/// The state of the overlay.
#[derive(Debug)]
pub struct AppState {
    pub outputs: Vec<OutputSurface>,
    pub counter_seed: u64,
    /// When the backdrop started to fade in.
    pub bg_fade_start: Option<u64>,
    /// The overlay is over.
    pub exit: bool,
}

impl View for AppState {
    type V = Overlay;

    open spec fn view(&self) -> Overlay {
        Overlay {
            outputs: self.outputs@,
            counter_seed: self.counter_seed,
            bg_fade_start: self.bg_fade_start,
            exit: self.exit,
        }
    }
}

/// What to draw on an output.
#[derive(Clone, Copy, Debug, PartialEq, Eq, Structural)]
pub struct RenderPlan {
    /// Size of the buffer in pixels, and of its rows in bytes.
    pub width: i32,
    pub height: i32,
    pub stride: i32,
    /// The frame of the animation to show.
    pub gif_frame: Option<usize>,
}

/// Finds the first output with this surface.
fn position(outputs: &Vec<OutputSurface>, surface: u64) -> (index: Option<usize>)
    ensures
        finds(outputs@, surface, index),
{
    let mut i: usize = 0;
    while i < outputs.len()
        invariant
            i <= outputs@.len(),
            forall|j: int| 0 <= j < i ==> (#[trigger] outputs@[j]).surface != surface,
        decreases outputs@.len() - i,
    {
        if outputs[i].surface == surface {
            return Some(i);
        }
        i = i + 1;
    }
    None
}

/// Filtering one more element of a sequence.
proof fn lemma_filter_one_more(s: Seq<OutputSurface>, n: int, keep: spec_fn(OutputSurface) -> bool)
    requires
        0 <= n < s.len(),
    ensures
        s.take(n + 1).filter(keep) == if keep(s[n]) {
            s.take(n).filter(keep).push(s[n])
        } else {
            s.take(n).filter(keep)
        },
{
    assert(s.take(n + 1).drop_last() =~= s.take(n));
    reveal(Seq::filter);
}

/// Keeps the outputs for which `test` holds, which is what `keep` says.
fn kept_outputs<F: Fn(OutputSurface) -> bool>(
    outputs: &Vec<OutputSurface>,
    test: F,
    Ghost(keep): Ghost<spec_fn(OutputSurface) -> bool>,
) -> (kept: Vec<OutputSurface>)
    requires
        forall|o: OutputSurface| #[trigger] call_requires(test, (o,)),
        forall|o: OutputSurface, b: bool| #[trigger]
            call_ensures(test, (o,), b) ==> b == keep(o),
    ensures
        kept@ == outputs@.filter(keep),
{
    let mut kept: Vec<OutputSurface> = Vec::new();
    let mut i: usize = 0;
    assert(outputs@.take(0).filter(keep) =~= Seq::empty()) by {
        reveal(Seq::filter);
    }
    while i < outputs.len()
        invariant
            i <= outputs@.len(),
            forall|o: OutputSurface| #[trigger] call_requires(test, (o,)),
            forall|o: OutputSurface, b: bool| #[trigger]
                call_ensures(test, (o,), b) ==> b == keep(o),
            kept@ == outputs@.take(i as int).filter(keep),
        decreases outputs@.len() - i,
    {
        proof {
            lemma_filter_one_more(outputs@, i as int, keep);
        }
        if test(outputs[i]) {
            kept.push(outputs[i]);
        }
        i = i + 1;
    }
    assert(outputs@.take(i as int) =~= outputs@);
    kept
}

/// Works out the size that a surface starts with on an output with these modes.
pub fn first_size(modes: &Vec<Mode>) -> (size: (u32, u32))
    ensures
        size == initial_size(modes@),
{
    let mut i: usize = 0;
    assert(modes@.skip(0) =~= modes@);
    while i < modes.len()
        invariant
            i <= modes@.len(),
            current_mode(modes@) == current_mode(modes@.skip(i as int)),
        decreases modes@.len() - i,
    {
        let mode = modes[i];
        if mode.current {
            let width: u32 = if mode.width < 1 {
                1
            } else {
                mode.width as u32
            };
            let height: u32 = if mode.height < 1 {
                1
            } else {
                mode.height as u32
            };
            return (width, height);
        }
        assert(modes@.skip(i as int).drop_first() =~= modes@.skip(i + 1));
        i = i + 1;
    }
    (DEFAULT_WIDTH, DEFAULT_HEIGHT)
}

impl AppState {
    /// The state before any event.
    pub fn new() -> (state: AppState)
        ensures
            state@ == Overlay::start(),
            state@.wf(),
    {
        AppState {
            outputs: Vec::new(),
            counter_seed: FIRST_SEED,
            bg_fade_start: None,
            exit: false,
        }
    }

    /// A frame is due on this surface. Tells which output to draw, if any has the surface.
    pub fn frame(&mut self, surface: u64, has_background: bool, now: u64) -> (index: Option<usize>)
        ensures
            final(self)@ == old(self)@.after_frame(has_background, now),
            finds(old(self)@.outputs, surface, index),
    {
        self.counter_seed = next_seed(self.counter_seed);
        if self.bg_fade_start.is_none() && has_background {
            self.bg_fade_start = Some(now);
        }
        position(&self.outputs, surface)
    }

    /// An output has come. Tells how many bytes to set aside for its surface, which must fit in
    /// the memory.
    pub fn new_output(&mut self, output: u64, surface: u64, modes: &Vec<Mode>) -> (pool_size: usize)
        requires
            pool_bytes(initial_size(modes@)) <= usize::MAX,
        ensures
            final(self)@ == old(self)@.after_new_output(output, surface, modes@),
            old(self)@.wf() ==> final(self)@.wf(),
            pool_size == pool_bytes(initial_size(modes@)),
    {
        let (width, height) = first_size(modes);
        self.outputs.push(OutputSurface { output, surface, width, height, configured: false });
        (width as usize) * (height as usize) * 4 * 2
    }

    /// An output has gone.
    pub fn output_destroyed(&mut self, output: u64)
        ensures
            final(self)@ == old(self)@.after_output_destroyed(output),
            old(self)@.wf() ==> final(self)@.wf(),
    {
        let ghost keep = |o: OutputSurface| o.output != output;
        proof {
            old(self)@.lemma_filter_keeps_wf(keep);
        }
        let test = |o: OutputSurface| -> (b: bool)
            ensures
                b == (o.output != output),
            { o.output != output };
        self.outputs = kept_outputs(&self.outputs, test, Ghost(keep));
        if self.outputs.len() == 0 {
            self.exit = true;
        }
    }

    /// A surface has been closed.
    pub fn closed(&mut self, surface: u64)
        ensures
            final(self)@ == old(self)@.after_closed(surface),
            old(self)@.wf() ==> final(self)@.wf(),
    {
        let ghost keep = |o: OutputSurface| o.surface != surface;
        proof {
            old(self)@.lemma_filter_keeps_wf(keep);
        }
        let test = |o: OutputSurface| -> (b: bool)
            ensures
                b == (o.surface != surface),
            { o.surface != surface };
        self.outputs = kept_outputs(&self.outputs, test, Ghost(keep));
        if self.outputs.len() == 0 {
            self.exit = true;
        }
    }

    /// The display server has configured a surface. Tells which output to draw, if any has the
    /// surface; that output is then ready.
    pub fn configure(&mut self, surface: u64, width: u32, height: u32) -> (index: Option<usize>)
        ensures
            finds(old(self)@.outputs, surface, index),
            match index {
                Some(i) => final(self)@ == old(self)@.after_configure(i as int, width, height),
                None => final(self)@ == old(self)@,
            },
            old(self)@.wf() ==> final(self)@.wf(),
    {
        let index = position(&self.outputs, surface);
        if let Some(i) = index {
            let mut out = self.outputs[i];
            if width > 0 {
                out.width = width;
            }
            if height > 0 {
                out.height = height;
            }
            out.configured = true;
            self.outputs[i] = out;
        }
        index
    }

    /// Works out what to draw on the output at `index`: nothing if there is none, or if it is
    /// not configured. The bytes of a row must fit in 32 bits, and so must the play time of the
    /// animation, whose clock stands at `clock_ms`.
    pub fn render_output(
        &self,
        index: usize,
        frames: &Vec<GifFrame>,
        clock_ms: u32,
    ) -> (plan: Option<RenderPlan>)
        requires
            index < self@.outputs.len() && self@.outputs[index as int].configured ==> 4
                * self@.outputs[index as int].width <= u32::MAX,
            crate::gif::play_time(crate::gif::delays_of(frames@)) <= u32::MAX,
        ensures
            self@.plans(index as int, crate::gif::delays_of(frames@), clock_ms as nat, plan),
    {
        let gif_frame = gif_frame_index(frames, clock_ms);
        if index >= self.outputs.len() {
            return None;
        }
        let out = self.outputs[index];
        if !out.configured {
            return None;
        }
        Some(
            RenderPlan {
                width: out.width as i32,
                height: out.height as i32,
                stride: (out.width * 4) as i32,
                gif_frame,
            },
        )
    }
}

impl Overlay {
    proof fn lemma_filter_keeps_wf(self, keep: spec_fn(OutputSurface) -> bool)
        ensures
            self.wf() ==> self.left_with(self.outputs.filter(keep)).wf(),
    {
        if self.wf() {
            let kept = self.outputs.filter(keep);
            assert forall|i: int| 0 <= i < kept.len() implies (#[trigger] kept[i]).width > 0
                && kept[i].height > 0 by {
                self.outputs.lemma_filter_contains_rev(keep, kept[i]);
                let j = choose|j: int|
                    0 <= j < self.outputs.len() && self.outputs[j] == kept[i];
                assert(self.outputs[j].width > 0);
            }
        }
    }
}

/// Keeping by one rule and then by another comes to the same in either order.
proof fn lemma_filters_commute(
    s: Seq<OutputSurface>,
    p: spec_fn(OutputSurface) -> bool,
    q: spec_fn(OutputSurface) -> bool,
)
    ensures
        s.filter(p).filter(q) == s.filter(q).filter(p),
    decreases s.len(),
{
    reveal(Seq::filter);
    if s.len() > 0 {
        let rest = s.drop_last();
        lemma_filters_commute(rest, p, q);
        if p(s.last()) {
            assert(s.filter(p).drop_last() =~= rest.filter(p));
        }
        if q(s.last()) {
            assert(s.filter(q).drop_last() =~= rest.filter(q));
        }
    }
}

/// When an output has gone nothing is left of it, and everything else is left.
pub proof fn lemma_destroyed_is_gone(before: Overlay, output: u64)
    ensures
        forall|o: OutputSurface|
            #[trigger] before.after_output_destroyed(output).outputs.contains(o)
                <==> before.outputs.contains(o) && o.output != output,
{
    let keep = |o: OutputSurface| o.output != output;
    lemma_filter_members(before.outputs, keep);
}

/// When a surface has been closed nothing is left of it, and everything else is left.
pub proof fn lemma_closed_is_gone(before: Overlay, surface: u64)
    ensures
        forall|o: OutputSurface|
            #[trigger] before.after_closed(surface).outputs.contains(o)
                <==> before.outputs.contains(o) && o.surface != surface,
{
    let keep = |o: OutputSurface| o.surface != surface;
    lemma_filter_members(before.outputs, keep);
}

proof fn lemma_filter_members(s: Seq<OutputSurface>, keep: spec_fn(OutputSurface) -> bool)
    ensures
        forall|o: OutputSurface|
            #[trigger] s.filter(keep).contains(o) <==> s.contains(o) && keep(o),
{
    assert forall|o: OutputSurface| #[trigger] s.filter(keep).contains(o) implies s.contains(o)
        && keep(o) by {
        s.lemma_filter_contains_rev(keep, o);
        let i = s.filter(keep).index_of(o);
        s.lemma_filter_pred(keep, i);
    }
    assert forall|o: OutputSurface| s.contains(o) && keep(o) implies #[trigger] s.filter(
        keep,
    ).contains(o) by {
        let i = s.index_of(o);
        s.lemma_filter_contains(keep, i);
    }
}

/// Outputs that go leave the same state whichever goes first.
pub proof fn lemma_outputs_go_in_any_order(before: Overlay, a: u64, b: u64)
    ensures
        before.after_output_destroyed(a).after_output_destroyed(b)
            == before.after_output_destroyed(b).after_output_destroyed(a),
{
    let not_a = |o: OutputSurface| o.output != a;
    let not_b = |o: OutputSurface| o.output != b;
    lemma_filters_commute(before.outputs, not_a, not_b);
    before.outputs.filter(not_a).lemma_filter_len(not_b);
    before.outputs.filter(not_b).lemma_filter_len(not_a);
}

proof fn lemma_filter_all(s: Seq<OutputSurface>, keep: spec_fn(OutputSurface) -> bool)
    requires
        forall|i: int| 0 <= i < s.len() ==> keep(#[trigger] s[i]),
    ensures
        s.filter(keep) == s,
    decreases s.len(),
{
    reveal(Seq::filter);
    if s.len() > 0 {
        lemma_filter_all(s.drop_last(), keep);
        assert(s.drop_last().push(s.last()) =~= s);
    }
}

/// That an output goes undoes that it came, if there were others before. That it goes once more
/// changes nothing.
pub proof fn lemma_going_undoes_coming(
    before: Overlay,
    output: u64,
    surface: u64,
    modes: Seq<Mode>,
)
    requires
        before.outputs.len() > 0,
        forall|i: int|
            0 <= i < before.outputs.len() ==> (#[trigger] before.outputs[i]).output != output,
    ensures
        before.after_new_output(output, surface, modes).after_output_destroyed(output) == before,
        before.after_output_destroyed(output) == before,
{
    let keep = |o: OutputSurface| o.output != output;
    let more = before.after_new_output(output, surface, modes).outputs;
    lemma_filter_all(before.outputs, keep);
    lemma_filter_one_more(more, before.outputs.len() as int, keep);
    assert(more.take(more.len() as int) =~= more);
    assert(more.take(before.outputs.len() as int) =~= before.outputs);
}

/// An output that has gone cannot go again: the second time changes nothing.
pub proof fn lemma_destroyed_once(before: Overlay, output: u64)
    ensures
        before.after_output_destroyed(output).after_output_destroyed(output)
            == before.after_output_destroyed(output),
{
    let keep = |o: OutputSurface| o.output != output;
    let kept = before.outputs.filter(keep);
    assert forall|i: int| 0 <= i < kept.len() implies keep(#[trigger] kept[i]) by {
        before.outputs.lemma_filter_pred(keep, i);
    }
    lemma_filter_all(kept, keep);
}

/// A surface that has been closed cannot be closed again: the second time changes nothing.
pub proof fn lemma_closed_once(before: Overlay, surface: u64)
    ensures
        before.after_closed(surface).after_closed(surface) == before.after_closed(surface),
{
    let keep = |o: OutputSurface| o.surface != surface;
    let kept = before.outputs.filter(keep);
    assert forall|i: int| 0 <= i < kept.len() implies keep(#[trigger] kept[i]) by {
        before.outputs.lemma_filter_pred(keep, i);
    }
    lemma_filter_all(kept, keep);
}

/// Once the overlay is over it stays over.
pub proof fn lemma_exit_lasts(
    before: Overlay,
    has_background: bool,
    now: u64,
    output: u64,
    surface: u64,
    modes: Seq<Mode>,
    index: int,
    width: u32,
    height: u32,
)
    requires
        before.exit,
    ensures
        before.after_frame(has_background, now).exit,
        before.after_new_output(output, surface, modes).exit,
        before.after_output_destroyed(output).exit,
        before.after_closed(surface).exit,
        before.after_configure(index, width, height).exit,
{
}

/// Only the going of the last output or surface ends the overlay.
pub proof fn lemma_exit_when_nothing_is_left(
    before: Overlay,
    has_background: bool,
    now: u64,
    output: u64,
    surface: u64,
    modes: Seq<Mode>,
    index: int,
    width: u32,
    height: u32,
)
    requires
        !before.exit,
    ensures
        !before.after_frame(has_background, now).exit,
        !before.after_new_output(output, surface, modes).exit,
        !before.after_configure(index, width, height).exit,
        before.after_output_destroyed(output).exit <==> before.after_output_destroyed(
            output,
        ).outputs.len() == 0,
        before.after_closed(surface).exit <==> before.after_closed(surface).outputs.len() == 0,
{
}

/// Every output gets a surface of its own, and the surfaces that are there stay as they are.
pub proof fn lemma_every_output_has_a_surface(
    before: Overlay,
    output: u64,
    surface: u64,
    modes: Seq<Mode>,
)
    ensures
        ({
            let after = before.after_new_output(output, surface, modes);
            &&& after.outputs.len() == before.outputs.len() + 1
            &&& after.outputs.last().output == output
            &&& after.outputs.last().surface == surface
            &&& after.outputs.drop_last() == before.outputs
        }),
{
    assert(before.after_new_output(output, surface, modes).outputs.drop_last() =~= before.outputs);
}

/// The backdrop starts to fade in once: the first frame that finds it sets the time, and no
/// later frame changes it.
pub proof fn lemma_fade_starts_once(before: Overlay, first: u64, has_background: bool, later: u64)
    requires
        before.bg_fade_start is None,
    ensures
        before.after_frame(true, first).bg_fade_start == Some(first),
        before.after_frame(true, first).after_frame(has_background, later).bg_fade_start == Some(
            first,
        ),
        before.after_frame(false, first).bg_fade_start is None,
{
}

/// A configured surface is ready and has the size that it was given; a size of zero leaves the
/// size as it was. No other output changes.
pub proof fn lemma_configured_size(before: Overlay, index: int, width: u32, height: u32)
    requires
        0 <= index < before.outputs.len(),
    ensures
        ({
            let after = before.after_configure(index, width, height);
            let (o, n) = (before.outputs[index], after.outputs[index]);
            &&& n.configured
            &&& n.width == if width > 0 { width } else { o.width }
            &&& n.height == if height > 0 { height } else { o.height }
            &&& n.output == o.output && n.surface == o.surface
            &&& after.outputs.len() == before.outputs.len()
            &&& forall|j: int|
                0 <= j < before.outputs.len() && j != index ==> #[trigger] after.outputs[j]
                    == before.outputs[j]
        }),
{
}

/// At the start there are no outputs, nothing fades in, and the overlay is not over.
pub proof fn lemma_start()
    ensures
        Overlay::start().outputs.len() == 0,
        Overlay::start().bg_fade_start is None,
        !Overlay::start().exit,
        Overlay::start().counter_seed == 12345678901234567,
{
}

/// A surface starts with the size of the first mode in use, and at least one pixel either way.
pub proof fn lemma_starts_with_the_mode_in_use(modes: Seq<Mode>, k: int)
    requires
        0 <= k < modes.len(),
        modes[k].current,
        forall|j: int| 0 <= j < k ==> !(#[trigger] modes[j]).current,
    ensures
        modes[k].width >= 1 ==> initial_size(modes).0 == modes[k].width,
        modes[k].width < 1 ==> initial_size(modes).0 == 1,
        modes[k].height >= 1 ==> initial_size(modes).1 == modes[k].height,
        modes[k].height < 1 ==> initial_size(modes).1 == 1,
    decreases k,
{
    if k > 0 {
        let rest = modes.drop_first();
        assert(!modes[0].current);
        assert(rest[k - 1] == modes[k]);
        assert forall|j: int| 0 <= j < k - 1 implies !(#[trigger] rest[j]).current by {
            assert(rest[j] == modes[j + 1]);
        }
        lemma_starts_with_the_mode_in_use(rest, k - 1);
    }
}

/// Without a mode in use a surface starts with 1920 by 1080 pixels.
pub proof fn lemma_starts_with_the_default(modes: Seq<Mode>)
    requires
        forall|j: int| 0 <= j < modes.len() ==> !(#[trigger] modes[j]).current,
    ensures
        initial_size(modes).0 == 1920,
        initial_size(modes).1 == 1080,
    decreases modes.len(),
{
    if modes.len() > 0 {
        let rest = modes.drop_first();
        assert(!modes[0].current);
        assert forall|j: int| 0 <= j < rest.len() implies !(#[trigger] rest[j]).current by {
            assert(rest[j] == modes[j + 1]);
        }
        lemma_starts_with_the_default(rest);
    }
}

/// What is set aside for a surface holds two buffers of its size, four bytes to the pixel.
pub proof fn lemma_two_buffers_are_set_aside(width: u32, height: u32)
    ensures
        pool_bytes((width, height)) == 2 * (4 * (width * height)),
{
    let area = width * height;
    assert(width * height * 4 * 2 == 2 * (4 * area));
}

/// A frame changes no output and does not end the overlay; it steps the seed.
pub proof fn lemma_frame_leaves_the_outputs(before: Overlay, has_background: bool, now: u64)
    ensures
        ({
            let after = before.after_frame(has_background, now);
            &&& after.outputs == before.outputs
            &&& after.exit == before.exit
            &&& (before.counter_seed * 6364136223846793005 + 1442695040888963407
                - after.counter_seed) % 0x1_0000_0000_0000_0000 == 0
            &&& before.bg_fade_start is Some ==> after.bg_fade_start == before.bg_fade_start
        }),
{
    crate::seed::lemma_step_is_linear(before.counter_seed);
}

/// The surface on a new output has the size that its modes give it and waits to be configured;
/// the seed, the fading and the end are as they were.
pub proof fn lemma_new_output_waits(before: Overlay, output: u64, surface: u64, modes: Seq<Mode>)
    ensures
        ({
            let after = before.after_new_output(output, surface, modes);
            &&& after.outputs.last().width == initial_size(modes).0
            &&& after.outputs.last().height == initial_size(modes).1
            &&& !after.outputs.last().configured
            &&& after.counter_seed == before.counter_seed
            &&& after.bg_fade_start == before.bg_fade_start
            &&& after.exit == before.exit
        }),
{
}

/// Whether an output stays when another goes is its own matter: the rest of them stay in their
/// order, whatever comes behind them.
pub proof fn lemma_each_goes_for_itself(rest: Overlay, last: OutputSurface, output: u64, surface: u64)
    ensures
        ({
            let all = Overlay { outputs: rest.outputs.push(last), ..rest };
            let (gone, closed) = (all.after_output_destroyed(output), all.after_closed(surface));
            &&& last.output == output ==> gone.outputs == rest.after_output_destroyed(
                output,
            ).outputs
            &&& last.output != output ==> gone.outputs == rest.after_output_destroyed(
                output,
            ).outputs.push(last)
            &&& last.surface == surface ==> closed.outputs == rest.after_closed(surface).outputs
            &&& last.surface != surface ==> closed.outputs == rest.after_closed(
                surface,
            ).outputs.push(last)
        }),
        rest.outputs.len() == 0 ==> rest.after_output_destroyed(output).outputs.len() == 0
            && rest.after_closed(surface).outputs.len() == 0,
{
    let outputs = rest.outputs.push(last);
    assert(outputs.drop_last() =~= rest.outputs);
    reveal(Seq::filter);
}

/// The going of an output, or the closing of a surface, leaves the seed and the fading alone.
pub proof fn lemma_going_leaves_the_drawing(before: Overlay, output: u64, surface: u64)
    ensures
        before.after_output_destroyed(output).counter_seed == before.counter_seed,
        before.after_output_destroyed(output).bg_fade_start == before.bg_fade_start,
        before.after_closed(surface).counter_seed == before.counter_seed,
        before.after_closed(surface).bg_fade_start == before.bg_fade_start,
{
}

/// So does the configuring of a surface, which does not end the overlay either.
pub proof fn lemma_configuring_leaves_the_drawing(
    before: Overlay,
    index: int,
    width: u32,
    height: u32,
)
    ensures
        before.after_configure(index, width, height).counter_seed == before.counter_seed,
        before.after_configure(index, width, height).bg_fade_start == before.bg_fade_start,
        before.after_configure(index, width, height).exit == before.exit,
{
}

/// The output that is found for a surface is the first that has it, and if any has it one is
/// found.
pub proof fn lemma_first_with_the_surface(
    outputs: Seq<OutputSurface>,
    surface: u64,
    index: Option<usize>,
)
    requires
        finds(outputs, surface, index),
    ensures
        index matches Some(i) ==> i < outputs.len() && outputs[i as int].surface == surface,
        forall|j: int|
            0 <= j < outputs.len() && (#[trigger] outputs[j]).surface == surface ==> (index matches
                Some(i) && i <= j),
{
}

/// A 32-bit number as a signed one.
proof fn lemma_signed(n: u32)
    ensures
        n <= 0x7fff_ffff ==> n as i32 == n,
        n > 0x7fff_ffff ==> n as i32 == n - 0x1_0000_0000,
{
    assert(n > 0x7fff_ffff ==> n as i32 == n - 0x1_0000_0000) by (bit_vector);
}

/// The contracts speak of the state as it is in memory.
pub proof fn lemma_state_in_memory(state: AppState)
    ensures
        state@.outputs == state.outputs@,
        state@.counter_seed == state.counter_seed,
        state@.bg_fade_start == state.bg_fade_start,
        state@.exit == state.exit,
{
}

/// An output is drawn if and only if it is there and configured. Its buffer has its size, and
/// four bytes to the pixel in each row, as signed 32-bit numbers; the frame of the animation is
/// the one whose time it is.
pub proof fn lemma_drawn_at_its_size(
    overlay: Overlay,
    index: int,
    delays: Seq<u32>,
    clock: nat,
    plan: Option<RenderPlan>,
)
    requires
        overlay.plans(index, delays, clock, plan),
        0 <= index,
    ensures
        plan is Some <==> index < overlay.outputs.len() && overlay.outputs[index].configured,
        plan matches Some(p) ==> {
            let o = overlay.outputs[index];
            let total = delays.fold_left(0int, |sum: int, d: u32| sum + d);
            &&& o.width <= 0x7fff_ffff ==> p.width == o.width
            &&& o.width > 0x7fff_ffff ==> p.width == o.width - 0x1_0000_0000
            &&& o.height <= 0x7fff_ffff ==> p.height == o.height
            &&& o.height > 0x7fff_ffff ==> p.height == o.height - 0x1_0000_0000
            &&& 4 * o.width <= 0x7fff_ffff ==> p.stride == 4 * p.width
            &&& 0x7fff_ffff < 4 * o.width <= 0xffff_ffff ==> p.stride == 4 * p.width
                - 0x1_0000_0000
            &&& delays.len() == 0 ==> p.gif_frame is None
            &&& delays.len() > 0 ==> p.gif_frame is Some
            &&& p.gif_frame matches Some(i) ==> {
                let passed = delays.take(i as int).fold_left(0int, |sum: int, d: u32| sum + d);
                &&& i < delays.len()
                &&& total > 0 ==> passed <= clock as int % total < passed + delays[i as int]
                &&& total == 0 ==> i == 0
            }
        },
{
    if let Some(p) = plan {
        let o = overlay.outputs[index];
        lemma_signed(o.width);
        lemma_signed(o.height);
        if 4 * o.width <= 0xffff_ffff {
            lemma_signed((4 * o.width) as u32);
        }
        if let Some(i) = p.gif_frame {
            crate::gif::lemma_shown_in_its_time(delays, clock, i as int);
        }
    }
}

} // verus!
