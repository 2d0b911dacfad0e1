//! The animation in the middle of the overlay.

use vstd::prelude::*;

use image::AnimationDecoder;

use crate::picture::{Image, Picture};

verus! {

/// A frame as `image` decodes it: width, height, RGBA bytes, and the numerator and denominator
/// of its delay in milliseconds.
pub type RawFrame = (u32, u32, Vec<u8>, u32, u32);

/// The same with its bytes as a sequence.
pub type RawFrameView = (u32, u32, Seq<u8>, u32, u32);

/// The frames with their bytes as sequences.
pub open spec fn raw_views(frames: Seq<RawFrame>) -> Seq<RawFrameView> {
    Seq::new(
        frames.len(),
        |i: int| (frames[i].0, frames[i].1, frames[i].2@, frames[i].3, frames[i].4),
    )
}

/// What `image` decodes out of the bytes of a GIF file.
pub uninterp spec fn gif_frames(file: Seq<u8>) -> Option<Seq<RawFrameView>>;

/// Calls `image::codecs::gif::GifDecoder::new` on the bytes and `collect_frames` on the frames
/// of the decoder; either may fail.
///
/// The result depends on the bytes alone. The bytes of each frame are enough for its
/// pixels: every buffer of that crate is checked for it when it is made.
#[verifier::external_body]
fn decode_gif(file: &[u8]) -> (decoded: Option<Vec<RawFrame>>)
    ensures
        match decoded {
            None => gif_frames(file@) is None,
            Some(frames) => gif_frames(file@) == Some(raw_views(frames@)) && raw_frames_fit(
                frames@,
            ),
        },
{
    let decoder = image::codecs::gif::GifDecoder::new(std::io::Cursor::new(file)).ok()?;
    let frames = decoder.into_frames().collect_frames().ok()?;
    Some(frames.into_iter().map(|frame| {
        let (numer, denom) = frame.delay().numer_denom_ms();
        let buffer = frame.into_buffer();
        (buffer.width(), buffer.height(), buffer.into_raw(), numer, denom)
    }).collect())
}

/// A frame of the animation, and for how many milliseconds it stays.
#[derive(Debug)]
pub struct GifFrame {
    pub image: Image,
    pub delay: u32,
}

impl View for GifFrame {
    type V = (Picture, u32);

    open spec fn view(&self) -> (Picture, u32) {
        (self.image@, self.delay)
    }
}

/// No frame stays for less than this many milliseconds.
pub const MIN_DELAY_MS: u32 = 50;

/// The frame made of a decoded one. Its delay is the numerator of the decoded delay, raised to
/// the minimum.
pub open spec fn frame_of(raw: RawFrameView) -> (Picture, u32) {
    (
        crate::picture::picture_of(raw.0, raw.1, raw.2),
        if raw.3 < MIN_DELAY_MS {
            MIN_DELAY_MS
        } else {
            raw.3
        },
    )
}

/// The animation made of the decoded frames; a file that does not decode makes one without
/// frames.
pub open spec fn animation_of(decoded: Option<Seq<RawFrameView>>) -> Seq<(Picture, u32)> {
    match decoded {
        None => seq![],
        Some(frames) => frames.map_values(|raw: RawFrameView| frame_of(raw)),
    }
}

/// The pictures and delays of these frames.
pub open spec fn animation(frames: Seq<GifFrame>) -> Seq<(Picture, u32)> {
    frames.map_values(|frame: GifFrame| frame@)
}

/// The bytes of each frame are enough for its pixels.
pub open spec fn raw_frames_fit(frames: Seq<RawFrame>) -> bool {
    forall|i: int|
        0 <= i < frames.len() ==> 4 * (frames[i].0 * frames[i].1)
            <= #[trigger] frames[i].2@.len()
}

/// Makes the animation out of the decoded frames.
pub fn timed_frames(decoded: Option<Vec<RawFrame>>) -> (frames: Vec<GifFrame>)
    requires
        decoded matches Some(raw) ==> raw_frames_fit(raw@),
    ensures
        forall|i: int| 0 <= i < frames@.len() ==> #[trigger] frames@[i].image.wf(),
        decoded is None ==> animation(frames@) == animation_of(None),
        decoded matches Some(raw) ==> animation(frames@) == animation_of(Some(raw_views(raw@))),
{
    let mut frames: Vec<GifFrame> = Vec::new();
    match decoded {
        None => {},
        Some(raw) => {
            for frame in it: raw
                invariant
                    it.seq() == raw@,
                    raw_frames_fit(raw@),
                    frames@.len() == it.index(),
                    forall|i: int|
                        0 <= i < frames@.len() ==> frames@[i].image.wf() && (#[trigger] frames@[i])@
                            == frame_of(raw_views(raw@)[i]),
            {
                let (width, height, data, numer, _denom) = frame;
                let delay: u32 = if numer < MIN_DELAY_MS {
                    MIN_DELAY_MS
                } else {
                    numer
                };
                assert(raw@[it.index()].2@ == data@);
                frames.push(GifFrame { image: Image { width, height, data }, delay });
            }
            assert(animation(frames@) =~= animation_of(Some(raw_views(raw@))));
        },
    }
    frames
}

/// Makes the animation out of the bytes of a GIF file.
pub fn load_gif(file: &[u8]) -> (frames: Vec<GifFrame>)
    ensures
        forall|i: int| 0 <= i < frames@.len() ==> #[trigger] frames@[i].image.wf(),
        animation(frames@) == animation_of(gif_frames(file@)),
{
    timed_frames(decode_gif(file))
}

/// How many milliseconds the first `n` frames stay.
pub open spec fn time_before(delays: Seq<u32>, n: nat) -> nat
    decreases n,
{
    if n == 0 {
        0
    } else {
        time_before(delays, (n - 1) as nat) + delays[n - 1] as nat
    }
}

/// How many milliseconds the whole animation takes.
pub open spec fn play_time(delays: Seq<u32>) -> nat {
    time_before(delays, delays.len())
}

/// The delays of these frames.
pub open spec fn delays_of(frames: Seq<GifFrame>) -> Seq<u32> {
    frames.map_values(|frame: GifFrame| frame.delay)
}

/// Frame `i` is the one to show at `clock` milliseconds: the clock, wound back to the first
/// round of the animation, falls into the time of that frame. An animation that takes no time
/// stands at its first frame.
pub open spec fn shows(delays: Seq<u32>, clock: nat, i: int) -> bool {
    &&& 0 <= i < delays.len()
    &&& if play_time(delays) == 0 {
        i == 0
    } else {
        let now = clock % play_time(delays);
        time_before(delays, i as nat) <= now < time_before(delays, (i + 1) as nat)
    }
}

proof fn lemma_time_grows(delays: Seq<u32>, a: nat, b: nat)
    requires
        a <= b,
    ensures
        time_before(delays, a) <= time_before(delays, b),
    decreases b,
{
    if a < b {
        lemma_time_grows(delays, a, (b - 1) as nat);
    }
}

/// At any time at most one frame is the one to show.
pub proof fn lemma_one_frame_at_a_time(delays: Seq<u32>, clock: nat, i: int, j: int)
    requires
        shows(delays, clock, i),
        shows(delays, clock, j),
    ensures
        i == j,
{
    if i < j {
        lemma_time_grows(delays, (i + 1) as nat, j as nat);
    } else if j < i {
        lemma_time_grows(delays, (j + 1) as nat, i as nat);
    }
}

/// The animation loops: after its play time it shows the same frame again.
pub proof fn lemma_animation_loops(delays: Seq<u32>, clock: nat, i: int)
    requires
        shows(delays, clock, i),
    ensures
        shows(delays, clock + play_time(delays), i),
{
    let total = play_time(delays) as int;
    if total > 0 {
        vstd::arithmetic::div_mod::lemma_mod_add_multiples_vanish(clock as int, total);
    }
}

/// In each round every frame is shown from the moment the frames before it are over, for as
/// long as its delay.
pub proof fn lemma_frame_gets_its_time(delays: Seq<u32>, i: int, clock: nat)
    requires
        0 <= i < delays.len(),
        time_before(delays, i as nat) <= clock < time_before(delays, i as nat) + delays[i],
    ensures
        shows(delays, clock, i),
{
    lemma_time_grows(delays, (i + 1) as nat, delays.len());
    vstd::arithmetic::div_mod::lemma_small_mod(clock, play_time(delays));
}

/// Finds the frame to show at `clock_ms` milliseconds; there is none if there are no frames.
/// The play time must fit in 32 bits.
pub fn gif_frame_index(frames: &Vec<GifFrame>, clock_ms: u32) -> (index: Option<usize>)
    requires
        play_time(delays_of(frames@)) <= u32::MAX,
    ensures
        index is None <==> frames@.len() == 0,
        index matches Some(i) ==> shows(delays_of(frames@), clock_ms as nat, i as int),
{
    if frames.len() == 0 {
        return None;
    }
    let ghost delays = delays_of(frames@);
    let mut total_ms: u32 = 0;
    let mut k: usize = 0;
    while k < frames.len()
        invariant
            delays == delays_of(frames@),
            play_time(delays) <= u32::MAX,
            k <= frames@.len(),
            total_ms == time_before(delays, k as nat),
        decreases frames@.len() - k,
    {
        proof {
            lemma_time_grows(delays, (k + 1) as nat, delays.len());
        }
        total_ms = total_ms + frames[k].delay;
        k = k + 1;
    }
    let elapsed_ms: u32 = if total_ms == 0 {
        0
    } else {
        clock_ms % total_ms
    };
    let mut acc: u32 = 0;
    let mut i: usize = 0;
    while i < frames.len()
        invariant
            delays == delays_of(frames@),
            frames@.len() > 0,
            play_time(delays) == total_ms,
            elapsed_ms == (if total_ms == 0 {
                0
            } else {
                clock_ms as nat % total_ms as nat
            }),
            i <= frames@.len(),
            acc == time_before(delays, i as nat),
            acc <= elapsed_ms,
        decreases frames@.len() - i,
    {
        proof {
            lemma_time_grows(delays, (i + 1) as nat, delays.len());
        }
        acc = acc + frames[i].delay;
        if elapsed_ms < acc {
            return Some(i);
        }
        i = i + 1;
    }
    Some(0)
}

/// The frames of a file come in its order, each with its own size and pixels, and stay for their
/// delay but no less than 50 milliseconds. A file that does not decode has no frames.
pub proof fn lemma_frames_keep_order_and_delay(raw: Seq<RawFrameView>, i: int, x: int, y: int)
    requires
        0 <= i < raw.len(),
        0 <= x < raw[i].0,
        0 <= y < raw[i].1,
    ensures
        ({
            let frames = animation_of(Some(raw));
            let (pic, delay) = frames[i];
            let first = 4 * (y * raw[i].0 + x);
            &&& frames.len() == raw.len()
            &&& pic.width == raw[i].0 && pic.height == raw[i].1
            &&& pic.pixel(x, y).red == raw[i].2[first]
            &&& pic.pixel(x, y).green == raw[i].2[first + 1]
            &&& pic.pixel(x, y).blue == raw[i].2[first + 2]
            &&& pic.pixel(x, y).alpha == raw[i].2[first + 3]
            &&& raw[i].3 >= 50 ==> delay == raw[i].3
            &&& raw[i].3 < 50 ==> delay == 50
        }),
        animation_of(None).len() == 0,
{
    crate::picture::lemma_where_the_bytes_are(raw[i].0, raw[i].1, raw[i].2, x, y);
}

/// The same of a frame without pixels.
pub proof fn lemma_empty_frames_keep_order_and_delay(raw: Seq<RawFrameView>, i: int)
    requires
        0 <= i < raw.len(),
    ensures
        ({
            let (pic, delay) = animation_of(Some(raw))[i];
            &&& pic.width == raw[i].0 && pic.height == raw[i].1
            &&& delay == raw[i].3 || (raw[i].3 < 50 && delay == 50)
            &&& delay >= 50
        }),
        animation_of(Some(raw)).len() == raw.len(),
{
}

/// What a frame is in memory is what it shows: its picture and its delay.
pub proof fn lemma_frames_in_memory(frames: Seq<GifFrame>, i: int)
    requires
        0 <= i < frames.len(),
    ensures
        animation(frames).len() == frames.len(),
        animation(frames)[i].0 == frames[i].image@,
        animation(frames)[i].1 == frames[i].delay,
        delays_of(frames).len() == frames.len(),
        delays_of(frames)[i] == frames[i].delay,
{
}

/// The decoded frames with their bytes as sequences are the decoded frames.
pub proof fn lemma_views_of_raw_frames(frames: Seq<RawFrame>, i: int)
    requires
        0 <= i < frames.len(),
    ensures
        raw_views(frames).len() == frames.len(),
        raw_views(frames)[i].0 == frames[i].0,
        raw_views(frames)[i].1 == frames[i].1,
        raw_views(frames)[i].2 == frames[i].2@,
        raw_views(frames)[i].3 == frames[i].3,
        raw_views(frames)[i].4 == frames[i].4,
{
}

/// Frames follow each other without a gap: the time before a frame is the sum of the delays before
/// it, and the play time the sum of them all.
pub proof fn lemma_time_is_the_sum_of_delays(delays: Seq<u32>, n: nat)
    requires
        n <= delays.len(),
    ensures
        time_before(delays, n) == delays.take(n as int).fold_left(0int, |sum: int, d: u32| sum + d),
        play_time(delays) == delays.fold_left(0int, |sum: int, d: u32| sum + d),
{
    lemma_sum_so_far(delays, n);
    lemma_sum_so_far(delays, delays.len());
    assert(delays.take(delays.len() as int) =~= delays);
}

proof fn lemma_sum_so_far(delays: Seq<u32>, n: nat)
    requires
        n <= delays.len(),
    ensures
        time_before(delays, n) == delays.take(n as int).fold_left(0int, |sum: int, d: u32| sum + d),
    decreases n,
{
    if n > 0 {
        lemma_sum_so_far(delays, (n - 1) as nat);
        assert(delays.take(n as int).drop_last() =~= delays.take(n - 1));
        assert(delays.take(n as int).last() == delays[n - 1]);
    }
}

/// An animation with frames always has one to show.
pub proof fn lemma_always_a_frame(delays: Seq<u32>, clock: nat)
    requires
        delays.len() > 0,
    ensures
        exists|i: int| shows(delays, clock, i),
{
    if play_time(delays) == 0 {
        assert(shows(delays, clock, 0));
    } else {
        vstd::arithmetic::div_mod::lemma_mod_bound(clock as int, play_time(delays) as int);
        lemma_frame_at(delays, clock, delays.len());
    }
}

proof fn lemma_frame_at(delays: Seq<u32>, clock: nat, n: nat)
    requires
        play_time(delays) > 0,
        0 < n <= delays.len(),
        clock % play_time(delays) < time_before(delays, n),
    ensures
        exists|i: int| shows(delays, clock, i),
    decreases n,
{
    if time_before(delays, (n - 1) as nat) <= clock % play_time(delays) {
        assert(shows(delays, clock, n - 1));
    } else {
        assert(n > 1);
        lemma_frame_at(delays, clock, (n - 1) as nat);
    }
}

/// The frame that shows is the one whose time it is: the delays before it have passed in this
/// round, and its own has not.
pub proof fn lemma_shown_in_its_time(delays: Seq<u32>, clock: nat, i: int)
    requires
        shows(delays, clock, i),
    ensures
        0 <= i < delays.len(),
        ({
            let total = delays.fold_left(0int, |sum: int, d: u32| sum + d);
            let passed = delays.take(i).fold_left(0int, |sum: int, d: u32| sum + d);
            &&& total > 0 ==> passed <= clock as int % total < passed + delays[i]
            &&& total == 0 ==> i == 0
        }),
{
    lemma_time_is_the_sum_of_delays(delays, i as nat);
}

} // verus!
