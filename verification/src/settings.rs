//! What the command line and the config file ask for, and what comes of it.
//!
//! File names are the bytes that the system knows them by. The alpha of the overlay is the
//! 32 bits of a single-precision number.

use vstd::prelude::*;

use crate::color::{parse_hex, Rgb};

verus! {

/// The options of the command line.
#[derive(Debug)]
pub struct Args {
    /// Primary accent color, such as "7ed4c8".
    pub accent: Option<String>,
    /// Secondary accent color.
    pub accent2: Option<String>,
    /// Fade-in duration in milliseconds.
    pub fade_ms: Option<u64>,
    /// The GIF in the middle of the overlay.
    pub gif: Option<Vec<u8>>,
    /// Leave the digit counter out.
    pub no_counter: bool,
    /// Show scanlines and glitches.
    pub glitch: bool,
    /// Alpha of the dark layer over the backdrop.
    pub overlay_alpha: Option<u32>,
    /// The config file.
    pub config: Option<Vec<u8>>,
}

/// The settings of a config file, each of which may be missing.
#[derive(Debug)]
pub struct FileConfig {
    pub accent: Option<String>,
    pub accent2: Option<String>,
    pub fade_ms: Option<u64>,
    pub gif: Option<Vec<u8>>,
    pub no_counter: Option<bool>,
    pub glitch: Option<bool>,
    pub overlay_alpha: Option<u32>,
}

impl FileConfig {
    /// A config that sets nothing.
    pub open spec fn is_empty(self) -> bool {
        &&& self.accent is None
        &&& self.accent2 is None
        &&& self.fade_ms is None
        &&& self.gif is None
        &&& self.no_counter is None
        &&& self.glitch is None
        &&& self.overlay_alpha is None
    }
}

impl Default for FileConfig {
    fn default() -> (config: FileConfig)
        ensures
            config.is_empty(),
    {
        FileConfig {
            accent: None,
            accent2: None,
            fade_ms: None,
            gif: None,
            no_counter: None,
            glitch: None,
            overlay_alpha: None,
        }
    }
}

/// The settings that the overlay is drawn with.
#[derive(Clone, Copy, Debug, PartialEq, Eq, Structural)]
pub struct Settings {
    pub accent: Rgb,
    pub accent2: Rgb,
    pub glitch: bool,
    pub overlay_alpha: u32,
    pub fade_ms: u64,
    pub no_counter: bool,
}

/// The fade-in duration unless another is set.
pub const DEFAULT_FADE_MS: u64 = 300;

/// The alpha of the dark layer unless another is set: the bits of 0.55.
pub const DEFAULT_OVERLAY_ALPHA: u32 = 0x3f0c_cccd;

/// The bits of the number 1.
pub const ONE_BITS: u32 = 0x3f80_0000;

/// The bits of infinity; those above, up to the sign bit, are of no number.
pub const INFINITY_BITS: u32 = 0x7f80_0000;

/// The sign bit alone: the bits of negative zero.
pub const SIGN_BIT: u32 = 0x8000_0000;

/// These bits are of no number.
pub open spec fn is_nan(bits: u32) -> bool {
    bits % SIGN_BIT > INFINITY_BITS
}

/// These bits are of a number from 0 to 1, either zero among them.
pub open spec fn in_unit_range(bits: u32) -> bool {
    bits <= ONE_BITS || bits == SIGN_BIT
}

/// The nearest number from 0 to 1, on the bits of single-precision numbers: the bits of numbers
/// without a sign stand in the order of the numbers. What is no number stays as it is.
pub open spec fn clamped(bits: u32) -> u32 {
    if is_nan(bits) || in_unit_range(bits) {
        bits
    } else if bits >= SIGN_BIT {
        0
    } else {
        ONE_BITS
    }
}

/// Brings an alpha into the range from 0 to 1.
pub fn clamp_unit(bits: u32) -> (alpha: u32)
    ensures
        alpha == clamped(bits),
{
    if bits % SIGN_BIT > INFINITY_BITS || bits <= ONE_BITS || bits == SIGN_BIT {
        bits
    } else if bits >= SIGN_BIT {
        0
    } else {
        ONE_BITS
    }
}

/// An alpha that has been clamped is in range unless it is no number, and clamping it again
/// leaves it alone.
pub proof fn lemma_clamped_is_in_range(bits: u32)
    ensures
        is_nan(clamped(bits)) == is_nan(bits),
        !is_nan(bits) ==> in_unit_range(clamped(bits)),
        clamped(clamped(bits)) == clamped(bits),
{
}

/// The first that is set.
pub open spec fn first_set<A>(a: Option<A>, b: Option<A>) -> Option<A> {
    match a {
        Some(_) => a,
        None => b,
    }
}

/// What is set, or else the default.
pub open spec fn or_default<A>(a: Option<A>, default: A) -> A {
    match a {
        Some(v) => v,
        None => default,
    }
}

/// The color that is written there.
pub open spec fn color_in(text: Option<String>) -> Option<Rgb> {
    match text {
        Some(t) => Some(crate::color::color_of(t@)),
        None => None,
    }
}

/// The file name that stands there.
pub open spec fn name_in(name: Option<Vec<u8>>) -> Option<Seq<u8>> {
    match name {
        Some(n) => Some(n@),
        None => None,
    }
}

/// The accent color unless another is set.
pub open spec fn default_accent() -> Rgb {
    Rgb { red: 0x7e, green: 0xd4, blue: 0xc8 }
}

/// The settings that these options and this config file come to. An option of the command line
/// goes before the config file, and the config file before the default. The secondary accent
/// is the primary one unless it is set; a switch is on if either turns it on.
pub open spec fn resolved(args: Args, config: FileConfig) -> Settings {
    let accent = or_default(
        first_set(color_in(args.accent), color_in(config.accent)),
        default_accent(),
    );
    Settings {
        accent,
        accent2: or_default(first_set(color_in(args.accent2), color_in(config.accent2)), accent),
        glitch: args.glitch || config.glitch == Some(true),
        overlay_alpha: clamped(
            or_default(first_set(args.overlay_alpha, config.overlay_alpha), DEFAULT_OVERLAY_ALPHA),
        ),
        fade_ms: or_default(first_set(args.fade_ms, config.fade_ms), DEFAULT_FADE_MS),
        no_counter: args.no_counter || config.no_counter == Some(true),
    }
}

/// The GIF to show, if any: what the command line says of it goes before the config file.
pub open spec fn gif_name(args: Args, config: FileConfig) -> Option<Seq<u8>> {
    first_set(name_in(args.gif), name_in(config.gif))
}

fn read_color(text: &Option<String>) -> (color: Option<Rgb>)
    ensures
        color == color_in(*text),
{
    match text {
        Some(t) => Some(parse_hex(t.as_str())),
        None => None,
    }
}

fn copy_name(name: &Option<Vec<u8>>) -> (copy: Option<Vec<u8>>)
    ensures
        name_in(copy) == name_in(*name),
{
    match name {
        Some(n) => {
            let bytes = n.clone();
            assert(bytes@ =~= n@);
            Some(bytes)
        },
        None => None,
    }
}

/// Works out the settings, and the GIF to show if there is one.
pub fn resolve_settings(args: &Args, config: &FileConfig) -> (res: (Settings, Option<Vec<u8>>))
    ensures
        res.0 == resolved(*args, *config),
        name_in(res.1) == gif_name(*args, *config),
{
    let accent = match read_color(&args.accent) {
        Some(color) => color,
        None => match read_color(&config.accent) {
            Some(color) => color,
            None => Rgb { red: 0x7e, green: 0xd4, blue: 0xc8 },
        },
    };
    let accent2 = match read_color(&args.accent2) {
        Some(color) => color,
        None => match read_color(&config.accent2) {
            Some(color) => color,
            None => accent,
        },
    };
    let fade_ms: u64 = match args.fade_ms {
        Some(ms) => ms,
        None => match config.fade_ms {
            Some(ms) => ms,
            None => DEFAULT_FADE_MS,
        },
    };
    let gif = if args.gif.is_some() {
        copy_name(&args.gif)
    } else {
        copy_name(&config.gif)
    };
    let no_counter: bool = args.no_counter || match config.no_counter {
        Some(b) => b,
        None => false,
    };
    let glitch: bool = args.glitch || match config.glitch {
        Some(b) => b,
        None => false,
    };
    let overlay_alpha: u32 = clamp_unit(
        match args.overlay_alpha {
            Some(bits) => bits,
            None => match config.overlay_alpha {
                Some(bits) => bits,
                None => DEFAULT_OVERLAY_ALPHA,
            },
        },
    );
    (Settings { accent, accent2, glitch, overlay_alpha, fade_ms, no_counter }, gif)
}

/// The command line wins: where it sets an option, what the config file says of it makes no
/// difference.
pub proof fn lemma_command_line_wins(args: Args, one: FileConfig, other: FileConfig)
    ensures
        args.accent is Some ==> resolved(args, one).accent == resolved(args, other).accent,
        args.accent2 is Some ==> resolved(args, one).accent2 == resolved(args, other).accent2,
        args.fade_ms is Some ==> resolved(args, one).fade_ms == resolved(args, other).fade_ms,
        args.overlay_alpha is Some ==> resolved(args, one).overlay_alpha == resolved(
            args,
            other,
        ).overlay_alpha,
        args.no_counter ==> resolved(args, one).no_counter && resolved(args, other).no_counter,
        args.glitch ==> resolved(args, one).glitch && resolved(args, other).glitch,
        args.gif is Some ==> first_set(name_in(args.gif), name_in(one.gif)) == first_set(
            name_in(args.gif),
            name_in(other.gif),
        ),
{
}

/// The secondary accent is the primary one where neither the command line nor the config file
/// sets it.
pub proof fn lemma_secondary_accent_follows(args: Args, config: FileConfig)
    requires
        args.accent2 is None,
        config.accent2 is None,
    ensures
        resolved(args, config).accent2 == resolved(args, config).accent,
{
}

/// Whatever is asked for, the alpha of the overlay is from 0 to 1 unless what is asked for is
/// no number.
pub proof fn lemma_overlay_alpha_in_range(args: Args, config: FileConfig)
    requires
        args.overlay_alpha matches Some(bits) ==> !is_nan(bits),
        config.overlay_alpha matches Some(bits) ==> !is_nan(bits),
    ensures
        in_unit_range(resolved(args, config).overlay_alpha),
{
}

/// What is set is what is used: on the command line, else in the config file, else by default.
pub proof fn lemma_what_is_set_is_used(args: Args, config: FileConfig)
    ensures
        ({
            let s = resolved(args, config);
            &&& args.accent matches Some(text) ==> s.accent == crate::color::color_of(text@)
            &&& args.accent is None ==> (config.accent matches Some(text) ==> s.accent
                == crate::color::color_of(text@))
            &&& args.accent is None && config.accent is None ==> s.accent == (Rgb {
                red: 0x7e,
                green: 0xd4,
                blue: 0xc8,
            })
            &&& args.accent2 matches Some(text) ==> s.accent2 == crate::color::color_of(text@)
            &&& args.accent2 is None ==> (config.accent2 matches Some(text) ==> s.accent2
                == crate::color::color_of(text@))
            &&& args.accent2 is None && config.accent2 is None ==> s.accent2 == s.accent
            &&& args.fade_ms matches Some(ms) ==> s.fade_ms == ms
            &&& args.fade_ms is None ==> (config.fade_ms matches Some(ms) ==> s.fade_ms == ms)
            &&& args.fade_ms is None && config.fade_ms is None ==> s.fade_ms == 300
            &&& s.glitch <==> args.glitch || config.glitch == Some(true)
            &&& s.no_counter <==> args.no_counter || config.no_counter == Some(true)
        }),
{
}

/// An alpha from 0 to 1 that is set is used as it is, on the command line, else in the config
/// file; without one the alpha is 0.55.
pub proof fn lemma_alpha_that_is_set_is_used(args: Args, config: FileConfig)
    ensures
        ({
            let used = resolved(args, config).overlay_alpha;
            &&& args.overlay_alpha matches Some(bits) ==> bits <= 0x3f80_0000 ==> used == bits
            &&& args.overlay_alpha is None ==> (config.overlay_alpha matches Some(bits) ==> bits
                <= 0x3f80_0000 ==> used == bits)
            &&& args.overlay_alpha matches Some(bits) ==> used == clamped(bits)
            &&& args.overlay_alpha is None ==> (config.overlay_alpha matches Some(bits) ==> used
                == clamped(bits))
            &&& args.overlay_alpha is None && config.overlay_alpha is None ==> used == 0x3f0c_cccd
        }),
{
}

/// Clamping leaves the bits of numbers from 0 to 1 and of either zero, takes those of larger
/// numbers up to infinity to 1, those of negative numbers down to minus infinity to 0, and leaves
/// those of no number.
pub proof fn lemma_clamped_bits(bits: u32)
    ensures
        bits <= 0x3f80_0000 || bits == 0x8000_0000 ==> clamped(bits) == bits,
        0x3f80_0000 < bits <= 0x7f80_0000 ==> clamped(bits) == 0x3f80_0000,
        0x7f80_0000 < bits < 0x8000_0000 ==> clamped(bits) == bits,
        0x8000_0000 < bits <= 0xff80_0000 ==> clamped(bits) == 0,
        0xff80_0000 < bits ==> clamped(bits) == bits,
{
}

/// The GIF is the one that the command line names, else the one that the config file names, else
/// there is none.
pub proof fn lemma_gif_that_is_named_is_used(args: Args, config: FileConfig)
    ensures
        args.gif matches Some(name) ==> gif_name(args, config) == Some(name@),
        args.gif is None ==> (config.gif matches Some(name) ==> gif_name(args, config) == Some(
            name@,
        )),
        args.gif is None && config.gif is None ==> gif_name(args, config) is None,
{
}

/// A config file that sets nothing leaves every setting to the command line and the defaults.
pub proof fn lemma_empty_config_sets_nothing(config: FileConfig)
    requires
        config.is_empty(),
    ensures
        config.accent is None && config.accent2 is None && config.fade_ms is None && config.gif
            is None && config.no_counter is None && config.glitch is None && config.overlay_alpha
            is None,
{
}

} // verus!
