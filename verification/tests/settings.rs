use hyper_loader::color::Rgb;
use hyper_loader::settings::{clamp_unit, resolve_settings, Args, FileConfig, Settings};

fn no_args() -> Args {
    Args {
        accent: None,
        accent2: None,
        fade_ms: None,
        gif: None,
        no_counter: false,
        glitch: false,
        overlay_alpha: None,
        config: None,
    }
}

fn full_config() -> FileConfig {
    FileConfig {
        accent: Some("#010203".to_string()),
        accent2: Some("040506".to_string()),
        fade_ms: Some(900),
        gif: Some(b"config.gif".to_vec()),
        no_counter: Some(true),
        glitch: Some(true),
        overlay_alpha: Some(0.25f32.to_bits()),
    }
}

fn rgb(red: u8, green: u8, blue: u8) -> Rgb {
    Rgb { red, green, blue }
}

#[test]
fn defaults_without_any_option() {
    let (settings, gif) = resolve_settings(&no_args(), &FileConfig::default());
    assert_eq!(
        settings,
        Settings {
            accent: rgb(0x7e, 0xd4, 0xc8),
            accent2: rgb(0x7e, 0xd4, 0xc8),
            glitch: false,
            overlay_alpha: 0.55f32.to_bits(),
            fade_ms: 300,
            no_counter: false,
        }
    );
    assert_eq!(gif, None);
}

#[test]
fn config_file_goes_before_the_defaults() {
    let (settings, gif) = resolve_settings(&no_args(), &full_config());
    assert_eq!(
        settings,
        Settings {
            accent: rgb(1, 2, 3),
            accent2: rgb(4, 5, 6),
            glitch: true,
            overlay_alpha: 0.25f32.to_bits(),
            fade_ms: 900,
            no_counter: true,
        }
    );
    assert_eq!(gif, Some(b"config.gif".to_vec()));
}

#[test]
fn command_line_goes_before_the_config_file() {
    let args = Args {
        accent: Some("0a0b0c".to_string()),
        accent2: Some("0d0e0f".to_string()),
        fade_ms: Some(0),
        gif: Some(b"args.gif".to_vec()),
        no_counter: true,
        glitch: true,
        overlay_alpha: Some(0.75f32.to_bits()),
        config: None,
    };
    for config in [full_config(), FileConfig::default()] {
        let (settings, gif) = resolve_settings(&args, &config);
        assert_eq!(
            settings,
            Settings {
                accent: rgb(10, 11, 12),
                accent2: rgb(13, 14, 15),
                glitch: true,
                overlay_alpha: 0.75f32.to_bits(),
                fade_ms: 0,
                no_counter: true,
            }
        );
        assert_eq!(gif, Some(b"args.gif".to_vec()));
    }
}

#[test]
fn secondary_accent_follows_the_primary() {
    let mut args = no_args();
    args.accent = Some("112233".to_string());
    let (settings, _) = resolve_settings(&args, &FileConfig::default());
    assert_eq!(settings.accent2, rgb(0x11, 0x22, 0x33));
    let mut config = FileConfig::default();
    config.accent2 = Some("nonsense".to_string());
    let (settings, _) = resolve_settings(&args, &config);
    assert_eq!(settings.accent2, rgb(0x7e, 0xd4, 0xc8));
}

#[test]
fn a_switch_is_on_if_either_turns_it_on() {
    let mut config = FileConfig::default();
    config.no_counter = Some(false);
    config.glitch = Some(true);
    let mut args = no_args();
    args.no_counter = true;
    let (settings, _) = resolve_settings(&args, &config);
    assert!(settings.no_counter);
    assert!(settings.glitch);
    config.glitch = Some(false);
    let (settings, _) = resolve_settings(&no_args(), &config);
    assert!(!settings.no_counter);
    assert!(!settings.glitch);
}

#[test]
fn alpha_is_clamped_as_numbers_are() {
    for alpha in [
        0.0f32,
        -0.0,
        0.3,
        1.0,
        1.0000001,
        55.0,
        -1.0e-40,
        -3.0,
        1.0e-40,
        f32::MAX,
        f32::MIN,
        f32::INFINITY,
        f32::NEG_INFINITY,
        f32::NAN,
        -f32::NAN,
    ] {
        assert_eq!(clamp_unit(alpha.to_bits()), alpha.clamp(0.0, 1.0).to_bits(), "{alpha}");
    }
}

#[test]
fn alpha_out_of_range_is_clamped() {
    let mut args = no_args();
    args.overlay_alpha = Some(3.5f32.to_bits());
    let (settings, _) = resolve_settings(&args, &full_config());
    assert_eq!(f32::from_bits(settings.overlay_alpha), 1.0);
    args.overlay_alpha = Some((-0.5f32).to_bits());
    let (settings, _) = resolve_settings(&args, &full_config());
    assert_eq!(f32::from_bits(settings.overlay_alpha), 0.0);
}
