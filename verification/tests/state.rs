use hyper_loader::gif::GifFrame;
use hyper_loader::picture::Image;
use hyper_loader::seed::{next_seed, FIRST_SEED};
use hyper_loader::state::{AppState, Mode, OutputSurface, RenderPlan};

fn mode(current: bool, width: i32, height: i32) -> Mode {
    Mode { current, width, height }
}

fn two_outputs() -> AppState {
    let mut state = AppState::new();
    state.new_output(1, 11, &vec![mode(true, 2560, 1440)]);
    state.new_output(2, 22, &vec![]);
    state
}

#[test]
fn a_new_state_has_no_outputs() {
    let state = AppState::new();
    assert!(state.outputs.is_empty());
    assert_eq!(state.counter_seed, FIRST_SEED);
    assert_eq!(state.bg_fade_start, None);
    assert!(!state.exit);
}

#[test]
fn outputs_start_with_the_current_mode() {
    let mut state = AppState::new();
    let pool = state.new_output(
        5,
        6,
        &vec![mode(false, 640, 480), mode(true, 800, 600), mode(true, 1, 1)],
    );
    assert_eq!(pool, 800 * 600 * 8);
    assert_eq!(
        state.outputs,
        vec![OutputSurface { output: 5, surface: 6, width: 800, height: 600, configured: false }]
    );
}

#[test]
fn outputs_without_a_current_mode_have_the_default_size() {
    let mut state = AppState::new();
    assert_eq!(state.new_output(1, 2, &vec![]), 1920 * 1080 * 8);
    assert_eq!(state.new_output(3, 4, &vec![mode(false, 9, 9)]), 1920 * 1080 * 8);
    assert_eq!((state.outputs[0].width, state.outputs[0].height), (1920, 1080));
    assert_eq!((state.outputs[1].width, state.outputs[1].height), (1920, 1080));
}

#[test]
fn sizes_are_at_least_one_pixel() {
    let mut state = AppState::new();
    assert_eq!(state.new_output(1, 2, &vec![mode(true, 0, -7)]), 8);
    assert_eq!((state.outputs[0].width, state.outputs[0].height), (1, 1));
}

#[test]
fn frames_step_the_seed_and_find_the_output() {
    let mut state = two_outputs();
    assert_eq!(state.frame(22, false, 100), Some(1));
    assert_eq!(state.counter_seed, next_seed(FIRST_SEED));
    assert_eq!(state.frame(99, false, 200), None);
    assert_eq!(state.counter_seed, next_seed(next_seed(FIRST_SEED)));
    assert_eq!(state.outputs.len(), 2);
}

#[test]
fn backdrop_fades_in_from_the_first_frame_that_has_it() {
    let mut state = two_outputs();
    state.frame(11, false, 100);
    assert_eq!(state.bg_fade_start, None);
    state.frame(11, true, 200);
    assert_eq!(state.bg_fade_start, Some(200));
    state.frame(11, true, 300);
    state.frame(11, false, 400);
    assert_eq!(state.bg_fade_start, Some(200));
}

#[test]
fn configure_sets_the_size_and_makes_ready() {
    let mut state = two_outputs();
    assert_eq!(state.configure(11, 1280, 0), Some(0));
    assert_eq!(
        state.outputs[0],
        OutputSurface { output: 1, surface: 11, width: 1280, height: 1440, configured: true }
    );
    assert!(!state.outputs[1].configured);
    assert_eq!(state.configure(22, 0, 7), Some(1));
    assert_eq!((state.outputs[1].width, state.outputs[1].height), (1920, 7));
    assert_eq!(state.configure(33, 5, 5), None);
    assert_eq!(state.outputs.len(), 2);
}

#[test]
fn the_last_output_to_go_ends_the_overlay() {
    let mut state = two_outputs();
    state.output_destroyed(1);
    assert_eq!(state.outputs.len(), 1);
    assert_eq!(state.outputs[0].output, 2);
    assert!(!state.exit);
    state.output_destroyed(7);
    assert_eq!(state.outputs.len(), 1);
    state.output_destroyed(2);
    assert!(state.outputs.is_empty());
    assert!(state.exit);
    state.new_output(9, 99, &vec![]);
    assert!(state.exit);
}

#[test]
fn the_last_surface_to_close_ends_the_overlay() {
    let mut state = two_outputs();
    state.closed(22);
    assert_eq!(state.outputs[0].surface, 11);
    assert!(!state.exit);
    state.closed(11);
    assert!(state.exit);
}

#[test]
fn outputs_may_go_in_any_order() {
    let mut one = two_outputs();
    let mut other = two_outputs();
    one.new_output(3, 33, &vec![]);
    other.new_output(3, 33, &vec![]);
    one.output_destroyed(1);
    one.output_destroyed(3);
    other.output_destroyed(3);
    other.output_destroyed(1);
    assert_eq!(one.outputs, other.outputs);
    assert_eq!(one.exit, other.exit);
}

#[test]
fn only_configured_outputs_are_drawn() {
    let mut state = two_outputs();
    assert_eq!(state.render_output(0, &vec![], 0), None);
    state.configure(11, 1280, 720);
    assert_eq!(
        state.render_output(0, &vec![], 0),
        Some(RenderPlan { width: 1280, height: 720, stride: 5120, gif_frame: None })
    );
    assert_eq!(state.render_output(1, &vec![], 0), None);
    assert_eq!(state.render_output(2, &vec![], 0), None);
}

#[test]
fn the_drawn_frame_follows_the_clock() {
    let mut state = two_outputs();
    state.configure(22, 0, 0);
    let mut frames = Vec::new();
    for delay in [50, 70] {
        frames.push(GifFrame { image: Image::from_raw(1, 1, vec![0; 4]).unwrap(), delay });
    }
    let at = |ms| state.render_output(1, &frames, ms).unwrap().gif_frame;
    assert_eq!(at(49), Some(0));
    assert_eq!(at(50), Some(1));
    assert_eq!(at(120), Some(0));
}

#[test]
fn going_undoes_coming() {
    let mut state = two_outputs();
    let before = state.outputs.clone();
    state.new_output(3, 33, &vec![mode(true, 10, 10)]);
    assert_eq!(state.outputs.len(), 3);
    state.output_destroyed(3);
    assert_eq!(state.outputs, before);
    assert!(!state.exit);
    state.output_destroyed(3);
    assert_eq!(state.outputs, before);
    assert!(!state.exit);
}

#[test]
fn a_surface_closes_once() {
    let mut state = two_outputs();
    state.closed(11);
    let once = state.outputs.clone();
    state.closed(11);
    assert_eq!(state.outputs, once);
    assert!(!state.exit);
}
