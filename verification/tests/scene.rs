use hyper_loader::scene::{
    corner_bars, draw_frame, glitch_bars, scan_row, Bar, GlitchBar, Layer,
};
use hyper_loader::seed::FIRST_SEED;

#[test]
fn plain_frame_has_base_decorations_and_counter() {
    assert_eq!(
        draw_frame(false, false, false, false, false),
        vec![Layer::Base, Layer::Grid, Layer::Corners, Layer::Rings, Layer::Counter]
    );
}

#[test]
fn full_frame_has_every_layer_in_order() {
    assert_eq!(
        draw_frame(true, true, true, true, false),
        vec![
            Layer::Base,
            Layer::Backdrop,
            Layer::Darken,
            Layer::Tint,
            Layer::Grid,
            Layer::Corners,
            Layer::Rings,
            Layer::Gif,
            Layer::Counter,
            Layer::Glitch
        ]
    );
}

#[test]
fn options_take_layers_out() {
    for backdrop in [false, true] {
        for fading in [false, true] {
            for glitch in [false, true] {
                for gif in [false, true] {
                    for no_counter in [false, true] {
                        let all = draw_frame(backdrop, fading, glitch, gif, no_counter);
                        assert_eq!(all.contains(&Layer::Counter), !no_counter);
                        assert_eq!(all.contains(&Layer::Gif), gif);
                        assert_eq!(all.contains(&Layer::Glitch), glitch);
                        assert_eq!(all.contains(&Layer::Backdrop), backdrop && fading);
                        assert_eq!(all.contains(&Layer::Tint), backdrop && fading && glitch);
                    }
                }
            }
        }
    }
}

#[test]
fn brackets_stand_in_the_corners() {
    let bars = corner_bars(1920, 1080);
    let bar = |x, y, width, height| Bar { x, y, width, height };
    assert_eq!(
        bars,
        vec![
            bar(30, 30, 60, 2),
            bar(30, 30, 2, 60),
            bar(1830, 30, 60, 2),
            bar(1888, 30, 2, 60),
            bar(30, 1048, 60, 2),
            bar(30, 990, 2, 60),
            bar(1830, 1048, 60, 2),
            bar(1888, 990, 2, 60)
        ]
    );
    assert_eq!(corner_bars(0, 0)[6], bar(-90, -32, 60, 2));
}

#[test]
fn brackets_mirror_each_other() {
    let bars = corner_bars(777, 555);
    for k in [0, 1, 4, 5] {
        assert_eq!(bars[k + 2].x, 777 - bars[k].x - bars[k].width);
        assert_eq!(bars[k + 2].y, bars[k].y);
    }
    for k in 0..4 {
        assert_eq!(bars[k + 4].y, 555 - bars[k].y - bars[k].height);
        assert_eq!(bars[k + 4].x, bars[k].x);
    }
}

#[test]
fn scanline_starts_over() {
    assert_eq!(scan_row(0, 1080), 0);
    assert_eq!(scan_row(1079, 1080), 1079);
    assert_eq!(scan_row(1080, 1080), 0);
    assert_eq!(scan_row(5, 0), 0);
}

#[test]
fn glitch_bars_draw_length_and_offset() {
    assert_eq!(
        glitch_bars(&vec![10, 147, 1284], 1080, FIRST_SEED),
        vec![
            GlitchBar { row: 10, length: 1437226, offset: 1437259 },
            GlitchBar { row: 147, length: 1437226, offset: 1437260 },
            GlitchBar { row: 204, length: 1437226, offset: 1437260 }
        ]
    );
}
