use hyper_loader::blit::{
    alphas_used, blit_background, blit_gif, gif_placement, Mix, Placement,
};
use hyper_loader::picture::Image;

/// The painted value takes the place of what is there.
fn replace() -> Mix {
    Mix { table: (0..0x10000).map(|i| (i / 256) as u8).collect() }
}

/// What is there stays.
fn keep() -> Mix {
    Mix { table: (0..0x10000).map(|i| (i % 256) as u8).collect() }
}

fn half() -> Mix {
    Mix { table: (0..0x10000).map(|i| ((i / 256 + i % 256) / 2) as u8).collect() }
}

#[test]
fn mix_looks_up_painted_over_there() {
    assert_eq!(replace().get(7, 9), 7);
    assert_eq!(keep().get(7, 9), 9);
    assert_eq!(half().get(255, 255), 255);
}

#[test]
fn background_covers_the_canvas() {
    // two by one pixels stretched over four by two
    let img = Image::from_raw(2, 1, vec![1, 2, 3, 0, 4, 5, 6, 0]).unwrap();
    let mut canvas = vec![255u8; 36];
    blit_background(&mut canvas, 4, 2, &img, &vec![0, 0, 1, 1], &vec![0, 0], &replace());
    let row = [3, 2, 1, 255, 3, 2, 1, 255, 6, 5, 4, 255, 6, 5, 4, 255];
    assert_eq!(canvas[0..16], row);
    assert_eq!(canvas[16..32], row);
    assert_eq!(canvas[32..36], [255; 4]);
}

#[test]
fn background_goes_in_blue_first() {
    let img = Image::from_raw(1, 1, vec![10, 20, 30, 255]).unwrap();
    let mut canvas = vec![100, 110, 120, 255];
    blit_background(&mut canvas, 1, 1, &img, &vec![0], &vec![0], &half());
    assert_eq!(canvas, vec![65, 65, 65, 255]);
    let mut canvas = vec![100, 110, 110, 255];
    blit_background(&mut canvas, 1, 1, &img, &vec![0], &vec![0], &half());
    assert_eq!(canvas, vec![65, 65, 60, 255]);
}

#[test]
fn red_screenshot_shows_as_red() {
    let img = Image::from_raw(1, 1, vec![255, 0, 0, 255]).unwrap();
    let mut canvas = vec![5, 5, 5, 255];
    blit_background(&mut canvas, 1, 1, &img, &vec![0], &vec![0], &replace());
    assert_eq!(canvas, vec![0, 0, 255, 255]);
}

#[test]
fn keeping_leaves_an_opaque_canvas() {
    let img = Image::from_raw(1, 1, vec![10, 20, 30, 255]).unwrap();
    let mut canvas = vec![100, 110, 120, 255];
    blit_background(&mut canvas, 1, 1, &img, &vec![0], &vec![0], &keep());
    assert_eq!(canvas, vec![100, 110, 120, 255]);
    let place = gif_placement(1, 1, 1, 1);
    assert_eq!(place, Placement { left: 0, top: 0, width: 1, height: 1 });
    blit_gif(&mut canvas, 1, 1, &img, &vec![0], &vec![0], &all_alphas(keep));
    assert_eq!(canvas, vec![100, 110, 120, 255]);
}

#[test]
fn background_takes_the_alpha_out_first() {
    let img = Image::from_raw(1, 1, vec![0, 0, 0, 255]).unwrap();
    let mut canvas = vec![2, 3, 5, 40];
    blit_background(&mut canvas, 1, 1, &img, &vec![0], &vec![0], &keep());
    assert_eq!(canvas, vec![13, 19, 32, 255]);
}

#[test]
fn background_samples_stay_inside() {
    let img = Image::from_raw(2, 2, (0..16).collect()).unwrap();
    let mut canvas = vec![255; 4];
    blit_background(&mut canvas, 1, 1, &img, &vec![9], &vec![2], &replace());
    assert_eq!(canvas, vec![14, 13, 12, 255]);
}

#[test]
fn placement_is_centered() {
    assert_eq!(
        gif_placement(1920, 1080, 100, 100),
        Placement { left: 885, top: 465, width: 150, height: 150 }
    );
    // 960.5 - 75.75 = 884.75, and 540.5 - 75.75 = 464.75
    assert_eq!(
        gif_placement(1921, 1081, 101, 101),
        Placement { left: 884, top: 464, width: 151, height: 151 }
    );
    // 5 - 7.5 = -2.5, toward zero
    assert_eq!(
        gif_placement(10, 10, 10, 10),
        Placement { left: -2, top: -2, width: 15, height: 15 }
    );
    assert_eq!(
        gif_placement(10, 100, 0, 0),
        Placement { left: 5, top: 50, width: 0, height: 0 }
    );
}

#[test]
fn placement_agrees_with_halves_of_lengths() {
    for pw in [1u32, 2, 3, 640, 641, 1919, 3840] {
        for gw in [1u32, 2, 3, 4, 5, 333, 2000] {
            let dw = gw as f32 * 1.5f32;
            let place = gif_placement(pw, pw, gw, gw);
            assert_eq!(place.width, (dw as i32) as i64);
            assert_eq!(place.left, ((pw as f32 / 2.0 - dw / 2.0) as i32) as i64);
            assert_eq!(place.top, ((pw as f32 / 2.0 - dw / 2.0) as i32) as i64);
        }
    }
}

fn all_alphas(mix: fn() -> Mix) -> Vec<Option<Mix>> {
    (0..256).map(|_| Some(mix())).collect()
}

#[test]
fn gif_is_painted_in_its_place() {
    // a frame of 2 by 2 pixels on a canvas of 5 by 6: 3 by 3 pixels from (1, 1) on
    let place = gif_placement(5, 6, 2, 2);
    assert_eq!(place, Placement { left: 1, top: 1, width: 3, height: 3 });
    let gif = Image::from_raw(2, 2, vec![1, 2, 3, 255, 4, 5, 6, 255, 7, 8, 9, 255, 10, 11, 12, 255])
        .unwrap();
    let mut canvas = vec![255u8; 4 * 5 * 6];
    blit_gif(&mut canvas, 5, 6, &gif, &vec![0, 0, 1], &vec![0, 1, 7], &all_alphas(replace));
    let at = |x: usize, y: usize| canvas[4 * (5 * y + x)..4 * (5 * y + x) + 4].to_vec();
    assert_eq!(at(1, 1), vec![3, 2, 1, 255]);
    assert_eq!(at(2, 1), vec![3, 2, 1, 255]);
    assert_eq!(at(3, 1), vec![6, 5, 4, 255]);
    assert_eq!(at(1, 2), vec![9, 8, 7, 255]);
    assert_eq!(at(3, 3), vec![12, 11, 10, 255]);
    for y in 0..6 {
        for x in 0..5 {
            if !(1..=3).contains(&x) || !(1..=3).contains(&y) {
                assert_eq!(at(x, y), vec![255; 4]);
            }
        }
    }
}

#[test]
fn gif_is_clipped_at_the_edges() {
    let gif = Image::from_raw(10, 10, (0..100).flat_map(|i| [i as u8, 0, 0, 255]).collect()).unwrap();
    let cols: Vec<u32> = (0..15).collect();
    let place = gif_placement(4, 10, 10, 10);
    assert_eq!(place, Placement { left: -5, top: -2, width: 15, height: 15 });
    let mut canvas = vec![0u8; 4 * 4 * 10];
    blit_gif(&mut canvas, 4, 10, &gif, &cols, &cols, &all_alphas(replace));
    // the upper left pixel of the canvas shows column 5 of row 2
    assert_eq!(canvas[0..4], [0, 0, 25, 255]);
    // eight rows down the sample is held at the last row
    assert_eq!(canvas[4 * 4 * 8..4 * 4 * 8 + 4], [0, 0, 95, 255]);
    assert_eq!(canvas[4 * 4 * 9..4 * 4 * 9 + 4], [0, 0, 95, 255]);

    let place = gif_placement(4, 20, 10, 10);
    assert_eq!(place, Placement { left: -5, top: 2, width: 15, height: 15 });
    let mut canvas = vec![0u8; 4 * 4 * 20];
    blit_gif(&mut canvas, 4, 20, &gif, &cols, &cols, &all_alphas(replace));
    assert_eq!(canvas[..4 * 4 * 2], vec![0u8; 4 * 4 * 2]);
    assert_eq!(canvas[4 * 4 * 2..4 * 4 * 2 + 4], [0, 0, 5, 255]);
    assert_eq!(canvas[4 * 4 * 17..], vec![0u8; 4 * 4 * 3]);
}

#[test]
fn gif_covers_the_middle() {
    let gif = Image::from_raw(2, 2, vec![255u8; 16]).unwrap();
    let mut canvas = vec![0u8; 4 * 100 * 100];
    let cols = vec![0, 0, 1];
    blit_gif(&mut canvas, 100, 100, &gif, &cols, &cols, &all_alphas(replace));
    let i = 4 * (100 * 49 + 49);
    assert_eq!(canvas[i..i + 4], [255, 255, 255, 255]);
}

#[test]
fn gif_without_a_table_shows_the_canvas() {
    let gif = Image::from_raw(2, 1, vec![1, 2, 3, 0, 4, 5, 6, 255]).unwrap();
    let mut mixes: Vec<Option<Mix>> = (0..256).map(|_| None).collect();
    mixes[255] = Some(half());
    let mut canvas = vec![200u8; 4 * 3 * 2];
    for i in 0..3 * 2 {
        canvas[4 * i + 3] = 255;
    }
    let place = gif_placement(3, 2, 2, 1);
    assert_eq!(place, Placement { left: 0, top: 0, width: 3, height: 1 });
    blit_gif(&mut canvas, 3, 2, &gif, &vec![0, 0, 1], &vec![0], &mixes);
    assert_eq!(canvas[0..12], [200, 200, 200, 255, 200, 200, 200, 255, 103, 102, 102, 255]);
}

#[test]
fn alphas_of_a_frame() {
    let gif = Image::from_raw(2, 1, vec![9, 9, 9, 0, 8, 8, 8, 255, 7, 7, 7, 77]).unwrap();
    let used = alphas_used(&gif);
    assert_eq!(used.len(), 256);
    for (alpha, there) in used.iter().enumerate() {
        assert_eq!(*there, alpha == 0 || alpha == 255);
    }
}

#[test]
fn tables_of_other_alphas_make_no_difference() {
    let gif = Image::from_raw(2, 2, [5, 6, 7, 255].repeat(4)).unwrap();
    let mut canvas = vec![50u8; 4 * 5 * 6];
    let mut same = canvas.clone();
    let mut few: Vec<Option<Mix>> = (0..256).map(|_| None).collect();
    few[255] = Some(half());
    let cols = vec![0, 0, 1];
    blit_gif(&mut canvas, 5, 6, &gif, &cols, &cols, &few);
    blit_gif(&mut same, 5, 6, &gif, &cols, &cols, &all_alphas(half));
    assert_eq!(canvas, same);
}
