use hyper_loader::gif::{gif_frame_index, load_gif, timed_frames, GifFrame};
use hyper_loader::picture::{Image, Pixel};

fn frames(delays: &[u32]) -> Vec<GifFrame> {
    let mut res = Vec::new();
    for delay in delays {
        res.push(GifFrame {
            image: Image::from_raw(1, 1, vec![0; 4]).unwrap(),
            delay: *delay,
        });
    }
    res
}

#[test]
fn frames_follow_the_clock() {
    let f = frames(&[100, 50, 200]);
    assert_eq!(gif_frame_index(&f, 0), Some(0));
    assert_eq!(gif_frame_index(&f, 99), Some(0));
    assert_eq!(gif_frame_index(&f, 100), Some(1));
    assert_eq!(gif_frame_index(&f, 149), Some(1));
    assert_eq!(gif_frame_index(&f, 150), Some(2));
    assert_eq!(gif_frame_index(&f, 349), Some(2));
}

#[test]
fn animation_starts_over() {
    let f = frames(&[100, 50, 200]);
    assert_eq!(gif_frame_index(&f, 350), Some(0));
    assert_eq!(gif_frame_index(&f, 455), Some(1));
    assert_eq!(gif_frame_index(&f, 350 * 1000 + 149), gif_frame_index(&f, 149));
    assert_eq!(gif_frame_index(&f, u32::MAX), Some(0));
}

#[test]
fn no_frames_no_index() {
    assert_eq!(gif_frame_index(&frames(&[]), 5), None);
}

#[test]
fn frames_without_time_are_passed_over() {
    assert_eq!(gif_frame_index(&frames(&[0, 0]), 77), Some(0));
    assert_eq!(gif_frame_index(&frames(&[0, 10, 0]), 7), Some(1));
}

#[test]
fn short_delays_are_raised() {
    let raw = vec![
        (1, 1, vec![1, 2, 3, 4], 20, 1),
        (1, 1, vec![5, 6, 7, 8], 49, 2),
        (1, 1, vec![5, 6, 7, 8], 50, 3),
        (1, 1, vec![5, 6, 7, 8], 1000, 7),
    ];
    let made = timed_frames(Some(raw));
    let delays: Vec<u32> = made.iter().map(|f| f.delay).collect();
    assert_eq!(delays, vec![50, 50, 50, 1000]);
    assert_eq!(
        made[0].image.get_pixel(0, 0),
        Pixel { red: 1, green: 2, blue: 3, alpha: 4 }
    );
    assert!(timed_frames(None).is_empty());
}

#[test]
fn animation_comes_out_of_a_gif_file() {
    let red = image::RgbaImage::from_pixel(2, 2, image::Rgba([255, 0, 0, 255]));
    let blue = image::RgbaImage::from_pixel(2, 2, image::Rgba([0, 0, 255, 255]));
    let mut file = Vec::new();
    {
        let mut encoder = image::codecs::gif::GifEncoder::new(&mut file);
        for (picture, ms) in [(red, 20), (blue, 300)] {
            let delay = image::Delay::from_numer_denom_ms(ms, 1);
            encoder
                .encode_frame(image::Frame::from_parts(picture, 0, 0, delay))
                .unwrap();
        }
    }
    let made = load_gif(&file);
    assert_eq!(made.len(), 2);
    assert_eq!(made[0].delay, 50);
    assert_eq!(made[1].delay, 300);
    assert_eq!((made[1].image.width, made[1].image.height), (2, 2));
    assert_eq!(
        made[0].image.get_pixel(1, 1),
        Pixel { red: 255, green: 0, blue: 0, alpha: 255 }
    );
    assert_eq!(
        made[1].image.get_pixel(0, 1),
        Pixel { red: 0, green: 0, blue: 255, alpha: 255 }
    );
}

#[test]
fn no_animation_out_of_other_bytes() {
    assert!(load_gif(b"").is_empty());
    assert!(load_gif(b"GIF89a").is_empty());
}
