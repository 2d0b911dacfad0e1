use hyper_loader::background::{backdrop_from, load_background};
use hyper_loader::blur::{blur_backdrop, box_blur};
use hyper_loader::picture::{Image, Pixel};

fn pixel(red: u8, green: u8, blue: u8, alpha: u8) -> Pixel {
    Pixel { red, green, blue, alpha }
}

fn gray_row(values: &[u8]) -> Image {
    let mut data = Vec::new();
    for v in values {
        data.extend_from_slice(&[*v, *v, *v, 7]);
    }
    Image::from_raw(values.len() as u32, 1, data).unwrap()
}

#[test]
fn raw_bytes_must_suffice() {
    assert!(Image::from_raw(2, 2, vec![0; 15]).is_none());
    assert!(Image::from_raw(2, 2, vec![0; 16]).is_some());
    assert!(Image::from_raw(2, 2, vec![0; 20]).is_some());
    assert!(Image::from_raw(u32::MAX, u32::MAX, vec![0; 16]).is_none());
}

#[test]
fn pixels_are_read_and_written_by_place() {
    let mut img = Image::from_raw(3, 2, (0..24).collect()).unwrap();
    assert_eq!(img.get_pixel(0, 0), pixel(0, 1, 2, 3));
    assert_eq!(img.get_pixel(2, 1), pixel(20, 21, 22, 23));
    img.put_pixel(1, 1, pixel(90, 91, 92, 93));
    assert_eq!(img.get_pixel(1, 1), pixel(90, 91, 92, 93));
    assert_eq!(img.get_pixel(0, 1), pixel(12, 13, 14, 15));
    assert_eq!(img.get_pixel(2, 1), pixel(20, 21, 22, 23));
}

#[test]
fn blur_takes_the_mean_and_repeats_the_edge() {
    let out = box_blur(&gray_row(&[0, 90, 200]), 1);
    // (0 + 0 + 90) / 3, (0 + 90 + 200) / 3 and (90 + 200 + 200) / 3, in each of three rows
    assert_eq!(out.get_pixel(0, 0), pixel(30, 30, 30, 255));
    assert_eq!(out.get_pixel(1, 0), pixel(96, 96, 96, 255));
    assert_eq!(out.get_pixel(2, 0), pixel(163, 163, 163, 255));
}

#[test]
fn blur_of_two_rows() {
    let img = Image::from_raw(1, 2, vec![10, 20, 30, 40, 100, 110, 120, 130]).unwrap();
    let out = box_blur(&img, 1);
    // two thirds of the own row, one third of the other
    assert_eq!(out.get_pixel(0, 0), pixel(40, 50, 60, 255));
    assert_eq!(out.get_pixel(0, 1), pixel(70, 80, 90, 255));
}

#[test]
fn blur_of_radius_zero_makes_opaque() {
    let out = box_blur(&gray_row(&[3, 5]), 0);
    assert_eq!(out.get_pixel(0, 0), pixel(3, 3, 3, 255));
    assert_eq!(out.get_pixel(1, 0), pixel(5, 5, 5, 255));
}

#[test]
fn blur_keeps_one_color() {
    let out = blur_backdrop(&gray_row(&[77; 9]));
    for x in 0..9 {
        assert_eq!(out.get_pixel(x, 0), pixel(77, 77, 77, 255));
    }
}

#[test]
fn blur_stays_between_the_extremes() {
    let out = box_blur(&gray_row(&[20, 200, 90, 33]), 2);
    for x in 0..4 {
        let p = out.get_pixel(x, 0);
        assert!(20 <= p.red && p.red <= 200);
    }
}

#[test]
fn empty_pictures_blur_to_empty_pictures() {
    let out = box_blur(&Image::from_raw(0, 5, Vec::new()).unwrap(), 3);
    assert_eq!((out.width, out.height), (0, 5));
    let out = box_blur(&Image::from_raw(5, 0, Vec::new()).unwrap(), 3);
    assert_eq!((out.width, out.height), (5, 0));
}

#[test]
fn backdrop_is_three_blurs() {
    let img = gray_row(&[0, 10, 250, 3, 80, 41, 99, 255, 0, 0, 12]);
    let by_hand = box_blur(&box_blur(&box_blur(&img, 14), 12), 10);
    assert_eq!(blur_backdrop(&img).data, by_hand.data);
    let from = backdrop_from(Some(gray_row(&[0, 10, 250, 3, 80, 41, 99, 255, 0, 0, 12])));
    assert_eq!(from.unwrap().data, by_hand.data);
    assert!(backdrop_from(None).is_none());
    let wide = Image::from_raw(0x7fff_fff3, 0, Vec::new()).unwrap();
    assert!(backdrop_from(Some(wide)).is_none());
    let wide = Image::from_raw(0x7fff_fff2, 0, Vec::new()).unwrap();
    assert!(backdrop_from(Some(wide)).is_some());
}

#[test]
fn background_comes_out_of_a_png_file() {
    let shot = image::RgbaImage::from_fn(4, 3, |x, y| {
        image::Rgba([10 * x as u8, 50 * y as u8, 200 - 10 * x as u8, 128])
    });
    let mut file = std::io::Cursor::new(Vec::new());
    shot.write_to(&mut file, image::ImageFormat::Png).unwrap();
    let out = load_background(file.get_ref()).unwrap();
    let plain = Image::from_raw(4, 3, shot.into_raw()).unwrap();
    assert_eq!((out.width, out.height), (4, 3));
    assert_eq!(out.data, blur_backdrop(&plain).data);
}

#[test]
fn background_of_a_gray_png_is_gray() {
    let shot = image::GrayImage::from_pixel(3, 2, image::Luma([9]));
    let mut file = std::io::Cursor::new(Vec::new());
    shot.write_to(&mut file, image::ImageFormat::Png).unwrap();
    let out = load_background(file.get_ref()).unwrap();
    assert_eq!(out.get_pixel(2, 1), pixel(9, 9, 9, 255));
}

#[test]
fn no_background_out_of_other_bytes() {
    assert!(load_background(b"").is_none());
    assert!(load_background(b"no picture").is_none());
}

/// A picture of this size with a pattern of its own in each channel.
fn pattern(width: u32, height: u32) -> Image {
    let data = (0..width * height)
        .flat_map(|i| [(i * 37 % 256) as u8, (i * 91 % 256) as u8, (i * i % 256) as u8, i as u8])
        .collect();
    Image::from_raw(width, height, data).unwrap()
}

/// The picture of this size whose pixels are found by `from` in another.
fn moved(img: &Image, width: u32, height: u32, from: fn(u32, u32, u32, u32) -> (u32, u32)) -> Image {
    let mut out = Image::from_raw(width, height, vec![0; (4 * width * height) as usize]).unwrap();
    for y in 0..height {
        for x in 0..width {
            let (u, v) = from(x, y, img.width, img.height);
            out.put_pixel(x, y, img.get_pixel(u, v));
        }
    }
    out
}

#[test]
fn blur_of_one_color_looks_at_no_alpha() {
    let img = Image::from_raw(2, 1, vec![9, 8, 7, 0, 9, 8, 7, 200]).unwrap();
    let once = box_blur(&img, 3);
    assert_eq!(once.data, vec![9, 8, 7, 255, 9, 8, 7, 255]);
    assert_eq!(box_blur(&once, 3).data, once.data);
}

#[test]
fn blur_prefers_no_direction() {
    let img = pattern(5, 4);
    let out = box_blur(&img, 1);
    let flip = |i: &Image| moved(i, 5, 4, |x, y, w, _| (w - 1 - x, y));
    let upend = |i: &Image| moved(i, 5, 4, |x, y, _, h| (x, h - 1 - y));
    let transpose = |i: &Image| moved(i, 4, 5, |x, y, _, _| (y, x));
    assert_eq!(box_blur(&flip(&img), 1).data, flip(&out).data);
    assert_eq!(box_blur(&upend(&img), 1).data, upend(&out).data);
    assert_eq!(box_blur(&transpose(&img), 1).data, transpose(&out).data);
}

#[test]
fn blur_prefers_no_channel() {
    let turn = |img: &Image| {
        let data = img.data.chunks(4).flat_map(|p| [p[2], p[0], p[1], p[3]]).collect();
        Image::from_raw(img.width, img.height, data).unwrap()
    };
    let img = pattern(4, 3);
    assert_eq!(box_blur(&turn(&img), 2).data, turn(&box_blur(&img, 2)).data);
}

#[test]
fn darker_blurs_darker_and_within_the_window() {
    let img = pattern(6, 3);
    let dark = Image::from_raw(6, 3, img.data.iter().map(|v| v / 3).collect()).unwrap();
    let (out, dark_out) = (box_blur(&img, 1), box_blur(&dark, 1));
    assert!(dark_out.data.iter().zip(&out.data).all(|(d, l)| d <= l));
    // the window around (0, 0) holds four pixels of the picture
    let reds = [(0, 0), (1, 0), (0, 1), (1, 1)].map(|(x, y)| img.get_pixel(x, y).red);
    let red = out.get_pixel(0, 0).red;
    assert!(reds.iter().any(|r| *r <= red) && reds.iter().any(|r| *r >= red));
}
