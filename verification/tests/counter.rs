use hyper_loader::counter::{
    column_draws, counter_glyphs, draw_pixel_digit, Dot, Glyph, Strength,
};
use hyper_loader::seed::FIRST_SEED;

fn picture(digit: u8) -> Vec<String> {
    let mut rows = vec![String::new(); 7];
    let dots = draw_pixel_digit(100, 100, digit, 0, 0, false);
    for y in 0..7 {
        for x in 0..5 {
            let lit = dots.contains(&Dot { x: 4 * x, y: 4 * y });
            rows[y as usize].push(if lit { '#' } else { '.' });
        }
    }
    rows
}

#[test]
fn a_seven_looks_like_a_seven() {
    assert_eq!(
        picture(7),
        vec!["#####", "....#", "...#.", "..#..", ".#...", ".#...", ".#..."]
    );
}

#[test]
fn a_two_looks_like_a_two() {
    assert_eq!(
        picture(2),
        vec![".###.", "#...#", "....#", "..##.", ".#...", "#....", "#####"]
    );
}

#[test]
fn digits_differ_and_stop_at_nine() {
    for a in 0..10 {
        for b in 0..a {
            assert_ne!(picture(a), picture(b));
        }
    }
    assert_eq!(picture(10), picture(9));
    assert_eq!(picture(255), picture(9));
}

#[test]
fn dots_come_row_by_row() {
    let dots = draw_pixel_digit(100, 100, 1, 10, 20, false);
    assert_eq!(dots.len(), 10);
    assert_eq!(dots[0], Dot { x: 18, y: 20 });
    assert_eq!(dots[1], Dot { x: 14, y: 24 });
    assert_eq!(dots[2], Dot { x: 18, y: 24 });
    assert_eq!(dots[9], Dot { x: 22, y: 44 });
}

#[test]
fn dots_off_the_canvas_are_left_out() {
    // only the two right columns of an eight are on the canvas
    let dots = draw_pixel_digit(100, 100, 8, -12, 0, false);
    assert!(dots.iter().all(|d| d.x >= 0));
    assert_eq!(dots.len(), 4 + 3);
    // a canvas of three pixels holds the columns that begin at 0, 2 and not 4 pixels
    let dots = draw_pixel_digit(3, 2, 0, 0, 0, false);
    assert_eq!(dots, vec![Dot { x: 4, y: 0 }]);
    assert!(draw_pixel_digit(0, 0, 8, 0, 0, false).is_empty());
    assert!(draw_pixel_digit(100, 100, 8, 0, -28, false).is_empty());
}

#[test]
fn faint_digits_are_not_drawn() {
    assert!(draw_pixel_digit(100, 100, 8, 0, 0, true).is_empty());
}

#[test]
fn columns_draw_by_sevens() {
    assert_eq!(
        column_draws(FIRST_SEED),
        vec![1437226, 1437228, 1437230, 1437233, 1437235, 1437237, 1437240, 1437242]
    );
}

#[test]
fn counter_has_eight_columns_of_six() {
    let ticks: Vec<u64> = (0..8).map(|c| 1000 + 100 * c).collect();
    let glyphs = counter_glyphs(1921, 1081, &ticks, FIRST_SEED);
    let digits: Vec<u8> = glyphs.iter().map(|g| g.digit).collect();
    assert_eq!(
        digits,
        vec![
            7, 4, 1, 8, 5, 2, 8, 5, 2, 9, 6, 3, 9, 6, 3, 0, 7, 4, 0, 7, 4, 1, 8, 5, 1, 8, 5, 2, 9,
            6, 2, 9, 6, 3, 0, 7, 3, 0, 7, 4, 1, 8, 4, 1, 8, 5, 2, 9
        ]
    );
    // 960.5 - 160 and 540.5 + 155 pixels
    assert_eq!(
        glyphs[0],
        Glyph { digit: 7, x: 1601, y: 1391, strength: Strength::Dim }
    );
    assert_eq!(
        glyphs[10],
        Glyph { digit: 6, x: 1681, y: 1247, strength: Strength::Medium }
    );
    assert_eq!(
        glyphs[47],
        Glyph { digit: 9, x: 2161, y: 1211, strength: Strength::Bright }
    );
}

#[test]
fn counter_is_in_the_middle() {
    let glyphs = counter_glyphs(1000, 500, &vec![0; 8], 0);
    assert_eq!(glyphs[0].x, 2 * 1000 - (glyphs[42].x + 80));
}

#[test]
fn sums_wrap_around() {
    let mut ticks = vec![0; 8];
    ticks[1] = 5;
    let glyphs = counter_glyphs(10, 10, &ticks, u64::MAX);
    // 5 + 31 + 17 - 1
    assert_eq!(glyphs[7].digit, 2);
}

#[test]
fn dots_stay_in_the_box_of_the_digit() {
    for digit in 0..=10 {
        let dots = draw_pixel_digit(100, 100, digit, 31, 50, false);
        assert!(!dots.is_empty());
        for d in dots {
            assert!(31 <= d.x && d.x <= 47 && 50 <= d.y && d.y <= 74);
        }
    }
}

#[test]
fn digits_off_the_canvas_have_no_dots() {
    for (x, y) in [(200, 0), (0, 120), (-20, 0), (0, -28)] {
        for digit in 0..10 {
            assert!(draw_pixel_digit(100, 60, digit, x, y, false).is_empty());
        }
    }
    assert!(!draw_pixel_digit(100, 60, 0, -16, 0, false).is_empty());
    assert!(!draw_pixel_digit(100, 60, 0, 0, -24, false).is_empty());
}
