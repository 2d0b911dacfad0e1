use hyper_loader::color::{parse_hex, Rgb};

fn rgb(red: u8, green: u8, blue: u8) -> Rgb {
    Rgb { red, green, blue }
}

#[test]
fn six_digits_are_three_channels() {
    assert_eq!(parse_hex("7ed4c8"), rgb(0x7e, 0xd4, 0xc8));
    assert_eq!(parse_hex("ff0080"), rgb(0xff, 0x00, 0x80));
    assert_eq!(parse_hex("000000"), rgb(0, 0, 0));
}

#[test]
fn hash_signs_are_optional() {
    assert_eq!(parse_hex("#ff0080"), parse_hex("ff0080"));
    assert_eq!(parse_hex("###ff0080"), parse_hex("ff0080"));
}

#[test]
fn case_makes_no_difference() {
    assert_eq!(parse_hex("ABCDEF"), rgb(0xab, 0xcd, 0xef));
    assert_eq!(parse_hex("abcdef"), parse_hex("ABCDEF"));
}

#[test]
fn short_and_long_numbers_count_from_the_right() {
    assert_eq!(parse_hex("f"), rgb(0, 0, 0x0f));
    assert_eq!(parse_hex("abc"), rgb(0, 0x0a, 0xbc));
    assert_eq!(parse_hex("ff102030"), rgb(0x10, 0x20, 0x30));
    assert_eq!(parse_hex("0000000000000102030"), rgb(0x10, 0x20, 0x30));
    assert_eq!(parse_hex("+102030"), rgb(0x10, 0x20, 0x30));
}

#[test]
fn what_is_no_number_is_the_fallback() {
    let fallback = rgb(0x7e, 0xd4, 0xc8);
    for text in ["", "#", "+", "-", "-1", "teal", "12 ", " 12", "1ff102030", "#+", "+#12", "12#", "++1", "é"] {
        assert_eq!(parse_hex(text), fallback, "{text}");
    }
    assert_eq!(
        parse_hex(&"f".repeat(8)),
        Rgb { red: 255, green: 255, blue: 255 }
    );
}

#[test]
fn canvas_order_swaps_red_and_blue() {
    assert_eq!(rgb(1, 2, 3).to_canvas_order(), rgb(3, 2, 1));
    assert_eq!(rgb(1, 2, 3).to_canvas_order().to_canvas_order(), rgb(1, 2, 3));
}
