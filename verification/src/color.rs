//! Accent colors and how they are written.

use vstd::prelude::*;

verus! {

/// A color of three channels, each from 0 to 255.
#[derive(Clone, Copy, Debug, PartialEq, Eq, Structural)]
pub struct Rgb {
    pub red: u8,
    pub green: u8,
    pub blue: u8,
}

impl Rgb {
    /// The color in the byte order of the canvas: red and blue trade places.
    pub open spec fn in_canvas_order(self) -> Rgb {
        Rgb { red: self.blue, green: self.green, blue: self.red }
    }

    /// Puts the color into the byte order of the canvas.
    pub fn to_canvas_order(self) -> (swapped: Rgb)
        ensures
            swapped == self.in_canvas_order(),
    {
        Rgb { red: self.blue, green: self.green, blue: self.red }
    }
}

/// Swapping twice gives the color back.
pub proof fn lemma_canvas_order_twice(color: Rgb)
    ensures
        color.in_canvas_order().in_canvas_order() == color,
{
}

/// The color that stands for a text that is no hexadecimal number.
pub const FALLBACK: u32 = 0x7ed4c8;

/// What a hexadecimal digit counts.
pub open spec fn digit_value(c: char) -> Option<nat> {
    if '0' <= c <= '9' {
        Some((c as int - '0' as int) as nat)
    } else if 'a' <= c <= 'f' {
        Some((c as int - 'a' as int + 10) as nat)
    } else if 'A' <= c <= 'F' {
        Some((c as int - 'A' as int + 10) as nat)
    } else {
        None
    }
}

/// What a row of hexadecimal digits counts; nothing if it holds anything else.
pub open spec fn digits_value(digits: Seq<char>) -> Option<nat>
    decreases digits.len(),
{
    if digits.len() == 0 {
        Some(0)
    } else {
        match (digits_value(digits.drop_last()), digit_value(digits.last())) {
            (Some(upper), Some(d)) => Some(16 * upper + d),
            _ => None,
        }
    }
}

/// The text without the hash signs that it starts with.
pub open spec fn without_hashes(text: Seq<char>) -> Seq<char>
    decreases text.len(),
{
    if text.len() > 0 && text[0] == '#' {
        without_hashes(text.drop_first())
    } else {
        text
    }
}

/// The 32-bit number that a text writes in hexadecimal: digits, at least one, and a plus sign
/// before them if one likes.
pub open spec fn hex_number(text: Seq<char>) -> Option<u32> {
    let digits = if text.len() > 0 && text[0] == '+' {
        text.drop_first()
    } else {
        text
    };
    match digits_value(digits) {
        Some(v) if digits.len() > 0 && v <= u32::MAX => Some(v as u32),
        _ => None,
    }
}

/// The color in the lower 24 bits of a number, eight bits to the channel, blue lowest.
pub open spec fn unpacked(number: u32) -> Rgb {
    Rgb {
        red: (number / 0x10000 % 0x100) as u8,
        green: (number / 0x100 % 0x100) as u8,
        blue: (number % 0x100) as u8,
    }
}

/// The color that a text writes.
pub open spec fn color_of(text: Seq<char>) -> Rgb {
    match hex_number(without_hashes(text)) {
        Some(number) => unpacked(number),
        None => unpacked(FALLBACK),
    }
}

fn char_digit(c: char) -> (digit: Option<u32>)
    ensures
        match digit {
            Some(d) => digit_value(c) == Some(d as nat) && d < 16,
            None => digit_value(c) is None,
        },
{
    if '0' <= c && c <= '9' {
        Some(c as u32 - '0' as u32)
    } else if 'a' <= c && c <= 'f' {
        Some(c as u32 - 'a' as u32 + 10)
    } else if 'A' <= c && c <= 'F' {
        Some(c as u32 - 'A' as u32 + 10)
    } else {
        None
    }
}

/// Digits that do not add up to a 32-bit number do not with more digits behind them either.
proof fn lemma_more_digits(digits: Seq<char>, n: int)
    requires
        0 <= n <= digits.len(),
        match digits_value(digits.take(n)) {
            Some(v) => v > u32::MAX,
            None => true,
        },
    ensures
        match digits_value(digits) {
            Some(v) => v > u32::MAX,
            None => true,
        },
    decreases digits.len() - n,
{
    if n == digits.len() {
        assert(digits.take(n) =~= digits);
    } else {
        assert(digits.take(n + 1).drop_last() =~= digits.take(n));
        lemma_more_digits(digits, n + 1);
    }
}

/// Reads the hexadecimal number that stands from `start` on.
fn read_hex(text: &Vec<char>, start: usize) -> (number: Option<u32>)
    requires
        start <= text@.len(),
    ensures
        number == hex_number(text@.skip(start as int)),
{
    let ghost rest = text@.skip(start as int);
    let first: usize = if start < text.len() && text[start] == '+' {
        start + 1
    } else {
        start
    };
    let ghost digits = text@.skip(first as int);
    proof {
        if first > start {
            assert(rest.drop_first() =~= digits);
        }
    }
    if first == text.len() {
        return None;
    }
    let mut value: u32 = 0;
    let mut i: usize = first;
    assert(digits.take(0) =~= Seq::<char>::empty());
    while i < text.len()
        invariant
            first <= i <= text@.len(),
            first < text@.len(),
            digits == text@.skip(first as int),
            rest.len() > 0,
            digits == (if rest[0] == '+' {
                rest.drop_first()
            } else {
                rest
            }),
            rest == text@.skip(start as int),
            digits_value(digits.take(i - first)) == Some(value as nat),
        decreases text@.len() - i,
    {
        proof {
            assert(digits.take(i + 1 - first).drop_last() =~= digits.take(i - first));
            assert(digits.take(i + 1 - first).last() == text@[i as int]);
        }
        match char_digit(text[i]) {
            None => {
                proof {
                    lemma_more_digits(digits, i + 1 - first);
                }
                return None;
            },
            Some(d) => {
                let longer: u64 = 16 * value as u64 + d as u64;
                if longer > 0xffff_ffff {
                    proof {
                        lemma_more_digits(digits, i + 1 - first);
                    }
                    return None;
                }
                value = longer as u32;
            },
        }
        i = i + 1;
    }
    assert(digits.take(i - first) =~= digits);
    Some(value)
}

/// Reads a color, such as "7ed4c8" or "#7ed4c8".
pub fn parse_hex(s: &str) -> (color: Rgb)
    ensures
        color == color_of(s@),
{
    let mut text: Vec<char> = Vec::new();
    for c in it: s.chars()
        invariant
            it.seq() == s@,
            text@ == s@.take(it.index() as int),
    {
        text.push(c);
    }
    assert(text@ =~= s@);
    let mut start: usize = 0;
    assert(text@.skip(0) =~= text@);
    while start < text.len() && text[start] == '#'
        invariant
            start <= text@.len(),
            without_hashes(text@) == without_hashes(text@.skip(start as int)),
        decreases text@.len() - start,
    {
        assert(text@.skip(start as int).drop_first() =~= text@.skip(start + 1));
        start = start + 1;
    }
    let number: u32 = match read_hex(&text, start) {
        Some(n) => n,
        None => FALLBACK,
    };
    assert((number >> 16) & 0xFF == number / 0x10000 % 0x100) by (bit_vector);
    assert((number >> 8) & 0xFF == number / 0x100 % 0x100) by (bit_vector);
    assert(number & 0xFF == number % 0x100) by (bit_vector);
    Rgb {
        red: ((number >> 16) & 0xFF) as u8,
        green: ((number >> 8) & 0xFF) as u8,
        blue: (number & 0xFF) as u8,
    }
}

/// A hash sign before a color makes no difference.
pub proof fn lemma_hash_is_optional(text: Seq<char>)
    ensures
        color_of(seq!['#'] + text) == color_of(text),
{
    assert((seq!['#'] + text).drop_first() =~= text);
}

/// Two texts that differ only in how they write their digits.
pub open spec fn same_digits(a: Seq<char>, b: Seq<char>) -> bool {
    &&& a.len() == b.len()
    &&& forall|i: int|
        0 <= i < a.len() ==> (#[trigger] a[i] == b[i] || (digit_value(a[i]) is Some && digit_value(
            a[i],
        ) == digit_value(b[i])))
}

proof fn lemma_same_value(a: Seq<char>, b: Seq<char>)
    requires
        same_digits(a, b),
    ensures
        digits_value(a) == digits_value(b),
    decreases a.len(),
{
    if a.len() > 0 {
        assert(same_digits(a.drop_last(), b.drop_last()));
        lemma_same_value(a.drop_last(), b.drop_last());
    }
}

/// Digits above nine may be written in either case.
pub proof fn lemma_case_is_free(a: Seq<char>, b: Seq<char>)
    requires
        same_digits(a, b),
    ensures
        color_of(a) == color_of(b),
    decreases a.len(),
{
    if a.len() > 0 && a[0] == '#' {
        assert(b[0] == '#');
        assert(same_digits(a.drop_first(), b.drop_first()));
        lemma_case_is_free(a.drop_first(), b.drop_first());
    } else if a.len() > 0 {
        assert(a[0] == b[0] || digit_value(a[0]) is Some);
        assert(b[0] != '#');
        assert(same_digits(a.drop_first(), b.drop_first()));
        lemma_same_value(a.drop_first(), b.drop_first());
        lemma_same_value(a, b);
    } else {
        assert(a =~= b);
    }
}

/// What a hexadecimal digit counts, where there is one.
pub open spec fn nibble(c: char) -> nat {
    digit_value(c)->0
}

/// Six digits are the three channels, two digits each, red first.
pub proof fn lemma_six_digits(text: Seq<char>)
    requires
        text.len() == 6,
        forall|i: int| 0 <= i < 6 ==> digit_value(#[trigger] text[i]) is Some,
    ensures
        color_of(text) == (Rgb {
            red: (16 * nibble(text[0]) + nibble(text[1])) as u8,
            green: (16 * nibble(text[2]) + nibble(text[3])) as u8,
            blue: (16 * nibble(text[4]) + nibble(text[5])) as u8,
        }),
{
    assert(text[0] != '#' && text[0] != '+');
    assert(text.take(0) =~= Seq::<char>::empty());
    assert(text.take(6) =~= text);
    lemma_one_more_digit(text, 0);
    lemma_one_more_digit(text, 1);
    lemma_one_more_digit(text, 2);
    lemma_one_more_digit(text, 3);
    lemma_one_more_digit(text, 4);
    lemma_one_more_digit(text, 5);
    let red = 16 * nibble(text[0]) + nibble(text[1]);
    let green = 16 * nibble(text[2]) + nibble(text[3]);
    let blue = 16 * nibble(text[4]) + nibble(text[5]);
    assert(without_hashes(text) == text);
    assert(digits_value(text) == Some(0x10000 * red + 0x100 * green + blue));
    lemma_unpack(red, green, blue);
}

proof fn lemma_unpack(red: nat, green: nat, blue: nat)
    requires
        red < 0x100,
        green < 0x100,
        blue < 0x100,
    ensures
        0x10000 * red + 0x100 * green + blue <= u32::MAX,
        unpacked((0x10000 * red + 0x100 * green + blue) as u32) == (Rgb {
            red: red as u8,
            green: green as u8,
            blue: blue as u8,
        }),
{
    let n = (0x10000 * red + 0x100 * green + blue) as int;
    vstd::arithmetic::div_mod::lemma_fundamental_div_mod_converse(
        n,
        0x10000,
        red as int,
        (0x100 * green + blue) as int,
    );
    vstd::arithmetic::div_mod::lemma_fundamental_div_mod_converse(
        n,
        0x100,
        (0x100 * red + green) as int,
        blue as int,
    );
    vstd::arithmetic::div_mod::lemma_mod_multiples_vanish(red as int, green as int, 0x100);
    vstd::arithmetic::div_mod::lemma_small_mod(green, 0x100);
    vstd::arithmetic::div_mod::lemma_small_mod(red, 0x100);
}

proof fn lemma_one_more_digit(text: Seq<char>, n: int)
    requires
        0 <= n < text.len(),
        digits_value(text.take(n)) is Some,
        digit_value(text[n]) is Some,
    ensures
        digits_value(text.take(n + 1)) == Some(
            16 * digits_value(text.take(n))->0 + digit_value(text[n])->0,
        ),
{
    assert(text.take(n + 1).drop_last() =~= text.take(n));
}

/// In the byte order of the canvas blue stands where red stood, red where blue stood, and green
/// where it was.
pub proof fn lemma_canvas_order_exchanges_red_and_blue(color: Rgb)
    ensures
        color.in_canvas_order().red == color.blue,
        color.in_canvas_order().green == color.green,
        color.in_canvas_order().blue == color.red,
{
}

/// The hexadecimal digits are 0 to 9, and a to f in either case for ten to fifteen.
pub proof fn lemma_digits_count(c: char)
    ensures
        48 <= c as int <= 57 ==> digit_value(c) == Some((c as int - 48) as nat),
        97 <= c as int <= 102 ==> digit_value(c) == Some((c as int - 87) as nat),
        65 <= c as int <= 70 ==> digit_value(c) == Some((c as int - 55) as nat),
        c as int <= 47 || 58 <= c as int <= 64 || 71 <= c as int <= 96 || 103 <= c as int
            ==> digit_value(c) is None,
{
}

/// The text is made of hexadecimal digits, at least one.
pub open spec fn all_digits(text: Seq<char>) -> bool {
    text.len() > 0 && forall|i: int| 0 <= i < text.len() ==> digit_value(#[trigger] text[i]) is Some
}

spec fn power_of_16(n: nat) -> nat
    decreases n,
{
    if n == 0 {
        1
    } else {
        16 * power_of_16((n - 1) as nat)
    }
}

proof fn lemma_powers_grow(a: nat, b: nat)
    requires
        a <= b,
    ensures
        0 < power_of_16(a) <= power_of_16(b),
    decreases b,
{
    if a < b {
        lemma_powers_grow(a, (b - 1) as nat);
    } else if a > 0 {
        lemma_powers_grow((a - 1) as nat, (a - 1) as nat);
    }
}

/// The first digit counts for as many sixteens as there are digits behind it.
proof fn lemma_first_digit(text: Seq<char>)
    requires
        all_digits(text),
    ensures
        digits_value(text) is Some,
        digits_value(text.drop_first()) is Some,
        digits_value(text)->0 == nibble(text[0]) * power_of_16((text.len() - 1) as nat)
            + digits_value(text.drop_first())->0,
        digits_value(text.drop_first())->0 < power_of_16((text.len() - 1) as nat),
        nibble(text[0]) < 16,
    decreases text.len(),
{
    let shorter = text.drop_last();
    if text.len() == 1 {
        assert(text.drop_last() =~= Seq::<char>::empty());
        assert(text.drop_first() =~= Seq::<char>::empty());
        assert(nibble(text[0]) * 1 == nibble(text[0]));
    } else {
        assert(all_digits(shorter));
        lemma_first_digit(shorter);
        assert(text.drop_first().drop_last() =~= shorter.drop_first());
        assert(text.drop_first().last() == text.last());
        assert(digit_value(text.last()) is Some);
        let p = power_of_16((shorter.len() - 1) as nat);
        let d = nibble(text[0]);
        assert(16 * (d * p) == d * (16 * p)) by (nonlinear_arith);
    }
}

proof fn lemma_digits_as_they_stand(text: Seq<char>)
    requires
        all_digits(text),
    ensures
        without_hashes(text) == text,
        digits_value(text)->0 <= u32::MAX ==> color_of(text) == unpacked(
            digits_value(text)->0 as u32,
        ),
        digits_value(text)->0 > u32::MAX ==> color_of(text) == unpacked(FALLBACK),
{
    lemma_first_digit(text);
    assert(digit_value(text[0]) is Some);
    assert(text[0] != '#' && text[0] != '+');
}

/// Zeros before the digits make no difference, so less than six digits are what they are with
/// zeros before them.
pub proof fn lemma_leading_zero_is_free(text: Seq<char>)
    requires
        all_digits(text),
    ensures
        color_of(seq!['0'] + text) == color_of(text),
{
    let longer = seq!['0'] + text;
    assert(all_digits(longer)) by {
        assert forall|i: int| 0 <= i < longer.len() implies digit_value(#[trigger] longer[i])
            is Some by {
            if i > 0 {
                assert(longer[i] == text[i - 1]);
            }
        }
    }
    assert(longer.drop_first() =~= text);
    lemma_first_digit(longer);
    lemma_first_digit(text);
    let p = power_of_16((longer.len() - 1) as nat);
    assert(0 * p == 0) by (nonlinear_arith);
    lemma_digits_as_they_stand(longer);
    lemma_digits_as_they_stand(text);
}

/// Of seven or eight digits the last six count.
pub proof fn lemma_last_six_digits_count(text: Seq<char>)
    requires
        all_digits(text),
        7 <= text.len() <= 8,
    ensures
        color_of(text) == color_of(text.drop_first()),
{
    let rest = text.drop_first();
    assert(all_digits(rest));
    lemma_first_digit(text);
    lemma_digits_as_they_stand(text);
    lemma_digits_as_they_stand(rest);
    reveal_with_fuel(power_of_16, 9);
    let p = power_of_16((text.len() - 1) as nat);
    let d = nibble(text[0]);
    let v = digits_value(rest)->0;
    if text.len() == 7 {
        assert(p == 0x100_0000);
        assert(d * p == d * 0x100_0000) by (nonlinear_arith)
            requires
                p == 0x100_0000,
        ;
        lemma_high_bits(d, v);
    } else {
        assert(p == 0x1000_0000);
        assert(d * p == (16 * d) * 0x100_0000) by (nonlinear_arith)
            requires
                p == 0x1000_0000,
        ;
        lemma_high_bits(16 * d, v);
    }
}

proof fn lemma_high_bits(high: nat, v: nat)
    requires
        high * 0x100_0000 + v <= u32::MAX,
    ensures
        unpacked((high * 0x100_0000 + v) as u32) == unpacked(v as u32),
{
    let n = (high * 0x100_0000 + v) as int;
    let (h, w) = (high as int, v as int);
    vstd::arithmetic::div_mod::lemma_fundamental_div_mod(w, 0x10000);
    vstd::arithmetic::div_mod::lemma_fundamental_div_mod(w, 0x100);
    vstd::arithmetic::div_mod::lemma_fundamental_div_mod_converse(
        n,
        0x10000,
        0x100 * h + w / 0x10000,
        w % 0x10000,
    );
    vstd::arithmetic::div_mod::lemma_fundamental_div_mod_converse(
        n,
        0x100,
        0x10000 * h + w / 0x100,
        w % 0x100,
    );
    vstd::arithmetic::div_mod::lemma_mod_multiples_vanish(h, w / 0x10000, 0x100);
    vstd::arithmetic::div_mod::lemma_mod_multiples_vanish(0x100 * h, w / 0x100, 0x100);
}

/// More than eight digits that do not start with a zero are too many, and fall back.
pub proof fn lemma_too_many_digits_fall_back(text: Seq<char>)
    requires
        all_digits(text),
        text.len() > 8,
        text[0] != '0',
    ensures
        color_of(text) == (Rgb { red: 0x7e, green: 0xd4, blue: 0xc8 }),
{
    lemma_first_digit(text);
    lemma_digits_as_they_stand(text);
    reveal_with_fuel(power_of_16, 9);
    assert(power_of_16(8) == 0x1_0000_0000);
    lemma_powers_grow(8, (text.len() - 1) as nat);
    let p = power_of_16((text.len() - 1) as nat);
    let d = nibble(text[0]);
    assert(d >= 1);
    assert(d * p >= p) by (nonlinear_arith)
        requires
            d >= 1,
            p >= 0,
    ;
}

/// A plus sign before the digits makes no difference.
pub proof fn lemma_plus_is_optional(text: Seq<char>)
    requires
        all_digits(text),
    ensures
        color_of(seq!['+'] + text) == color_of(text),
{
    lemma_digits_as_they_stand(text);
    lemma_first_digit(text);
    assert((seq!['+'] + text).drop_first() =~= text);
}

proof fn lemma_not_all_digits(text: Seq<char>, i: int)
    requires
        0 <= i < text.len(),
        digit_value(text[i]) is None,
    ensures
        digits_value(text) is None,
    decreases text.len(),
{
    if i < text.len() - 1 {
        lemma_not_all_digits(text.drop_last(), i);
    }
}

/// A text that is no number falls back: nothing at all, a plus sign alone, or anything but digits
/// behind the hash signs and the plus sign.
pub proof fn lemma_no_number_falls_back(text: Seq<char>, digits: Seq<char>)
    requires
        text == digits && (digits.len() == 0 || (digits[0] != '#' && digits[0] != '+')) || text
            == seq!['+'] + digits,
        !all_digits(digits),
    ensures
        color_of(text) == (Rgb { red: 0x7e, green: 0xd4, blue: 0xc8 }),
{
    if text == seq!['+'] + digits {
        assert(text.drop_first() =~= digits);
    }
    if digits.len() > 0 {
        let i = choose|i: int| 0 <= i < digits.len() && digit_value(#[trigger] digits[i]) is None;
        lemma_not_all_digits(digits, i);
    }
}

} // verus!
