//! Character layer of Setun-70.
//!
//! The internal 6-trit syllable is the character code; this module maps
//! codes to printed signs, controls and back. Codes are 3-digit balanced
//! nonary over the alphabet W=-4, X=-3, Y=-2, Z=-1, 0..=4.
//!
//! Every sign code is single-sign (all nonzero trits share a sign), so all
//! of them pass the tape-row representation exactly. `-` (digit minus,
//! nonary 410 = 333) and the hyphen ZWW both print as '-'; `encode_char`
//! maps '-' to the digit minus.

use vstd::prelude::*;

verus! {

/// The sign table: the printed sign of a code, if it has one.
pub open spec fn sign_of(code: i16) -> Option<char> {
    match code {
        -364 => Some(']'),  // WWW
        -363 => Some(','),  // WWX
        -361 => Some('.'),  // WWZ
        -355 => Some('↑'),  // WXW
        -354 => Some('('),  // WXX
        -352 => Some(')'),  // WXZ
        -351 => Some('×'),  // WX0
        -337 => Some(';'),  // WZW
        -336 => Some('['),  // WZX
        -334 => Some('⎵'),  // WZZ
        -333 => Some('='),  // WZ0
        -328 => Some('>'),  // W0W
        -256 => Some('_'),  // XZW
        -255 => Some('|'),  // XZX
        -121 => Some('-'),  // ZWW
        -120 => Some('%'),  // ZWX
        -118 => Some('W'),  // ZWZ
        -117 => Some('G'),  // ZW0
        -112 => Some('D'),  // ZXW
        -111 => Some(':'),  // ZXX
        -109 => Some('V'),  // ZXZ
        -108 => Some('Z'),  // ZX0
        -94 => Some('I'),  // ZZW
        -93 => Some('J'),  // ZZX
        -91 => Some('≤'),  // ZZZ
        -90 => Some('L'),  // ZZ0
        -85 => Some('≡'),  // Z0W
        -84 => Some('N'),  // Z0X
        -82 => Some('¬'),  // Z0Z
        -81 => Some('⊃'),  // Z00
        -40 => Some('R'),  // 0WW
        -39 => Some('S'),  // 0WX
        -37 => Some('∨'),  // 0WZ
        -36 => Some('U'),  // 0W0
        -31 => Some('F'),  // 0XW
        -30 => Some('<'),  // 0XX
        -28 => Some('≠'),  // 0XZ
        -27 => Some('÷'),  // 0X0
        -13 => Some('‘'),  // 0ZW
        -12 => Some('‚'),  // 0ZX
        -10 => Some('!'),  // 0ZZ
        -9 => Some('∧'),  // 0Z0
        -4 => Some('≥'),  // 00W
        -3 => Some('◊'),  // 00X
        -1 => Some('Q'),  // 00Z
        1 => Some('Я'),  // 001
        3 => Some('Ю'),  // 003
        4 => Some('Э'),  // 004
        9 => Some('Ь'),  // 010
        10 => Some('Ы'),  // 011
        12 => Some('Щ'),  // 013
        13 => Some('Ш'),  // 014
        27 => Some('Ч'),  // 030
        28 => Some('Ц'),  // 031
        30 => Some('Х'),  // 033
        31 => Some('Ф'),  // 034
        36 => Some('У'),  // 040
        37 => Some('Т'),  // 041
        39 => Some('С'),  // 043
        40 => Some('Р'),  // 044
        81 => Some('П'),  // 100
        82 => Some('О'),  // 101
        84 => Some('Н'),  // 103
        85 => Some('М'),  // 104
        90 => Some('Л'),  // 110
        91 => Some('К'),  // 111
        93 => Some('Й'),  // 113
        94 => Some('И'),  // 114
        108 => Some('З'),  // 130
        109 => Some('Ж'),  // 131
        111 => Some('Е'),  // 133
        112 => Some('Д'),  // 134
        117 => Some('Г'),  // 140
        118 => Some('В'),  // 141
        120 => Some('Б'),  // 143
        121 => Some('А'),  // 144
        255 => Some('*'),  // 313
        256 => Some('¯'),  // 314
        328 => Some('/'),  // 404
        333 => Some('-'),  // 410
        334 => Some('+'),  // 411
        336 => Some('9'),  // 413
        337 => Some('8'),  // 414
        351 => Some('7'),  // 430
        352 => Some('6'),  // 431
        354 => Some('5'),  // 433
        355 => Some('4'),  // 434
        360 => Some('3'),  // 440
        361 => Some('2'),  // 441
        363 => Some('1'),  // 443
        364 => Some('0'),  // 444
        _ => None,
    }
}

/// Decodes a character code to a printable sign; None for control codes
/// and unassigned codes (see `control_name`).
pub fn decode_char(code: i16) -> (r: Option<char>)
    ensures
        r == sign_of(code),
{
    match code {
        -364 => Some(']'),  // WWW
        -363 => Some(','),  // WWX
        -361 => Some('.'),  // WWZ
        -355 => Some('↑'),  // WXW
        -354 => Some('('),  // WXX
        -352 => Some(')'),  // WXZ
        -351 => Some('×'),  // WX0
        -337 => Some(';'),  // WZW
        -336 => Some('['),  // WZX
        -334 => Some('⎵'),  // WZZ
        -333 => Some('='),  // WZ0
        -328 => Some('>'),  // W0W
        -256 => Some('_'),  // XZW
        -255 => Some('|'),  // XZX
        -121 => Some('-'),  // ZWW
        -120 => Some('%'),  // ZWX
        -118 => Some('W'),  // ZWZ
        -117 => Some('G'),  // ZW0
        -112 => Some('D'),  // ZXW
        -111 => Some(':'),  // ZXX
        -109 => Some('V'),  // ZXZ
        -108 => Some('Z'),  // ZX0
        -94 => Some('I'),  // ZZW
        -93 => Some('J'),  // ZZX
        -91 => Some('≤'),  // ZZZ
        -90 => Some('L'),  // ZZ0
        -85 => Some('≡'),  // Z0W
        -84 => Some('N'),  // Z0X
        -82 => Some('¬'),  // Z0Z
        -81 => Some('⊃'),  // Z00
        -40 => Some('R'),  // 0WW
        -39 => Some('S'),  // 0WX
        -37 => Some('∨'),  // 0WZ
        -36 => Some('U'),  // 0W0
        -31 => Some('F'),  // 0XW
        -30 => Some('<'),  // 0XX
        -28 => Some('≠'),  // 0XZ
        -27 => Some('÷'),  // 0X0
        -13 => Some('‘'),  // 0ZW
        -12 => Some('‚'),  // 0ZX
        -10 => Some('!'),  // 0ZZ
        -9 => Some('∧'),  // 0Z0
        -4 => Some('≥'),  // 00W
        -3 => Some('◊'),  // 00X
        -1 => Some('Q'),  // 00Z
        1 => Some('Я'),  // 001
        3 => Some('Ю'),  // 003
        4 => Some('Э'),  // 004
        9 => Some('Ь'),  // 010
        10 => Some('Ы'),  // 011
        12 => Some('Щ'),  // 013
        13 => Some('Ш'),  // 014
        27 => Some('Ч'),  // 030
        28 => Some('Ц'),  // 031
        30 => Some('Х'),  // 033
        31 => Some('Ф'),  // 034
        36 => Some('У'),  // 040
        37 => Some('Т'),  // 041
        39 => Some('С'),  // 043
        40 => Some('Р'),  // 044
        81 => Some('П'),  // 100
        82 => Some('О'),  // 101
        84 => Some('Н'),  // 103
        85 => Some('М'),  // 104
        90 => Some('Л'),  // 110
        91 => Some('К'),  // 111
        93 => Some('Й'),  // 113
        94 => Some('И'),  // 114
        108 => Some('З'),  // 130
        109 => Some('Ж'),  // 131
        111 => Some('Е'),  // 133
        112 => Some('Д'),  // 134
        117 => Some('Г'),  // 140
        118 => Some('В'),  // 141
        120 => Some('Б'),  // 143
        121 => Some('А'),  // 144
        255 => Some('*'),  // 313
        256 => Some('¯'),  // 314
        328 => Some('/'),  // 404
        333 => Some('-'),  // 410
        334 => Some('+'),  // 411
        336 => Some('9'),  // 413
        337 => Some('8'),  // 414
        351 => Some('7'),  // 430
        352 => Some('6'),  // 431
        354 => Some('5'),  // 433
        355 => Some('4'),  // 434
        360 => Some('3'),  // 440
        361 => Some('2'),  // 441
        363 => Some('1'),  // 443
        364 => Some('0'),  // 444
        _ => None,
    }
}

/// The control codes: the name of a non-printing code, if it has one.
pub open spec fn control_of(code: i16) -> Option<&'static str> {
    match code {
        270 => Some("Пропуск"),  // 330
        271 => Some("Нижний регистр"),  // 331
        273 => Some("Табулятор"),  // 333
        274 => Some("Верхний регистр"),  // 334
        279 => Some("Черный цвет"),  // 340
        280 => Some("Красный цвет"),  // 341
        282 => Some("Перевод строки"),  // 343
        283 => Some("Возврат каретки"),  // 344
        _ => None,
    }
}

/// Names of the non-printing control codes.
pub fn control_name(code: i16) -> (r: Option<&'static str>)
    ensures
        r == control_of(code),
{
    match code {
        270 => Some("Пропуск"),  // 330
        271 => Some("Нижний регистр"),  // 331
        273 => Some("Табулятор"),  // 333
        274 => Some("Верхний регистр"),  // 334
        279 => Some("Черный цвет"),  // 340
        280 => Some("Красный цвет"),  // 341
        282 => Some("Перевод строки"),  // 343
        283 => Some("Возврат каретки"),  // 344
        _ => None,
    }
}

/// The code `encode_char` gives a sign: the code whose sign it is, the digit
/// minus 333 for '-'.
pub open spec fn code_of(c: char, code: i16) -> bool {
    sign_of(code) == Some(c) && (c != '-' || code == 333)
}

/// Encodes a printable sign back to its code ('-' -> 333, the digit minus).
pub fn encode_char(c: char) -> (r: Option<i16>)
    ensures
        r matches Some(k) ==> code_of(c, k),
        r is None ==> forall|k: i16| #[trigger] sign_of(k) != Some(c),
{
    match c {
        ']' => Some(-364),
        ',' => Some(-363),
        '.' => Some(-361),
        '↑' => Some(-355),
        '(' => Some(-354),
        ')' => Some(-352),
        '×' => Some(-351),
        ';' => Some(-337),
        '[' => Some(-336),
        '⎵' => Some(-334),
        '=' => Some(-333),
        '>' => Some(-328),
        '_' => Some(-256),
        '|' => Some(-255),
        '%' => Some(-120),
        'W' => Some(-118),
        'G' => Some(-117),
        'D' => Some(-112),
        ':' => Some(-111),
        'V' => Some(-109),
        'Z' => Some(-108),
        'I' => Some(-94),
        'J' => Some(-93),
        '≤' => Some(-91),
        'L' => Some(-90),
        '≡' => Some(-85),
        'N' => Some(-84),
        '¬' => Some(-82),
        '⊃' => Some(-81),
        'R' => Some(-40),
        'S' => Some(-39),
        '∨' => Some(-37),
        'U' => Some(-36),
        'F' => Some(-31),
        '<' => Some(-30),
        '≠' => Some(-28),
        '÷' => Some(-27),
        '‘' => Some(-13),
        '‚' => Some(-12),
        '!' => Some(-10),
        '∧' => Some(-9),
        '≥' => Some(-4),
        '◊' => Some(-3),
        'Q' => Some(-1),
        'Я' => Some(1),
        'Ю' => Some(3),
        'Э' => Some(4),
        'Ь' => Some(9),
        'Ы' => Some(10),
        'Щ' => Some(12),
        'Ш' => Some(13),
        'Ч' => Some(27),
        'Ц' => Some(28),
        'Х' => Some(30),
        'Ф' => Some(31),
        'У' => Some(36),
        'Т' => Some(37),
        'С' => Some(39),
        'Р' => Some(40),
        'П' => Some(81),
        'О' => Some(82),
        'Н' => Some(84),
        'М' => Some(85),
        'Л' => Some(90),
        'К' => Some(91),
        'Й' => Some(93),
        'И' => Some(94),
        'З' => Some(108),
        'Ж' => Some(109),
        'Е' => Some(111),
        'Д' => Some(112),
        'Г' => Some(117),
        'В' => Some(118),
        'Б' => Some(120),
        'А' => Some(121),
        '*' => Some(255),
        '¯' => Some(256),
        '/' => Some(328),
        '-' => Some(333),
        '+' => Some(334),
        '9' => Some(336),
        '8' => Some(337),
        '7' => Some(351),
        '6' => Some(352),
        '5' => Some(354),
        '4' => Some(355),
        '3' => Some(360),
        '2' => Some(361),
        '1' => Some(363),
        '0' => Some(364),
        _ => None,
    }
}

/// True for control codes (non-printing but assigned).
pub fn is_control(code: i16) -> (r: bool)
    ensures
        r == (control_of(code) is Some),
{
    control_name(code).is_some()
}

/// The teletype alphabet: the signs, space as Пропуск (nonary 330 = 270)
/// and newline as Возврат каретки (nonary 344 = 283).
pub open spec fn teletype_code(c: char, code: i16) -> bool {
    if c == '\n' {
        code == 283
    } else if c == ' ' {
        code == 270
    } else {
        code_of(c, code)
    }
}

/// Teletype-level encoding: the signs plus space and newline. Everything
/// outside the alphabet (lowercase letters, signs not in the table) is not
/// representable; devices filter input through this function.
pub fn encode_teletype(c: char) -> (r: Option<i16>)
    ensures
        r matches Some(k) ==> teletype_code(c, k),
        r is None ==> c != '\n' && c != ' ' && forall|k: i16| #[trigger] sign_of(k) != Some(c),
{
    if c == '\n' {
        Some(283)
    } else if c == ' ' {
        Some(270)
    } else {
        encode_char(c)
    }
}

/// True if the character can be typed/printed on the teletype.
pub fn is_representable(c: char) -> (r: bool)
    ensures
        r == (c == '\n' || c == ' ' || exists|k: i16| #[trigger] sign_of(k) == Some(c)),
{
    encode_teletype(c).is_some()
}

/// Decoding the code of a character gives the character back.
pub proof fn law_decode_encoded(c: char, k: i16)
    requires
        teletype_code(c, k),
    ensures
        c != '\n' && c != ' ' ==> sign_of(k) == Some(c),
        c == '\n' ==> sign_of(k) is None && control_of(k) is Some,
        c == ' ' ==> sign_of(k) is None && control_of(k) is Some,
{
}

/// A character has one code: `encode_char` and `encode_teletype` give
/// the only code whose sign the character is (the digit minus for '-').
pub proof fn law_code_unique(c: char, k1: i16, k2: i16)
    requires
        code_of(c, k1),
        code_of(c, k2),
    ensures
        k1 == k2,
{
}


/// How many codes `k` with `lo <= k < hi` have a sign.
pub open spec fn signs_in(lo: int, hi: int) -> nat
    decreases hi - lo,
{
    if hi <= lo {
        0
    } else {
        signs_in(lo, hi - 1) + if sign_of((hi - 1) as i16) is Some {
            1nat
        } else {
            0nat
        }
    }
}

proof fn lemma_signs_split(lo: int, mid: int, hi: int)
    requires
        lo <= mid <= hi,
    ensures
        signs_in(lo, hi) == signs_in(lo, mid) + signs_in(mid, hi),
    decreases hi - mid,
{
    if hi > mid {
        lemma_signs_split(lo, mid, hi - 1);
    }
}

#[verifier::rlimit(40)]
proof fn lemma_signs_part0()
    ensures
        signs_in(-364, -283) == 12,
{
    reveal_with_fuel(signs_in, 82);
}

#[verifier::rlimit(40)]
proof fn lemma_signs_part1()
    ensures
        signs_in(-283, -202) == 2,
{
    reveal_with_fuel(signs_in, 82);
}

#[verifier::rlimit(40)]
proof fn lemma_signs_part2()
    ensures
        signs_in(-202, -121) == 0,
{
    reveal_with_fuel(signs_in, 82);
}

#[verifier::rlimit(40)]
proof fn lemma_signs_part3()
    ensures
        signs_in(-121, -40) == 16,
{
    reveal_with_fuel(signs_in, 82);
}

#[verifier::rlimit(40)]
proof fn lemma_signs_part4()
    ensures
        signs_in(-40, 41) == 30,
{
    reveal_with_fuel(signs_in, 82);
}

#[verifier::rlimit(40)]
proof fn lemma_signs_part5()
    ensures
        signs_in(41, 122) == 16,
{
    reveal_with_fuel(signs_in, 82);
}

#[verifier::rlimit(40)]
proof fn lemma_signs_part6()
    ensures
        signs_in(122, 203) == 0,
{
    reveal_with_fuel(signs_in, 82);
}

#[verifier::rlimit(40)]
proof fn lemma_signs_part7()
    ensures
        signs_in(203, 284) == 2,
{
    reveal_with_fuel(signs_in, 82);
}

#[verifier::rlimit(40)]
proof fn lemma_signs_part8()
    ensures
        signs_in(284, 365) == 13,
{
    reveal_with_fuel(signs_in, 82);
}

/// The sign table has 91 signs, all of them syllable codes (−364..=364).
pub proof fn law_sign_count()
    ensures
        signs_in(-364, 365) == 91,
        forall|k: i16| #[trigger] sign_of(k) is Some ==> -364 <= k <= 364,
{
    lemma_signs_part0();
    lemma_signs_part1();
    lemma_signs_part2();
    lemma_signs_part3();
    lemma_signs_part4();
    lemma_signs_part5();
    lemma_signs_part6();
    lemma_signs_part7();
    lemma_signs_part8();
    lemma_signs_split(-364, -283, -202);
    lemma_signs_split(-364, -202, -121);
    lemma_signs_split(-364, -121, -40);
    lemma_signs_split(-364, -40, 41);
    lemma_signs_split(-364, 41, 122);
    lemma_signs_split(-364, 122, 203);
    lemma_signs_split(-364, 203, 284);
    lemma_signs_split(-364, 284, 365);
}

/// The number whose ternary digits are the binary digits of `k` (all 0
/// or 1): 0b101 gives 1·9 + 0·3 + 1.
pub open spec fn binary_in_ternary(k: nat) -> int
    decreases k,
{
    if k == 0 {
        0
    } else {
        (k % 2) as int + 3 * binary_in_ternary(k / 2)
    }
}

/// Letter `i` (0..31) of the Russian alphabet as the table has it:
/// А Б В … Щ, then Ы Ь Э Ю Я (no Ъ, no Ё).
pub open spec fn cyrillic_letter(i: int) -> char {
    (0x410 + i + if i >= 26 { 1int } else { 0int }) as char
}

/// The letters run down the positive codes made of the digits 0 and 1:
/// letter `i` has the code whose five ternary digits spell 31 − i in
/// binary (А = 11111 = 121, Б = 11110 = 120, В = 11101 = 118, …, Я = 1).
pub proof fn law_cyrillic_codes(i: int)
    requires
        0 <= i < 31,
    ensures
        sign_of(binary_in_ternary((31 - i) as nat) as i16) == Some(cyrillic_letter(i)),
{
    reveal_with_fuel(binary_in_ternary, 6);
    if i == 0 {
        assert(binary_in_ternary(31) == 121);
    } else if i == 1 {
        assert(binary_in_ternary(30) == 120);
    } else if i == 2 {
        assert(binary_in_ternary(29) == 118);
    } else if i == 3 {
        assert(binary_in_ternary(28) == 117);
    } else if i == 4 {
        assert(binary_in_ternary(27) == 112);
    } else if i == 5 {
        assert(binary_in_ternary(26) == 111);
    } else if i == 6 {
        assert(binary_in_ternary(25) == 109);
    } else if i == 7 {
        assert(binary_in_ternary(24) == 108);
    } else if i == 8 {
        assert(binary_in_ternary(23) == 94);
    } else if i == 9 {
        assert(binary_in_ternary(22) == 93);
    } else if i == 10 {
        assert(binary_in_ternary(21) == 91);
    } else if i == 11 {
        assert(binary_in_ternary(20) == 90);
    } else if i == 12 {
        assert(binary_in_ternary(19) == 85);
    } else if i == 13 {
        assert(binary_in_ternary(18) == 84);
    } else if i == 14 {
        assert(binary_in_ternary(17) == 82);
    } else if i == 15 {
        assert(binary_in_ternary(16) == 81);
    } else if i == 16 {
        assert(binary_in_ternary(15) == 40);
    } else if i == 17 {
        assert(binary_in_ternary(14) == 39);
    } else if i == 18 {
        assert(binary_in_ternary(13) == 37);
    } else if i == 19 {
        assert(binary_in_ternary(12) == 36);
    } else if i == 20 {
        assert(binary_in_ternary(11) == 31);
    } else if i == 21 {
        assert(binary_in_ternary(10) == 30);
    } else if i == 22 {
        assert(binary_in_ternary(9) == 28);
    } else if i == 23 {
        assert(binary_in_ternary(8) == 27);
    } else if i == 24 {
        assert(binary_in_ternary(7) == 13);
    } else if i == 25 {
        assert(binary_in_ternary(6) == 12);
    } else if i == 26 {
        assert(binary_in_ternary(5) == 10);
    } else if i == 27 {
        assert(binary_in_ternary(4) == 9);
    } else if i == 28 {
        assert(binary_in_ternary(3) == 4);
    } else if i == 29 {
        assert(binary_in_ternary(2) == 3);
    } else {
        assert(binary_in_ternary(1) == 1);
    }
}

/// The digits run down the codes made of six digits 0 and 1 from the top:
/// digit `d` has the code whose six ternary digits spell 63 − d in binary
/// ('0' = 111111 = 364, '1' = 363, '2' = 361, …, '9' = 336).
pub proof fn law_digit_codes(d: int)
    requires
        0 <= d < 10,
    ensures
        sign_of(binary_in_ternary((63 - d) as nat) as i16) == Some(('0' as int + d) as char),
{
    reveal_with_fuel(binary_in_ternary, 7);
    if d == 0 {
        assert(binary_in_ternary(63) == 364);
    } else if d == 1 {
        assert(binary_in_ternary(62) == 363);
    } else if d == 2 {
        assert(binary_in_ternary(61) == 361);
    } else if d == 3 {
        assert(binary_in_ternary(60) == 360);
    } else if d == 4 {
        assert(binary_in_ternary(59) == 355);
    } else if d == 5 {
        assert(binary_in_ternary(58) == 354);
    } else if d == 6 {
        assert(binary_in_ternary(57) == 352);
    } else if d == 7 {
        assert(binary_in_ternary(56) == 351);
    } else if d == 8 {
        assert(binary_in_ternary(55) == 337);
    } else {
        assert(binary_in_ternary(54) == 336);
    }
}

} // verus!

