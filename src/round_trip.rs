use vstd::prelude::*;
use vstd::utf8::{encode_utf8, is_ascii_chars, is_ascii_chars_concat, is_ascii_chars_encode_utf8};

use crate::formatter::{
    comma, decimal_text, digit_char, format_text, fraction_text, hex_text, hundredths, rgb_open,
    rgba_open,
};
use crate::parser::{
    channels_fit, color_of, decimal_value, first_dot, hex_color, hex_digit_value, hex_pair_at,
    is_dec_digit, is_hex_digit, is_space, parse_spec, pow10, run_end, spaces_end, token_at,
    token_byte, tuple_start, tuple_values, valid_float, ParseError, StandardColor,
};
use crate::TargetFormats;

verus! {

/// The bytes of a text of ASCII characters.
pub open spec fn ascii_bytes(t: Seq<char>) -> Seq<u8> {
    t.map_values(|c: char| c as u8)
}

proof fn lemma_ascii_encoding(t: Seq<char>)
    requires
        is_ascii_chars(t),
    ensures
        encode_utf8(t) == ascii_bytes(t),
{
    is_ascii_chars_encode_utf8(t);
    assert(encode_utf8(t) =~= ascii_bytes(t));
}

proof fn lemma_digit(d: nat)
    requires
        d < 16,
    ensures
        '\0' <= digit_char(d) <= '\u{7f}',
        is_hex_digit(digit_char(d) as u8),
        hex_digit_value(digit_char(d) as u8) == d,
        d < 10 ==> is_dec_digit(digit_char(d) as u8) && (digit_char(d) as u8) - 48 == d,
        d >= 10 ==> 65 <= (digit_char(d) as u8) <= 70,
{
}


proof fn lemma_hex_text(n: u8)
    ensures
        hex_text(n).len() == 2,
        is_ascii_chars(hex_text(n)),
        is_hex_digit(hex_text(n)[0] as u8),
        is_hex_digit(hex_text(n)[1] as u8),
        hex_digit_value(hex_text(n)[0] as u8) * 16 + hex_digit_value(hex_text(n)[1] as u8) == n,
{
    lemma_digit(n as nat / 16);
    lemma_digit(n as nat % 16);
}

proof fn lemma_hex_color_of_text(c: StandardColor, four: bool)
    ensures
        hex_color(
            encode_utf8(format_text(if four { TargetFormats::Hexrgba } else { TargetFormats::Hexrgb }, c)),
        ) == Some(StandardColor { alpha: if four { c.alpha } else { 255 }, ..c }),
{
    let t = format_text(if four { TargetFormats::Hexrgba } else { TargetFormats::Hexrgb }, c);
    lemma_hex_text(c.red);
    lemma_hex_text(c.green);
    lemma_hex_text(c.blue);
    lemma_hex_text(c.alpha);
    assert(t.len() == if four { 9int } else { 7int });
    assert(is_ascii_chars(t)) by {
        assert forall|i: int| 0 <= i < t.len() implies '\0' <= #[trigger] t[i] <= '\u{7f}' by {
            if i >= 1 && i < 3 {
                assert(t[i] == hex_text(c.red)[i - 1]);
            } else if i >= 3 && i < 5 {
                assert(t[i] == hex_text(c.green)[i - 3]);
            } else if i >= 5 && i < 7 {
                assert(t[i] == hex_text(c.blue)[i - 5]);
            } else if i >= 7 {
                assert(t[i] == hex_text(c.alpha)[i - 7]);
            }
        }
    }
    lemma_ascii_encoding(t);
    let s = encode_utf8(t);
    assert(s[0] == 35);
    assert(s[1] == hex_text(c.red)[0] as u8 && s[2] == hex_text(c.red)[1] as u8);
    assert(s[3] == hex_text(c.green)[0] as u8 && s[4] == hex_text(c.green)[1] as u8);
    assert(s[5] == hex_text(c.blue)[0] as u8 && s[6] == hex_text(c.blue)[1] as u8);
    if four {
        assert(s[7] == hex_text(c.alpha)[0] as u8 && s[8] == hex_text(c.alpha)[1] as u8);
        assert(hex_pair_at(s, 7));
    } else {
        assert(!hex_pair_at(s, 7));
    }
}

/// Writing a color as `#RRGGBBAA` and parsing the text gives the color back.
pub proof fn lemma_hex_round_trip(c: StandardColor)
    ensures
        parse_spec(encode_utf8(format_text(TargetFormats::Hexrgba, c))) == Ok::<
            StandardColor,
            ParseError,
        >(c),
{
    lemma_hex_color_of_text(c, true);
}


proof fn lemma_spaces_end(s: Seq<u8>, i: int, j: int)
    requires
        0 <= i <= j <= s.len(),
        forall|m: int| i <= m < j ==> is_space(#[trigger] s[m]),
        j < s.len() ==> !is_space(s[j]),
    ensures
        spaces_end(s, i) == j,
    decreases j - i,
{
    if i < j {
        lemma_spaces_end(s, i + 1, j);
    }
}

proof fn lemma_run_end(s: Seq<u8>, i: int, j: int, max: nat, float: bool)
    requires
        0 <= i <= j <= s.len(),
        j - i <= max,
        forall|m: int| i <= m < j ==> token_byte(#[trigger] s[m], float),
        j < s.len() && j - i < max ==> !token_byte(s[j], float),
    ensures
        run_end(s, i, max, float) == j,
    decreases j - i,
{
    if i < j {
        lemma_run_end(s, i + 1, j, (max - 1) as nat, float);
    }
}

proof fn lemma_decimal_text(n: nat, s: Seq<u8>, i: int)
    requires
        0 <= i,
        i + decimal_text(n).len() <= s.len(),
        s.subrange(i, i + decimal_text(n).len()) == ascii_bytes(decimal_text(n)),
    ensures
        decimal_value(s, i, i + decimal_text(n).len()) == n,
        1 <= decimal_text(n).len(),
        n < 10 ==> decimal_text(n).len() == 1,
        n < 100 ==> decimal_text(n).len() <= 2,
        n < 1000 ==> decimal_text(n).len() <= 3,
        forall|k: int| i <= k < i + decimal_text(n).len() ==> is_dec_digit(#[trigger] s[k]),
    decreases n,
{
    let t = decimal_text(n);
    let l = t.len() as int;
    if n < 10 {
        lemma_digit(n);
        assert(s[i] == s.subrange(i, i + l)[0]);
        assert(decimal_value(s, i, i) == 0);
    } else {
        let u = decimal_text(n / 10);
        lemma_digit(n % 10);
        assert(s.subrange(i, i + u.len()) =~= s.subrange(i, i + l).subrange(0, u.len() as int));
        assert(ascii_bytes(u) =~= ascii_bytes(t).subrange(0, u.len() as int));
        lemma_decimal_text(n / 10, s, i);
        assert(s[i + l - 1] == s.subrange(i, i + l)[l - 1]);
        assert forall|k: int| i <= k < i + l implies is_dec_digit(#[trigger] s[k]) by {
            if k < i + l - 1 {
            } else {
                assert(s[k] == s.subrange(i, i + l)[l - 1]);
            }
        }
    }
}

proof fn lemma_decimal_text_ascii(n: nat)
    ensures
        is_ascii_chars(decimal_text(n)),
    decreases n,
{
    lemma_digit(n % 10);
    if n >= 10 {
        lemma_decimal_text_ascii(n / 10);
        broadcast use is_ascii_chars_concat;

        assert(decimal_text(n) =~= decimal_text(n / 10) + seq![digit_char(n % 10)]);
    } else {
        lemma_digit(n);
    }
}

/// A decimal token at `j`, after the spaces `s[i..j]`, ended by `,` or `)`.
proof fn lemma_int_token(s: Seq<u8>, i: int, j: int, n: u8)
    requires
        0 <= i <= j,
        forall|m: int| i <= m < j ==> is_space(#[trigger] s[m]),
        j + decimal_text(n as nat).len() < s.len(),
        s.subrange(j, j + decimal_text(n as nat).len()) == ascii_bytes(decimal_text(n as nat)),
        s[j + decimal_text(n as nat).len()] == 44 || s[j + decimal_text(n as nat).len()] == 41,
    ensures
        token_at(s, i, false) == Some(
            (
                n as int,
                if s[j + decimal_text(n as nat).len()] == 44 {
                    j + decimal_text(n as nat).len() + 1
                } else {
                    j + decimal_text(n as nat).len()
                },
            ),
        ),
{
    reveal(token_at);
    let e = j + decimal_text(n as nat).len();
    lemma_decimal_text(n as nat, s, j);
    assert(!is_space(s[j]));
    lemma_spaces_end(s, i, j);
    lemma_run_end(s, j, e, 3, false);
    lemma_spaces_end(s, e, e);
}

/// No token starts at `i` where `s[i]` is `)`.
proof fn lemma_no_token(s: Seq<u8>, i: int, float: bool)
    requires
        0 <= i < s.len(),
        s[i] == 41,
    ensures
        token_at(s, i, float) is None,
{
    reveal(token_at);
    lemma_spaces_end(s, i, i);
    lemma_run_end(s, i, i, if float { 50nat } else { 3nat }, float);
}

/// Writing a color as `rgb(r, g, b)` or as `#RRGGBB` and parsing the text gives its
/// red, green and blue back, with alpha 255.
pub proof fn lemma_three_channels_opaque(c: StandardColor)
    ensures
        parse_spec(encode_utf8(format_text(TargetFormats::Intrgb, c))) == Ok::<
            StandardColor,
            ParseError,
        >(StandardColor { alpha: 255, ..c }),
        parse_spec(encode_utf8(format_text(TargetFormats::Hexrgb, c))) == Ok::<
            StandardColor,
            ParseError,
        >(StandardColor { alpha: 255, ..c }),
{
    lemma_hex_color_of_text(c, false);
    let d1 = decimal_text(c.red as nat);
    let d2 = decimal_text(c.green as nat);
    let d3 = decimal_text(c.blue as nat);
    let t = format_text(TargetFormats::Intrgb, c);
    assert(t == rgb_open() + d1 + comma() + d2 + comma() + d3 + seq![')']);
    lemma_decimal_text_ascii(c.red as nat);
    lemma_decimal_text_ascii(c.green as nat);
    lemma_decimal_text_ascii(c.blue as nat);
    assert(is_ascii_chars(t)) by {
        broadcast use is_ascii_chars_concat;

        assert(is_ascii_chars(rgb_open()));
        assert(is_ascii_chars(comma()));
        assert(is_ascii_chars(seq![')']));
    }
    lemma_ascii_encoding(t);
    let s = encode_utf8(t);
    let l1 = d1.len() as int;
    let l2 = d2.len() as int;
    let l3 = d3.len() as int;
    let j1: int = 4;
    let j2 = j1 + l1 + 2;
    let j3 = j2 + l2 + 2;
    let close = j3 + l3;
    assert(s.len() == close + 1);
    assert(s[0] == 114 && s[1] == 103 && s[2] == 98 && s[3] == 40);
    assert(tuple_start(s) == Some(4int));
    assert(s.subrange(j1, j1 + l1) =~= ascii_bytes(d1));
    assert(s.subrange(j2, j2 + l2) =~= ascii_bytes(d2));
    assert(s.subrange(j3, j3 + l3) =~= ascii_bytes(d3));
    assert(s[j1 + l1] == 44 && s[j1 + l1 + 1] == 32);
    assert(s[j2 + l2] == 44 && s[j2 + l2 + 1] == 32);
    assert(s[close] == 41);
    lemma_int_token(s, j1, j1, c.red);
    lemma_int_token(s, j1 + l1 + 1, j2, c.green);
    lemma_int_token(s, j2 + l2 + 1, j3, c.blue);
    lemma_no_token(s, close, false);
    let v = seq![c.red as int, c.green as int, c.blue as int];
    assert(tuple_values(s, false) == Some(v));
    assert(channels_fit(v));
    assert(color_of(v) == StandardColor { alpha: 255, ..c });
    assert(hex_color(s) is None);
}


/// Two bytes that differ by at most one.
pub open spec fn within_one(x: u8, y: u8) -> bool {
    -1 <= x - y <= 1
}

proof fn lemma_fraction_text(n: u8)
    ensures
        fraction_text(n).len() == 4,
        is_ascii_chars(fraction_text(n)),
        hundredths(n) <= 100,
        is_dec_digit(fraction_text(n)[0] as u8),
        fraction_text(n)[0] as u8 - 48 == hundredths(n) / 100,
        fraction_text(n)[1] as u8 == 46,
        is_dec_digit(fraction_text(n)[2] as u8),
        is_dec_digit(fraction_text(n)[3] as u8),
        (fraction_text(n)[2] as u8 - 48) * 10 + (fraction_text(n)[3] as u8 - 48) == hundredths(n)
            % 100,
{
    let h = hundredths(n);
    lemma_digit(h / 100);
    lemma_digit((h / 10) % 10);
    lemma_digit(h % 10);
}

/// Where the byte `n` reads back from its two-decimal fraction, the result is within one of `n`.
proof fn lemma_fraction_value(n: u8)
    ensures
        ({
            let h = hundredths(n);
            let v: int = if h / 100 > 0 { 255 } else { ((510 * (h % 100) + 100) / 200) as int };
            0 <= v <= 255 && -1 <= v - n <= 1
        }),
{
}

/// A fraction token `d.dd` at `j`, after the spaces `s[i..j]`, ended by `,` or `)`:
/// read as a float it is within one of `n`; read as an integer it stops at the dot.
proof fn lemma_fraction_token(s: Seq<u8>, i: int, j: int, n: u8)
    requires
        0 <= i <= j,
        forall|m: int| i <= m < j ==> is_space(#[trigger] s[m]),
        j + 4 < s.len(),
        s.subrange(j, j + 4) == ascii_bytes(fraction_text(n)),
        s[j + 4] == 44 || s[j + 4] == 41,
    ensures
        match token_at(s, i, true) {
            Some((v, next)) => 0 <= v <= 255 && -1 <= v - n <= 1 && next == if s[j + 4] == 44 {
                j + 5
            } else {
                j + 4
            },
            None => false,
        },
        match token_at(s, i, false) {
            Some((_, next)) => next == j + 1,
            None => false,
        },
        token_at(s, j + 1, false) is None,
{
    reveal(token_at);
    lemma_fraction_text(n);
    lemma_fraction_value(n);
    let t = fraction_text(n);
    assert(s[j] == s.subrange(j, j + 4)[0]);
    assert(s[j + 1] == s.subrange(j, j + 4)[1]);
    assert(s[j + 2] == s.subrange(j, j + 4)[2]);
    assert(s[j + 3] == s.subrange(j, j + 4)[3]);
    assert(s[j] == t[0] as u8 && s[j + 1] == t[1] as u8);
    assert(s[j + 2] == t[2] as u8 && s[j + 3] == t[3] as u8);
    lemma_spaces_end(s, i, j);
    lemma_run_end(s, j, j + 4, 50, true);
    lemma_run_end(s, j, j + 1, 3, false);
    lemma_run_end(s, j + 1, j + 1, 3, false);
    lemma_spaces_end(s, j + 1, j + 1);
    lemma_spaces_end(s, j + 4, j + 4);
    assert(s[j] != 46);
    assert(first_dot(s, j + 1, j + 4) == j + 1);
    assert(first_dot(s, j, j + 4) == j + 1);
    assert(first_dot(s, j + 2, j + 4) == j + 4) by {
        assert(first_dot(s, j + 4, j + 4) == j + 4);
        assert(first_dot(s, j + 3, j + 4) == j + 4);
    }
    assert(valid_float(s, j, j + 4));
    assert(decimal_value(s, j, j) == 0);
    assert(decimal_value(s, j, j + 1) == hundredths(n) / 100);
    assert(decimal_value(s, j + 2, j + 2) == 0);
    assert(decimal_value(s, j + 2, j + 3) == s[j + 2] - 48);
    assert(decimal_value(s, j + 2, j + 4) == hundredths(n) % 100);
    assert(pow10(2) == 100) by {
        assert(pow10(0) == 1);
        assert(pow10(1) == 10);
    }
}

/// The bytes of `rgba(r, g, b, a)` written with fractions: where each channel and
/// each separator stands.
proof fn lemma_float_text_layout(c: StandardColor)
    ensures
        ({
            let s = encode_utf8(format_text(TargetFormats::Floatrgba, c));
            &&& s.len() == 28
            &&& s[0] == 114 && s[1] == 103 && s[2] == 98 && s[3] == 97 && s[4] == 40
            &&& s.subrange(5, 9) == ascii_bytes(fraction_text(c.red))
            &&& s.subrange(11, 15) == ascii_bytes(fraction_text(c.green))
            &&& s.subrange(17, 21) == ascii_bytes(fraction_text(c.blue))
            &&& s.subrange(23, 27) == ascii_bytes(fraction_text(c.alpha))
            &&& s[9] == 44 && s[10] == 32 && s[15] == 44 && s[16] == 32
            &&& s[21] == 44 && s[22] == 32 && s[27] == 41
        }),
{
    let f1 = fraction_text(c.red);
    let f2 = fraction_text(c.green);
    let f3 = fraction_text(c.blue);
    let f4 = fraction_text(c.alpha);
    lemma_fraction_text(c.red);
    lemma_fraction_text(c.green);
    lemma_fraction_text(c.blue);
    lemma_fraction_text(c.alpha);
    let t = format_text(TargetFormats::Floatrgba, c);
    assert(t == rgba_open() + f1 + comma() + f2 + comma() + f3 + comma() + f4 + seq![')']);
    assert(is_ascii_chars(t)) by {
        broadcast use is_ascii_chars_concat;

        assert(is_ascii_chars(rgba_open()));
        assert(is_ascii_chars(comma()));
        assert(is_ascii_chars(seq![')']));
    }
    lemma_ascii_encoding(t);
    let s = encode_utf8(t);
    assert(s.subrange(5, 9) =~= ascii_bytes(f1));
    assert(s.subrange(11, 15) =~= ascii_bytes(f2));
    assert(s.subrange(17, 21) =~= ascii_bytes(f3));
    assert(s.subrange(23, 27) =~= ascii_bytes(f4));
}

proof fn lemma_four_tokens(s: Seq<u8>, float: bool, p0: int, t0: (int, int), t1: (int, int), t2: (int, int), t3: (int, int))
    requires
        tuple_start(s) == Some(p0),
        token_at(s, p0, float) == Some(t0),
        token_at(s, t0.1, float) == Some(t1),
        token_at(s, t1.1, float) == Some(t2),
        token_at(s, t2.1, float) == Some(t3),
        0 <= t3.1 < s.len(),
        s[t3.1] == 41,
    ensures
        tuple_values(s, float) == Some(seq![t0.0, t1.0, t2.0, t3.0]),
{
}

proof fn lemma_second_token_missing(s: Seq<u8>, float: bool, p0: int, t0: (int, int))
    requires
        tuple_start(s) == Some(p0),
        token_at(s, p0, float) == Some(t0),
        token_at(s, t0.1, float) is None,
    ensures
        tuple_values(s, float) is None,
{
}

/// Writing a color as `rgba(r, g, b, a)` with fractions of two digits and parsing the
/// text gives back each channel within one.
pub proof fn lemma_float_round_trip_close(c: StandardColor)
    ensures
        parse_spec(encode_utf8(format_text(TargetFormats::Floatrgba, c))) is Ok,
        ({
            let d = parse_spec(encode_utf8(format_text(TargetFormats::Floatrgba, c)))->Ok_0;
            within_one(d.red, c.red) && within_one(d.green, c.green) && within_one(d.blue, c.blue)
                && within_one(d.alpha, c.alpha)
        }),
{
    lemma_float_text_layout(c);
    let s = encode_utf8(format_text(TargetFormats::Floatrgba, c));
    assert(tuple_start(s) == Some(5int));
    lemma_fraction_token(s, 5, 5, c.red);
    lemma_fraction_token(s, 10, 11, c.green);
    lemma_fraction_token(s, 16, 17, c.blue);
    lemma_fraction_token(s, 22, 23, c.alpha);
    let t0 = token_at(s, 5, true)->0;
    let t1 = token_at(s, 10, true)->0;
    let t2 = token_at(s, 16, true)->0;
    let t3 = token_at(s, 22, true)->0;
    lemma_second_token_missing(s, false, 5, token_at(s, 5, false)->0);
    lemma_four_tokens(s, true, 5, t0, t1, t2, t3);
    assert(hex_color(s) is None);
}

} // verus!
