use vstd::prelude::*;
use vstd::string::StringExecFns;

use crate::parser::StandardColor;
use crate::TargetFormats;

verus! {

/// The character of a digit up to 15, in upper case from 10 on.
pub open spec fn digit_char(d: nat) -> char {
    if d < 10 {
        ((d + 48) as u8) as char
    } else {
        ((d + 55) as u8) as char
    }
}

/// `n` in decimal, without leading zeros.
pub open spec fn decimal_text(n: nat) -> Seq<char>
    decreases n,
{
    if n < 10 {
        seq![digit_char(n)]
    } else {
        decimal_text(n / 10).push(digit_char(n % 10))
    }
}

/// A byte as two upper-case hex digits.
pub open spec fn hex_text(n: u8) -> Seq<char> {
    seq![digit_char(n as nat / 16), digit_char(n as nat % 16)]
}

/// `n / 255` in hundredths, rounded to the nearest (no byte lies halfway).
pub open spec fn hundredths(n: u8) -> nat {
    (200 * n as nat + 255) / 510
}

/// `n / 255` with two fraction digits, such as `0.50`.
pub open spec fn fraction_text(n: u8) -> Seq<char> {
    let h = hundredths(n);
    seq![digit_char(h / 100), '.', digit_char((h / 10) % 10), digit_char(h % 10)]
}

pub open spec fn comma() -> Seq<char> {
    seq![',', ' ']
}

pub open spec fn rgb_open() -> Seq<char> {
    seq!['r', 'g', 'b', '(']
}

pub open spec fn rgba_open() -> Seq<char> {
    seq!['r', 'g', 'b', 'a', '(']
}

/// `rgb(r, g, b)`, or `rgba(r, g, b, a)` where `four` holds, from the channels' texts.
pub open spec fn tuple_text(
    four: bool,
    r: Seq<char>,
    g: Seq<char>,
    b: Seq<char>,
    a: Seq<char>,
) -> Seq<char> {
    if four {
        rgba_open() + r + comma() + g + comma() + b + comma() + a + seq![')']
    } else {
        rgb_open() + r + comma() + g + comma() + b + seq![')']
    }
}

pub open spec fn format_text(target: TargetFormats, c: StandardColor) -> Seq<char> {
    match target {
        TargetFormats::Intrgb => tuple_text(
            false,
            decimal_text(c.red as nat),
            decimal_text(c.green as nat),
            decimal_text(c.blue as nat),
            seq![],
        ),
        TargetFormats::Intrgba => tuple_text(
            true,
            decimal_text(c.red as nat),
            decimal_text(c.green as nat),
            decimal_text(c.blue as nat),
            decimal_text(c.alpha as nat),
        ),
        TargetFormats::Floatrgb => tuple_text(
            false,
            fraction_text(c.red),
            fraction_text(c.green),
            fraction_text(c.blue),
            seq![],
        ),
        TargetFormats::Floatrgba => tuple_text(
            true,
            fraction_text(c.red),
            fraction_text(c.green),
            fraction_text(c.blue),
            fraction_text(c.alpha),
        ),
        TargetFormats::Hexrgb => seq!['#'] + hex_text(c.red) + hex_text(c.green) + hex_text(
            c.blue,
        ),
        TargetFormats::Hexrgba => seq!['#'] + hex_text(c.red) + hex_text(c.green) + hex_text(c.blue)
            + hex_text(c.alpha),
    }
}

fn push_digit(out: &mut String, d: u8)
    requires
        d < 16,
    ensures
        final(out)@ == old(out)@.push(digit_char(d as nat)),
{
    let piece = match d {
        0 => { proof { reveal_strlit("0"); } "0" },
        1 => { proof { reveal_strlit("1"); } "1" },
        2 => { proof { reveal_strlit("2"); } "2" },
        3 => { proof { reveal_strlit("3"); } "3" },
        4 => { proof { reveal_strlit("4"); } "4" },
        5 => { proof { reveal_strlit("5"); } "5" },
        6 => { proof { reveal_strlit("6"); } "6" },
        7 => { proof { reveal_strlit("7"); } "7" },
        8 => { proof { reveal_strlit("8"); } "8" },
        9 => { proof { reveal_strlit("9"); } "9" },
        10 => { proof { reveal_strlit("A"); } "A" },
        11 => { proof { reveal_strlit("B"); } "B" },
        12 => { proof { reveal_strlit("C"); } "C" },
        13 => { proof { reveal_strlit("D"); } "D" },
        14 => { proof { reveal_strlit("E"); } "E" },
        _ => { proof { reveal_strlit("F"); } "F" },
    };
    assert(piece@ =~= seq![digit_char(d as nat)]);
    out.append(piece);
}


fn push_decimal(out: &mut String, n: u8)
    ensures
        final(out)@ == old(out)@ + decimal_text(n as nat),
{
    if n >= 100 {
        push_digit(out, n / 100);
    }
    if n >= 10 {
        push_digit(out, (n / 10) % 10);
    }
    push_digit(out, n % 10);
    proof {
        let n = n as nat;
        if n >= 100 {
            assert(decimal_text(n / 100) == seq![digit_char(n / 100)]);
            assert(decimal_text(n / 10) == decimal_text(n / 100).push(digit_char((n / 10) % 10)));
        } else if n >= 10 {
            assert(decimal_text(n / 10) == seq![digit_char(n / 10)]);
        }
    }
    assert(final(out)@ =~= old(out)@ + decimal_text(n as nat));
}

fn push_hex(out: &mut String, n: u8)
    ensures
        final(out)@ == old(out)@ + hex_text(n),
{
    push_digit(out, n / 16);
    push_digit(out, n % 16);
    assert(final(out)@ =~= old(out)@ + hex_text(n));
}

fn push_fraction(out: &mut String, n: u8)
    ensures
        final(out)@ == old(out)@ + fraction_text(n),
{
    let h: u32 = (200 * n as u32 + 255) / 510;
    assert(h <= 100);
    push_digit(out, (h / 100) as u8);
    proof {
        reveal_strlit(".");
    }
    out.append(".");
    push_digit(out, ((h / 10) % 10) as u8);
    push_digit(out, (h % 10) as u8);
    assert(final(out)@ =~= old(out)@ + fraction_text(n));
}

/// How a channel is written: in decimal, as a fraction of 255, or in hex.
#[derive(Clone, Copy, PartialEq, Eq, Structural)]
enum Rendering {
    Decimal,
    Fraction,
    Hex,
}

fn push_channel(out: &mut String, n: u8, how: Rendering)
    ensures
        final(out)@ == old(out)@ + channel_text(n, how),
{
    match how {
        Rendering::Decimal => push_decimal(out, n),
        Rendering::Fraction => push_fraction(out, n),
        Rendering::Hex => push_hex(out, n),
    }
}

spec fn channel_text(n: u8, how: Rendering) -> Seq<char> {
    match how {
        Rendering::Decimal => decimal_text(n as nat),
        Rendering::Fraction => fraction_text(n),
        Rendering::Hex => hex_text(n),
    }
}

/// `rgb(..)` or `rgba(..)` with the channels rendered as `how` says.
fn format_tuple(color: &StandardColor, four: bool, how: Rendering) -> (r: String)
    ensures
        r@ == tuple_text(
            four,
            channel_text(color.red, how),
            channel_text(color.green, how),
            channel_text(color.blue, how),
            if four { channel_text(color.alpha, how) } else { seq![] },
        ),
{
    proof {
        reveal_strlit("rgb(");
        reveal_strlit("rgba(");
        reveal_strlit(", ");
        reveal_strlit(")");
    }
    let mut out = String::new();
    if four {
        out.append("rgba(");
    } else {
        out.append("rgb(");
    }
    push_channel(&mut out, color.red, how);
    out.append(", ");
    push_channel(&mut out, color.green, how);
    out.append(", ");
    push_channel(&mut out, color.blue, how);
    if four {
        out.append(", ");
        push_channel(&mut out, color.alpha, how);
    }
    out.append(")");
    assert(out@ =~= tuple_text(
        four,
        channel_text(color.red, how),
        channel_text(color.green, how),
        channel_text(color.blue, how),
        if four { channel_text(color.alpha, how) } else { seq![] },
    ));
    out
}

/// `#RRGGBB` or `#RRGGBBAA`.
fn format_hex(color: &StandardColor, four: bool) -> (r: String)
    ensures
        r@ == seq!['#'] + hex_text(color.red) + hex_text(color.green) + hex_text(color.blue) + if four {
            hex_text(color.alpha)
        } else {
            seq![]
        },
{
    proof {
        reveal_strlit("#");
    }
    let mut out = String::new();
    out.append("#");
    push_hex(&mut out, color.red);
    push_hex(&mut out, color.green);
    push_hex(&mut out, color.blue);
    if four {
        push_hex(&mut out, color.alpha);
    }
    assert(out@ =~= seq!['#'] + hex_text(color.red) + hex_text(color.green) + hex_text(color.blue) + if four {
        hex_text(color.alpha)
    } else {
        seq![]
    });
    out
}

/// Writes `color` in the notation `target_format` names.
pub fn format_color(target_format: &TargetFormats, color: &StandardColor) -> (r: String)
    ensures
        r@ == format_text(*target_format, *color),
{
    let r = match target_format {
        TargetFormats::Intrgb => format_tuple(color, false, Rendering::Decimal),
        TargetFormats::Intrgba => format_tuple(color, true, Rendering::Decimal),
        TargetFormats::Floatrgb => format_tuple(color, false, Rendering::Fraction),
        TargetFormats::Floatrgba => format_tuple(color, true, Rendering::Fraction),
        TargetFormats::Hexrgb => format_hex(color, false),
        TargetFormats::Hexrgba => format_hex(color, true),
    };
    assert(r@ =~= format_text(*target_format, *color));
    r
}

} // verus!
