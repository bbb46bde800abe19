use colorconv::formatter::format_color;
use colorconv::parser::{parse_color, ParseError, StandardColor};
use colorconv::TargetFormats;

fn rgba(r: u8, g: u8, b: u8, a: u8) -> StandardColor {
    StandardColor::new(r, g, b, a)
}

#[test]
fn new_sets_all_channels() {
    let c = StandardColor::new(1, 2, 3, 4);
    assert_eq!(c.red, 1);
    assert_eq!(c.green, 2);
    assert_eq!(c.blue, 3);
    assert_eq!(c.alpha, 4);
}

#[test]
fn hex_red_parses_and_formats() {
    let c = parse_color("#FF0000").unwrap();
    assert_eq!(c, rgba(255, 0, 0, 255));
    assert_eq!(format_color(&TargetFormats::Hexrgb, &c), "#FF0000");
}

#[test]
fn hex_with_alpha_and_lower_case() {
    assert_eq!(parse_color("#0a1B2c80").unwrap(), rgba(10, 27, 44, 128));
}

#[test]
fn hex_keeps_only_the_matching_prefix() {
    assert_eq!(parse_color("#1234567").unwrap(), rgba(0x12, 0x34, 0x56, 255));
    assert_eq!(parse_color("#123456zz").unwrap(), rgba(0x12, 0x34, 0x56, 255));
}

#[test]
fn int_rgba_parses_and_formats() {
    let c = parse_color("rgba(0, 128, 255, 128)").unwrap();
    assert_eq!(c, rgba(0, 128, 255, 128));
    assert_eq!(format_color(&TargetFormats::Intrgba, &c), "rgba(0, 128, 255, 128)");
}

#[test]
fn float_rgb_parses_and_formats() {
    let c = parse_color("rgb(1.0, 0.5, 0.0)").unwrap();
    assert_eq!(c, rgba(255, 128, 0, 255));
    assert_eq!(format_color(&TargetFormats::Floatrgb, &c), "rgb(1.00, 0.50, 0.00)");
}

#[test]
fn three_int_channels_default_alpha() {
    assert_eq!(parse_color("rgb(7, 8, 9)").unwrap().alpha, 255);
    assert_eq!(parse_color("#070809").unwrap().alpha, 255);
}

#[test]
fn whitespace_is_tolerated() {
    assert_eq!(parse_color("rgb( 10 , 20,30 )").unwrap(), parse_color("rgb(10,20,30)").unwrap());
    assert_eq!(parse_color("rgb(\t10\r\n,20 ,30)").unwrap(), rgba(10, 20, 30, 255));
}

#[test]
fn trailing_comma_is_tolerated() {
    assert_eq!(parse_color("rgb(10,20,30,)").unwrap(), rgba(10, 20, 30, 255));
}

#[test]
fn integers_win_over_floats() {
    assert_eq!(parse_color("rgb(1,0,0)").unwrap(), rgba(1, 0, 0, 255));
}

#[test]
fn prefix_is_optional_and_not_checked_against_arity() {
    assert_eq!(parse_color("(1,2,3)").unwrap(), rgba(1, 2, 3, 255));
    assert_eq!(parse_color("rgba(1,2,3)").unwrap(), rgba(1, 2, 3, 255));
    assert_eq!(parse_color("rgb(1,2,3,4)").unwrap(), rgba(1, 2, 3, 4));
}

#[test]
fn malformed_inputs_fail() {
    for input in ["", "#ABC", "rgb(256,0,0)", "rgb(1,2", "rgb(1,2,3, )", "rgbx(1,2,3)", "#12345g"] {
        assert_eq!(parse_color(input), Err(ParseError::Malformed), "{input:?}");
    }
}

#[test]
fn out_of_range_fourth_channel_fails() {
    assert_eq!(parse_color("rgb(1,2,3,300)"), Err(ParseError::Malformed));
}

#[test]
fn float_channels_round_half_up() {
    assert_eq!(parse_color("rgb(0.1, 0.3, .5)").unwrap(), rgba(26, 77, 128, 255));
    assert_eq!(parse_color("rgba(0.25, 0.999, 0., 0.002)").unwrap(), rgba(64, 255, 0, 1));
}

#[test]
fn float_channels_from_one_on_are_full() {
    assert_eq!(parse_color("rgb(2.0, 1.5, 0.0)").unwrap(), rgba(255, 255, 0, 255));
}

#[test]
fn float_tuple_without_alpha_is_opaque() {
    assert_eq!(parse_color("rgb(0.0, 0.0, 0.5)").unwrap().alpha, 255);
}

#[test]
fn bad_float_tokens_fail() {
    for input in ["rgb(1.2.3, 0.0, 0.0)", "rgb(., 0.0, 0.0)", "rgb(0.5, 0.5, 0.5, .)"] {
        assert_eq!(parse_color(input), Err(ParseError::Malformed), "{input:?}");
    }
}

#[test]
fn every_format_renders() {
    let c = rgba(0, 128, 255, 51);
    assert_eq!(format_color(&TargetFormats::Intrgb, &c), "rgb(0, 128, 255)");
    assert_eq!(format_color(&TargetFormats::Intrgba, &c), "rgba(0, 128, 255, 51)");
    assert_eq!(format_color(&TargetFormats::Floatrgb, &c), "rgb(0.00, 0.50, 1.00)");
    assert_eq!(format_color(&TargetFormats::Floatrgba, &c), "rgba(0.00, 0.50, 1.00, 0.20)");
    assert_eq!(format_color(&TargetFormats::Hexrgb, &c), "#0080FF");
    assert_eq!(format_color(&TargetFormats::Hexrgba, &c), "#0080FF33");
}

#[test]
fn float_format_matches_two_decimal_rounding() {
    for n in 0..=255u8 {
        let text = format_color(&TargetFormats::Floatrgb, &rgba(n, n, n, 255));
        let expected = format!("{:.2}", n as f64 / 255.0);
        assert_eq!(text, format!("rgb({expected}, {expected}, {expected})"));
    }
}

#[test]
fn hex_round_trip_for_all_bytes() {
    for n in 0..=255u8 {
        let c = rgba(n, 255 - n, n / 3, n ^ 0x5a);
        let text = format_color(&TargetFormats::Hexrgba, &c);
        assert_eq!(parse_color(&text).unwrap(), c);
    }
}

#[test]
fn int_round_trip_defaults_alpha() {
    for n in 0..=255u8 {
        let c = rgba(n, 255 - n, n / 7, 9);
        let text = format_color(&TargetFormats::Intrgb, &c);
        assert_eq!(parse_color(&text).unwrap(), rgba(n, 255 - n, n / 7, 255));
    }
}

#[test]
fn float_round_trip_is_within_one() {
    for n in 0..=255u8 {
        let c = rgba(n, 255 - n, n / 5, n);
        let back = parse_color(&format_color(&TargetFormats::Floatrgba, &c)).unwrap();
        for (x, y) in [(back.red, c.red), (back.green, c.green), (back.blue, c.blue), (back.alpha, c.alpha)] {
            assert!((x as i32 - y as i32).abs() <= 1, "{n}: {x} vs {y}");
        }
    }
}

#[test]
fn over_long_int_tokens_split() {
    assert_eq!(parse_color("rgb(1234,5)").unwrap(), rgba(123, 4, 5, 255));
}
