use esvg::convert::{
    extract_unit, parse_channels, split_inches, split_length, unit_of, Inches, LengthUnit,
};
use esvg::error::Error;

#[test]
fn units_stand_at_the_end() {
    assert_eq!(extract_unit("27in").unwrap(), "in");
    assert_eq!(extract_unit("2.5mm").unwrap(), "mm");
    assert_eq!(extract_unit("2.5cm").unwrap(), "cm");
    assert_eq!(extract_unit("100px").unwrap(), "px");
    assert_eq!(extract_unit("2 4/8in").unwrap(), "in");
}

#[test]
fn numbers_have_no_unit() {
    assert_eq!(extract_unit("2.5").unwrap(), "");
    assert_eq!(extract_unit("125").unwrap(), "");
    assert_eq!(extract_unit("12m").unwrap(), "");
    assert_eq!(extract_unit("1m2").unwrap(), "");
    assert_eq!(extract_unit("mm").unwrap(), "");
    assert_eq!(extract_unit("1").unwrap(), "");
    assert_eq!(extract_unit("").unwrap(), "");
    assert_eq!(extract_unit("5/10").unwrap(), "");
    assert_eq!(extract_unit("12\u{0663}\u{00e9}").unwrap(), "\u{00e9}");
    assert_eq!(extract_unit("1\u{00b2}").unwrap(), "");
}

#[test]
fn units_have_names() {
    assert_eq!(unit_of("mm"), LengthUnit::Millimetres);
    assert_eq!(unit_of("cm"), LengthUnit::Centimetres);
    assert_eq!(unit_of("in"), LengthUnit::Inches);
    assert_eq!(unit_of("px"), LengthUnit::Pixels);
    assert_eq!(unit_of(""), LengthUnit::Unmarked);
    assert_eq!(unit_of("pt"), LengthUnit::Unmarked);
    assert_eq!(unit_of("MM"), LengthUnit::Unmarked);
    assert_eq!(unit_of("mmm"), LengthUnit::Unmarked);
}

#[test]
fn lengths_part_into_number_and_unit() {
    assert_eq!(split_length("2.5mm"), (LengthUnit::Millimetres, "2.5"));
    assert_eq!(split_length("2.5cm"), (LengthUnit::Centimetres, "2.5"));
    assert_eq!(split_length("100px"), (LengthUnit::Pixels, "100"));
    assert_eq!(split_length("2 4/8in"), (LengthUnit::Inches, "2 4/8"));
    assert_eq!(split_length("2.5"), (LengthUnit::Unmarked, "2.5"));
    assert_eq!(split_length("5/10"), (LengthUnit::Unmarked, "5/10"));
    assert_eq!(split_length("12pt"), (LengthUnit::Unmarked, "12pt"));
    assert_eq!(split_length("mm"), (LengthUnit::Unmarked, "mm"));
    assert_eq!(split_length(""), (LengthUnit::Unmarked, ""));
}

#[test]
fn inches_part_into_whole_and_fraction() {
    assert!(matches!(split_inches("2.5"), Inches::Plain("2.5")));
    assert!(matches!(split_inches("1.544in"), Inches::Plain("1.544")));
    assert!(matches!(split_inches("in"), Inches::Plain("")));
    assert!(matches!(split_inches(""), Inches::Plain("")));
    assert!(matches!(
        split_inches("2 4/8in"),
        Inches::Mixed { whole: Some("2"), fraction: Some(("4", "8")) }
    ));
    assert!(matches!(
        split_inches("5/10"),
        Inches::Mixed { whole: None, fraction: Some(("5", "10")) }
    ));
    assert!(matches!(
        split_inches("7  1 / 4 in"),
        Inches::Mixed { whole: Some("7"), fraction: Some(("1", "4")) }
    ));
    assert!(matches!(
        split_inches("2 in"),
        Inches::Mixed { whole: Some("2"), fraction: None }
    ));
    assert!(matches!(
        split_inches(" 3/4"),
        Inches::Mixed { whole: Some(""), fraction: Some(("3", "4")) }
    ));
    assert!(matches!(
        split_inches("1/2/3"),
        Inches::Mixed { whole: None, fraction: Some(("1", "2/3")) }
    ));
}

#[test]
fn colours_hold_channels() {
    assert!(matches!(parse_channels("#FF00AA33"), Some(Ok((255, 0, 170, 51)))));
    assert!(matches!(parse_channels("#0c0c0c"), Some(Ok((12, 12, 12, 255)))));
    assert!(matches!(parse_channels("0c0c0c"), Some(Ok((12, 12, 12, 255)))));
    assert!(matches!(parse_channels("0102030405"), Some(Ok((1, 2, 3, 0x0405)))));
    assert!(matches!(parse_channels("+1-2+3"), Some(Ok((1, -2, 3, 255)))));
}

#[test]
fn colours_fail_as_they_are_read() {
    assert!(matches!(parse_channels("invalid"), Some(Err(Error::ParseInt(_)))));
    match parse_channels("i") {
        Some(Err(Error::ColourError(text))) => assert_eq!(text, "i"),
        _ => panic!("too short"),
    }
    assert!(matches!(parse_channels("#i"), Some(Err(Error::ColourError(_)))));
    assert!(matches!(parse_channels(""), Some(Err(Error::ColourError(_)))));
    assert!(matches!(parse_channels("#zz345"), Some(Err(Error::ParseInt(_)))));
    assert!(matches!(parse_channels("#12zz5"), Some(Err(Error::ParseInt(_)))));
    assert!(matches!(parse_channels("#123456zz"), Some(Err(Error::ParseInt(_)))));
    assert!(matches!(parse_channels("zz\u{20ac}\u{20ac}\u{20ac}"), Some(Err(Error::ParseInt(_)))));
    assert!(parse_channels("#12345").is_none());
    assert!(parse_channels("12\u{20ac}\u{20ac}\u{20ac}").is_none());
    assert!(parse_channels("\u{20ac}\u{20ac}").is_none());
    assert!(parse_channels("1234\u{20ac}").is_none());
}

/// Scales a number of inches to pixels.
fn inches_to_pixels(value: f64, dpi: i32) -> i32 {
    (value * (dpi as f64)).round() as i32
}

/// Reads a length in inches from its parts.
fn parse_inches(value: &str, dpi: i32) -> i32 {
    let inches = match split_inches(value) {
        Inches::Mixed { whole, fraction } => {
            let whole_inches = match whole {
                Some(text) => text.parse::<f64>().unwrap(),
                None => 0.0,
            };
            let (top, bottom) = match fraction {
                Some((top, bottom)) => (top.parse::<f64>().unwrap(), bottom.parse::<f64>().unwrap()),
                None => (1.0, 1.0),
            };
            whole_inches + (top / bottom)
        }
        Inches::Plain(number) => number.parse::<f64>().unwrap(),
    };
    inches_to_pixels(inches, dpi)
}

/// Reads a length from its number and its unit.
fn parse_length(value: &str, dpi: i32) -> i32 {
    match split_length(value) {
        (LengthUnit::Millimetres, number) => {
            inches_to_pixels(number.parse::<f64>().unwrap() / 25.4, dpi)
        }
        (LengthUnit::Centimetres, number) => {
            inches_to_pixels((number.parse::<f64>().unwrap() * 10.0) / 25.4, dpi)
        }
        (LengthUnit::Pixels, number) => number.parse::<i32>().unwrap(),
        (LengthUnit::Inches, _) | (LengthUnit::Unmarked, _) => parse_inches(value, dpi),
    }
}

#[test]
fn parse_length_valid() {
    let value = parse_length("2.5", 96);
    assert_eq!(value, 240);

    let value = parse_length("2.5cm", 96);
    assert_eq!(value, 94);

    let value = parse_length("2.5mm", 96);
    assert_eq!(value, 9);

    let value = parse_length("2 4/8in", 96);
    assert_eq!(value, 240);

    let value = parse_length("1", 96);
    assert_eq!(value, 96);

    let value = parse_length("5/10", 96);
    assert_eq!(value, 48);
}

#[test]
fn lengths_in_other_units() {
    assert_eq!(parse_length("27in", 96), 2592);
    assert_eq!(parse_length("2 4/16in", 96), 216);
    assert_eq!(parse_length("100px", 96), 100);
    assert_eq!(parse_length("-3px", 96), -3);
}

/// Reads a colour as fractions of one.
fn parse_colour(value: &str) -> Result<(f64, f64, f64, f64), Error> {
    let (red, green, blue, alpha) = parse_channels(value).unwrap()?;
    Ok((
        red as f64 / 255.0,
        green as f64 / 255.0,
        blue as f64 / 255.0,
        alpha as f64 / 255.0,
    ))
}

#[test]
fn colour_conversion_invalid() {
    assert!(parse_colour("invalid").is_err());
    assert!(parse_colour("i").is_err());
    assert!(parse_colour("#i").is_err());
}

#[test]
fn colour_conversion_valid() {
    let (r, g, b, a) = parse_colour("#0c0c0c").unwrap();
    assert_eq!(r, 0.047058823529411764);
    assert_eq!(g, 0.047058823529411764);
    assert_eq!(b, 0.047058823529411764);
    assert_eq!(a, 1.0);
}

#[test]
fn colours_with_alpha() {
    let (r, g, b, a) = parse_colour("#FF00AA33").unwrap();
    assert_eq!(r, 1.0);
    assert_eq!(g, 0.0);
    assert_eq!(b, 0.6666666666666666);
    assert_eq!(a, 0.2);
}
