use esvg::style::{parse_style, style_fill, style_stroke, style_stroke_colour};

#[test]
fn style_clauses() {
    assert_eq!(style_stroke_colour("black".to_string()), "stroke:black;");
    assert_eq!(style_fill("#fff".to_string()), "fill:#fff;");
}

#[test]
fn parse_style_reads_clauses() {
    let map = parse_style("stroke:black;fill:none").unwrap();
    assert_eq!(map.len(), 2);
    assert_eq!(map.get("stroke"), Some(&"black".to_string()));
    assert_eq!(map.get("fill"), Some(&"none".to_string()));
    assert!(parse_style("stroke").is_err());
    assert!(parse_style("stroke:black;fill").is_err());
    assert!(parse_style("").unwrap().is_empty());
    assert!(parse_style("stroke:black;").is_err());
    assert!(parse_style(";").is_err());
    assert!(parse_style("stroke:black;;fill:none").is_err());
    let unicode = parse_style("né:ü;x:→").unwrap();
    assert_eq!(unicode.get("né"), Some(&"ü".to_string()));
    assert_eq!(unicode.get("x"), Some(&"→".to_string()));
}

#[test]
fn test_styles() {
    assert_eq!(
        style_stroke("black".to_string(), &1.0.to_string(), &1.0.to_string()),
        "stroke:black;stroke-width:1;stroke-opacity:1;"
    );
}

#[test]
fn a_style_that_ends_in_a_separator_is_malformed() {
    assert!(parse_style(style_fill("#fff".to_string()).as_str()).is_err());
    assert!(parse_style(style_stroke_colour("red".to_string()).as_str()).is_err());
    assert!(parse_style(style_stroke("black".to_string(), "1", "0.5").as_str()).is_err());
    let open = parse_style("stroke:black;stroke-width:1;stroke-opacity:0.5").unwrap();
    assert_eq!(open.len(), 3);
    assert_eq!(open.get("stroke-opacity"), Some(&"0.5".to_string()));
}
