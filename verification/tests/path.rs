use esvg::path::Data;
use esvg::shapes::{circle, ellipse, many_circles, rectangle, rounded_rectangle};
use esvg::text::{create_text, create_text_style};

#[test]
fn data_joins_its_segments() {
    let mut data = Data::new();
    assert_eq!(data.build(), "");
    data.move_to("1.000", "2.000");
    assert_eq!(data.build(), "M1.000 2.000");
    data.line_to("3.500", "-4.250").close();
    assert_eq!(data.build(), "M1.000 2.000 L3.500 -4.250 z");
    assert_eq!(Data::default().build(), "");
}

#[test]
fn arcs_write_their_flags() {
    let mut data = Data::new();
    data.arc_to("10.000", "20.000", 5, -6, "45.000", true, false);
    data.arc_to("1.000", "2.000", 0, 7, "0.000", false, true);
    assert_eq!(
        data.build(),
        "A5 -6 45.000 1 0 10.000 20.000 A0 7 0.000 0 1 1.000 2.000"
    );
}

#[test]
fn lines_need_two_points() {
    let point = |x: &str, y: &str| (x.to_string(), y.to_string());
    assert_eq!(Data::from_points(&vec![]).build(), "");
    assert_eq!(Data::from_points(&vec![point("1", "1")]).build(), "");
    let points = vec![point("0.000", "0.000"), point("1.000", "0.000"), point("1.000", "1.000")];
    assert_eq!(
        Data::from_points(&points).build(),
        "M0.000 0.000 L1.000 0.000 L1.000 1.000"
    );
    let mut closed = Data::from_points(&points);
    closed.close();
    assert_eq!(closed.build(), "M0.000 0.000 L1.000 0.000 L1.000 1.000 z");
}

#[test]
fn data_becomes_a_path() {
    let mut data = Data::new();
    data.move_to("0", "0").line_to("1", "1");
    assert_eq!(data.to_path().to_string(), "<path d=\"M0 0 L1 1\" fill=\"none\" />");
}

#[test]
fn circles() {
    assert_eq!(
        circle("1.5", "2", 3).to_string(),
        "<circle cx=\"1.5\" cy=\"2\" fill=\"none\" r=\"3\" />"
    );
    let centres = vec![("0".to_string(), "0".to_string()), ("5".to_string(), "6".to_string())];
    assert_eq!(
        many_circles(&centres, 2).to_string(),
        "<g>\n<circle cx=\"0\" cy=\"0\" fill=\"none\" r=\"2\" />\n<circle cx=\"5\" cy=\"6\" fill=\"none\" r=\"2\" />\n</g>"
    );
    assert_eq!(many_circles(&vec![], 2).to_string(), "<g />");
}

#[test]
fn ellipses() {
    assert_eq!(
        ellipse("1", "2", "3.5", "4").to_string(),
        "<ellipse cx=\"1\" cy=\"2\" rx=\"3.5\" ry=\"4\" />"
    );
}

#[test]
fn text_elements() {
    let element = create_text("hello".to_string(), "10", "20", "fill:black;");
    assert_eq!(
        element.to_string(),
        "<text style=\"fill:black;\" x=\"10\" y=\"20\">\nhello\n</text>"
    );
}

#[test]
fn rectangles() {
    assert_eq!(
        rectangle("1", "2", "30", "40.5").to_string(),
        "<rect height=\"40.5\" width=\"30\" x=\"1\" y=\"2\" />"
    );
    assert_eq!(
        rounded_rectangle("1", "2", "30", "40.5", "3").to_string(),
        "<rect height=\"40.5\" rx=\"3\" ry=\"3\" width=\"30\" x=\"1\" y=\"2\" />"
    );
}

#[test]
fn text_styles() {
    assert_eq!(
        create_text_style("Arial", 12, "bold", "0.5", "black", "none", "1"),
        "font-family:Arial;font-size:12;font-weight:bold;stroke-width:0.5;fill:black;stroke:none;stroke-opacity:1;"
    );
    assert_eq!(
        create_text_style("", -4, "", "", "", "", ""),
        "font-family:;font-size:-4;font-weight:;stroke-width:;fill:;stroke:;stroke-opacity:;"
    );
}
