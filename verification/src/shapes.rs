//! Elements of particular shapes. Coordinates and sizes that need not be
//! whole numbers are taken as the text that is to stand in the attribute.
use crate::element::{Element, ElementView, NodeView};
use crate::strings::signed_decimal;
use vstd::prelude::*;

verus! {

/// A circle around a centre. It is not filled.
pub open spec fn circle_element(cx: Seq<char>, cy: Seq<char>, radius: int) -> ElementView {
    ElementView::empty("circle"@).with_attribute("cx"@, cx).with_attribute(
        "cy"@,
        cy,
    ).with_attribute("r"@, signed_decimal(radius)).with_attribute("fill"@, "none"@)
}

/// An ellipse around a centre, with its two radii along the axes.
pub open spec fn ellipse_element(
    cx: Seq<char>,
    cy: Seq<char>,
    rx: Seq<char>,
    ry: Seq<char>,
) -> ElementView {
    ElementView::empty("ellipse"@).with_attribute("cx"@, cx).with_attribute(
        "cy"@,
        cy,
    ).with_attribute("rx"@, rx).with_attribute("ry"@, ry)
}

/// A rectangle with its corner at `x` and `y`.
pub open spec fn rectangle_element(
    x: Seq<char>,
    y: Seq<char>,
    width: Seq<char>,
    height: Seq<char>,
) -> ElementView {
    ElementView::empty("rect"@).with_attribute("x"@, x).with_attribute("y"@, y).with_attribute(
        "width"@,
        width,
    ).with_attribute("height"@, height)
}

/// A group that holds one circle of the given radius around each centre, in
/// the order of the centres.
pub open spec fn circles_element(centres: Seq<(Seq<char>, Seq<char>)>, radius: int) -> ElementView {
    ElementView {
        name: "g"@,
        attributes: Map::empty(),
        children: Seq::new(
            centres.len(),
            |i: int| NodeView::Element(circle_element(centres[i].0, centres[i].1, radius)),
        ),
    }
}

/// Creates a circle element.
pub fn circle(cx: &str, cy: &str, radius: i32) -> (element: Element)
    ensures
        element@ == circle_element(cx@, cy@, radius as int),
{
    let mut element = Element::new("circle");
    element.set("cx", cx);
    element.set("cy", cy);
    element.set("r", radius);
    element.set("fill", "none");
    element
}

/// Creates a circle of the given radius around each of the centres, and
/// wraps the circles in a group of their own.
pub fn many_circles(centres: &Vec<(String, String)>, radius: i32) -> (group: Element)
    ensures
        group@ == circles_element(
            centres@.map_values(|c: (String, String)| (c.0@, c.1@)),
            radius as int,
        ),
{
    let ghost wanted = circles_element(
        centres@.map_values(|c: (String, String)| (c.0@, c.1@)),
        radius as int,
    );
    let mut group = Element::new("g");
    let mut i: usize = 0;
    while i < centres.len()
        invariant
            i <= centres@.len(),
            wanted == circles_element(
                centres@.map_values(|c: (String, String)| (c.0@, c.1@)),
                radius as int,
            ),
            group@.name == wanted.name,
            group@.attributes == wanted.attributes,
            group@.children == wanted.children.take(i as int),
        decreases centres@.len() - i,
    {
        group.add(&circle(centres[i].0.as_str(), centres[i].1.as_str(), radius));
        assert(group@.children =~= wanted.children.take(i + 1));
        i += 1;
    }
    assert(wanted.children.take(i as int) =~= wanted.children);
    group
}

/// Creates an ellipse element. An ellipse lies along the axes; to turn it,
/// transform it.
pub fn ellipse(cx: &str, cy: &str, rx: &str, ry: &str) -> (element: Element)
    ensures
        element@ == ellipse_element(cx@, cy@, rx@, ry@),
{
    let mut element = Element::new("ellipse");
    element.set("cx", cx);
    element.set("cy", cy);
    element.set("rx", rx);
    element.set("ry", ry);
    element
}

/// Creates a rectangle element with its corner at `x` and `y`.
pub fn rectangle(x: &str, y: &str, width: &str, height: &str) -> (element: Element)
    ensures
        element@ == rectangle_element(x@, y@, width@, height@),
{
    let mut element = Element::new("rect");
    element.set("x", x);
    element.set("y", y);
    element.set("width", width);
    element.set("height", height);
    element
}

/// Creates a rectangle with rounded corners: both radii of the rounding are
/// `rounding`.
pub fn rounded_rectangle(x: &str, y: &str, width: &str, height: &str, rounding: &str) -> (element:
    Element)
    ensures
        element@ == rectangle_element(x@, y@, width@, height@).with_attribute(
            "rx"@,
            rounding@,
        ).with_attribute("ry"@, rounding@),
{
    let mut element = rectangle(x, y, width, height);
    element.set("rx", rounding);
    element.set("ry", rounding);
    element
}

} // verus!
