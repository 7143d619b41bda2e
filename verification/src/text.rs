//! Text in a drawing.
use crate::element::{Element, ElementView, Node, NodeView};
use crate::strings::{signed_decimal, signed_to_string};
use vstd::prelude::*;
use vstd::string::StringExecFns;

verus! {

/// A text element at a place: it holds the text as its one child, and its
/// place and its style as attributes.
pub open spec fn text_element(
    text: Seq<char>,
    x: Seq<char>,
    y: Seq<char>,
    style: Seq<char>,
) -> ElementView {
    ElementView::empty("text"@).with_child(NodeView::Text(text)).with_attribute(
        "x"@,
        x,
    ).with_attribute("y"@, y).with_attribute("style"@, style)
}

/// Creates a text element. The coordinates are taken as the text that is to
/// stand in the attributes.
pub fn create_text(text: String, x: &str, y: &str, style: &str) -> (element: Element)
    ensures
        element@ == text_element(text@, x@, y@, style@),
{
    let mut element = Element::new("text");
    element.add_node(Node::Text(text));
    element.set("x", x);
    element.set("y", y);
    element.set("style", style);
    element
}

/// The style of a text: the clauses for the font, then those for the stroke
/// and the fill.
pub open spec fn text_style(
    font_family: Seq<char>,
    font_size: int,
    font_weight: Seq<char>,
    stroke_width: Seq<char>,
    fill: Seq<char>,
    stroke: Seq<char>,
    stroke_opacity: Seq<char>,
) -> Seq<char> {
    "font-family:"@ + font_family + ";font-size:"@ + signed_decimal(font_size) + ";font-weight:"@
        + font_weight + ";stroke-width:"@ + stroke_width + ";fill:"@ + fill + ";stroke:"@ + stroke
        + ";stroke-opacity:"@ + stroke_opacity + ";"@
}

/// Writes the style of a text. The width and the opacity of the stroke are
/// taken as the text that is to be written.
pub fn create_text_style(
    font_family: &str,
    font_size: i32,
    font_weight: &str,
    stroke_width: &str,
    fill: &str,
    stroke: &str,
    stroke_opacity: &str,
) -> (style: String)
    ensures
        style@ == text_style(
            font_family@,
            font_size as int,
            font_weight@,
            stroke_width@,
            fill@,
            stroke@,
            stroke_opacity@,
        ),
{
    let mut style = String::from_str("font-family:");
    style.append(font_family);
    style.append(";font-size:");
    style.append(signed_to_string(font_size as i128).as_str());
    style.append(";font-weight:");
    style.append(font_weight);
    style.append(";stroke-width:");
    style.append(stroke_width);
    style.append(";fill:");
    style.append(fill);
    style.append(";stroke:");
    style.append(stroke);
    style.append(";stroke-opacity:");
    style.append(stroke_opacity);
    style.append(";");
    style
}

} // verus!
