//! Build, write out and read back trees of markup elements, as used for
//! vector graphics documents.
pub mod convert;
pub mod element;
pub mod error;
pub mod laws;
pub mod page;
pub mod path;
pub mod read;
pub mod render;
pub mod shapes;
pub mod strings;
pub mod style;
pub mod text;
pub mod value;
pub mod xml;

pub use crate::element::{Element, Node};

use crate::element::ElementView;
use crate::page::Page;
use crate::strings::{signed_decimal, signed_to_string};
use vstd::prelude::*;
use vstd::string::StringExecFns;

verus! {

/// The view box of a page: from the origin to its width and height in
/// pixels.
pub open spec fn view_box(width: int, height: int) -> Seq<char> {
    seq!['0', ',', ' ', '0', ',', ' '] + signed_decimal(width) + seq![',', ' '] + signed_decimal(
        height,
    )
}

/// The root of a document for a page of the given size in pixels, with the
/// physical width and height that are to stand in its attributes.
pub open spec fn document_element(
    width_px: int,
    height_px: int,
    width: Seq<char>,
    height: Seq<char>,
) -> ElementView {
    ElementView::empty("svg"@).with_attribute(
        "xmlns"@,
        "http://www.w3.org/2000/svg"@,
    ).with_attribute("xmlns:xlink"@, "http://www.w3.org/1999/xlink"@).with_attribute(
        "viewBox"@,
        view_box(width_px, height_px),
    ).with_attribute("width"@, width).with_attribute("height"@, height)
}

/// Creates a new document with the view box set up for the page. `width` and
/// `height` are the physical size of the page as it is to be written, such as
/// `210mm`.
pub fn create_document(paper: &Page, width: &str, height: &str) -> (document: Element)
    ensures
        document@ == document_element(paper.width as int, paper.height as int, width@, height@),
{
    let mut view = String::from_str("0, 0, ");
    view.append(signed_to_string(paper.width as i128).as_str());
    view.append(", ");
    view.append(signed_to_string(paper.height as i128).as_str());
    proof {
        reveal_strlit("0, 0, ");
        reveal_strlit(", ");
        assert(view@ =~= view_box(paper.width as int, paper.height as int));
    }
    let mut el = Element::new("svg");
    el.set("xmlns", "http://www.w3.org/2000/svg");
    el.set("xmlns:xlink", "http://www.w3.org/1999/xlink");
    el.set("viewBox", view);
    el.set("width", width);
    el.set("height", height);
    el
}

} // verus!
