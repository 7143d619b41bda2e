//! The page that a document is drawn on: its size in pixels and the borders
//! to keep clear.
use crate::error::Error;
use crate::strings::{chars_of, first_index, index_of_char, lemma_first_index_found, same_text};
use vstd::prelude::*;
use vstd::string::StrSliceExecFns;

verus! {

/// `polygonical::point::Point`, a point of the plane.
#[verifier::external_type_specification]
#[verifier::external_body]
pub struct ExPoint(polygonical::point::Point);

/// The point that `Point::new` returns for whole coordinates.
pub uninterp spec fn point_at(x: int, y: int) -> polygonical::point::Point;

/// Calls `Point::new`, which keeps the two coordinates as they are given.
#[verifier::external_body]
fn point(x: i32, y: i32) -> (p: polygonical::point::Point)
    ensures
        p == point_at(x as int, y as int),
{
    polygonical::point::Point::new(x, y)
}

/// `n` can be held in an `i32`.
pub open spec fn fits(n: int) -> bool {
    i32::MIN <= n <= i32::MAX
}

/// Half of `n`, rounded toward zero.
pub open spec fn half(n: int) -> int {
    if n >= 0 {
        n / 2
    } else {
        -((-n) / 2)
    }
}

/// Half of `n`, a remaining half rounded away from zero.
pub open spec fn half_rounded(n: int) -> int {
    if n >= 0 {
        (n + 1) / 2
    } else {
        -((1 - n) / 2)
    }
}

/// The borders around the edge of a page, in pixels. Nothing keeps a drawing
/// out of them; they are there to be kept track of.
pub struct Borders {
    pub top: i32,
    pub bottom: i32,
    pub left: i32,
    pub right: i32,
}

impl Borders {
    /// Borders of half an inch on all sides: half of `dpi` pixels, rounded
    /// to the nearest pixel and away from zero where it lies between two.
    pub fn default(dpi: i32) -> (borders: Borders)
        ensures
            borders.top == half_rounded(dpi as int),
            borders.bottom == half_rounded(dpi as int),
            borders.left == half_rounded(dpi as int),
            borders.right == half_rounded(dpi as int),
    {
        let wide: i64 = dpi as i64;
        let size: i64 = if wide >= 0 {
            (wide + 1) / 2
        } else {
            -((1 - wide) / 2)
        };
        let size: i32 = size as i32;
        Borders { top: size, bottom: size, left: size, right: size }
    }

    /// The borders of the page turned by a quarter.
    pub fn rotate(&self) -> (turned: Borders)
        ensures
            turned.top == self.left,
            turned.bottom == self.right,
            turned.left == self.bottom,
            turned.right == self.top,
    {
        Borders { top: self.left, bottom: self.right, left: self.bottom, right: self.top }
    }
}

/// The size of a document.
pub struct Page {
    /// Pixels per inch.
    pub dpi: i32,
    /// Width of the page in pixels.
    pub width: i32,
    /// Height of the page in pixels.
    pub height: i32,
    /// The borders to keep clear.
    pub borders: Borders,
}

impl Page {
    /// The width between the left and the right border.
    pub open spec fn inner_width(&self) -> int {
        self.width - self.borders.right - self.borders.left
    }

    /// The height between the top and the bottom border.
    pub open spec fn inner_height(&self) -> int {
        self.height - self.borders.top - self.borders.bottom
    }

    /// The horizontal position of the right border.
    pub open spec fn right_edge(&self) -> int {
        self.width - self.borders.right
    }

    /// The vertical position of the bottom border.
    pub open spec fn bottom_edge(&self) -> int {
        self.height - self.borders.bottom
    }

    /// The horizontal position halfway between the left and right borders.
    pub open spec fn middle_x(&self) -> int {
        self.borders.left + half(self.inner_width())
    }

    /// The vertical position halfway between the top and bottom borders.
    pub open spec fn middle_y(&self) -> int {
        self.borders.top + half(self.inner_height())
    }

    /// The horizontal middle can be computed in `i32`.
    pub open spec fn middle_x_fits(&self) -> bool {
        fits(self.right_edge()) && fits(self.inner_width()) && fits(self.middle_x())
    }

    /// The vertical middle can be computed in `i32`.
    pub open spec fn middle_y_fits(&self) -> bool {
        fits(self.height - self.borders.top) && fits(self.inner_height()) && fits(self.middle_y())
    }

    /// This page turned by a quarter: portrait becomes landscape and
    /// landscape portrait.
    pub fn rotate(&self) -> (turned: Page)
        ensures
            turned.dpi == self.dpi,
            turned.width == self.height,
            turned.height == self.width,
            turned.borders.top == self.borders.left,
            turned.borders.bottom == self.borders.right,
            turned.borders.left == self.borders.bottom,
            turned.borders.right == self.borders.top,
    {
        Page {
            dpi: self.dpi,
            width: self.height,
            height: self.width,
            borders: self.borders.rotate(),
        }
    }

    /// The page is higher than wide. A square page is neither portrait nor
    /// landscape.
    pub fn is_portrait(&self) -> (portrait: bool)
        ensures
            portrait == (self.height > self.width),
    {
        self.height > self.width
    }

    /// The page is wider than high.
    pub fn is_landscape(&self) -> (landscape: bool)
        ensures
            landscape == (self.width > self.height),
    {
        self.width > self.height
    }

    /// The corner of the borders at the top left.
    pub fn top_left(&self) -> (p: polygonical::point::Point)
        ensures
            p == point_at(self.borders.left as int, self.borders.top as int),
    {
        point(self.borders.left, self.borders.top)
    }

    /// The corner of the borders at the top right.
    pub fn top_right(&self) -> (p: polygonical::point::Point)
        requires
            fits(self.right_edge()),
        ensures
            p == point_at(self.right_edge(), self.borders.top as int),
    {
        point(self.width - self.borders.right, self.borders.top)
    }

    /// The corner of the borders at the bottom left.
    pub fn bottom_left(&self) -> (p: polygonical::point::Point)
        requires
            fits(self.bottom_edge()),
        ensures
            p == point_at(self.borders.left as int, self.bottom_edge()),
    {
        point(self.borders.left, self.height - self.borders.bottom)
    }

    /// The corner of the borders at the bottom right.
    pub fn bottom_right(&self) -> (p: polygonical::point::Point)
        requires
            fits(self.right_edge()),
            fits(self.bottom_edge()),
        ensures
            p == point_at(self.right_edge(), self.bottom_edge()),
    {
        point(self.width - self.borders.right, self.height - self.borders.bottom)
    }

    /// The middle of the area inside the borders.
    pub fn center(&self) -> (p: polygonical::point::Point)
        requires
            self.middle_x_fits(),
            self.middle_y_fits(),
        ensures
            p == point_at(self.middle_x(), self.middle_y()),
    {
        point(
            self.borders.left + ((self.width - self.borders.right - self.borders.left) / 2),
            self.borders.top + ((self.height - self.borders.top - self.borders.bottom) / 2),
        )
    }

    /// The middle of the left border.
    pub fn center_left(&self) -> (p: polygonical::point::Point)
        requires
            self.middle_y_fits(),
        ensures
            p == point_at(self.borders.left as int, self.middle_y()),
    {
        point(
            self.borders.left,
            self.borders.top + ((self.height - self.borders.top - self.borders.bottom) / 2),
        )
    }

    /// The middle of the right border.
    pub fn center_right(&self) -> (p: polygonical::point::Point)
        requires
            fits(self.right_edge()),
            self.middle_y_fits(),
        ensures
            p == point_at(self.right_edge(), self.middle_y()),
    {
        point(
            self.width - self.borders.right,
            self.borders.top + ((self.height - self.borders.top - self.borders.bottom) / 2),
        )
    }

    /// The middle of the top border.
    pub fn center_top(&self) -> (p: polygonical::point::Point)
        requires
            self.middle_x_fits(),
        ensures
            p == point_at(self.middle_x(), self.borders.top as int),
    {
        point(
            self.borders.left + ((self.width - self.borders.right - self.borders.left) / 2),
            self.borders.top,
        )
    }

    /// The middle of the bottom border.
    pub fn center_bottom(&self) -> (p: polygonical::point::Point)
        requires
            self.middle_x_fits(),
            fits(self.bottom_edge()),
        ensures
            p == point_at(self.middle_x(), self.bottom_edge()),
    {
        point(
            self.borders.left + ((self.width - self.borders.right - self.borders.left) / 2),
            self.height - self.borders.bottom,
        )
    }

    /// The width of the page without the borders, in pixels.
    pub fn display_width_px(&self) -> (width: i32)
        requires
            fits(self.right_edge()),
            fits(self.inner_width()),
        ensures
            width == self.inner_width(),
    {
        self.width - self.borders.right - self.borders.left
    }

    /// The height of the page without the borders, in pixels.
    pub fn display_height_px(&self) -> (height: i32)
        requires
            fits(self.height - self.borders.top),
            fits(self.inner_height()),
        ensures
            height == self.inner_height(),
    {
        self.height - self.borders.top - self.borders.bottom
    }
}

/// What `str::to_lowercase` returns: the text with each character replaced
/// by its lowercase form.
pub uninterp spec fn lowercased(text: Seq<char>) -> Seq<char>;

/// Calls `str::to_lowercase`.
#[verifier::external_body]
fn lowercase(text: &str) -> (lower: String)
    ensures
        lower@ == lowercased(text@),
{
    text.to_lowercase()
}

/// The paper that a name asks for.
pub enum Paper<'a> {
    /// A width and a height, each a length as it is written.
    Sized(&'a str, &'a str),
    A5,
    A4,
    A3,
    Letter,
}

/// What [`Paper`] stands for.
pub enum PaperView {
    Sized(Seq<char>, Seq<char>),
    A5,
    A4,
    A3,
    Letter,
}

impl<'a> View for Paper<'a> {
    type V = PaperView;

    open spec fn view(&self) -> PaperView {
        match self {
            Paper::Sized(width, height) => PaperView::Sized(width@, height@),
            Paper::A5 => PaperView::A5,
            Paper::A4 => PaperView::A4,
            Paper::A3 => PaperView::A3,
            Paper::Letter => PaperView::Letter,
        }
    }
}

/// The paper with this name, if there is one. A name with an `x` in it gives
/// the width and the height, which stand on either side of the `x`; with
/// more than one `x` it names no paper. Any other name is one of `a5`, `a4`,
/// `a3` and `letter`, in small or capital letters.
pub open spec fn paper_named(name: Seq<char>) -> Option<PaperView> {
    if name.contains('x') {
        let at = first_index(name, 'x') as int;
        if name.skip(at + 1).contains('x') {
            None
        } else {
            Some(PaperView::Sized(name.take(at), name.skip(at + 1)))
        }
    } else if lowercased(name) == "a5"@ {
        Some(PaperView::A5)
    } else if lowercased(name) == "a4"@ {
        Some(PaperView::A4)
    } else if lowercased(name) == "a3"@ {
        Some(PaperView::A3)
    } else if lowercased(name) == "letter"@ {
        Some(PaperView::Letter)
    } else {
        None
    }
}

/// Tells which paper a name asks for, see [`paper_named`]. A name that
/// names no paper is handed back in the error.
pub fn paper_of(name: &str) -> (result: Result<Paper, Error>)
    ensures
        match result {
            Ok(paper) => paper_named(name@) == Some(paper@),
            Err(error) => paper_named(name@) is None && (error matches Error::UnknownPaper(text)
                && text@ == name@),
        },
{
    let chars = chars_of(name);
    let n: usize = chars.len();
    let at: usize = index_of_char(&chars, 'x');
    proof {
        lemma_first_index_found(name@, 'x');
        if at < n {
            assert(name@.contains('x'));
        }
    }
    if at < n {
        let height = name.substring_char(at + 1, n);
        proof {
            assert(height@ =~= name@.skip(at + 1));
        }
        let rest = chars_of(height);
        let next: usize = index_of_char(&rest, 'x');
        proof {
            lemma_first_index_found(height@, 'x');
            if next < rest@.len() {
                assert(height@.contains('x'));
            }
        }
        if next < rest.len() {
            Err(Error::UnknownPaper(name.to_owned()))
        } else {
            let width = name.substring_char(0, at);
            proof {
                assert(name@.subrange(0, at as int) =~= name@.take(at as int));
            }
            Ok(Paper::Sized(width, height))
        }
    } else {
        let lower = lowercase(name);
        if same_text(lower.as_str(), "a5") {
            Ok(Paper::A5)
        } else if same_text(lower.as_str(), "a4") {
            Ok(Paper::A4)
        } else if same_text(lower.as_str(), "a3") {
            Ok(Paper::A3)
        } else if same_text(lower.as_str(), "letter") {
            Ok(Paper::Letter)
        } else {
            Err(Error::UnknownPaper(name.to_owned()))
        }
    }
}

} // verus!
