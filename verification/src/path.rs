//! The data of a path element: a list of drawing steps.
use crate::element::{Element, ElementView};
use crate::strings::{signed_decimal, signed_to_string};
use vstd::prelude::*;
use vstd::string::StringExecFns;

verus! {

/// The segments, each separated from the next by one space.
pub open spec fn joined(segments: Seq<Seq<char>>) -> Seq<char>
    decreases segments.len(),
{
    if segments.len() == 0 {
        Seq::empty()
    } else if segments.len() == 1 {
        segments[0]
    } else {
        joined(segments.drop_last()) + seq![' '] + segments.last()
    }
}

/// A step to a point: the letter of the step, then the two coordinates with
/// a space between them.
pub open spec fn step_to(letter: char, x: Seq<char>, y: Seq<char>) -> Seq<char> {
    seq![letter] + x + seq![' '] + y
}

/// How a flag of an arc is written.
pub open spec fn flag(set: bool) -> Seq<char> {
    if set {
        seq!['1']
    } else {
        seq!['0']
    }
}

/// An arc to a point: `A`, the two radii, the rotation, the two flags and the
/// coordinates of the point, with a space between each.
pub open spec fn arc(
    x: Seq<char>,
    y: Seq<char>,
    rx: int,
    ry: int,
    rotation: Seq<char>,
    large: bool,
    sweep: bool,
) -> Seq<char> {
    seq!['A'] + signed_decimal(rx) + seq![' '] + signed_decimal(ry) + seq![' '] + rotation + seq![
        ' ',
    ] + flag(large) + seq![' '] + flag(sweep) + seq![' '] + x + seq![' '] + y
}

/// The segments of a line through the points: a move to the first and a line
/// to each of the others. Fewer than two points give no segment.
pub open spec fn polyline(points: Seq<(Seq<char>, Seq<char>)>) -> Seq<Seq<char>> {
    if points.len() > 1 {
        Seq::new(
            points.len(),
            |i: int|
                if i == 0 {
                    step_to('M', points[i].0, points[i].1)
                } else {
                    step_to('L', points[i].0, points[i].1)
                },
        )
    } else {
        Seq::empty()
    }
}

/// The element of a path with this data: it is not filled.
pub open spec fn path_element(segments: Seq<Seq<char>>) -> ElementView {
    ElementView::empty("path"@).with_attribute("fill"@, "none"@).with_attribute(
        "d"@,
        joined(segments),
    )
}

/// The data attribute of a path. Coordinates and angles are taken as the
/// text that is to stand in the attribute.
pub struct Data {
    segments: Vec<String>,
}

impl View for Data {
    type V = Seq<Seq<char>>;

    closed spec fn view(&self) -> Seq<Seq<char>> {
        Seq::new(self.segments@.len(), |i: int| self.segments@[i]@)
    }
}

impl Data {
    /// Data without a segment.
    pub fn new() -> (data: Data)
        ensures
            data@ == Seq::<Seq<char>>::empty(),
    {
        let data = Data { segments: Vec::new() };
        assert(data@ =~= Seq::empty());
        data
    }

    /// The data of a line through the points, see [`polyline`].
    pub fn from_points(points: &Vec<(String, String)>) -> (data: Data)
        ensures
            data@ == polyline(points@.map_values(|p: (String, String)| (p.0@, p.1@))),
    {
        let ghost wanted = polyline(points@.map_values(|p: (String, String)| (p.0@, p.1@)));
        let mut data = Data::new();
        if points.len() > 1 {
            data.move_to(points[0].0.as_str(), points[0].1.as_str());
            let mut i: usize = 1;
            while i < points.len()
                invariant
                    1 <= i <= points@.len(),
                    wanted == polyline(points@.map_values(|p: (String, String)| (p.0@, p.1@))),
                    data@ == wanted.take(i as int),
                decreases points@.len() - i,
            {
                data.line_to(points[i].0.as_str(), points[i].1.as_str());
                assert(data@ =~= wanted.take(i + 1));
                i += 1;
            }
            assert(wanted.take(i as int) =~= wanted);
        }
        data
    }

    fn push(&mut self, segment: String)
        ensures
            final(self)@ == old(self)@.push(segment@),
    {
        self.segments.push(segment);
        assert(self@ =~= old(self)@.push(segment@));
    }

    /// Adds a move to the point.
    pub fn move_to(&mut self, x: &str, y: &str) -> (this: &mut Data)
        ensures
            this@ == old(self)@.push(step_to('M', x@, y@)),
            *final(self) == *final(this),
    {
        let mut segment = String::from_str("M");
        segment.append(x);
        segment.append(" ");
        segment.append(y);
        proof {
            reveal_strlit("M");
            reveal_strlit(" ");
            assert(segment@ =~= step_to('M', x@, y@));
        }
        self.push(segment);
        self
    }

    /// Adds a line to the point.
    pub fn line_to(&mut self, x: &str, y: &str) -> (this: &mut Data)
        ensures
            this@ == old(self)@.push(step_to('L', x@, y@)),
            *final(self) == *final(this),
    {
        let mut segment = String::from_str("L");
        segment.append(x);
        segment.append(" ");
        segment.append(y);
        proof {
            reveal_strlit("L");
            reveal_strlit(" ");
            assert(segment@ =~= step_to('L', x@, y@));
        }
        self.push(segment);
        self
    }

    /// Adds an arc to the point, with the radii `rx` and `ry`.
    pub fn arc_to(
        &mut self,
        x: &str,
        y: &str,
        rx: i32,
        ry: i32,
        rotation: &str,
        large: bool,
        sweep: bool,
    ) -> (this: &mut Data)
        ensures
            this@ == old(self)@.push(arc(x@, y@, rx as int, ry as int, rotation@, large, sweep)),
            *final(self) == *final(this),
    {
        let lv = if large {
            "1"
        } else {
            "0"
        };
        let sv = if sweep {
            "1"
        } else {
            "0"
        };
        let mut segment = String::from_str("A");
        segment.append(signed_to_string(rx as i128).as_str());
        segment.append(" ");
        segment.append(signed_to_string(ry as i128).as_str());
        segment.append(" ");
        segment.append(rotation);
        segment.append(" ");
        segment.append(lv);
        segment.append(" ");
        segment.append(sv);
        segment.append(" ");
        segment.append(x);
        segment.append(" ");
        segment.append(y);
        proof {
            reveal_strlit("A");
            reveal_strlit(" ");
            reveal_strlit("1");
            reveal_strlit("0");
            assert(lv@ =~= flag(large));
            assert(sv@ =~= flag(sweep));
            assert(segment@ =~= arc(x@, y@, rx as int, ry as int, rotation@, large, sweep));
        }
        self.push(segment);
        self
    }

    /// Closes the loop of the path.
    pub fn close(&mut self) -> (this: &mut Data)
        ensures
            this@ == old(self)@.push(seq!['z']),
            *final(self) == *final(this),
    {
        let segment = String::from_str("z");
        proof {
            reveal_strlit("z");
            assert(segment@ =~= seq!['z']);
        }
        self.push(segment);
        self
    }

    /// The text of the data attribute.
    pub fn build(&self) -> (text: String)
        ensures
            text@ == joined(self@),
    {
        let mut text = String::new();
        let mut i: usize = 0;
        while i < self.segments.len()
            invariant
                i <= self.segments@.len(),
                text@ == joined(self@.take(i as int)),
            decreases self.segments@.len() - i,
        {
            if i > 0 {
                text.append(" ");
            }
            text.append(self.segments[i].as_str());
            proof {
                reveal_strlit(" ");
                let next = self@.take(i + 1);
                assert(next.drop_last() =~= self@.take(i as int));
                assert(next.last() == self.segments@[i as int]@);
                assert(text@ =~= joined(next));
            }
            i += 1;
        }
        assert(self@.take(i as int) =~= self@);
        text
    }

    /// A path element with this data.
    pub fn to_path(&self) -> (element: Element)
        ensures
            element@ == path_element(self@),
    {
        let mut element = Element::new("path");
        element.set("fill", "none");
        element.set("d", self.build());
        element
    }
}

impl Default for Data {
    fn default() -> (data: Data)
        ensures
            data@ == Seq::<Seq<char>>::empty(),
    {
        Data::new()
    }
}

} // verus!
