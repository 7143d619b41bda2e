//! Lengths and colours as they are written: which unit a length ends in,
//! which parts a length in inches is made of, which channels a colour holds.
//! A length is taken apart into texts; the numbers in them may be fractions
//! and are left to be read by the caller.
use crate::error::{Error, Failure};
use crate::strings::{chars_of, first_index, index_of_char, same_text};
use std::num::ParseIntError;
use vstd::prelude::*;
use vstd::string::{StrSliceExecFns, StringSliceAdditionalSpecFns};
use vstd::utf8::{
    decode_utf8, encode_utf8, encode_utf8_decode_utf8, encode_utf8_valid_utf8, is_char_boundary,
    is_char_boundary_start_end_of_seq, valid_utf8_split,
};

verus! {

/// Whether `char::is_numeric` holds of a character: whether Unicode puts it
/// into one of its categories of numbers.
pub uninterp spec fn numeric(c: char) -> bool;

/// `char::is_numeric`.
pub assume_specification[ char::is_numeric ](c: char) -> (result: bool)
    ensures
        result == numeric(c),
;

/// What `str::trim` returns: the text without the white space at its start
/// and at its end.
pub uninterp spec fn trimmed(text: Seq<char>) -> Seq<char>;

/// Calls `str::trim`.
#[verifier::external_body]
fn trim(text: &str) -> (inner: &str)
    ensures
        inner@ == trimmed(text@),
{
    text.trim()
}

/// What `i32::from_str_radix` returns for a text and the radix 16: the
/// number that the text is in hexadecimal, or why it is none.
pub uninterp spec fn hex_parsed(text: Seq<char>) -> Result<i32, ParseIntError>;

/// Calls `i32::from_str_radix` with the radix 16.
#[verifier::external_body]
fn parse_hex(text: &str) -> (result: Result<i32, ParseIntError>)
    ensures
        result == hex_parsed(text@),
{
    i32::from_str_radix(text, 16)
}

/// What stands in the last two bytes of a text.
pub open spec fn last_two(text: Seq<char>) -> Seq<char> {
    decode_utf8(encode_utf8(text).skip(encode_utf8(text).len() - 2))
}

/// The unit that a length ends in: its last two bytes, where it has more
/// than two and neither of the characters in them is numeric. Otherwise the
/// length has no unit.
pub open spec fn unit_suffix(text: Seq<char>) -> Seq<char> {
    if encode_utf8(text).len() > 2 && forall|i: int|
        0 <= i < last_two(text).len() ==> !numeric(#[trigger] last_two(text)[i]) {
        last_two(text)
    } else {
        Seq::empty()
    }
}

/// The last two bytes of a text of more than two bytes are whole characters.
pub open spec fn splits_before_last_two(text: Seq<char>) -> bool {
    encode_utf8(text).len() > 2 ==> is_char_boundary(
        encode_utf8(text),
        encode_utf8(text).len() - 2,
    )
}

/// Gets the unit from the end of a length, if it has one.
pub fn extract_unit(value: &str) -> (result: Result<&str, Error>)
    requires
        splits_before_last_two(value@),
    ensures
        result matches Ok(unit) && unit@ == unit_suffix(value@),
{
    let l: usize = value.as_bytes().len();
    if l > 2 {
        let (_, tail) = value.split_at(l - 2);
        proof {
            encode_utf8_decode_utf8(tail@);
            assert(tail@ == last_two(value@));
        }
        let chars = chars_of(tail);
        let mut i: usize = 0;
        while i < chars.len()
            invariant
                i <= chars@.len(),
                chars@ == last_two(value@),
                forall|j: int| 0 <= j < i ==> !numeric(#[trigger] chars@[j]),
            decreases chars@.len() - i,
        {
            if chars[i].is_numeric() {
                let none = "";
                proof {
                    reveal_strlit("");
                    assert(none@ =~= Seq::<char>::empty());
                }
                return Ok(none);
            }
            i += 1;
        }
        Ok(tail)
    } else {
        let none = "";
        proof {
            reveal_strlit("");
            assert(none@ =~= Seq::<char>::empty());
        }
        Ok(none)
    }
}

/// The units that a length can be given in.
#[derive(Clone, Copy, Debug, PartialEq, Eq, Structural)]
pub enum LengthUnit {
    Millimetres,
    Centimetres,
    Inches,
    Pixels,
    /// No unit, or one that is not known.
    Unmarked,
}

/// The unit with this name: `mm`, `cm`, `in` or `px`.
pub open spec fn unit_named(name: Seq<char>) -> LengthUnit {
    if name == "mm"@ {
        LengthUnit::Millimetres
    } else if name == "cm"@ {
        LengthUnit::Centimetres
    } else if name == "in"@ {
        LengthUnit::Inches
    } else if name == "px"@ {
        LengthUnit::Pixels
    } else {
        LengthUnit::Unmarked
    }
}

/// Tells the unit with this name.
pub fn unit_of(name: &str) -> (unit: LengthUnit)
    ensures
        unit == unit_named(name@),
{
    if same_text(name, "mm") {
        LengthUnit::Millimetres
    } else if same_text(name, "cm") {
        LengthUnit::Centimetres
    } else if same_text(name, "in") {
        LengthUnit::Inches
    } else if same_text(name, "px") {
        LengthUnit::Pixels
    } else {
        LengthUnit::Unmarked
    }
}

/// The text of a length in front of its unit: all but the last two bytes
/// where the length ends in a known unit, and all of it otherwise.
pub open spec fn length_number(text: Seq<char>) -> Seq<char> {
    if unit_named(unit_suffix(text)) is Unmarked {
        text
    } else {
        decode_utf8(encode_utf8(text).take(encode_utf8(text).len() - 2))
    }
}

/// Parts a length into its unit and the text in front of the unit.
pub fn split_length(value: &str) -> (parts: (LengthUnit, &str))
    requires
        splits_before_last_two(value@),
    ensures
        parts.0 == unit_named(unit_suffix(value@)),
        parts.1@ == length_number(value@),
{
    let unit = match extract_unit(value) {
        Ok(name) => unit_of(name),
        Err(_) => LengthUnit::Unmarked,
    };
    match unit {
        LengthUnit::Unmarked => (unit, value),
        _ => {
            proof {
                reveal_strlit("mm");
                reveal_strlit("cm");
                reveal_strlit("in");
                reveal_strlit("px");
                assert(unit_suffix(value@).len() == 2);
            }
            let l: usize = value.as_bytes().len();
            let (number, _) = value.split_at(l - 2);
            proof {
                encode_utf8_decode_utf8(number@);
                assert(encode_utf8(value@).subrange(0, l - 2) =~= encode_utf8(value@).take(l - 2));
            }
            (unit, number)
        },
    }
}

/// The parts of a length in inches.
pub enum Inches<'a> {
    /// A plain number.
    Plain(&'a str),
    /// A whole number of inches, a fraction of an inch, or both. Of a
    /// fraction the text above and the text below the stroke are given.
    Mixed { whole: Option<&'a str>, fraction: Option<(&'a str, &'a str)> },
}

/// What [`Inches`] stands for.
pub enum InchesView {
    Plain(Seq<char>),
    Mixed { whole: Option<Seq<char>>, fraction: Option<(Seq<char>, Seq<char>)> },
}

impl<'a> View for Inches<'a> {
    type V = InchesView;

    open spec fn view(&self) -> InchesView {
        match self {
            Inches::Plain(number) => InchesView::Plain(number@),
            Inches::Mixed { whole, fraction } => InchesView::Mixed {
                whole: match whole {
                    Some(whole) => Some(whole@),
                    None => None,
                },
                fraction: match fraction {
                    Some((top, bottom)) => Some((top@, bottom@)),
                    None => None,
                },
            },
        }
    }
}

/// A length without the `in` that it may end in.
pub open spec fn without_inches(text: Seq<char>) -> Seq<char> {
    if text.len() >= 2 && text[text.len() - 2] == 'i' && text[text.len() - 1] == 'n' {
        text.take(text.len() - 2)
    } else {
        text
    }
}

/// The parts of a length in inches. A length with a space or a stroke in it
/// is mixed: what stands before the first space is the whole part, and what
/// follows (the space included) is the fraction, if it holds a stroke; the
/// parts are trimmed. Any other length is a plain number.
pub open spec fn inch_parts(text: Seq<char>) -> InchesView {
    let number = without_inches(text);
    if number.contains(' ') || number.contains('/') {
        let space = first_index(number, ' ') as int;
        let remainder = if space < number.len() {
            number.skip(space)
        } else {
            number
        };
        let stroke = first_index(remainder, '/') as int;
        InchesView::Mixed {
            whole: if space < number.len() {
                Some(trimmed(number.take(space)))
            } else {
                None
            },
            fraction: if stroke < remainder.len() {
                Some((trimmed(remainder.take(stroke)), trimmed(remainder.skip(stroke + 1))))
            } else {
                None
            },
        }
    } else {
        InchesView::Plain(number)
    }
}

/// Parts a length in inches, see [`inch_parts`].
pub fn split_inches(value: &str) -> (parts: Inches)
    ensures
        parts@ == inch_parts(value@),
{
    let chars = chars_of(value);
    let n: usize = chars.len();
    let end: usize = if n >= 2 && chars[n - 2] == 'i' && chars[n - 1] == 'n' {
        n - 2
    } else {
        n
    };
    let number = value.substring_char(0, end);
    proof {
        assert(number@ =~= without_inches(value@));
    }
    let digits = chars_of(number);
    let space: usize = index_of_char(&digits, ' ');
    let stroke: usize = index_of_char(&digits, '/');
    proof {
        crate::strings::lemma_first_index_found(number@, ' ');
        crate::strings::lemma_first_index_found(number@, '/');
        if space < end {
            assert(number@.contains(' '));
        }
        if stroke < end {
            assert(number@.contains('/'));
        }
    }
    if space == end && stroke == end {
        return Inches::Plain(number);
    }
    let (whole, remainder) = if space < end {
        (Some(trim(number.substring_char(0, space))), number.substring_char(space, end))
    } else {
        proof {
            assert(number@.subrange(0, end as int) =~= number@);
        }
        (None, number.substring_char(0, end))
    };
    proof {
        if space < end {
            assert(number@.subrange(0, space as int) =~= number@.take(space as int));
            assert(number@.subrange(space as int, end as int) =~= number@.skip(space as int));
        }
    }
    let rest = chars_of(remainder);
    let split: usize = index_of_char(&rest, '/');
    let fraction = if split < rest.len() {
        proof {
            assert(remainder@.subrange(0, split as int) =~= remainder@.take(split as int));
            assert(remainder@.subrange(split + 1, rest@.len() as int) =~= remainder@.skip(
                split + 1,
            ));
        }
        Some(
            (
                trim(remainder.substring_char(0, split)),
                trim(remainder.substring_char(split + 1, rest.len())),
            ),
        )
    } else {
        None
    };
    Inches::Mixed { whole, fraction }
}

/// Where the digits of a colour start: behind the `#` that it may start
/// with.
pub open spec fn colour_start(bytes: Seq<u8>) -> int {
    if bytes.len() > 0 && bytes[0] == 0x23 {
        1
    } else {
        0
    }
}

/// The text in the bytes from `from` up to `to`.
pub open spec fn text_between(bytes: Seq<u8>, from: int, to: int) -> Seq<char> {
    decode_utf8(bytes.subrange(from, to))
}

/// The number in two digits, or with it the failure to read them.
pub open spec fn channel(digits: Seq<char>) -> Result<int, Failure> {
    match hex_parsed(digits) {
        Ok(number) => Ok(number as int),
        Err(_) => Err(Failure::Number),
    }
}

/// The text can be cut behind the byte before `at`: it is that long, and a
/// character ends there.
pub open spec fn cuts_at(bytes: Seq<u8>, at: int) -> bool {
    at <= bytes.len() && is_char_boundary(bytes, at)
}

/// The channels of a colour: red, green, blue and alpha, each the number in
/// two hexadecimal digits, but alpha in all that follows the sixth digit, and
/// 255 where nothing follows. A colour of fewer than six bytes is none, and
/// the first digits that are no number end the reading. There is no answer
/// where the reading comes to digits that cannot be cut out of the text.
pub open spec fn colour_channels(text: Seq<char>) -> Option<Result<(int, int, int, int), Failure>> {
    let bytes = encode_utf8(text);
    let start = colour_start(bytes);
    let end = bytes.len() as int;
    if bytes.len() < 6 {
        Some(Err(Failure::Colour))
    } else if !cuts_at(bytes, start + 2) {
        None
    } else {
        match channel(text_between(bytes, start, start + 2)) {
            Err(failure) => Some(Err(failure)),
            Ok(red) => if !cuts_at(bytes, start + 4) {
                None
            } else {
                match channel(text_between(bytes, start + 2, start + 4)) {
                    Err(failure) => Some(Err(failure)),
                    Ok(green) => if !cuts_at(bytes, start + 6) {
                        None
                    } else {
                        match channel(text_between(bytes, start + 4, start + 6)) {
                            Err(failure) => Some(Err(failure)),
                            Ok(blue) => if end > start + 6 {
                                match channel(text_between(bytes, start + 6, end)) {
                                    Err(failure) => Some(Err(failure)),
                                    Ok(alpha) => Some(Ok((red, green, blue, alpha))),
                                }
                            } else {
                                Some(Ok((red, green, blue, 255)))
                            },
                        }
                    },
                }
            },
        }
    }
}

/// Cuts the bytes from `from` up to `to` out of a text.
fn slice(value: &str, from: usize, to: usize) -> (part: &str)
    requires
        from <= to <= encode_utf8(value@).len(),
        is_char_boundary(encode_utf8(value@), from as int),
        is_char_boundary(encode_utf8(value@), to as int),
    ensures
        part@ == text_between(encode_utf8(value@), from as int, to as int),
{
    let ghost bytes = encode_utf8(value@);
    let (head, _) = value.split_at(to);
    proof {
        encode_utf8_valid_utf8(value@);
        valid_utf8_split(bytes, to as int);
        lemma_boundary_in_head(bytes, from as int, to as int);
    }
    let (_, part) = head.split_at(from);
    proof {
        encode_utf8_decode_utf8(part@);
        assert(bytes.subrange(0, to as int).subrange(from as int, to as int) =~= bytes.subrange(
            from as int,
            to as int,
        ));
    }
    part
}

/// A boundary of a text is a boundary of each head of the text that
/// reaches it.
proof fn lemma_boundary_in_head(bytes: Seq<u8>, index: int, to: int)
    requires
        vstd::utf8::valid_utf8(bytes),
        0 <= index <= to <= bytes.len(),
        is_char_boundary(bytes, index),
        is_char_boundary(bytes, to),
    ensures
        is_char_boundary(bytes.subrange(0, to), index),
{
    let head = bytes.subrange(0, to);
    valid_utf8_split(bytes, to);
    if index == to {
        is_char_boundary_start_end_of_seq(head);
    } else if index > 0 {
        vstd::utf8::is_char_boundary_iff_not_is_continuation_byte(bytes, index);
        vstd::utf8::is_char_boundary_iff_not_is_continuation_byte(head, index);
    }
}

/// A result of reading a colour, with the numbers as integers and the error
/// by its kind.
pub open spec fn channels_read(result: Result<(i32, i32, i32, i32), Error>) -> Result<
    (int, int, int, int),
    Failure,
> {
    match result {
        Ok(channels) => Ok(
            (channels.0 as int, channels.1 as int, channels.2 as int, channels.3 as int),
        ),
        Err(error) => Err(error.kind()),
    }
}

/// Tells whether the text can be cut at `at`.
fn can_cut(value: &str, at: usize) -> (can: bool)
    ensures
        can == cuts_at(encode_utf8(value@), at as int),
{
    at <= value.as_bytes().len() && value.is_char_boundary(at)
}

/// Reads the channels of a colour, see [`colour_channels`]. A colour that is
/// too short is handed back in the error.
pub fn parse_channels(value: &str) -> (result: Option<Result<(i32, i32, i32, i32), Error>>)
    ensures
        match result {
            Some(read) => colour_channels(value@) == Some(channels_read(read)) && (read matches Err(
                Error::ColourError(text),
            ) ==> text@ == value@),
            None => colour_channels(value@) is None,
        },
{
    let bytes = value.as_bytes();
    let end: usize = bytes.len();
    if end < 6 {
        return Some(Err(Error::ColourError(value.to_owned())));
    }
    let start: usize = if bytes[0] == 0x23 {
        1
    } else {
        0
    };
    proof {
        encode_utf8_valid_utf8(value@);
        is_char_boundary_start_end_of_seq(encode_utf8(value@));
        if start == 1 {
            lemma_boundary_behind_ascii(encode_utf8(value@));
        }
    }
    if !can_cut(value, start + 2) {
        return None;
    }
    let red = match parse_hex(slice(value, start, start + 2)) {
        Ok(number) => number,
        Err(error) => {
            return Some(Err(Error::ParseInt(error)));
        },
    };
    if !can_cut(value, start + 4) {
        return None;
    }
    let green = match parse_hex(slice(value, start + 2, start + 4)) {
        Ok(number) => number,
        Err(error) => {
            return Some(Err(Error::ParseInt(error)));
        },
    };
    if !can_cut(value, start + 6) {
        return None;
    }
    let blue = match parse_hex(slice(value, start + 4, start + 6)) {
        Ok(number) => number,
        Err(error) => {
            return Some(Err(Error::ParseInt(error)));
        },
    };
    let mut alpha: i32 = 255;
    if end > start + 6 {
        alpha = match parse_hex(slice(value, start + 6, end)) {
            Ok(number) => number,
            Err(error) => {
                return Some(Err(Error::ParseInt(error)));
            },
        };
    }
    Some(Ok((red, green, blue, alpha)))
}

/// Behind a first byte that is a character of its own, a character starts.
proof fn lemma_boundary_behind_ascii(bytes: Seq<u8>)
    requires
        vstd::utf8::valid_utf8(bytes),
        bytes.len() > 0,
        bytes[0] < 0x80,
    ensures
        is_char_boundary(bytes, 1),
{
    reveal_with_fuel(is_char_boundary, 2);
    reveal_with_fuel(vstd::utf8::valid_utf8, 2);
}

} // verus!
