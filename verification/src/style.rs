//! The `style` attribute: clauses `key:value` separated by `;`.
use crate::error::Error;
use crate::strings::{chars_of, first_index, lemma_first_index};
use vstd::hash_map::StringHashMap;
use vstd::prelude::*;
use vstd::string::{StrSliceExecFns, StringExecFns};

verus! {

/// Decodes the clauses of `text` from left to right on top of `found`. The
/// text is cut at each `;`, and every piece is a clause: what stands before
/// the first `;`, between two of them, and behind the last. A clause is split
/// at its first `:` into a key and a value; a later clause replaces an earlier
/// one with the same key. A clause without `:`, the empty one too, makes the
/// whole decoding fail.
pub open spec fn decode_clauses(
    text: Seq<char>,
    found: Map<Seq<char>, Seq<char>>,
) -> Option<Map<Seq<char>, Seq<char>>>
    decreases text.len(),
{
    let end = first_index(text, ';') as int;
    let clause = text.take(end);
    let colon = first_index(clause, ':') as int;
    if colon == clause.len() {
        None
    } else {
        let found = found.insert(clause.take(colon), clause.skip(colon + 1));
        if end >= text.len() {
            Some(found)
        } else {
            decode_clauses(text.skip(end + 1), found)
        }
    }
}

/// The mapping that the text of a `style` attribute stands for. The empty
/// text holds no clause and stands for the empty mapping. Any other text
/// holds one clause more than it holds `;`, and stands for a mapping if each
/// of them has a `:`; so a text that ends in `;` stands for none.
pub open spec fn decode_style(text: Seq<char>) -> Option<Map<Seq<char>, Seq<char>>> {
    if text.len() == 0 {
        Some(Map::empty())
    } else {
        decode_clauses(text, Map::empty())
    }
}

/// The text that a clause adds to a `style` attribute: `key:value` on its
/// own, or behind `;` where there is text already.
pub open spec fn append_clause(existing: Option<Seq<char>>, key: Seq<char>, value: Seq<char>) -> Seq<char> {
    match existing {
        Some(text) => text + seq![';'] + key + seq![':'] + value,
        None => key + seq![':'] + value,
    }
}

/// A decoded mapping with its texts taken by their views.
pub open spec fn texts(map: Map<Seq<char>, String>) -> Map<Seq<char>, Seq<char>> {
    map.map_values(|text: String| text@)
}

/// Decodes the text of a `style` attribute, see [`decode_style`].
pub fn parse_style(text: &str) -> (result: Result<StringHashMap<String>, Error>)
    ensures
        match result {
            Ok(map) => decode_style(text@) == Some(texts(map@)),
            Err(error) => error is MalformedStyle && decode_style(text@) is None,
        },
{
    let chars = chars_of(text);
    let n = chars.len();
    let mut map: StringHashMap<String> = StringHashMap::new();
    assert(texts(map@) =~= Map::empty());
    if n == 0 {
        return Ok(map);
    }
    let mut start: usize = 0;
    assert(text@.skip(0) =~= text@);
    loop
        invariant
            chars@ == text@,
            n == chars@.len(),
            start <= n,
            decode_style(text@) == decode_clauses(text@.skip(start as int), texts(map@)),
        decreases n - start,
    {
        let ghost rest = text@.skip(start as int);
        let mut end = start;
        while end < n && chars[end] != ';'
            invariant
                chars@ == text@,
                n == chars@.len(),
                start <= end <= n,
                forall|j: int| start <= j < end ==> chars@[j] != ';',
            decreases n - end,
        {
            end += 1;
        }
        let mut colon = start;
        while colon < end && chars[colon] != ':'
            invariant
                chars@ == text@,
                n == chars@.len(),
                start <= colon <= end <= n,
                forall|j: int| start <= j < colon ==> chars@[j] != ':',
            decreases end - colon,
        {
            colon += 1;
        }
        let ghost clause = rest.take(end - start);
        proof {
            lemma_first_index(rest, ';', end - start);
            lemma_first_index(clause, ':', colon - start);
        }
        if colon == end {
            return Err(Error::MalformedStyle);
        }
        let key = String::from_str(text.substring_char(start, colon));
        let value = String::from_str(text.substring_char(colon + 1, end));
        let ghost before = texts(map@);
        map.insert(key, value);
        proof {
            assert(key@ =~= clause.take(colon - start));
            assert(value@ =~= clause.skip(colon - start + 1));
            assert(texts(map@) =~= before.insert(key@, value@));
        }
        if end == n {
            return Ok(map);
        }
        proof {
            assert(rest.skip(end - start + 1) =~= text@.skip(end + 1));
        }
        start = end + 1;
    }
}

/// A colour as it is written in a style, such as `black` or `#345623`.
pub type Colour = String;

/// The clause that sets the stroke colour.
pub fn style_stroke_colour(stroke: Colour) -> (style: String)
    ensures
        style@ == "stroke:"@ + stroke@ + ";"@,
{
    let mut style = String::from_str("stroke:");
    style.append(stroke.as_str());
    style.append(";");
    style
}

/// The clause that sets the fill colour.
pub fn style_fill(fill: Colour) -> (style: String)
    ensures
        style@ == "fill:"@ + fill@ + ";"@,
{
    let mut style = String::from_str("fill:");
    style.append(fill.as_str());
    style.append(";");
    style
}

/// The clauses that set the colour, the width and the opacity of the
/// stroke. Width and opacity are taken as the text that is to be written.
pub fn style_stroke(stroke: Colour, width: &str, opacity: &str) -> (style: String)
    ensures
        style@ == "stroke:"@ + stroke@ + ";stroke-width:"@ + width@ + ";stroke-opacity:"@
            + opacity@ + ";"@,
{
    let mut style = String::from_str("stroke:");
    style.append(stroke.as_str());
    style.append(";stroke-width:");
    style.append(width);
    style.append(";stroke-opacity:");
    style.append(opacity);
    style.append(";");
    style
}

} // verus!
