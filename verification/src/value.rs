//! Attribute values, and the scalar kinds that can be turned into one.
use crate::strings::{
    contains_char, decimal, signed_decimal, signed_to_string, unsigned_to_string,
};
use vstd::prelude::*;
use vstd::std_specs::convert::FromSpecImpl;
use vstd::string::StringExecFns;

verus! {

/// The text stored for an attribute. Integers, booleans and strings all turn
/// into a `Value`; what is kept is their text.
///
/// Each `From` impl states in its own contract which text the new value
/// holds. The value itself holds a newly made string, which no spec function
/// can name, so the impls do not go by `from_spec`.
#[derive(Debug)]
pub struct Value {
    value: String,
}

impl View for Value {
    type V = Seq<char>;

    closed spec fn view(&self) -> Seq<char> {
        self.value@
    }
}

/// How an attribute value is written out: between double quotes, or between
/// single quotes when the text itself holds a double quote. The text is not
/// escaped.
pub open spec fn quoted(text: Seq<char>) -> Seq<char> {
    if text.contains('"') {
        seq!['\''] + text + seq!['\'']
    } else {
        seq!['"'] + text + seq!['"']
    }
}

/// The text of a boolean.
pub open spec fn bool_text(b: bool) -> Seq<char> {
    if b {
        seq!['t', 'r', 'u', 'e']
    } else {
        seq!['f', 'a', 'l', 's', 'e']
    }
}

impl Value {
    /// The stored text, without quotes.
    pub fn to_string_bare(&self) -> (text: String)
        ensures
            text@ == self@,
    {
        self.value.clone()
    }

    /// The stored text as it stands in an attribute: quoted, see [`quoted`].
    pub fn to_string(&self) -> (text: String)
        ensures
            text@ == quoted(self@),
    {
        let quote = if contains_char(self.value.as_str(), '"') {
            "'"
        } else {
            "\""
        };
        proof {
            reveal_strlit("'");
            reveal_strlit("\"");
        }
        let mut out = String::from_str(quote);
        out.append(self.value.as_str());
        out.append(quote);
        assert(out@ =~= quoted(self@));
        out
    }
}

impl Clone for Value {
    fn clone(&self) -> (copy: Self)
        ensures
            copy@ == self@,
    {
        Value { value: self.value.clone() }
    }
}

impl From<String> for Value {
    fn from(other: String) -> (value: Value)
        ensures
            value@ == other@,
    {
        Value { value: other }
    }
}

impl FromSpecImpl<String> for Value {
    open spec fn obeys_from_spec() -> bool {
        false
    }

    open spec fn from_spec(other: String) -> Value {
        arbitrary()
    }
}

impl<'a> From<&'a str> for Value {
    fn from(other: &'a str) -> (value: Value)
        ensures
            value@ == other@,
    {
        Value { value: String::from_str(other) }
    }
}

impl<'a> FromSpecImpl<&'a str> for Value {
    open spec fn obeys_from_spec() -> bool {
        false
    }

    open spec fn from_spec(other: &'a str) -> Value {
        arbitrary()
    }
}

impl From<bool> for Value {
    fn from(inner: bool) -> (value: Value)
        ensures
            value@ == bool_text(inner),
    {
        proof {
            reveal_strlit("true");
            reveal_strlit("false");
        }
        let text = if inner {
            "true"
        } else {
            "false"
        };
        let value = Value { value: String::from_str(text) };
        assert(value@ =~= bool_text(inner));
        value
    }
}

impl FromSpecImpl<bool> for Value {
    open spec fn obeys_from_spec() -> bool {
        false
    }

    open spec fn from_spec(inner: bool) -> Value {
        arbitrary()
    }
}

impl From<i8> for Value {
    fn from(inner: i8) -> (value: Value)
        ensures
            value@ == signed_decimal(inner as int),
    {
        Value { value: signed_to_string(inner as i128) }
    }
}

impl FromSpecImpl<i8> for Value {
    open spec fn obeys_from_spec() -> bool {
        false
    }

    open spec fn from_spec(inner: i8) -> Value {
        arbitrary()
    }
}

impl From<i16> for Value {
    fn from(inner: i16) -> (value: Value)
        ensures
            value@ == signed_decimal(inner as int),
    {
        Value { value: signed_to_string(inner as i128) }
    }
}

impl FromSpecImpl<i16> for Value {
    open spec fn obeys_from_spec() -> bool {
        false
    }

    open spec fn from_spec(inner: i16) -> Value {
        arbitrary()
    }
}

impl From<i32> for Value {
    fn from(inner: i32) -> (value: Value)
        ensures
            value@ == signed_decimal(inner as int),
    {
        Value { value: signed_to_string(inner as i128) }
    }
}

impl FromSpecImpl<i32> for Value {
    open spec fn obeys_from_spec() -> bool {
        false
    }

    open spec fn from_spec(inner: i32) -> Value {
        arbitrary()
    }
}

impl From<i64> for Value {
    fn from(inner: i64) -> (value: Value)
        ensures
            value@ == signed_decimal(inner as int),
    {
        Value { value: signed_to_string(inner as i128) }
    }
}

impl FromSpecImpl<i64> for Value {
    open spec fn obeys_from_spec() -> bool {
        false
    }

    open spec fn from_spec(inner: i64) -> Value {
        arbitrary()
    }
}

impl From<isize> for Value {
    fn from(inner: isize) -> (value: Value)
        ensures
            value@ == signed_decimal(inner as int),
    {
        Value { value: signed_to_string(inner as i128) }
    }
}

impl FromSpecImpl<isize> for Value {
    open spec fn obeys_from_spec() -> bool {
        false
    }

    open spec fn from_spec(inner: isize) -> Value {
        arbitrary()
    }
}

impl From<u8> for Value {
    fn from(inner: u8) -> (value: Value)
        ensures
            value@ == decimal(inner as nat),
    {
        Value { value: unsigned_to_string(inner as u128) }
    }
}

impl FromSpecImpl<u8> for Value {
    open spec fn obeys_from_spec() -> bool {
        false
    }

    open spec fn from_spec(inner: u8) -> Value {
        arbitrary()
    }
}

impl From<u16> for Value {
    fn from(inner: u16) -> (value: Value)
        ensures
            value@ == decimal(inner as nat),
    {
        Value { value: unsigned_to_string(inner as u128) }
    }
}

impl FromSpecImpl<u16> for Value {
    open spec fn obeys_from_spec() -> bool {
        false
    }

    open spec fn from_spec(inner: u16) -> Value {
        arbitrary()
    }
}

impl From<u32> for Value {
    fn from(inner: u32) -> (value: Value)
        ensures
            value@ == decimal(inner as nat),
    {
        Value { value: unsigned_to_string(inner as u128) }
    }
}

impl FromSpecImpl<u32> for Value {
    open spec fn obeys_from_spec() -> bool {
        false
    }

    open spec fn from_spec(inner: u32) -> Value {
        arbitrary()
    }
}

impl From<u64> for Value {
    fn from(inner: u64) -> (value: Value)
        ensures
            value@ == decimal(inner as nat),
    {
        Value { value: unsigned_to_string(inner as u128) }
    }
}

impl FromSpecImpl<u64> for Value {
    open spec fn obeys_from_spec() -> bool {
        false
    }

    open spec fn from_spec(inner: u64) -> Value {
        arbitrary()
    }
}

impl From<usize> for Value {
    fn from(inner: usize) -> (value: Value)
        ensures
            value@ == decimal(inner as nat),
    {
        Value { value: unsigned_to_string(inner as u128) }
    }
}

impl FromSpecImpl<usize> for Value {
    open spec fn obeys_from_spec() -> bool {
        false
    }

    open spec fn from_spec(inner: usize) -> Value {
        arbitrary()
    }
}

} // verus!
