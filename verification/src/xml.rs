//! The calls into the XML tokenizer, and what this crate takes for granted
//! of them.
//!
//! The tokenizer is `quick_xml`. Nothing in this file is proved: each
//! contract here states what the tokenizer's source shows, and the rest of
//! the crate is proved from these contracts.
use crate::read::{RawAttribute, Token};
use quick_xml::events::attributes::{AttrError, Attribute};
use quick_xml::events::{BytesStart, BytesText, Event};
use quick_xml::Error as MarkupError;
use quick_xml::Reader;
use std::str::Utf8Error;
use vstd::prelude::*;
use vstd::string::StringSliceAdditionalSpecFns;
use vstd::utf8::valid_utf8;

verus! {

/// `quick_xml::Reader`, the tokenizer over an input.
#[verifier::external_type_specification]
#[verifier::external_body]
#[verifier::reject_recursive_types(R)]
pub struct ExReader<R>(quick_xml::Reader<R>);

/// `quick_xml::events::BytesStart`, the raw content of an opening or
/// self-closing tag.
#[verifier::external_type_specification]
#[verifier::external_body]
pub struct ExBytesStart<'a>(quick_xml::events::BytesStart<'a>);

/// `quick_xml::events::BytesText`, the raw content of character data.
#[verifier::external_type_specification]
#[verifier::external_body]
pub struct ExBytesText<'a>(quick_xml::events::BytesText<'a>);

/// `quick_xml::Error`, the tokenizer's error for malformed markup.
#[verifier::external_type_specification]
#[verifier::external_body]
pub struct ExMarkupError(MarkupError);

/// `quick_xml::events::attributes::AttrError`, the tokenizer's error for a
/// malformed attribute list.
#[verifier::external_type_specification]
#[verifier::external_body]
pub struct ExAttrError(quick_xml::events::attributes::AttrError);

/// `std::str::Utf8Error`.
#[verifier::external_type_specification]
#[verifier::external_body]
pub struct ExUtf8Error(std::str::Utf8Error);

/// The results that `Reader::read_event` yields, call after call, from a
/// reader made by `Reader::from_str` over `input` with `trim_text(true)`, up
/// to and including the first end of input or error. The contracts use this
/// only of an input without a document type declaration that has no name.
pub uninterp spec fn xml_events(input: Seq<char>) -> Seq<Result<Token<'static>, MarkupError>>;

/// The results that `Reader::read_event` yields, call after call, from the
/// state that `reader` is in, up to and including the first end of input or
/// error. A reader that has reported either one reports the end of input
/// from then on, so this is never empty.
pub uninterp spec fn upcoming(reader: Reader<&[u8]>) -> Seq<Result<Token, MarkupError>>;

/// A blank, a tab, a line feed or a carriage return: the white space of the
/// tokenizer.
pub open spec fn is_space(byte: u8) -> bool {
    byte == 0x20 || byte == 0x09 || byte == 0x0a || byte == 0x0d
}

/// The byte is this capital letter or the small letter of it.
pub open spec fn is_letter(byte: u8, capital: u8) -> bool {
    byte == capital || byte == capital + 0x20
}

/// At `at` the bytes read `<!DOCTYPE`, in capital or small letters.
pub open spec fn opens_doctype(bytes: Seq<u8>, at: int) -> bool {
    &&& 0 <= at
    &&& at + 9 <= bytes.len()
    &&& bytes[at] == 0x3c
    &&& bytes[at + 1] == 0x21
    &&& is_letter(bytes[at + 2], 0x44)
    &&& is_letter(bytes[at + 3], 0x4f)
    &&& is_letter(bytes[at + 4], 0x43)
    &&& is_letter(bytes[at + 5], 0x54)
    &&& is_letter(bytes[at + 6], 0x59)
    &&& is_letter(bytes[at + 7], 0x50)
    &&& is_letter(bytes[at + 8], 0x45)
}

/// At `at` stands a document type declaration without a name: `<!DOCTYPE`,
/// then nothing but white space up to the `>` that ends it.
pub open spec fn nameless_doctype_at(bytes: Seq<u8>, at: int) -> bool {
    &&& opens_doctype(bytes, at)
    &&& exists|end: int|
        at + 9 <= end < bytes.len() && #[trigger] bytes[end] == 0x3e && forall|j: int|
            at + 9 <= j < end ==> is_space(#[trigger] bytes[j])
}

/// Somewhere in the bytes stands a document type declaration without a name.
pub open spec fn has_nameless_doctype(bytes: Seq<u8>) -> bool {
    exists|at: int| nameless_doctype_at(bytes, at)
}

/// None of the document type declarations that `reader` has yet to read is
/// without a name. On one without a name `Reader::read_event` panics where
/// the tokenizer is built with its debug assertions.
pub uninterp spec fn reads_named_doctypes(reader: Reader<&[u8]>) -> bool;

/// The bytes that a tag holds: its name and, behind the name, its attribute
/// list as it stands in the input.
pub uninterp spec fn tag_bytes(tag: BytesStart) -> Seq<u8>;

/// The number of bytes of a tag that make up its name.
pub uninterp spec fn tag_name_length(tag: BytesStart) -> nat;

/// The name of a tag ends within the bytes that the tag holds. The tags that
/// the tokenizer yields are of this kind; one that is made of a content and a
/// name length of the caller's choice need not be.
pub open spec fn tag_well_formed(tag: BytesStart) -> bool {
    tag_name_length(tag) <= tag_bytes(tag).len()
}

/// The items that the iterator of `BytesStart::attributes` yields for a tag
/// with these bytes, of which the first `name_length` are its name: for each
/// attribute its raw name and raw value, or the error found in its place.
pub uninterp spec fn attribute_items(content: Seq<u8>, name_length: nat) -> Seq<
    Result<(Seq<u8>, Seq<u8>), AttrError>,
>;

/// What `Attribute::unescape_value` returns for an attribute with this raw
/// value: the value decoded as UTF-8 with its character and entity references
/// replaced, or the error.
pub uninterp spec fn value_unescaped(raw: Seq<u8>) -> Result<Seq<char>, MarkupError>;

/// The bytes that character data holds, as they stand in the input.
pub uninterp spec fn text_bytes(text: BytesText) -> Seq<u8>;

/// What `BytesText::unescape` returns for character data with these bytes:
/// the data decoded as UTF-8 with its character and entity references
/// replaced, or the error.
pub uninterp spec fn text_unescaped(raw: Seq<u8>) -> Result<Seq<char>, MarkupError>;

/// The tag of an event, if it has one, is well formed.
pub open spec fn token_well_formed(token: Token) -> bool {
    match token {
        Token::Start(tag) => tag_well_formed(tag),
        Token::Empty(tag) => tag_well_formed(tag),
        _ => true,
    }
}

/// A tokenizer result with its text taken by its view.
pub open spec fn text_result(result: Result<String, MarkupError>) -> Result<
    Seq<char>,
    MarkupError,
> {
    match result {
        Ok(text) => Ok(text@),
        Err(error) => Err(error),
    }
}

/// An attribute item with its bytes taken by their views.
pub open spec fn item_view(item: Result<RawAttribute, AttrError>) -> Result<
    (Seq<u8>, Seq<u8>),
    AttrError,
> {
    match item {
        Ok(attribute) => Ok((attribute.key@, attribute.value@)),
        Err(error) => Err(error),
    }
}

/// Calls `Reader::from_str` and `Reader::trim_text(true)`. The reader starts
/// at the beginning of `input`, so what it will yield is what the tokenizer
/// yields for `input`. The reader cuts a document type declaration out of the
/// input in one piece, from `<!` to `>`, so where the input holds none
/// without a name, the reader has none to read.
#[verifier::external_body]
pub(crate) fn open_reader<'a>(input: &'a str) -> (reader: Reader<&'a [u8]>)
    requires
        !has_nameless_doctype(input.spec_bytes()),
    ensures
        upcoming(reader) == xml_events(input@),
        reads_named_doctypes(reader),
{
    let mut reader = Reader::from_str(input);
    reader.trim_text(true);
    reader
}

/// Calls `Reader::read_event` and tells the kinds of event apart. The result
/// is the first of those that the reader had to come. Every event but the end
/// of input consumes input, so after such an event the reader has the rest
/// to come, and that is shorter. The reader cuts the name of a tag out of the
/// content of the tag, so the tag is well formed. The call panics on a
/// document type declaration without a name.
#[verifier::external_body]
pub(crate) fn next_token<'a>(reader: &mut Reader<&'a [u8]>) -> (result: Result<
    Token<'a>,
    MarkupError,
>)
    requires
        reads_named_doctypes(*old(reader)),
    ensures
        upcoming(*old(reader)).len() > 0,
        result == upcoming(*old(reader))[0],
        result is Ok && !(result->Ok_0 is Eof) ==> upcoming(*final(reader)) == upcoming(
            *old(reader),
        ).drop_first(),
        result matches Ok(token) ==> token_well_formed(token),
        reads_named_doctypes(*final(reader)),
{
    reader.read_event().map(|event| match event {
        Event::Start(tag) => Token::Start(tag),
        Event::End(_) => Token::End,
        Event::Empty(tag) => Token::Empty(tag),
        Event::Text(text) => Token::Text(text),
        Event::Comment(_) => Token::Comment,
        Event::CData(_) => Token::CData,
        Event::Decl(_) => Token::Decl,
        Event::PI(_) => Token::PI,
        Event::DocType(_) => Token::DocType,
        Event::Eof => Token::Eof,
    })
}

/// Calls `BytesStart::name` and hands out the bytes of the name: the first
/// bytes of the tag, as many as the name is long. The call panics on a tag
/// that is not well formed.
#[verifier::external_body]
pub(crate) fn tag_name<'a>(tag: &'a BytesStart) -> (name: &'a [u8])
    requires
        tag_well_formed(*tag),
    ensures
        name@ == tag_bytes(*tag).take(tag_name_length(*tag) as int),
{
    tag.name().0
}

/// Calls `BytesStart::attributes` and collects what the iterator yields, the
/// name and value of each attribute copied as they stand. The iterator starts
/// behind the name, and panics on a tag that is not well formed.
#[verifier::external_body]
pub(crate) fn tag_attributes(tag: &BytesStart) -> (items: Vec<Result<RawAttribute, AttrError>>)
    requires
        tag_well_formed(*tag),
    ensures
        items@.map_values(|item| item_view(item)) == attribute_items(
            tag_bytes(*tag),
            tag_name_length(*tag),
        ),
{
    tag.attributes().map(
        |item|
            item.map(
                |attribute|
                    RawAttribute { key: attribute.key.0.to_vec(), value: attribute.value.into_owned() },
            ),
    ).collect()
}

/// Calls `Attribute::unescape_value` on an attribute with the raw value
/// `value`. The result does not depend on the attribute's name.
#[verifier::external_body]
pub(crate) fn unescape_value(value: &[u8]) -> (result: Result<String, MarkupError>)
    ensures
        text_result(result) == value_unescaped(value@),
{
    Attribute::from((&b""[..], value)).unescape_value().map(|text| text.into_owned())
}

/// Calls `BytesText::deref`, which hands out the bytes that the character
/// data holds.
#[verifier::external_body]
pub(crate) fn text_content<'a>(text: &'a BytesText) -> (bytes: &'a [u8])
    ensures
        bytes@ == text_bytes(*text),
{
    std::ops::Deref::deref(text)
}

/// Calls `BytesText::unescape`, whose result is decided by the bytes that
/// the character data holds.
#[verifier::external_body]
pub(crate) fn unescape_text(text: &BytesText) -> (result: Result<String, MarkupError>)
    ensures
        text_result(result) == text_unescaped(text_bytes(*text)),
{
    text.unescape().map(|text| text.into_owned())
}

/// Calls `std::str::from_utf8`, which succeeds exactly on valid UTF-8 and
/// then returns the same bytes as a string slice.
#[verifier::external_body]
pub(crate) fn utf8_text<'a>(bytes: &'a [u8]) -> (result: Result<&'a str, Utf8Error>)
    ensures
        result is Ok <==> valid_utf8(bytes@),
        result matches Ok(text) ==> text.spec_bytes() == bytes@,
{
    std::str::from_utf8(bytes)
}

} // verus!
