//! The errors that decoding can end in.
use quick_xml::events::attributes::AttrError;
use std::num::ParseIntError;
use std::str::Utf8Error;
use vstd::prelude::*;

verus! {

/// `std::num::ParseIntError`.
#[verifier::external_type_specification]
#[verifier::external_body]
pub struct ExParseIntError(std::num::ParseIntError);

/// Why decoding failed. Building a tree and writing it out never fail.
#[derive(Debug)]
pub enum Error {
    /// The name of a paper is not known, or does not give two lengths.
    UnknownPaper(String),
    /// A clause of a `style` attribute has no `:`.
    MalformedStyle,
    /// The markup itself is malformed; the tokenizer's error is kept.
    XMLError(quick_xml::Error),
    /// The attributes of a tag are malformed; the tokenizer's error is kept.
    XMLAttrError(AttrError),
    /// The input holds no element that was opened and closed at top level:
    /// it ends, or goes on with something that needs an open element, before
    /// any root is complete.
    EmptyDocument,
    /// A name, an attribute value or text is not valid UTF-8.
    UTF8Error(Utf8Error),
    /// Behind the root, text or a self-closing tag stands outside of any open
    /// element, or a closing tag closes nothing.
    MalformedDocument,
    /// A document type declaration has no name.
    NamelessDocType,
    /// Two digits of a colour are no number.
    ParseInt(ParseIntError),
    /// A colour is too short to hold three channels.
    ColourError(String),
}

/// The kinds of failure, without what the tokenizer reported.
pub enum Failure {
    UnknownPaper,
    MalformedStyle,
    MarkupSyntax,
    AttributeSyntax,
    EmptyDocument,
    Encoding,
    MalformedDocument,
    Number,
    Colour,
}

impl Error {
    /// The kind of this error.
    pub open spec fn kind(&self) -> Failure {
        match self {
            Error::UnknownPaper(_) => Failure::UnknownPaper,
            Error::MalformedStyle => Failure::MalformedStyle,
            Error::XMLError(_) => Failure::MarkupSyntax,
            Error::XMLAttrError(_) => Failure::AttributeSyntax,
            Error::EmptyDocument => Failure::EmptyDocument,
            Error::UTF8Error(_) => Failure::Encoding,
            Error::MalformedDocument => Failure::MalformedDocument,
            Error::NamelessDocType => Failure::MarkupSyntax,
            Error::ParseInt(_) => Failure::Number,
            Error::ColourError(_) => Failure::Colour,
        }
    }
}

} // verus!
