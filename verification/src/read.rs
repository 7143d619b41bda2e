//! Reading a document back from text.
//!
//! The text is cut into events by the tokenizer (see [`crate::xml`]). The
//! events drive a [`Parser`]: a stack of the elements that are open, and the
//! last element that was closed at top level. A text that the tokenizer
//! cannot be asked to cut, one with a document type declaration without a
//! name, is turned away before.
use crate::element::{Element, ElementView, Node, NodeView};
use crate::error::{Error, Failure};
use crate::xml::{
    attribute_items, has_nameless_doctype, is_space, item_view, nameless_doctype_at, next_token,
    open_reader, opens_doctype, reads_named_doctypes, tag_attributes, tag_bytes, tag_name,
    tag_name_length, tag_well_formed, text_bytes, text_content, text_unescaped,
    token_well_formed, unescape_text, unescape_value, upcoming, utf8_text, value_unescaped,
    xml_events,
};
use quick_xml::events::attributes::AttrError;
use quick_xml::events::{BytesStart, BytesText};
use quick_xml::Error as MarkupError;
use vstd::prelude::*;
use vstd::string::StringSliceAdditionalSpecFns;
use vstd::utf8::{decode_utf8, encode_utf8, encode_utf8_decode_utf8, valid_utf8};

verus! {

/// One event of the tokenizer, reduced to what the reader acts on.
pub enum Token<'a> {
    /// An opening tag.
    Start(BytesStart<'a>),
    /// A self-closing tag.
    Empty(BytesStart<'a>),
    /// A closing tag.
    End,
    /// Character data.
    Text(BytesText<'a>),
    /// A comment.
    Comment,
    /// Character data in a `CDATA` section.
    CData,
    /// The declaration at the start of a document.
    Decl,
    /// A processing instruction.
    PI,
    /// A document type declaration.
    DocType,
    /// The end of the input.
    Eof,
}

/// The raw name and raw value of one attribute of a tag.
pub struct RawAttribute {
    pub key: Vec<u8>,
    pub value: Vec<u8>,
}

/// What a [`Parser`] stands for.
#[verifier::ext_equal]
pub struct ParserView {
    /// The elements that are open, the outermost first.
    pub stack: Seq<ElementView>,
    /// The last element that was closed with no element open around it.
    pub root: Option<ElementView>,
}

impl ParserView {
    /// Nothing open, nothing closed.
    pub open spec fn empty() -> ParserView {
        ParserView { stack: Seq::empty(), root: None }
    }

    /// An opening tag: the element becomes the innermost open element.
    pub open spec fn open(self, element: ElementView) -> ParserView {
        ParserView { stack: self.stack.push(element), ..self }
    }

    /// Why an event fails that needs an open element when none is open:
    /// before any root is complete there is no document yet, behind a root
    /// the document is malformed.
    pub open spec fn outside(self) -> Failure {
        if self.root is None {
            Failure::EmptyDocument
        } else {
            Failure::MalformedDocument
        }
    }

    /// A node becomes the last child of the innermost open element. With no
    /// element open this fails, see [`Self::outside`].
    pub open spec fn append(self, node: NodeView) -> Result<ParserView, Failure> {
        if self.stack.len() == 0 {
            Err(self.outside())
        } else {
            Ok(
                ParserView {
                    stack: self.stack.drop_last().push(self.stack.last().with_child(node)),
                    ..self
                },
            )
        }
    }

    /// A closing tag: the innermost open element is closed. It becomes the
    /// last child of the element around it, or the root where there is none.
    /// With no element open this fails, see [`Self::outside`].
    pub open spec fn close(self) -> Result<ParserView, Failure> {
        if self.stack.len() == 0 {
            Err(self.outside())
        } else if self.stack.len() == 1 {
            Ok(ParserView { stack: Seq::empty(), root: Some(self.stack[0]) })
        } else {
            ParserView { stack: self.stack.drop_last(), ..self }.append(
                NodeView::Element(self.stack.last()),
            )
        }
    }

    /// The end of the input: the root, if an element was closed at top
    /// level. Elements that are still open are dropped.
    pub open spec fn finish(self) -> Result<ElementView, Failure> {
        match self.root {
            Some(element) => Ok(element),
            None => Err(Failure::EmptyDocument),
        }
    }
}

/// The element that a tag stands for, on top of `element`, given the items
/// of its attribute list that are still to come. The first malformed item,
/// the first name or value that is not valid UTF-8 and the first value that
/// cannot be unescaped each end it.
pub open spec fn with_items(
    element: ElementView,
    items: Seq<Result<(Seq<u8>, Seq<u8>), AttrError>>,
) -> Result<ElementView, Failure>
    decreases items.len(),
{
    if items.len() == 0 {
        Ok(element)
    } else {
        match items[0] {
            Err(_) => Err(Failure::AttributeSyntax),
            Ok((key, value)) => if !valid_utf8(key) || !valid_utf8(value) {
                Err(Failure::Encoding)
            } else {
                match value_unescaped(value) {
                    Err(_) => Err(Failure::MarkupSyntax),
                    Ok(text) => with_items(
                        element.with_attribute(decode_utf8(key), text),
                        items.drop_first(),
                    ),
                }
            },
        }
    }
}

/// The bytes of the name of a tag: the first of the bytes that the tag
/// holds.
pub open spec fn tag_name_bytes(tag: BytesStart) -> Seq<u8> {
    tag_bytes(tag).take(tag_name_length(tag) as int)
}

/// The element that a tag stands for: its name, and its attributes with
/// their values unescaped. It has no children.
pub open spec fn tag_element(tag: BytesStart) -> Result<ElementView, Failure> {
    if !valid_utf8(tag_name_bytes(tag)) {
        Err(Failure::Encoding)
    } else {
        with_items(
            ElementView::empty(decode_utf8(tag_name_bytes(tag))),
            attribute_items(tag_bytes(tag), tag_name_length(tag)),
        )
    }
}

/// What one event does to the parser. Tags and text change it; comments,
/// `CDATA` sections, declarations, processing instructions and document type
/// declarations are passed over, so none of them is read back. A self-closing
/// tag and text need an open element, and fail without one before they are
/// looked at.
pub open spec fn step(state: ParserView, token: Token) -> Result<ParserView, Failure> {
    match token {
        Token::Start(tag) => match tag_element(tag) {
            Ok(element) => Ok(state.open(element)),
            Err(failure) => Err(failure),
        },
        Token::Empty(tag) => if state.stack.len() == 0 {
            Err(state.outside())
        } else {
            match tag_element(tag) {
                Ok(element) => state.append(NodeView::Element(element)),
                Err(failure) => Err(failure),
            }
        },
        Token::End => state.close(),
        Token::Text(text) => if state.stack.len() == 0 {
            Err(state.outside())
        } else if !valid_utf8(text_bytes(text)) {
            Err(Failure::Encoding)
        } else {
            match text_unescaped(text_bytes(text)) {
                Ok(text) => state.append(NodeView::Text(text)),
                Err(_) => Err(Failure::MarkupSyntax),
            }
        },
        Token::Comment => Ok(state),
        Token::CData => Ok(state),
        Token::Decl => Ok(state),
        Token::PI => Ok(state),
        Token::DocType => Ok(state),
        Token::Eof => Ok(state),
    }
}

/// What a run of tokenizer results does to the parser, and how it ends: with
/// the first failure, or with the root at the end of the input.
pub open spec fn run(events: Seq<Result<Token, MarkupError>>, state: ParserView) -> Result<
    ElementView,
    Failure,
>
    decreases events.len(),
{
    if events.len() == 0 {
        state.finish()
    } else {
        match events[0] {
            Err(_) => Err(Failure::MarkupSyntax),
            Ok(Token::Eof) => state.finish(),
            Ok(token) => match step(state, token) {
                Ok(next) => run(events.drop_first(), next),
                Err(failure) => Err(failure),
            },
        }
    }
}

/// The tree that a run of tokenizer results stands for.
pub open spec fn assemble(events: Seq<Result<Token, MarkupError>>) -> Result<ElementView, Failure> {
    run(events, ParserView::empty())
}

/// The tree that a text stands for. A text that holds a document type
/// declaration without a name, wherever it stands, is malformed markup; any
/// other text is cut into events by the tokenizer.
pub open spec fn document(input: Seq<char>) -> Result<ElementView, Failure> {
    if has_nameless_doctype(encode_utf8(input)) {
        Err(Failure::MarkupSyntax)
    } else {
        assemble(xml_events(input))
    }
}

/// A result of reading, with the element taken by its view and the error by
/// its kind.
pub open spec fn outcome(result: Result<Element, Error>) -> Result<ElementView, Failure> {
    match result {
        Ok(element) => Ok(element@),
        Err(error) => Err(error.kind()),
    }
}

/// The state of reading: the open elements and the completed root.
pub struct Parser {
    stack: Vec<Element>,
    result: Option<Element>,
}

impl Parser {
    /// What this parser stands for.
    pub closed spec fn view(&self) -> ParserView {
        ParserView {
            stack: Seq::new(self.stack@.len(), |i: int| self.stack@[i]@),
            root: match self.result {
                Some(element) => Some(element@),
                None => None,
            },
        }
    }

    /// A parser that has seen nothing.
    pub fn new() -> (parser: Parser)
        ensures
            parser@ == ParserView::empty(),
    {
        let parser = Parser { stack: Vec::new(), result: None };
        assert(parser@.stack =~= Seq::empty());
        parser
    }

    /// The error of an event that needs an open element when none is open.
    fn outside(&self) -> (error: Error)
        ensures
            error.kind() == self@.outside(),
    {
        match &self.result {
            None => Error::EmptyDocument,
            Some(_) => Error::MalformedDocument,
        }
    }

    /// An opening tag was read.
    pub fn open(&mut self, element: Element)
        ensures
            final(self)@ == old(self)@.open(element@),
    {
        self.stack.push(element);
        assert(self@.stack =~= old(self)@.stack.push(element@));
    }

    /// A node was read that belongs to the innermost open element.
    pub fn append(&mut self, node: Node) -> (result: Result<(), Error>)
        ensures
            match result {
                Ok(()) => old(self)@.append(node@) == Ok::<ParserView, Failure>(final(self)@),
                Err(error) => old(self)@.append(node@) == Err::<ParserView, Failure>(error.kind())
                    && final(self)@ == old(self)@,
            },
    {
        match self.stack.pop() {
            Some(parent) => {
                let mut parent = parent;
                parent.add_node(node);
                self.stack.push(parent);
                assert(self@.stack =~= old(self)@.stack.drop_last().push(
                    old(self)@.stack.last().with_child(node@),
                ));
                Ok(())
            },
            None => {
                assert(self@.stack =~= old(self)@.stack);
                Err(self.outside())
            },
        }
    }

    /// A closing tag was read.
    pub fn close(&mut self) -> (result: Result<(), Error>)
        ensures
            match result {
                Ok(()) => old(self)@.close() == Ok::<ParserView, Failure>(final(self)@),
                Err(error) => old(self)@.close() == Err::<ParserView, Failure>(error.kind())
                    && final(self)@ == old(self)@,
            },
    {
        match self.stack.pop() {
            Some(current) => {
                assert(self@.stack =~= old(self)@.stack.drop_last());
                if self.stack.len() > 0 {
                    self.append(Node::Element(current))
                } else {
                    self.result = Some(current);
                    assert(self@.stack =~= Seq::empty());
                    Ok(())
                }
            },
            None => {
                assert(self@.stack =~= old(self)@.stack);
                Err(self.outside())
            },
        }
    }

    /// One event was read.
    pub fn feed(&mut self, token: Token) -> (result: Result<(), Error>)
        requires
            token_well_formed(token),
        ensures
            match result {
                Ok(()) => step(old(self)@, token) == Ok::<ParserView, Failure>(final(self)@),
                Err(error) => step(old(self)@, token) == Err::<ParserView, Failure>(error.kind())
                    && final(self)@ == old(self)@,
            },
    {
        match token {
            Token::Start(tag) => match to_element(&tag) {
                Ok(element) => {
                    self.open(element);
                    Ok(())
                },
                Err(error) => Err(error),
            },
            Token::Empty(tag) => {
                if self.stack.len() == 0 {
                    return Err(self.outside());
                }
                match to_element(&tag) {
                    Ok(element) => self.append(Node::Element(element)),
                    Err(error) => Err(error),
                }
            },
            Token::End => self.close(),
            Token::Text(text) => {
                if self.stack.len() == 0 {
                    return Err(self.outside());
                }
                match utf8_text(text_content(&text)) {
                    Ok(_) => {},
                    Err(error) => {
                        return Err(Error::UTF8Error(error));
                    },
                }
                match unescape_text(&text) {
                    Ok(text) => self.append(Node::Text(text)),
                    Err(error) => Err(Error::XMLError(error)),
                }
            },
            Token::Comment => Ok(()),
            Token::CData => Ok(()),
            Token::Decl => Ok(()),
            Token::PI => Ok(()),
            Token::DocType => Ok(()),
            Token::Eof => Ok(()),
        }
    }

    /// The end of the input was reached.
    pub fn finish(self) -> (result: Result<Element, Error>)
        ensures
            outcome(result) == self@.finish(),
    {
        match self.result {
            Some(element) => Ok(element),
            None => Err(Error::EmptyDocument),
        }
    }
}

/// Builds the element that a tag stands for.
pub fn to_element(tag: &BytesStart) -> (result: Result<Element, Error>)
    requires
        tag_well_formed(*tag),
    ensures
        outcome(result) == tag_element(*tag),
{
    let mut element = match utf8_text(tag_name(tag)) {
        Ok(name) => {
            proof {
                encode_utf8_decode_utf8(name@);
            }
            Element::new(name)
        },
        Err(error) => {
            return Err(Error::UTF8Error(error));
        },
    };
    let items = tag_attributes(tag);
    let ghost all = attribute_items(tag_bytes(*tag), tag_name_length(*tag));
    assert(all.skip(0) =~= all);
    for item in it: items
        invariant
            it.seq().map_values(|item| item_view(item)) == all,
            tag_element(*tag) == with_items(element@, all.skip(it.index() as int)),
    {
        let ghost rest = all.skip(it.index() as int);
        assert(rest[0] == item_view(item));
        assert(rest.drop_first() =~= all.skip(it.index() + 1));
        match item {
            Ok(attribute) => {
                let key = match utf8_text(attribute.key.as_slice()) {
                    Ok(key) => key,
                    Err(error) => {
                        return Err(Error::UTF8Error(error));
                    },
                };
                match utf8_text(attribute.value.as_slice()) {
                    Ok(_) => {},
                    Err(error) => {
                        return Err(Error::UTF8Error(error));
                    },
                }
                let value = match unescape_value(attribute.value.as_slice()) {
                    Ok(value) => value,
                    Err(error) => {
                        return Err(Error::XMLError(error));
                    },
                };
                proof {
                    encode_utf8_decode_utf8(key@);
                }
                element.set(key, value);
            },
            Err(error) => {
                return Err(Error::XMLAttrError(error));
            },
        }
    }
    Ok(element)
}

/// Tells whether the bytes read `<!DOCTYPE` at `at`.
fn starts_doctype(bytes: &[u8], at: usize) -> (starts: bool)
    requires
        at + 9 <= bytes@.len(),
    ensures
        starts == opens_doctype(bytes@, at as int),
{
    bytes[at] == 0x3c && bytes[at + 1] == 0x21 && (bytes[at + 2] == 0x44 || bytes[at + 2] == 0x64)
        && (bytes[at + 3] == 0x4f || bytes[at + 3] == 0x6f) && (bytes[at + 4] == 0x43 || bytes[at
        + 4] == 0x63) && (bytes[at + 5] == 0x54 || bytes[at + 5] == 0x74) && (bytes[at + 6] == 0x59
        || bytes[at + 6] == 0x79) && (bytes[at + 7] == 0x50 || bytes[at + 7] == 0x70) && (bytes[at
        + 8] == 0x45 || bytes[at + 8] == 0x65)
}

/// Tells whether a document type declaration without a name stands at `at`.
fn nameless_doctype_stands_at(bytes: &[u8], at: usize) -> (stands: bool)
    requires
        at < bytes@.len(),
    ensures
        stands == nameless_doctype_at(bytes@, at as int),
{
    let n: usize = bytes.len();
    if n - at < 9 || !starts_doctype(bytes, at) {
        return false;
    }
    let mut end: usize = at + 9;
    while end < n && (bytes[end] == 0x20 || bytes[end] == 0x09 || bytes[end] == 0x0a || bytes[end]
        == 0x0d)
        invariant
            n == bytes@.len(),
            at + 9 <= end <= n,
            forall|j: int| at + 9 <= j < end ==> is_space(#[trigger] bytes@[j]),
        decreases n - end,
    {
        end += 1;
    }
    if end < n && bytes[end] == 0x3e {
        true
    } else {
        assert forall|other: int|
            at + 9 <= other < n && #[trigger] bytes@[other] == 0x3e implies !(forall|j: int|
            at + 9 <= j < other ==> is_space(#[trigger] bytes@[j])) by {
            if other < end {
                assert(is_space(bytes@[other]));
            } else {
                assert(other > end);
                assert(!is_space(bytes@[end as int]));
            }
        }
        false
    }
}

/// Tells whether a document type declaration without a name stands
/// somewhere in the bytes.
pub fn finds_nameless_doctype(bytes: &[u8]) -> (found: bool)
    ensures
        found == has_nameless_doctype(bytes@),
{
    let mut at: usize = 0;
    while at < bytes.len()
        invariant
            at <= bytes@.len(),
            forall|k: int| 0 <= k < at ==> !nameless_doctype_at(bytes@, k),
        decreases bytes@.len() - at,
    {
        if nameless_doctype_stands_at(bytes, at) {
            return true;
        }
        at += 1;
    }
    false
}

/// Reads a document: the tree of the element that the text opens and closes
/// at top level, see [`document`].
pub fn parse_string(input: String) -> (result: Result<Element, Error>)
    ensures
        outcome(result) == document(input@),
{
    if finds_nameless_doctype(input.as_str().as_bytes()) {
        return Err(Error::NamelessDocType);
    }
    let mut reader = open_reader(input.as_str());
    let mut parser = Parser::new();
    loop
        invariant
            reads_named_doctypes(reader),
            document(input@) == run(upcoming(reader), parser@),
        decreases upcoming(reader).len(),
    {
        match next_token(&mut reader) {
            Ok(Token::Eof) => {
                return parser.finish();
            },
            Ok(token) => match parser.feed(token) {
                Ok(()) => {},
                Err(error) => {
                    return Err(error);
                },
            },
            Err(error) => {
                return Err(Error::XMLError(error));
            },
        }
    }
}

} // verus!
