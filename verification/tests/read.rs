use esvg::element::{Element, Node};
use esvg::error::Error;
use esvg::read::{finds_nameless_doctype, parse_string, to_element, Parser, Token};
use quick_xml::events::{BytesStart, BytesText, Event};
use quick_xml::Reader;

#[test]
fn round_trip() {
    let input = "<foo c=\"green\" s=\"12.5, 13.0\" x=\"-10\" y=\"10px\">\n\
    \t<bar />\n\
    \t<frob />\n\
    \t<wizzz a=\"b\">\n\
    \t\t<bar />\n\
    \t</wizzz>\n\
    </foo>\n\
    "
    .to_string();

    let result = parse_string(input).unwrap();

    assert_eq!(
        result.to_pretty_string(),
        "<foo c=\"green\" s=\"12.5, 13.0\" x=\"-10\" y=\"10px\">\n\
         \t<bar />\n\
         \t<frob />\n\
         \t<wizzz a=\"b\">\n\
        \t\t<bar />\n\
        \t</wizzz>\n\
         </foo>\n\
         "
    );
}

#[test]
fn self_closing_child() {
    let root = parse_string("<foo><bar/></foo>".to_string()).unwrap();
    assert_eq!(root.name(), "foo");
    assert_eq!(root.children().len(), 1);
    match &root.children()[0] {
        Node::Element(bar) => {
            assert_eq!(bar.name(), "bar");
            assert_eq!(bar.children().len(), 0);
            assert_eq!(bar.to_string(), "<bar />");
        }
        _ => panic!("the child is an element"),
    }
    assert_eq!(root.to_string(), "<foo>\n<bar />\n</foo>");
}

#[test]
fn missing_root_is_an_empty_document() {
    assert!(matches!(parse_string("".to_string()), Err(Error::EmptyDocument)));
    assert!(matches!(parse_string("   \n".to_string()), Err(Error::EmptyDocument)));
    assert!(matches!(
        parse_string("<?xml version=\"1.0\"?>".to_string()),
        Err(Error::EmptyDocument)
    ));
    assert!(matches!(parse_string("<!-- only a comment -->".to_string()), Err(Error::EmptyDocument)));
    assert!(matches!(parse_string("<open><inner/>".to_string()), Err(Error::EmptyDocument)));
}

#[test]
fn compact_and_pretty_texts_read_back() {
    let mut tree = Element::new("svg");
    tree.set("width", 10).set("note", "a \"quoted\" word");
    let mut group = Element::new("g");
    group.set("id", "layer");
    let mut label = Element::new("text");
    label.add_node(Node::Text("hello".to_string()));
    group.add(&label);
    group.add(&Element::new("circle"));
    tree.add(&group);

    let from_compact = parse_string(tree.to_string()).unwrap();
    assert_eq!(from_compact.to_string(), tree.to_string());
    let from_pretty = parse_string(tree.to_pretty_string()).unwrap();
    assert_eq!(from_pretty.to_string(), tree.to_string());
    assert_eq!(from_pretty.get("note"), Some("a \"quoted\" word".to_string()));
}

#[test]
fn text_is_unescaped() {
    let root = parse_string("<a t=\"1 &lt; 2\">x &amp; y</a>".to_string()).unwrap();
    assert_eq!(root.get("t"), Some("1 < 2".to_string()));
    match &root.children()[0] {
        Node::Text(text) => assert_eq!(text, "x & y"),
        _ => panic!("the child is text"),
    }
}

#[test]
fn comments_are_not_read_back() {
    let root = parse_string("<a><!-- gone --><b/></a>".to_string()).unwrap();
    assert_eq!(root.to_string(), "<a>\n<b />\n</a>");
}

#[test]
fn the_last_closed_root_wins() {
    let root = parse_string("<a></a><b></b>".to_string()).unwrap();
    assert_eq!(root.name(), "b");
}

#[test]
fn malformed_input_gives_each_error() {
    assert!(matches!(parse_string("<a></b>".to_string()), Err(Error::XMLError(_))));
    assert!(matches!(parse_string("</a>".to_string()), Err(Error::XMLError(_))));
    assert!(matches!(parse_string("<a x=1></a>".to_string()), Err(Error::XMLAttrError(_))));
    assert!(matches!(parse_string("<a x=\"1\" x=\"2\"></a>".to_string()), Err(Error::XMLAttrError(_))));
    assert!(matches!(parse_string("<a x=\"&bogus;\"></a>".to_string()), Err(Error::XMLError(_))));
    assert!(matches!(parse_string("<a>&bogus;</a>".to_string()), Err(Error::XMLError(_))));
    assert!(matches!(parse_string("<a></a>trailing".to_string()), Err(Error::MalformedDocument)));
    assert!(matches!(parse_string("<a></a><b/>".to_string()), Err(Error::MalformedDocument)));
}

#[test]
fn tags_become_elements() {
    let tag = BytesStart::from_content("rect x=\"1\" fill='a &amp; b'", 4);
    let element = to_element(&tag).unwrap();
    assert_eq!(element.to_string(), "<rect fill=\"a & b\" x=\"1\" />");

    let broken = BytesStart::from_content("rect x", 4);
    assert!(matches!(to_element(&broken), Err(Error::XMLAttrError(_))));
    let bad_value = BytesStart::from_content("rect x=\"&nope;\"", 4);
    assert!(matches!(to_element(&bad_value), Err(Error::XMLError(_))));
}

#[test]
fn the_parser_follows_its_events() {
    let mut parser = Parser::new();
    assert!(matches!(parser.close(), Err(Error::EmptyDocument)));
    assert!(matches!(
        parser.append(Node::Text("x".to_string())),
        Err(Error::EmptyDocument)
    ));
    parser.open(Element::new("a"));
    parser.open(Element::new("b"));
    parser.append(Node::Text("t".to_string())).unwrap();
    parser.close().unwrap();
    parser.append(Node::Element(Element::new("c"))).unwrap();
    parser.close().unwrap();
    let root = parser.finish().unwrap();
    assert_eq!(root.to_string(), "<a>\n<b>\nt\n</b>\n<c />\n</a>");

    let mut parser = Parser::new();
    parser.feed(Token::Start(BytesStart::new("a"))).unwrap();
    parser.feed(Token::Comment).unwrap();
    parser.feed(Token::CData).unwrap();
    parser.feed(Token::Decl).unwrap();
    parser.feed(Token::PI).unwrap();
    parser.feed(Token::DocType).unwrap();
    parser.feed(Token::Text(BytesText::from_escaped("1 &gt; 0"))).unwrap();
    parser.feed(Token::Empty(BytesStart::new("b"))).unwrap();
    parser.feed(Token::Eof).unwrap();
    parser.feed(Token::End).unwrap();
    let root = parser.finish().unwrap();
    assert_eq!(root.to_string(), "<a>\n1 > 0\n<b />\n</a>");

    let parser = Parser::new();
    assert!(matches!(parser.finish(), Err(Error::EmptyDocument)));
    let mut parser = Parser::new();
    assert!(matches!(
        parser.feed(Token::Empty(BytesStart::new("b"))),
        Err(Error::EmptyDocument)
    ));
    assert!(matches!(
        parser.feed(Token::Text(BytesText::from_escaped("&bogus;"))),
        Err(Error::EmptyDocument)
    ));
    assert!(matches!(parser.feed(Token::End), Err(Error::EmptyDocument)));

    let mut parser = Parser::new();
    parser.open(Element::new("a"));
    parser.close().unwrap();
    assert!(matches!(parser.close(), Err(Error::MalformedDocument)));
    assert!(matches!(
        parser.append(Node::Text("x".to_string())),
        Err(Error::MalformedDocument)
    ));
    assert!(matches!(
        parser.feed(Token::Empty(BytesStart::new("b"))),
        Err(Error::MalformedDocument)
    ));
    assert!(matches!(
        parser.feed(Token::Text(BytesText::from_escaped("x"))),
        Err(Error::MalformedDocument)
    ));
    assert_eq!(parser.finish().unwrap().to_string(), "<a />");
}

/// The first tag that the tokenizer finds in raw bytes.
fn first_tag(bytes: &[u8]) -> BytesStart<'_> {
    let mut reader = Reader::from_reader(bytes);
    match reader.read_event() {
        Ok(Event::Start(tag)) => tag,
        Ok(Event::Empty(tag)) => tag,
        _ => panic!("the bytes start with a tag"),
    }
}

#[test]
fn names_must_be_utf8() {
    let tag = first_tag(b"<a\xff b=\"1\">");
    assert!(matches!(to_element(&tag), Err(Error::UTF8Error(_))));
    let tag = first_tag(b"<a b\xff=\"1\">");
    assert!(matches!(to_element(&tag), Err(Error::UTF8Error(_))));
    let tag = first_tag(b"<a b=\"\xff\">");
    assert!(matches!(to_element(&tag), Err(Error::UTF8Error(_))));
    let tag = first_tag(b"<a b=\"\xff&nope;\">");
    assert!(matches!(to_element(&tag), Err(Error::UTF8Error(_))));
    let tag = first_tag("<\u{e9}t\u{e9} \u{fc}=\"\u{2192}\"/>".as_bytes());
    assert_eq!(to_element(&tag).unwrap().to_string(), "<\u{e9}t\u{e9} \u{fc}=\"\u{2192}\" />");
}

#[test]
fn the_first_failure_of_a_tag_counts() {
    let tag = first_tag(b"<a b\xff=\"&nope;\" c>");
    assert!(matches!(to_element(&tag), Err(Error::UTF8Error(_))));
    let tag = first_tag(b"<a b=\"&nope;\" c\xff=\"1\">");
    assert!(matches!(to_element(&tag), Err(Error::XMLError(_))));
    let tag = first_tag(b"<a b c\xff=\"1\">");
    assert!(matches!(to_element(&tag), Err(Error::XMLAttrError(_))));
    let tag = first_tag(b"<a\xff b>");
    assert!(matches!(to_element(&tag), Err(Error::UTF8Error(_))));
}

#[test]
fn a_root_without_children_does_not_read_back() {
    let root = Element::new("g");
    assert!(matches!(parse_string(root.to_string()), Err(Error::EmptyDocument)));
    assert!(matches!(parse_string(root.to_pretty_string()), Err(Error::EmptyDocument)));
}

#[test]
fn documents_read_back_behind_their_preamble() {
    let mut doc = Element::new("svg");
    doc.set("xmlns", "http://www.w3.org/2000/svg");
    let mut group = Element::new("g");
    group.add(&Element::new("path"));
    doc.add(&group);
    let read = parse_string(doc.to_pretty_string()).unwrap();
    assert_eq!(read.to_pretty_string(), doc.to_pretty_string());
}

#[test]
fn text_without_a_root_is_an_empty_document() {
    assert!(matches!(parse_string("hello".to_string()), Err(Error::EmptyDocument)));
    assert!(matches!(parse_string("  hello  world ".to_string()), Err(Error::EmptyDocument)));
    assert!(matches!(parse_string("&bogus;".to_string()), Err(Error::EmptyDocument)));
    assert!(matches!(parse_string("a &amp; b".to_string()), Err(Error::EmptyDocument)));
    assert!(matches!(
        parse_string("<!-- note -->hello<?pi data?>".to_string()),
        Err(Error::EmptyDocument)
    ));
    assert!(matches!(parse_string("<a/>".to_string()), Err(Error::EmptyDocument)));
    assert!(matches!(parse_string("hello<a/>".to_string()), Err(Error::EmptyDocument)));
    assert!(matches!(parse_string("loose text<a></a>".to_string()), Err(Error::EmptyDocument)));
    assert!(matches!(
        parse_string("<![CDATA[kept out]]>".to_string()),
        Err(Error::EmptyDocument)
    ));
}

#[test]
fn text_must_be_utf8() {
    let mut reader = Reader::from_reader(&b"<a>x\xffy</a>"[..]);
    let mut parser = Parser::new();
    match reader.read_event() {
        Ok(Event::Start(tag)) => parser.feed(Token::Start(tag)).unwrap(),
        _ => panic!("the bytes start with a tag"),
    }
    match reader.read_event() {
        Ok(Event::Text(text)) => {
            assert!(matches!(parser.feed(Token::Text(text)), Err(Error::UTF8Error(_))));
        }
        _ => panic!("text follows the tag"),
    }
    parser.feed(Token::Text(BytesText::from_escaped("&nope;"))).unwrap_err();
    assert!(matches!(
        parser.feed(Token::Text(BytesText::from_escaped("&nope;"))),
        Err(Error::XMLError(_))
    ));
    parser.feed(Token::End).unwrap();
    assert_eq!(parser.finish().unwrap().to_string(), "<a />");
}

#[test]
fn document_types_need_a_name() {
    assert!(matches!(parse_string("<!DOCTYPE>".to_string()), Err(Error::NamelessDocType)));
    assert!(matches!(parse_string("<!doctype>".to_string()), Err(Error::NamelessDocType)));
    assert!(matches!(
        parse_string("<!DocType \t\r\n ><a></a>".to_string()),
        Err(Error::NamelessDocType)
    ));
    assert!(matches!(
        parse_string("<a>text<!DOCTYPE ></a>".to_string()),
        Err(Error::NamelessDocType)
    ));
    assert!(matches!(
        parse_string("<a><!-- <!DOCTYPE> --></a>".to_string()),
        Err(Error::NamelessDocType)
    ));
    let root = parse_string("<!DOCTYPE svg><a></a>".to_string()).unwrap();
    assert_eq!(root.name(), "a");
    let root = parse_string("<!DOCTYPE\nsvg ><a></a>".to_string()).unwrap();
    assert_eq!(root.name(), "a");
    assert!(matches!(parse_string("<!DOCTYPE".to_string()), Err(Error::XMLError(_))));
    assert!(matches!(parse_string("<!DOCTYP>".to_string()), Err(Error::XMLError(_))));
}

#[test]
fn nameless_document_types_are_found() {
    assert!(finds_nameless_doctype(b"<!DOCTYPE>"));
    assert!(finds_nameless_doctype(b"<!dOcTyPe>"));
    assert!(finds_nameless_doctype(b"xx<!DOCTYPE  \n\t\r>yy"));
    assert!(finds_nameless_doctype(b"<!DOCTYPE a><!DOCTYPE >"));
    assert!(!finds_nameless_doctype(b""));
    assert!(!finds_nameless_doctype(b"<!DOCTYPE"));
    assert!(!finds_nameless_doctype(b"<!DOCTYPE "));
    assert!(!finds_nameless_doctype(b"<!DOCTYPE a>"));
    assert!(!finds_nameless_doctype(b"<!DOCTYPE \x0b>"));
    assert!(!finds_nameless_doctype(b"<!DOCTYPF>"));
    assert!(!finds_nameless_doctype(b"< !DOCTYPE>"));
    assert!(!finds_nameless_doctype(b"!DOCTYPE>"));
    assert!(!finds_nameless_doctype(b"<!DOCTYPE[>"));
}
