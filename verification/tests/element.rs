use esvg::element::{Element, Node};
use esvg::error::Error;
use esvg::value::Value;

#[test]
fn element_display() {
    let mut element = Element::new("foo");
    element.set("x", "-10");
    element.set("y", "10px");
    element.set("s", "12.5, 13.0");
    element.set("c", "green");
    element.add(&Element::new("bar"));

    assert_eq!(
        element.to_string(),
        "<foo c=\"green\" s=\"12.5, 13.0\" x=\"-10\" y=\"10px\">\n\
         <bar />\n\
         </foo>\
         "
    );
}

#[test]
fn element_pretty_string() {
    let mut element = Element::new("foo");
    element
        .set("x", "-10")
        .set("y", "10px")
        .set("s", "12.5, 13.0")
        .set("c", "green");
    element.add(&Element::new("bar"));

    assert_eq!(
        element.to_pretty_string(),
        "<foo c=\"green\" s=\"12.5, 13.0\" x=\"-10\" y=\"10px\">\n\
         \t<bar />\n\
         </foo>\n\
         "
    );
}

#[test]
fn element_add_style() {
    let mut element = Element::new("foo");
    assert_eq!(element.get("style"), None);
    element.add_style("stroke-width", format!("{}", 5.5));
    assert_eq!(element.get("style").unwrap(), "stroke-width:5.5");
    element.add_style("stroke", "#345623");
    assert_eq!(
        element.get("style").unwrap(),
        "stroke-width:5.5;stroke:#345623"
    );
}

#[test]
fn element_style_map_happy() {
    let mut element = Element::new("foo");
    element
        .add_style("fish", "bob")
        .add_style("guppy", "slice")
        .add_style("key", "value");

    let result = element.style_map().unwrap();
    let expected = vec![
        ("guppy".to_string(), "slice".to_string()),
        ("fish".to_string(), "bob".to_string()),
        ("key".to_string(), "value".to_string()),
    ];

    assert_eq!(result.len(), expected.len());
    for (key, value) in expected {
        assert_eq!(result.get(key.as_str()), Some(&value));
    }
}

#[test]
fn element_style_map_unhappy() {
    let mut element = Element::new("foo");
    let result = element.style_map().unwrap();
    assert!(result.is_empty());
    assert_eq!(result.len(), 0);

    element.set("style", "something broken");

    let result_broken = element.style_map();
    assert!(result_broken.is_err());
    assert!(matches!(result_broken, Err(Error::MalformedStyle)));
}

#[test]
fn empty_element_renders_self_closed() {
    let el = Element::new("g");
    assert_eq!(el.to_pretty_string(), "<g />\n".to_string());
    let group = Element::group();
    assert_eq!(el.to_pretty_string(), group.to_pretty_string());
    assert_eq!(el.to_string(), "<g />");
}

#[test]
fn quoting_follows_the_text() {
    assert_eq!(Value::from("plain").to_string(), "\"plain\"");
    assert_eq!(Value::from("say \"hi\"").to_string(), "'say \"hi\"'");
    assert_eq!(Value::from("it's").to_string(), "\"it's\"");
    assert_eq!(Value::from("").to_string(), "\"\"");
    assert_eq!(Value::from("say \"hi\"").to_string_bare(), "say \"hi\"");
}

#[test]
fn values_keep_the_text_of_scalars() {
    assert_eq!(Value::from(0u8).to_string_bare(), "0");
    assert_eq!(Value::from(255u8).to_string_bare(), "255");
    assert_eq!(Value::from(-128i8).to_string_bare(), "-128");
    assert_eq!(Value::from(i16::MIN).to_string_bare(), "-32768");
    assert_eq!(Value::from(65535u16).to_string_bare(), "65535");
    assert_eq!(Value::from(-10i32).to_string_bare(), "-10");
    assert_eq!(Value::from(4294967295u32).to_string_bare(), "4294967295");
    assert_eq!(Value::from(i64::MIN).to_string_bare(), "-9223372036854775808");
    assert_eq!(Value::from(u64::MAX).to_string_bare(), "18446744073709551615");
    assert_eq!(Value::from(1000usize).to_string_bare(), "1000");
    assert_eq!(Value::from(-7isize).to_string_bare(), "-7");
    assert_eq!(Value::from(true).to_string_bare(), "true");
    assert_eq!(Value::from(false).to_string_bare(), "false");
    assert_eq!(Value::from("text").to_string_bare(), "text");
    assert_eq!(Value::from("owned".to_string()).to_string_bare(), "owned");
}

#[test]
fn attribute_order_does_not_show() {
    let mut a = Element::new("rect");
    a.set("width", 10).set("height", 20).set("x", 1);
    let mut b = Element::new("rect");
    b.set("x", 1).set("height", 20).set("width", 10);
    assert_eq!(a.to_string(), b.to_string());
    assert_eq!(a.to_pretty_string(), b.to_pretty_string());
    assert_eq!(a.to_string(), "<rect height=\"20\" width=\"10\" x=\"1\" />");
}

#[test]
fn attributes_are_listed_by_bytes() {
    let mut element = Element::new("a");
    element.set("b", 1).set("B", 2).set("ab", 3).set("a", 4).set("é", 5).set("", 6);
    assert_eq!(
        element.to_string(),
        "<a =\"6\" B=\"2\" a=\"4\" ab=\"3\" b=\"1\" é=\"5\" />"
    );
}

#[test]
fn set_overwrites() {
    let mut element = Element::new("a");
    element.set("k", "one");
    element.set("k", "two");
    assert_eq!(element.get("k"), Some("two".to_string()));
    assert_eq!(element.get("missing"), None);
    assert_eq!(element.to_string(), "<a k=\"two\" />");
}

#[test]
fn add_takes_a_copy() {
    let mut child = Element::new("child");
    let mut parent = Element::new("parent");
    parent.add(&child);
    child.set("late", "yes");
    assert_eq!(parent.to_string(), "<parent>\n<child />\n</parent>");
    assert_eq!(child.to_string(), "<child late=\"yes\" />");
    assert_eq!(parent.children().len(), 1);
    assert_eq!(parent.name(), "parent");
}

#[test]
fn nodes_render_in_order() {
    let mut root = Element::new("root");
    root.add_node(Node::Text("hello".to_string()));
    root.add_node(Node::Comment("note".to_string()));
    let mut inner = Element::new("inner");
    inner.add_node(Node::Text("deep".to_string()));
    root.add_node(inner.as_node());
    assert_eq!(
        root.to_string(),
        "<root>\nhello\n<!-- note -->\n<inner>\ndeep\n</inner>\n</root>"
    );
    assert_eq!(
        root.to_pretty_string(),
        "<root>\nhello<!-- note -->\t<inner>\ndeep\t</inner>\n</root>\n"
    );
}

#[test]
fn shallow_clone_drops_children() {
    let mut element = Element::new("g");
    element.set("id", "layer").set("x", 3);
    element.add(&Element::new("child"));
    let copy = element.shallow_clone();
    assert_eq!(copy.to_string(), "<g id=\"layer\" x=\"3\" />");
    assert_eq!(copy.children().len(), 0);
    assert_eq!(element.children().len(), 1);
    let whole = element.clone();
    assert_eq!(whole.to_string(), element.to_string());
}

#[test]
fn document_root_gets_the_preamble() {
    let mut doc = Element::new("svg");
    doc.add(&Element::new("g"));
    assert_eq!(
        doc.to_pretty_string(),
        "<?xml version=\"1.0\" encoding=\"UTF-8\"?>\n<!DOCTYPE svg PUBLIC \"-//W3C//DTD SVG 1.0//EN\" \"http://www.w3.org/TR/2001/REC-SVG-20010904/DTD/svg10.dtd\">\n<svg>\n\t<g />\n</svg>\n"
    );
    assert_eq!(doc.to_string(), "<svg>\n<g />\n</svg>");
}

#[test]
fn style_round_trip() {
    let mut element = Element::new("foo");
    element.add_style("a", "1").add_style("b", "2");
    assert_eq!(element.to_string(), "<foo style=\"a:1;b:2\" />");
    let map = element.style_map().unwrap();
    assert_eq!(map.len(), 2);
    assert_eq!(map.get("a"), Some(&"1".to_string()));
    assert_eq!(map.get("b"), Some(&"2".to_string()));

    let mut broken = Element::new("foo");
    broken.set("style", "broken");
    assert!(matches!(broken.style_map(), Err(Error::MalformedStyle)));
}

#[test]
fn style_clauses_split_at_the_first_colon() {
    let mut element = Element::new("foo");
    element.set("style", "a:b:c;a:again;url:http://x");
    let map = element.style_map().unwrap();
    assert_eq!(map.len(), 2);
    assert_eq!(map.get("a"), Some(&"again".to_string()));
    assert_eq!(map.get("url"), Some(&"http://x".to_string()));

    element.set("style", ":");
    let map = element.style_map().unwrap();
    assert_eq!(map.len(), 1);
    assert_eq!(map.get(""), Some(&"".to_string()));
}

#[test]
fn a_style_without_clauses_is_empty() {
    let mut element = Element::new("foo");
    element.set("style", "");
    let map = element.style_map().unwrap();
    assert!(map.is_empty());
    assert_eq!(map.len(), 0);
}

#[test]
fn every_piece_of_a_style_is_a_clause() {
    let mut element = Element::new("foo");
    element.set("style", "a:1;");
    assert!(matches!(element.style_map(), Err(Error::MalformedStyle)));
    element.set("style", ";");
    assert!(matches!(element.style_map(), Err(Error::MalformedStyle)));
    element.set("style", ";;;");
    assert!(matches!(element.style_map(), Err(Error::MalformedStyle)));
    element.set("style", "a:1;;b:2");
    assert!(matches!(element.style_map(), Err(Error::MalformedStyle)));
    element.set("style", ";a:1");
    assert!(matches!(element.style_map(), Err(Error::MalformedStyle)));
    element.set("style", "a:1;broken");
    assert!(matches!(element.style_map(), Err(Error::MalformedStyle)));
    element.set("style", "broken;a:1");
    assert!(matches!(element.style_map(), Err(Error::MalformedStyle)));
    element.set("style", "a:1; ");
    assert!(matches!(element.style_map(), Err(Error::MalformedStyle)));
    element.set("style", "a:1;b:2");
    assert_eq!(element.style_map().unwrap().len(), 2);
}

#[test]
fn a_clause_behind_an_empty_style_does_not_read_back() {
    let mut element = Element::new("foo");
    element.set("style", "");
    element.add_style("a", 1);
    assert_eq!(element.get("style"), Some(";a:1".to_string()));
    assert!(matches!(element.style_map(), Err(Error::MalformedStyle)));
}

#[test]
fn name_and_children_can_be_changed_in_place() {
    let mut element = Element::new("old");
    element.set("k", "v");
    element.add(&Element::new("first"));
    element.add(&Element::new("second"));
    element.name = "new".to_string();
    element.children.remove(0);
    element.children.push(Node::Text("tail".to_string()));
    assert_eq!(element.name(), "new");
    assert_eq!(element.children().len(), 2);
    assert_eq!(element.to_string(), "<new k=\"v\">\n<second />\ntail\n</new>");
}

#[test]
fn nodes_have_their_own_text() {
    assert_eq!(Node::Text("a < b".to_string()).to_string(), "a < b");
    assert_eq!(Node::Comment("note".to_string()).to_string(), "<!-- note -->");
    let mut element = Element::new("a");
    element.set("k", "v");
    assert_eq!(element.as_node().to_string(), "<a k=\"v\" />");
}

#[test]
fn both_kinds_of_quotes_are_not_escaped() {
    assert_eq!(Value::from("a\"b'c").to_string(), "'a\"b'c'");
    let mut element = Element::new("a");
    element.set("k", "a\"b'c");
    assert_eq!(element.to_string(), "<a k='a\"b'c' />");
}

#[test]
fn text_is_written_as_it_is() {
    let mut element = Element::new("a");
    element.add_node(Node::Text("1 < 2 & 3".to_string()));
    assert_eq!(element.to_string(), "<a>\n1 < 2 & 3\n</a>");
}

#[test]
fn integers_are_written_as_the_language_writes_them() {
    for n in -1100i32..1100 {
        assert_eq!(Value::from(n).to_string_bare(), n.to_string());
    }
    for n in 0u16..=u16::MAX {
        assert_eq!(Value::from(n).to_string_bare(), n.to_string());
    }
    for n in [i8::MIN, -1, 0, 1, i8::MAX] {
        assert_eq!(Value::from(n).to_string_bare(), n.to_string());
    }
    for n in [i64::MIN, i64::MIN + 1, -10, -9, 9, 10, 99, 100, i64::MAX] {
        assert_eq!(Value::from(n).to_string_bare(), n.to_string());
    }
    for n in [isize::MIN, -1, 0, isize::MAX] {
        assert_eq!(Value::from(n).to_string_bare(), n.to_string());
    }
    for n in [0usize, 7, usize::MAX] {
        assert_eq!(Value::from(n).to_string_bare(), n.to_string());
    }
    for n in [0u32, 1000000, u32::MAX] {
        assert_eq!(Value::from(n).to_string_bare(), n.to_string());
    }
}
