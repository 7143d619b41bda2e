//! What an element looks like as text, compact or indented.
//!
//! Everything here is a statement about views: the functions that build the
//! strings are methods of [`Element`](crate::element::Element) and are proved
//! to return exactly these texts.
use crate::element::{ElementView, NodeView};
use crate::strings::{
    key_before, lemma_key_before_strict, lemma_key_before_total, lemma_key_before_transitive,
};
use crate::value::quoted;
use vstd::prelude::*;

verus! {

/// The names stand in ascending order.
pub open spec fn ascending_keys(keys: Seq<Seq<char>>) -> bool {
    forall|i: int, j: int| 0 <= i < j < keys.len() ==> key_before(#[trigger] keys[i], #[trigger] keys[j])
}

/// `keys` lists each attribute name of `attributes` once, in ascending order.
pub open spec fn is_key_list(keys: Seq<Seq<char>>, attributes: Map<Seq<char>, Seq<char>>) -> bool {
    &&& ascending_keys(keys)
    &&& forall|key: Seq<char>| attributes.contains_key(key) <==> keys.contains(key)
}

/// The attribute names in the order in which they are written out.
pub open spec fn sorted_keys(attributes: Map<Seq<char>, Seq<char>>) -> Seq<Seq<char>> {
    choose|keys: Seq<Seq<char>>| is_key_list(keys, attributes)
}

/// The attributes of `keys`, each written as a space, the name, `=` and the
/// quoted text.
pub open spec fn attributes_text(
    keys: Seq<Seq<char>>,
    attributes: Map<Seq<char>, Seq<char>>,
) -> Seq<char>
    decreases keys.len(),
{
    if keys.len() == 0 {
        Seq::empty()
    } else {
        attributes_text(keys.drop_last(), attributes) + seq![' '] + keys.last() + seq!['=']
            + quoted(attributes[keys.last()])
    }
}

/// An opening tag up to, but without, what closes it: `<`, the name and the
/// attributes in ascending order of their names.
pub open spec fn tag_start(element: ElementView) -> Seq<char> {
    seq!['<'] + element.name + attributes_text(sorted_keys(element.attributes), element.attributes)
}

/// ` />`, which ends the tag of an element without children.
pub open spec fn empty_close() -> Seq<char> {
    seq![' ', '/', '>']
}

/// `</name>`.
pub open spec fn end_tag(name: Seq<char>) -> Seq<char> {
    seq!['<', '/'] + name + seq!['>']
}

/// A comment as it is written out: `<!-- text -->`.
pub open spec fn comment_text(text: Seq<char>) -> Seq<char> {
    seq!['<', '!', '-', '-', ' '] + text + seq![' ', '-', '-', '>']
}

/// The compact text of an element: the tag, then either ` />` or `>`, one
/// line per child and the end tag.
pub open spec fn compact(element: ElementView) -> Seq<char>
    decreases element, 1int,
{
    if element.children.len() == 0 {
        tag_start(element) + empty_close()
    } else {
        tag_start(element) + seq!['>', '\n'] + compact_nodes(element.children) + end_tag(
            element.name,
        )
    }
}

/// The compact text of one node. Text is written as it is, unescaped.
pub open spec fn compact_node(node: NodeView) -> Seq<char>
    decreases node, 0int,
{
    match node {
        NodeView::Text(text) => text,
        NodeView::Element(element) => compact(element),
        NodeView::Comment(text) => comment_text(text),
    }
}

/// The compact text of the nodes, each followed by a line break.
pub open spec fn compact_nodes(nodes: Seq<NodeView>) -> Seq<char>
    decreases nodes, 0int,
{
    if nodes.len() == 0 {
        Seq::empty()
    } else {
        compact_nodes(nodes.drop_last()) + compact_node(nodes.last()) + seq!['\n']
    }
}

/// The indented text of an element that stands behind `indent`: the tag on a
/// line of its own, the children one indentation unit deeper, and the end tag
/// behind `indent` again.
pub open spec fn pretty(element: ElementView, indent: Seq<char>) -> Seq<char>
    decreases element, 1int,
{
    if element.children.len() == 0 {
        indent + tag_start(element) + empty_close() + seq!['\n']
    } else {
        indent + tag_start(element) + seq!['>', '\n'] + pretty_nodes(
            element.children,
            indent.push('\t'),
        ) + indent + end_tag(element.name) + seq!['\n']
    }
}

/// The indented text of one node. Only elements are indented and end their
/// line; text and comments are written where they stand.
pub open spec fn pretty_node(node: NodeView, indent: Seq<char>) -> Seq<char>
    decreases node, 0int,
{
    match node {
        NodeView::Text(text) => text,
        NodeView::Element(element) => pretty(element, indent),
        NodeView::Comment(text) => comment_text(text),
    }
}

/// The indented text of the nodes, one after the other.
pub open spec fn pretty_nodes(nodes: Seq<NodeView>, indent: Seq<char>) -> Seq<char>
    decreases nodes, 0int,
{
    if nodes.len() == 0 {
        Seq::empty()
    } else {
        pretty_nodes(nodes.drop_last(), indent) + pretty_node(nodes.last(), indent)
    }
}

/// The tag name of a document root.
pub open spec fn document_tag() -> Seq<char> {
    "svg"@
}

/// The two lines that precede a document root: the declaration and the
/// document type.
pub open spec fn preamble() -> Seq<char> {
    "<?xml version=\"1.0\" encoding=\"UTF-8\"?>\n<!DOCTYPE svg PUBLIC \"-//W3C//DTD SVG 1.0//EN\" \"http://www.w3.org/TR/2001/REC-SVG-20010904/DTD/svg10.dtd\">\n"@
}

/// The indented text of a whole tree, with the preamble first when the root
/// is a document root.
pub open spec fn pretty_document(element: ElementView) -> Seq<char> {
    if element.name == document_tag() {
        preamble() + pretty(element, Seq::empty())
    } else {
        pretty(element, Seq::empty())
    }
}

/// Two ascending lists with the same members are the same list.
pub proof fn lemma_ascending_unique(a: Seq<Seq<char>>, b: Seq<Seq<char>>)
    requires
        ascending_keys(a),
        ascending_keys(b),
        forall|key: Seq<char>| a.contains(key) <==> b.contains(key),
    ensures
        a == b,
    decreases a.len(),
{
    if a.len() == 0 {
        if b.len() > 0 {
            assert(b.contains(b[0]));
            assert(a.contains(b[0]));
        }
        assert(a =~= b);
    } else {
        assert(a.contains(a[0]));
        assert(b.contains(a[0]));
        let j = choose|j: int| 0 <= j < b.len() && b[j] == a[0];
        assert(b.contains(b[0]));
        assert(a.contains(b[0]));
        let i = choose|i: int| 0 <= i < a.len() && a[i] == b[0];
        lemma_key_before_strict(a[0], b[0]);
        lemma_key_before_strict(b[0], a[0]);
        if j > 0 {
            assert(key_before(b[0], b[j]));
            if i > 0 {
                assert(key_before(a[0], a[i]));
            }
        }
        assert(a[0] == b[0]);
        let a1 = a.drop_first();
        let b1 = b.drop_first();
        assert forall|key: Seq<char>| a1.contains(key) implies b1.contains(key) by {
            let p = choose|p: int| 0 <= p < a1.len() && a1[p] == key;
            assert(a[p + 1] == key);
            assert(key_before(a[0], a[p + 1]));
            lemma_key_before_strict(a[0], key);
            assert(a.contains(key));
            assert(b.contains(key));
            let q = choose|q: int| 0 <= q < b.len() && b[q] == key;
            assert(b1[q - 1] == key);
        }
        assert forall|key: Seq<char>| b1.contains(key) implies a1.contains(key) by {
            let p = choose|p: int| 0 <= p < b1.len() && b1[p] == key;
            assert(b[p + 1] == key);
            assert(key_before(b[0], b[p + 1]));
            lemma_key_before_strict(b[0], key);
            assert(b.contains(key));
            assert(a.contains(key));
            let q = choose|q: int| 0 <= q < a.len() && a[q] == key;
            assert(a1[q - 1] == key);
        }
        assert forall|x: int, y: int| 0 <= x < y < a1.len() implies key_before(
            #[trigger] a1[x],
            #[trigger] a1[y],
        ) by {
            assert(key_before(a[x + 1], a[y + 1]));
        }
        assert forall|x: int, y: int| 0 <= x < y < b1.len() implies key_before(
            #[trigger] b1[x],
            #[trigger] b1[y],
        ) by {
            assert(key_before(b[x + 1], b[y + 1]));
        }
        lemma_ascending_unique(a1, b1);
        assert(a =~= seq![a[0]] + a1);
        assert(b =~= seq![b[0]] + b1);
    }
}

/// A list that names each attribute once in ascending order is the order in
/// which the attributes are written out.
pub proof fn lemma_sorted_keys(keys: Seq<Seq<char>>, attributes: Map<Seq<char>, Seq<char>>)
    requires
        is_key_list(keys, attributes),
    ensures
        sorted_keys(attributes) == keys,
{
    lemma_ascending_unique(sorted_keys(attributes), keys);
}

/// An ascending list with one more name put where it belongs.
pub open spec fn with_key(keys: Seq<Seq<char>>, key: Seq<char>) -> Seq<Seq<char>>
    decreases keys.len(),
{
    if keys.len() == 0 || key_before(key, keys[0]) {
        seq![key] + keys
    } else {
        seq![keys[0]] + with_key(keys.drop_first(), key)
    }
}

/// Putting a new name into an ascending list gives an ascending list of the
/// old names and the new one.
pub proof fn lemma_with_key(keys: Seq<Seq<char>>, key: Seq<char>)
    requires
        ascending_keys(keys),
        !keys.contains(key),
    ensures
        ascending_keys(with_key(keys, key)),
        forall|other: Seq<char>|
            with_key(keys, key).contains(other) <==> (other == key || keys.contains(other)),
    decreases keys.len(),
{
    let result = with_key(keys, key);
    if keys.len() == 0 || key_before(key, keys[0]) {
        assert forall|i: int, j: int| 0 <= i < j < result.len() implies key_before(
            #[trigger] result[i],
            #[trigger] result[j],
        ) by {
            if i == 0 {
                assert(result[j] == keys[j - 1]);
                if j - 1 > 0 {
                    assert(key_before(keys[0], keys[j - 1]));
                    lemma_key_before_transitive(key, keys[0], keys[j - 1]);
                }
            } else {
                assert(key_before(keys[i - 1], keys[j - 1]));
            }
        }
        assert forall|other: Seq<char>| result.contains(other) <==> (other == key || keys.contains(
            other,
        )) by {
            if result.contains(other) {
                let p = choose|p: int| 0 <= p < result.len() && result[p] == other;
                if p > 0 {
                    assert(keys[p - 1] == other);
                }
            }
            if other == key {
                assert(result[0] == other);
            }
            if keys.contains(other) {
                let p = choose|p: int| 0 <= p < keys.len() && keys[p] == other;
                assert(result[p + 1] == other);
            }
        }
    } else {
        let rest = keys.drop_first();
        let inner = with_key(rest, key);
        assert(ascending_keys(rest)) by {
            assert forall|i: int, j: int| 0 <= i < j < rest.len() implies key_before(
                #[trigger] rest[i],
                #[trigger] rest[j],
            ) by {
                assert(key_before(keys[i + 1], keys[j + 1]));
            }
        }
        assert(!rest.contains(key)) by {
            if rest.contains(key) {
                let p = choose|p: int| 0 <= p < rest.len() && rest[p] == key;
                assert(keys[p + 1] == key);
            }
        }
        lemma_with_key(rest, key);
        assert(keys.contains(keys[0]));
        lemma_key_before_total(key, keys[0]);
        assert(key_before(keys[0], key));
        assert forall|i: int, j: int| 0 <= i < j < result.len() implies key_before(
            #[trigger] result[i],
            #[trigger] result[j],
        ) by {
            if i == 0 {
                let other = inner[j - 1];
                assert(inner.contains(other));
                assert(inner.contains(other) <==> (other == key || rest.contains(other)));
                if other != key {
                    let p = choose|p: int| 0 <= p < rest.len() && rest[p] == other;
                    assert(key_before(keys[0], keys[p + 1]));
                }
            } else {
                assert(key_before(inner[i - 1], inner[j - 1]));
            }
        }
        assert forall|other: Seq<char>| result.contains(other) <==> (other == key || keys.contains(
            other,
        )) by {
            assert(inner.contains(other) <==> (other == key || rest.contains(other)));
            if result.contains(other) {
                let p = choose|p: int| 0 <= p < result.len() && result[p] == other;
                if p == 0 {
                    assert(keys[0] == other);
                } else {
                    assert(inner[p - 1] == other);
                    if other != key {
                        let q = choose|q: int| 0 <= q < rest.len() && rest[q] == other;
                        assert(keys[q + 1] == other);
                    }
                }
            }
            if keys.contains(other) {
                let p = choose|p: int| 0 <= p < keys.len() && keys[p] == other;
                if p > 0 {
                    assert(rest[p - 1] == other);
                }
            }
            if inner.contains(other) {
                let q = choose|q: int| 0 <= q < inner.len() && inner[q] == other;
                assert(result[q + 1] == other);
            }
            if other == keys[0] {
                assert(result[0] == other);
            }
        }
    }
}

/// Every finite set of attributes can be listed in ascending order.
pub proof fn lemma_key_list_exists(attributes: Map<Seq<char>, Seq<char>>)
    requires
        attributes.dom().finite(),
    ensures
        is_key_list(sorted_keys(attributes), attributes),
    decreases attributes.dom().len(),
{
    if attributes.dom().len() == 0 {
        let keys = Seq::<Seq<char>>::empty();
        assert forall|key: Seq<char>| attributes.contains_key(key) <==> keys.contains(key) by {
            if attributes.contains_key(key) {
                assert(attributes.dom().contains(key));
                assert(attributes.dom().len() > 0);
            }
        }
        assert(is_key_list(keys, attributes));
    } else {
        let key = attributes.dom().choose();
        let rest = attributes.remove(key);
        assert(rest.dom() =~= attributes.dom().remove(key));
        lemma_key_list_exists(rest);
        let listed = sorted_keys(rest);
        assert(!listed.contains(key)) by {
            assert(!rest.contains_key(key));
        }
        lemma_with_key(listed, key);
        let keys = with_key(listed, key);
        assert forall|other: Seq<char>| attributes.contains_key(other) <==> keys.contains(other) by {
            assert(rest.contains_key(other) <==> (attributes.contains_key(other) && other != key));
            assert(rest.contains_key(other) <==> listed.contains(other));
        }
        assert(is_key_list(keys, attributes));
    }
}

} // verus!
