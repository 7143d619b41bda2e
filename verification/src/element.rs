//! The document tree: elements with a tag name, attributes and child nodes.
use crate::error::Error;
use crate::render::{
    attributes_text, comment_text, compact, compact_node, compact_nodes, is_key_list,
    lemma_sorted_keys, pretty, pretty_document, pretty_node, pretty_nodes, sorted_keys, tag_start,
};
use crate::strings::{
    key_before, key_order, lemma_key_before_strict, lemma_key_before_transitive, same_text,
    KeyOrder,
};
use crate::style::{append_clause, decode_style, parse_style, texts};
use crate::value::{quoted, Value};
use vstd::hash_map::StringHashMap;
use vstd::prelude::*;
use vstd::string::StringExecFns;

verus! {

/// What a [`Node`] stands for.
#[verifier::ext_equal]
pub enum NodeView {
    Text(Seq<char>),
    Element(ElementView),
    Comment(Seq<char>),
}

/// What an [`Element`] stands for: its tag name, its attributes as a mapping
/// from name to text, and its children in order.
#[verifier::ext_equal]
pub struct ElementView {
    pub name: Seq<char>,
    pub attributes: Map<Seq<char>, Seq<char>>,
    pub children: Seq<NodeView>,
}

impl ElementView {
    /// An element with this tag name and nothing else.
    pub open spec fn empty(name: Seq<char>) -> ElementView {
        ElementView { name, attributes: Map::empty(), children: Seq::empty() }
    }

    /// This element with one more child at the end.
    pub open spec fn with_child(self, child: NodeView) -> ElementView {
        ElementView { children: self.children.push(child), ..self }
    }

    /// This element with the attribute `key` set to `text`.
    pub open spec fn with_attribute(self, key: Seq<char>, text: Seq<char>) -> ElementView {
        ElementView { attributes: self.attributes.insert(key, text), ..self }
    }

    /// This element without its children.
    pub open spec fn childless(self) -> ElementView {
        ElementView { children: Seq::empty(), ..self }
    }

    /// The text of the attribute `key`, if it is set.
    pub open spec fn attribute(self, key: Seq<char>) -> Option<Seq<char>> {
        if self.attributes.contains_key(key) {
            Some(self.attributes[key])
        } else {
            None
        }
    }

    /// What the `style` attribute stands for: the empty mapping where it is
    /// not set or holds the empty text, and nothing where a clause of its
    /// text has no `:`.
    pub open spec fn style(self) -> Option<Map<Seq<char>, Seq<char>>> {
        match self.attribute(style_key()) {
            Some(text) => decode_style(text),
            None => Some(Map::empty()),
        }
    }

    /// This element with one more clause in its `style` attribute.
    pub open spec fn with_style(self, key: Seq<char>, text: Seq<char>) -> ElementView {
        self.with_attribute(style_key(), append_clause(self.attribute(style_key()), key, text))
    }
}

/// The name of the attribute that holds the style.
pub open spec fn style_key() -> Seq<char> {
    "style"@
}

/// A node in the tree.
#[derive(Debug)]
pub enum Node {
    Text(String),
    Element(Element),
    Comment(String),
}

/// A tag with its attributes and children.
#[derive(Debug)]
pub struct Element {
    /// The tag name.
    pub name: String,
    /// The children, in order.
    pub children: Vec<Node>,
    attributes: Vec<(String, Value)>,
}

/// The attribute names of `entries` stand in strictly ascending order.
spec fn ascending(entries: Seq<(String, Value)>) -> bool {
    forall|i: int, j: int|
        0 <= i < j < entries.len() ==> key_before(#[trigger] entries[i].0@, #[trigger] entries[j].0@)
}

/// Some entry has this name.
spec fn holds_key(entries: Seq<(String, Value)>, key: Seq<char>) -> bool {
    exists|i: int| 0 <= i < entries.len() && #[trigger] entries[i].0@ == key
}

/// Where an entry with this name stands.
spec fn index_of_key(entries: Seq<(String, Value)>, key: Seq<char>) -> int {
    choose|i: int| 0 <= i < entries.len() && #[trigger] entries[i].0@ == key
}

/// The mapping that a list of entries stands for.
spec fn entries_map(entries: Seq<(String, Value)>) -> Map<Seq<char>, Seq<char>> {
    Map::new(
        |key: Seq<char>| holds_key(entries, key),
        |key: Seq<char>| entries[index_of_key(entries, key)].1@,
    )
}

/// The attribute names of `entries`, in the order in which they are held.
spec fn keys_of(entries: Seq<(String, Value)>) -> Seq<Seq<char>> {
    Seq::new(entries.len(), |i: int| entries[i].0@)
}

/// In a list in order, each entry is what the mapping holds for its name.
proof fn lemma_entry(entries: Seq<(String, Value)>, i: int)
    requires
        ascending(entries),
        0 <= i < entries.len(),
    ensures
        entries_map(entries).contains_key(entries[i].0@),
        entries_map(entries)[entries[i].0@] == entries[i].1@,
{
    let key = entries[i].0@;
    assert(holds_key(entries, key));
    let j = index_of_key(entries, key);
    if j != i {
        lemma_key_before_strict(entries[i].0@, entries[j].0@);
        lemma_key_before_strict(entries[j].0@, entries[i].0@);
    }
}

/// The names of a list in order are the names of the mapping in the order
/// in which they are written out.
proof fn lemma_keys_listed(entries: Seq<(String, Value)>)
    requires
        ascending(entries),
    ensures
        is_key_list(keys_of(entries), entries_map(entries)),
        sorted_keys(entries_map(entries)) == keys_of(entries),
{
    let keys = keys_of(entries);
    let map = entries_map(entries);
    assert forall|i: int, j: int| 0 <= i < j < keys.len() implies key_before(
        #[trigger] keys[i],
        #[trigger] keys[j],
    ) by {
        assert(key_before(entries[i].0@, entries[j].0@));
    }
    assert forall|key: Seq<char>| map.contains_key(key) <==> keys.contains(key) by {
        if map.contains_key(key) {
            let i = index_of_key(entries, key);
            assert(keys[i] == key);
        }
        if keys.contains(key) {
            let i = choose|i: int| 0 <= i < keys.len() && keys[i] == key;
            assert(entries[i].0@ == key);
        }
    }
    lemma_sorted_keys(keys, map);
}

/// Putting an entry at `at`, in place of the one that stands there where
/// `replace` is set and in front of it otherwise, keeps the order and sets
/// the key in the mapping.
proof fn lemma_put(
    before: Seq<(String, Value)>,
    after: Seq<(String, Value)>,
    at: int,
    replace: bool,
)
    requires
        ascending(before),
        0 <= at <= before.len(),
        replace ==> at < before.len() && before[at].0@ == after[at].0@ && after == before.update(
            at,
            after[at],
        ),
        !replace ==> after == before.insert(at, after[at]),
        forall|j: int| 0 <= j < at ==> key_before(#[trigger] before[j].0@, after[at].0@),
        !replace && at < before.len() ==> key_before(after[at].0@, before[at].0@),
    ensures
        ascending(after),
        entries_map(after) == entries_map(before).insert(after[at].0@, after[at].1@),
{
    let key = after[at].0@;
    assert forall|a: int, b: int| 0 <= a < b < after.len() implies key_before(
        #[trigger] after[a].0@,
        #[trigger] after[b].0@,
    ) by {
        if replace {
            assert(key_before(before[a].0@, before[b].0@));
        } else if b < at {
            assert(key_before(before[a].0@, before[b].0@));
        } else if b == at {
        } else if a < at {
            assert(key_before(before[a].0@, before[b - 1].0@));
        } else if a == at {
            if b - 1 > at {
                assert(key_before(before[at].0@, before[b - 1].0@));
                lemma_key_before_transitive(key, before[at].0@, before[b - 1].0@);
            }
        } else {
            assert(key_before(before[a - 1].0@, before[b - 1].0@));
        }
    }
    let wanted = entries_map(before).insert(key, after[at].1@);
    assert forall|k: Seq<char>| #[trigger] entries_map(after).contains_key(k) implies wanted.contains_key(
        k,
    ) by {
        let p = index_of_key(after, k);
        if k != key {
            if replace || p < at {
                assert(before[p].0@ == k);
            } else {
                assert(before[p - 1].0@ == k);
            }
        }
    }
    assert forall|k: Seq<char>| #[trigger] wanted.contains_key(k) implies entries_map(
        after,
    ).contains_key(k) && entries_map(after)[k] == wanted[k] by {
        if k == key {
            lemma_entry(after, at);
        } else {
            let p = index_of_key(before, k);
            lemma_entry(before, p);
            if replace || p < at {
                assert(after[p].0@ == k);
                lemma_entry(after, p);
            } else {
                assert(after[p + 1].0@ == k);
                lemma_entry(after, p + 1);
            }
        }
    }
    assert(entries_map(after) =~= wanted);
}

/// A list of entries with the same names and texts, one for one, is in
/// order as well and stands for the same mapping.
proof fn lemma_copied(entries: Seq<(String, Value)>, copies: Seq<(String, Value)>)
    requires
        ascending(entries),
        copies.len() == entries.len(),
        forall|i: int|
            0 <= i < entries.len() ==> (#[trigger] copies[i]).0@ == entries[i].0@ && copies[i].1@
                == entries[i].1@,
    ensures
        ascending(copies),
        entries_map(copies) == entries_map(entries),
{
    assert forall|a: int, b: int| 0 <= a < b < copies.len() implies key_before(
        #[trigger] copies[a].0@,
        #[trigger] copies[b].0@,
    ) by {
        assert(key_before(entries[a].0@, entries[b].0@));
    }
    assert forall|key: Seq<char>| #[trigger] entries_map(entries).contains_key(key) implies entries_map(
        copies,
    ).contains_key(key) && entries_map(copies)[key] == entries_map(entries)[key] by {
        let p = index_of_key(entries, key);
        lemma_entry(entries, p);
        assert(copies[p].0@ == key);
        lemma_entry(copies, p);
    }
    assert forall|key: Seq<char>| #[trigger] entries_map(copies).contains_key(key) implies entries_map(
        entries,
    ).contains_key(key) by {
        let p = index_of_key(copies, key);
        assert(entries[p].0@ == key);
    }
    assert(entries_map(copies) =~= entries_map(entries));
}

impl Node {
    /// What this node stands for.
    pub open spec fn view(&self) -> NodeView
        decreases self,
    {
        match self {
            Node::Text(text) => NodeView::Text(text@),
            Node::Element(element) => NodeView::Element(element.view()),
            Node::Comment(text) => NodeView::Comment(text@),
        }
    }

    /// The compact text of this node, see [`compact_node`].
    pub fn to_string(&self) -> (text: String)
        ensures
            text@ == compact_node(self@),
    {
        match self {
            Node::Text(text) => text.clone(),
            Node::Element(element) => element.to_string(),
            Node::Comment(text) => {
                let mut out = String::from_str("<!-- ");
                out.append(text.as_str());
                out.append(" -->");
                proof {
                    reveal_strlit("<!-- ");
                    reveal_strlit(" -->");
                    assert(out@ =~= comment_text(text@));
                }
                out
            },
        }
    }
}

impl Clone for Node {
    fn clone(&self) -> (copy: Self)
        ensures
            copy@ == self@,
        decreases self,
    {
        match self {
            Node::Text(text) => Node::Text(text.clone()),
            Node::Element(element) => Node::Element(element.clone()),
            Node::Comment(text) => Node::Comment(text.clone()),
        }
    }
}

impl Clone for Element {
    fn clone(&self) -> (copy: Self)
        ensures
            copy@ == self@,
        decreases self,
    {
        let mut children: Vec<Node> = Vec::new();
        let mut i: usize = 0;
        while i < self.children.len()
            invariant
                i <= self.children@.len(),
                children@.len() == i,
                forall|j: int| 0 <= j < i ==> children@[j]@ == self.children@[j]@,
            decreases self.children@.len() - i,
        {
            let child = self.children[i].clone();
            children.push(child);
            i += 1;
        }
        let mut copy = self.shallow_clone();
        proof {
            use_type_invariant(&copy);
        }
        copy.children = children;
        assert(copy@.children =~= self@.children);
        copy
    }
}

impl Element {
    /// The attributes are held in ascending order of their names, each name
    /// once.
    #[verifier::type_invariant]
    spec fn sorted(&self) -> bool {
        ascending(self.attributes@)
    }

    /// What this element stands for.
    pub closed spec fn view(&self) -> ElementView
        decreases self,
    {
        ElementView {
            name: self.name@,
            attributes: entries_map(self.attributes@),
            children: Seq::new(
                self.children@.len(),
                |i: int|
                    if 0 <= i < self.children@.len() {
                        self.children@[i].view()
                    } else {
                        NodeView::Text(Seq::empty())
                    },
            ),
        }
    }

    /// An element has finitely many attributes, so its attributes can be
    /// listed in ascending order (see
    /// [`lemma_key_list_exists`](crate::render::lemma_key_list_exists)).
    pub proof fn lemma_attributes_finite(&self)
        ensures
            self@.attributes.dom().finite(),
    {
        let keys = keys_of(self.attributes@);
        vstd::seq_lib::seq_to_set_is_finite(keys);
        assert(self@.attributes.dom() =~= keys.to_set()) by {
            assert forall|key: Seq<char>| self@.attributes.dom().contains(key) <==> keys.to_set().contains(
                key,
            ) by {
                if self@.attributes.dom().contains(key) {
                    let i = index_of_key(self.attributes@, key);
                    assert(keys[i] == key);
                }
                if keys.to_set().contains(key) {
                    let i = choose|i: int| 0 <= i < keys.len() && keys[i] == key;
                    assert(self.attributes@[i].0@ == key);
                }
            }
        }
    }

    /// Creates an element with the given tag name, no attributes and no
    /// children.
    pub fn new(name: &str) -> (element: Element)
        ensures
            element@ == ElementView::empty(name@),
    {
        let element = Element {
            name: String::from_str(name),
            children: Vec::new(),
            attributes: Vec::new(),
        };
        assert(element@.attributes =~= Map::empty());
        assert(element@.children =~= Seq::empty());
        element
    }

    /// Creates a group element, `g`.
    pub fn group() -> (element: Element)
        ensures
            element@ == ElementView::empty("g"@),
    {
        Element::new("g")
    }

    /// The tag name.
    pub fn name(&self) -> (name: &str)
        ensures
            name@ == self@.name,
    {
        self.name.as_str()
    }

    /// The children, in order.
    pub fn children(&self) -> (nodes: &Vec<Node>)
        ensures
            nodes@.len() == self@.children.len(),
            forall|i: int| 0 <= i < nodes@.len() ==> (#[trigger] nodes@[i])@ == self@.children[i],
    {
        &self.children
    }

    /// This element as a node: a copy of it, with all that it holds.
    pub fn as_node(&self) -> (node: Node)
        ensures
            node@ == NodeView::Element(self@),
    {
        Node::Element(self.clone())
    }

    /// Appends a copy of `child` as the last child.
    pub fn add(&mut self, child: &Element)
        ensures
            final(self)@ == old(self)@.with_child(NodeView::Element(child@)),
    {
        self.add_node(Node::Element(child.clone()));
    }

    /// Appends `child` as the last child.
    pub fn add_node(&mut self, child: Node)
        ensures
            final(self)@ == old(self)@.with_child(child@),
    {
        proof {
            use_type_invariant(&*self);
        }
        let mut children: Vec<Node> = Vec::new();
        core::mem::swap(&mut self.children, &mut children);
        children.push(child);
        self.children = children;
        assert(self@.children =~= old(self)@.children.push(child@));
    }

    /// Sets the attribute `key`, replacing what it was set to before. The
    /// element is handed back so that calls can be chained.
    pub fn set<T: Into<Value>>(&mut self, key: &str, value: T) -> (this: &mut Self)
        ensures
            exists|v: Value|
                call_ensures(T::into, (value,), v) && this@ == old(self)@.with_attribute(key@, v@),
            *final(self) == *final(this),
    {
        let v: Value = value.into();
        proof {
            use_type_invariant(&*self);
        }
        let mut at: usize = 0;
        let mut replace = false;
        while at < self.attributes.len()
            invariant_except_break
                !replace,
            invariant
                at <= self.attributes@.len(),
                *self == *old(self),
                forall|j: int| 0 <= j < at ==> key_before(#[trigger] self.attributes@[j].0@, key@),
            ensures
                at <= self.attributes@.len(),
                *self == *old(self),
                forall|j: int| 0 <= j < at ==> key_before(#[trigger] self.attributes@[j].0@, key@),
                replace ==> at < self.attributes@.len() && self.attributes@[at as int].0@ == key@,
                !replace && at < self.attributes@.len() ==> key_before(
                    key@,
                    self.attributes@[at as int].0@,
                ),
            decreases self.attributes@.len() - at,
        {
            match key_order(self.attributes[at].0.as_str(), key) {
                KeyOrder::Before => {
                    at += 1;
                },
                KeyOrder::Same => {
                    replace = true;
                    break ;
                },
                KeyOrder::After => {
                    break ;
                },
            }
        }
        let ghost before = self.attributes@;
        let mut entries: Vec<(String, Value)> = Vec::new();
        core::mem::swap(&mut self.attributes, &mut entries);
        let owned = String::from_str(key);
        if replace {
            entries.set(at, (owned, v));
        } else {
            entries.insert(at, (owned, v));
        }
        proof {
            lemma_put(before, entries@, at as int, replace);
        }
        self.attributes = entries;
        assert(self@.children =~= old(self)@.children);
        self
    }

    /// The text of the attribute `key`, without quotes, if it is set.
    pub fn get(&self, key: &str) -> (text: Option<String>)
        ensures
            match text {
                Some(text) => self@.attribute(key@) == Some(text@),
                None => self@.attribute(key@) is None,
            },
    {
        proof {
            use_type_invariant(self);
        }
        let mut i: usize = 0;
        while i < self.attributes.len()
            invariant
                i <= self.attributes@.len(),
                ascending(self.attributes@),
                forall|j: int| 0 <= j < i ==> #[trigger] self.attributes@[j].0@ != key@,
            decreases self.attributes@.len() - i,
        {
            if same_text(self.attributes[i].0.as_str(), key) {
                proof {
                    lemma_entry(self.attributes@, i as int);
                }
                return Some(self.attributes[i].1.to_string_bare());
            }
            i += 1;
        }
        None
    }

    /// Appends the clause `key:value` to the `style` attribute: behind a `;`
    /// where the attribute is set, as the whole of it otherwise.
    pub fn add_style<V: Into<Value>>(&mut self, key: &str, value: V) -> (this: &mut Self)
        ensures
            exists|v: Value|
                call_ensures(V::into, (value,), v) && this@ == old(self)@.with_style(key@, v@),
            *final(self) == *final(this),
    {
        let v: Value = value.into();
        let mut style = match self.get("style") {
            Some(existing) => {
                let mut style = existing;
                style.append(";");
                style
            },
            None => String::new(),
        };
        style.append(key);
        style.append(":");
        style.append(v.to_string_bare().as_str());
        proof {
            reveal_strlit(";");
            reveal_strlit(":");
            assert(style@ =~= append_clause(old(self)@.attribute(style_key()), key@, v@));
        }
        self.set("style", style)
    }

    /// Decodes the `style` attribute into a mapping. Without the attribute
    /// the mapping is empty; with a clause that has no `:` the decoding fails.
    pub fn style_map(&self) -> (result: Result<StringHashMap<String>, Error>)
        ensures
            match result {
                Ok(map) => self@.style() == Some(texts(map@)),
                Err(error) => error is MalformedStyle && self@.style() is None,
            },
    {
        match self.get("style") {
            Some(style) => parse_style(style.as_str()),
            None => {
                let map = StringHashMap::new();
                assert(texts(map@) =~= Map::empty());
                Ok(map)
            },
        }
    }

    /// A copy of this element without its children.
    pub fn shallow_clone(&self) -> (copy: Element)
        ensures
            copy@ == self@.childless(),
    {
        proof {
            use_type_invariant(self);
        }
        let mut attributes: Vec<(String, Value)> = Vec::new();
        let mut i: usize = 0;
        while i < self.attributes.len()
            invariant
                i <= self.attributes@.len(),
                attributes@.len() == i,
                forall|j: int|
                    0 <= j < i ==> (#[trigger] attributes@[j]).0@ == self.attributes@[j].0@
                        && attributes@[j].1@ == self.attributes@[j].1@,
            decreases self.attributes@.len() - i,
        {
            let entry = &self.attributes[i];
            attributes.push((entry.0.clone(), entry.1.clone()));
            i += 1;
        }
        proof {
            lemma_copied(self.attributes@, attributes@);
        }
        let copy = Element { name: self.name.clone(), children: Vec::new(), attributes };
        assert(copy@.children =~= Seq::empty());
        copy
    }

    /// The compact text of this element, see [`compact`].
    pub fn to_string(&self) -> (text: String)
        ensures
            text@ == compact(self@),
    {
        let mut out = String::new();
        self.write_compact(&mut out);
        assert(out@ =~= compact(self@));
        out
    }

    /// The indented text of this element, behind the preamble where it is a
    /// document root, see [`pretty_document`].
    pub fn to_pretty_string(&self) -> (text: String)
        ensures
            text@ == pretty_document(self@),
    {
        let buff = if same_text(self.name.as_str(), "svg") {
            String::from_str(
                "<?xml version=\"1.0\" encoding=\"UTF-8\"?>\n<!DOCTYPE svg PUBLIC \"-//W3C//DTD SVG 1.0//EN\" \"http://www.w3.org/TR/2001/REC-SVG-20010904/DTD/svg10.dtd\">\n",
            )
        } else {
            String::new()
        };
        let text = self.pretty_fmt_internal(buff, "");
        proof {
            reveal_strlit("");
            assert(""@ =~= Seq::<char>::empty());
            assert(text@ =~= pretty_document(self@));
        }
        text
    }

    /// Appends the opening tag up to its last attribute.
    fn write_tag_start(&self, out: &mut String)
        ensures
            final(out)@ == old(out)@ + tag_start(self@),
    {
        proof {
            use_type_invariant(self);
            lemma_keys_listed(self.attributes@);
            reveal_strlit("<");
            reveal_strlit(" ");
            reveal_strlit("=");
        }
        let ghost keys = keys_of(self.attributes@);
        let ghost map = entries_map(self.attributes@);
        out.append("<");
        out.append(self.name.as_str());
        let mut i: usize = 0;
        while i < self.attributes.len()
            invariant
                i <= self.attributes@.len(),
                ascending(self.attributes@),
                keys == keys_of(self.attributes@),
                map == entries_map(self.attributes@),
                out@ == old(out)@ + seq!['<'] + self.name@ + attributes_text(keys.take(i as int), map),
                " "@ == seq![' '],
                "="@ == seq!['='],
            decreases self.attributes@.len() - i,
        {
            let entry = &self.attributes[i];
            let ghost so_far = out@;
            out.append(" ");
            out.append(entry.0.as_str());
            out.append("=");
            out.append(entry.1.to_string().as_str());
            proof {
                lemma_entry(self.attributes@, i as int);
                let next = keys.take(i + 1);
                assert(next.drop_last() =~= keys.take(i as int));
                assert(next.last() == entry.0@);
                assert(out@ =~= so_far + seq![' '] + entry.0@ + seq!['='] + quoted(entry.1@));
                assert(out@ =~= old(out)@ + seq!['<'] + self.name@ + attributes_text(next, map));
            }
            i += 1;
        }
        proof {
            assert(keys.take(i as int) =~= keys);
            assert(out@ =~= old(out)@ + tag_start(self@));
        }
    }

    /// Appends the compact text of this element.
    fn write_compact(&self, out: &mut String)
        ensures
            final(out)@ == old(out)@ + compact(self@),
        decreases self,
    {
        self.write_tag_start(out);
        proof {
            reveal_strlit(" />");
            reveal_strlit(">\n");
            reveal_strlit("\n");
            reveal_strlit("</");
            reveal_strlit(">");
            reveal_strlit("<!-- ");
            reveal_strlit(" -->");
        }
        if self.children.len() == 0 {
            out.append(" />");
            assert(out@ =~= old(out)@ + compact(self@));
        } else {
            out.append(">\n");
            let ghost base = out@;
            let ghost nodes = self@.children;
            let mut i: usize = 0;
            while i < self.children.len()
                invariant
                    i <= self.children@.len(),
                    nodes == self@.children,
                    out@ == base + compact_nodes(nodes.take(i as int)),
                    "\n"@ == seq!['\n'],
                    "<!-- "@ == seq!['<', '!', '-', '-', ' '],
                    " -->"@ == seq![' ', '-', '-', '>'],
                decreases self.children@.len() - i,
            {
                let ghost so_far = out@;
                match &self.children[i] {
                    Node::Text(text) => {
                        out.append(text.as_str());
                    },
                    Node::Element(element) => {
                        element.write_compact(out);
                    },
                    Node::Comment(text) => {
                        out.append("<!-- ");
                        out.append(text.as_str());
                        out.append(" -->");
                    },
                }
                out.append("\n");
                proof {
                    let next = nodes.take(i + 1);
                    assert(next.drop_last() =~= nodes.take(i as int));
                    assert(next.last() == self.children@[i as int]@);
                    assert(out@ =~= so_far + compact_node(next.last()) + seq!['\n']);
                    assert(out@ =~= base + compact_nodes(next));
                }
                i += 1;
            }
            out.append("</");
            out.append(self.name.as_str());
            out.append(">");
            proof {
                assert(nodes.take(i as int) =~= nodes);
                assert(out@ =~= old(out)@ + compact(self@));
            }
        }
    }

    /// Appends to `buff` the indented text of this element, which stands
    /// behind `indent`.
    fn pretty_fmt_internal(&self, buff: String, indent: &str) -> (text: String)
        ensures
            text@ == buff@ + pretty(self@, indent@),
        decreases self,
    {
        let mut out = buff;
        out.append(indent);
        self.write_tag_start(&mut out);
        proof {
            reveal_strlit(" />\n");
            reveal_strlit(">\n");
            reveal_strlit("\t");
            reveal_strlit("</");
            reveal_strlit("<!-- ");
            reveal_strlit(" -->");
        }
        if self.children.len() == 0 {
            out.append(" />\n");
            assert(out@ =~= buff@ + pretty(self@, indent@));
        } else {
            out.append(">\n");
            let mut deeper = String::from_str(indent);
            deeper.append("\t");
            assert(deeper@ =~= indent@.push('\t'));
            let ghost base = out@;
            let ghost nodes = self@.children;
            let mut i: usize = 0;
            while i < self.children.len()
                invariant
                    i <= self.children@.len(),
                    nodes == self@.children,
                    out@ == base + pretty_nodes(nodes.take(i as int), deeper@),
                    "<!-- "@ == seq!['<', '!', '-', '-', ' '],
                    " -->"@ == seq![' ', '-', '-', '>'],
                decreases self.children@.len() - i,
            {
                let ghost so_far = out@;
                match &self.children[i] {
                    Node::Text(text) => {
                        out.append(text.as_str());
                    },
                    Node::Element(element) => {
                        out = element.pretty_fmt_internal(out, deeper.as_str());
                    },
                    Node::Comment(text) => {
                        out.append("<!-- ");
                        out.append(text.as_str());
                        out.append(" -->");
                    },
                }
                proof {
                    let next = nodes.take(i + 1);
                    assert(next.drop_last() =~= nodes.take(i as int));
                    assert(next.last() == self.children@[i as int]@);
                    assert(out@ =~= so_far + pretty_node(next.last(), deeper@));
                    assert(out@ =~= base + pretty_nodes(next, deeper@));
                }
                i += 1;
            }
            out.append(indent);
            out.append("</");
            out.append(self.name.as_str());
            out.append(">\n");
            proof {
                assert(nodes.take(i as int) =~= nodes);
                assert(out@ =~= buff@ + pretty(self@, indent@));
            }
        }
        out
    }
}

} // verus!
