//! Laws that relate the operations of this crate to each other.
use crate::element::{ElementView, NodeView};
use crate::error::Failure;
use crate::read::{assemble, run, step, tag_element, ParserView, Token};
use crate::render::{compact, pretty_document};
use crate::strings::{first_index, lemma_first_index, lemma_first_index_found};
use crate::style::decode_clauses;
use crate::xml::{text_bytes, text_unescaped};
use quick_xml::Error as MarkupError;
use vstd::prelude::*;

verus! {

/// The order in which two attributes are set does not show in the text of
/// an element, compact or indented.
pub proof fn lemma_attribute_order(
    element: ElementView,
    first: Seq<char>,
    first_text: Seq<char>,
    second: Seq<char>,
    second_text: Seq<char>,
)
    requires
        first != second,
    ensures
        compact(element.with_attribute(first, first_text).with_attribute(second, second_text))
            == compact(element.with_attribute(second, second_text).with_attribute(first, first_text)),
        pretty_document(
            element.with_attribute(first, first_text).with_attribute(second, second_text),
        ) == pretty_document(
            element.with_attribute(second, second_text).with_attribute(first, first_text),
        ),
{
    let a = element.with_attribute(first, first_text).with_attribute(second, second_text);
    let b = element.with_attribute(second, second_text).with_attribute(first, first_text);
    assert(a.attributes =~= b.attributes);
    assert(a == b);
}

/// Elements with the same name, the same attributes as a mapping and the
/// same children have the same text, however they were built.
pub proof fn lemma_text_follows_mapping(a: ElementView, b: ElementView)
    requires
        a.name == b.name,
        a.children == b.children,
        forall|key: Seq<char>| a.attributes.contains_key(key) <==> b.attributes.contains_key(key),
        forall|key: Seq<char>| a.attributes.contains_key(key) ==> a.attributes[key] == b.attributes[key],
    ensures
        compact(a) == compact(b),
        pretty_document(a) == pretty_document(b),
{
    assert(a.attributes =~= b.attributes);
    assert(a == b);
}

/// The events of a tree in the order of its text: its opening tag, the
/// events of its children, its closing tag. A child without children of its
/// own is one self-closing tag. Comments give no event.
pub enum TreeEvent {
    Open(ElementView),
    Leaf(ElementView),
    Text(Seq<char>),
    Close,
}

/// What one event of a tree does to the parser.
pub open spec fn replay_one(state: ParserView, event: TreeEvent) -> Result<ParserView, Failure> {
    match event {
        TreeEvent::Open(element) => Ok(state.open(element)),
        TreeEvent::Leaf(element) => state.append(NodeView::Element(element)),
        TreeEvent::Text(text) => state.append(NodeView::Text(text)),
        TreeEvent::Close => state.close(),
    }
}

/// What a run of events of a tree does to the parser.
pub open spec fn replay(state: ParserView, events: Seq<TreeEvent>) -> Result<ParserView, Failure>
    decreases events.len(),
{
    if events.len() == 0 {
        Ok(state)
    } else {
        match replay_one(state, events[0]) {
            Ok(next) => replay(next, events.drop_first()),
            Err(failure) => Err(failure),
        }
    }
}

/// A tree holds no comment, at any depth.
pub open spec fn comment_free(element: ElementView) -> bool
    decreases element, 1int,
{
    forall|i: int| 0 <= i < element.children.len() ==> node_comment_free(#[trigger] element.children[i])
}

/// A node is no comment and holds none.
pub open spec fn node_comment_free(node: NodeView) -> bool
    decreases node, 0int,
{
    match node {
        NodeView::Text(_) => true,
        NodeView::Element(element) => comment_free(element),
        NodeView::Comment(_) => false,
    }
}

/// The events of an element that is written with an opening and a closing
/// tag.
pub open spec fn events_of(element: ElementView) -> Seq<TreeEvent>
    decreases element, 1int,
{
    seq![TreeEvent::Open(element.childless())] + events_of_nodes(element.children) + seq![
        TreeEvent::Close,
    ]
}

/// The events of a node.
pub open spec fn events_of_node(node: NodeView) -> Seq<TreeEvent>
    decreases node, 0int,
{
    match node {
        NodeView::Text(text) => seq![TreeEvent::Text(text)],
        NodeView::Element(element) => if element.children.len() == 0 {
            seq![TreeEvent::Leaf(element)]
        } else {
            events_of(element)
        },
        NodeView::Comment(_) => Seq::empty(),
    }
}

/// The events of the nodes, one after the other.
pub open spec fn events_of_nodes(nodes: Seq<NodeView>) -> Seq<TreeEvent>
    decreases nodes, 0int,
{
    if nodes.len() == 0 {
        Seq::empty()
    } else {
        events_of_nodes(nodes.drop_last()) + events_of_node(nodes.last())
    }
}

/// Replaying one run of events after another is replaying the two in a row.
pub proof fn lemma_replay_concat(state: ParserView, first: Seq<TreeEvent>, second: Seq<TreeEvent>)
    ensures
        replay(state, first + second) == match replay(state, first) {
            Ok(next) => replay(next, second),
            Err(failure) => Err(failure),
        },
    decreases first.len(),
{
    if first.len() == 0 {
        assert(first + second =~= second);
    } else {
        assert((first + second)[0] == first[0]);
        assert((first + second).drop_first() =~= first.drop_first() + second);
        match replay_one(state, first[0]) {
            Ok(next) => {
                lemma_replay_concat(next, first.drop_first(), second);
            },
            Err(_) => {},
        }
    }
}

/// The state in which `element` is the innermost open element and has got
/// the first `count` of the children of `whole` so far.
pub open spec fn filling(state: ParserView, whole: ElementView, count: int) -> ParserView {
    state.open(ElementView { children: whole.children.take(count), ..whole })
}

/// The events of the children of an open element give it these children.
pub proof fn lemma_replay_children(state: ParserView, whole: ElementView, count: int)
    requires
        comment_free(whole),
        0 <= count <= whole.children.len(),
    ensures
        replay(filling(state, whole, 0), events_of_nodes(whole.children.take(count))) == Ok::<
            ParserView,
            Failure,
        >(filling(state, whole, count)),
    decreases whole, 0int, count,
{
    let nodes = whole.children.take(count);
    if count == 0 {
        assert(nodes =~= Seq::empty());
    } else {
        let before = whole.children.take(count - 1);
        assert(nodes.drop_last() =~= before);
        assert(nodes.last() == whole.children[count - 1]);
        lemma_replay_children(state, whole, count - 1);
        lemma_replay_concat(filling(state, whole, 0), events_of_nodes(before), events_of_node(nodes.last()));
        let mid = filling(state, whole, count - 1);
        let node = whole.children[count - 1];
        assert(node_comment_free(node));
        assert(mid.stack.len() > 0);
        assert(mid.stack.drop_last() =~= state.stack);
        assert(whole.children.take(count) =~= whole.children.take(count - 1).push(node));
        let after = filling(state, whole, count);
        assert(mid.append(node) == Ok::<ParserView, Failure>(after)) by {
            assert(mid.stack.drop_last().push(mid.stack.last().with_child(node)) =~= after.stack);
        }
        match node {
            NodeView::Text(text) => {
                assert(events_of_node(node) =~= seq![TreeEvent::Text(text)]);
                assert(replay(mid, seq![TreeEvent::Text(text)]) == replay(
                    after,
                    seq![TreeEvent::Text(text)].drop_first(),
                ));
            },
            NodeView::Element(element) => {
                if element.children.len() == 0 {
                    assert(events_of_node(node) =~= seq![TreeEvent::Leaf(element)]);
                    assert(replay(mid, seq![TreeEvent::Leaf(element)]) == replay(
                        after,
                        seq![TreeEvent::Leaf(element)].drop_first(),
                    ));
                } else {
                    lemma_replay_rebuilds(mid, element);
                }
            },
            NodeView::Comment(_) => {},
        }
    }
}

/// The parser rebuilds a tree from the events of its own text: replaying
/// the events of a tree without comments closes that very tree. With an
/// element open, the tree becomes its last child; with none open, it becomes
/// the root.
pub proof fn lemma_replay_rebuilds(state: ParserView, element: ElementView)
    requires
        comment_free(element),
    ensures
        replay(state, events_of(element)) == if state.stack.len() == 0 {
            Ok::<ParserView, Failure>(ParserView { stack: Seq::empty(), root: Some(element) })
        } else {
            state.append(NodeView::Element(element))
        },
    decreases element, 1int, 0int,
{
    let n = element.children.len() as int;
    let head = seq![TreeEvent::Open(element.childless())];
    let body = events_of_nodes(element.children);
    let tail = seq![TreeEvent::Close];
    let opened = filling(state, element, 0);
    let filled = filling(state, element, n);
    assert(element.children.take(0) =~= Seq::empty());
    assert(element.children.take(n) =~= element.children);
    assert(ElementView { children: element.children.take(0), ..element } == element.childless());
    assert(ElementView { children: element.children.take(n), ..element } == element);
    lemma_replay_children(state, element, n);
    lemma_replay_concat(state, head, body + tail);
    assert(head + (body + tail) =~= events_of(element));
    assert(replay(state, head) == Ok::<ParserView, Failure>(opened)) by {
        assert(replay_one(state, head[0]) == Ok::<ParserView, Failure>(opened));
        assert(replay(opened, head.drop_first()) == Ok::<ParserView, Failure>(opened));
    }
    lemma_replay_concat(opened, body, tail);
    assert(replay(filled, tail) == filled.close()) by {
        match filled.close() {
            Ok(next) => {
                assert(replay(next, tail.drop_first()) == Ok::<ParserView, Failure>(next));
            },
            Err(_) => {},
        }
    }
    assert(filled.stack.drop_last() =~= state.stack);
    assert(filled.stack.last() == element);
    if state.stack.len() == 0 {
        assert(filled.stack.len() == 1);
        assert(filled.stack[0] == element);
    } else {
        assert(ParserView { stack: filled.stack.drop_last(), ..filled } == state);
    }
}

/// The event of a tree that a token of the tokenizer stands for: a tag
/// stands for the element that it decodes to, character data for its
/// unescaped text. Tokens that cannot be decoded, and tokens of the kinds
/// that are passed over, stand for none.
pub open spec fn token_event(token: Token) -> Option<TreeEvent> {
    match token {
        Token::Start(tag) => match tag_element(tag) {
            Ok(element) => Some(TreeEvent::Open(element)),
            Err(_) => None,
        },
        Token::Empty(tag) => match tag_element(tag) {
            Ok(element) => Some(TreeEvent::Leaf(element)),
            Err(_) => None,
        },
        Token::End => Some(TreeEvent::Close),
        Token::Text(text) => if vstd::utf8::valid_utf8(text_bytes(text)) {
            match text_unescaped(text_bytes(text)) {
                Ok(text) => Some(TreeEvent::Text(text)),
                Err(_) => None,
            }
        } else {
            None
        },
        _ => None,
    }
}

/// The tokens stand for the events, one for one.
pub open spec fn tokens_stand_for(tokens: Seq<Token>, events: Seq<TreeEvent>) -> bool {
    &&& tokens.len() == events.len()
    &&& forall|i: int| 0 <= i < tokens.len() ==> token_event(#[trigger] tokens[i]) == Some(events[i])
}

/// The tokens as results of the tokenizer, none of them an error.
pub open spec fn read_without_error(tokens: Seq<Token>) -> Seq<Result<Token, MarkupError>> {
    Seq::new(tokens.len(), |i: int| Ok(tokens[i]))
}

/// Reading tokens that stand for events does to the parser what replaying
/// the events does, and goes on with what follows the tokens.
pub proof fn lemma_run_follows_replay(
    tokens: Seq<Token>,
    events: Seq<TreeEvent>,
    state: ParserView,
    rest: Seq<Result<Token, MarkupError>>,
)
    requires
        tokens_stand_for(tokens, events),
    ensures
        run(read_without_error(tokens) + rest, state) == match replay(state, events) {
            Ok(next) => run(rest, next),
            Err(failure) => Err(failure),
        },
    decreases tokens.len(),
{
    let all = read_without_error(tokens) + rest;
    if tokens.len() == 0 {
        assert(all =~= rest);
    } else {
        assert(all[0] == Ok::<Token, MarkupError>(tokens[0]));
        assert(token_event(tokens[0]) == Some(events[0]));
        assert(all.drop_first() =~= read_without_error(tokens.drop_first()) + rest);
        assert(step(state, tokens[0]) == replay_one(state, events[0]));
        match replay_one(state, events[0]) {
            Ok(next) => {
                assert forall|i: int| 0 <= i < tokens.drop_first().len() implies token_event(
                    #[trigger] tokens.drop_first()[i],
                ) == Some(events.drop_first()[i]) by {
                    assert(tokens.drop_first()[i] == tokens[i + 1]);
                }
                lemma_run_follows_replay(tokens.drop_first(), events.drop_first(), next, rest);
            },
            Err(_) => {},
        }
    }
}

/// Reading back what was written, as far as this crate decides it: where
/// the tokenizer cuts a text into tokens that stand for the events of a tree
/// without comments, and then reports the end of the input, reading the text
/// gives that tree.
pub proof fn lemma_round_trip(tokens: Seq<Token>, element: ElementView)
    requires
        comment_free(element),
        tokens_stand_for(tokens, events_of(element)),
    ensures
        assemble(read_without_error(tokens).push(Ok(Token::Eof))) == Ok::<ElementView, Failure>(
            element,
        ),
{
    let rest = seq![Ok::<Token, MarkupError>(Token::Eof)];
    assert(read_without_error(tokens).push(Ok(Token::Eof)) =~= read_without_error(tokens) + rest);
    lemma_run_follows_replay(tokens, events_of(element), ParserView::empty(), rest);
    lemma_replay_rebuilds(ParserView::empty(), element);
}

/// No root without a closing tag: where no element was closed before and no
/// event closes one, reading fails.
pub proof fn lemma_root_needs_close(events: Seq<Result<Token, MarkupError>>, state: ParserView)
    requires
        state.root is None,
        forall|i: int| 0 <= i < events.len() ==> !(#[trigger] events[i] matches Ok(Token::End)),
    ensures
        run(events, state) is Err,
    decreases events.len(),
{
    if events.len() > 0 {
        match events[0] {
            Ok(token) => {
                if !(token is Eof) {
                    match step(state, token) {
                        Ok(next) => {
                            assert forall|i: int| 0 <= i < events.drop_first().len() implies !(
                            #[trigger] events.drop_first()[i] matches Ok(Token::End)) by {
                                assert(events.drop_first()[i] == events[i + 1]);
                            }
                            lemma_root_needs_close(events.drop_first(), next);
                        },
                        Err(_) => {},
                    }
                }
            },
            Err(_) => {},
        }
    }
}

/// Input without a top-level element is an empty document: where the
/// tokenizer reports no opening tag up to the end of the input, be it text,
/// comments, declarations or tags of other kinds, reading fails with
/// `EmptyDocument`.
pub proof fn lemma_missing_root(events: Seq<Result<Token, MarkupError>>)
    requires
        forall|i: int|
            0 <= i < events.len() ==> (#[trigger] events[i] matches Ok(token) && !(token is Start)),
    ensures
        assemble(events) == Err::<ElementView, Failure>(Failure::EmptyDocument),
{
    lemma_nothing_opened(events, ParserView::empty());
}

/// Without an opening tag nothing is opened and no root is completed.
proof fn lemma_nothing_opened(events: Seq<Result<Token, MarkupError>>, state: ParserView)
    requires
        state.stack.len() == 0,
        state.root is None,
        forall|i: int|
            0 <= i < events.len() ==> (#[trigger] events[i] matches Ok(token) && !(token is Start)),
    ensures
        run(events, state) == Err::<ElementView, Failure>(Failure::EmptyDocument),
    decreases events.len(),
{
    if events.len() > 0 {
        assert forall|i: int| 0 <= i < events.drop_first().len() implies (
        #[trigger] events.drop_first()[i] matches Ok(token) && !(token is Start)) by {
            assert(events.drop_first()[i] == events[i + 1]);
        }
        match events[0] {
            Ok(token) => {
                match step(state, token) {
                    Ok(next) => {
                        assert(next == state);
                        lemma_nothing_opened(events.drop_first(), next);
                    },
                    Err(_) => {},
                }
            },
            Err(_) => {},
        }
    }
}

/// A clause that is appended to a style can be read back: where the clauses
/// of a text decode to a mapping, the text with `;` and one more clause
/// decodes to that mapping with the key of the clause set to its value. The
/// key holds no `;` and no `:`, the value no `;`.
pub proof fn lemma_style_append(
    text: Seq<char>,
    found: Map<Seq<char>, Seq<char>>,
    key: Seq<char>,
    value: Seq<char>,
)
    requires
        decode_clauses(text, found) is Some,
        !key.contains(';'),
        !key.contains(':'),
        !value.contains(';'),
    ensures
        decode_clauses(text + seq![';'] + key + seq![':'] + value, found) == Some(
            decode_clauses(text, found)->0.insert(key, value),
        ),
    decreases text.len(),
{
    let clause = key + seq![':'] + value;
    let whole = text + seq![';'] + key + seq![':'] + value;
    assert(whole =~= text + (seq![';'] + clause));
    let end = first_index(text, ';') as int;
    lemma_first_index_found(text, ';');
    assert forall|j: int| 0 <= j < end implies whole[j] != ';' by {
        assert(whole[j] == text[j]);
    }
    if end < text.len() {
        assert(whole[end] == text[end]);
    } else {
        assert(whole[end] == ';');
    }
    lemma_first_index(whole, ';', end);
    assert(whole.take(end) =~= text.take(end));
    let first = text.take(end);
    let colon = first_index(first, ':') as int;
    let found_next = found.insert(first.take(colon), first.skip(colon + 1));
    if end < text.len() {
        assert(whole.skip(end + 1) =~= text.skip(end + 1) + seq![';'] + key + seq![':'] + value);
        lemma_style_append(text.skip(end + 1), found_next, key, value);
    } else {
        assert(whole.skip(end + 1) =~= clause);
        lemma_single_clause(key, value, found_next);
    }
}

/// A single clause decodes to its key and value.
pub proof fn lemma_single_clause(key: Seq<char>, value: Seq<char>, found: Map<Seq<char>, Seq<char>>)
    requires
        !key.contains(';'),
        !key.contains(':'),
        !value.contains(';'),
    ensures
        decode_clauses(key + seq![':'] + value, found) == Some(found.insert(key, value)),
{
    let clause = key + seq![':'] + value;
    assert forall|j: int| 0 <= j < clause.len() implies clause[j] != ';' by {
        if j < key.len() {
            assert(key.contains(clause[j]));
        } else if j > key.len() {
            assert(clause[j] == value[j - key.len() - 1]);
            assert(value.contains(clause[j]));
        }
    }
    lemma_first_index(clause, ';', clause.len() as int);
    assert(clause.take(clause.len() as int) =~= clause);
    assert forall|j: int| 0 <= j < key.len() implies clause[j] != ':' by {
        assert(key.contains(clause[j]));
    }
    lemma_first_index(clause, ':', key.len() as int);
    assert(clause.take(key.len() as int) =~= key);
    assert(clause.skip(key.len() as int + 1) =~= value);
}

/// What `add_style` writes, `style_map` reads: an element whose style
/// decodes, with one more clause added, decodes to the same mapping with the
/// key of the clause set to its value. The style is absent or not empty: to
/// the empty text `add_style` adds a `;` first, and what stands before that
/// is a clause without `:`.
pub proof fn lemma_add_style_then_style_map(element: ElementView, key: Seq<char>, value: Seq<char>)
    requires
        element.style() is Some,
        element.attribute(crate::element::style_key()) matches Some(text) ==> text.len() > 0,
        !key.contains(';'),
        !key.contains(':'),
        !value.contains(';'),
    ensures
        element.with_style(key, value).style() == Some(element.style()->0.insert(key, value)),
{
    match element.attribute(crate::element::style_key()) {
        Some(text) => {
            lemma_style_append(text, Map::empty(), key, value);
        },
        None => {
            lemma_single_clause(key, value, Map::empty());
        },
    }
}

} // verus!
