//! The markup parser: from text to a document tree.
//!
//! The text holds nodes one after the other, white space between them being skipped. A
//! node is text up to the next `<`, or an element: `<name attr="value" ...>`, the nodes
//! inside, and `</name>`. Names are made of ASCII letters and digits; attribute values
//! stand in single or double quotes.

use vstd::prelude::*;
use crate::dom::{AttrMap, ElementDataView, Node, NodeType, NodeTypeView, NodeView};
use crate::strmap::StrMap;
use crate::text::{chars_of, lemma_run_end, run_end, stands_at, str_eq, string_of, CharClass};

verus! {

/// One attribute at `pos`: its name, its value, and where the text goes on. `None` where
/// no well-formed attribute stands there.
pub open spec fn spec_attr(input: Seq<char>, pos: int) -> Option<(Seq<char>, Seq<char>, int)> {
    let name_end = run_end(input, pos, CharClass::Alphanumeric);
    let open = name_end + 1;
    if name_end >= input.len() || input[name_end] != '=' {
        None
    } else if open >= input.len() || (input[open] != '"' && input[open] != '\'') {
        None
    } else {
        let value_end = run_end(input, open + 1, CharClass::Except(input[open]));
        if value_end >= input.len() {
            None
        } else {
            Some(
                (input.subrange(pos, name_end), input.subrange(open + 1, value_end), value_end + 1),
            )
        }
    }
}

/// The attributes from `pos` up to the `>` that ends the tag, added to `acc`, and the
/// place of that `>`. Of two attributes of one name the later one counts. (The bounds on
/// `next` only show that the recursion ends.)
pub open spec fn spec_attributes(
    input: Seq<char>,
    pos: int,
    acc: Map<Seq<char>, Seq<char>>,
) -> Option<(Map<Seq<char>, Seq<char>>, int)>
    decreases input.len() - pos,
{
    if pos < 0 || pos > input.len() {
        None
    } else {
        let start = run_end(input, pos, CharClass::Whitespace);
        if start >= input.len() {
            None
        } else if input[start] == '>' {
            Some((acc, start))
        } else {
            match spec_attr(input, start) {
                Some((name, value, next)) => {
                    if next <= pos || next > input.len() {
                        None
                    } else {
                        spec_attributes(input, next, acc.insert(name, value))
                    }
                },
                None => None,
            }
        }
    }
}

/// A node of text without children.
pub open spec fn text_node(data: Seq<char>) -> NodeView {
    NodeView { children: Seq::empty(), node_type: NodeTypeView::Text(data) }
}

/// An element.
pub open spec fn element_node(
    tag_name: Seq<char>,
    attrs: Map<Seq<char>, Seq<char>>,
    children: Seq<NodeView>,
) -> NodeView {
    NodeView { children, node_type: NodeTypeView::Element(ElementDataView { tag_name, attrs }) }
}

/// Whether a closing tag begins at `pos`.
pub open spec fn closing_at(input: Seq<char>, pos: int) -> bool {
    0 <= pos && pos + 1 < input.len() && input[pos] == '<' && input[pos + 1] == '/'
}

/// The nodes from `pos` up to the end of the text or the next closing tag, added to
/// `acc`, and where they end. (The bounds on `start` and `next` only show that the
/// recursion ends.)
pub open spec fn spec_nodes(input: Seq<char>, pos: int, acc: Seq<NodeView>) -> Option<
    (Seq<NodeView>, int),
>
    decreases input.len() - pos, 2nat,
{
    if pos < 0 || pos > input.len() {
        None
    } else {
        let start = run_end(input, pos, CharClass::Whitespace);
        if start < pos {
            None
        } else if start >= input.len() || closing_at(input, start) {
            Some((acc, start))
        } else {
            match spec_node(input, start) {
                Some((node, next)) => {
                    if next <= start || next > input.len() {
                        None
                    } else {
                        spec_nodes(input, next, acc.push(node))
                    }
                },
                None => None,
            }
        }
    }
}

/// The node at `pos`, and where it ends: an element where a `<` stands, else text up to
/// the next `<`.
pub open spec fn spec_node(input: Seq<char>, pos: int) -> Option<(NodeView, int)>
    decreases input.len() - pos, 1nat,
{
    if pos < 0 || pos >= input.len() {
        None
    } else if input[pos] == '<' {
        spec_element(input, pos)
    } else {
        let end = run_end(input, pos, CharClass::Except('<'));
        Some((text_node(input.subrange(pos, end)), end))
    }
}

/// The element at `pos`, and where it ends: the opening tag with its attributes, the
/// nodes inside, and the closing tag of the same name. (The bounds on `close` only show
/// that the recursion ends.)
pub open spec fn spec_element(input: Seq<char>, pos: int) -> Option<(NodeView, int)>
    decreases input.len() - pos, 0nat,
{
    if pos < 0 || pos >= input.len() || input[pos] != '<' {
        None
    } else {
        let name_end = run_end(input, pos + 1, CharClass::Alphanumeric);
        let tag_name = input.subrange(pos + 1, name_end);
        match spec_attributes(input, name_end, Map::empty()) {
            Some((attrs, close)) => {
                if close < pos || close >= input.len() {
                    None
                } else {
                    match spec_nodes(input, close + 1, Seq::empty()) {
                        Some((children, end)) => {
                            let closing_end = run_end(input, end + 2, CharClass::Alphanumeric);
                            if !closing_at(input, end) {
                                None
                            } else if input.subrange(end + 2, closing_end) != tag_name {
                                None
                            } else if closing_end >= input.len() || input[closing_end] != '>' {
                                None
                            } else {
                                Some((element_node(tag_name, attrs, children), closing_end + 1))
                            }
                        },
                        None => None,
                    }
                }
            },
            None => None,
        }
    }
}

/// The document that `source` holds: its one node where that is an element, else an
/// element `html` round all its nodes. `None` where the text is not well formed.
pub open spec fn spec_parse(source: Seq<char>) -> Option<NodeView> {
    match spec_nodes(source, 0, Seq::empty()) {
        Some((nodes, _)) => if nodes.len() == 1 && nodes[0].node_type is Element {
            Some(nodes[0])
        } else {
            Some(element_node("html"@, Map::empty(), nodes))
        },
        None => None,
    }
}

/// The models of a list of nodes.
pub open spec fn nodes_view(nodes: Seq<Node>) -> Seq<NodeView> {
    nodes.map_values(|n: Node| n@)
}

/// The model of a map of attributes.
pub open spec fn attrs_view(attrs: AttrMap) -> Map<Seq<char>, Seq<char>> {
    attrs@.map_values(|s: String| s@)
}

/// A reader that walks through the text from front to back.
pub struct Parser {
    pos: usize,
    input: Vec<char>,
}

impl Parser {
    /// The reader stands within its text.
    spec fn wf(&self) -> bool {
        self.pos <= self.input@.len()
    }

    /// The character at the reader's place.
    fn next_char(&self) -> (c: char)
        requires
            self.pos < self.input@.len(),
        ensures
            c == self.input@[self.pos as int],
    {
        self.input[self.pos]
    }

    /// Whether the characters of `s` stand at the reader's place.
    fn starts_with(&self, s: &str) -> (r: bool)
        requires
            self.wf(),
        ensures
            r == stands_at(self.input@, self.pos as int, s@),
    {
        let word = chars_of(s);
        if word.len() > self.input.len() - self.pos {
            return false;
        }
        let n = self.input.len();
        let mut i: usize = 0;
        while i < word.len()
            invariant
                i <= word.len(),
                word@ == s@,
                n == self.input@.len(),
                self.pos + word.len() <= self.input@.len(),
                forall|k: int| 0 <= k < i ==> self.input@[self.pos + k] == #[trigger] word@[k],
            decreases word.len() - i,
        {
            if self.input[self.pos + i] != word[i] {
                assert(self.input@.subrange(self.pos as int, self.pos + word.len())[i as int]
                    != word@[i as int]);
                return false;
            }
            i += 1;
        }
        assert(self.input@.subrange(self.pos as int, self.pos + word.len()) =~= word@);
        true
    }

    /// Whether the reader has reached the end of the text.
    fn eof(&self) -> (r: bool)
        ensures
            r == (self.pos >= self.input@.len()),
    {
        self.pos >= self.input.len()
    }

    /// Steps over the character at the reader's place and returns it.
    fn consume_char(&mut self) -> (c: char)
        requires
            old(self).pos < old(self).input@.len(),
        ensures
            final(self).input == old(self).input,
            final(self).pos == old(self).pos + 1,
            c == old(self).input@[old(self).pos as int],
    {
        let c = self.input[self.pos];
        let n = self.input.len();
        self.pos += 1;
        c
    }

    /// Steps over the longest run of characters of `class` and returns it.
    fn consume_while(&mut self, class: CharClass) -> (r: String)
        requires
            old(self).wf(),
        ensures
            final(self).input == old(self).input,
            final(self).wf(),
            final(self).pos == run_end(old(self).input@, old(self).pos as int, class),
            final(self).pos >= old(self).pos,
            r@ == old(self).input@.subrange(old(self).pos as int, final(self).pos as int),
    {
        let start = self.pos;
        while !self.eof() && class.test(self.next_char())
            invariant
                self.input == old(self).input,
                start == old(self).pos,
                start <= self.pos <= self.input@.len(),
                run_end(self.input@, start as int, class) == run_end(
                    self.input@,
                    self.pos as int,
                    class,
                ),
            decreases self.input@.len() - self.pos,
        {
            self.consume_char();
        }
        string_of(&self.input, start, self.pos)
    }

    /// Steps over white space.
    fn consume_whitespace(&mut self)
        requires
            old(self).wf(),
        ensures
            final(self).input == old(self).input,
            final(self).wf(),
            final(self).pos == run_end(old(self).input@, old(self).pos as int, CharClass::Whitespace),
            final(self).pos >= old(self).pos,
    {
        let _ = self.consume_while(CharClass::Whitespace);
    }

    /// Reads a name: ASCII letters and digits.
    fn parse_tag_name(&mut self) -> (r: String)
        requires
            old(self).wf(),
        ensures
            final(self).input == old(self).input,
            final(self).wf(),
            final(self).pos == run_end(
                old(self).input@,
                old(self).pos as int,
                CharClass::Alphanumeric,
            ),
            final(self).pos >= old(self).pos,
            r@ == old(self).input@.subrange(old(self).pos as int, final(self).pos as int),
    {
        self.consume_while(CharClass::Alphanumeric)
    }

    /// Reads one node: an element where a `<` stands, else text.
    fn parse_node(&mut self) -> (r: Option<Node>)
        requires
            old(self).pos < old(self).input@.len(),
        ensures
            final(self).input == old(self).input,
            final(self).wf(),
            match spec_node(old(self).input@, old(self).pos as int) {
                Some((node, end)) => r matches Some(n) && n@ == node && final(self).pos == end
                    && end > old(self).pos,
                None => r is None,
            },
        decreases old(self).input@.len() - old(self).pos, 1nat,
    {
        if self.next_char() == '<' {
            self.parse_element()
        } else {
            Some(self.parse_text())
        }
    }

    /// Reads text up to the next `<`.
    fn parse_text(&mut self) -> (r: Node)
        requires
            old(self).pos < old(self).input@.len(),
            old(self).input@[old(self).pos as int] != '<',
        ensures
            final(self).input == old(self).input,
            final(self).wf(),
            final(self).pos == run_end(
                old(self).input@,
                old(self).pos as int,
                CharClass::Except('<'),
            ),
            final(self).pos > old(self).pos,
            r@ == text_node(
                old(self).input@.subrange(old(self).pos as int, final(self).pos as int),
            ),
    {
        proof {
            lemma_run_end(self.input@, self.pos + 1, CharClass::Except('<'));
        }
        let r = Node::text(self.consume_while(CharClass::Except('<')));
        proof {
            r.lemma_view();
            assert(r@.children =~= Seq::empty());
        }
        r
    }

    /// Reads an element: opening tag, what is inside, closing tag.
    fn parse_element(&mut self) -> (r: Option<Node>)
        requires
            old(self).pos < old(self).input@.len(),
            old(self).input@[old(self).pos as int] == '<',
        ensures
            final(self).input == old(self).input,
            final(self).wf(),
            match spec_element(old(self).input@, old(self).pos as int) {
                Some((node, end)) => r matches Some(n) && n@ == node && final(self).pos == end
                    && end > old(self).pos,
                None => r is None,
            },
        decreases old(self).input@.len() - old(self).pos, 0nat,
    {
        let ghost input = self.input@;
        self.consume_char();
        let tag_name = self.parse_tag_name();
        let attrs = match self.parse_attributes() {
            Some(attrs) => attrs,
            None => {
                return None;
            },
        };
        self.consume_char();

        let children = match self.parse_nodes() {
            Some(children) => children,
            None => {
                return None;
            },
        };

        proof {
            reveal_strlit("</");
            assert(stands_at(input, self.pos as int, "</"@) == closing_at(input, self.pos as int))
                by {
                if closing_at(input, self.pos as int) {
                    assert(input.subrange(self.pos as int, self.pos + 2) =~= "</"@);
                }
                if stands_at(input, self.pos as int, "</"@) {
                    assert(input.subrange(self.pos as int, self.pos + 2)[0] == '<');
                    assert(input.subrange(self.pos as int, self.pos + 2)[1] == '/');
                }
            }
        }
        if !self.starts_with("</") {
            return None;
        }
        self.consume_char();
        self.consume_char();
        let closing = self.parse_tag_name();
        if !str_eq(closing.as_str(), tag_name.as_str()) {
            return None;
        }
        if self.eof() || self.next_char() != '>' {
            return None;
        }
        self.consume_char();

        let r = Node::elem(tag_name, attrs, children);
        proof {
            r.lemma_view();
            assert(r@.children =~= nodes_view(children@));
        }
        Some(r)
    }

    /// Reads one attribute: `name="value"`.
    fn parse_attr(&mut self) -> (r: Option<(String, String)>)
        requires
            old(self).wf(),
        ensures
            final(self).input == old(self).input,
            final(self).wf(),
            match spec_attr(old(self).input@, old(self).pos as int) {
                Some((name, value, end)) => r matches Some(pair) && pair.0@ == name && pair.1@
                    == value && final(self).pos == end && end > old(self).pos,
                None => r is None,
            },
    {
        proof {
            lemma_run_end(self.input@, self.pos as int, CharClass::Alphanumeric);
        }
        let name = self.parse_tag_name();
        if self.eof() || self.next_char() != '=' {
            return None;
        }
        self.consume_char();
        proof {
            if self.pos < self.input@.len() {
                lemma_run_end(
                    self.input@,
                    self.pos + 1,
                    CharClass::Except(self.input@[self.pos as int]),
                );
            }
        }
        match self.parse_attr_value() {
            Some(value) => Some((name, value)),
            None => None,
        }
    }

    /// Reads a value in single or double quotes.
    fn parse_attr_value(&mut self) -> (r: Option<String>)
        requires
            old(self).wf(),
        ensures
            final(self).input == old(self).input,
            final(self).wf(),
            ({
                let input = old(self).input@;
                let open = old(self).pos as int;
                if open >= input.len() || (input[open] != '"' && input[open] != '\'') {
                    r is None
                } else {
                    let end = run_end(input, open + 1, CharClass::Except(input[open]));
                    if end >= input.len() {
                        r is None
                    } else {
                        r matches Some(v) && v@ == input.subrange(open + 1, end) && final(self).pos
                            == end + 1
                    }
                }
            }),
    {
        if self.eof() {
            return None;
        }
        let quote = self.consume_char();
        if quote != '"' && quote != '\'' {
            return None;
        }
        let value = self.consume_while(CharClass::Except(quote));
        if self.eof() {
            return None;
        }
        self.consume_char();
        Some(value)
    }

    /// Reads the attributes of a tag, up to its `>`.
    fn parse_attributes(&mut self) -> (r: Option<AttrMap>)
        requires
            old(self).wf(),
        ensures
            final(self).input == old(self).input,
            final(self).wf(),
            match spec_attributes(old(self).input@, old(self).pos as int, Map::empty()) {
                Some((attrs, end)) => r matches Some(m) && attrs_view(m) == attrs && final(self).pos
                    == end && end >= old(self).pos && end < old(self).input@.len()
                    && old(self).input@[end] == '>',
                None => r is None,
            },
    {
        let mut attributes: AttrMap = StrMap::new();
        let ghost input = self.input@;
        let ghost start = self.pos as int;
        proof {
            assert(attrs_view(attributes) =~= Map::empty());
        }
        loop
            invariant
                self.wf(),
                self.input@ == input,
                input == old(self).input@,
                self.input == old(self).input,
                start == old(self).pos,
                self.pos >= start,
                spec_attributes(input, start, Map::empty()) == spec_attributes(
                    input,
                    self.pos as int,
                    attrs_view(attributes),
                ),
            decreases input.len() - self.pos,
        {
            let ghost before = self.pos as int;
            self.consume_whitespace();
            proof {
                lemma_run_end(input, before, CharClass::Whitespace);
            }
            if self.eof() {
                return None;
            }
            if self.next_char() == '>' {
                return Some(attributes);
            }
            let ghost acc = attrs_view(attributes);
            match self.parse_attr() {
                Some((name, value)) => {
                    attributes.insert(name, value);
                    proof {
                        assert(attrs_view(attributes) =~= acc.insert(name@, value@));
                    }
                },
                None => {
                    return None;
                },
            }
        }
    }

    /// Reads nodes up to the end of the text or the next closing tag.
    fn parse_nodes(&mut self) -> (r: Option<Vec<Node>>)
        requires
            old(self).wf(),
        ensures
            final(self).input == old(self).input,
            final(self).wf(),
            match spec_nodes(old(self).input@, old(self).pos as int, Seq::empty()) {
                Some((nodes, end)) => r matches Some(v) && nodes_view(v@) == nodes && final(self).pos
                    == end && end >= old(self).pos,
                None => r is None,
            },
        decreases old(self).input@.len() - old(self).pos, 2nat,
    {
        let mut nodes: Vec<Node> = Vec::new();
        let ghost input = self.input@;
        let ghost start = self.pos as int;
        proof {
            assert(nodes_view(nodes@) =~= Seq::empty());
        }
        loop
            invariant
                self.wf(),
                self.input@ == input,
                input == old(self).input@,
                self.input == old(self).input,
                start == old(self).pos,
                self.pos >= start,
                spec_nodes(input, start, Seq::empty()) == spec_nodes(
                    input,
                    self.pos as int,
                    nodes_view(nodes@),
                ),
            decreases input.len() - self.pos,
        {
            let ghost before = self.pos as int;
            self.consume_whitespace();
            proof {
                lemma_run_end(input, before, CharClass::Whitespace);
                reveal_strlit("</");
                assert(stands_at(input, self.pos as int, "</"@) == closing_at(
                    input,
                    self.pos as int,
                )) by {
                    if closing_at(input, self.pos as int) {
                        assert(input.subrange(self.pos as int, self.pos + 2) =~= "</"@);
                    }
                    if stands_at(input, self.pos as int, "</"@) {
                        assert(input.subrange(self.pos as int, self.pos + 2)[0] == '<');
                        assert(input.subrange(self.pos as int, self.pos + 2)[1] == '/');
                    }
                }
            }
            if self.eof() || self.starts_with("</") {
                return Some(nodes);
            }
            let ghost acc = nodes_view(nodes@);
            match self.parse_node() {
                Some(node) => {
                    nodes.push(node);
                    proof {
                        assert(nodes_view(nodes@) =~= acc.push(node@));
                    }
                },
                None => {
                    return None;
                },
            }
        }
    }
}

/// Reads the document that `source` holds; see [`spec_parse`]. `None` where the text is
/// not well formed.
pub fn try_parse(source: &str) -> (r: Option<Node>)
    ensures
        match spec_parse(source@) {
            Some(document) => r matches Some(n) && n@ == document,
            None => r is None,
        },
{
    let mut parser = Parser { pos: 0, input: chars_of(source) };
    let mut nodes = match parser.parse_nodes() {
        Some(nodes) => nodes,
        None => {
            return None;
        },
    };
    let ghost views = nodes_view(nodes@);
    proof {
        if nodes@.len() > 0 {
            nodes@[0].lemma_view();
        }
    }
    if nodes.len() == 1 && matches!(nodes[0].node_type, NodeType::Element(_)) {
        assert(views[0] == nodes@[0]@);
        Some(nodes.remove(0))
    } else {
        assert(nodes@.len() == 1 ==> views[0] == nodes@[0]@);
        let attrs: AttrMap = StrMap::new();
        assert(attrs_view(attrs) =~= Map::empty());
        let r = Node::elem("html".to_owned(), attrs, nodes);
        proof {
            r.lemma_view();
            assert(r@.children =~= views);
        }
        Some(r)
    }
}

/// Reads the document that `source` holds; see [`spec_parse`].
pub fn parse(source: String) -> (r: Node)
    requires
        spec_parse(source@) is Some,
    ensures
        r@ == spec_parse(source@)->0,
{
    match try_parse(source.as_str()) {
        Some(node) => node,
        None => vstd::pervasive::unreached(),
    }
}

} // verus!
