//! The document tree.

use vstd::prelude::*;
use vstd::string::StringExecFns;
use crate::strmap::StrMap;

verus! {

/// Attributes of an element, by name.
pub type AttrMap = StrMap<String>;

/// A node of the document tree: text, or an element with its children.
#[derive(Debug)]
pub struct Node {
    pub children: Vec<Node>,
    pub node_type: NodeType,
}

/// What a node is: text, or an element.
#[derive(Debug)]
pub enum NodeType {
    Text(String),
    Element(ElementData),
}

/// Tag name and attributes of an element.
#[derive(Debug)]
pub struct ElementData {
    pub tag_name: String,
    pub attrs: AttrMap,
}

/// Model of an [`ElementData`].
pub struct ElementDataView {
    pub tag_name: Seq<char>,
    pub attrs: Map<Seq<char>, Seq<char>>,
}

/// Model of a [`NodeType`].
pub enum NodeTypeView {
    Text(Seq<char>),
    Element(ElementDataView),
}

/// Model of a [`Node`].
pub struct NodeView {
    pub children: Seq<NodeView>,
    pub node_type: NodeTypeView,
}

impl View for ElementData {
    type V = ElementDataView;

    open spec fn view(&self) -> ElementDataView {
        ElementDataView {
            tag_name: self.tag_name@,
            attrs: self.attrs@.map_values(|s: String| s@),
        }
    }
}

impl View for NodeType {
    type V = NodeTypeView;

    open spec fn view(&self) -> NodeTypeView {
        match *self {
            NodeType::Text(s) => NodeTypeView::Text(s@),
            NodeType::Element(e) => NodeTypeView::Element(e@),
        }
    }
}

/// The model of `node`.
pub open spec fn node_view(node: Node) -> NodeView
    decreases node,
{
    NodeView {
        children: Seq::new(
            node.children@.len(),
            |i: int|
                if 0 <= i < node.children@.len() {
                    node_view(node.children@[i])
                } else {
                    arbitrary()
                },
        ),
        node_type: node.node_type@,
    }
}

impl View for Node {
    type V = NodeView;

    open spec fn view(&self) -> NodeView {
        node_view(*self)
    }
}

impl Node {
    /// The model of a node holds the models of its children, in order.
    pub proof fn lemma_view(self)
        ensures
            self@.node_type == self.node_type@,
            self@.children.len() == self.children@.len(),
            forall|k: int|
                0 <= k < self.children@.len() ==> #[trigger] self@.children[k] == self.children@[k]@,
    {
    }

    /// A text node.
    pub fn text(data: String) -> (r: Node)
        ensures
            r.node_type == NodeType::Text(data),
            r.children@.len() == 0,
    {
        Node { children: Vec::new(), node_type: NodeType::Text(data) }
    }

    /// An element with the given tag name, attributes and children.
    pub fn elem(tag_name: String, attrs: AttrMap, children: Vec<Node>) -> (r: Node)
        ensures
            r.node_type == NodeType::Element(ElementData { tag_name, attrs }),
            r.children == children,
    {
        Node { children, node_type: NodeType::Element(ElementData { tag_name, attrs }) }
    }
}

/// `n` spaces.
pub open spec fn spaces(n: nat) -> Seq<char> {
    Seq::new(n, |i: int| ' ')
}

/// Two more than `indent`, as far as the machine's numbers go.
pub open spec fn deeper(indent: usize) -> usize {
    if indent + 2 > usize::MAX {
        usize::MAX
    } else {
        (indent + 2) as usize
    }
}

/// The attributes as they stand in an opening tag: for each, a space, the name, `=`, and
/// the value in double quotes.
pub open spec fn attrs_text(entries: Seq<(Seq<char>, String)>) -> Seq<char>
    decreases entries.len(),
{
    if entries.len() == 0 {
        Seq::empty()
    } else {
        attrs_text(entries.drop_last()) + seq![' '] + entries.last().0 + seq!['=', '"']
            + entries.last().1@ + seq!['"']
    }
}

/// A line of text: the indent, the text, and a line break.
pub open spec fn text_line(text: Seq<char>, indent: usize) -> Seq<char> {
    spaces(indent as nat) + text + seq!['\n']
}

/// The line of an opening tag: the indent, `<`, the name, the attributes, `>`, and a line
/// break.
pub open spec fn open_tag_line(elem: ElementData, indent: usize) -> Seq<char> {
    spaces(indent as nat) + seq!['<'] + elem.tag_name@ + attrs_text(elem.attrs.spec_entries())
        + seq!['>', '\n']
}

/// The line of a closing tag: the indent, `</`, the name, `>`, and a line break.
pub open spec fn close_tag_line(tag_name: Seq<char>, indent: usize) -> Seq<char> {
    spaces(indent as nat) + seq!['<', '/'] + tag_name + seq!['>', '\n']
}

/// The tree below `node` written out, one line for each text and each tag, a line being
/// indented by `indent` spaces and by two more for each level below `node`. Attributes
/// stand in the order in which their names first came.
pub open spec fn spec_pretty(node: Node, indent: usize) -> Seq<char>
    decreases node, node.children@.len() + 1,
{
    match node.node_type {
        NodeType::Text(text) => text_line(text@, indent),
        NodeType::Element(elem) => open_tag_line(elem, indent) + children_text(
            node,
            node.children@.len(),
            deeper(indent),
        ) + close_tag_line(elem.tag_name@, indent),
    }
}

/// The first `n` children of `node` written out one after the other.
pub open spec fn children_text(node: Node, n: nat, indent: usize) -> Seq<char>
    decreases node, n,
{
    if n == 0 || n > node.children@.len() {
        Seq::empty()
    } else {
        children_text(node, (n - 1) as nat, indent) + spec_pretty(node.children@[n - 1], indent)
    }
}

/// Appends `n` spaces to `out`.
fn push_spaces(out: &mut String, n: usize)
    ensures
        final(out)@ == old(out)@ + spaces(n as nat),
{
    let mut i: usize = 0;
    proof {
        assert(old(out)@ + spaces(0) =~= old(out)@);
    }
    while i < n
        invariant
            i <= n,
            out@ == old(out)@ + spaces(i as nat),
        decreases n - i,
    {
        out.push(' ');
        proof {
            assert(spaces(i as nat).push(' ') =~= spaces((i + 1) as nat));
            assert((old(out)@ + spaces(i as nat)).push(' ') =~= old(out)@ + spaces((i + 1) as nat));
        }
        i += 1;
    }
}

/// Appends the attributes to `out`; see [`attrs_text`].
fn push_attrs(out: &mut String, attrs: &AttrMap)
    ensures
        final(out)@ == old(out)@ + attrs_text(attrs.spec_entries()),
{
    let n = attrs.len();
    let ghost entries = attrs.spec_entries();
    let mut i: usize = 0;
    proof {
        assert(entries.take(0) =~= Seq::empty());
        assert(old(out)@ + attrs_text(entries.take(0)) =~= old(out)@);
    }
    while i < n
        invariant
            i <= n,
            n == entries.len(),
            entries == attrs.spec_entries(),
            out@ == old(out)@ + attrs_text(entries.take(i as int)),
        decreases n - i,
    {
        let ghost before = out@;
        out.push(' ');
        out.append(attrs.key_at(i).as_str());
        out.push('=');
        out.push('"');
        out.append(attrs.value_at(i).as_str());
        out.push('"');
        proof {
            let next = entries.take(i + 1);
            assert(next.drop_last() =~= entries.take(i as int));
            assert(next.last() == entries[i as int]);
            assert(out@ =~= before + seq![' '] + entries[i as int].0 + seq!['=', '"']
                + entries[i as int].1@ + seq!['"']);
            assert(out@ =~= old(out)@ + attrs_text(next));
        }
        i += 1;
    }
    proof {
        assert(entries.take(n as int) =~= entries);
    }
}

/// Appends a line of text to `out`; see [`text_line`].
fn push_text_line(out: &mut String, text: &str, indent: usize)
    ensures
        final(out)@ == old(out)@ + text_line(text@, indent),
{
    push_spaces(out, indent);
    out.append(text);
    out.push('\n');
    proof {
        assert(out@ =~= old(out)@ + text_line(text@, indent));
    }
}

/// Appends the line of an opening tag to `out`; see [`open_tag_line`].
fn push_open_tag(out: &mut String, elem: &ElementData, indent: usize)
    ensures
        final(out)@ == old(out)@ + open_tag_line(*elem, indent),
{
    push_spaces(out, indent);
    out.push('<');
    out.append(elem.tag_name.as_str());
    push_attrs(out, &elem.attrs);
    out.push('>');
    out.push('\n');
    proof {
        assert(out@ =~= old(out)@ + open_tag_line(*elem, indent));
    }
}

/// Appends the line of a closing tag to `out`; see [`close_tag_line`].
fn push_close_tag(out: &mut String, tag_name: &str, indent: usize)
    ensures
        final(out)@ == old(out)@ + close_tag_line(tag_name@, indent),
{
    push_spaces(out, indent);
    out.push('<');
    out.push('/');
    out.append(tag_name);
    out.push('>');
    out.push('\n');
    proof {
        assert(out@ =~= old(out)@ + close_tag_line(tag_name@, indent));
    }
}

impl Node {
    /// Appends the tree below the node, written out, to `out`; see [`spec_pretty`].
    fn write_pretty(&self, indent: usize, out: &mut String)
        ensures
            final(out)@ == old(out)@ + spec_pretty(*self, indent),
        decreases self,
    {
        match &self.node_type {
            NodeType::Text(text) => {
                push_text_line(out, text.as_str(), indent);
            },
            NodeType::Element(elem) => {
                push_open_tag(out, elem, indent);
                let ghost head = old(out)@ + open_tag_line(*elem, indent);
                let inner: usize = if indent > usize::MAX - 2 {
                    usize::MAX
                } else {
                    indent + 2
                };
                let mut i: usize = 0;
                proof {
                    assert(head + children_text(*self, 0, inner) =~= head);
                }
                while i < self.children.len()
                    invariant
                        i <= self.children.len(),
                        inner == deeper(indent),
                        out@ == head + children_text(*self, i as nat, inner),
                    decreases self.children.len() - i,
                {
                    self.children[i].write_pretty(inner, out);
                    proof {
                        assert(out@ =~= head + children_text(*self, (i + 1) as nat, inner));
                    }
                    i += 1;
                }
                push_close_tag(out, elem.tag_name.as_str(), indent);
                proof {
                    assert(out@ =~= old(out)@ + spec_pretty(*self, indent));
                }
            },
        }
    }

    /// The tree below the node, written out; see [`spec_pretty`].
    pub fn pretty_print(&self, indent: usize) -> (r: String)
        ensures
            r@ == spec_pretty(*self, indent),
    {
        let mut out = String::new();
        self.write_pretty(indent, &mut out);
        proof {
            assert(Seq::<char>::empty() + spec_pretty(*self, indent) =~= spec_pretty(*self, indent));
        }
        out
    }
}

} // verus!
