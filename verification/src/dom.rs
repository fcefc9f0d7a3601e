//! The tree that a parsed page is kept in while it is built.
//!
//! The nodes live in one arena and are known by their place in it. The node at
//! place zero is the document; the contents of each template element hang
//! under a root of their own. The operations are those that an HTML parser
//! asks of the sink it builds its tree in.

use vstd::prelude::*;
use vstd::string::*;

use crate::extractor::option_view;
use crate::names::same_name;

verus! {

/// The namespace of the elements of an HTML page.
pub const XHTML_NAMESPACE: &'static str = "http://www.w3.org/1999/xhtml";

/// The prefix that the document element binds to that namespace.
pub const XHTML_PREFIX: &'static str = "html";

/// The name of an element or attribute: a namespace, where it has one, and a
/// local part.
#[derive(Debug)]
pub struct Name {
    pub namespace: Option<String>,
    pub local: String,
}

/// `Name` as plain values.
pub struct NameView {
    pub namespace: Option<Seq<char>>,
    pub local: Seq<char>,
}

impl View for Name {
    type V = NameView;

    open spec fn view(&self) -> NameView {
        NameView { namespace: option_view(self.namespace), local: self.local@ }
    }
}

/// The name of an element or attribute as a parser gives it: a prefix, where
/// it was written with one, a namespace, which is empty for none, and a local
/// part.
#[derive(Debug)]
pub struct QualifiedName {
    pub prefix: Option<String>,
    pub namespace: String,
    pub local: String,
}

/// The name that a qualified name stands for: its local part, in its
/// namespace unless that is empty.
pub open spec fn expanded(namespace: Seq<char>, local: Seq<char>) -> NameView {
    NameView {
        namespace: if namespace.len() == 0 {
            None
        } else {
            Some(namespace)
        },
        local,
    }
}

/// The name that a qualified name stands for.
pub fn qual_name_to_qname(name: &QualifiedName) -> (r: Name)
    ensures
        r@ == expanded(name.namespace@, name.local@),
{
    if name.namespace.as_str().is_empty() {
        Name { namespace: None, local: name.local.clone() }
    } else {
        Name { namespace: Some(name.namespace.clone()), local: name.local.clone() }
    }
}

/// An attribute of an element as a parser gives it.
#[derive(Debug)]
pub struct ParsedAttribute {
    pub name: QualifiedName,
    pub value: String,
}

/// An attribute of an element.
#[derive(Debug)]
pub struct Attribute {
    pub name: Name,
    pub value: String,
}

/// `Attribute` as plain values.
pub struct AttributeView {
    pub name: NameView,
    pub value: Seq<char>,
}

impl View for Attribute {
    type V = AttributeView;

    open spec fn view(&self) -> AttributeView {
        AttributeView { name: self.name@, value: self.value@ }
    }
}

/// What an element is, apart from its place in the tree.
#[derive(Debug)]
pub struct Element {
    pub name: Name,
    /// The prefix that the element was written with, and the namespace it binds.
    pub prefix: Option<(String, String)>,
    /// The attributes, no two of one name.
    pub attributes: Vec<Attribute>,
    /// Whether the element makes the XHTML namespace the default and binds the
    /// prefix `html` to it: it does once it was put under a root.
    pub xhtml_default: bool,
    /// The root of the contents of a template element.
    pub template: Option<usize>,
    /// Whether the element is a MathML annotation-xml integration point.
    pub integration_point: bool,
}

/// `Element` as plain values.
pub struct ElementView {
    pub name: NameView,
    pub prefix: Option<(Seq<char>, Seq<char>)>,
    pub attributes: Seq<AttributeView>,
    pub xhtml_default: bool,
    pub template: Option<usize>,
    pub integration_point: bool,
}

/// The views of a sequence of attributes.
pub open spec fn attribute_views(attributes: Seq<Attribute>) -> Seq<AttributeView> {
    attributes.map_values(|a: Attribute| a@)
}

impl View for Element {
    type V = ElementView;

    open spec fn view(&self) -> ElementView {
        ElementView {
            name: self.name@,
            prefix: match self.prefix {
                Some((p, n)) => Some((p@, n@)),
                None => None,
            },
            attributes: attribute_views(self.attributes@),
            xhtml_default: self.xhtml_default,
            template: self.template,
            integration_point: self.integration_point,
        }
    }
}

/// What a node is, apart from its place in the tree.
#[derive(Debug)]
pub enum Data {
    /// The document, or the contents of a template.
    Root,
    Element(Element),
    Text(String),
    Comment(String),
    ProcessingInstruction(String, String),
}

/// `Data` as plain values.
pub enum DataView {
    Root,
    Element(ElementView),
    Text(Seq<char>),
    Comment(Seq<char>),
    ProcessingInstruction(Seq<char>, Seq<char>),
}

impl View for Data {
    type V = DataView;

    open spec fn view(&self) -> DataView {
        match self {
            Data::Root => DataView::Root,
            Data::Element(e) => DataView::Element(e@),
            Data::Text(s) => DataView::Text(s@),
            Data::Comment(s) => DataView::Comment(s@),
            Data::ProcessingInstruction(t, d) => DataView::ProcessingInstruction(t@, d@),
        }
    }
}

/// A node of the tree.
#[derive(Debug)]
pub struct TreeNode {
    pub data: Data,
    pub parent: Option<usize>,
    pub children: Vec<usize>,
}

/// `TreeNode` as plain values.
pub struct NodeView {
    pub data: DataView,
    pub parent: Option<usize>,
    pub children: Seq<usize>,
}

impl View for TreeNode {
    type V = NodeView;

    open spec fn view(&self) -> NodeView {
        NodeView { data: self.data@, parent: self.parent, children: self.children@ }
    }
}

/// The views of the nodes of an arena.
pub open spec fn node_views(nodes: Seq<TreeNode>) -> Seq<NodeView> {
    nodes.map_values(|n: TreeNode| n@)
}

/// Whether a node of this kind can have children.
pub open spec fn can_have_children(data: DataView) -> bool {
    data is Root || data is Element
}

/// Whether a node of the kind `child` can hang under a node of the kind
/// `parent`: under a root anything but text and roots, under an element
/// anything but roots, under anything else nothing.
pub open spec fn can_hang_under(child: DataView, parent: DataView) -> bool {
    match parent {
        DataView::Root => !(child is Root) && !(child is Text),
        DataView::Element(_) => !(child is Root),
        _ => false,
    }
}

/// Whether two nodes are of the same kind.
pub open spec fn same_kind(a: DataView, b: DataView) -> bool {
    &&& a is Root <==> b is Root
    &&& a is Element <==> b is Element
    &&& a is Text <==> b is Text
    &&& a is Comment <==> b is Comment
    &&& a is ProcessingInstruction <==> b is ProcessingInstruction
}

/// What holds of the arena at all times.
///
/// The first node is the document. Parents and children agree: a node is among
/// the children of its parent, just once, and of no other node. Every child
/// is of a kind that can hang under its parent. The contents of a template
/// are a root.
pub open spec fn well_formed(nodes: Seq<NodeView>) -> bool {
    &&& 1 <= nodes.len() <= usize::MAX
    &&& nodes[0].data is Root
    &&& forall|n: usize, k: int|
        n < nodes.len() && 0 <= k < nodes[n as int].children.len() ==> (
        #[trigger] nodes[n as int].children[k]) < nodes.len()
            && nodes[nodes[n as int].children[k] as int].parent == Some(n)
    &&& forall|c: usize|
        c < nodes.len() ==> ((#[trigger] nodes[c as int]).parent matches Some(p) ==> p
            < nodes.len() && nodes[p as int].children.contains(c) && can_hang_under(
            nodes[c as int].data,
            nodes[p as int].data,
        ))
    &&& forall|n: usize|
        n < nodes.len() ==> (#[trigger] nodes[n as int]).children.no_duplicates()
    &&& forall|n: usize|
        n < nodes.len() ==> ((#[trigger] nodes[n as int]).data matches DataView::Element(e)
            ==> (e.template matches Some(t) ==> t < nodes.len() && nodes[t as int].data is Root))
}

/// Whether the node `n` is the node `top` or hangs somewhere under it: going
/// up from `n`, from child to parent, `top` is met within `steps` steps.
pub open spec fn within(nodes: Seq<NodeView>, n: usize, top: usize, steps: nat) -> bool
    decreases steps,
{
    n == top || (steps > 0 && n < nodes.len() && match nodes[n as int].parent {
        Some(p) => within(nodes, p, top, (steps - 1) as nat),
        None => false,
    })
}

/// The arena with the node `c` taken from under its parent.
pub open spec fn detached(nodes: Seq<NodeView>, c: usize) -> Seq<NodeView> {
    match nodes[c as int].parent {
        None => nodes,
        Some(p) => {
            let list = nodes[p as int].children;
            let cut = nodes.update(
                p as int,
                NodeView { children: list.remove(list.index_of(c)), ..nodes[p as int] },
            );
            cut.update(c as int, NodeView { parent: None, ..cut[c as int] })
        },
    }
}

/// The data of a node that is put under `parent`: an element that is put
/// under a root makes the XHTML namespace its default.
pub open spec fn placed_data(data: DataView, parent: DataView) -> DataView {
    match data {
        DataView::Element(e) => if parent is Root {
            DataView::Element(ElementView { xhtml_default: true, ..e })
        } else {
            data
        },
        _ => data,
    }
}

/// The arena with the node `c`, which hangs nowhere, put under `p` at the
/// place `k` among its children.
pub open spec fn attached(nodes: Seq<NodeView>, p: usize, k: int, c: usize) -> Seq<NodeView> {
    let grown = nodes.update(
        p as int,
        NodeView { children: nodes[p as int].children.insert(k, c), ..nodes[p as int] },
    );
    grown.update(
        c as int,
        NodeView {
            parent: Some(p),
            data: placed_data(grown[c as int].data, nodes[p as int].data),
            ..grown[c as int]
        },
    )
}

/// A list without one of its items holds all the others, each once, and not
/// that one.
pub proof fn lemma_removed(list: Seq<usize>, c: usize)
    requires
        list.no_duplicates(),
        list.contains(c),
    ensures
        list.remove(list.index_of(c)).no_duplicates(),
        !list.remove(list.index_of(c)).contains(c),
        forall|x: usize| x != c && list.contains(x) ==> list.remove(list.index_of(c)).contains(x),
        forall|x: usize| list.remove(list.index_of(c)).contains(x) ==> list.contains(x),
{
    let i = list.index_of(c);
    assert(list[i] == c);
    let rest = list.remove(i);
    assert forall|k: int| 0 <= k < rest.len() implies #[trigger] rest[k] != c && list.contains(
        rest[k],
    ) by {
        if k < i {
            assert(rest[k] == list[k]);
        } else {
            assert(rest[k] == list[k + 1]);
        }
    }
    assert forall|a: int, b: int| 0 <= a < rest.len() && 0 <= b < rest.len() && a
        != b implies rest[a] != rest[b] by {
        let a0 = if a < i {
            a
        } else {
            a + 1
        };
        let b0 = if b < i {
            b
        } else {
            b + 1
        };
        assert(rest[a] == list[a0]);
        assert(rest[b] == list[b0]);
    }
    assert forall|x: usize| x != c && list.contains(x) implies rest.contains(x) by {
        let k = list.index_of(x);
        assert(list[k] == x);
        if k < i {
            assert(rest[k] == x);
        } else {
            assert(rest[k - 1] == x);
        }
    }
    assert forall|x: usize| rest.contains(x) implies list.contains(x) by {
        let k = rest.index_of(x);
        assert(rest[k] == x);
    }
    if rest.contains(c) {
        let k = rest.index_of(c);
        assert(rest[k] == c);
    }
}

/// A list with an item that it did not hold put in holds what it held and
/// that item, each once.
pub proof fn lemma_inserted(list: Seq<usize>, k: int, c: usize)
    requires
        list.no_duplicates(),
        !list.contains(c),
        0 <= k <= list.len(),
    ensures
        list.insert(k, c).no_duplicates(),
        list.insert(k, c).contains(c),
        forall|x: usize| list.contains(x) ==> list.insert(k, c).contains(x),
        forall|x: usize| list.insert(k, c).contains(x) ==> x == c || list.contains(x),
{
    let grown = list.insert(k, c);
    assert(grown[k] == c);
    assert forall|a: int, b: int| 0 <= a < grown.len() && 0 <= b < grown.len() && a
        != b implies grown[a] != grown[b] by {
        let a0 = if a < k {
            a
        } else {
            a - 1
        };
        let b0 = if b < k {
            b
        } else {
            b - 1
        };
        if a != k {
            assert(grown[a] == list[a0]);
            assert(list.contains(list[a0]));
        }
        if b != k {
            assert(grown[b] == list[b0]);
            assert(list.contains(list[b0]));
        }
    }
    assert forall|x: usize| list.contains(x) implies grown.contains(x) by {
        let i = list.index_of(x);
        assert(list[i] == x);
        let i1 = if i < k {
            i
        } else {
            i + 1
        };
        assert(grown[i1] == x);
    }
    assert forall|x: usize| grown.contains(x) implies x == c || list.contains(x) by {
        let i = grown.index_of(x);
        assert(grown[i] == x);
        if i != k {
            let i0 = if i < k {
                i
            } else {
                i - 1
            };
            assert(list[i0] == x);
        }
    }
}

/// A node is among the children of its parent and of no other node.
pub proof fn lemma_child_of_parent_only(nodes: Seq<NodeView>, n: usize, c: usize)
    requires
        well_formed(nodes),
        n < nodes.len(),
        c < nodes.len(),
    ensures
        nodes[n as int].children.contains(c) <==> nodes[c as int].parent == Some(n),
{
    if nodes[n as int].children.contains(c) {
        let k = nodes[n as int].children.index_of(c);
        assert(nodes[n as int].children[k] == c);
    }
}

/// Taking a node from under its parent keeps the arena well formed, and leaves
/// the node without a parent and all data as it was.
pub proof fn lemma_detached(nodes: Seq<NodeView>, c: usize)
    requires
        well_formed(nodes),
        c < nodes.len(),
    ensures
        well_formed(detached(nodes, c)),
        detached(nodes, c).len() == nodes.len(),
        detached(nodes, c)[c as int].parent is None,
        forall|n: int|
            0 <= n < nodes.len() ==> (#[trigger] detached(nodes, c)[n]).data == nodes[n].data,
        forall|n: int|
            0 <= n < nodes.len() && n != c ==> (#[trigger] detached(nodes, c)[n]).parent
                == nodes[n].parent,
        forall|n: usize|
            n < nodes.len() && nodes[c as int].parent != Some(n) ==> (#[trigger] detached(
                nodes,
                c,
            )[n as int]).children == nodes[n as int].children,
{
    let out = detached(nodes, c);
    match nodes[c as int].parent {
        None => {},
        Some(p) => {
            let list = nodes[p as int].children;
            lemma_removed(list, c);
            let rest = list.remove(list.index_of(c));
            assert forall|n: usize, k: int|
                n < out.len() && 0 <= k < out[n as int].children.len() implies (
            #[trigger] out[n as int].children[k]) < out.len()
                && out[out[n as int].children[k] as int].parent == Some(n) by {
                let x = out[n as int].children[k];
                assert(out[n as int].children.contains(x));
                if n == p {
                    assert(list.contains(x));
                }
                assert(nodes[n as int].children.contains(x));
                lemma_child_of_parent_only(nodes, n, c);
                let k0 = nodes[n as int].children.index_of(x);
                assert(nodes[n as int].children[k0] == x);
            }
            assert forall|x: usize| x < out.len() implies ((#[trigger] out[x as int]).parent matches Some(
                q,
            ) ==> q < out.len() && out[q as int].children.contains(x) && can_hang_under(
                out[x as int].data,
                out[q as int].data,
            )) by {
                if x != c {
                    assert(out[x as int].parent == nodes[x as int].parent);
                }
            }
        },
    }
}

/// Putting a node that hangs nowhere under a node it can hang under keeps the
/// arena well formed.
pub proof fn lemma_attached(nodes: Seq<NodeView>, p: usize, k: int, c: usize)
    requires
        well_formed(nodes),
        p < nodes.len(),
        c < nodes.len(),
        0 <= k <= nodes[p as int].children.len(),
        nodes[c as int].parent is None,
        can_hang_under(nodes[c as int].data, nodes[p as int].data),
    ensures
        well_formed(attached(nodes, p, k, c)),
        attached(nodes, p, k, c).len() == nodes.len(),
        forall|n: int|
            0 <= n < nodes.len() ==> same_kind((#[trigger] attached(nodes, p, k, c)[n]).data, nodes[n].data),
        forall|n: int|
            0 <= n < nodes.len() && n != c ==> (#[trigger] attached(nodes, p, k, c)[n]).data
                == nodes[n].data && attached(nodes, p, k, c)[n].parent == nodes[n].parent,
        forall|n: int|
            0 <= n < nodes.len() && n != p ==> (#[trigger] attached(nodes, p, k, c)[n]).children
                == nodes[n].children,
        attached(nodes, p, k, c)[p as int].children == nodes[p as int].children.insert(k, c),
        attached(nodes, p, k, c)[c as int].parent == Some(p),
{
    let out = attached(nodes, p, k, c);
    let list = nodes[p as int].children;
    lemma_child_of_parent_only(nodes, p, c);
    lemma_inserted(list, k, c);
    let grown = list.insert(k, c);
    assert(out[p as int].children == grown);
    assert forall|n: usize, j: int|
        n < out.len() && 0 <= j < out[n as int].children.len() implies (
    #[trigger] out[n as int].children[j]) < out.len()
        && out[out[n as int].children[j] as int].parent == Some(n) by {
        let x = out[n as int].children[j];
        assert(out[n as int].children.contains(x));
        if x == c {
            if n != p {
                lemma_child_of_parent_only(nodes, n, c);
            }
        } else {
            assert(nodes[n as int].children.contains(x));
            let j0 = nodes[n as int].children.index_of(x);
            assert(nodes[n as int].children[j0] == x);
        }
    }
    assert forall|x: usize| x < out.len() implies ((#[trigger] out[x as int]).parent matches Some(q)
        ==> q < out.len() && out[q as int].children.contains(x) && can_hang_under(
        out[x as int].data,
        out[q as int].data,
    )) by {
        if x != c {
            assert(out[x as int].parent == nodes[x as int].parent);
        }
    }
}

/// Takes the node `c` from under its parent.
fn detach(nodes: &mut Vec<TreeNode>, c: usize)
    requires
        well_formed(node_views(old(nodes)@)),
        acyclic(node_views(old(nodes)@)),
        c < old(nodes)@.len(),
    ensures
        node_views(final(nodes)@) == detached(node_views(old(nodes)@), c),
        well_formed(node_views(final(nodes)@)),
        acyclic(node_views(final(nodes)@)),
        final(nodes)@.len() == old(nodes)@.len(),
{
    let ghost before = node_views(nodes@);
    proof {
        lemma_detached(before, c);
        lemma_detached_acyclic(before, c);
    }
    match nodes[c].parent {
        None => {},
        Some(p) => {
            let ghost list = before[p as int].children;
            proof {
                lemma_child_of_parent_only(before, p, c);
            }
            let count = nodes[p].children.len();
            let mut i: usize = 0;
            while nodes[p].children[i] != c
                invariant
                    nodes@ == old(nodes)@,
                    p < nodes@.len(),
                    list == nodes@[p as int].children@,
                    list.len() == count,
                    list.contains(c),
                    i < list.len(),
                    forall|k: int| 0 <= k < i ==> list[k] != c,
                decreases list.len() - i,
            {
                proof {
                    let at = list.index_of(c);
                    assert(list[at] == c);
                    assert(at > i);
                }
                i = i + 1;
            }
            proof {
                let at = list.index_of(c);
                assert(list[at] == c);
                assert(list.no_duplicates());
                assert(at == i);
            }
            nodes[p].children.remove(i);
            nodes[c].parent = None;
            proof {
                assert(node_views(nodes@) =~= detached(before, c));
            }
        },
    }
}

/// Puts the node `c`, which hangs nowhere, under `p` at the place `k`.
fn attach(nodes: &mut Vec<TreeNode>, p: usize, k: usize, c: usize)
    requires
        well_formed(node_views(old(nodes)@)),
        p < old(nodes)@.len(),
        c < old(nodes)@.len(),
        k <= node_views(old(nodes)@)[p as int].children.len(),
        node_views(old(nodes)@)[c as int].parent is None,
        can_hang_under(
            node_views(old(nodes)@)[c as int].data,
            node_views(old(nodes)@)[p as int].data,
        ),
        acyclic(node_views(old(nodes)@)),
        !under(node_views(old(nodes)@), p, c),
    ensures
        node_views(final(nodes)@) == attached(node_views(old(nodes)@), p, k as int, c),
        well_formed(node_views(final(nodes)@)),
        acyclic(node_views(final(nodes)@)),
        final(nodes)@.len() == old(nodes)@.len(),
{
    let ghost before = node_views(nodes@);
    proof {
        lemma_attached(before, p, k as int, c);
        lemma_attached_acyclic(before, p, k as int, c);
    }
    let under_root = match &nodes[p].data {
        Data::Root => true,
        _ => false,
    };
    nodes[p].children.insert(k, c);
    nodes[c].parent = Some(p);
    if under_root {
        match &mut nodes[c].data {
            Data::Element(e) => {
                e.xhtml_default = true;
            },
            _ => {},
        }
    }
    proof {
        assert(node_views(nodes@) =~= attached(before, p, k as int, c));
    }
}

/// What a parser hands over to be put into the tree: a node that is there, or
/// a piece of text.
#[derive(Debug)]
pub enum NodeOrText {
    Node(usize),
    Text(String),
}

/// `NodeOrText` as plain values.
pub enum NodeOrTextView {
    Node(usize),
    Text(Seq<char>),
}

impl View for NodeOrText {
    type V = NodeOrTextView;

    open spec fn view(&self) -> NodeOrTextView {
        match self {
            NodeOrText::Node(c) => NodeOrTextView::Node(*c),
            NodeOrText::Text(s) => NodeOrTextView::Text(s@),
        }
    }
}

/// A node that hangs nowhere and has no children.
pub open spec fn loose(data: DataView) -> NodeView {
    NodeView { data, parent: None, children: Seq::empty() }
}

/// The arena after `child` was put under `parent` as its last child.
///
/// Text that follows text is added to it: the two become one node. Other text
/// becomes a new node. A node that is there is first taken from under the
/// parent it has.
pub open spec fn appended(nodes: Seq<NodeView>, parent: usize, child: NodeOrTextView) -> Seq<
    NodeView,
> {
    let list = nodes[parent as int].children;
    match child {
        NodeOrTextView::Text(s) => {
            if list.len() > 0 && nodes[list.last() as int].data is Text {
                let last = list.last() as int;
                nodes.update(
                    last,
                    NodeView { data: DataView::Text(nodes[last].data->Text_0 + s), ..nodes[last] },
                )
            } else {
                attached(
                    nodes.push(loose(DataView::Text(s))),
                    parent,
                    list.len() as int,
                    nodes.len() as usize,
                )
            }
        },
        NodeOrTextView::Node(c) => {
            let free = detached(nodes, c);
            attached(free, parent, free[parent as int].children.len() as int, c)
        },
    }
}

/// The arena after `new_node` was put right before `sibling`, under the parent
/// of `sibling`.
///
/// Text that follows text is added to it: the two become one node. Other text
/// becomes a new node. A node that is there is first taken from under the
/// parent it has.
pub open spec fn inserted_before(nodes: Seq<NodeView>, sibling: usize, new_node: NodeOrTextView) -> Seq<
    NodeView,
> {
    let parent = nodes[sibling as int].parent->0;
    match new_node {
        NodeOrTextView::Text(s) => {
            let list = nodes[parent as int].children;
            let k = list.index_of(sibling);
            if k > 0 && nodes[list[k - 1] as int].data is Text {
                let prev = list[k - 1] as int;
                nodes.update(
                    prev,
                    NodeView { data: DataView::Text(nodes[prev].data->Text_0 + s), ..nodes[prev] },
                )
            } else {
                attached(nodes.push(loose(DataView::Text(s))), parent, k, nodes.len() as usize)
            }
        },
        NodeOrTextView::Node(c) => {
            let free = detached(nodes, c);
            attached(free, parent, free[parent as int].children.index_of(sibling), c)
        },
    }
}

/// Text that is appended piece by piece makes the tree that it makes when it
/// is appended in one piece: pieces of text that follow each other under an
/// element are one node.
pub proof fn lemma_text_coalesces(nodes: Seq<NodeView>, parent: usize, a: Seq<char>, b: Seq<char>)
    requires
        well_formed(nodes),
        parent < nodes.len(),
        nodes[parent as int].data is Element,
    ensures
        appended(appended(nodes, parent, NodeOrTextView::Text(a)), parent, NodeOrTextView::Text(b))
            == appended(nodes, parent, NodeOrTextView::Text(a + b)),
{
    let list = nodes[parent as int].children;
    let once = appended(nodes, parent, NodeOrTextView::Text(a));
    let twice = appended(once, parent, NodeOrTextView::Text(b));
    let whole = appended(nodes, parent, NodeOrTextView::Text(a + b));
    if list.len() > 0 && nodes[list.last() as int].data is Text {
        let last = list.last() as int;
        assert(list[list.len() - 1] < nodes.len());
        let t = nodes[last].data->Text_0;
        assert(once[parent as int].children == list);
        assert((t + a) + b =~= t + (a + b));
        assert(twice =~= whole);
    } else {
        let id = nodes.len() as usize;
        let grown = nodes.push(loose(DataView::Text(a)));
        assert(grown[parent as int] == nodes[parent as int]);
        assert(once[parent as int].children == list.insert(list.len() as int, id));
        assert(once[parent as int].children.last() == id);
        assert(once[id as int].data == DataView::Text(a));
        assert(twice =~= whole);
    }
}

/// Adding a node that hangs nowhere keeps the arena well formed.
pub proof fn lemma_pushed(nodes: Seq<NodeView>, data: DataView)
    requires
        well_formed(nodes),
        nodes.len() < usize::MAX,
        data matches DataView::Element(e) ==> (e.template matches Some(t) ==> t < nodes.len()
            && nodes[t as int].data is Root),
    ensures
        well_formed(nodes.push(loose(data))),
{
    let out = nodes.push(loose(data));
    assert forall|n: usize, k: int|
        n < out.len() && 0 <= k < out[n as int].children.len() implies (
    #[trigger] out[n as int].children[k]) < out.len()
        && out[out[n as int].children[k] as int].parent == Some(n) by {
        assert(out[n as int] == nodes[n as int]);
        assert(nodes[n as int].children[k] < nodes.len());
    }
    assert forall|c: usize| c < out.len() implies ((#[trigger] out[c as int]).parent matches Some(p)
        ==> p < out.len() && out[p as int].children.contains(c) && can_hang_under(
        out[c as int].data,
        out[p as int].data,
    )) by {
        if c < nodes.len() {
            assert(out[c as int] == nodes[c as int]);
        }
    }
    assert forall|n: usize| n < out.len() implies (#[trigger] out[n as int]).children.no_duplicates() by {
        if n < nodes.len() {
            assert(out[n as int] == nodes[n as int]);
        }
    }
    assert forall|n: usize| n < out.len() implies ((#[trigger] out[n as int]).data matches DataView::Element(
        e,
    ) ==> (e.template matches Some(t) ==> t < out.len() && out[t as int].data is Root)) by {
        if n < nodes.len() {
            assert(out[n as int] == nodes[n as int]);
        }
    }
}

/// Changing the text of a text node keeps the arena well formed.
pub proof fn lemma_retexted(nodes: Seq<NodeView>, n: usize, text: Seq<char>)
    requires
        well_formed(nodes),
        n < nodes.len(),
        nodes[n as int].data is Text,
    ensures
        well_formed(nodes.update(n as int, NodeView { data: DataView::Text(text), ..nodes[n as int] })),
{
    let out = nodes.update(n as int, NodeView { data: DataView::Text(text), ..nodes[n as int] });
    assert forall|m: usize, k: int|
        m < out.len() && 0 <= k < out[m as int].children.len() implies (
    #[trigger] out[m as int].children[k]) < out.len()
        && out[out[m as int].children[k] as int].parent == Some(m) by {
        assert(out[m as int].children == nodes[m as int].children);
        assert(nodes[m as int].children[k] < nodes.len());
    }
    assert forall|c: usize| c < out.len() implies ((#[trigger] out[c as int]).parent matches Some(p)
        ==> p < out.len() && out[p as int].children.contains(c) && can_hang_under(
        out[c as int].data,
        out[p as int].data,
    )) by {
        assert(out[c as int].parent == nodes[c as int].parent);
    }
    assert forall|m: usize| m < out.len() implies (#[trigger] out[m as int]).children.no_duplicates() by {
        assert(out[m as int].children == nodes[m as int].children);
    }
    assert forall|m: usize| m < out.len() implies ((#[trigger] out[m as int]).data matches DataView::Element(
        e,
    ) ==> (e.template matches Some(t) ==> t < out.len() && out[t as int].data is Root)) by {
        if m != n {
            assert(out[m as int] == nodes[m as int]);
        }
    }
}

/// Adds `s` to the text of the text node `n`.
fn add_text(nodes: &mut Vec<TreeNode>, n: usize, s: &str)
    requires
        well_formed(node_views(old(nodes)@)),
        n < old(nodes)@.len(),
        old(nodes)@[n as int].data is Text,
    ensures
        node_views(final(nodes)@) == node_views(old(nodes)@).update(
            n as int,
            NodeView {
                data: DataView::Text(node_views(old(nodes)@)[n as int].data->Text_0 + s@),
                ..node_views(old(nodes)@)[n as int]
            },
        ),
        well_formed(node_views(final(nodes)@)),
        acyclic(node_views(old(nodes)@)) ==> acyclic(node_views(final(nodes)@)),
        final(nodes)@.len() == old(nodes)@.len(),
{
    let ghost before = node_views(nodes@);
    proof {
        lemma_retexted(before, n, before[n as int].data->Text_0 + s@);
        if acyclic(before) {
            lemma_acyclic_kept(
                before,
                before.update(
                    n as int,
                    NodeView {
                        data: DataView::Text(before[n as int].data->Text_0 + s@),
                        ..before[n as int]
                    },
                ),
            );
        }
    }
    match &mut nodes[n].data {
        Data::Text(text) => {
            text.append(s);
        },
        _ => {},
    }
    proof {
        assert(node_views(nodes@) =~= before.update(
            n as int,
            NodeView { data: DataView::Text(before[n as int].data->Text_0 + s@), ..before[n as int] },
        ));
    }
}

/// Adds a node that hangs nowhere and gives its place.
fn push_loose(nodes: &mut Vec<TreeNode>, data: Data) -> (id: usize)
    requires
        well_formed(node_views(old(nodes)@)),
        old(nodes)@.len() < usize::MAX,
        data@ matches DataView::Element(e) ==> (e.template matches Some(t) ==> t < old(nodes)@.len()
            && node_views(old(nodes)@)[t as int].data is Root),
    ensures
        id == old(nodes)@.len(),
        node_views(final(nodes)@) == node_views(old(nodes)@).push(loose(data@)),
        well_formed(node_views(final(nodes)@)),
        acyclic(node_views(old(nodes)@)) ==> acyclic(node_views(final(nodes)@)),
        forall|m: usize| m < old(nodes)@.len() ==> !#[trigger] under(node_views(final(nodes)@), m, id),
{
    let ghost before = node_views(nodes@);
    proof {
        lemma_pushed(before, data@);
        let after = before.push(loose(data@));
        if acyclic(before) {
            lemma_acyclic_kept(before, after);
        }
        let made = before.len() as usize;
        assert forall|m: usize| m < before.len() implies !#[trigger] under(after, m, made) by {
            if under(after, m, made) {
                let k = choose|k: nat| within(after, m, made, k);
                lemma_within_old(before, after, m, made, k);
            }
        }
    }
    let id = nodes.len();
    nodes.push(TreeNode { data, parent: None, children: Vec::new() });
    proof {
        assert(node_views(nodes@) =~= before.push(loose(data@)));
    }
    id
}

/// Whether going up from the node `n`, from child to parent, a node without a
/// parent is met within `steps` steps.
pub open spec fn grounded(nodes: Seq<NodeView>, n: usize, steps: nat) -> bool
    decreases steps,
{
    n < nodes.len() && match nodes[n as int].parent {
        None => true,
        Some(p) => steps > 0 && grounded(nodes, p, (steps - 1) as nat),
    }
}

/// Whether going up from the node `n` comes to an end.
pub open spec fn ends(nodes: Seq<NodeView>, n: usize) -> bool {
    exists|steps: nat| grounded(nodes, n, steps)
}

/// Whether no node hangs under itself: going up from any node comes to an end.
pub open spec fn acyclic(nodes: Seq<NodeView>) -> bool {
    forall|n: usize| n < nodes.len() ==> #[trigger] ends(nodes, n)
}

/// Whether the node `n` is the node `top` or hangs somewhere under it.
pub open spec fn under(nodes: Seq<NodeView>, n: usize, top: usize) -> bool {
    exists|steps: nat| within(nodes, n, top, steps)
}

/// What ends within some steps ends within more.
proof fn lemma_grounded_longer(nodes: Seq<NodeView>, n: usize, a: nat, b: nat)
    requires
        grounded(nodes, n, a),
        a <= b,
    ensures
        grounded(nodes, n, b),
    decreases a,
{
    match nodes[n as int].parent {
        Some(p) => {
            lemma_grounded_longer(nodes, p, (a - 1) as nat, (b - 1) as nat);
        },
        None => {},
    }
}

/// Going up from a node ends as before where every node has the parent it had.
proof fn lemma_grounded_kept(a: Seq<NodeView>, b: Seq<NodeView>, n: usize, k: nat)
    requires
        a.len() <= b.len(),
        forall|i: int| 0 <= i < a.len() ==> (#[trigger] b[i]).parent == a[i].parent,
        grounded(a, n, k),
    ensures
        grounded(b, n, k),
    decreases k,
{
    match a[n as int].parent {
        Some(p) => {
            lemma_grounded_kept(a, b, p, (k - 1) as nat);
        },
        None => {},
    }
}

/// An arena in which every node has the parent it had, and in which the nodes
/// that were added hang nowhere, has no node under itself, as before.
pub proof fn lemma_acyclic_kept(a: Seq<NodeView>, b: Seq<NodeView>)
    requires
        acyclic(a),
        a.len() <= b.len(),
        forall|i: int| 0 <= i < a.len() ==> (#[trigger] b[i]).parent == a[i].parent,
        forall|i: int| a.len() <= i < b.len() ==> (#[trigger] b[i]).parent is None,
    ensures
        acyclic(b),
{
    assert forall|n: usize| n < b.len() implies #[trigger] ends(b, n) by {
        if n < a.len() {
            assert(ends(a, n));
            let k = choose|k: nat| grounded(a, n, k);
            lemma_grounded_kept(a, b, n, k);
        } else {
            assert(grounded(b, n, 0));
        }
    }
}

/// A node that was added is not met on the way up from a node that was there.
proof fn lemma_within_old(a: Seq<NodeView>, b: Seq<NodeView>, m: usize, t: usize, k: nat)
    requires
        well_formed(a),
        a.len() <= b.len(),
        forall|i: int| 0 <= i < a.len() ==> (#[trigger] b[i]).parent == a[i].parent,
        m < a.len(),
        t >= a.len(),
    ensures
        !within(b, m, t, k),
    decreases k,
{
    if k > 0 {
        match a[m as int].parent {
            Some(q) => {
                lemma_within_old(a, b, q, t, (k - 1) as nat);
            },
            None => {},
        }
    }
}

/// Taking a node from under its parent makes no way up longer.
proof fn lemma_grounded_detached(a: Seq<NodeView>, c: usize, n: usize, k: nat)
    requires
        well_formed(a),
        c < a.len(),
        grounded(a, n, k),
    ensures
        grounded(detached(a, c), n, k),
    decreases k,
{
    lemma_detached(a, c);
    if n != c {
        assert(detached(a, c)[n as int].parent == a[n as int].parent);
        match a[n as int].parent {
            Some(p) => {
                lemma_grounded_detached(a, c, p, (k - 1) as nat);
            },
            None => {},
        }
    }
}

/// Taking a node from under its parent adds no way up.
proof fn lemma_within_detached(a: Seq<NodeView>, c: usize, n: usize, t: usize, k: nat)
    requires
        well_formed(a),
        c < a.len(),
        within(detached(a, c), n, t, k),
    ensures
        within(a, n, t, k),
    decreases k,
{
    lemma_detached(a, c);
    if n != t && n != c {
        assert(detached(a, c)[n as int].parent == a[n as int].parent);
        match a[n as int].parent {
            Some(p) => {
                lemma_within_detached(a, c, p, t, (k - 1) as nat);
            },
            None => {},
        }
    }
}

/// Taking a node from under its parent leaves no node under itself, and puts
/// no node under another.
pub proof fn lemma_detached_acyclic(a: Seq<NodeView>, c: usize)
    requires
        well_formed(a),
        acyclic(a),
        c < a.len(),
    ensures
        acyclic(detached(a, c)),
        forall|n: usize, t: usize| #[trigger] under(detached(a, c), n, t) ==> under(a, n, t),
{
    lemma_detached(a, c);
    assert forall|n: usize| n < detached(a, c).len() implies #[trigger] ends(detached(a, c), n) by {
        assert(ends(a, n));
        let k = choose|k: nat| grounded(a, n, k);
        lemma_grounded_detached(a, c, n, k);
    }
    assert forall|n: usize, t: usize| #[trigger] under(detached(a, c), n, t) implies under(a, n, t) by {
        let k = choose|k: nat| within(detached(a, c), n, t, k);
        lemma_within_detached(a, c, n, t, k);
    }
}

/// The parent of a node that hangs under another hangs under it too, unless
/// the node is that other.
proof fn lemma_under_up(a: Seq<NodeView>, m: usize, q: usize, t: usize)
    requires
        m < a.len(),
        m != t,
        a[m as int].parent == Some(q),
    ensures
        under(a, m, t) == under(a, q, t),
{
    if under(a, m, t) {
        let s = choose|s: nat| within(a, m, t, s);
        assert(within(a, q, t, (s - 1) as nat));
    }
    if under(a, q, t) {
        let s = choose|s: nat| within(a, q, t, s);
        assert(within(a, m, t, s + 1));
    }
}

/// What hangs under a node hangs under the parent of that node.
proof fn lemma_within_parent(a: Seq<NodeView>, n: usize, x: usize, y: usize, k: nat)
    requires
        x < a.len(),
        a[x as int].parent == Some(y),
        within(a, n, x, k),
    ensures
        within(a, n, y, k + 1),
    decreases k,
{
    if n == x {
        assert(within(a, y, y, 0));
        assert(within(a, x, y, 1));
        if k > 0 {
            lemma_within_longer(a, x, y, 1, k + 1);
        }
    } else {
        match a[n as int].parent {
            Some(q) => {
                lemma_within_parent(a, q, x, y, (k - 1) as nat);
            },
            None => {},
        }
    }
}

/// What is met within some steps is met within more.
proof fn lemma_within_longer(nodes: Seq<NodeView>, n: usize, t: usize, a: nat, b: nat)
    requires
        within(nodes, n, t, a),
        a <= b,
    ensures
        within(nodes, n, t, b),
    decreases a,
{
    if n != t {
        match nodes[n as int].parent {
            Some(p) => {
                lemma_within_longer(nodes, p, t, (a - 1) as nat, (b - 1) as nat);
            },
            None => {},
        }
    }
}

/// What hangs under a node hangs under the parent of that node.
pub proof fn lemma_under_parent(a: Seq<NodeView>, n: usize, x: usize, y: usize)
    requires
        x < a.len(),
        a[x as int].parent == Some(y),
        under(a, n, x),
    ensures
        under(a, n, y),
{
    let k = choose|k: nat| within(a, n, x, k);
    lemma_within_parent(a, n, x, y, k);
}

/// The way up from a node ends no later from a node that is met on it.
proof fn lemma_grounded_at(a: Seq<NodeView>, n: usize, t: usize, k: nat, g: nat)
    requires
        grounded(a, n, g),
        within(a, n, t, k),
    ensures
        grounded(a, t, g),
    decreases k,
{
    if n != t {
        match a[n as int].parent {
            Some(q) => {
                lemma_grounded_at(a, q, t, (k - 1) as nat, (g - 1) as nat);
                lemma_grounded_longer(a, t, (g - 1) as nat, g);
            },
            None => {},
        }
    }
}

/// A way up that ends does not come back to where it began.
proof fn lemma_no_way_back(a: Seq<NodeView>, n: usize, c: usize, k: nat, g: nat)
    requires
        c < a.len(),
        a[c as int].parent == Some(n),
        grounded(a, n, g),
    ensures
        !within(a, n, c, k),
    decreases g,
{
    if within(a, n, c, k) {
        lemma_grounded_at(a, n, c, k, g);
        if g > 0 {
            lemma_no_way_back(a, n, c, k, (g - 1) as nat);
        }
    }
}

/// In an arena without a node under itself no node hangs under its child.
pub proof fn lemma_not_under_child(a: Seq<NodeView>, n: usize, c: usize)
    requires
        acyclic(a),
        n < a.len(),
        c < a.len(),
        a[c as int].parent == Some(n),
    ensures
        !under(a, n, c),
{
    if under(a, n, c) {
        let k = choose|k: nat| within(a, n, c, k);
        assert(ends(a, n));
        let g = choose|g: nat| grounded(a, n, g);
        lemma_no_way_back(a, n, c, k, g);
    }
}

/// The parent of a node that does not hang under `c` does not either.
proof fn lemma_parent_beside(a: Seq<NodeView>, c: usize, m: usize, q: usize)
    requires
        m < a.len(),
        a[m as int].parent == Some(q),
        !under(a, m, c),
    ensures
        !under(a, q, c),
        m != c,
{
    if m == c {
        assert(within(a, m, c, 0));
    }
    lemma_under_up(a, m, q, c);
}

/// Putting a node under another changes no way up that does not meet it.
proof fn lemma_grounded_beside(a: Seq<NodeView>, p: usize, j: int, c: usize, m: usize, k: nat)
    requires
        p < a.len(),
        c < a.len(),
        !under(a, m, c),
        grounded(a, m, k),
    ensures
        grounded(attached(a, p, j, c), m, k),
    decreases k,
{
    if m == c {
        assert(within(a, m, c, 0));
    }
    assert(attached(a, p, j, c)[m as int].parent == a[m as int].parent);
    match a[m as int].parent {
        Some(q) => {
            lemma_parent_beside(a, c, m, q);
            lemma_grounded_beside(a, p, j, c, q, (k - 1) as nat);
        },
        None => {},
    }
}

/// Putting a node under another that does not hang under it lets every way
/// up end: the ways that met the node go on from its new parent.
proof fn lemma_grounded_attached(
    a: Seq<NodeView>,
    p: usize,
    j: int,
    c: usize,
    m: usize,
    k: nat,
    kp: nat,
)
    requires
        p < a.len(),
        c < a.len(),
        !under(a, p, c),
        grounded(a, p, kp),
        grounded(a, m, k),
    ensures
        grounded(attached(a, p, j, c), m, k + 1 + kp),
    decreases k,
{
    let out = attached(a, p, j, c);
    if m == c {
        lemma_grounded_beside(a, p, j, c, p, kp);
        assert(out[c as int].parent == Some(p));
        assert(grounded(out, c, kp + 1));
        lemma_grounded_longer(out, c, kp + 1, k + 1 + kp);
    } else {
        assert(out[m as int].parent == a[m as int].parent);
        match a[m as int].parent {
            Some(q) => {
                lemma_grounded_attached(a, p, j, c, q, (k - 1) as nat, kp);
            },
            None => {},
        }
    }
}

/// Putting a node under another changes nothing on the way up from a node
/// that does not hang under it.
proof fn lemma_within_beside(a: Seq<NodeView>, p: usize, j: int, c: usize, m: usize, t: usize, k: nat)
    requires
        p < a.len(),
        c < a.len(),
        !under(a, m, c),
    ensures
        within(attached(a, p, j, c), m, t, k) == within(a, m, t, k),
    decreases k,
{
    if m == c {
        assert(within(a, m, c, 0));
    }
    if m != t && k > 0 && m < a.len() {
        assert(attached(a, p, j, c)[m as int].parent == a[m as int].parent);
        match a[m as int].parent {
            Some(q) => {
                lemma_parent_beside(a, c, m, q);
                lemma_within_beside(a, p, j, c, q, t, (k - 1) as nat);
            },
            None => {},
        }
    }
}

/// Putting a node under another that does not hang under it leaves no node
/// under itself, and changes nothing above a node that does not hang under
/// the node that was put.
pub proof fn lemma_attached_acyclic(a: Seq<NodeView>, p: usize, j: int, c: usize)
    requires
        acyclic(a),
        p < a.len(),
        c < a.len(),
        !under(a, p, c),
    ensures
        acyclic(attached(a, p, j, c)),
        forall|m: usize, t: usize|
            !under(a, m, c) ==> (#[trigger] under(attached(a, p, j, c), m, t) == under(a, m, t)),
{
    let out = attached(a, p, j, c);
    assert(ends(a, p));
    let kp = choose|kp: nat| grounded(a, p, kp);
    assert forall|n: usize| n < out.len() implies #[trigger] ends(out, n) by {
        assert(ends(a, n));
        let k = choose|k: nat| grounded(a, n, k);
        lemma_grounded_attached(a, p, j, c, n, k, kp);
    }
    assert forall|m: usize, t: usize| !under(a, m, c) implies (#[trigger] under(out, m, t) == under(
        a,
        m,
        t,
    )) by {
        if under(out, m, t) {
            let k = choose|k: nat| within(out, m, t, k);
            lemma_within_beside(a, p, j, c, m, t, k);
        }
        if under(a, m, t) {
            let k = choose|k: nat| within(a, m, t, k);
            lemma_within_beside(a, p, j, c, m, t, k);
        }
    }
}

/// The tree of a page.
#[derive(Debug)]
pub struct Dom {
    nodes: Vec<TreeNode>,
}

impl View for Dom {
    type V = Seq<NodeView>;

    closed spec fn view(&self) -> Seq<NodeView> {
        node_views(self.nodes@)
    }
}

impl Dom {
    #[verifier::type_invariant]
    spec fn sound(self) -> bool {
        well_formed(node_views(self.nodes@)) && acyclic(node_views(self.nodes@))
    }

    /// A tree that holds the document and nothing else.
    pub fn new() -> (r: Dom)
        ensures
            r@ =~= seq![loose(DataView::Root)],
            well_formed(r@),
            acyclic(r@),
    {
        let mut nodes: Vec<TreeNode> = Vec::new();
        nodes.push(TreeNode { data: Data::Root, parent: None, children: Vec::new() });
        proof {
            assert(node_views(nodes@) =~= seq![loose(DataView::Root)]);
            assert forall|n: usize| n < node_views(nodes@).len() implies #[trigger] ends(
                node_views(nodes@),
                n,
            ) by {
                assert(grounded(node_views(nodes@), n, 0));
            }
        }
        Dom { nodes }
    }

    /// The number of nodes; every tree is well formed, and no node of it
    /// hangs under itself.
    pub fn len(&self) -> (r: usize)
        ensures
            r == self@.len(),
            well_formed(self@),
            acyclic(self@),
    {
        proof {
            use_type_invariant(self);
        }
        self.nodes.len()
    }

    /// The node at the place `id`.
    pub fn node(&self, id: usize) -> (r: &TreeNode)
        requires
            id < self@.len(),
        ensures
            r@ == self@[id as int],
    {
        &self.nodes[id]
    }

    /// The document.
    pub fn get_document(&self) -> (r: usize)
        ensures
            r == 0,
            r < self@.len(),
            self@[0].data is Root,
    {
        proof {
            use_type_invariant(self);
        }
        0
    }

    /// Whether two handles mean the same node.
    pub fn same_node(&self, x: usize, y: usize) -> (r: bool)
        ensures
            r == (x == y),
    {
        x == y
    }

    /// Makes a comment that hangs nowhere yet.
    pub fn create_comment(&mut self, text: String) -> (r: usize)
        requires
            old(self)@.len() < usize::MAX,
        ensures
            r == old(self)@.len(),
            final(self)@ == old(self)@.push(loose(DataView::Comment(text@))),
            forall|m: usize| m < r ==> !#[trigger] final(self).is_under(m, r),
    {
        proof {
            use_type_invariant(&*self);
        }
        let mut taken = Dom::new();
        core::mem::swap(self, &mut taken);
        let Dom { nodes: mut nodes } = taken;
        let id = push_loose(&mut nodes, Data::Comment(text));
        *self = Dom { nodes };
        id
    }

    /// Makes a processing instruction that hangs nowhere yet. It is kept as it
    /// is given.
    pub fn create_pi(&mut self, target: String, data: String) -> (r: usize)
        requires
            old(self)@.len() < usize::MAX,
        ensures
            r == old(self)@.len(),
            final(self)@ == old(self)@.push(
                loose(DataView::ProcessingInstruction(target@, data@)),
            ),
            forall|m: usize| m < r ==> !#[trigger] final(self).is_under(m, r),
    {
        proof {
            use_type_invariant(&*self);
        }
        let mut taken = Dom::new();
        core::mem::swap(self, &mut taken);
        let Dom { nodes: mut nodes } = taken;
        let id = push_loose(&mut nodes, Data::ProcessingInstruction(target, data));
        *self = Dom { nodes };
        id
    }

    /// Takes a node from under its parent; a node that hangs nowhere stays as
    /// it is.
    pub fn remove_from_parent(&mut self, target: usize)
        requires
            target < old(self)@.len(),
        ensures
            final(self)@ == detached(old(self)@, target),
    {
        proof {
            use_type_invariant(&*self);
        }
        let mut taken = Dom::new();
        core::mem::swap(self, &mut taken);
        let Dom { nodes: mut nodes } = taken;
        detach(&mut nodes, target);
        *self = Dom { nodes };
    }

    /// Whether the node `n` is the node `top` or hangs somewhere under it.
    pub open spec fn is_under(self, n: usize, top: usize) -> bool {
        under(self@, n, top)
    }

    /// Whether the node `n` is the node `top` or hangs somewhere under it.
    pub fn is_within(&self, n: usize, top: usize) -> (r: bool)
        ensures
            r == self.is_under(n, top),
    {
        proof {
            use_type_invariant(self);
        }
        if n == top {
            proof {
                assert(within(self@, n, top, 0));
            }
            return true;
        }
        if n >= self.nodes.len() {
            return false;
        }
        let mut at: usize = n;
        proof {
            assert(ends(self@, n));
        }
        let ghost mut steps: nat = choose|k: nat| grounded(self@, n, k);
        loop
            invariant
                at < self@.len(),
                at != top,
                self@ == node_views(self.nodes@),
                well_formed(self@),
                grounded(self@, at, steps),
                self.is_under(n, top) == under(self@, at, top),
            decreases steps,
        {
            match self.nodes[at].parent {
                Some(p) => {
                    proof {
                        lemma_under_up(self@, at, p, top);
                        steps = (steps - 1) as nat;
                    }
                    if p == top {
                        proof {
                            assert(within(self@, p, top, 0));
                        }
                        return true;
                    }
                    at = p;
                },
                None => {
                    return false;
                },
            }
        }
    }

    /// Whether `child` can be put under `parent`: there is room for one more
    /// node, the kind of the child can hang under the kind of the parent, and
    /// the parent is not the child itself nor a node under it.
    pub open spec fn accepts(self, parent: usize, child: NodeOrTextView) -> bool {
        &&& parent < self@.len()
        &&& self@.len() < usize::MAX
        &&& match child {
            NodeOrTextView::Node(c) => c < self@.len() && can_hang_under(
                self@[c as int].data,
                self@[parent as int].data,
            ) && !self.is_under(parent, c),
            NodeOrTextView::Text(_) => self@[parent as int].data is Element,
        }
    }

    /// Puts `child` under `parent` as its last child. Text that follows text
    /// is added to it.
    pub fn append(&mut self, parent: usize, child: NodeOrText)
        requires
            old(self).accepts(parent, child@),
        ensures
            final(self)@ == appended(old(self)@, parent, child@),
    {
        proof {
            use_type_invariant(&*self);
        }
        let mut taken = Dom::new();
        core::mem::swap(self, &mut taken);
        let Dom { nodes: mut nodes } = taken;
        let ghost before = node_views(nodes@);
        match child {
            NodeOrText::Text(s) => {
                let count = nodes[parent].children.len();
                let last_is_text = if count > 0 {
                    let last = nodes[parent].children[count - 1];
                    match &nodes[last].data {
                        Data::Text(_) => true,
                        _ => false,
                    }
                } else {
                    false
                };
                if last_is_text {
                    let last = nodes[parent].children[count - 1];
                    add_text(&mut nodes, last, s.as_str());
                } else {
                    let id = push_loose(&mut nodes, Data::Text(s));
                    attach(&mut nodes, parent, count, id);
                }
            },
            NodeOrText::Node(c) => {
                detach(&mut nodes, c);
                proof {
                    lemma_detached(before, c);
                    lemma_detached_acyclic(before, c);
                }
                let count = nodes[parent].children.len();
                attach(&mut nodes, parent, count, c);
            },
        }
        *self = Dom { nodes };
    }

    /// Puts `new_node` right before `sibling`, which must hang somewhere, under
    /// the parent of `sibling`. Text that follows text is added to it. A node
    /// that hangs somewhere is taken from there first.
    pub fn append_before_sibling(&mut self, sibling: usize, new_node: NodeOrText)
        requires
            sibling < old(self)@.len(),
            old(self)@[sibling as int].parent is Some,
            old(self).accepts(old(self)@[sibling as int].parent->0, new_node@),
            new_node@ != NodeOrTextView::Node(sibling),
        ensures
            final(self)@ == inserted_before(old(self)@, sibling, new_node@),
    {
        proof {
            use_type_invariant(&*self);
        }
        let mut taken = Dom::new();
        core::mem::swap(self, &mut taken);
        let Dom { nodes: mut nodes } = taken;
        let ghost before = node_views(nodes@);
        let parent = nodes[sibling].parent.unwrap();
        match new_node {
            NodeOrText::Text(s) => {
                let k = position_of(&nodes, parent, sibling);
                let prev_is_text = if k > 0 {
                    let prev = nodes[parent].children[k - 1];
                    match &nodes[prev].data {
                        Data::Text(_) => true,
                        _ => false,
                    }
                } else {
                    false
                };
                if prev_is_text {
                    let prev = nodes[parent].children[k - 1];
                    add_text(&mut nodes, prev, s.as_str());
                } else {
                    let id = push_loose(&mut nodes, Data::Text(s));
                    attach(&mut nodes, parent, k, id);
                }
            },
            NodeOrText::Node(c) => {
                detach(&mut nodes, c);
                proof {
                    lemma_detached(before, c);
                    lemma_detached_acyclic(before, c);
                }
                let k = position_of(&nodes, parent, sibling);
                attach(&mut nodes, parent, k, c);
            },
        }
        *self = Dom { nodes };
    }

    /// Puts `child` right before `element` where `element` hangs somewhere,
    /// and else under `prev_element` as its last child.
    pub fn append_based_on_parent_node(&mut self, element: usize, prev_element: usize, child: NodeOrText)
        requires
            element < old(self)@.len(),
            match old(self)@[element as int].parent {
                Some(parent) => old(self).accepts(parent, child@) && child@ != NodeOrTextView::Node(
                    element,
                ),
                None => old(self).accepts(prev_element, child@),
            },
        ensures
            final(self)@ == (if old(self)@[element as int].parent is Some {
                inserted_before(old(self)@, element, child@)
            } else {
                appended(old(self)@, prev_element, child@)
            }),
    {
        if self.nodes[element].parent.is_some() {
            self.append_before_sibling(element, child);
        } else {
            self.append(prev_element, child);
        }
    }

    /// The name of an element.
    pub fn elem_name(&self, target: usize) -> (r: &Name)
        requires
            target < self@.len(),
            self@[target as int].data is Element,
        ensures
            r@ == self@[target as int].data->Element_0.name,
    {
        match &self.nodes[target].data {
            Data::Element(e) => &e.name,
            _ => vstd::pervasive::unreached(),
        }
    }

    /// The root of the contents of a template element. They are a tree of
    /// their own, apart from the document.
    pub fn get_template_contents(&self, target: usize) -> (r: usize)
        requires
            target < self@.len(),
            self@[target as int].data matches DataView::Element(e) && e.template is Some,
        ensures
            Some(r) == self@[target as int].data->Element_0.template,
            r < self@.len(),
            self@[r as int].data is Root,
            r != 0 ==> self@[r as int].parent is None,
    {
        proof {
            use_type_invariant(self);
            let r = self@[target as int].data->Element_0.template->0;
            assert(self@[r as int].parent matches Some(p) ==> can_hang_under(
                self@[r as int].data,
                self@[p as int].data,
            ));
        }
        match &self.nodes[target].data {
            Data::Element(e) => match e.template {
                Some(t) => t,
                None => 0,
            },
            _ => 0,
        }
    }

    /// Whether a node is an element that was made as a MathML annotation-xml
    /// integration point.
    pub fn is_mathml_annotation_xml_integration_point(&self, handle: usize) -> (r: bool)
        requires
            handle < self@.len(),
        ensures
            r == (self@[handle as int].data matches DataView::Element(e) && e.integration_point),
    {
        match &self.nodes[handle].data {
            Data::Element(e) => e.integration_point,
            _ => false,
        }
    }

    /// Takes note of the document type of the page, which the tree does not
    /// keep: nothing changes.
    pub fn append_doctype_to_document(&mut self, name: &str, public_id: &str, system_id: &str)
        ensures
            final(self)@ == old(self)@,
    {
    }

    /// Takes note of the quirks mode of the page, which plays no part in the
    /// tree: nothing changes.
    pub fn set_quirks_mode(&mut self, mode: QuirksMode)
        ensures
            final(self)@ == old(self)@,
    {
    }
}

/// How far a page keeps to the standard.
#[derive(Debug, Clone, Copy, PartialEq, Eq, Structural)]
pub enum QuirksMode {
    Quirks,
    LimitedQuirks,
    NoQuirks,
}

/// The place of the node `c` among the children of its parent `p`.
fn position_of(nodes: &Vec<TreeNode>, p: usize, c: usize) -> (i: usize)
    requires
        well_formed(node_views(nodes@)),
        c < nodes@.len(),
        node_views(nodes@)[c as int].parent == Some(p),
    ensures
        i == node_views(nodes@)[p as int].children.index_of(c),
        i < node_views(nodes@)[p as int].children.len(),
        node_views(nodes@)[p as int].children[i as int] == c,
{
    let ghost list = node_views(nodes@)[p as int].children;
    proof {
        lemma_child_of_parent_only(node_views(nodes@), p, c);
    }
    let count = nodes[p].children.len();
    let mut i: usize = 0;
    while nodes[p].children[i] != c
        invariant
            p < nodes@.len(),
            list == nodes@[p as int].children@,
            list.len() == count,
            list.contains(c),
            i < list.len(),
            forall|k: int| 0 <= k < i ==> list[k] != c,
        decreases list.len() - i,
    {
        proof {
            let at = list.index_of(c);
            assert(list[at] == c);
            assert(at > i);
        }
        i = i + 1;
    }
    proof {
        let at = list.index_of(c);
        assert(list[at] == c);
        assert(list.no_duplicates());
        assert(at == i);
    }
    i
}

/// The place of the first attribute called `name`; the number of attributes
/// where there is none.
pub open spec fn attribute_position(attributes: Seq<AttributeView>, name: NameView) -> int
    decreases attributes.len(),
{
    if attributes.len() == 0 {
        0
    } else if attributes[0].name == name {
        0
    } else {
        1 + attribute_position(attributes.drop_first(), name)
    }
}

/// Whether `p` is the place of the first attribute called `name`, or the
/// number of attributes where there is none.
pub open spec fn is_attribute_position(attributes: Seq<AttributeView>, name: NameView, p: int) -> bool {
    &&& 0 <= p <= attributes.len()
    &&& p < attributes.len() ==> attributes[p].name == name
    &&& forall|j: int| 0 <= j < p ==> (#[trigger] attributes[j]).name != name
}

/// `attribute_position` is what its name says, and nothing else is.
pub proof fn lemma_attribute_position(attributes: Seq<AttributeView>, name: NameView, p: int)
    ensures
        is_attribute_position(attributes, name, attribute_position(attributes, name)),
        is_attribute_position(attributes, name, p) ==> p == attribute_position(attributes, name),
    decreases attributes.len(),
{
    if attributes.len() > 0 && attributes[0].name != name {
        let rest = attributes.drop_first();
        lemma_attribute_position(rest, name, p - 1);
        let q = attribute_position(rest, name);
        assert forall|j: int| 0 <= j < q + 1 implies (#[trigger] attributes[j]).name != name by {
            if j > 0 {
                assert(rest[j - 1] == attributes[j]);
            }
        }
        if q < rest.len() {
            assert(rest[q] == attributes[q + 1]);
        }
        if is_attribute_position(attributes, name, p) {
            assert(p > 0);
            assert forall|j: int| 0 <= j < p - 1 implies (#[trigger] rest[j]).name != name by {
                assert(rest[j] == attributes[j + 1]);
            }
            if p < attributes.len() {
                assert(rest[p - 1] == attributes[p]);
            }
        }
    } else if attributes.len() > 0 {
        if is_attribute_position(attributes, name, p) && p > 0 {
            assert(attributes[0].name != name);
        }
    }
}

/// The attribute that a parsed attribute stands for.
pub open spec fn attribute_of(a: ParsedAttribute) -> AttributeView {
    AttributeView { name: expanded(a.name.namespace@, a.name.local@), value: a.value@ }
}

/// The attributes of an element after one was set: an attribute of that name
/// gets the new value, and where there is none the attribute is added.
pub open spec fn with_attribute(attributes: Seq<AttributeView>, a: AttributeView) -> Seq<
    AttributeView,
> {
    let p = attribute_position(attributes, a.name);
    if p < attributes.len() {
        attributes.update(p, a)
    } else {
        attributes.push(a)
    }
}

/// The attributes of an element after each of `parsed` was set, in order.
pub open spec fn with_attributes(attributes: Seq<AttributeView>, parsed: Seq<ParsedAttribute>) -> Seq<
    AttributeView,
>
    decreases parsed.len(),
{
    if parsed.len() == 0 {
        attributes
    } else {
        with_attribute(with_attributes(attributes, parsed.drop_last()), attribute_of(parsed.last()))
    }
}

/// The attributes of an element after one was added unless the element has an
/// attribute of that name.
pub open spec fn with_missing(attributes: Seq<AttributeView>, a: AttributeView) -> Seq<
    AttributeView,
> {
    if attribute_position(attributes, a.name) < attributes.len() {
        attributes
    } else {
        attributes.push(a)
    }
}

/// The attributes of an element after each of `parsed` was added, in order,
/// unless the element then has an attribute of that name.
pub open spec fn with_all_missing(attributes: Seq<AttributeView>, parsed: Seq<ParsedAttribute>) -> Seq<
    AttributeView,
>
    decreases parsed.len(),
{
    if parsed.len() == 0 {
        attributes
    } else {
        with_missing(with_all_missing(attributes, parsed.drop_last()), attribute_of(parsed.last()))
    }
}

/// Whether two names are the same.
fn same_names(a: &Name, b: &Name) -> (r: bool)
    ensures
        r == (a@ == b@),
{
    let same_namespace = match (&a.namespace, &b.namespace) {
        (Some(x), Some(y)) => same_name(x.as_str(), y.as_str()),
        (None, None) => true,
        _ => false,
    };
    same_namespace && same_name(a.local.as_str(), b.local.as_str())
}

/// Finds the first attribute called `name`.
fn find_attribute(attributes: &Vec<Attribute>, name: &Name) -> (p: usize)
    ensures
        p == attribute_position(attribute_views(attributes@), name@),
        p <= attributes@.len(),
{
    let mut i: usize = 0;
    let mut stop = false;
    while i < attributes.len() && !stop
        invariant
            i <= attributes@.len(),
            forall|j: int| 0 <= j < i ==> (#[trigger] attribute_views(attributes@)[j]).name != name@,
            stop ==> i < attributes@.len() && attribute_views(attributes@)[i as int].name == name@,
        decreases attributes@.len() - i + (if stop { 0int } else { 1int }),
    {
        if same_names(&attributes[i].name, name) {
            stop = true;
        } else {
            i = i + 1;
        }
    }
    proof {
        lemma_attribute_position(attribute_views(attributes@), name@, i as int);
    }
    i
}

/// Sets each of the parsed attributes, or adds each that is missing.
fn merge_attributes(attributes: &mut Vec<Attribute>, parsed: &Vec<ParsedAttribute>, only_missing: bool)
    ensures
        attribute_views(final(attributes)@) == (if only_missing {
            with_all_missing(attribute_views(old(attributes)@), parsed@)
        } else {
            with_attributes(attribute_views(old(attributes)@), parsed@)
        }),
{
    let ghost before = attribute_views(attributes@);
    let mut i: usize = 0;
    while i < parsed.len()
        invariant
            i <= parsed@.len(),
            attribute_views(attributes@) == (if only_missing {
                with_all_missing(before, parsed@.take(i as int))
            } else {
                with_attributes(before, parsed@.take(i as int))
            }),
        decreases parsed@.len() - i,
    {
        proof {
            assert(parsed@.take(i as int + 1).drop_last() =~= parsed@.take(i as int));
            assert(parsed@.take(i as int + 1).last() == parsed@[i as int]);
        }
        let ghost current = attribute_views(attributes@);
        let name = qual_name_to_qname(&parsed[i].name);
        let p = find_attribute(attributes, &name);
        let attribute = Attribute { name, value: parsed[i].value.clone() };
        if p < attributes.len() {
            if !only_missing {
                attributes.set(p, attribute);
                proof {
                    assert(attribute_views(attributes@) =~= current.update(
                        p as int,
                        attribute_of(parsed@[i as int]),
                    ));
                }
            }
        } else {
            attributes.push(attribute);
            proof {
                assert(attribute_views(attributes@) =~= current.push(attribute_of(parsed@[i as int])));
            }
        }
        i = i + 1;
    }
    proof {
        assert(parsed@.take(parsed@.len() as int) =~= parsed@);
    }
}

/// The element that a parser asks for, as it is before it is put anywhere.
pub open spec fn new_element(
    name: QualifiedName,
    parsed: Seq<ParsedAttribute>,
    template: Option<usize>,
    integration_point: bool,
) -> ElementView {
    ElementView {
        name: expanded(name.namespace@, name.local@),
        prefix: match name.prefix {
            Some(p) => Some((p@, name.namespace@)),
            None => None,
        },
        attributes: with_attributes(Seq::empty(), parsed),
        xhtml_default: false,
        template,
        integration_point,
    }
}

/// The arena after an element was made: where it is a template, a root for
/// its contents is made first; the element comes last.
pub open spec fn with_element(
    nodes: Seq<NodeView>,
    name: QualifiedName,
    parsed: Seq<ParsedAttribute>,
    template: bool,
    integration_point: bool,
) -> Seq<NodeView> {
    if template {
        nodes.push(loose(DataView::Root)).push(
            loose(
                DataView::Element(
                    new_element(name, parsed, Some(nodes.len() as usize), integration_point),
                ),
            ),
        )
    } else {
        nodes.push(loose(DataView::Element(new_element(name, parsed, None, integration_point))))
    }
}

/// Giving an element other attributes keeps the arena well formed.
pub proof fn lemma_reattributed(nodes: Seq<NodeView>, n: usize, attributes: Seq<AttributeView>)
    requires
        well_formed(nodes),
        n < nodes.len(),
        nodes[n as int].data is Element,
    ensures
        well_formed(with_node_attributes(nodes, n, attributes)),
{
    let out = with_node_attributes(nodes, n, attributes);
    assert forall|m: usize, k: int|
        m < out.len() && 0 <= k < out[m as int].children.len() implies (
    #[trigger] out[m as int].children[k]) < out.len()
        && out[out[m as int].children[k] as int].parent == Some(m) by {
        assert(out[m as int].children == nodes[m as int].children);
        assert(nodes[m as int].children[k] < nodes.len());
    }
    assert forall|c: usize| c < out.len() implies ((#[trigger] out[c as int]).parent matches Some(p)
        ==> p < out.len() && out[p as int].children.contains(c) && can_hang_under(
        out[c as int].data,
        out[p as int].data,
    )) by {
        assert(out[c as int].parent == nodes[c as int].parent);
    }
    assert forall|m: usize| m < out.len() implies (#[trigger] out[m as int]).children.no_duplicates() by {
        assert(out[m as int].children == nodes[m as int].children);
    }
    assert forall|m: usize| m < out.len() implies ((#[trigger] out[m as int]).data matches DataView::Element(
        e,
    ) ==> (e.template matches Some(t) ==> t < out.len() && out[t as int].data is Root)) by {
        if m != n {
            assert(out[m as int] == nodes[m as int]);
        }
    }
}

/// The arena with the attributes of the element `n` replaced.
pub open spec fn with_node_attributes(nodes: Seq<NodeView>, n: usize, attributes: Seq<AttributeView>) -> Seq<
    NodeView,
> {
    nodes.update(
        n as int,
        NodeView {
            data: DataView::Element(ElementView { attributes, ..nodes[n as int].data->Element_0 }),
            ..nodes[n as int]
        },
    )
}

/// The arena after each of the nodes `cs` in turn was taken from where it
/// hangs and put under `p` as its last child.
pub open spec fn moved(nodes: Seq<NodeView>, cs: Seq<usize>, p: usize) -> Seq<NodeView>
    decreases cs.len(),
{
    if cs.len() == 0 {
        nodes
    } else {
        let free = detached(nodes, cs[0]);
        moved(
            attached(free, p, free[p as int].children.len() as int, cs[0]),
            cs.drop_first(),
            p,
        )
    }
}

impl Dom {
    /// Makes an element that hangs nowhere yet.
    ///
    /// Its name is the local part of the given name in its namespace, unless
    /// that is empty. The attributes are set in order, so that of two of one
    /// name the second stays. A template element gets a root for its contents,
    /// made just before the element itself.
    pub fn create_element(
        &mut self,
        name: QualifiedName,
        attrs: Vec<ParsedAttribute>,
        template: bool,
        integration_point: bool,
    ) -> (r: usize)
        requires
            old(self)@.len() + 2 <= usize::MAX,
        ensures
            final(self)@ == with_element(old(self)@, name, attrs@, template, integration_point),
            r == final(self)@.len() - 1,
            forall|m: usize| m < r ==> !#[trigger] final(self).is_under(m, r),
    {
        proof {
            use_type_invariant(&*self);
        }
        let mut taken = Dom::new();
        core::mem::swap(self, &mut taken);
        let Dom { nodes: mut nodes } = taken;
        let contents = if template {
            Some(push_loose(&mut nodes, Data::Root))
        } else {
            None
        };
        let mut attributes: Vec<Attribute> = Vec::new();
        proof {
            assert(attribute_views(attributes@) =~= Seq::<AttributeView>::empty());
        }
        merge_attributes(&mut attributes, &attrs, false);
        let element = Element {
            name: qual_name_to_qname(&name),
            prefix: match &name.prefix {
                Some(p) => Some((p.clone(), name.namespace.clone())),
                None => None,
            },
            attributes,
            xhtml_default: false,
            template: contents,
            integration_point,
        };
        let id = push_loose(&mut nodes, Data::Element(element));
        *self = Dom { nodes };
        id
    }

    /// Adds each of the attributes to an element unless the element has an
    /// attribute of that name.
    pub fn add_attrs_if_missing(&mut self, target: usize, attrs: Vec<ParsedAttribute>)
        requires
            target < old(self)@.len(),
            old(self)@[target as int].data is Element,
        ensures
            final(self)@ == with_node_attributes(
                old(self)@,
                target,
                with_all_missing(old(self)@[target as int].data->Element_0.attributes, attrs@),
            ),
    {
        proof {
            use_type_invariant(&*self);
        }
        let mut taken = Dom::new();
        core::mem::swap(self, &mut taken);
        let Dom { nodes: mut nodes } = taken;
        let ghost before = node_views(nodes@);
        let mut attributes: Vec<Attribute> = Vec::new();
        match &mut nodes[target].data {
            Data::Element(e) => {
                core::mem::swap(&mut e.attributes, &mut attributes);
            },
            _ => {},
        }
        merge_attributes(&mut attributes, &attrs, true);
        match &mut nodes[target].data {
            Data::Element(e) => {
                e.attributes = attributes;
            },
            _ => {},
        }
        proof {
            let wanted = with_node_attributes(
                before,
                target,
                with_all_missing(before[target as int].data->Element_0.attributes, attrs@),
            );
            assert(node_views(nodes@) =~= wanted);
            lemma_reattributed(
                before,
                target,
                with_all_missing(before[target as int].data->Element_0.attributes, attrs@),
            );
            lemma_acyclic_kept(before, wanted);
        }
        *self = Dom { nodes };
    }

    /// Whether all children of `node` can be put under `new_parent`: the
    /// kinds fit, and `new_parent` does not hang under `node`.
    pub open spec fn can_move_children(self, node: usize, new_parent: usize) -> bool {
        &&& node < self@.len()
        &&& new_parent < self@.len()
        &&& (node == new_parent || !self.is_under(new_parent, node))
        &&& can_have_children(self@[node as int].data)
        &&& can_have_children(self@[new_parent as int].data)
        &&& forall|k: int|
            0 <= k < self@[node as int].children.len() ==> can_hang_under(
                self@[(#[trigger] self@[node as int].children[k]) as int].data,
                self@[new_parent as int].data,
            )
    }

    /// Moves the children of `node` under `new_parent`, behind the children
    /// that it has, in their order. Each child is taken from under `node`
    /// before it is put under `new_parent`, so that `node`, where it is another
    /// node than `new_parent`, is left without children.
    pub fn reparent_children(&mut self, node: usize, new_parent: usize)
        requires
            old(self).can_move_children(node, new_parent),
        ensures
            final(self)@ == moved(old(self)@, old(self)@[node as int].children, new_parent),
            final(self)@.len() == old(self)@.len(),
            node != new_parent ==> final(self)@[node as int].children.len() == 0,
    {
        proof {
            use_type_invariant(&*self);
        }
        let mut taken = Dom::new();
        core::mem::swap(self, &mut taken);
        let Dom { nodes: mut nodes } = taken;
        let ghost before = node_views(nodes@);
        let ghost cs = before[node as int].children;
        let count = nodes[node].children.len();
        let mut list: Vec<usize> = Vec::new();
        let mut j: usize = 0;
        while j < count
            invariant
                j <= count,
                node < nodes@.len(),
                count == nodes@[node as int].children@.len(),
                cs == nodes@[node as int].children@,
                list@ == cs.take(j as int),
            decreases count - j,
        {
            list.push(nodes[node].children[j]);
            proof {
                assert(cs.take(j as int + 1) =~= cs.take(j as int).push(cs[j as int]));
            }
            j = j + 1;
        }
        proof {
            assert(cs.take(count as int) =~= cs);
        }
        let mut i: usize = 0;
        while i < count
            invariant
                i <= count,
                count == cs.len(),
                list@ == cs,
                cs.no_duplicates(),
                node < nodes@.len(),
                new_parent < nodes@.len(),
                nodes@.len() == before.len(),
                well_formed(node_views(nodes@)),
                acyclic(node_views(nodes@)),
                node != new_parent ==> !under(node_views(nodes@), new_parent, node),
                forall|k: int|
                    i <= k < cs.len() ==> node_views(nodes@)[(#[trigger] cs[k]) as int].parent == Some(
                        node,
                    ),
                moved(before, cs, new_parent) == moved(node_views(nodes@), cs.skip(i as int), new_parent),
                forall|n: int|
                    0 <= n < before.len() ==> same_kind(
                        (#[trigger] node_views(nodes@)[n]).data,
                        before[n].data,
                    ),
                forall|k: int| 0 <= k < cs.len() ==> (#[trigger] cs[k]) < before.len(),
                forall|k: int|
                    0 <= k < cs.len() ==> can_hang_under(
                        before[(#[trigger] cs[k]) as int].data,
                        before[new_parent as int].data,
                    ),
                node != new_parent ==> node_views(nodes@)[node as int].children == cs.skip(i as int),
            decreases count - i,
        {
            let c = list[i];
            let ghost current = node_views(nodes@);
            proof {
                lemma_detached(current, c);
                assert(cs.skip(i as int)[0] == c);
                assert(cs.skip(i as int).drop_first() =~= cs.skip(i as int + 1));
                if node != new_parent {
                    let rest = cs.skip(i as int);
                    assert(rest.contains(c));
                    lemma_child_of_parent_only(current, node, c);
                    let at = rest.index_of(c);
                    assert(rest[at] == c);
                    assert(rest[0] == c);
                    assert(at == 0) by {
                        if at != 0 {
                            assert(cs[i as int + at] == cs[i as int]);
                        }
                    }
                    assert(rest.remove(0) =~= cs.skip(i as int + 1));
                }
            }
            proof {
                assert(current[c as int].parent == Some(node));
                if node == new_parent {
                    lemma_not_under_child(current, node, c);
                } else if under(current, new_parent, c) {
                    lemma_under_parent(current, new_parent, c, node);
                }
                lemma_detached_acyclic(current, c);
            }
            detach(&mut nodes, c);
            let ghost free = node_views(nodes@);
            let end = nodes[new_parent].children.len();
            proof {
                lemma_attached(free, new_parent, end as int, c);
                lemma_attached_acyclic(free, new_parent, end as int, c);
                assert forall|k: int| i + 1 <= k < cs.len() implies attached(
                    free,
                    new_parent,
                    end as int,
                    c,
                )[(#[trigger] cs[k]) as int].parent == Some(node) by {
                    assert(cs[k] != cs[i as int]);
                    assert(free[cs[k] as int].parent == current[cs[k] as int].parent);
                }
            }
            attach(&mut nodes, new_parent, end, c);
            i = i + 1;
        }
        proof {
            assert(cs.skip(count as int) =~= Seq::<usize>::empty());
        }
        *self = Dom { nodes };
    }
}

} // verus!
