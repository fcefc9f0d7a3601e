//! The document that XPath expressions are applied to.
//!
//! The tree of a page is copied into a document of `sxd_document`, node by
//! node in document order, by the calls with which that crate builds
//! documents. What the document then holds is told as plain values: its nodes
//! in document order, each with its depth below the root.

use vstd::prelude::*;

use crate::dom::{
    AttributeView, Data, DataView, Dom, Element, ElementView, NameView, NodeView, XHTML_NAMESPACE,
    XHTML_PREFIX,
};

verus! {

#[verifier::external_type_specification]
#[verifier::external_body]
pub struct ExPackage(sxd_document::Package);

/// An element as a document holds it.
pub struct XmlElement {
    pub name: NameView,
    /// The namespace prefixes that the element binds.
    pub prefixes: Map<Seq<char>, Seq<char>>,
    pub default_namespace: Option<Seq<char>>,
    /// The attributes in their order, no two of one name.
    pub attributes: Seq<AttributeView>,
}

/// What a node of a document is.
pub enum XmlData {
    Element(XmlElement),
    Text(Seq<char>),
    Comment(Seq<char>),
    ProcessingInstruction(Seq<char>, Seq<char>),
}

/// A node of a document at its depth: the children of the root have depth one.
pub struct XmlItem {
    pub depth: nat,
    pub data: XmlData,
}

/// What a document of `sxd_document` holds under its root: the nodes in
/// document order, a node before what hangs under it and children in their
/// order, each with its depth.
pub uninterp spec fn package_items(package: sxd_document::Package) -> Seq<XmlItem>;

/// The place of the last node at `depth`; minus one where there is none.
pub open spec fn last_at(items: Seq<XmlItem>, depth: nat) -> int
    decreases items.len(),
{
    if items.len() == 0 {
        -1
    } else if items.last().depth == depth {
        items.len() - 1
    } else {
        last_at(items.drop_last(), depth)
    }
}

/// Whether the last node of the document has a node at `depth` above or at
/// itself, and that node is an element: a new last child can be put under it.
pub open spec fn open_element(items: Seq<XmlItem>, depth: nat) -> bool {
    &&& items.len() > 0
    &&& 1 <= depth <= items.last().depth
    &&& 0 <= last_at(items, depth) < items.len()
    &&& items[last_at(items, depth)].data is Element
}

/// Whether no element hangs directly under the root.
pub open spec fn top_element_free(items: Seq<XmlItem>) -> bool {
    forall|k: int| 0 <= k < items.len() && (#[trigger] items[k]).depth == 1 ==> !(items[k].data is Element)
}

/// An element that was just made: it has its name and nothing else.
pub open spec fn bare(name: NameView) -> XmlElement {
    XmlElement { name, prefixes: Map::empty(), default_namespace: None, attributes: Seq::empty() }
}

/// The document with its last node replaced.
pub open spec fn with_last(items: Seq<XmlItem>, data: XmlData) -> Seq<XmlItem> {
    items.update(items.len() - 1, XmlItem { depth: items.last().depth, data })
}

/// The attributes of an element after one was set: attributes of that name
/// are taken out, and the new one comes last.
pub open spec fn attribute_set(attributes: Seq<AttributeView>, a: AttributeView) -> Seq<AttributeView> {
    attributes.filter(|x: AttributeView| x.name != a.name).push(a)
}

/// The name of `sxd_document` for a namespace that may be absent and a local
/// part.
pub open spec fn name_of(namespace: Option<&str>, local: &str) -> NameView {
    NameView {
        namespace: match namespace {
            Some(n) => Some(n@),
            None => None,
        },
        local: local@,
    }
}

/// Calls `Package::new` of `sxd_document`: a document that holds nothing.
#[verifier::external_body]
fn new_package() -> (r: sxd_document::Package)
    ensures
        package_items(r) == Seq::<XmlItem>::empty(),
{
    sxd_document::Package::new()
}

/// Calls `Document::create_element` and `Root::append_child` of
/// `sxd_document`: a new element as the last child of the root. A root takes one
/// element only, so none may hang there yet.
#[verifier::external_body]
fn add_top_element(package: &mut sxd_document::Package, namespace: Option<&str>, local: &str)
    requires
        top_element_free(package_items(*old(package))),
    ensures
        package_items(*final(package)) == package_items(*old(package)).push(
            XmlItem { depth: 1, data: XmlData::Element(bare(name_of(namespace, local))) },
        ),
{
    let document = package.as_document();
    let name = sxd_document::QName::with_namespace_uri(namespace, local);
    document.root().append_child(document.create_element(name));
}

/// Calls `Document::create_comment` and `Root::append_child` of
/// `sxd_document`: a new comment as the last child of the root.
#[verifier::external_body]
fn add_top_comment(package: &mut sxd_document::Package, text: &str)
    ensures
        package_items(*final(package)) == package_items(*old(package)).push(
            XmlItem { depth: 1, data: XmlData::Comment(text@) },
        ),
{
    let document = package.as_document();
    document.root().append_child(document.create_comment(text));
}

/// Calls `Document::create_processing_instruction` and `Root::append_child`
/// of `sxd_document`: a new processing instruction as the last child of the root.
#[verifier::external_body]
fn add_top_processing_instruction(package: &mut sxd_document::Package, target: &str, data: &str)
    ensures
        package_items(*final(package)) == package_items(*old(package)).push(
            XmlItem { depth: 1, data: XmlData::ProcessingInstruction(target@, data@) },
        ),
{
    let document = package.as_document();
    document.root().append_child(document.create_processing_instruction(target, Some(data)));
}

/// Calls `Document::create_element` and `Element::append_child` of
/// `sxd_document`: a new element as the last child of the element that is
/// found from the last child of the root by going `below` times to the last
/// child. That element must be there.
#[verifier::external_body]
fn add_element(package: &mut sxd_document::Package, below: usize, namespace: Option<&str>, local: &str)
    requires
        open_element(package_items(*old(package)), (below + 1) as nat),
    ensures
        package_items(*final(package)) == package_items(*old(package)).push(
            XmlItem { depth: (below + 2) as nat, data: XmlData::Element(bare(name_of(namespace, local))) },
        ),
{
    let document = package.as_document();
    let top = document.root().children().last().copied().map(sxd_document::dom::ChildOfElement::from);
    let mut path = std::iter::successors(top, |n| n.element().and_then(|e| e.children().last().copied()));
    if let Some(parent) = path.nth(below).and_then(|n| n.element()) {
        let name = sxd_document::QName::with_namespace_uri(namespace, local);
        parent.append_child(document.create_element(name));
    }
}

/// Calls `Document::create_text` and `Element::append_child` of
/// `sxd_document`: a new text as the last child of the element that is found as
/// in `add_element`.
#[verifier::external_body]
fn add_text(package: &mut sxd_document::Package, below: usize, text: &str)
    requires
        open_element(package_items(*old(package)), (below + 1) as nat),
    ensures
        package_items(*final(package)) == package_items(*old(package)).push(
            XmlItem { depth: (below + 2) as nat, data: XmlData::Text(text@) },
        ),
{
    let document = package.as_document();
    let top = document.root().children().last().copied().map(sxd_document::dom::ChildOfElement::from);
    let mut path = std::iter::successors(top, |n| n.element().and_then(|e| e.children().last().copied()));
    if let Some(parent) = path.nth(below).and_then(|n| n.element()) {
        parent.append_child(document.create_text(text));
    }
}

/// Calls `Document::create_comment` and `Element::append_child` of
/// `sxd_document`: a new comment as the last child of the element that is found
/// as in `add_element`.
#[verifier::external_body]
fn add_comment(package: &mut sxd_document::Package, below: usize, text: &str)
    requires
        open_element(package_items(*old(package)), (below + 1) as nat),
    ensures
        package_items(*final(package)) == package_items(*old(package)).push(
            XmlItem { depth: (below + 2) as nat, data: XmlData::Comment(text@) },
        ),
{
    let document = package.as_document();
    let top = document.root().children().last().copied().map(sxd_document::dom::ChildOfElement::from);
    let mut path = std::iter::successors(top, |n| n.element().and_then(|e| e.children().last().copied()));
    if let Some(parent) = path.nth(below).and_then(|n| n.element()) {
        parent.append_child(document.create_comment(text));
    }
}

/// Calls `Document::create_processing_instruction` and `Element::append_child`
/// of `sxd_document`: a new processing instruction as the last child of the
/// element that is found as in `add_element`.
#[verifier::external_body]
fn add_processing_instruction(package: &mut sxd_document::Package, below: usize, target: &str, data: &str)
    requires
        open_element(package_items(*old(package)), (below + 1) as nat),
    ensures
        package_items(*final(package)) == package_items(*old(package)).push(
            XmlItem { depth: (below + 2) as nat, data: XmlData::ProcessingInstruction(target@, data@) },
        ),
{
    let document = package.as_document();
    let top = document.root().children().last().copied().map(sxd_document::dom::ChildOfElement::from);
    let mut path = std::iter::successors(top, |n| n.element().and_then(|e| e.children().last().copied()));
    if let Some(parent) = path.nth(below).and_then(|n| n.element()) {
        parent.append_child(document.create_processing_instruction(target, Some(data)));
    }
}

/// Calls `Element::set_attribute_value` of `sxd_document` on the last node of
/// the document, which must be an element: attributes of that name are taken
/// out, and the new one comes last.
#[verifier::external_body]
fn set_attribute(package: &mut sxd_document::Package, namespace: Option<&str>, local: &str, value: &str)
    requires
        package_items(*old(package)).len() > 0,
        package_items(*old(package)).last().data is Element,
    ensures
        package_items(*final(package)) == with_last(
            package_items(*old(package)),
            XmlData::Element(
                XmlElement {
                    attributes: attribute_set(
                        package_items(*old(package)).last().data->Element_0.attributes,
                        AttributeView { name: name_of(namespace, local), value: value@ },
                    ),
                    ..package_items(*old(package)).last().data->Element_0
                },
            ),
        ),
{
    let document = package.as_document();
    let top = document.root().children().last().copied().map(sxd_document::dom::ChildOfElement::from);
    let path = std::iter::successors(top, |n| n.element().and_then(|e| e.children().last().copied()));
    if let Some(element) = path.last().and_then(|n| n.element()) {
        element.set_attribute_value(sxd_document::QName::with_namespace_uri(namespace, local), value);
    }
}

/// Calls `Element::register_prefix` of `sxd_document` on the last node of the
/// document, which must be an element: the prefix is bound to the namespace.
#[verifier::external_body]
fn register_prefix(package: &mut sxd_document::Package, prefix: &str, uri: &str)
    requires
        package_items(*old(package)).len() > 0,
        package_items(*old(package)).last().data is Element,
    ensures
        package_items(*final(package)) == with_last(
            package_items(*old(package)),
            XmlData::Element(
                XmlElement {
                    prefixes: package_items(*old(package)).last().data->Element_0.prefixes.insert(
                        prefix@,
                        uri@,
                    ),
                    ..package_items(*old(package)).last().data->Element_0
                },
            ),
        ),
{
    let document = package.as_document();
    let top = document.root().children().last().copied().map(sxd_document::dom::ChildOfElement::from);
    let path = std::iter::successors(top, |n| n.element().and_then(|e| e.children().last().copied()));
    if let Some(element) = path.last().and_then(|n| n.element()) {
        element.register_prefix(prefix, uri);
    }
}

/// Calls `Element::set_default_namespace_uri` of `sxd_document` on the last
/// node of the document, which must be an element.
#[verifier::external_body]
fn set_default_namespace(package: &mut sxd_document::Package, uri: &str)
    requires
        package_items(*old(package)).len() > 0,
        package_items(*old(package)).last().data is Element,
    ensures
        package_items(*final(package)) == with_last(
            package_items(*old(package)),
            XmlData::Element(
                XmlElement {
                    default_namespace: Some(uri@),
                    ..package_items(*old(package)).last().data->Element_0
                },
            ),
        ),
{
    let document = package.as_document();
    let top = document.root().children().last().copied().map(sxd_document::dom::ChildOfElement::from);
    let path = std::iter::successors(top, |n| n.element().and_then(|e| e.children().last().copied()));
    if let Some(element) = path.last().and_then(|n| n.element()) {
        element.set_default_namespace_uri(Some(uri));
    }
}

/// The attributes that a document has for an element with the attributes
/// `attributes`: each is set in turn.
pub open spec fn copied_attributes(attributes: Seq<AttributeView>) -> Seq<AttributeView>
    decreases attributes.len(),
{
    if attributes.len() == 0 {
        Seq::empty()
    } else {
        attribute_set(copied_attributes(attributes.drop_last()), attributes.last())
    }
}

/// The prefixes that a document has for an element of the tree: the prefix
/// that the element was written with, and `html` for the XHTML namespace
/// where the element makes that namespace its default.
pub open spec fn copied_prefixes(e: ElementView) -> Map<Seq<char>, Seq<char>> {
    let own = match e.prefix {
        Some((prefix, uri)) => Map::<Seq<char>, Seq<char>>::empty().insert(prefix, uri),
        None => Map::<Seq<char>, Seq<char>>::empty(),
    };
    if e.xhtml_default {
        own.insert(XHTML_PREFIX@, XHTML_NAMESPACE@)
    } else {
        own
    }
}

/// The element that a document has for an element of the tree.
pub open spec fn copied_element(e: ElementView) -> XmlElement {
    XmlElement {
        name: e.name,
        prefixes: copied_prefixes(e),
        default_namespace: if e.xhtml_default {
            Some(XHTML_NAMESPACE@)
        } else {
            None
        },
        attributes: copied_attributes(e.attributes),
    }
}

/// What a document has for the node `i` of the tree at `depth` and for all that
/// hangs under it, in document order. A root has no place in a document but
/// at its top. `fuel` bounds how far down the tree is followed.
pub open spec fn copied(nodes: Seq<NodeView>, i: usize, depth: nat, fuel: nat) -> Seq<XmlItem>
    decreases fuel, 0nat,
{
    if fuel == 0 || i >= nodes.len() {
        Seq::empty()
    } else {
        match nodes[i as int].data {
            DataView::Root => Seq::empty(),
            DataView::Text(text) => seq![XmlItem { depth, data: XmlData::Text(text) }],
            DataView::Comment(text) => seq![XmlItem { depth, data: XmlData::Comment(text) }],
            DataView::ProcessingInstruction(target, data) => seq![
                XmlItem { depth, data: XmlData::ProcessingInstruction(target, data) },
            ],
            DataView::Element(e) => seq![
                XmlItem { depth, data: XmlData::Element(copied_element(e)) },
            ] + copied_all(nodes, nodes[i as int].children, depth + 1, (fuel - 1) as nat),
        }
    }
}

/// What a document has for the nodes `children` of the tree and for all that
/// hangs under them, one after the other.
pub open spec fn copied_all(nodes: Seq<NodeView>, children: Seq<usize>, depth: nat, fuel: nat) -> Seq<
    XmlItem,
>
    decreases fuel, children.len() + 1,
{
    if children.len() == 0 {
        Seq::empty()
    } else {
        copied_all(nodes, children.drop_last(), depth, fuel) + copied(
            nodes,
            children.last(),
            depth,
            fuel,
        )
    }
}

/// The place among `children` of the last element; minus one where there is
/// none.
pub open spec fn last_element(nodes: Seq<NodeView>, children: Seq<usize>) -> int
    decreases children.len(),
{
    if children.len() == 0 {
        -1
    } else if children.last() < nodes.len() && nodes[children.last() as int].data is Element {
        children.len() - 1
    } else {
        last_element(nodes, children.drop_last())
    }
}

/// What a document has for the first `n` children of the document node of the
/// tree. A root of `sxd_document` holds one element only, the last that was
/// put there: of the elements only the one at the place `keep` is copied.
pub open spec fn copied_top(nodes: Seq<NodeView>, children: Seq<usize>, n: int, keep: int) -> Seq<XmlItem>
    decreases n,
{
    if n <= 0 || n > children.len() {
        Seq::empty()
    } else {
        let c = children[n - 1];
        let before = copied_top(nodes, children, n - 1, keep);
        if c < nodes.len() && (nodes[c as int].data is Element ==> n - 1 == keep) && !(
        nodes[c as int].data is Text) {
            before + copied(nodes, c, 1, nodes.len())
        } else {
            before
        }
    }
}

/// What the document holds that is made of the tree of a page: what hangs
/// under the document node of the tree, in document order.
pub open spec fn tree_items(nodes: Seq<NodeView>) -> Seq<XmlItem> {
    copied_top(
        nodes,
        nodes[0].children,
        nodes[0].children.len() as int,
        last_element(nodes, nodes[0].children),
    )
}

/// Nodes at other depths that come after it do not change which node is the
/// last at a depth.
proof fn lemma_last_at_tail(items: Seq<XmlItem>, tail: Seq<XmlItem>, depth: nat)
    requires
        forall|k: int| 0 <= k < tail.len() ==> (#[trigger] tail[k]).depth != depth,
    ensures
        last_at(items + tail, depth) == last_at(items, depth),
    decreases tail.len(),
{
    if tail.len() == 0 {
        assert(items + tail =~= items);
    } else {
        assert((items + tail).drop_last() =~= items + tail.drop_last());
        assert((items + tail).last() == tail.last());
        lemma_last_at_tail(items, tail.drop_last(), depth);
    }
}

/// Nothing that is copied at a depth stands above that depth.
proof fn lemma_copied_depths(nodes: Seq<NodeView>, i: usize, depth: nat, fuel: nat)
    ensures
        forall|k: int|
            0 <= k < copied(nodes, i, depth, fuel).len() ==> (#[trigger] copied(
                nodes,
                i,
                depth,
                fuel,
            )[k]).depth >= depth,
    decreases fuel, 0nat,
{
    if fuel > 0 && i < nodes.len() {
        if nodes[i as int].data is Element {
            lemma_copied_all_depths(nodes, nodes[i as int].children, depth + 1, (fuel - 1) as nat);
        }
    }
}

/// Nothing that is copied for a run of nodes at a depth stands above that
/// depth.
proof fn lemma_copied_all_depths(nodes: Seq<NodeView>, children: Seq<usize>, depth: nat, fuel: nat)
    ensures
        forall|k: int|
            0 <= k < copied_all(nodes, children, depth, fuel).len() ==> (#[trigger] copied_all(
                nodes,
                children,
                depth,
                fuel,
            )[k]).depth >= depth,
    decreases fuel, children.len() + 1,
{
    if children.len() > 0 {
        lemma_copied_all_depths(nodes, children.drop_last(), depth, fuel);
        lemma_copied_depths(nodes, children.last(), depth, fuel);
    }
}

/// Where the tree is followed no further, nothing is copied.
proof fn lemma_copied_all_without_fuel(nodes: Seq<NodeView>, children: Seq<usize>, depth: nat)
    ensures
        copied_all(nodes, children, depth, 0) == Seq::<XmlItem>::empty(),
    decreases children.len(),
{
    if children.len() > 0 {
        lemma_copied_all_without_fuel(nodes, children.drop_last(), depth);
        assert(copied(nodes, children.last(), depth, 0) =~= Seq::<XmlItem>::empty());
        assert(copied_all(nodes, children, depth, 0) =~= Seq::<XmlItem>::empty());
    }
}

/// The text of a string that may be absent.
fn as_option_str(text: &Option<String>) -> (r: Option<&str>)
    ensures
        r is Some <==> text is Some,
        r matches Some(s) ==> s@ == text->0@,
{
    match text {
        Some(t) => Some(t.as_str()),
        None => None,
    }
}

/// Gives the element that was just made as the last node of the document what
/// the element of the tree has: the prefix it was written with, its attributes
/// in order, and the XHTML namespace as its default where the tree says so.
fn copy_element(package: &mut sxd_document::Package, element: &Element)
    requires
        package_items(*old(package)).len() > 0,
        package_items(*old(package)).last().data == XmlData::Element(bare(element@.name)),
    ensures
        package_items(*final(package)) == with_last(
            package_items(*old(package)),
            XmlData::Element(copied_element(element@)),
        ),
{
    let ghost before = package_items(*package);
    let ghost depth = before.last().depth;
    match &element.prefix {
        Some((prefix, namespace)) => {
            register_prefix(package, prefix.as_str(), namespace.as_str());
        },
        None => {},
    }
    let ghost own = match element@.prefix {
        Some((prefix, uri)) => Map::<Seq<char>, Seq<char>>::empty().insert(prefix, uri),
        None => Map::<Seq<char>, Seq<char>>::empty(),
    };
    let mut i: usize = 0;
    while i < element.attributes.len()
        invariant
            i <= element.attributes@.len(),
            package_items(*package) == with_last(
                before,
                XmlData::Element(
                    XmlElement {
                        prefixes: own,
                        attributes: copied_attributes(element@.attributes.take(i as int)),
                        ..bare(element@.name)
                    },
                ),
            ),
            before.len() > 0,
        decreases element.attributes@.len() - i,
    {
        let attribute = &element.attributes[i];
        proof {
            assert(element@.attributes.take(i as int + 1).drop_last() =~= element@.attributes.take(
                i as int,
            ));
            assert(element@.attributes.take(i as int + 1).last() == attribute@);
        }
        let namespace = as_option_str(&attribute.name.namespace);
        let local = attribute.name.local.as_str();
        proof {
            assert(name_of(namespace, local) == attribute@.name);
        }
        set_attribute(package, namespace, local, attribute.value.as_str());
        i = i + 1;
    }
    proof {
        assert(element@.attributes.take(element@.attributes.len() as int) =~= element@.attributes);
    }
    if element.xhtml_default {
        register_prefix(package, XHTML_PREFIX, XHTML_NAMESPACE);
        set_default_namespace(package, XHTML_NAMESPACE);
    }
}

/// Copies the nodes `children` of the tree, and all that hangs under them,
/// under the element that is the last node of the document at `depth`.
fn copy_children(
    package: &mut sxd_document::Package,
    dom: &Dom,
    children: &Vec<usize>,
    depth: usize,
    fuel: usize,
)
    requires
        package_items(*old(package)).len() > 0,
        package_items(*old(package)).last().depth == depth,
        package_items(*old(package)).last().data is Element,
        depth >= 1,
        depth + fuel <= dom@.len(),
        crate::dom::well_formed(dom@),
        forall|k: int| 0 <= k < children@.len() ==> (#[trigger] children@[k]) < dom@.len(),
    ensures
        package_items(*final(package)) == package_items(*old(package)) + copied_all(
            dom@,
            children@,
            (depth + 1) as nat,
            fuel as nat,
        ),
    decreases fuel, 1nat,
{
    let ghost before = package_items(*package);
    if fuel == 0 {
        proof {
            lemma_copied_all_without_fuel(dom@, children@, (depth + 1) as nat);
            assert(before + Seq::<XmlItem>::empty() =~= before);
        }
        return ;
    }
    let mut k: usize = 0;
    proof {
        assert(before + copied_all(dom@, children@.take(0), (depth + 1) as nat, fuel as nat)
            =~= before);
    }
    while k < children.len()
        invariant
            k <= children@.len(),
            before.len() > 0,
            before.last().depth == depth,
            before.last().data is Element,
            depth >= 1,
            fuel >= 1,
            depth + fuel <= dom@.len(),
            crate::dom::well_formed(dom@),
            forall|j: int| 0 <= j < children@.len() ==> (#[trigger] children@[j]) < dom@.len(),
            package_items(*package) == before + copied_all(
                dom@,
                children@.take(k as int),
                (depth + 1) as nat,
                fuel as nat,
            ),
        decreases children@.len() - k,
    {
        let ghost done = copied_all(dom@, children@.take(k as int), (depth + 1) as nat, fuel as nat);
        proof {
            lemma_copied_all_depths(dom@, children@.take(k as int), (depth + 1) as nat, fuel as nat);
            lemma_last_at_tail(before, done, depth as nat);
            assert(last_at(before, depth as nat) == before.len() - 1);
            assert((before + done)[before.len() - 1] == before.last());
            if done.len() > 0 {
                assert((before + done).last() == done.last());
            } else {
                assert(before + done =~= before);
            }
            assert(children@.take(k as int + 1).drop_last() =~= children@.take(k as int));
            assert(children@.take(k as int + 1).last() == children@[k as int]);
        }
        copy_node(package, dom, children[k], depth + 1, fuel);
        proof {
            assert(before + done + copied(dom@, children@[k as int], (depth + 1) as nat, fuel as nat)
                =~= before + (done + copied(
                dom@,
                children@[k as int],
                (depth + 1) as nat,
                fuel as nat,
            )));
        }
        k = k + 1;
    }
    proof {
        assert(children@.take(children@.len() as int) =~= children@);
    }
}

/// Copies the node `i` of the tree, and all that hangs under it, as the last
/// child of the element that stands at `depth - 1` above the last node of the
/// document.
fn copy_node(package: &mut sxd_document::Package, dom: &Dom, i: usize, depth: usize, fuel: usize)
    requires
        i < dom@.len(),
        depth >= 2,
        depth + fuel <= dom@.len() + 1,
        crate::dom::well_formed(dom@),
        open_element(package_items(*old(package)), (depth - 1) as nat),
    ensures
        package_items(*final(package)) == package_items(*old(package)) + copied(
            dom@,
            i,
            depth as nat,
            fuel as nat,
        ),
    decreases fuel, 0nat,
{
    let ghost before = package_items(*package);
    if fuel == 0 {
        proof {
            assert(before + Seq::<XmlItem>::empty() =~= before);
        }
        return ;
    }
    let node = dom.node(i);
    match &node.data {
        Data::Root => {
            proof {
                assert(before + Seq::<XmlItem>::empty() =~= before);
            }
        },
        Data::Text(text) => {
            add_text(package, depth - 2, text.as_str());
            proof {
                assert(before.push(XmlItem { depth: depth as nat, data: XmlData::Text(text@) })
                    =~= before + seq![XmlItem { depth: depth as nat, data: XmlData::Text(text@) }]);
            }
        },
        Data::Comment(text) => {
            add_comment(package, depth - 2, text.as_str());
            proof {
                assert(before.push(XmlItem { depth: depth as nat, data: XmlData::Comment(text@) })
                    =~= before + seq![XmlItem { depth: depth as nat, data: XmlData::Comment(text@) }]);
            }
        },
        Data::ProcessingInstruction(target, data) => {
            add_processing_instruction(package, depth - 2, target.as_str(), data.as_str());
            proof {
                let item = XmlItem {
                    depth: depth as nat,
                    data: XmlData::ProcessingInstruction(target@, data@),
                };
                assert(before.push(item) =~= before + seq![item]);
            }
        },
        Data::Element(element) => {
            let namespace = as_option_str(&element.name.namespace);
            let local = element.name.local.as_str();
            proof {
                assert(name_of(namespace, local) == element@.name);
            }
            add_element(package, depth - 2, namespace, local);
            copy_element(package, element);
            let ghost made = package_items(*package);
            let ghost item = XmlItem { depth: depth as nat, data: XmlData::Element(copied_element(element@)) };
            proof {
                assert(made =~= before.push(item));
                assert forall|k: int| 0 <= k < node.children@.len() implies (
                #[trigger] node.children@[k]) < dom@.len() by {
                    assert(dom@[i as int].children[k] < dom@.len());
                }
            }
            copy_children(package, dom, &node.children, depth, fuel - 1);
            proof {
                let rest = copied_all(dom@, node.children@, (depth + 1) as nat, (fuel - 1) as nat);
                assert(before.push(item) + rest =~= before + (seq![item] + rest));
            }
        },
    }
}

/// The place among `children` of the last element.
fn find_last_element(dom: &Dom, children: &Vec<usize>) -> (r: Option<usize>)
    requires
        forall|k: int| 0 <= k < children@.len() ==> (#[trigger] children@[k]) < dom@.len(),
    ensures
        match r {
            Some(k) => k == last_element(dom@, children@),
            None => last_element(dom@, children@) == -1,
        },
{
    let mut n: usize = children.len();
    proof {
        assert(children@.take(n as int) =~= children@);
    }
    while n > 0
        invariant
            n <= children@.len(),
            forall|k: int| 0 <= k < children@.len() ==> (#[trigger] children@[k]) < dom@.len(),
            last_element(dom@, children@) == last_element(dom@, children@.take(n as int)),
        decreases n,
    {
        let is_element = match &dom.node(children[n - 1]).data {
            Data::Element(_) => true,
            _ => false,
        };
        proof {
            assert(children@.take(n as int).last() == children@[n - 1]);
            assert(children@.take(n as int).drop_last() =~= children@.take(n as int - 1));
        }
        if is_element {
            return Some(n - 1);
        }
        n = n - 1;
    }
    None
}

/// The document of `sxd_document` that holds what the tree holds under its
/// document node.
pub(crate) fn to_package(dom: &Dom) -> (r: sxd_document::Package)
    ensures
        package_items(r) == tree_items(dom@),
{
    let mut package = new_package();
    let len = dom.len();
    let top = &dom.node(0).children;
    proof {
        assert forall|k: int| 0 <= k < top@.len() implies (#[trigger] top@[k]) < dom@.len() by {
            assert(dom@[0].children[k] < dom@.len());
        }
    }
    let keep = find_last_element(dom, top);
    let ghost kept = last_element(dom@, top@);
    let mut n: usize = 0;
    while n < top.len()
        invariant
            n <= top@.len(),
            len == dom@.len(),
            top@ == dom@[0].children,
            kept == last_element(dom@, top@),
            match keep {
                Some(k) => k == kept,
                None => kept == -1,
            },
            crate::dom::well_formed(dom@),
            forall|k: int| 0 <= k < top@.len() ==> (#[trigger] top@[k]) < dom@.len(),
            package_items(package) == copied_top(dom@, top@, n as int, kept),
            n <= kept ==> top_element_free(package_items(package)),
        decreases top@.len() - n,
    {
        let ghost before = package_items(package);
        let c = top[n];
        let node = dom.node(c);
        match &node.data {
            Data::Element(element) => {
                let kept_here = match keep {
                    Some(k) => k == n,
                    None => false,
                };
                if kept_here {
                    let namespace = as_option_str(&element.name.namespace);
                    let local = element.name.local.as_str();
                    proof {
                        assert(name_of(namespace, local) == element@.name);
                    }
                    add_top_element(&mut package, namespace, local);
                    copy_element(&mut package, element);
                    let ghost item = XmlItem { depth: 1, data: XmlData::Element(copied_element(element@)) };
                    proof {
                        assert(package_items(package) =~= before.push(item));
                        assert forall|k: int| 0 <= k < node.children@.len() implies (
                        #[trigger] node.children@[k]) < dom@.len() by {
                            assert(dom@[c as int].children[k] < dom@.len());
                        }
                    }
                    copy_children(&mut package, dom, &node.children, 1, len - 1);
                    proof {
                        let rest = copied_all(dom@, node.children@, 2, (len - 1) as nat);
                        assert(before.push(item) + rest =~= before + (seq![item] + rest));
                    }
                }
            },
            Data::Comment(text) => {
                add_top_comment(&mut package, text.as_str());
                proof {
                    let item = XmlItem { depth: 1, data: XmlData::Comment(text@) };
                    assert(before.push(item) =~= before + seq![item]);
                    if n + 1 <= kept {
                        assert(top_element_free(before.push(item)));
                    }
                }
            },
            Data::ProcessingInstruction(target, data) => {
                add_top_processing_instruction(&mut package, target.as_str(), data.as_str());
                proof {
                    let item = XmlItem {
                        depth: 1,
                        data: XmlData::ProcessingInstruction(target@, data@),
                    };
                    assert(before.push(item) =~= before + seq![item]);
                    if n + 1 <= kept {
                        assert(top_element_free(before.push(item)));
                    }
                }
            },
            Data::Text(_) => {},
            Data::Root => {
                proof {
                    assert(before + Seq::<XmlItem>::empty() =~= before);
                }
            },
        }
        n = n + 1;
    }
    package
}

/// A document that expressions are applied to.
pub struct Document {
    package: sxd_document::Package,
}

impl View for Document {
    type V = Seq<XmlItem>;

    closed spec fn view(&self) -> Seq<XmlItem> {
        package_items(self.package)
    }
}

impl Document {
    /// The document that holds what the tree of a page holds under its
    /// document node.
    pub fn from_tree(page: &Dom) -> (r: Document)
        ensures
            r@ == tree_items(page@),
    {
        Document { package: to_package(page) }
    }

    /// The document of `sxd_document` itself.
    pub(crate) fn package(&self) -> (r: &sxd_document::Package)
        ensures
            package_items(*r) == self@,
    {
        &self.package
    }
}

} // verus!
