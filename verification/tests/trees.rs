use feedgen::dom::{qual_name_to_qname, Data, Dom, NodeOrText, ParsedAttribute, QualifiedName};

fn name(local: &str) -> QualifiedName {
    QualifiedName {
        prefix: None,
        namespace: "http://www.w3.org/1999/xhtml".to_string(),
        local: local.to_string(),
    }
}

fn attribute(local: &str, value: &str) -> ParsedAttribute {
    ParsedAttribute {
        name: QualifiedName { prefix: None, namespace: String::new(), local: local.to_string() },
        value: value.to_string(),
    }
}

fn element(dom: &mut Dom, local: &str) -> usize {
    dom.create_element(name(local), vec![], false, false)
}

fn text(s: &str) -> NodeOrText {
    NodeOrText::Text(s.to_string())
}

fn texts(dom: &Dom, id: usize) -> Vec<String> {
    dom.node(id)
        .children
        .iter()
        .map(|&c| match &dom.node(c).data {
            Data::Text(t) => format!("'{t}'"),
            Data::Element(e) => e.name.local.clone(),
            Data::Comment(c) => format!("<!--{c}-->"),
            Data::ProcessingInstruction(t, d) => format!("<?{t} {d}?>"),
            Data::Root => "root".to_string(),
        })
        .collect()
}

#[test]
fn a_new_tree_holds_the_document_only() {
    let dom = Dom::new();
    assert_eq!(dom.len(), 1);
    assert_eq!(dom.get_document(), 0);
    assert!(matches!(dom.node(0).data, Data::Root));
    assert_eq!(dom.node(0).parent, None);
    assert!(dom.node(0).children.is_empty());
    assert!(dom.same_node(0, 0));
    assert!(!dom.same_node(0, 1));
}

#[test]
fn names_without_a_namespace_have_none() {
    let plain = qual_name_to_qname(&QualifiedName {
        prefix: None,
        namespace: String::new(),
        local: "href".to_string(),
    });
    assert_eq!((plain.namespace, plain.local.as_str()), (None, "href"));
    let html = qual_name_to_qname(&name("a"));
    assert_eq!(html.namespace.as_deref(), Some("http://www.w3.org/1999/xhtml"));
}

#[test]
fn text_that_follows_text_is_one_node() {
    let mut dom = Dom::new();
    let p = element(&mut dom, "p");
    dom.append(p, text("a"));
    dom.append(p, text("b"));
    assert_eq!(texts(&dom, p), vec!["'ab'"]);
    let b = element(&mut dom, "b");
    dom.append(p, NodeOrText::Node(b));
    dom.append(p, text("c"));
    dom.append(p, text(""));
    dom.append(p, text("d"));
    assert_eq!(texts(&dom, p), vec!["'ab'", "b", "'cd'"]);
    assert_eq!(dom.len(), 5);
}

#[test]
fn the_element_under_the_document_gets_the_default_namespace() {
    let mut dom = Dom::new();
    let html = element(&mut dom, "html");
    let body = element(&mut dom, "body");
    assert!(matches!(&dom.node(html).data, Data::Element(e) if !e.xhtml_default));
    dom.append(0, NodeOrText::Node(html));
    dom.append(html, NodeOrText::Node(body));
    assert!(matches!(&dom.node(html).data, Data::Element(e) if e.xhtml_default));
    assert!(matches!(&dom.node(body).data, Data::Element(e) if !e.xhtml_default));
    assert_eq!(dom.node(html).parent, Some(0));
    assert_eq!(dom.node(body).parent, Some(html));
}

#[test]
fn a_node_is_put_before_its_sibling() {
    let mut dom = Dom::new();
    let p = element(&mut dom, "p");
    let a = element(&mut dom, "a");
    let b = element(&mut dom, "b");
    let c = element(&mut dom, "c");
    dom.append(p, NodeOrText::Node(a));
    dom.append(p, NodeOrText::Node(c));
    dom.append_before_sibling(c, NodeOrText::Node(b));
    assert_eq!(texts(&dom, p), vec!["a", "b", "c"]);
    // A node that hangs under the same parent is moved.
    dom.append_before_sibling(a, NodeOrText::Node(c));
    assert_eq!(texts(&dom, p), vec!["c", "a", "b"]);
    // Text before a sibling is merged into the text before it.
    dom.append_before_sibling(a, text("x"));
    dom.append_before_sibling(a, text("y"));
    assert_eq!(texts(&dom, p), vec!["c", "'xy'", "a", "b"]);
    dom.append_before_sibling(c, text("z"));
    assert_eq!(texts(&dom, p), vec!["'z'", "c", "'xy'", "a", "b"]);
}

#[test]
fn the_place_depends_on_whether_the_element_hangs_somewhere() {
    let mut dom = Dom::new();
    let table = element(&mut dom, "table");
    let div = element(&mut dom, "div");
    dom.append_based_on_parent_node(table, div, text("a"));
    assert_eq!(texts(&dom, div), vec!["'a'"]);
    dom.append(div, NodeOrText::Node(table));
    dom.append_based_on_parent_node(table, div, text("b"));
    assert_eq!(texts(&dom, div), vec!["'ab'", "table"]);
}

#[test]
fn a_node_is_taken_from_its_parent() {
    let mut dom = Dom::new();
    let p = element(&mut dom, "p");
    let a = element(&mut dom, "a");
    let b = element(&mut dom, "b");
    dom.append(p, NodeOrText::Node(a));
    dom.append(p, NodeOrText::Node(b));
    dom.remove_from_parent(a);
    assert_eq!(texts(&dom, p), vec!["b"]);
    assert_eq!(dom.node(a).parent, None);
    dom.remove_from_parent(a);
    dom.remove_from_parent(0);
    assert_eq!(texts(&dom, p), vec!["b"]);
    // Appending a node that hangs somewhere moves it.
    let q = element(&mut dom, "q");
    dom.append(q, NodeOrText::Node(b));
    assert!(texts(&dom, p).is_empty());
    assert_eq!(texts(&dom, q), vec!["b"]);
}

#[test]
fn children_are_moved_to_a_new_parent_in_their_order() {
    let mut dom = Dom::new();
    let from = element(&mut dom, "from");
    let to = element(&mut dom, "to");
    let x = element(&mut dom, "x");
    dom.append(to, NodeOrText::Node(x));
    for local in ["a", "b", "c"] {
        let child = element(&mut dom, local);
        dom.append(from, NodeOrText::Node(child));
    }
    dom.append(from, text("t"));
    dom.reparent_children(from, to);
    assert!(texts(&dom, from).is_empty());
    assert_eq!(texts(&dom, to), vec!["x", "a", "b", "c", "'t'"]);
    for &child in &dom.node(to).children {
        assert_eq!(dom.node(child).parent, Some(to));
    }
    dom.reparent_children(to, to);
    assert_eq!(texts(&dom, to), vec!["x", "a", "b", "c", "'t'"]);
    dom.reparent_children(from, to);
    assert_eq!(texts(&dom, to), vec!["x", "a", "b", "c", "'t'"]);
}

#[test]
fn attributes_are_set_in_order_and_added_where_missing() {
    let mut dom = Dom::new();
    let a = dom.create_element(
        name("a"),
        vec![attribute("href", "/1"), attribute("class", "x"), attribute("href", "/2")],
        false,
        true,
    );
    let seen = |dom: &Dom| -> Vec<(String, String)> {
        match &dom.node(a).data {
            Data::Element(e) => e.attributes.iter().map(|x| (x.name.local.clone(), x.value.clone())).collect(),
            _ => unreachable!(),
        }
    };
    let pair = |k: &str, v: &str| (k.to_string(), v.to_string());
    assert_eq!(seen(&dom), vec![pair("href", "/2"), pair("class", "x")]);
    dom.add_attrs_if_missing(a, vec![attribute("class", "y"), attribute("id", "i"), attribute("id", "j")]);
    assert_eq!(seen(&dom), vec![pair("href", "/2"), pair("class", "x"), pair("id", "i")]);
    assert_eq!(dom.elem_name(a).local, "a");
    assert!(dom.is_mathml_annotation_xml_integration_point(a));
    assert!(!dom.is_mathml_annotation_xml_integration_point(0));
}

#[test]
fn a_template_gets_a_root_for_its_contents() {
    let mut dom = Dom::new();
    let template = dom.create_element(name("template"), vec![], true, false);
    assert_eq!(template, 2);
    let contents = dom.get_template_contents(template);
    assert_eq!(contents, 1);
    assert!(matches!(dom.node(contents).data, Data::Root));
    let p = element(&mut dom, "p");
    dom.append(contents, NodeOrText::Node(p));
    assert_eq!(texts(&dom, contents), vec!["p"]);
    assert!(dom.node(template).children.is_empty());
    assert!(dom.node(0).children.is_empty());
}

#[test]
fn comments_and_processing_instructions_are_kept_and_the_doctype_is_not() {
    let mut dom = Dom::new();
    let comment = dom.create_comment("note".to_string());
    let pi = dom.create_pi("xml-stylesheet".to_string(), "href=\"a.css\"".to_string());
    dom.append(0, NodeOrText::Node(comment));
    dom.append(0, NodeOrText::Node(pi));
    let before = format!("{dom:?}");
    dom.append_doctype_to_document("html", "", "");
    dom.set_quirks_mode(feedgen::dom::QuirksMode::Quirks);
    assert_eq!(format!("{dom:?}"), before);
    assert_eq!(texts(&dom, 0), vec!["<!--note-->", "<?xml-stylesheet href=\"a.css\"?>"]);
}

#[test]
fn a_prefix_is_kept_with_its_namespace() {
    let mut dom = Dom::new();
    let svg = dom.create_element(
        QualifiedName {
            prefix: Some("svg".to_string()),
            namespace: "http://www.w3.org/2000/svg".to_string(),
            local: "circle".to_string(),
        },
        vec![],
        false,
        false,
    );
    match &dom.node(svg).data {
        Data::Element(e) => {
            assert_eq!(e.prefix, Some(("svg".to_string(), "http://www.w3.org/2000/svg".to_string())));
            assert_eq!(e.template, None);
        }
        _ => unreachable!(),
    }
}

#[test]
fn a_node_is_within_itself_and_within_what_it_hangs_under() {
    let mut dom = Dom::new();
    let a = element(&mut dom, "a");
    let b = element(&mut dom, "b");
    let c = element(&mut dom, "c");
    let loose = element(&mut dom, "loose");
    dom.append(0, NodeOrText::Node(a));
    dom.append(a, NodeOrText::Node(b));
    dom.append(b, NodeOrText::Node(c));
    assert!(dom.is_within(c, c));
    assert!(dom.is_within(c, b));
    assert!(dom.is_within(c, a));
    assert!(dom.is_within(c, 0));
    assert!(!dom.is_within(a, c));
    assert!(!dom.is_within(b, c));
    assert!(!dom.is_within(loose, a));
    assert!(!dom.is_within(c, loose));
    dom.remove_from_parent(b);
    assert!(dom.is_within(c, b));
    assert!(!dom.is_within(c, a));
}
