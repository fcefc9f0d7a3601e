use std::borrow::Cow;
use std::collections::HashMap;

use feedgen::config::types::DateTimeFormat;
use feedgen::config::XPathExtractorConfig;
use feedgen::dom::{Data, Dom, NodeOrText, ParsedAttribute, QualifiedName};
use feedgen::extractor::xpath::{ExtractError, XPathExtractor};
use feedgen::extractor::{BadEntry, Context, Extraction, Field, Reason};
use feedgen::url::Url;
use feedgen::document::Document;
use feedgen::xpath::{is_ordered, ValueKind, XPath, XPathValue};
use html5ever::tendril::{StrTendril, TendrilSink};
use html5ever::tree_builder::{ElementFlags, NodeOrText as Parsed, QuirksMode, TreeBuilderOpts, TreeSink};
use html5ever::{parse_document, Attribute, ExpandedName, ParseOpts, QualName};

struct Sink {
    dom: Dom,
    names: HashMap<usize, QualName>,
}

fn qualified(name: &QualName) -> QualifiedName {
    QualifiedName {
        prefix: name.prefix.as_ref().map(|p| p.to_string()),
        namespace: name.ns.to_string(),
        local: name.local.to_string(),
    }
}

fn parsed_attributes(attrs: Vec<Attribute>) -> Vec<ParsedAttribute> {
    attrs
        .into_iter()
        .map(|a| ParsedAttribute { name: qualified(&a.name), value: a.value.to_string() })
        .collect()
}

fn handed_over(child: Parsed<usize>) -> NodeOrText {
    match child {
        Parsed::AppendNode(id) => NodeOrText::Node(id),
        Parsed::AppendText(text) => NodeOrText::Text(text.to_string()),
    }
}

impl TreeSink for Sink {
    type Handle = usize;
    type Output = Dom;

    fn finish(self) -> Dom {
        self.dom
    }

    fn parse_error(&mut self, _msg: Cow<'static, str>) {}

    fn get_document(&mut self) -> usize {
        self.dom.get_document()
    }

    fn elem_name<'a>(&'a self, target: &'a usize) -> ExpandedName<'a> {
        self.names.get(target).expect("not an element").expanded()
    }

    fn create_element(&mut self, name: QualName, attrs: Vec<Attribute>, flags: ElementFlags) -> usize {
        let id = self.dom.create_element(
            qualified(&name),
            parsed_attributes(attrs),
            flags.template,
            flags.mathml_annotation_xml_integration_point,
        );
        self.names.insert(id, name);
        id
    }

    fn create_comment(&mut self, text: StrTendril) -> usize {
        self.dom.create_comment(text.to_string())
    }

    fn create_pi(&mut self, target: StrTendril, data: StrTendril) -> usize {
        self.dom.create_pi(target.to_string(), data.to_string())
    }

    fn append(&mut self, parent: &usize, child: Parsed<usize>) {
        self.dom.append(*parent, handed_over(child));
    }

    fn append_based_on_parent_node(&mut self, element: &usize, prev_element: &usize, child: Parsed<usize>) {
        self.dom.append_based_on_parent_node(*element, *prev_element, handed_over(child));
    }

    fn append_doctype_to_document(&mut self, name: StrTendril, public_id: StrTendril, system_id: StrTendril) {
        self.dom.append_doctype_to_document(&name, &public_id, &system_id);
    }

    fn get_template_contents(&mut self, target: &usize) -> usize {
        self.dom.get_template_contents(*target)
    }

    fn same_node(&self, x: &usize, y: &usize) -> bool {
        self.dom.same_node(*x, *y)
    }

    fn set_quirks_mode(&mut self, mode: QuirksMode) {
        self.dom.set_quirks_mode(match mode {
            QuirksMode::Quirks => feedgen::dom::QuirksMode::Quirks,
            QuirksMode::LimitedQuirks => feedgen::dom::QuirksMode::LimitedQuirks,
            QuirksMode::NoQuirks => feedgen::dom::QuirksMode::NoQuirks,
        });
    }

    fn append_before_sibling(&mut self, sibling: &usize, new_node: Parsed<usize>) {
        self.dom.append_before_sibling(*sibling, handed_over(new_node));
    }

    fn add_attrs_if_missing(&mut self, target: &usize, attrs: Vec<Attribute>) {
        self.dom.add_attrs_if_missing(*target, parsed_attributes(attrs));
    }

    fn remove_from_parent(&mut self, target: &usize) {
        self.dom.remove_from_parent(*target);
    }

    fn reparent_children(&mut self, node: &usize, new_parent: &usize) {
        self.dom.reparent_children(*node, *new_parent);
    }

    fn is_mathml_annotation_xml_integration_point(&self, handle: &usize) -> bool {
        self.dom.is_mathml_annotation_xml_integration_point(*handle)
    }
}

fn parse(html: &str) -> Dom {
    let sink = Sink { dom: Dom::new(), names: HashMap::new() };
    let opts = ParseOpts {
        tree_builder: TreeBuilderOpts { scripting_enabled: false, iframe_srcdoc: false, ..Default::default() },
        ..Default::default()
    };
    parse_document(sink, opts).one(html)
}

fn xpath(source: &str) -> XPath {
    XPath::new(source.to_string()).unwrap()
}

fn config(title: &str) -> XPathExtractorConfig {
    XPathExtractorConfig {
        entry: xpath("//html:article"),
        id: xpath("@data-id"),
        title: xpath(title),
        description: xpath(".//html:p"),
        url: xpath(".//html:a/@href"),
        author: None,
        pub_date: None,
        pub_date_format: None,
    }
}

fn extract(cfg: &XPathExtractorConfig, html: &str) -> Result<Extraction, ExtractError> {
    let fetch_url = Url::parse("https://ex.test/page").unwrap();
    let ctx = Context::new(&fetch_url);
    XPathExtractor::from_cfg(cfg).extract(&ctx, &parse(html))
}

const HAPPY: &str = "<html><body><article data-id=\"a1\"><h1>T</h1><p>D</p><a href=\"/x\">u</a></article></body></html>";

#[test]
fn xpath_happy_path() {
    let extraction = extract(&config(".//html:h1"), HAPPY).unwrap();
    assert_eq!(extraction.entries.len(), 1);
    assert!(extraction.rejected.is_empty());
    let entry = &extraction.entries[0];
    assert_eq!(entry.id, "a1");
    assert_eq!(entry.title, "T");
    assert_eq!(entry.description, "D");
    assert_eq!(entry.url.as_str(), "https://ex.test/x");
    assert_eq!(entry.author, None);
    assert_eq!(entry.pub_date, None);
}

#[test]
fn empty_disallowed_field_skips_entry() {
    let html = "<html><body><article data-id=\"a1\"><h1></h1><p>D</p><a href=\"/x\">u</a></article></body></html>";
    let extraction = extract(&config(".//html:h1"), html).unwrap();
    assert_eq!(extraction.entries.len(), 0);
    assert_eq!(
        extraction.rejected,
        vec![BadEntry { index: 1, field: Field::Title, reason: Reason::Empty }]
    );
}

#[test]
fn node_set_concatenation() {
    let html = "<html><body><article data-id=\"a1\"><h1>A<em>B</em>C</h1><p>D</p><a href=\"/x\">u</a></article></body></html>";
    // All text nodes under the heading, in document order.
    let extraction = extract(&config(".//html:h1//text()"), html).unwrap();
    assert_eq!(extraction.entries[0].title, "ABC");
    // The text nodes that are children of the heading: `B` hangs under `em`.
    let extraction = extract(&config(".//html:h1/text()"), html).unwrap();
    assert_eq!(extraction.entries[0].title, "AC");
    // Several elements: the string-value of each, joined.
    let extraction = extract(&config(".//html:h1|.//html:p"), html).unwrap();
    assert_eq!(extraction.entries[0].title, "ABCD");
}

#[test]
fn one_bad_entry_does_not_stop_the_others() {
    let html = "<html><body>\
        <article data-id=\"a1\"><h1>One</h1><p></p><a href=\"https://other.test/1\">u</a></article>\
        <article><h1>Two</h1><p>D</p><a href=\"/2\">u</a></article>\
        <article data-id=\"a3\"><h1>Three</h1><p>D</p></article>\
        <article data-id=\"a4\"><h1>Four</h1><p>D</p><a href=\"https://\">u</a></article>\
        <article data-id=\"a5\"><h1>Five</h1><p>D</p><a href=\"5\">u</a></article>\
        </body></html>";
    let extraction = extract(&config(".//html:h1"), html).unwrap();
    let ids: Vec<&str> = extraction.entries.iter().map(|e| e.id.as_str()).collect();
    assert_eq!(ids, vec!["a1", "a5"]);
    assert_eq!(extraction.entries[0].description, "");
    assert_eq!(extraction.entries[0].url.as_str(), "https://other.test/1");
    assert_eq!(extraction.entries[1].url.as_str(), "https://ex.test/5");
    assert_eq!(
        extraction.rejected,
        vec![
            BadEntry { index: 2, field: Field::Id, reason: Reason::Empty },
            BadEntry { index: 3, field: Field::Url, reason: Reason::Empty },
            BadEntry { index: 4, field: Field::Url, reason: Reason::BadUrl },
        ]
    );
}

#[test]
fn the_entry_expression_must_give_a_node_set() {
    let mut cfg = config(".//html:h1");
    cfg.entry = xpath("count(//html:article)");
    assert_eq!(extract(&cfg, HAPPY).unwrap_err(), ExtractError::NotNodeset(ValueKind::Number));
    cfg.entry = xpath("'text'");
    assert_eq!(extract(&cfg, HAPPY).unwrap_err(), ExtractError::NotNodeset(ValueKind::String));
    cfg.entry = xpath("true()");
    assert_eq!(extract(&cfg, HAPPY).unwrap_err(), ExtractError::NotNodeset(ValueKind::Boolean));
    cfg.entry = xpath("$missing");
    assert_eq!(extract(&cfg, HAPPY).unwrap_err(), ExtractError::EntryEvaluation);
    cfg.entry = xpath("//html:nothing");
    let extraction = extract(&cfg, HAPPY).unwrap();
    assert!(extraction.entries.is_empty() && extraction.rejected.is_empty());
}

#[test]
fn scalar_results_are_coerced_to_strings() {
    let mut cfg = config("count(.//html:p)");
    cfg.description = xpath("true()");
    let extraction = extract(&cfg, HAPPY).unwrap();
    assert_eq!(extraction.entries[0].title, "1");
    assert_eq!(extraction.entries[0].description, "true");
}

#[test]
fn authors_and_dates_are_read_where_configured() {
    let html = "<html><body>\
        <article data-id=\"a1\"><h1>T</h1><p>D</p><a href=\"/x\">u</a><i>Ann</i><time>2024-01-02 03:04:05 +01:00</time></article>\
        <article data-id=\"a2\"><h1>T</h1><p>D</p><a href=\"/x\">u</a><i></i><time>2024-01-02 03:04:05 +01:00</time></article>\
        <article data-id=\"a3\"><h1>T</h1><p>D</p><a href=\"/x\">u</a><i>Bob</i><time>yesterday</time></article>\
        </body></html>";
    let mut cfg = config(".//html:h1");
    cfg.author = Some(xpath(".//html:i"));
    cfg.pub_date = Some(xpath(".//html:time"));
    cfg.pub_date_format = DateTimeFormat::parse(
        "[year]-[month]-[day] [hour]:[minute]:[second] [offset_hour sign:mandatory]:[offset_minute]",
    );
    assert!(cfg.pub_date_format.is_some());
    let extraction = extract(&cfg, html).unwrap();
    assert_eq!(extraction.entries.len(), 1);
    let entry = &extraction.entries[0];
    assert_eq!(entry.author.as_deref(), Some("Ann"));
    let at = entry.pub_date.unwrap();
    assert_eq!((at.seconds(), at.nanos(), at.offset()), (1_704_161_045, 0, 3600));
    assert_eq!(
        extraction.rejected,
        vec![
            BadEntry { index: 2, field: Field::Author, reason: Reason::Empty },
            BadEntry { index: 3, field: Field::PubDate, reason: Reason::BadDate },
        ]
    );
    // Without a format the date expression plays no part.
    cfg.pub_date_format = None;
    let extraction = extract(&cfg, html).unwrap();
    assert_eq!(extraction.entries.len(), 2);
    assert_eq!(extraction.entries[1].id, "a3");
    assert_eq!(extraction.entries[1].pub_date, None);
}

#[test]
fn extraction_is_deterministic() {
    let cfg = config(".//html:h1");
    let first = extract(&cfg, HAPPY).unwrap();
    let second = extract(&cfg, HAPPY).unwrap();
    assert_eq!(format!("{:?}", first), format!("{:?}", second));
}

fn children(dom: &Dom, id: usize) -> Vec<usize> {
    dom.node(id).children.clone()
}

fn element_named(dom: &Dom, local: &str) -> usize {
    (0..dom.len())
        .find(|&i| matches!(&dom.node(i).data, Data::Element(e) if e.name.local == local))
        .expect("no such element")
}

fn text_of(dom: &Dom, id: usize) -> String {
    match &dom.node(id).data {
        Data::Text(text) => text.clone(),
        other => panic!("not a text node: {other:?}"),
    }
}

#[test]
fn the_parser_builds_a_well_connected_tree() {
    let dom = parse("<!DOCTYPE html><html><head><title>t</title></head><body><p>a<b>c</b>d</p><!--x--></body></html>");
    for id in 0..dom.len() {
        for &child in &dom.node(id).children {
            assert_eq!(dom.node(child).parent, Some(id));
        }
        if let Some(parent) = dom.node(id).parent {
            assert_eq!(dom.node(parent).children.iter().filter(|&&c| c == id).count(), 1);
        }
    }
    // The document type is dropped: the document holds the root element only.
    let top = children(&dom, 0);
    assert_eq!(top.len(), 1);
    let html = top[0];
    assert!(matches!(&dom.node(html).data, Data::Element(e)
        if e.name.local == "html"
            && e.name.namespace.as_deref() == Some("http://www.w3.org/1999/xhtml")
            && e.xhtml_default));
    let body = element_named(&dom, "body");
    assert!(matches!(&dom.node(body).data, Data::Element(e) if !e.xhtml_default));
    let p = element_named(&dom, "p");
    let kids = children(&dom, p);
    assert_eq!(kids.len(), 3);
    assert_eq!(text_of(&dom, kids[0]), "a");
    assert_eq!(text_of(&dom, kids[2]), "d");
    assert!(dom
        .node(body)
        .children
        .iter()
        .any(|&c| matches!(&dom.node(c).data, Data::Comment(text) if text == "x")));
}

#[test]
fn text_that_the_parser_moves_before_a_table_is_merged() {
    // Text inside a table is put before the table, piece by piece.
    let dom = parse("<html><body><div>x<table>ab<tr><td>c</td></tr>d</table></div></body></html>");
    let div = element_named(&dom, "div");
    let kids = children(&dom, div);
    assert_eq!(kids.len(), 2);
    assert_eq!(text_of(&dom, kids[0]), "xabd");
    assert!(matches!(&dom.node(kids[1]).data, Data::Element(e) if e.name.local == "table"));
}

#[test]
fn template_contents_are_kept_apart() {
    let dom = parse("<html><body><template><p>inside</p></template><p>outside</p></body></html>");
    let template = element_named(&dom, "template");
    let contents = dom.get_template_contents(template);
    assert_ne!(contents, 0);
    assert!(matches!(dom.node(contents).data, Data::Root));
    assert_eq!(dom.node(contents).parent, None);
    assert!(children(&dom, template).is_empty());
    assert_eq!(children(&dom, contents).len(), 1);
    let mut cfg = config(".//html:h1");
    cfg.entry = xpath("//html:p");
    cfg.id = xpath("string(.)");
    cfg.title = xpath("string(.)");
    cfg.description = xpath("string(.)");
    cfg.url = xpath("'https://ex.test/'");
    let fetch_url = Url::parse("https://ex.test/page").unwrap();
    let extraction = XPathExtractor::from_cfg(&cfg).extract(&Context::new(&fetch_url), &dom).unwrap();
    let ids: Vec<&str> = extraction.entries.iter().map(|e| e.id.as_str()).collect();
    assert_eq!(ids, vec!["outside"]);
}

#[test]
fn attributes_of_a_second_root_tag_are_added_where_missing() {
    let dom = parse("<html lang=\"en\"><body class=\"a\"><body class=\"b\" id=\"c\"><p>x</p></body></html>");
    let body = element_named(&dom, "body");
    match &dom.node(body).data {
        Data::Element(e) => {
            let attrs: Vec<(&str, &str)> =
                e.attributes.iter().map(|a| (a.name.local.as_str(), a.value.as_str())).collect();
            assert_eq!(attrs, vec![("class", "a"), ("id", "c")]);
            assert!(e.attributes.iter().all(|a| a.name.namespace.is_none()));
        }
        _ => unreachable!(),
    }
}

#[test]
fn misnested_formatting_is_reparented() {
    let dom = parse("<html><body><p>1<b>2<i>3</b>4</i>5</p></body></html>");
    let mut cfg = config(".//html:h1");
    cfg.entry = xpath("//html:p");
    cfg.id = xpath("string(.)");
    cfg.title = xpath("count(.//html:i)");
    cfg.description = xpath("string(.//html:b)");
    cfg.url = xpath("'https://ex.test/'");
    let fetch_url = Url::parse("https://ex.test/page").unwrap();
    let extraction = XPathExtractor::from_cfg(&cfg).extract(&Context::new(&fetch_url), &dom).unwrap();
    assert_eq!(extraction.entries[0].id, "12345");
    assert_eq!(extraction.entries[0].title, "2");
    assert_eq!(extraction.entries[0].description, "23");
}

#[test]
fn an_expression_that_cannot_be_applied_skips_the_entry() {
    let mut cfg = config(".//html:h1");
    cfg.description = xpath("$missing");
    let extraction = extract(&cfg, HAPPY).unwrap();
    assert!(extraction.entries.is_empty());
    assert_eq!(
        extraction.rejected,
        vec![BadEntry { index: 1, field: Field::Description, reason: Reason::EvaluationFailed }]
    );
    let mut cfg = config(".//html:h1");
    cfg.author = Some(xpath("unknown-function()"));
    let extraction = extract(&cfg, HAPPY).unwrap();
    assert_eq!(
        extraction.rejected,
        vec![BadEntry { index: 1, field: Field::Author, reason: Reason::EvaluationFailed }]
    );
}

#[test]
fn an_expression_is_applied_to_the_document_of_a_page() {
    let dom = parse("<html><body><p class='a'>one</p><p>two</p><!-- note --></body></html>");
    let document = Document::from_tree(&dom);
    match xpath("//html:p").evaluate(&document) {
        Some(XPathValue::Nodeset(parts)) => assert_eq!(parts, vec!["one".to_string(), "two".to_string()]),
        other => panic!("{:?}", other),
    }
    match xpath("count(//html:p)").evaluate(&document) {
        Some(XPathValue::Scalar(text)) => assert_eq!(text, "2"),
        other => panic!("{:?}", other),
    }
    match xpath("//html:p/@class").evaluate(&document) {
        Some(XPathValue::Nodeset(parts)) => assert_eq!(parts, vec!["a".to_string()]),
        other => panic!("{:?}", other),
    }
    match xpath("//comment()").evaluate(&document) {
        Some(XPathValue::Nodeset(parts)) => assert_eq!(parts, vec![" note ".to_string()]),
        other => panic!("{:?}", other),
    }
    match xpath("local-name(/*)").evaluate(&document) {
        Some(XPathValue::Scalar(text)) => assert_eq!(text, "html"),
        other => panic!("{:?}", other),
    }
}

#[test]
fn an_expression_is_applied_to_each_node_that_another_finds() {
    let dom = parse("<html><body><p>one<b>!</b></p><p>two</p></body></html>");
    let document = Document::from_tree(&dom);
    let entry = xpath("//html:p");
    let text = xpath("./text()");
    assert_eq!(text.evaluate_at(&entry, 0, &document).unwrap().into_string(), "one");
    assert_eq!(text.evaluate_at(&entry, 1, &document).unwrap().into_string(), "two");
    assert!(text.evaluate_at(&entry, 2, &document).is_none());
    assert_eq!(xpath("string(html:b)").evaluate_at(&entry, 0, &document).unwrap().into_string(), "!");
    assert!(text.evaluate_at(&xpath("count(//html:p)"), 0, &document).is_none());
}

#[test]
fn the_document_keeps_the_order_and_the_nesting_of_the_tree() {
    let dom = parse(
        "<!-- top --><html><head><title>t</title></head><body><div><ul><li>a</li><li>b</li></ul>\
         <p>c</p></div><p>d</p></body></html>",
    );
    let document = Document::from_tree(&dom);
    let texts = xpath("//text()").evaluate(&document).unwrap().into_string();
    assert_eq!(texts, "tabcd");
    let paths = xpath("//html:div/html:ul/html:li[2]").evaluate(&document).unwrap().into_string();
    assert_eq!(paths, "b");
    let after = xpath("//html:div/following-sibling::html:p").evaluate(&document).unwrap().into_string();
    assert_eq!(after, "d");
    let top = xpath("/comment()").evaluate(&document).unwrap().into_string();
    assert_eq!(top, " top ");
}

#[test]
fn a_later_attribute_of_a_name_replaces_an_earlier_one_in_the_document() {
    let mut dom = Dom::new();
    let name = QualifiedName {
        prefix: None,
        namespace: "http://www.w3.org/1999/xhtml".to_string(),
        local: "html".to_string(),
    };
    let attribute = |local: &str, value: &str| ParsedAttribute {
        name: QualifiedName { prefix: None, namespace: String::new(), local: local.to_string() },
        value: value.to_string(),
    };
    let html = dom.create_element(
        name,
        vec![attribute("a", "1"), attribute("b", "2"), attribute("a", "3")],
        false,
        false,
    );
    dom.append(0, NodeOrText::Node(html));
    let document = Document::from_tree(&dom);
    match xpath("/html:html/@*").evaluate(&document) {
        Some(XPathValue::Nodeset(parts)) => assert_eq!(parts, vec!["2".to_string(), "3".to_string()]),
        other => panic!("{:?}", other),
    }
}

#[test]
fn the_last_element_under_the_document_node_is_the_one_of_the_document() {
    let mut dom = Dom::new();
    let named = |local: &str| QualifiedName { prefix: None, namespace: String::new(), local: local.to_string() };
    let first = dom.create_element(named("first"), vec![], false, false);
    let note = dom.create_comment("between".to_string());
    let second = dom.create_element(named("second"), vec![], false, false);
    dom.append(0, NodeOrText::Node(first));
    dom.append(0, NodeOrText::Node(note));
    dom.append(0, NodeOrText::Node(second));
    dom.append(first, NodeOrText::Text("one".to_string()));
    dom.append(second, NodeOrText::Text("two".to_string()));
    let document = Document::from_tree(&dom);
    assert_eq!(xpath("string(/*)").evaluate(&document).unwrap().into_string(), "two");
    assert_eq!(xpath("count(/*)").evaluate(&document).unwrap().into_string(), "1");
    assert_eq!(xpath("string(/comment())").evaluate(&document).unwrap().into_string(), "between");
}

#[test]
fn an_expression_that_asks_for_names_is_applied_all_the_same() {
    let cfg = config("name(.//html:h1)");
    let extractor = XPathExtractor::from_cfg(&cfg);
    assert!(!extractor.is_ordered());
    assert!(XPathExtractor::from_cfg(&config(".//html:h1")).is_ordered());
    let extraction = extract(&cfg, HAPPY).unwrap();
    assert_eq!(extraction.entries.len(), 1);
    assert_eq!(extraction.entries[0].title, "html:h1");
}

#[test]
fn ordered_expressions_give_the_same_each_time() {
    let dom = parse(
        "<!-- top --><html lang='en'><head><title>t</title></head><body class='x' id='b'>\
         <div id='d1' class='c'><p a='1' b='2' c='3'>0.1</p><p>0.2</p><p>0.3</p><!-- in --></div>\
         <ul><li>1e3</li><li> 7 </li><li>x</li><li>0.7</li><li>0.1</li></ul>\
         <svg><g><circle r='1'/></g></svg><p>tail<b>bold</b>end</p></body></html>",
    );
    let document = Document::from_tree(&dom);
    let tokens = [
        "//", "/", "html:p", "html:*", "*", "@*", "@a", "@class", "..", ".", "text()", "node()",
        "comment()", "[", "]", "(", ")", "1", "2", "0", "0.1", "-", "+", " div ", " mod ", " or ",
        " and ", "=", "!=", "<", ">=", "|", "count(", "string(", "local-name(", "namespace-uri(",
        "position()", "last()", "concat(", ",", "'a'", "''", "substring(", "translate(", "number(",
        "boolean(", "not(", "round(", "ancestor::", "following::", "preceding::",
        "preceding-sibling::", "following-sibling::", "attribute::", "self::", "parent::",
        "descendant-or-self::", "descendant::", "ancestor-or-self::", "child::", "$x", "id(",
        "lang(", "string-length(", "normalize-space(", "starts-with(", "contains(",
        "substring-before(", "substring-after(", "floor(", "ceiling(", "true()", "false()", "html:li",
        "html:div", "html:body", "processing-instruction()", "9e9", "sum(//html:div/html:p)",
        "sum(", "name(", "namespace::", "name()", "namespace::*", "html:ul", "@b", "@id",
        "//html:div/html:p", "//html:li",
    ];
    let mut state: u64 = 0x2545F4914F6CDD1D;
    let mut next = || {
        state ^= state << 13;
        state ^= state >> 7;
        state ^= state << 17;
        state
    };
    let entry = xpath("//html:*");
    let mut applied = 0;
    for _ in 0..40_000 {
        let len = 1 + (next() % 7) as usize;
        let source: String = (0..len).map(|_| tokens[(next() % tokens.len() as u64) as usize]).collect();
        let expression = match XPath::new(source.clone()) {
            Ok(x) => x,
            Err(_) => continue,
        };
        if !is_ordered(&source) {
            continue;
        }
        applied += 1;
        let first = format!("{:?}", expression.evaluate(&document));
        for _ in 0..6 {
            assert_eq!(format!("{:?}", expression.evaluate(&document)), first, "{source}");
        }
        let place = (next() % 20) as usize;
        let at = format!("{:?}", expression.evaluate_at(&entry, place, &document));
        assert_eq!(format!("{:?}", expression.evaluate_at(&entry, place, &document)), at, "{source}");
    }
    assert!(applied > 1000);
}
