use markup_tree::tree::{Attr, NodeData, NodeRef, QName, TreeError};

const HTML_NS: &str = "http://www.w3.org/1999/xhtml";

fn qn(local: &str) -> QName {
    QName { prefix: None, ns: HTML_NS.to_string(), local: local.to_string() }
}

fn elem(local: &str) -> NodeRef {
    NodeRef::new_element(qn(local))
}

fn attr(local: &str, value: &str) -> Attr {
    Attr { prefix: None, ns: String::new(), local: local.to_string(), value: value.to_string() }
}

fn text(t: &str) -> NodeRef {
    NodeRef::new_text(t.to_string())
}

#[test]
fn document_html_body_text() {
    let mut html = elem("html");
    let mut body = elem("body");
    body.append_child(text("hi")).unwrap();
    html.append_child(body).unwrap();
    assert_eq!(html.html(), "<html><body>hi</body></html>");

    let mut doc = NodeRef::new_document();
    doc.append_child(html).unwrap();
    assert_eq!(doc.html(), "<html><body>hi</body></html>");
}

#[test]
fn document_node_is_transparent() {
    let mut doc = NodeRef::new_document();
    let mut div = elem("div");
    div.append_child(text("x")).unwrap();
    doc.append_child(div).unwrap();
    assert_eq!(doc.html(), doc.inner_html());

    let mut frag = NodeRef::new_fragment();
    frag.append_child(text("y")).unwrap();
    assert_eq!(frag.html(), "y");
    assert_eq!(frag.inner_html(), "y");
}

#[test]
fn text_and_attribute_escaping() {
    let mut div = elem("div");
    div.insert_attribute(attr("class", "a b")).unwrap();
    div.append_child(text("<3")).unwrap();
    assert_eq!(div.html(), "<div class=\"a b\">&lt;3</div>");
}

#[test]
fn attribute_value_escaping() {
    let mut div = elem("div");
    div.insert_attribute(attr("title", "a\"b&c<d")).unwrap();
    assert_eq!(div.html(), "<div title=\"a&quot;b&amp;c<d\"></div>");
}

#[test]
fn text_escaping_covers_all_marked_characters() {
    let mut div = elem("div");
    div.append_child(text("a&b<c>d\u{a0}e\"f")).unwrap();
    assert_eq!(div.html(), "<div>a&amp;b&lt;c&gt;d&nbsp;e\"f</div>");
}

#[test]
fn attribute_order_is_first_insertion_order() {
    let mut div = elem("div");
    div.insert_attribute(attr("a", "1")).unwrap();
    div.insert_attribute(attr("b", "2")).unwrap();
    div.insert_attribute(attr("c", "3")).unwrap();
    assert_eq!(div.html(), "<div a=\"1\" b=\"2\" c=\"3\"></div>");
}

#[test]
fn attribute_overwrite_keeps_position() {
    let mut div = elem("div");
    div.insert_attribute(attr("a", "1")).unwrap();
    div.insert_attribute(attr("b", "2")).unwrap();
    div.insert_attribute(attr("c", "3")).unwrap();
    div.insert_attribute(attr("b", "9")).unwrap();
    assert_eq!(div.html(), "<div a=\"1\" b=\"9\" c=\"3\"></div>");
}

#[test]
fn attributes_on_non_element_are_refused() {
    let mut t = text("x");
    assert_eq!(t.insert_attribute(attr("a", "1")), Err(TreeError::InvalidOperation));
    assert_eq!(t.html(), "x");
}

#[test]
fn void_element_has_no_end_tag() {
    let br = elem("br");
    assert_eq!(br.html(), "<br>");
    assert_eq!(br.inner_html(), "");

    let mut img = elem("img");
    img.insert_attribute(attr("src", "x.png")).unwrap();
    assert_eq!(img.html(), "<img src=\"x.png\">");
}

#[test]
fn element_children_of_void_element_are_skipped() {
    let mut br = elem("br");
    br.append_child(elem("span")).unwrap();
    assert_eq!(br.html(), "<br>");
}

#[test]
fn raw_text_element_is_not_escaped() {
    let mut script = elem("script");
    script.append_child(text("1 < 2 && 3 > 2")).unwrap();
    assert_eq!(script.html(), "<script>1 < 2 && 3 > 2</script>");
    // The same text under an ordinary element is escaped.
    let mut div = elem("div");
    div.append_child(text("1 < 2 && 3 > 2")).unwrap();
    assert_eq!(div.html(), "<div>1 &lt; 2 &amp;&amp; 3 &gt; 2</div>");
    // A children-only render has no raw-text parent in scope.
    assert_eq!(script.inner_html(), "1 &lt; 2 &amp;&amp; 3 &gt; 2");
}

#[test]
fn doctype_comment_and_processing_instruction() {
    let mut doc = NodeRef::new_document();
    doc.append_child(NodeRef::new_doctype("html".to_string())).unwrap();
    doc.append_child(NodeRef::new_comment(" note ".to_string())).unwrap();
    doc.append_child(NodeRef::new_processing_instruction(
        "xml-stylesheet".to_string(),
        "href=\"a.css\"".to_string(),
    ))
    .unwrap();
    assert_eq!(
        doc.html(),
        "<!DOCTYPE html><!-- note --><?xml-stylesheet href=\"a.css\">"
    );
}

#[test]
fn outer_html_is_start_tag_inner_html_end_tag() {
    let mut div = elem("div");
    let mut p = elem("p");
    p.append_child(text("a")).unwrap();
    div.append_child(p).unwrap();
    div.append_child(text("b&c")).unwrap();
    let outer = div.html();
    let inner = div.inner_html();
    assert_eq!(outer, format!("<div>{}</div>", inner));
    assert_eq!(inner, "<p>a</p>b&amp;c");
}

#[test]
fn rendering_twice_is_identical() {
    let mut div = elem("div");
    div.insert_attribute(attr("id", "d")).unwrap();
    div.append_child(text("t")).unwrap();
    div.append_child(NodeRef::new_comment("c".to_string())).unwrap();
    assert_eq!(div.html(), div.html());
    assert_eq!(div.inner_html(), div.inner_html());
}

#[test]
fn append_child_refused_on_leaves() {
    let mut t = text("x");
    assert_eq!(t.append_child(elem("a")), Err(TreeError::InvalidOperation));
    let mut c = NodeRef::new_comment("c".to_string());
    assert_eq!(c.append_child(text("y")), Err(TreeError::InvalidOperation));
    let mut d = NodeRef::new_doctype("html".to_string());
    assert_eq!(d.append_child(text("y")), Err(TreeError::InvalidOperation));
}

#[test]
fn insert_child_orders_children() {
    let mut ul = elem("ul");
    ul.append_child(text("b")).unwrap();
    ul.insert_child(0, text("a")).unwrap();
    ul.insert_child(2, text("c")).unwrap();
    assert_eq!(ul.html(), "<ul>abc</ul>");
    assert_eq!(
        ul.insert_child(9, text("x")),
        Err(TreeError::InvalidOperation)
    );
    assert_eq!(ul.html(), "<ul>abc</ul>");
}

#[test]
fn detach_child_removes_subtree() {
    let mut ul = elem("ul");
    ul.append_child(text("a")).unwrap();
    let mut li = elem("li");
    li.append_child(text("b")).unwrap();
    ul.append_child(li).unwrap();
    ul.append_child(text("c")).unwrap();
    let detached = ul.detach_child(1).unwrap();
    assert_eq!(ul.html(), "<ul>ac</ul>");
    assert_eq!(detached.html(), "<li>b</li>");
    assert!(ul.detach_child(5).is_err());
}

#[test]
fn set_content_replaces_character_data() {
    let mut t = text("old");
    t.set_content("new".to_string()).unwrap();
    assert_eq!(t.html(), "new");
    let mut c = NodeRef::new_comment("old".to_string());
    c.set_content("new".to_string()).unwrap();
    assert_eq!(c.html(), "<!--new-->");
    let mut pi = NodeRef::new_processing_instruction("t".to_string(), "old".to_string());
    pi.set_content("new".to_string()).unwrap();
    assert_eq!(pi.html(), "<?t new>");
    let mut div = elem("div");
    assert_eq!(div.set_content("x".to_string()), Err(TreeError::InvalidOperation));
}

#[test]
fn children_and_data_accessors() {
    let mut div = elem("div");
    div.append_child(text("a")).unwrap();
    assert_eq!(div.children().len(), 1);
    match div.data() {
        NodeData::Element(e) => {
            assert_eq!(e.name.local, "div");
            assert_eq!(e.name.ns, HTML_NS);
        },
        _ => panic!("expected an element"),
    }
    match div.children()[0].data() {
        NodeData::Text { content } => assert_eq!(content, "a"),
        _ => panic!("expected a text node"),
    }
}

#[test]
fn foreign_namespace_element_is_not_void() {
    // `br` outside the HTML namespace gets a real end tag.
    let svg_br = NodeRef::new_element(QName {
        prefix: None,
        ns: "http://www.w3.org/2000/svg".to_string(),
        local: "br".to_string(),
    });
    assert_eq!(svg_br.html(), "<br></br>");
}

#[test]
fn serialize_matches_html_and_inner_html() {
    let mut div = elem("div");
    div.append_child(text("x")).unwrap();
    assert_eq!(div.serialize(true), div.html());
    assert_eq!(div.serialize(false), div.inner_html());
}

#[test]
fn template_flag_is_settable_on_elements_only() {
    let mut div = elem("template");
    div.set_template(true).unwrap();
    match div.data() {
        NodeData::Element(e) => assert!(e.template),
        _ => panic!("expected an element"),
    }
    let mut t = text("x");
    assert_eq!(t.set_template(true), Err(TreeError::InvalidOperation));
}

#[test]
fn namespaced_attributes_get_fixed_prefixes() {
    let mut div = elem("div");
    div.insert_attribute(Attr {
        prefix: None,
        ns: "http://www.w3.org/XML/1998/namespace".to_string(),
        local: "lang".to_string(),
        value: "en".to_string(),
    })
    .unwrap();
    div.insert_attribute(Attr {
        prefix: None,
        ns: "http://www.w3.org/1999/xlink".to_string(),
        local: "href".to_string(),
        value: "#a".to_string(),
    })
    .unwrap();
    assert_eq!(div.html(), "<div xml:lang=\"en\" xlink:href=\"#a\"></div>");
}
