//! XHTML output, produced the way the surrounding application renders it:
//! the tree is walked in document order and each node drives xml5ever's
//! serializer.

use std::io;

use markup_tree::tree::{Attr, NodeData, NodeRef, QName};
use xml5ever::serialize::{serialize, Serialize, SerializeOpts, Serializer, TraversalScope};
use xml5ever::{LocalName, Namespace, Prefix, QualName};

const HTML_NS: &str = "http://www.w3.org/1999/xhtml";

fn qual(name: &QName) -> QualName {
    QualName::new(
        name.prefix.as_ref().map(|p| Prefix::from(p.as_str())),
        Namespace::from(name.ns.as_str()),
        LocalName::from(name.local.as_str()),
    )
}

fn attr_qual(a: &Attr) -> QualName {
    QualName::new(
        a.prefix.as_ref().map(|p| Prefix::from(p.as_str())),
        Namespace::from(a.ns.as_str()),
        LocalName::from(a.local.as_str()),
    )
}

struct XmlNode<'a>(&'a NodeRef);

impl<'a> Serialize for XmlNode<'a> {
    fn serialize<S: Serializer>(
        &self,
        serializer: &mut S,
        traversal_scope: TraversalScope,
    ) -> io::Result<()> {
        match (traversal_scope, self.0.data()) {
            (ref scope, NodeData::Element(e)) => {
                if *scope == TraversalScope::IncludeNode {
                    let attrs: Vec<(QualName, &str)> = e
                        .attributes
                        .iter()
                        .map(|a| (attr_qual(a), a.value.as_str()))
                        .collect();
                    serializer
                        .start_elem(qual(&e.name), attrs.iter().map(|t| (&t.0, t.1)))?;
                }
                for child in self.0.children() {
                    XmlNode(child).serialize(serializer, TraversalScope::IncludeNode)?;
                }
                if *scope == TraversalScope::IncludeNode {
                    serializer.end_elem(qual(&e.name))?;
                }
                Ok(())
            },
            (_, NodeData::Document) | (_, NodeData::DocumentFragment) => {
                for child in self.0.children() {
                    XmlNode(child).serialize(serializer, TraversalScope::IncludeNode)?;
                }
                Ok(())
            },
            (TraversalScope::ChildrenOnly(_), _) => Ok(()),
            (TraversalScope::IncludeNode, NodeData::Doctype { name }) => {
                serializer.write_doctype(name)
            },
            (TraversalScope::IncludeNode, NodeData::Text { content }) => {
                serializer.write_text(content)
            },
            (TraversalScope::IncludeNode, NodeData::Comment { content }) => {
                serializer.write_comment(content)
            },
            (TraversalScope::IncludeNode, NodeData::ProcessingInstruction { target, content }) => {
                serializer.write_processing_instruction(target, content)
            },
        }
    }
}

fn xhtml_of(node: &NodeRef) -> String {
    let mut buf = Vec::new();
    serialize(
        &mut buf,
        &XmlNode(node),
        SerializeOpts { traversal_scope: TraversalScope::IncludeNode },
    )
    .unwrap();
    String::from_utf8(buf).unwrap()
}

fn qn(local: &str) -> QName {
    QName { prefix: None, ns: HTML_NS.to_string(), local: local.to_string() }
}

#[test]
fn xhtml_declares_namespace_once() {
    let mut html = NodeRef::new_element(qn("html"));
    let mut body = NodeRef::new_element(qn("body"));
    body.append_child(NodeRef::new_text("hi".to_string())).unwrap();
    html.append_child(body).unwrap();
    assert_eq!(
        xhtml_of(&html),
        "<html xmlns=\"http://www.w3.org/1999/xhtml\"><body>hi</body></html>"
    );
}

#[test]
fn xhtml_escapes_text_and_attributes() {
    let mut div = NodeRef::new_element(qn("div"));
    div.insert_attribute(Attr {
        prefix: None,
        ns: String::new(),
        local: "title".to_string(),
        value: "a'b\"c&d".to_string(),
    })
    .unwrap();
    div.append_child(NodeRef::new_text("1<2&3>2".to_string())).unwrap();
    assert_eq!(
        xhtml_of(&div),
        "<div xmlns=\"http://www.w3.org/1999/xhtml\" title=\"a&apos;b&quot;c&amp;d\">1&lt;2&amp;3&gt;2</div>"
    );
}

#[test]
fn xhtml_rendering_twice_is_identical() {
    let mut html = NodeRef::new_element(qn("html"));
    html.append_child(NodeRef::new_comment("c".to_string())).unwrap();
    assert_eq!(xhtml_of(&html), xhtml_of(&html));
}
