use vstd::prelude::*;

use crate::tree::{attrs_view, Attr, AttrV, NodeData, NodeRef, QName, QNameV};
use html5ever::serialize::{HtmlSerializer, SerializeOpts, Serializer};
use html5ever::{LocalName, Namespace, Prefix, QualName};

verus! {

/// The HTML namespace url.
pub open spec fn ns_html() -> Seq<char> {
    "http://www.w3.org/1999/xhtml"@
}

/// The xml namespace url.
pub open spec fn ns_xml() -> Seq<char> {
    "http://www.w3.org/XML/1998/namespace"@
}

/// The xmlns namespace url.
pub open spec fn ns_xmlns() -> Seq<char> {
    "http://www.w3.org/2000/xmlns/"@
}

/// The xlink namespace url.
pub open spec fn ns_xlink() -> Seq<char> {
    "http://www.w3.org/1999/xlink"@
}

/// How one character of text content is written in HTML syntax.
pub open spec fn esc_text_char(c: char) -> Seq<char> {
    if c == '&' {
        seq!['&', 'a', 'm', 'p', ';']
    } else if c == '\u{00A0}' {
        seq!['&', 'n', 'b', 's', 'p', ';']
    } else if c == '<' {
        seq!['&', 'l', 't', ';']
    } else if c == '>' {
        seq!['&', 'g', 't', ';']
    } else {
        seq![c]
    }
}

/// Text content escaped for HTML character data.
pub open spec fn esc_text(s: Seq<char>) -> Seq<char>
    decreases s.len(),
{
    if s.len() == 0 {
        Seq::empty()
    } else {
        esc_text(s.drop_last()) + esc_text_char(s.last())
    }
}

/// How one character of an attribute value is written in HTML syntax.
pub open spec fn esc_attr_char(c: char) -> Seq<char> {
    if c == '&' {
        seq!['&', 'a', 'm', 'p', ';']
    } else if c == '\u{00A0}' {
        seq!['&', 'n', 'b', 's', 'p', ';']
    } else if c == '"' {
        seq!['&', 'q', 'u', 'o', 't', ';']
    } else {
        seq![c]
    }
}

/// An attribute value escaped for an HTML double-quoted attribute.
pub open spec fn esc_attr(s: Seq<char>) -> Seq<char>
    decreases s.len(),
{
    if s.len() == 0 {
        Seq::empty()
    } else {
        esc_attr(s.drop_last()) + esc_attr_char(s.last())
    }
}

/// The name under which an attribute is written in HTML syntax: the local
/// name, qualified by a fixed prefix for the xml, xmlns and xlink namespaces.
pub open spec fn attr_ser_name(a: AttrV) -> Seq<char> {
    if a.ns.len() == 0 {
        a.local
    } else if a.ns == ns_xml() {
        "xml:"@ + a.local
    } else if a.ns == ns_xmlns() {
        if a.local == "xmlns"@ {
            a.local
        } else {
            "xmlns:"@ + a.local
        }
    } else if a.ns == ns_xlink() {
        "xlink:"@ + a.local
    } else {
        "unknown_namespace:"@ + a.local
    }
}

/// The first `i` attributes as written inside an HTML start tag.
pub open spec fn attrs_text(attrs: Seq<AttrV>, i: int) -> Seq<char>
    decreases i,
{
    if i <= 0 || i > attrs.len() {
        Seq::empty()
    } else {
        attrs_text(attrs, i - 1) + seq![' '] + attr_ser_name(attrs[i - 1]) + seq!['=', '"']
            + esc_attr(attrs[i - 1].value) + seq!['"']
    }
}

/// A whole HTML start tag.
pub open spec fn start_tag_text(name: QNameV, attrs: Seq<AttrV>) -> Seq<char> {
    seq!['<'] + name.local + attrs_text(attrs, attrs.len() as int) + seq!['>']
}

/// A whole HTML end tag.
pub open spec fn end_tag_text(name: QNameV) -> Seq<char> {
    seq!['<', '/'] + name.local + seq!['>']
}

/// A doctype declaration.
pub open spec fn doctype_text(name: Seq<char>) -> Seq<char> {
    "<!DOCTYPE "@ + name + seq!['>']
}

/// A comment.
pub open spec fn comment_text(content: Seq<char>) -> Seq<char> {
    "<!--"@ + content + "-->"@
}

/// A processing instruction in HTML syntax.
pub open spec fn pi_text(target: Seq<char>, content: Seq<char>) -> Seq<char> {
    "<?"@ + target + seq![' '] + content + seq!['>']
}

/// The elements that HTML syntax leaves unclosed and whose element children
/// are not written.
pub open spec fn is_void_local(l: Seq<char>) -> bool {
    ||| l == "area"@
    ||| l == "base"@
    ||| l == "basefont"@
    ||| l == "bgsound"@
    ||| l == "br"@
    ||| l == "col"@
    ||| l == "embed"@
    ||| l == "frame"@
    ||| l == "hr"@
    ||| l == "img"@
    ||| l == "input"@
    ||| l == "keygen"@
    ||| l == "link"@
    ||| l == "meta"@
    ||| l == "param"@
    ||| l == "source"@
    ||| l == "track"@
    ||| l == "wbr"@
}

/// The elements whose direct text children are written without escaping
/// (with scripting enabled, `noscript` is among them).
pub open spec fn is_raw_local(l: Seq<char>) -> bool {
    ||| l == "style"@
    ||| l == "script"@
    ||| l == "xmp"@
    ||| l == "iframe"@
    ||| l == "noembed"@
    ||| l == "noframes"@
    ||| l == "plaintext"@
    ||| l == "noscript"@
}

/// A serializer context: the HTML-namespace local name of the nearest open
/// element, if any, and whether children are being skipped under a void
/// element.
pub open spec fn is_raw_ctx(html_name: Option<Seq<char>>) -> bool {
    match html_name {
        Some(l) => is_raw_local(l),
        None => false,
    }
}

/// The context entry pushed when an element with this name is started under
/// the given context.
pub open spec fn pushed_info(name: QNameV, ctx: (Option<Seq<char>>, bool)) -> (
    Option<Seq<char>>,
    bool,
) {
    (
        if name.ns == ns_html() {
            Some(name.local)
        } else {
            None::<Seq<char>>
        },
        ctx.1 || (name.ns == ns_html() && is_void_local(name.local)),
    )
}

/// The context in which a render starts: no open element, children written.
pub open spec fn bottom_ctx() -> (Option<Seq<char>>, bool) {
    (None::<Seq<char>>, false)
}

/// The HTML text written for this node (`with_self` true) or for its children
/// only (`with_self` false), in the given serializer context.
pub open spec fn html_of(n: NodeRef, ctx: (Option<Seq<char>>, bool), with_self: bool) -> Seq<
    char,
>
    decreases n, 1int,
{
    match n.data {
        NodeData::Element(e) => {
            let pushed = pushed_info(e.name@, ctx);
            let cctx = if with_self {
                pushed
            } else {
                ctx
            };
            (if with_self && !ctx.1 {
                start_tag_text(e.name@, attrs_view(e.attributes@))
            } else {
                Seq::empty()
            }) + html_children(n.children@, cctx, n.children@.len() as int) + (if with_self
                && !pushed.1 {
                end_tag_text(e.name@)
            } else {
                Seq::empty()
            })
        },
        NodeData::Document => html_children(n.children@, ctx, n.children@.len() as int),
        NodeData::DocumentFragment => html_children(
            n.children@,
            ctx,
            n.children@.len() as int,
        ),
        NodeData::Doctype { name } => if with_self {
            doctype_text(name@)
        } else {
            Seq::empty()
        },
        NodeData::Text { content } => if with_self {
            if is_raw_ctx(ctx.0) {
                content@
            } else {
                esc_text(content@)
            }
        } else {
            Seq::empty()
        },
        NodeData::Comment { content } => if with_self {
            comment_text(content@)
        } else {
            Seq::empty()
        },
        NodeData::ProcessingInstruction { target, content } => if with_self {
            pi_text(target@, content@)
        } else {
            Seq::empty()
        },
    }
}

/// The HTML text written for the first `i` children, each with its own
/// markup included, in the given context.
pub open spec fn html_children(
    cs: Seq<NodeRef>,
    ctx: (Option<Seq<char>>, bool),
    i: int,
) -> Seq<char>
    decreases cs, i,
{
    if i <= 0 || i > cs.len() {
        Seq::empty()
    } else {
        html_children(cs, ctx, i - 1) + html_of(cs[i - 1], ctx, true)
    }
}

/// The HTML rendering of a node from a fresh serializer: the node itself and
/// its subtree, or its children only.
pub open spec fn spec_html(n: NodeRef, with_self: bool) -> Seq<char> {
    html_of(n, bottom_ctx(), with_self)
}

/// The text written so far to an HTML serializer sink, decoded from its
/// UTF-8 buffer.
pub uninterp spec fn html_out(s: &HtmlSink) -> Seq<char>;

/// The serializer's stack of open-element entries: the HTML-namespace local
/// name of each open element, and whether its children are skipped.
pub uninterp spec fn html_stack(s: &HtmlSink) -> Seq<(Option<Seq<char>>, bool)>;

/// An HTML serializer of the html5ever crate, writing to an in-memory
/// buffer. Its behaviour is stated over `html_out` and `html_stack` by the
/// trusted wrappers below, each mirroring what html5ever's source does.
#[verifier::external_body]
pub struct HtmlSink {
    inner: HtmlSerializer<Vec<u8>>,
}

/// Relies on html5ever's `HtmlSerializer::new` with the default options
/// (scripting enabled): it starts with an empty buffer and one stack entry
/// with no name and children written.
#[verifier::external_body]
fn html_sink_new() -> (s: HtmlSink)
    ensures
        html_out(&s) == Seq::<char>::empty(),
        html_stack(&s) == seq![(None::<Seq<char>>, false)],
{
    HtmlSink { inner: HtmlSerializer::new(Vec::new(), SerializeOpts::default()) }
}

/// Relies on html5ever's `HtmlSerializer::start_elem`: under an entry that
/// skips children it writes nothing; otherwise it writes the start tag with
/// the attributes in order and escaped. Either way it pushes the entry for
/// the new element. Writing to a `Vec` buffer never fails.
#[verifier::external_body]
fn html_sink_start(s: &mut HtmlSink, name: &QName, attrs: &Vec<Attr>)
    requires
        html_stack(old(s)).len() >= 1,
    ensures
        html_stack(final(s)) == html_stack(old(s)).push(
            pushed_info(name@, html_stack(old(s)).last()),
        ),
        html_out(final(s)) == html_out(old(s)) + (if html_stack(old(s)).last().1 {
            Seq::<char>::empty()
        } else {
            start_tag_text(name@, attrs_view(attrs@))
        }),
{
    let qn = QualName::new(
        name.prefix.as_ref().map(|p| Prefix::from(p.as_str())),
        Namespace::from(name.ns.as_str()),
        LocalName::from(name.local.as_str()),
    );
    let list: Vec<(QualName, &str)> = attrs.iter().map(|a| (QualName::new(
        a.prefix.as_ref().map(|p| Prefix::from(p.as_str())),
        Namespace::from(a.ns.as_str()),
        LocalName::from(a.local.as_str()),
    ), a.value.as_str())).collect();
    s.inner.start_elem(qn, list.iter().map(|t| (&t.0, t.1))).expect("buffer write");
}

/// Relies on html5ever's `HtmlSerializer::end_elem`: it pops the top entry
/// and writes the end tag unless that entry skipped its children.
#[verifier::external_body]
fn html_sink_end(s: &mut HtmlSink, name: &QName)
    requires
        html_stack(old(s)).len() >= 1,
    ensures
        html_stack(final(s)) == html_stack(old(s)).drop_last(),
        html_out(final(s)) == html_out(old(s)) + (if html_stack(old(s)).last().1 {
            Seq::<char>::empty()
        } else {
            end_tag_text(name@)
        }),
{
    let qn = QualName::new(
        name.prefix.as_ref().map(|p| Prefix::from(p.as_str())),
        Namespace::from(name.ns.as_str()),
        LocalName::from(name.local.as_str()),
    );
    s.inner.end_elem(qn).expect("buffer write");
}

/// Relies on html5ever's `HtmlSerializer::write_text`: text is written
/// unescaped directly under a raw-text element, and escaped everywhere else.
#[verifier::external_body]
fn html_sink_text(s: &mut HtmlSink, text: &String)
    requires
        html_stack(old(s)).len() >= 1,
    ensures
        html_stack(final(s)) == html_stack(old(s)),
        html_out(final(s)) == html_out(old(s)) + (if is_raw_ctx(html_stack(old(s)).last().0) {
            text@
        } else {
            esc_text(text@)
        }),
{
    s.inner.write_text(text.as_str()).expect("buffer write");
}

/// Relies on html5ever's `HtmlSerializer::write_comment`: the content is
/// written between comment markers, unescaped.
#[verifier::external_body]
fn html_sink_comment(s: &mut HtmlSink, text: &String)
    ensures
        html_stack(final(s)) == html_stack(old(s)),
        html_out(final(s)) == html_out(old(s)) + comment_text(text@),
{
    s.inner.write_comment(text.as_str()).expect("buffer write");
}

/// Relies on html5ever's `HtmlSerializer::write_doctype`.
#[verifier::external_body]
fn html_sink_doctype(s: &mut HtmlSink, name: &String)
    ensures
        html_stack(final(s)) == html_stack(old(s)),
        html_out(final(s)) == html_out(old(s)) + doctype_text(name@),
{
    s.inner.write_doctype(name.as_str()).expect("buffer write");
}

/// Relies on html5ever's `HtmlSerializer::write_processing_instruction`.
#[verifier::external_body]
fn html_sink_pi(s: &mut HtmlSink, target: &String, content: &String)
    ensures
        html_stack(final(s)) == html_stack(old(s)),
        html_out(final(s)) == html_out(old(s)) + pi_text(target@, content@),
{
    s.inner.write_processing_instruction(target.as_str(), content.as_str()).expect(
        "buffer write",
    );
}

/// Relies on html5ever writing only UTF-8 to its buffer (string slices and
/// ASCII escapes), so decoding the buffer never fails.
#[verifier::external_body]
fn html_sink_take(s: HtmlSink) -> (r: String)
    ensures
        r@ == html_out(&s),
{
    String::from_utf8(s.inner.writer).expect("serializer wrote UTF-8")
}

impl NodeRef {
    /// Emits this node (or only its children) to the HTML serializer.
    fn ser_html(&self, s: &mut HtmlSink, with_self: bool)
        requires
            html_stack(old(s)).len() >= 1,
        ensures
            html_stack(final(s)) == html_stack(old(s)),
            html_out(final(s)) == html_out(old(s)) + html_of(
                *self,
                html_stack(old(s)).last(),
                with_self,
            ),
        decreases *self, 1int,
    {
        let ghost ctx = html_stack(s).last();
        match &self.data {
            NodeData::Element(e) => {
                if with_self {
                    html_sink_start(s, &e.name, &e.attributes);
                    proof {
                        assert(html_stack(s).last() == pushed_info(e.name@, ctx));
                        assert(html_stack(s).len() >= 1);
                    }
                }
                ser_html_children(&self.children, s);
                if with_self {
                    html_sink_end(s, &e.name);
                }
                proof {
                    if with_self {
                        assert(html_stack(s) =~= html_stack(old(s)));
                    }
                    assert(html_out(s) =~= html_out(old(s)) + html_of(*self, ctx, with_self));
                }
            },
            NodeData::Document | NodeData::DocumentFragment => {
                ser_html_children(&self.children, s);
                proof {
                    assert(html_out(s) =~= html_out(old(s)) + html_of(*self, ctx, with_self));
                }
            },
            NodeData::Doctype { name } => {
                if with_self {
                    html_sink_doctype(s, name);
                } else {
                    proof {
                        assert(html_out(s) =~= html_out(old(s)) + html_of(
                            *self,
                            ctx,
                            with_self,
                        ));
                    }
                }
            },
            NodeData::Text { content } => {
                if with_self {
                    html_sink_text(s, content);
                } else {
                    proof {
                        assert(html_out(s) =~= html_out(old(s)) + html_of(
                            *self,
                            ctx,
                            with_self,
                        ));
                    }
                }
            },
            NodeData::Comment { content } => {
                if with_self {
                    html_sink_comment(s, content);
                } else {
                    proof {
                        assert(html_out(s) =~= html_out(old(s)) + html_of(
                            *self,
                            ctx,
                            with_self,
                        ));
                    }
                }
            },
            NodeData::ProcessingInstruction { target, content } => {
                if with_self {
                    html_sink_pi(s, target, content);
                } else {
                    proof {
                        assert(html_out(s) =~= html_out(old(s)) + html_of(
                            *self,
                            ctx,
                            with_self,
                        ));
                    }
                }
            },
        }
    }

    /// Renders this node in HTML syntax: its own markup and its subtree when
    /// `with_self` holds, its children only otherwise.
    pub fn serialize(&self, with_self: bool) -> (r: String)
        ensures
            r@ == spec_html(*self, with_self),
    {
        let mut s = html_sink_new();
        self.ser_html(&mut s, with_self);
        proof {
            assert(Seq::<char>::empty() + spec_html(*self, with_self) =~= spec_html(
                *self,
                with_self,
            ));
        }
        html_sink_take(s)
    }

    /// The outer HTML of the node: its own markup and everything below it.
    pub fn html(&self) -> (r: String)
        ensures
            r@ == spec_html(*self, true),
    {
        self.serialize(true)
    }

    /// The inner HTML of the node: only what is below it.
    pub fn inner_html(&self) -> (r: String)
        ensures
            r@ == spec_html(*self, false),
    {
        self.serialize(false)
    }
}

/// Emits every child, in document order, each with its own markup included.
fn ser_html_children(children: &Vec<NodeRef>, s: &mut HtmlSink)
    requires
        html_stack(old(s)).len() >= 1,
    ensures
        html_stack(final(s)) == html_stack(old(s)),
        html_out(final(s)) == html_out(old(s)) + html_children(
            children@,
            html_stack(old(s)).last(),
            children@.len() as int,
        ),
    decreases *children, 0int,
{
    let ghost ctx = html_stack(s).last();
    let mut j: usize = 0;
    #[verifier::loop_isolation(false)]
    while j < children.len()
        invariant
            j <= children@.len(),
            html_stack(s) == html_stack(old(s)),
            html_out(s) == html_out(old(s)) + html_children(children@, ctx, j as int),
        decreases children@.len() - j,
    {
        proof {
            assert(decreases_to!(*children, 0int => children@[j as int], 1int));
        }
        children[j].ser_html(s, true);
        proof {
            assert(html_out(s) =~= html_out(old(s)) + html_children(
                children@,
                ctx,
                j as int + 1,
            ));
        }
        j += 1;
    }
}

} // verus!

