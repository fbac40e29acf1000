use vstd::prelude::*;

use crate::html::{
    bottom_ctx, end_tag_text, html_children, html_of, is_raw_ctx, is_raw_local,
    is_void_local, ns_html, pushed_info, spec_html, start_tag_text,
};
use crate::tree::{attrs_view, NodeData, NodeRef};

verus! {

/// The HTML text written for a node does not depend on the serializer
/// context beyond whether children are being skipped and whether the nearest
/// open element takes raw text.
proof fn lemma_ctx_equiv(
    n: NodeRef,
    c1: (Option<Seq<char>>, bool),
    c2: (Option<Seq<char>>, bool),
    with_self: bool,
)
    requires
        c1.1 == c2.1,
        is_raw_ctx(c1.0) == is_raw_ctx(c2.0),
    ensures
        html_of(n, c1, with_self) == html_of(n, c2, with_self),
    decreases n, 1int,
{
    match n.data {
        NodeData::Element(e) => {
            if with_self {
                assert(pushed_info(e.name@, c1) == pushed_info(e.name@, c2));
            } else {
                lemma_ctx_equiv_children(
                    n.children@,
                    c1,
                    c2,
                    n.children@.len() as int,
                );
            }
        },
        NodeData::Document | NodeData::DocumentFragment => {
            lemma_ctx_equiv_children(n.children@, c1, c2, n.children@.len() as int);
        },
        _ => {},
    }
}

/// Context independence, lifted over a child list.
proof fn lemma_ctx_equiv_children(
    cs: Seq<NodeRef>,
    c1: (Option<Seq<char>>, bool),
    c2: (Option<Seq<char>>, bool),
    i: int,
)
    requires
        c1.1 == c2.1,
        is_raw_ctx(c1.0) == is_raw_ctx(c2.0),
    ensures
        html_children(cs, c1, i) == html_children(cs, c2, i),
    decreases cs, i,
{
    if 0 < i <= cs.len() {
        lemma_ctx_equiv_children(cs, c1, c2, i - 1);
        lemma_ctx_equiv(cs[i - 1], c1, c2, true);
    }
}

/// Outer versus inner rendering: for an element that is neither a void nor a
/// raw-text HTML element, the outer HTML is exactly the start tag, then the
/// inner HTML, then the end tag.
pub proof fn lemma_outer_is_tag_inner_tag(n: NodeRef)
    requires
        n.data matches NodeData::Element(e) && !(e.name@.ns == ns_html() && (is_void_local(
            e.name@.local,
        ) || is_raw_local(e.name@.local))),
    ensures
        n.data matches NodeData::Element(e) ==> spec_html(n, true) == start_tag_text(
            e.name@,
            attrs_view(e.attributes@),
        ) + spec_html(n, false) + end_tag_text(e.name@),
{
    let e = n.data->Element_0;
    let pushed = pushed_info(e.name@, bottom_ctx());
    assert(!pushed.1);
    assert(is_raw_ctx(pushed.0) == is_raw_ctx(bottom_ctx().0));
    lemma_ctx_equiv_children(
        n.children@,
        pushed,
        bottom_ctx(),
        n.children@.len() as int,
    );
    assert(spec_html(n, false) =~= html_children(
        n.children@,
        bottom_ctx(),
        n.children@.len() as int,
    ));
}

/// A childless element renders an empty inner HTML; in particular a void
/// element, which can never hold children, has no inner HTML.
pub proof fn lemma_inner_of_childless(n: NodeRef)
    requires
        n.data is Element,
        n.children@.len() == 0,
    ensures
        spec_html(n, false) == Seq::<char>::empty(),
{
    assert(spec_html(n, false) =~= Seq::<char>::empty());
}

/// Document and fragment transparency: rendering the node itself emits no
/// markup of its own, only its descendants, so outer and inner HTML agree.
pub proof fn lemma_container_transparent(n: NodeRef)
    requires
        n.data is Document || n.data is DocumentFragment,
    ensures
        spec_html(n, true) == spec_html(n, false),
{
}

/// Determinism: rendering an unchanged tree twice gives character-identical
/// output, since the rendering is a function of the tree alone.
pub proof fn lemma_render_deterministic(
    n: NodeRef,
    r1: Seq<char>,
    r2: Seq<char>,
    with_self: bool,
)
    requires
        r1 == spec_html(n, with_self),
        r2 == spec_html(n, with_self),
    ensures
        r1 == r2,
{
}

} // verus!
