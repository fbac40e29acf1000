use vstd::prelude::*;

verus! {

/// A namespace-qualified name for an element or an attribute: an optional
/// prefix, a namespace url (empty for "no namespace") and a local name.
pub struct QName {
    pub prefix: Option<String>,
    pub ns: String,
    pub local: String,
}

/// Ghost image of a qualified name, over character sequences.
pub struct QNameV {
    pub prefix: Option<Seq<char>>,
    pub ns: Seq<char>,
    pub local: Seq<char>,
}

impl View for QName {
    type V = QNameV;

    open spec fn view(&self) -> QNameV {
        QNameV {
            prefix: match self.prefix {
                Some(p) => Some(p@),
                None => None,
            },
            ns: self.ns@,
            local: self.local@,
        }
    }
}

/// One attribute of an element. Its identity (for uniqueness within an
/// element) is the pair of namespace url and local name; the prefix is kept
/// only for serialization.
pub struct Attr {
    pub prefix: Option<String>,
    pub ns: String,
    pub local: String,
    pub value: String,
}

/// Ghost image of an attribute.
pub struct AttrV {
    pub prefix: Option<Seq<char>>,
    pub ns: Seq<char>,
    pub local: Seq<char>,
    pub value: Seq<char>,
}

impl View for Attr {
    type V = AttrV;

    open spec fn view(&self) -> AttrV {
        AttrV {
            prefix: match self.prefix {
                Some(p) => Some(p@),
                None => None,
            },
            ns: self.ns@,
            local: self.local@,
            value: self.value@,
        }
    }
}

/// The payload of an element node: its qualified tag name, its attributes in
/// first-insertion order, and whether the element is an HTML template.
pub struct ElementData {
    pub name: QName,
    pub attributes: Vec<Attr>,
    pub template: bool,
}

/// What a node is: exactly one variant per node.
pub enum NodeData {
    /// Root marker of a full document; carries no rendered content itself.
    Document,
    /// Root marker of a detached subtree; likewise unrendered itself.
    DocumentFragment,
    /// A doctype declaration.
    Doctype { name: String },
    /// Character data.
    Text { content: String },
    /// A comment.
    Comment { content: String },
    /// A processing instruction.
    ProcessingInstruction { target: String, content: String },
    /// An element with a tag name and attributes.
    Element(ElementData),
}

/// The error of a tree operation that would break a tree invariant; the tree
/// is left unchanged when it is returned.
#[derive(Clone, Copy, PartialEq, Eq, Structural, Debug)]
pub enum TreeError {
    InvalidOperation,
}

/// A node of the markup tree. A node owns its children, so ownership flows
/// from a parent down into its subtree, and the children of a node form a
/// strictly ordered sequence: insertion order is document order.
pub struct NodeRef {
    pub data: NodeData,
    pub children: Vec<NodeRef>,
}

impl NodeData {
    /// Only documents, fragments and elements may hold children.
    pub open spec fn can_have_children(&self) -> bool {
        match self {
            NodeData::Document => true,
            NodeData::DocumentFragment => true,
            NodeData::Element(_) => true,
            _ => false,
        }
    }

    /// Runtime test matching `can_have_children`.
    pub fn is_container(&self) -> (r: bool)
        ensures
            r == self.can_have_children(),
    {
        match self {
            NodeData::Document => true,
            NodeData::DocumentFragment => true,
            NodeData::Element(_) => true,
            _ => false,
        }
    }
}

/// The key of an attribute: the pair that must stay unique on one element.
pub open spec fn attr_key(a: AttrV) -> (Seq<char>, Seq<char>) {
    (a.ns, a.local)
}

/// First index at or after `i` whose attribute carries the given key, or -1.
pub open spec fn attr_index_from(
    attrs: Seq<AttrV>,
    ns: Seq<char>,
    local: Seq<char>,
    i: int,
) -> int
    decreases attrs.len() - i,
{
    if i < 0 || i >= attrs.len() {
        -1
    } else if attrs[i].ns == ns && attrs[i].local == local {
        i
    } else {
        attr_index_from(attrs, ns, local, i + 1)
    }
}

/// No two attributes of the sequence share a key.
pub open spec fn attrs_unique(attrs: Seq<AttrV>) -> bool {
    forall|i: int, j: int|
        0 <= i < j < attrs.len() ==> attr_key(attrs[i]) != attr_key(attrs[j])
}

/// The view of an attribute list.
pub open spec fn attrs_view(attrs: Seq<Attr>) -> Seq<AttrV> {
    attrs.map_values(|a: Attr| a@)
}

impl NodeRef {
    /// Well-formedness of a subtree: leaves hold no children, and every
    /// element's attributes carry pairwise distinct qualified names.
    pub open spec fn wf(self) -> bool
        decreases self,
    {
        &&& (!self.data.can_have_children() ==> self.children@.len() == 0)
        &&& (match self.data {
            NodeData::Element(e) => attrs_unique(attrs_view(e.attributes@)),
            _ => true,
        })
        &&& (forall|i: int| #![trigger self.children@[i]]
            0 <= i < self.children@.len() ==> self.children@[i].wf())
    }

    /// Creates an empty document root.
    pub fn new_document() -> (r: NodeRef)
        ensures
            r.data == NodeData::Document,
            r.children@ =~= Seq::<NodeRef>::empty(),
            r.wf(),
    {
        NodeRef { data: NodeData::Document, children: Vec::new() }
    }

    /// Creates an empty fragment root.
    pub fn new_fragment() -> (r: NodeRef)
        ensures
            r.data == NodeData::DocumentFragment,
            r.children@ =~= Seq::<NodeRef>::empty(),
            r.wf(),
    {
        NodeRef { data: NodeData::DocumentFragment, children: Vec::new() }
    }

    /// Creates a doctype node.
    pub fn new_doctype(name: String) -> (r: NodeRef)
        ensures
            r.data == (NodeData::Doctype { name }),
            r.children@ =~= Seq::<NodeRef>::empty(),
            r.wf(),
    {
        NodeRef { data: NodeData::Doctype { name }, children: Vec::new() }
    }

    /// Creates a text node.
    pub fn new_text(content: String) -> (r: NodeRef)
        ensures
            r.data == (NodeData::Text { content }),
            r.children@ =~= Seq::<NodeRef>::empty(),
            r.wf(),
    {
        NodeRef { data: NodeData::Text { content }, children: Vec::new() }
    }

    /// Creates a comment node.
    pub fn new_comment(content: String) -> (r: NodeRef)
        ensures
            r.data == (NodeData::Comment { content }),
            r.children@ =~= Seq::<NodeRef>::empty(),
            r.wf(),
    {
        NodeRef { data: NodeData::Comment { content }, children: Vec::new() }
    }

    /// Creates a processing-instruction node.
    pub fn new_processing_instruction(target: String, content: String) -> (r: NodeRef)
        ensures
            r.data == (NodeData::ProcessingInstruction { target, content }),
            r.children@ =~= Seq::<NodeRef>::empty(),
            r.wf(),
    {
        NodeRef {
            data: NodeData::ProcessingInstruction { target, content },
            children: Vec::new(),
        }
    }

    /// Creates an element node without attributes; attributes are added one
    /// by one with `insert_attribute`, which keeps their order and uniqueness.
    pub fn new_element(name: QName) -> (r: NodeRef)
        ensures
            r.data matches NodeData::Element(e) && e.name == name && e.attributes@
                =~= Seq::<Attr>::empty() && !e.template,
            r.children@ =~= Seq::<NodeRef>::empty(),
            r.wf(),
    {
        NodeRef {
            data: NodeData::Element(
                ElementData { name, attributes: Vec::new(), template: false },
            ),
            children: Vec::new(),
        }
    }

    /// The direct children, in document order.
    pub fn children(&self) -> (r: &Vec<NodeRef>)
        ensures
            r@ == self.children@,
    {
        &self.children
    }

    /// What this node is.
    pub fn data(&self) -> (r: &NodeData)
        ensures
            *r == self.data,
    {
        &self.data
    }

    /// Appends `child` (with its whole subtree) at the end of the child list.
    /// Fails, leaving the tree unchanged, when this node's variant cannot
    /// hold children.
    pub fn append_child(&mut self, child: NodeRef) -> (r: Result<(), TreeError>)
        ensures
            match r {
                Ok(()) => {
                    &&& old(self).data.can_have_children()
                    &&& final(self).data == old(self).data
                    &&& final(self).children@ == old(self).children@.push(child)
                    &&& (old(self).wf() && child.wf() ==> final(self).wf())
                },
                Err(TreeError::InvalidOperation) => {
                    &&& !old(self).data.can_have_children()
                    &&& *final(self) == *old(self)
                },
            },
    {
        if !self.data.is_container() {
            return Err(TreeError::InvalidOperation);
        }
        let ghost pre = *self;
        self.children.push(child);
        proof {
            if pre.wf() && child.wf() {
                assert forall|i: int| 0 <= i < self.children@.len() implies #[trigger] self
                    .children@[i].wf() by {
                    if i < pre.children@.len() {
                        assert(pre.children@[i].wf());
                    }
                }
            }
        }
        Ok(())
    }

    /// Inserts `child` so that it becomes the child at `position` (0 prepends,
    /// the current length appends). Fails, leaving the tree unchanged, when
    /// this node cannot hold children or the position is past the end.
    pub fn insert_child(&mut self, position: usize, child: NodeRef) -> (r: Result<
        (),
        TreeError,
    >)
        ensures
            match r {
                Ok(()) => {
                    &&& old(self).data.can_have_children()
                    &&& position <= old(self).children@.len()
                    &&& final(self).data == old(self).data
                    &&& final(self).children@ == old(self).children@.insert(
                        position as int,
                        child,
                    )
                    &&& (old(self).wf() && child.wf() ==> final(self).wf())
                },
                Err(TreeError::InvalidOperation) => {
                    &&& !(old(self).data.can_have_children() && position <= old(
                        self,
                    ).children@.len())
                    &&& *final(self) == *old(self)
                },
            },
    {
        if !self.data.is_container() || position > self.children.len() {
            return Err(TreeError::InvalidOperation);
        }
        let ghost pre = *self;
        self.children.insert(position, child);
        proof {
            if pre.wf() && child.wf() {
                assert forall|i: int| 0 <= i < self.children@.len() implies #[trigger] self
                    .children@[i].wf() by {
                    if i < position {
                        assert(self.children@[i] == pre.children@[i]);
                        assert(pre.children@[i].wf());
                    } else if i > position {
                        assert(self.children@[i] == pre.children@[i - 1]);
                        assert(pre.children@[i - 1].wf());
                    }
                }
            }
        }
        Ok(())
    }

    /// Detaches and returns the child at `position`; ownership of the
    /// detached subtree passes to the caller. Fails, leaving the tree
    /// unchanged, when there is no such child.
    pub fn detach_child(&mut self, position: usize) -> (r: Result<NodeRef, TreeError>)
        ensures
            match r {
                Ok(c) => {
                    &&& position < old(self).children@.len()
                    &&& c == old(self).children@[position as int]
                    &&& final(self).data == old(self).data
                    &&& final(self).children@ == old(self).children@.remove(position as int)
                    &&& (old(self).wf() ==> final(self).wf() && c.wf())
                },
                Err(TreeError::InvalidOperation) => {
                    &&& position >= old(self).children@.len()
                    &&& *final(self) == *old(self)
                },
            },
    {
        if position >= self.children.len() {
            return Err(TreeError::InvalidOperation);
        }
        let ghost pre = *self;
        let c = self.children.remove(position);
        proof {
            if pre.wf() {
                assert(pre.children@[position as int].wf());
                assert forall|i: int| 0 <= i < self.children@.len() implies #[trigger] self
                    .children@[i].wf() by {
                    if i < position {
                        assert(self.children@[i] == pre.children@[i]);
                        assert(pre.children@[i].wf());
                    } else {
                        assert(self.children@[i] == pre.children@[i + 1]);
                        assert(pre.children@[i + 1].wf());
                    }
                }
            }
        }
        Ok(c)
    }

    /// Replaces the character content of a text, comment or
    /// processing-instruction node. Fails, leaving the node unchanged, on any
    /// other variant.
    pub fn set_content(&mut self, text: String) -> (r: Result<(), TreeError>)
        ensures
            match r {
                Ok(()) => {
                    &&& final(self).children@ == old(self).children@
                    &&& match old(self).data {
                        NodeData::Text { .. } => final(self).data == (NodeData::Text {
                            content: text,
                        }),
                        NodeData::Comment { .. } => final(self).data == (NodeData::Comment {
                            content: text,
                        }),
                        NodeData::ProcessingInstruction { target, .. } => final(self).data
                            == (NodeData::ProcessingInstruction { target, content: text }),
                        _ => false,
                    }
                    &&& (old(self).wf() ==> final(self).wf())
                },
                Err(TreeError::InvalidOperation) => {
                    &&& match old(self).data {
                        NodeData::Text { .. }
                        | NodeData::Comment { .. }
                        | NodeData::ProcessingInstruction { .. } => false,
                        _ => true,
                    }
                    &&& *final(self) == *old(self)
                },
            },
    {
        match &mut self.data {
            NodeData::Text { content } => {
                *content = text;
                Ok(())
            },
            NodeData::Comment { content } => {
                *content = text;
                Ok(())
            },
            NodeData::ProcessingInstruction { content, .. } => {
                *content = text;
                Ok(())
            },
            _ => Err(TreeError::InvalidOperation),
        }
    }

    /// Marks or unmarks an element as an HTML template. Fails, leaving the
    /// node unchanged, on a non-element.
    pub fn set_template(&mut self, value: bool) -> (r: Result<(), TreeError>)
        ensures
            match r {
                Ok(()) => {
                    &&& old(self).data is Element
                    &&& final(self).children@ == old(self).children@
                    &&& match (old(self).data, final(self).data) {
                        (NodeData::Element(e0), NodeData::Element(e1)) => {
                            &&& e1.name == e0.name
                            &&& e1.attributes@ == e0.attributes@
                            &&& e1.template == value
                        },
                        _ => false,
                    }
                    &&& (old(self).wf() ==> final(self).wf())
                },
                Err(TreeError::InvalidOperation) => {
                    &&& !(old(self).data is Element)
                    &&& *final(self) == *old(self)
                },
            },
    {
        match &mut self.data {
            NodeData::Element(e) => {
                e.template = value;
                Ok(())
            },
            _ => Err(TreeError::InvalidOperation),
        }
    }

    /// Sets an attribute on an element. When an attribute with the same
    /// qualified name (namespace and local name) is already present, the new
    /// attribute takes its place, so the first-insertion order of the keys is
    /// kept and the last write of a value wins; otherwise the attribute is
    /// appended. Fails, leaving the node unchanged, on a non-element.
    pub fn insert_attribute(&mut self, attr: Attr) -> (r: Result<(), TreeError>)
        ensures
            match r {
                Ok(()) => {
                    &&& old(self).data is Element
                    &&& final(self).children@ == old(self).children@
                    &&& match (old(self).data, final(self).data) {
                        (NodeData::Element(e0), NodeData::Element(e1)) => {
                            let prior = attrs_view(e0.attributes@);
                            let idx = attr_index_from(prior, attr.ns@, attr.local@, 0);
                            &&& e1.name == e0.name
                            &&& e1.template == e0.template
                            &&& attrs_view(e1.attributes@) == (if idx >= 0 {
                                prior.update(idx, attr@)
                            } else {
                                prior.push(attr@)
                            })
                        },
                        _ => false,
                    }
                    &&& (old(self).wf() ==> final(self).wf())
                },
                Err(TreeError::InvalidOperation) => {
                    &&& !(old(self).data is Element)
                    &&& *final(self) == *old(self)
                },
            },
    {
        let ghost pre = *self;
        match &mut self.data {
            NodeData::Element(e) => {
                let ghost prior = attrs_view(e.attributes@);
                let ghost ename = e.name;
                let ghost etemplate = e.template;
                proof {
                    assert(pre.data matches NodeData::Element(e0) && attrs_view(e0.attributes@)
                        == prior && e0.name == ename && e0.template == etemplate);
                }
                let mut j: usize = 0;
                #[verifier::loop_isolation(false)]
                while j < e.attributes.len()
                    invariant
                        j <= e.attributes@.len(),
                        attrs_view(e.attributes@) == prior,
                        e.name == ename,
                        e.template == etemplate,
                        forall|k: int|
                            0 <= k < j ==> attr_key(#[trigger] prior[k]) != attr_key(attr@),
                    decreases e.attributes@.len() - j,
                {
                    if e.attributes[j].ns == attr.ns && e.attributes[j].local == attr.local {
                        proof {
                            lemma_attr_index_found(prior, attr.ns@, attr.local@, j as int);
                        }
                        e.attributes[j] = attr;
                        proof {
                            assert(attrs_view(e.attributes@) =~= prior.update(
                                j as int,
                                attr@,
                            ));
                            if pre.wf() {
                                assert(attrs_unique(prior));
                                lemma_update_same_key_unique(prior, j as int, attr@);
                            }
                        }
                        return Ok(());
                    }
                    j += 1;
                }
                proof {
                    lemma_attr_index_missing(prior, attr.ns@, attr.local@);
                }
                e.attributes.push(attr);
                proof {
                    assert(attrs_view(e.attributes@) =~= prior.push(attr@));
                    if pre.wf() {
                        assert(attrs_unique(prior));
                        lemma_push_new_key_unique(prior, attr@);
                    }
                }
                Ok(())
            },
            _ => Err(TreeError::InvalidOperation),
        }
    }
}

/// When position `j` holds the key and nothing before it does, `j` is the
/// first index with that key.
proof fn lemma_attr_index_found(attrs: Seq<AttrV>, ns: Seq<char>, local: Seq<char>, j: int)
    requires
        0 <= j < attrs.len(),
        attrs[j].ns == ns && attrs[j].local == local,
        forall|k: int| 0 <= k < j ==> attr_key(#[trigger] attrs[k]) != (ns, local),
    ensures
        attr_index_from(attrs, ns, local, 0) == j,
{
    lemma_attr_index_found_from(attrs, ns, local, j, 0);
}

proof fn lemma_attr_index_found_from(
    attrs: Seq<AttrV>,
    ns: Seq<char>,
    local: Seq<char>,
    j: int,
    i: int,
)
    requires
        0 <= i <= j < attrs.len(),
        attrs[j].ns == ns && attrs[j].local == local,
        forall|k: int| 0 <= k < j ==> attr_key(#[trigger] attrs[k]) != (ns, local),
    ensures
        attr_index_from(attrs, ns, local, i) == j,
    decreases j - i,
{
    if i < j {
        assert(attr_key(attrs[i]) != (ns, local));
        assert(!(attrs[i].ns == ns && attrs[i].local == local));
        lemma_attr_index_found_from(attrs, ns, local, j, i + 1);
    }
}

/// When no position holds the key, the search reports -1.
proof fn lemma_attr_index_missing(attrs: Seq<AttrV>, ns: Seq<char>, local: Seq<char>)
    requires
        forall|k: int|
            0 <= k < attrs.len() ==> attr_key(#[trigger] attrs[k]) != (ns, local),
    ensures
        attr_index_from(attrs, ns, local, 0) == -1,
{
    lemma_attr_index_missing_from(attrs, ns, local, 0);
}

proof fn lemma_attr_index_missing_from(
    attrs: Seq<AttrV>,
    ns: Seq<char>,
    local: Seq<char>,
    i: int,
)
    requires
        forall|k: int|
            0 <= k < attrs.len() ==> attr_key(#[trigger] attrs[k]) != (ns, local),
        0 <= i,
    ensures
        attr_index_from(attrs, ns, local, i) == -1,
    decreases attrs.len() - i,
{
    if i < attrs.len() {
        assert(attr_key(attrs[i]) != (ns, local));
        assert(!(attrs[i].ns == ns && attrs[i].local == local));
        lemma_attr_index_missing_from(attrs, ns, local, i + 1);
    }
}

/// Replacing an attribute by one with the same key keeps the keys unique.
proof fn lemma_update_same_key_unique(attrs: Seq<AttrV>, j: int, a: AttrV)
    requires
        attrs_unique(attrs),
        0 <= j < attrs.len(),
        attr_key(attrs[j]) == attr_key(a),
    ensures
        attrs_unique(attrs.update(j, a)),
{
}

/// Appending an attribute with a fresh key keeps the keys unique.
proof fn lemma_push_new_key_unique(attrs: Seq<AttrV>, a: AttrV)
    requires
        attrs_unique(attrs),
        forall|k: int| 0 <= k < attrs.len() ==> attr_key(#[trigger] attrs[k]) != attr_key(a),
    ensures
        attrs_unique(attrs.push(a)),
{
}

} // verus!

