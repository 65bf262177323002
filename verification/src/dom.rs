//! The document tree that the bindings read and write: an arena of nodes
//! indexed by `NodeId`, each element holding an ordered attribute list.
use vstd::prelude::*;
use crate::text::{
    chars_of, first_index, lemma_first_index, lemma_first_index_is, lemma_first_index_none, owned,
    str_eq, string_of,
};

verus! {

pub type NodeId = usize;

/// The XHTML namespace, given to elements created in HTML documents.
pub open spec fn xhtml_ns() -> Seq<char> {
    seq!['h', 't', 't', 'p', ':', '/', '/', 'w', 'w', 'w', '.', 'w', '3', '.', 'o', 'r', 'g', '/', '1', '9', '9', '9', '/', 'x', 'h', 't', 'm', 'l']
}

pub fn xhtml_namespace() -> (r: String)
    ensures
        r@ == xhtml_ns(),
{
    let s = owned("http://www.w3.org/1999/xhtml");
    proof {
        reveal_strlit("http://www.w3.org/1999/xhtml");
    }
    assert(s@ =~= xhtml_ns());
    s
}

/// What an attribute holds, as plain values. An empty namespace stands for
/// the null namespace and an empty prefix for no prefix.
pub struct AttrView {
    pub local: Seq<char>,
    pub ns: Seq<char>,
    pub prefix: Seq<char>,
    pub value: Seq<char>,
}

impl AttrView {
    /// The attribute's qualified name: `prefix:local`, or `local` without prefix.
    pub open spec fn qname(self) -> Seq<char> {
        if self.prefix.len() == 0 {
            self.local
        } else {
            self.prefix + seq![':'] + self.local
        }
    }
}

/// Predicate: the attribute's qualified name is `name`.
pub open spec fn qname_is(name: Seq<char>) -> spec_fn(AttrView) -> bool {
    |a: AttrView| a.qname() == name
}

/// Predicate: the attribute's local name is `local`.
pub open spec fn local_is(local: Seq<char>) -> spec_fn(AttrView) -> bool {
    |a: AttrView| a.local == local
}

/// Predicate: the attribute has namespace `ns` and local name `local`.
pub open spec fn ns_local_is(ns: Seq<char>, local: Seq<char>) -> spec_fn(AttrView) -> bool {
    |a: AttrView| a.ns == ns && a.local == local
}

/// Predicate: the attribute's qualified name or its local name is `name`
/// (how attribute nodes are looked up by name).
pub open spec fn qname_or_local_is(name: Seq<char>) -> spec_fn(AttrView) -> bool {
    |a: AttrView| a.qname() == name || a.local == name
}

/// Predicate: the attribute's qualified name is `name` or its local name is
/// `local` (how an attribute node without a namespace is found again).
pub open spec fn name_or_local_is(name: Seq<char>, local: Seq<char>) -> spec_fn(AttrView) -> bool {
    |a: AttrView| a.qname() == name || a.local == local
}

/// Value of the first attribute of `attrs` satisfying `p`.
pub open spec fn value_where(attrs: Seq<AttrView>, p: spec_fn(AttrView) -> bool) -> Option<
    Seq<char>,
> {
    let i = first_index(attrs, p);
    if i < 0 {
        None
    } else {
        Some(attrs[i].value)
    }
}

/// `setAttribute(name, value)` on an attribute list: change the value of the
/// first attribute named `name`, or append a new un-namespaced one.
pub open spec fn attrs_set(attrs: Seq<AttrView>, name: Seq<char>, value: Seq<char>) -> Seq<
    AttrView,
> {
    let i = first_index(attrs, qname_is(name));
    if i >= 0 {
        attrs.update(i, AttrView { value: value, ..attrs[i] })
    } else {
        attrs.push(AttrView { local: name, ns: Seq::empty(), prefix: Seq::empty(), value: value })
    }
}

/// `removeAttribute(name)` on an attribute list: drop the first attribute named `name`.
pub open spec fn attrs_remove(attrs: Seq<AttrView>, name: Seq<char>) -> Seq<AttrView> {
    let i = first_index(attrs, qname_is(name));
    if i >= 0 {
        attrs.remove(i)
    } else {
        attrs
    }
}

/// `setAttributeNS` on an attribute list: change the value of the attribute with
/// this namespace and local name, or append a new one.
pub open spec fn attrs_set_ns(
    attrs: Seq<AttrView>,
    ns: Seq<char>,
    prefix: Seq<char>,
    local: Seq<char>,
    value: Seq<char>,
) -> Seq<AttrView> {
    let i = first_index(attrs, ns_local_is(ns, local));
    if i >= 0 {
        attrs.update(i, AttrView { value: value, ..attrs[i] })
    } else {
        attrs.push(AttrView { local: local, ns: ns, prefix: prefix, value: value })
    }
}

/// `removeAttributeNS` on an attribute list.
pub open spec fn attrs_remove_ns(attrs: Seq<AttrView>, ns: Seq<char>, local: Seq<char>) -> Seq<
    AttrView,
> {
    let i = first_index(attrs, ns_local_is(ns, local));
    if i >= 0 {
        attrs.remove(i)
    } else {
        attrs
    }
}

/// `a` is a copy of `b`: the same kind of node with equal data (for an
/// element, equal tag name, namespace and attribute list).
pub open spec fn copy_of(a: NodeData, b: NodeData) -> bool {
    match (a, b) {
        (
            NodeData::Element { tag_name: t1, namespace: n1, attributes: a1 },
            NodeData::Element { tag_name: t2, namespace: n2, attributes: a2 },
        ) => t1 == t2 && n1 == n2 && a1@ == a2@,
        _ => a == b,
    }
}

pub struct DomAttribute {
    pub local_name: String,
    pub namespace: String,
    pub prefix: String,
    pub value: String,
}

impl View for DomAttribute {
    type V = AttrView;

    open spec fn view(&self) -> AttrView {
        AttrView {
            local: self.local_name@,
            ns: self.namespace@,
            prefix: self.prefix@,
            value: self.value@,
        }
    }
}

impl DomAttribute {
    /// An un-namespaced attribute without prefix.
    pub fn new(name: &str, value: &str) -> (a: DomAttribute)
        ensures
            a@ == (AttrView { local: name@, ns: Seq::empty(), prefix: Seq::empty(), value: value@ }),
    {
        DomAttribute {
            local_name: owned(name),
            namespace: String::new(),
            prefix: String::new(),
            value: owned(value),
        }
    }

    pub fn qualified_name(&self) -> (r: String)
        ensures
            r@ == self@.qname(),
    {
        let p = chars_of(self.prefix.as_str());
        if p.len() == 0 {
            self.local_name.clone()
        } else {
            let mut v = p;
            v.push(':');
            let l = chars_of(self.local_name.as_str());
            let mut i: usize = 0;
            let ghost base = v@;
            while i < l.len()
                invariant
                    i <= l.len(),
                    v@ == base + l@.take(i as int),
                decreases l.len() - i,
            {
                v.push(l[i]);
                i = i + 1;
                assert(v@ =~= base + l@.take(i as int));
            }
            assert(l@.take(l.len() as int) =~= l@);
            assert(v@ =~= self@.qname());
            string_of(&v)
        }
    }

    /// The attribute has namespace `ns` and local name `local`.
    pub fn matches_ns(&self, ns: &str, local: &str) -> (r: bool)
        ensures
            r == ns_local_is(ns@, local@)(self@),
    {
        str_eq(self.namespace.as_str(), ns) && str_eq(self.local_name.as_str(), local)
    }

    pub fn duplicate(&self) -> (r: DomAttribute)
        ensures
            r == *self,
            r@ == self@,
    {
        DomAttribute {
            local_name: self.local_name.clone(),
            namespace: self.namespace.clone(),
            prefix: self.prefix.clone(),
            value: self.value.clone(),
        }
    }
}

pub enum NodeData {
    Document,
    Doctype { name: String },
    DocumentFragment,
    Element { tag_name: String, namespace: String, attributes: Vec<DomAttribute> },
    Text { content: String },
    CDATASection { content: String },
    Comment { content: String },
    ProcessingInstruction { target: String, content: String },
}

pub struct Node {
    pub data: NodeData,
    pub parent: Option<NodeId>,
    pub children: Vec<NodeId>,
    /// Computed style of the node as (property, value) pairs.
    pub computed_style: Vec<(String, String)>,
}

pub struct DomTree {
    pub nodes: Vec<Node>,
    pub html_document: bool,
}

impl DomTree {
    /// Node 0 is the document; every child and parent link names an existing node.
    pub open spec fn wf(&self) -> bool {
        &&& self.nodes.len() > 0
        &&& self.nodes@[0].data is Document
        &&& forall|i: int, j: int|
            0 <= i < self.nodes.len() && 0 <= j < self.nodes@[i].children.len() ==> (
            #[trigger] self.nodes@[i].children@[j]) < self.nodes.len()
        &&& forall|i: int|
            0 <= i < self.nodes.len() ==> match #[trigger] self.nodes@[i].parent {
                Some(p) => p < self.nodes.len(),
                None => true,
            }
    }

    pub open spec fn valid(&self, n: NodeId) -> bool {
        n < self.nodes.len()
    }

    pub open spec fn node(&self, n: NodeId) -> Node {
        self.nodes@[n as int]
    }

    pub open spec fn is_element(&self, n: NodeId) -> bool {
        self.valid(n) && self.node(n).data is Element
    }

    /// Predicate: the node is an element.
    pub open spec fn element_pred(&self) -> spec_fn(NodeId) -> bool {
        |c: NodeId| self.is_element(c)
    }

    /// Predicate: the node is an element whose `id` attribute is `id`.
    pub open spec fn id_pred(&self, id: Seq<char>) -> spec_fn(NodeId) -> bool {
        |m: NodeId| self.is_element(m) && self.local_attr(m, seq!['i', 'd']) == Some(id)
    }

    pub open spec fn children_of(&self, n: NodeId) -> Seq<NodeId> {
        self.node(n).children@
    }

    pub open spec fn parent_of(&self, n: NodeId) -> Option<NodeId> {
        self.node(n).parent
    }

    /// The element's attributes in order; empty for other nodes.
    pub open spec fn attrs(&self, n: NodeId) -> Seq<AttrView> {
        match self.node(n).data {
            NodeData::Element { attributes, .. } => attributes@.map_values(|a: DomAttribute| a@),
            _ => Seq::empty(),
        }
    }

    /// The element's qualified tag name; empty for other nodes.
    pub open spec fn tag(&self, n: NodeId) -> Seq<char> {
        match self.node(n).data {
            NodeData::Element { tag_name, .. } => tag_name@,
            _ => Seq::empty(),
        }
    }

    /// The element's namespace; empty for other nodes.
    pub open spec fn element_ns(&self, n: NodeId) -> Seq<char> {
        match self.node(n).data {
            NodeData::Element { namespace, .. } => namespace@,
            _ => Seq::empty(),
        }
    }

    /// Value of the first attribute whose qualified name is `name`.
    pub open spec fn get_attr(&self, n: NodeId, name: Seq<char>) -> Option<Seq<char>> {
        value_where(self.attrs(n), qname_is(name))
    }

    pub open spec fn has_attr(&self, n: NodeId, name: Seq<char>) -> bool {
        self.get_attr(n, name) is Some
    }

    /// Value of the first attribute whose local name is `local`.
    pub open spec fn local_attr(&self, n: NodeId, local: Seq<char>) -> Option<Seq<char>> {
        value_where(self.attrs(n), local_is(local))
    }

    /// The node holds character data: a text, CDATA section, comment or
    /// processing instruction node.
    pub open spec fn is_character_data(&self, n: NodeId) -> bool {
        self.valid(n) && match self.node(n).data {
            NodeData::Text { .. } => true,
            NodeData::CDATASection { .. } => true,
            NodeData::Comment { .. } => true,
            NodeData::ProcessingInstruction { .. } => true,
            _ => false,
        }
    }

    /// The character data of node `n`; empty for other nodes.
    pub open spec fn char_data(&self, n: NodeId) -> Seq<char> {
        match self.node(n).data {
            NodeData::Text { content } => content@,
            NodeData::CDATASection { content } => content@,
            NodeData::Comment { content } => content@,
            NodeData::ProcessingInstruction { content, .. } => content@,
            _ => Seq::empty(),
        }
    }

    /// `new` equals `self` except that the character data of node `n` is `d`
    /// (the node keeps its kind and, for a processing instruction, its target).
    pub open spec fn with_char_data(&self, new: &DomTree, n: NodeId, d: Seq<char>) -> bool {
        &&& new.nodes.len() == self.nodes.len()
        &&& new.html_document == self.html_document
        &&& forall|m: int|
            0 <= m < self.nodes.len() && m != n ==> #[trigger] new.nodes@[m] == self.nodes@[m]
        &&& new.node(n).parent == self.node(n).parent
        &&& new.node(n).children@ == self.node(n).children@
        &&& new.node(n).computed_style@ == self.node(n).computed_style@
        &&& (new.node(n).data is Text <==> self.node(n).data is Text)
        &&& (new.node(n).data is CDATASection <==> self.node(n).data is CDATASection)
        &&& (new.node(n).data is Comment <==> self.node(n).data is Comment)
        &&& (new.node(n).data is ProcessingInstruction <==> self.node(n).data is ProcessingInstruction)
        &&& (self.node(n).data matches NodeData::ProcessingInstruction { target, .. } ==> new.node(
            n,
        ).data matches NodeData::ProcessingInstruction { target: t2, .. } && t2@ == target@)
        &&& new.char_data(n) == d
    }

    /// `new` equals `self` except that node `n` (an element in both or in neither)
    /// has attributes `attrs`.
    pub open spec fn with_attrs(&self, new: &DomTree, n: NodeId, attrs: Seq<AttrView>) -> bool {
        &&& new.nodes.len() == self.nodes.len()
        &&& new.html_document == self.html_document
        &&& forall|m: int|
            0 <= m < self.nodes.len() && m != n ==> #[trigger] new.nodes@[m] == self.nodes@[m]
        &&& new.node(n).parent == self.node(n).parent
        &&& new.node(n).children@ == self.node(n).children@
        &&& new.node(n).computed_style@ == self.node(n).computed_style@
        &&& (new.node(n).data is Element <==> self.node(n).data is Element)
        &&& (!(self.node(n).data is Element) ==> new.node(n).data == self.node(n).data)
        &&& new.tag(n) == self.tag(n)
        &&& new.element_ns(n) == self.element_ns(n)
        &&& new.attrs(n) == attrs
    }


    /// `new` has the nodes, links, tags, namespaces and styles of `self`; only
    /// attribute lists of elements may differ.
    pub open spec fn same_shape(&self, new: &DomTree) -> bool {
        &&& new.nodes.len() == self.nodes.len()
        &&& new.html_document == self.html_document
        &&& forall|m: NodeId|
            #![trigger new.node(m)]
            self.valid(m) ==> {
                &&& new.node(m).parent == self.node(m).parent
                &&& new.node(m).children@ == self.node(m).children@
                &&& new.node(m).computed_style@ == self.node(m).computed_style@
                &&& (new.node(m).data is Element <==> self.node(m).data is Element)
                &&& (!(self.node(m).data is Element) ==> new.node(m).data == self.node(m).data)
                &&& new.tag(m) == self.tag(m)
                &&& new.element_ns(m) == self.element_ns(m)
            }
    }

    pub proof fn lemma_same_shape_trans(&self, b: &DomTree, c: &DomTree)
        requires
            self.same_shape(b),
            b.same_shape(c),
        ensures
            self.same_shape(c),
    {
        assert forall|m: NodeId| #![trigger c.node(m)] self.valid(m) implies {
            &&& c.node(m).parent == self.node(m).parent
            &&& c.node(m).children@ == self.node(m).children@
            &&& c.node(m).computed_style@ == self.node(m).computed_style@
            &&& (c.node(m).data is Element <==> self.node(m).data is Element)
            &&& (!(self.node(m).data is Element) ==> c.node(m).data == self.node(m).data)
            &&& c.tag(m) == self.tag(m)
            &&& c.element_ns(m) == self.element_ns(m)
        } by {
            assert(b.node(m).parent == self.node(m).parent);
            assert(b.valid(m));
            assert(c.node(m).parent == b.node(m).parent);
        }
    }

    /// An attribute change of one element keeps the shape and the other nodes.
    pub proof fn lemma_updated_attrs_shape(&self, new: &DomTree, n: NodeId, attrs: Seq<AttrView>)
        requires
            self.valid(n),
            self.updated_attrs(new, n, attrs),
        ensures
            self.same_shape(new),
            forall|m: NodeId| self.valid(m) && m != n ==> #[trigger] new.node(m) == self.node(m),
            self.is_element(n) ==> new.attrs(n) == attrs,
            !self.is_element(n) ==> new.attrs(n) == self.attrs(n),
    {
        if self.is_element(n) {
            assert forall|m: NodeId| self.valid(m) && m != n implies #[trigger] new.node(m) == self.node(m) by {
                assert(new.nodes@[m as int] == self.nodes@[m as int]);
            }
        }
    }

    /// `new` is `self` with the attributes of node `n` replaced by `attrs`
    /// when `n` is an element, and `self` unchanged otherwise.
    pub open spec fn updated_attrs(&self, new: &DomTree, n: NodeId, attrs: Seq<AttrView>) -> bool {
        if self.is_element(n) {
            self.with_attrs(new, n, attrs)
        } else {
            *new == *self
        }
    }

    /// Pre-order list of the nodes under `list`, walking at most `fuel` levels
    /// down and leaving out the subtree of `skip`.
    pub open spec fn forest(&self, list: Seq<NodeId>, fuel: nat, skip: Option<NodeId>) -> Seq<
        NodeId,
    >
        decreases fuel, list.len(),
    {
        if list.len() == 0 {
            Seq::empty()
        } else {
            let front = self.forest(list.drop_last(), fuel, skip);
            let c = list.last();
            if skip == Some(c) {
                front
            } else if fuel == 0 {
                front.push(c)
            } else {
                front.push(c) + self.forest(self.children_of(c), (fuel - 1) as nat, skip)
            }
        }
    }

    /// All descendants of `n` (not `n` itself) in tree order. The walk is bounded
    /// by the number of nodes, which no path in a tree exceeds.
    pub open spec fn descendants(&self, n: NodeId) -> Seq<NodeId> {
        self.forest(self.children_of(n), self.nodes.len() as nat, None)
    }

    /// Descendants of `n` in tree order, leaving out the subtree of `skip`.
    pub open spec fn descendants_skipping(&self, n: NodeId, skip: NodeId) -> Seq<NodeId> {
        self.forest(self.children_of(n), self.nodes.len() as nat, Some(skip))
    }

    /// Every node of a forest walk exists.
    pub proof fn lemma_forest_valid(&self, list: Seq<NodeId>, fuel: nat, skip: Option<NodeId>)
        requires
            self.wf(),
            forall|i: int| 0 <= i < list.len() ==> self.valid(#[trigger] list[i]),
        ensures
            forall|i: int|
                0 <= i < self.forest(list, fuel, skip).len() ==> self.valid(
                    #[trigger] self.forest(list, fuel, skip)[i],
                ),
        decreases fuel, list.len(),
    {
        if list.len() > 0 {
            let init = list.drop_last();
            assert forall|i: int| 0 <= i < init.len() implies self.valid(#[trigger] init[i]) by {
                assert(init[i] == list[i]);
            }
            self.lemma_forest_valid(init, fuel, skip);
            let c = list.last();
            assert(self.valid(list[list.len() - 1]));
            let front = self.forest(init, fuel, skip);
            let f = self.forest(list, fuel, skip);
            if skip == Some(c) {
            } else if fuel == 0 {
                assert forall|i: int| 0 <= i < f.len() implies self.valid(#[trigger] f[i]) by {
                    if i < front.len() {
                        assert(f[i] == front[i]);
                    }
                }
            } else {
                assert forall|i: int| 0 <= i < self.children_of(c).len() implies self.valid(
                    #[trigger] self.children_of(c)[i],
                ) by {
                    assert(self.nodes@[c as int].children@[i] < self.nodes.len());
                }
                self.lemma_forest_valid(self.children_of(c), (fuel - 1) as nat, skip);
                let sub = self.forest(self.children_of(c), (fuel - 1) as nat, skip);
                assert forall|i: int| 0 <= i < f.len() implies self.valid(#[trigger] f[i]) by {
                    if i < front.len() {
                        assert(f[i] == front[i]);
                    } else if i > front.len() {
                        assert(f[i] == sub[i - front.len() - 1]);
                    }
                }
            }
        }
    }

    /// The children of a node of a well-formed tree exist.
    pub proof fn lemma_children_valid(&self, n: NodeId)
        requires
            self.wf(),
            self.valid(n),
        ensures
            forall|i: int|
                0 <= i < self.children_of(n).len() ==> self.valid(#[trigger] self.children_of(n)[i]),
    {
        assert forall|i: int| 0 <= i < self.children_of(n).len() implies self.valid(
            #[trigger] self.children_of(n)[i],
        ) by {
            assert(self.nodes@[n as int].children@[i] < self.nodes.len());
        }
    }

    /// Every descendant exists.
    pub proof fn lemma_descendants_valid(&self, n: NodeId)
        requires
            self.wf(),
            self.valid(n),
        ensures
            forall|i: int|
                0 <= i < self.descendants(n).len() ==> self.valid(#[trigger] self.descendants(n)[i]),
    {
        self.lemma_children_valid(n);
        self.lemma_forest_valid(self.children_of(n), self.nodes.len() as nat, None);
    }

    // -----------------------------------------------------------------------
    // Construction
    // -----------------------------------------------------------------------

    /// A tree holding only an HTML document node.
    pub fn new() -> (t: DomTree)
        ensures
            t.wf(),
            t.nodes.len() == 1,
            t.html_document,
            t.children_of(0).len() == 0,
            t.parent_of(0) is None,
    {
        let mut nodes: Vec<Node> = Vec::new();
        nodes.push(
            Node {
                data: NodeData::Document,
                parent: None,
                children: Vec::new(),
                computed_style: Vec::new(),
            },
        );
        DomTree { nodes, html_document: true }
    }

    /// A tree holding only an XML document node.
    pub fn new_xml() -> (t: DomTree)
        ensures
            t.wf(),
            t.nodes.len() == 1,
            !t.html_document,
            t.children_of(0).len() == 0,
            t.parent_of(0) is None,
    {
        let mut t = DomTree::new();
        t.html_document = false;
        t
    }

    /// The document node.
    pub fn document(&self) -> (d: NodeId)
        requires
            self.wf(),
        ensures
            d == 0,
            self.valid(d),
    {
        0
    }

    pub fn is_html_document(&self) -> (b: bool)
        ensures
            b == self.html_document,
    {
        self.html_document
    }

    fn add_node(&mut self, data: NodeData) -> (id: NodeId)
        requires
            old(self).wf(),
            !(data is Document),
        ensures
            final(self).wf(),
            id == old(self).nodes.len(),
            final(self).nodes.len() == old(self).nodes.len() + 1,
            forall|m: int| 0 <= m < old(self).nodes.len() ==> #[trigger] final(self).nodes@[m] == old(
                self,
            ).nodes@[m],
            final(self).node(id).data == data,
            final(self).node(id).parent is None,
            final(self).node(id).children@.len() == 0,
            final(self).html_document == old(self).html_document,
    {
        let id = self.nodes.len();
        self.nodes.push(
            Node { data, parent: None, children: Vec::new(), computed_style: Vec::new() },
        );
        assert forall|i: int, j: int|
            0 <= i < self.nodes.len() && 0 <= j < self.nodes@[i].children.len() implies (
            #[trigger] self.nodes@[i].children@[j]) < self.nodes.len() by {
            if i < id {
                assert(self.nodes@[i] == old(self).nodes@[i]);
            }
        }
        assert forall|i: int| 0 <= i < self.nodes.len() implies match #[trigger] self.nodes@[i].parent {
            Some(p) => p < self.nodes.len(),
            None => true,
        } by {
            if i < id {
                assert(self.nodes@[i] == old(self).nodes@[i]);
            }
        }
        id
    }

    /// A new detached element. In an HTML document it is in the XHTML namespace,
    /// in an XML document in no namespace.
    pub fn create_element(&mut self, tag: &str) -> (id: NodeId)
        requires
            old(self).wf(),
        ensures
            final(self).wf(),
            id == old(self).nodes.len(),
            final(self).nodes.len() == old(self).nodes.len() + 1,
            forall|m: int| 0 <= m < old(self).nodes.len() ==> #[trigger] final(self).nodes@[m] == old(
                self,
            ).nodes@[m],
            final(self).is_element(id),
            final(self).tag(id) == tag@,
            final(self).element_ns(id) == (if old(self).html_document {
                xhtml_ns()
            } else {
                Seq::empty()
            }),
            final(self).attrs(id).len() == 0,
            final(self).parent_of(id) is None,
            final(self).children_of(id).len() == 0,
            final(self).html_document == old(self).html_document,
    {
        let ns = if self.html_document {
            xhtml_namespace()
        } else {
            String::new()
        };
        let id = self.add_node(
            NodeData::Element { tag_name: owned(tag), namespace: ns, attributes: Vec::new() },
        );
        id
    }

    /// A new detached element with the given namespace (empty for none) and qualified name.
    pub fn create_element_ns(&mut self, namespace: &str, qualified_name: &str) -> (id: NodeId)
        requires
            old(self).wf(),
        ensures
            final(self).wf(),
            id == old(self).nodes.len(),
            final(self).nodes.len() == old(self).nodes.len() + 1,
            forall|m: int| 0 <= m < old(self).nodes.len() ==> #[trigger] final(self).nodes@[m] == old(
                self,
            ).nodes@[m],
            final(self).is_element(id),
            final(self).tag(id) == qualified_name@,
            final(self).element_ns(id) == namespace@,
            final(self).attrs(id).len() == 0,
            final(self).parent_of(id) is None,
            final(self).children_of(id).len() == 0,
            final(self).html_document == old(self).html_document,
    {
        self.add_node(
            NodeData::Element {
                tag_name: owned(qualified_name),
                namespace: owned(namespace),
                attributes: Vec::new(),
            },
        )
    }

    /// A new detached text node.
    pub fn create_text(&mut self, data: &str) -> (id: NodeId)
        requires
            old(self).wf(),
        ensures
            final(self).wf(),
            id == old(self).nodes.len(),
            final(self).nodes.len() == old(self).nodes.len() + 1,
            forall|m: int| 0 <= m < old(self).nodes.len() ==> #[trigger] final(self).nodes@[m] == old(
                self,
            ).nodes@[m],
            final(self).node(id).data matches NodeData::Text { content } && content@ == data@,
            final(self).parent_of(id) is None,
            final(self).children_of(id).len() == 0,
            final(self).html_document == old(self).html_document,
    {
        self.add_node(NodeData::Text { content: owned(data) })
    }

    /// A new detached comment node.
    pub fn create_comment(&mut self, data: &str) -> (id: NodeId)
        requires
            old(self).wf(),
        ensures
            final(self).wf(),
            id == old(self).nodes.len(),
            final(self).nodes.len() == old(self).nodes.len() + 1,
            forall|m: int| 0 <= m < old(self).nodes.len() ==> #[trigger] final(self).nodes@[m] == old(
                self,
            ).nodes@[m],
            final(self).node(id).data matches NodeData::Comment { content } && content@ == data@,
            final(self).parent_of(id) is None,
            final(self).children_of(id).len() == 0,
            final(self).html_document == old(self).html_document,
    {
        self.add_node(NodeData::Comment { content: owned(data) })
    }

    /// A new detached document type node named `name`.
    pub fn create_doctype(&mut self, name: &str) -> (id: NodeId)
        requires
            old(self).wf(),
        ensures
            final(self).wf(),
            id == old(self).nodes.len(),
            final(self).nodes.len() == old(self).nodes.len() + 1,
            forall|m: int| 0 <= m < old(self).nodes.len() ==> #[trigger] final(self).nodes@[m] == old(
                self,
            ).nodes@[m],
            final(self).node(id).data matches NodeData::Doctype { name: n } && n@ == name@,
            final(self).parent_of(id) is None,
            final(self).children_of(id).len() == 0,
            final(self).html_document == old(self).html_document,
    {
        self.add_node(NodeData::Doctype { name: owned(name) })
    }

    /// A new detached node holding a copy of `data` (a shallow copy of a node).
    pub fn create_copy(&mut self, data: &NodeData) -> (id: NodeId)
        requires
            old(self).wf(),
            !(*data is Document),
        ensures
            final(self).wf(),
            id == old(self).nodes.len(),
            final(self).nodes.len() == old(self).nodes.len() + 1,
            forall|m: int| 0 <= m < old(self).nodes.len() ==> #[trigger] final(self).nodes@[m] == old(
                self,
            ).nodes@[m],
            copy_of(final(self).node(id).data, *data),
            final(self).parent_of(id) is None,
            final(self).children_of(id).len() == 0,
            final(self).html_document == old(self).html_document,
    {
        let copy = match data {
            NodeData::Document => NodeData::Document,
            NodeData::Doctype { name } => NodeData::Doctype { name: name.clone() },
            NodeData::DocumentFragment => NodeData::DocumentFragment,
            NodeData::Element { tag_name, namespace, attributes } => {
                let mut attrs: Vec<DomAttribute> = Vec::new();
                let mut i: usize = 0;
                while i < attributes.len()
                    invariant
                        i <= attributes.len(),
                        attrs@ == attributes@.take(i as int),
                    decreases attributes.len() - i,
                {
                    attrs.push(attributes[i].duplicate());
                    i = i + 1;
                    assert(attrs@ =~= attributes@.take(i as int));
                }
                assert(attributes@.take(attributes.len() as int) =~= attributes@);
                NodeData::Element {
                    tag_name: tag_name.clone(),
                    namespace: namespace.clone(),
                    attributes: attrs,
                }
            },
            NodeData::Text { content } => NodeData::Text { content: content.clone() },
            NodeData::CDATASection { content } => NodeData::CDATASection { content: content.clone() },
            NodeData::Comment { content } => NodeData::Comment { content: content.clone() },
            NodeData::ProcessingInstruction { target, content } => NodeData::ProcessingInstruction {
                target: target.clone(),
                content: content.clone(),
            },
        };
        assert(copy_of(copy, *data));
        self.add_node(copy)
    }

    /// A new empty document fragment.
    pub fn create_document_fragment(&mut self) -> (id: NodeId)
        requires
            old(self).wf(),
        ensures
            final(self).wf(),
            id == old(self).nodes.len(),
            final(self).nodes.len() == old(self).nodes.len() + 1,
            forall|m: int| 0 <= m < old(self).nodes.len() ==> #[trigger] final(self).nodes@[m] == old(
                self,
            ).nodes@[m],
            final(self).node(id).data is DocumentFragment,
            final(self).parent_of(id) is None,
            final(self).children_of(id).len() == 0,
            final(self).html_document == old(self).html_document,
    {
        self.add_node(NodeData::DocumentFragment)
    }

    /// A new detached processing instruction node.
    pub fn create_processing_instruction(&mut self, target: &str, data: &str) -> (id: NodeId)
        requires
            old(self).wf(),
        ensures
            final(self).wf(),
            id == old(self).nodes.len(),
            final(self).nodes.len() == old(self).nodes.len() + 1,
            forall|m: int| 0 <= m < old(self).nodes.len() ==> #[trigger] final(self).nodes@[m] == old(
                self,
            ).nodes@[m],
            final(self).node(id).data matches NodeData::ProcessingInstruction { target: t, content }
                && t@ == target@ && content@ == data@,
            final(self).parent_of(id) is None,
            final(self).children_of(id).len() == 0,
            final(self).html_document == old(self).html_document,
    {
        self.add_node(NodeData::ProcessingInstruction { target: owned(target), content: owned(data) })
    }

    /// Detach every child of `n`: their parent link is cleared and `n` has no
    /// children left.
    pub fn remove_all_children(&mut self, n: NodeId)
        requires
            old(self).wf(),
            old(self).valid(n),
        ensures
            final(self).wf(),
            final(self).nodes.len() == old(self).nodes.len(),
            final(self).html_document == old(self).html_document,
            final(self).children_of(n).len() == 0,
            final(self).node(n).data == old(self).node(n).data,
            final(self).parent_of(n) == old(self).parent_of(n) || old(self).children_of(n).contains(n),
            forall|m: int|
                0 <= m < old(self).nodes.len() && m != n ==> (#[trigger] final(self).nodes@[m]).data
                    == old(self).nodes@[m].data && final(self).nodes@[m].children@ == old(
                    self,
                ).nodes@[m].children@,
            forall|m: int|
                0 <= m < old(self).nodes.len() && m != n && !old(self).children_of(n).contains(
                    m as NodeId,
                ) ==> #[trigger] final(self).nodes@[m] == old(self).nodes@[m],
            forall|k: int|
                0 <= k < old(self).children_of(n).len() ==> final(self).parent_of(
                    #[trigger] old(self).children_of(n)[k],
                ) is None,
    {
        let children = self.nodes[n].children.clone();
        let mut i: usize = 0;
        while i < children.len()
            invariant
                old(self).wf(),
                self.wf(),
                self.valid(n),
                children@ == old(self).children_of(n),
                forall|k: int| 0 <= k < children.len() ==> children@[k] < self.nodes.len(),
                i <= children.len(),
                self.nodes.len() == old(self).nodes.len(),
                self.html_document == old(self).html_document,
                forall|m: int| 0 <= m < self.nodes.len() ==> (#[trigger] self.nodes@[m]).data == old(
                    self,
                ).nodes@[m].data && self.nodes@[m].children@ == old(self).nodes@[m].children@,
                forall|m: int|
                    0 <= m < self.nodes.len() && !children@.contains(m as NodeId) ==> #[trigger] self.nodes@[m]
                        == old(self).nodes@[m],
                forall|k: int| 0 <= k < i ==> self.parent_of(#[trigger] children@[k]) is None,
                forall|m: int|
                    0 <= m < self.nodes.len() ==> (#[trigger] self.nodes@[m]).parent == old(self).nodes@[m].parent
                        || self.nodes@[m].parent is None,
            decreases children.len() - i,
        {
            let c = children[i];
            self.nodes[c].parent = None;
            assert forall|k: int| 0 <= k < i + 1 implies self.parent_of(#[trigger] children@[k]) is None by {
                if children@[k] != c {
                    assert(self.nodes@[children@[k] as int].parent == old(self).nodes@[children@[k] as int].parent
                        || self.parent_of(children@[k]) is None);
                }
            }
            assert forall|a: int, b: int|
                0 <= a < self.nodes.len() && 0 <= b < self.nodes@[a].children.len() implies (
                #[trigger] self.nodes@[a].children@[b]) < self.nodes.len() by {
                assert(self.nodes@[a].children@ == old(self).nodes@[a].children@);
                assert(old(self).nodes@[a].children@[b] < old(self).nodes.len());
            }
            assert forall|a: int| 0 <= a < self.nodes.len() implies match #[trigger] self.nodes@[a].parent {
                Some(p) => p < self.nodes.len(),
                None => true,
            } by {
                assert(match old(self).nodes@[a].parent {
                    Some(p) => p < old(self).nodes.len(),
                    None => true,
                });
            }
            i = i + 1;
        }
        self.nodes[n].children = Vec::new();
        assert forall|a: int, b: int|
            0 <= a < self.nodes.len() && 0 <= b < self.nodes@[a].children.len() implies (
            #[trigger] self.nodes@[a].children@[b]) < self.nodes.len() by {
            if a != n {
                assert(self.nodes@[a].children@ == old(self).nodes@[a].children@);
                assert(old(self).nodes@[a].children@[b] < old(self).nodes.len());
            }
        }
    }

    /// Append the detached node `child` as the last child of `parent`.
    pub fn append_child(&mut self, parent: NodeId, child: NodeId)
        requires
            old(self).wf(),
            old(self).valid(parent),
            old(self).valid(child),
            child != 0,
            parent != child,
            old(self).parent_of(child) is None,
        ensures
            final(self).wf(),
            final(self).nodes.len() == old(self).nodes.len(),
            final(self).html_document == old(self).html_document,
            final(self).children_of(parent) == old(self).children_of(parent).push(child),
            final(self).parent_of(child) == Some(parent),
            final(self).parent_of(parent) == old(self).parent_of(parent),
            final(self).node(parent).data == old(self).node(parent).data,
            final(self).node(child).data == old(self).node(child).data,
            final(self).node(child).children@ == old(self).node(child).children@,
            forall|m: int|
                0 <= m < old(self).nodes.len() && m != parent && m != child
                    ==> #[trigger] final(self).nodes@[m] == old(self).nodes@[m],
    {
        self.nodes[parent].children.push(child);
        self.nodes[child].parent = Some(parent);
        assert forall|i: int, j: int|
            0 <= i < self.nodes.len() && 0 <= j < self.nodes@[i].children.len() implies (
            #[trigger] self.nodes@[i].children@[j]) < self.nodes.len() by {
            if i != parent && i != child {
                assert(self.nodes@[i] == old(self).nodes@[i]);
            } else if i == child {
                assert(self.nodes@[i].children@ == old(self).nodes@[i].children@);
                assert(self.nodes@[i].children@[j] == old(self).nodes@[i].children@[j]);
            } else {
                if j < old(self).nodes@[i].children.len() {
                    assert(self.nodes@[i].children@[j] == old(self).nodes@[i].children@[j]);
                }
            }
        }
        assert forall|i: int| 0 <= i < self.nodes.len() implies match #[trigger] self.nodes@[i].parent {
            Some(p) => p < self.nodes.len(),
            None => true,
        } by {
            if i != parent && i != child {
                assert(self.nodes@[i] == old(self).nodes@[i]);
            } else if i == parent {
                assert(self.nodes@[i].parent == old(self).nodes@[i].parent);
            }
        }
    }

    /// Insert the detached node `child` into the children of `parent` at `index`.
    pub fn insert_child_at(&mut self, parent: NodeId, index: usize, child: NodeId)
        requires
            old(self).wf(),
            old(self).valid(parent),
            old(self).valid(child),
            child != 0,
            parent != child,
            old(self).parent_of(child) is None,
            index <= old(self).children_of(parent).len(),
        ensures
            final(self).wf(),
            final(self).nodes.len() == old(self).nodes.len(),
            final(self).html_document == old(self).html_document,
            final(self).children_of(parent) == old(self).children_of(parent).insert(index as int, child),
            final(self).parent_of(child) == Some(parent),
            final(self).parent_of(parent) == old(self).parent_of(parent),
            final(self).node(parent).data == old(self).node(parent).data,
            final(self).node(child).data == old(self).node(child).data,
            final(self).node(child).children@ == old(self).node(child).children@,
            forall|m: int|
                0 <= m < old(self).nodes.len() && m != parent && m != child
                    ==> #[trigger] final(self).nodes@[m] == old(self).nodes@[m],
    {
        self.nodes[parent].children.insert(index, child);
        self.nodes[child].parent = Some(parent);
        assert forall|i: int, j: int|
            0 <= i < self.nodes.len() && 0 <= j < self.nodes@[i].children.len() implies (
            #[trigger] self.nodes@[i].children@[j]) < self.nodes.len() by {
            if i != parent && i != child {
                assert(self.nodes@[i] == old(self).nodes@[i]);
            } else if i == child {
                assert(self.nodes@[i].children@ == old(self).nodes@[i].children@);
                assert(self.nodes@[i].children@[j] == old(self).nodes@[i].children@[j]);
            } else {
                if j < index {
                    assert(self.nodes@[i].children@[j] == old(self).nodes@[i].children@[j]);
                } else if j > index {
                    assert(self.nodes@[i].children@[j] == old(self).nodes@[i].children@[j - 1]);
                }
            }
        }
        assert forall|i: int| 0 <= i < self.nodes.len() implies match #[trigger] self.nodes@[i].parent {
            Some(p) => p < self.nodes.len(),
            None => true,
        } by {
            if i != parent && i != child {
                assert(self.nodes@[i] == old(self).nodes@[i]);
            } else if i == parent {
                assert(self.nodes@[i].parent == old(self).nodes@[i].parent);
            }
        }
    }

    /// Replace the character data of the text, CDATA, comment or processing
    /// instruction node `n` by `data`.
    pub fn set_character_data(&mut self, n: NodeId, data: String)
        requires
            old(self).wf(),
            old(self).is_character_data(n),
        ensures
            final(self).wf(),
            old(self).with_char_data(final(self), n, data@),
    {
        let new_data = match &self.nodes[n].data {
            NodeData::Text { .. } => NodeData::Text { content: data },
            NodeData::CDATASection { .. } => NodeData::CDATASection { content: data },
            NodeData::Comment { .. } => NodeData::Comment { content: data },
            NodeData::ProcessingInstruction { target, .. } => NodeData::ProcessingInstruction {
                target: target.clone(),
                content: data,
            },
            _ => NodeData::Document,
        };
        self.nodes[n].data = new_data;
        assert(n != 0);
        assert forall|i: int, j: int|
            0 <= i < self.nodes.len() && 0 <= j < self.nodes@[i].children.len() implies (
            #[trigger] self.nodes@[i].children@[j]) < self.nodes.len() by {
            assert(self.nodes@[i].children@ == old(self).nodes@[i].children@);
            assert(self.nodes@[i].children@[j] == old(self).nodes@[i].children@[j]);
        }
        assert forall|i: int| 0 <= i < self.nodes.len() implies match #[trigger] self.nodes@[i].parent {
            Some(p) => p < self.nodes.len(),
            None => true,
        } by {
            assert(self.nodes@[i].parent == old(self).nodes@[i].parent);
        }
    }

    /// Predicate: the node is `n`.
    pub open spec fn is_node(n: NodeId) -> spec_fn(NodeId) -> bool {
        |m: NodeId| m == n
    }

    /// `children` without the first occurrence of `n` (unchanged without one).
    pub open spec fn without_child(children: Seq<NodeId>, n: NodeId) -> Seq<NodeId> {
        let i = first_index(children, DomTree::is_node(n));
        if i >= 0 {
            children.remove(i)
        } else {
            children
        }
    }

    /// Remove node `n` from its parent: it leaves the parent's children (its
    /// first occurrence there) and has no parent afterwards.
    pub fn detach(&mut self, n: NodeId)
        requires
            old(self).wf(),
            old(self).valid(n),
        ensures
            final(self).wf(),
            final(self).nodes.len() == old(self).nodes.len(),
            final(self).html_document == old(self).html_document,
            final(self).parent_of(n) is None,
            final(self).node(n).data == old(self).node(n).data,
            old(self).parent_of(n) != Some(n) ==> final(self).children_of(n) == old(self).children_of(n),
            match old(self).parent_of(n) {
                Some(p) => p != n ==> {
                    &&& final(self).children_of(p) == DomTree::without_child(old(self).children_of(p), n)
                    &&& final(self).node(p).data == old(self).node(p).data
                    &&& final(self).parent_of(p) == old(self).parent_of(p)
                },
                None => true,
            },
            forall|m: int|
                0 <= m < old(self).nodes.len() && m != n && Some(m as NodeId) != old(self).parent_of(n)
                    ==> #[trigger] final(self).nodes@[m] == old(self).nodes@[m],
    {
        match self.nodes[n].parent {
            None => {},
            Some(p) => {
                match index_of_node(&self.nodes[p].children, n) {
                    Some(i) => {
                        self.nodes[p].children.remove(i);
                    },
                    None => {},
                }
            },
        }
        self.nodes[n].parent = None;
        assert forall|a: int, b: int|
            0 <= a < self.nodes.len() && 0 <= b < self.nodes@[a].children.len() implies (
            #[trigger] self.nodes@[a].children@[b]) < self.nodes.len() by {
            if Some(a as NodeId) == old(self).parent_of(n) {
                let i = first_index(old(self).nodes@[a].children@, DomTree::is_node(n));
                if i >= 0 && b >= i {
                    assert(self.nodes@[a].children@[b] == old(self).nodes@[a].children@[b + 1]);
                } else {
                    assert(self.nodes@[a].children@[b] == old(self).nodes@[a].children@[b]);
                }
            } else {
                assert(self.nodes@[a].children@ == old(self).nodes@[a].children@);
            }
        }
        assert forall|a: int| 0 <= a < self.nodes.len() implies match #[trigger] self.nodes@[a].parent {
            Some(q) => q < self.nodes.len(),
            None => true,
        } by {
            if a != n {
                assert(self.nodes@[a].parent == old(self).nodes@[a].parent);
            }
        }
    }

    /// Record the computed style of node `n`.
    pub fn set_computed_style(&mut self, n: NodeId, style: Vec<(String, String)>)
        requires
            old(self).wf(),
            old(self).valid(n),
        ensures
            final(self).wf(),
            final(self).nodes.len() == old(self).nodes.len(),
            final(self).html_document == old(self).html_document,
            final(self).node(n).computed_style@ == style@,
            final(self).node(n).data == old(self).node(n).data,
            final(self).node(n).children@ == old(self).node(n).children@,
            final(self).node(n).parent == old(self).node(n).parent,
            forall|m: int|
                0 <= m < old(self).nodes.len() && m != n ==> #[trigger] final(self).nodes@[m] == old(
                    self,
                ).nodes@[m],
    {
        self.nodes[n].computed_style = style;
        assert forall|i: int, j: int|
            0 <= i < self.nodes.len() && 0 <= j < self.nodes@[i].children.len() implies (
            #[trigger] self.nodes@[i].children@[j]) < self.nodes.len() by {
            assert(self.nodes@[i].children@ == old(self).nodes@[i].children@);
            assert(self.nodes@[i].children@[j] == old(self).nodes@[i].children@[j]);
        }
        assert forall|i: int| 0 <= i < self.nodes.len() implies match #[trigger] self.nodes@[i].parent {
            Some(p) => p < self.nodes.len(),
            None => true,
        } by {
            assert(self.nodes@[i].parent == old(self).nodes@[i].parent);
        }
    }

    // -----------------------------------------------------------------------
    // Reading
    // -----------------------------------------------------------------------

    pub fn get_node(&self, n: NodeId) -> (r: &Node)
        requires
            self.valid(n),
        ensures
            *r == self.node(n),
    {
        &self.nodes[n]
    }

    /// The attribute list of an element; empty for other nodes.
    pub fn attributes(&self, n: NodeId) -> (r: &[DomAttribute])
        requires
            self.valid(n),
        ensures
            r@.map_values(|a: DomAttribute| a@) == self.attrs(n),
    {
        match &self.nodes[n].data {
            NodeData::Element { attributes, .. } => attributes.as_slice(),
            _ => {
                let e: &[DomAttribute] = &[];
                assert(e@.map_values(|a: DomAttribute| a@) =~= Seq::<AttrView>::empty());
                e
            },
        }
    }

    /// The qualified tag name of an element.
    pub fn tag_name(&self, n: NodeId) -> (r: Option<&String>)
        requires
            self.valid(n),
        ensures
            r is Some <==> self.is_element(n),
            r matches Some(t) ==> t@ == self.tag(n),
    {
        match &self.nodes[n].data {
            NodeData::Element { tag_name, .. } => Some(tag_name),
            _ => None,
        }
    }

    /// The namespace of an element.
    pub fn namespace_of(&self, n: NodeId) -> (r: Option<&String>)
        requires
            self.valid(n),
        ensures
            r is Some <==> self.is_element(n),
            r matches Some(t) ==> t@ == self.element_ns(n),
    {
        match &self.nodes[n].data {
            NodeData::Element { namespace, .. } => Some(namespace),
            _ => None,
        }
    }

    /// Position of the first attribute of `n` satisfying the lookup `key`.
    fn find_attr(&self, n: NodeId, key: &AttrKey) -> (r: Option<usize>)
        requires
            self.valid(n),
        ensures
            match r {
                Some(i) => i < self.attrs(n).len() && first_index(self.attrs(n), key.pred()) == i,
                None => first_index(self.attrs(n), key.pred()) == -1,
            },
    {
        let attrs = self.attributes(n);
        let ghost av = self.attrs(n);
        let mut i: usize = 0;
        while i < attrs.len()
            invariant
                av == self.attrs(n),
                attrs@.map_values(|a: DomAttribute| a@) == av,
                i <= attrs.len(),
                forall|j: int| 0 <= j < i ==> !key.pred()(#[trigger] av[j]),
            decreases attrs.len() - i,
        {
            assert(av[i as int] == attrs@[i as int]@);
            if key.test(&attrs[i]) {
                assert(key.pred()(av[i as int]));
                proof {
                    lemma_first_index_is(av, key.pred(), i as int);
                }
                return Some(i);
            }
            i = i + 1;
        }
        proof {
            lemma_first_index_none(av, key.pred());
        }
        None
    }

    /// Value of the first attribute of `n` satisfying the lookup `key`.
    pub fn attr_value_by(&self, n: NodeId, key: &AttrKey) -> (r: Option<String>)
        requires
            self.valid(n),
        ensures
            r.deep_view() == value_where(self.attrs(n), key.pred()),
    {
        match self.find_attr(n, key) {
            Some(i) => {
                let attrs = self.attributes(n);
                assert(self.attrs(n)[i as int] == attrs@[i as int]@);
                Some(attrs[i].value.clone())
            },
            None => None,
        }
    }

    /// `getAttribute`: value of the first attribute with qualified name `name`.
    pub fn get_attribute(&self, n: NodeId, name: &str) -> (r: Option<String>)
        requires
            self.valid(n),
        ensures
            r.deep_view() == self.get_attr(n, name@),
    {
        self.attr_value_by(n, &AttrKey::QualifiedName(owned(name)))
    }

    /// `hasAttribute`: some attribute has qualified name `name`.
    pub fn has_attribute(&self, n: NodeId, name: &str) -> (r: bool)
        requires
            self.valid(n),
        ensures
            r == self.has_attr(n, name@),
    {
        self.get_attribute(n, name).is_some()
    }

    /// Value of the first attribute with local name `local` (how the bindings read
    /// well-known attributes such as `type`, `id` or `class`).
    pub fn local_attribute(&self, n: NodeId, local: &str) -> (r: Option<String>)
        requires
            self.valid(n),
        ensures
            r.deep_view() == self.local_attr(n, local@),
    {
        self.attr_value_by(n, &AttrKey::LocalName(owned(local)))
    }

    /// `getAttributeNS`.
    pub fn get_attribute_ns(&self, n: NodeId, ns: &str, local: &str) -> (r: Option<String>)
        requires
            self.valid(n),
        ensures
            r.deep_view() == value_where(self.attrs(n), ns_local_is(ns@, local@)),
    {
        self.attr_value_by(n, &AttrKey::Namespaced(owned(ns), owned(local)))
    }

    /// `hasAttributeNS`.
    pub fn has_attribute_ns(&self, n: NodeId, ns: &str, local: &str) -> (r: bool)
        requires
            self.valid(n),
        ensures
            r == (value_where(self.attrs(n), ns_local_is(ns@, local@)) is Some),
    {
        self.get_attribute_ns(n, ns, local).is_some()
    }

    /// `hasAttributes`: the element has at least one attribute.
    pub fn has_attributes(&self, n: NodeId) -> (r: bool)
        requires
            self.valid(n),
        ensures
            r == (self.attrs(n).len() > 0),
    {
        self.attributes(n).len() > 0
    }

    /// The children of `n` that are elements, in order.
    pub fn element_children(&self, n: NodeId) -> (r: Vec<NodeId>)
        requires
            self.wf(),
            self.valid(n),
        ensures
            r@ == self.children_of(n).filter(self.element_pred()),
    {
        proof {
            self.lemma_children_valid(n);
        }
        let children = &self.nodes[n].children;
        let mut out: Vec<NodeId> = Vec::new();
        let mut i: usize = 0;
        while i < children.len()
            invariant
                children@ == self.children_of(n),
                forall|k: int| 0 <= k < children.len() ==> self.valid(#[trigger] children@[k]),
                i <= children.len(),
                out@ == children@.take(i as int).filter(self.element_pred()),
            decreases children.len() - i,
        {
            let c = children[i];
            assert(children@.take(i as int + 1).drop_last() =~= children@.take(i as int));
            reveal_with_fuel(Seq::filter, 1);
            if self.tag_name(c).is_some() {
                out.push(c);
            }
            i = i + 1;
        }
        assert(children@.take(children.len() as int) =~= children@);
        out
    }

    // -----------------------------------------------------------------------
    // Attribute mutation
    // -----------------------------------------------------------------------

    proof fn lemma_with_attrs_wf(&self, new: &DomTree, n: NodeId, attrs: Seq<AttrView>)
        requires
            self.wf(),
            self.valid(n),
            self.with_attrs(new, n, attrs),
        ensures
            new.wf(),
    {
        assert(new.nodes@[0].data is Document) by {
            if n != 0 {
                assert(new.nodes@[0] == self.nodes@[0]);
            }
        }
        assert forall|i: int, j: int|
            0 <= i < new.nodes.len() && 0 <= j < new.nodes@[i].children.len() implies (
            #[trigger] new.nodes@[i].children@[j]) < new.nodes.len() by {
            if i != n {
                assert(new.nodes@[i] == self.nodes@[i]);
            } else {
                assert(new.nodes@[i].children@[j] == self.nodes@[i].children@[j]);
            }
        }
        assert forall|i: int| 0 <= i < new.nodes.len() implies match #[trigger] new.nodes@[i].parent {
            Some(p) => p < new.nodes.len(),
            None => true,
        } by {
            if i != n {
                assert(new.nodes@[i] == self.nodes@[i]);
            }
        }
    }

    /// Set the value of the attribute at position `i` of element `n`.
    fn set_value_at(&mut self, n: NodeId, i: usize, value: &str)
        requires
            old(self).wf(),
            old(self).is_element(n),
            i < old(self).attrs(n).len(),
        ensures
            old(self).with_attrs(
                final(self),
                n,
                old(self).attrs(n).update(i as int, AttrView { value: value@, ..old(self).attrs(n)[i as int] }),
            ),
            final(self).wf(),
    {
        let v = owned(value);
        match &mut self.nodes[n].data {
            NodeData::Element { attributes, .. } => {
                attributes[i].value = v;
            },
            _ => {},
        }
        proof {
            let target = old(self).attrs(n).update(
                i as int,
                AttrView { value: value@, ..old(self).attrs(n)[i as int] },
            );
            assert(self.attrs(n) =~= target);
            old(self).lemma_with_attrs_wf(self, n, target);
        }
    }

    /// Append an attribute to element `n`.
    fn push_attr(&mut self, n: NodeId, a: DomAttribute)
        requires
            old(self).wf(),
            old(self).is_element(n),
        ensures
            old(self).with_attrs(final(self), n, old(self).attrs(n).push(a@)),
            final(self).wf(),
    {
        match &mut self.nodes[n].data {
            NodeData::Element { attributes, .. } => {
                attributes.push(a);
            },
            _ => {},
        }
        proof {
            assert(self.attrs(n) =~= old(self).attrs(n).push(a@));
            old(self).lemma_with_attrs_wf(self, n, old(self).attrs(n).push(a@));
        }
    }

    /// Remove the attribute at position `i` of element `n`.
    fn remove_at(&mut self, n: NodeId, i: usize)
        requires
            old(self).wf(),
            old(self).is_element(n),
            i < old(self).attrs(n).len(),
        ensures
            old(self).with_attrs(final(self), n, old(self).attrs(n).remove(i as int)),
            final(self).wf(),
    {
        match &mut self.nodes[n].data {
            NodeData::Element { attributes, .. } => {
                attributes.remove(i);
            },
            _ => {},
        }
        proof {
            assert(self.attrs(n) =~= old(self).attrs(n).remove(i as int));
            old(self).lemma_with_attrs_wf(self, n, old(self).attrs(n).remove(i as int));
        }
    }

    /// `setAttribute` on node `n`: no change when `n` is not an element.
    pub fn set_attribute(&mut self, n: NodeId, name: &str, value: &str)
        requires
            old(self).wf(),
            old(self).valid(n),
        ensures
            final(self).wf(),
            old(self).updated_attrs(final(self), n, attrs_set(old(self).attrs(n), name@, value@)),
    {
        if self.tag_name(n).is_none() {
            return ;
        }
        match self.find_attr(n, &AttrKey::QualifiedName(owned(name))) {
            Some(i) => {
                self.set_value_at(n, i, value);
            },
            None => {
                self.push_attr(n, DomAttribute::new(name, value));
            },
        }
    }

    /// `removeAttribute` on node `n`.
    pub fn remove_attribute(&mut self, n: NodeId, name: &str)
        requires
            old(self).wf(),
            old(self).valid(n),
        ensures
            final(self).wf(),
            old(self).updated_attrs(final(self), n, attrs_remove(old(self).attrs(n), name@)),
    {
        if self.tag_name(n).is_none() {
            return ;
        }
        match self.find_attr(n, &AttrKey::QualifiedName(owned(name))) {
            Some(i) => {
                self.remove_at(n, i);
            },
            None => {
                assert(self.attrs(n) =~= self.attrs(n));
                assert(self.with_attrs(self, n, self.attrs(n)));
            },
        }
    }

    /// `setAttributeNS` on node `n` with a namespace (empty for none), a prefix
    /// (empty for none) and a local name.
    pub fn set_attribute_ns(&mut self, n: NodeId, ns: &str, prefix: &str, local: &str, value: &str)
        requires
            old(self).wf(),
            old(self).valid(n),
        ensures
            final(self).wf(),
            old(self).updated_attrs(
                final(self),
                n,
                attrs_set_ns(old(self).attrs(n), ns@, prefix@, local@, value@),
            ),
    {
        if self.tag_name(n).is_none() {
            return ;
        }
        match self.find_attr(n, &AttrKey::Namespaced(owned(ns), owned(local))) {
            Some(i) => {
                self.set_value_at(n, i, value);
            },
            None => {
                let a = DomAttribute {
                    local_name: owned(local),
                    namespace: owned(ns),
                    prefix: owned(prefix),
                    value: owned(value),
                };
                self.push_attr(n, a);
            },
        }
    }

    /// `removeAttributeNS` on node `n`.
    pub fn remove_attribute_ns(&mut self, n: NodeId, ns: &str, local: &str)
        requires
            old(self).wf(),
            old(self).valid(n),
        ensures
            final(self).wf(),
            old(self).updated_attrs(final(self), n, attrs_remove_ns(old(self).attrs(n), ns@, local@)),
    {
        if self.tag_name(n).is_none() {
            return ;
        }
        match self.find_attr(n, &AttrKey::Namespaced(owned(ns), owned(local))) {
            Some(i) => {
                self.remove_at(n, i);
            },
            None => {
                assert(self.attrs(n) =~= self.attrs(n));
                assert(self.with_attrs(self, n, self.attrs(n)));
            },
        }
    }

    // -----------------------------------------------------------------------
    // Walks
    // -----------------------------------------------------------------------

    /// Append to `out` the pre-order walk of `list` (see `forest`).
    fn collect_forest(&self, list: &Vec<NodeId>, fuel: usize, skip: Option<NodeId>, out: &mut Vec<NodeId>)
        requires
            self.wf(),
            forall|i: int| 0 <= i < list.len() ==> self.valid(#[trigger] list@[i]),
        ensures
            final(out)@ == old(out)@ + self.forest(list@, fuel as nat, skip),
        decreases fuel,
    {
        let ghost start = out@;
        let mut i: usize = 0;
        while i < list.len()
            invariant
                self.wf(),
                forall|k: int| 0 <= k < list.len() ==> self.valid(#[trigger] list@[k]),
                i <= list.len(),
                out@ == start + self.forest(list@.take(i as int), fuel as nat, skip),
            decreases list.len() - i,
        {
            let c = list[i];
            let ghost before = out@;
            assert(list@.take(i as int + 1).drop_last() =~= list@.take(i as int));
            assert(list@.take(i as int + 1).last() == c);
            let skipped = match skip {
                Some(s) => s == c,
                None => false,
            };
            if !skipped {
                out.push(c);
                if fuel > 0 {
                    proof {
                        self.lemma_children_valid(c);
                    }
                    let ghost mid = out@;
                    self.collect_forest(&self.nodes[c].children, fuel - 1, skip, out);
                    assert(out@ =~= before.push(c) + self.forest(
                        self.children_of(c),
                        (fuel - 1) as nat,
                        skip,
                    ));
                }
            }
            i = i + 1;
            assert(out@ =~= start + self.forest(list@.take(i as int), fuel as nat, skip));
        }
        assert(list@.take(list.len() as int) =~= list@);
    }

    /// All descendants of `n` in tree order.
    pub fn collect_descendants(&self, n: NodeId) -> (r: Vec<NodeId>)
        requires
            self.wf(),
            self.valid(n),
        ensures
            r@ == self.descendants(n),
            forall|i: int| 0 <= i < r.len() ==> self.valid(#[trigger] r@[i]),
    {
        proof {
            self.lemma_children_valid(n);
            self.lemma_descendants_valid(n);
        }
        let mut out: Vec<NodeId> = Vec::new();
        self.collect_forest(&self.nodes[n].children, self.nodes.len(), None, &mut out);
        assert(out@ =~= self.descendants(n));
        out
    }

    /// Descendants of `n` in tree order, leaving out the subtree of `skip`.
    pub fn collect_descendants_skipping(&self, n: NodeId, skip: NodeId) -> (r: Vec<NodeId>)
        requires
            self.wf(),
            self.valid(n),
        ensures
            r@ == self.descendants_skipping(n, skip),
            forall|i: int| 0 <= i < r.len() ==> self.valid(#[trigger] r@[i]),
    {
        proof {
            self.lemma_children_valid(n);
            self.lemma_children_valid(n);
            self.lemma_forest_valid(self.children_of(n), self.nodes.len() as nat, Some(skip));
        }
        let mut out: Vec<NodeId> = Vec::new();
        self.collect_forest(&self.nodes[n].children, self.nodes.len(), Some(skip), &mut out);
        assert(out@ =~= self.descendants_skipping(n, skip));
        out
    }

    /// The element with id attribute `id` that comes first in tree order.
    pub open spec fn element_by_id(&self, id: Seq<char>) -> Option<NodeId> {
        let d = self.descendants(0);
        let i = first_index(d, self.id_pred(id));
        if i < 0 {
            None
        } else {
            Some(d[i])
        }
    }

    /// `getElementById`.
    pub fn get_element_by_id(&self, id: &str) -> (r: Option<NodeId>)
        requires
            self.wf(),
        ensures
            r == self.element_by_id(id@),
    {
        let d = self.collect_descendants(0);
        let key = owned("id");
        proof {
            reveal_strlit("id");
        }
        assert(key@ =~= seq!['i', 'd']);
        let mut i: usize = 0;
        while i < d.len()
            invariant
                d@ == self.descendants(0),
                forall|k: int| 0 <= k < d.len() ==> self.valid(#[trigger] d@[k]),
                key@ == seq!['i', 'd'],
                i <= d.len(),
                forall|j: int| 0 <= j < i ==> !self.id_pred(id@)(#[trigger] d@[j]),
            decreases d.len() - i,
        {
            let m = d[i];
            if self.tag_name(m).is_some() {
                let v = self.local_attribute(m, key.as_str());
                match v {
                    Some(val) => {
                        if str_eq(val.as_str(), id) {
                            assert(self.id_pred(id@)(d@[i as int]));
                            proof {
                                lemma_first_index_is(d@, self.id_pred(id@), i as int);
                            }
                            return Some(m);
                        }
                    },
                    None => {},
                }
            }
            i = i + 1;
        }
        proof {
            lemma_first_index_none(d@, self.id_pred(id@));
        }
        None
    }
}

/// Position of the first occurrence of `n` in `list`.
pub fn index_of_node(list: &Vec<NodeId>, n: NodeId) -> (r: Option<usize>)
    ensures
        match r {
            Some(i) => i < list.len() && first_index(list@, DomTree::is_node(n)) == i,
            None => first_index(list@, DomTree::is_node(n)) == -1,
        },
{
    let mut i: usize = 0;
    while i < list.len()
        invariant
            i <= list.len(),
            forall|k: int| 0 <= k < i ==> !DomTree::is_node(n)(#[trigger] list@[k]),
        decreases list.len() - i,
    {
        if list[i] == n {
            proof {
                lemma_first_index_is(list@, DomTree::is_node(n), i as int);
            }
            return Some(i);
        }
        i = i + 1;
    }
    proof {
        lemma_first_index_none(list@, DomTree::is_node(n));
    }
    None
}

/// How an attribute is looked up.
pub enum AttrKey {
    /// By qualified name.
    QualifiedName(String),
    /// By local name.
    LocalName(String),
    /// By qualified name or local name.
    QualifiedOrLocalName(String),
    /// By namespace and local name.
    Namespaced(String, String),
    /// By qualified name (first field) or local name (second field).
    NameOrLocal(String, String),
}

impl AttrKey {
    pub open spec fn pred(&self) -> spec_fn(AttrView) -> bool {
        match self {
            AttrKey::QualifiedName(n) => qname_is(n@),
            AttrKey::LocalName(n) => local_is(n@),
            AttrKey::QualifiedOrLocalName(n) => qname_or_local_is(n@),
            AttrKey::Namespaced(ns, l) => ns_local_is(ns@, l@),
            AttrKey::NameOrLocal(n, l) => name_or_local_is(n@, l@),
        }
    }

    pub fn test(&self, a: &DomAttribute) -> (r: bool)
        ensures
            r == self.pred()(a@),
    {
        match self {
            AttrKey::QualifiedName(n) => {
                let q = a.qualified_name();
                q == *n
            },
            AttrKey::LocalName(n) => a.local_name == *n,
            AttrKey::QualifiedOrLocalName(n) => {
                let q = a.qualified_name();
                q == *n || a.local_name == *n
            },
            AttrKey::Namespaced(ns, l) => a.namespace == *ns && a.local_name == *l,
            AttrKey::NameOrLocal(n, l) => {
                let q = a.qualified_name();
                q == *n || a.local_name == *l
            },
        }
    }
}

// ---------------------------------------------------------------------------
// Laws of attribute lists
// ---------------------------------------------------------------------------

/// Reading an attribute just set gives the value set.
pub proof fn lemma_get_after_set(a: Seq<AttrView>, k: Seq<char>, v: Seq<char>)
    ensures
        value_where(attrs_set(a, k, v), qname_is(k)) == Some(v),
{
    let p = qname_is(k);
    let i = first_index(a, p);
    lemma_first_index(a, p);
    let b = attrs_set(a, k, v);
    if i >= 0 {
        assert forall|j: int| 0 <= j < i implies !p(#[trigger] b[j]) by {
            assert(b[j] == a[j]);
        }
        assert(p(b[i]));
        lemma_first_index_is(b, p, i);
    } else {
        assert forall|j: int| 0 <= j < a.len() implies !p(#[trigger] b[j]) by {
            assert(b[j] == a[j]);
        }
        assert(p(b[a.len() as int]));
        lemma_first_index_is(b, p, a.len() as int);
    }
}

/// Setting an attribute leaves the value read under any other qualified name
/// unchanged.
pub proof fn lemma_set_keeps_other(a: Seq<AttrView>, k: Seq<char>, v: Seq<char>, other: Seq<char>)
    requires
        other != k,
    ensures
        value_where(attrs_set(a, k, v), qname_is(other)) == value_where(a, qname_is(other)),
{
    let p = qname_is(other);
    let q = qname_is(k);
    let b = attrs_set(a, k, v);
    lemma_first_index(a, q);
    lemma_first_index(a, p);
    let i = first_index(a, q);
    let j = first_index(a, p);
    assert forall|m: int| 0 <= m < a.len() implies (p(#[trigger] b[m]) == p(a[m])) && (p(a[m]) ==> b[m] == a[m]) by {
        if m == i {
            assert(q(a[m]));
        }
    }
    if j >= 0 {
        assert forall|m: int| 0 <= m < j implies !p(#[trigger] b[m]) by {
            assert(!p(a[m]));
        }
        assert(p(b[j]));
        lemma_first_index_is(b, p, j);
    } else {
        assert forall|m: int| 0 <= m < b.len() implies !p(#[trigger] b[m]) by {
            if m < a.len() {
                assert(!p(a[m]));
            } else {
                assert(b[m].qname() == k);
            }
        }
        lemma_first_index_none(b, p);
    }
}

/// Reading a namespaced attribute just set gives the value set.
pub proof fn lemma_get_after_set_ns(
    a: Seq<AttrView>,
    ns: Seq<char>,
    prefix: Seq<char>,
    local: Seq<char>,
    v: Seq<char>,
)
    ensures
        value_where(attrs_set_ns(a, ns, prefix, local, v), ns_local_is(ns, local)) == Some(v),
{
    let p = ns_local_is(ns, local);
    let i = first_index(a, p);
    lemma_first_index(a, p);
    let b = attrs_set_ns(a, ns, prefix, local, v);
    if i >= 0 {
        assert forall|j: int| 0 <= j < i implies !p(#[trigger] b[j]) by {
            assert(b[j] == a[j]);
        }
        assert(p(b[i]));
        lemma_first_index_is(b, p, i);
    } else {
        assert forall|j: int| 0 <= j < a.len() implies !p(#[trigger] b[j]) by {
            assert(b[j] == a[j]);
        }
        assert(p(b[a.len() as int]));
        lemma_first_index_is(b, p, a.len() as int);
    }
}

/// No two attributes of the list satisfy `p`.
pub open spec fn at_most_one(a: Seq<AttrView>, p: spec_fn(AttrView) -> bool) -> bool {
    forall|i: int, j: int| 0 <= i < a.len() && 0 <= j < a.len() && #[trigger] p(a[i]) && #[trigger] p(a[j]) ==> i == j
}

/// After removing the attribute named `k` from a list in which at most one
/// attribute has that name, none has it.
pub proof fn lemma_absent_after_remove(a: Seq<AttrView>, k: Seq<char>)
    requires
        at_most_one(a, qname_is(k)),
    ensures
        value_where(attrs_remove(a, k), qname_is(k)) is None,
{
    let p = qname_is(k);
    lemma_first_index(a, p);
    let i = first_index(a, p);
    let b = attrs_remove(a, k);
    if i >= 0 {
        assert forall|m: int| 0 <= m < b.len() implies !p(#[trigger] b[m]) by {
            if m < i {
                assert(b[m] == a[m]);
            } else {
                assert(b[m] == a[m + 1]);
                if p(a[m + 1]) {
                    assert(p(a[i]));
                }
            }
        }
    } else {
        assert forall|m: int| 0 <= m < b.len() implies !p(#[trigger] b[m]) by {}
    }
    lemma_first_index_none(b, p);
}

/// After removing the namespaced attribute (`ns`, `local`), none has that
/// namespace and local name (a list holds at most one such attribute when only
/// `setAttributeNS` added them).
pub proof fn lemma_absent_after_remove_ns(a: Seq<AttrView>, ns: Seq<char>, local: Seq<char>)
    requires
        at_most_one(a, ns_local_is(ns, local)),
    ensures
        value_where(attrs_remove_ns(a, ns, local), ns_local_is(ns, local)) is None,
{
    let p = ns_local_is(ns, local);
    lemma_first_index(a, p);
    let i = first_index(a, p);
    let b = attrs_remove_ns(a, ns, local);
    if i >= 0 {
        assert forall|m: int| 0 <= m < b.len() implies !p(#[trigger] b[m]) by {
            if m < i {
                assert(b[m] == a[m]);
            } else {
                assert(b[m] == a[m + 1]);
                if p(a[m + 1]) {
                    assert(p(a[i]));
                }
            }
        }
    } else {
        assert forall|m: int| 0 <= m < b.len() implies !p(#[trigger] b[m]) by {}
    }
    lemma_first_index_none(b, p);
}

} // verus!
