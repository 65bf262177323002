//! The `document` object: node creation with name checks (`createElement`,
//! `createElementNS`, `createAttribute`, `createProcessingInstruction`),
//! `contains`, `doctype`, and `title`.
use vstd::prelude::*;
use crate::collections::tag_match_pred;
use crate::dom::{DomTree, NodeData, NodeId};
use crate::error::DomError;
use crate::names::{spec_validate_and_extract, validate_and_extract};
use crate::text::{
    ascii_lower, chars_of, extend_chars, first_index, lemma_first_index_is, lemma_first_index_none, owned,
    string_of, to_ascii_lowercase,
};

verus! {

// ---------------------------------------------------------------------------
// XML names
// ---------------------------------------------------------------------------

/// XML 1.0 `NameStartChar`.
pub open spec fn xml_name_start_char(c: char) -> bool {
    let u = c as u32;
    c == ':' || ('A' <= c && c <= 'Z') || c == '_' || ('a' <= c && c <= 'z') || (0xC0 <= u
        && u <= 0xD6) || (0xD8 <= u && u <= 0xF6) || (0xF8 <= u && u <= 0x2FF) || (0x370 <= u && u
        <= 0x37D) || (0x37F <= u && u <= 0x1FFF) || (0x200C <= u && u <= 0x200D) || (0x2070 <= u
        && u <= 0x218F) || (0x2C00 <= u && u <= 0x2FEF) || (0x3001 <= u && u <= 0xD7FF) || (0xF900
        <= u && u <= 0xFDCF) || (0xFDF0 <= u && u <= 0xFFFD) || (0x10000 <= u && u <= 0xEFFFF)
}

/// XML 1.0 `NameChar`.
pub open spec fn xml_name_char(c: char) -> bool {
    let u = c as u32;
    xml_name_start_char(c) || c == '-' || c == '.' || ('0' <= c && c <= '9') || u == 0xB7 || (0x300
        <= u && u <= 0x36F) || (0x203F <= u && u <= 0x2040)
}

/// XML 1.0 `Name`: a `NameStartChar` followed by `NameChar`s.
pub open spec fn spec_valid_xml_name(s: Seq<char>) -> bool {
    s.len() > 0 && xml_name_start_char(s[0]) && forall|i: int| 1 <= i < s.len() ==> xml_name_char(#[trigger] s[i])
}

fn is_xml_name_start_char(c: char) -> (r: bool)
    ensures
        r == xml_name_start_char(c),
{
    let u = c as u32;
    c == ':' || ('A' <= c && c <= 'Z') || c == '_' || ('a' <= c && c <= 'z') || (0xC0 <= u
        && u <= 0xD6) || (0xD8 <= u && u <= 0xF6) || (0xF8 <= u && u <= 0x2FF) || (0x370 <= u && u
        <= 0x37D) || (0x37F <= u && u <= 0x1FFF) || (0x200C <= u && u <= 0x200D) || (0x2070 <= u
        && u <= 0x218F) || (0x2C00 <= u && u <= 0x2FEF) || (0x3001 <= u && u <= 0xD7FF) || (0xF900
        <= u && u <= 0xFDCF) || (0xFDF0 <= u && u <= 0xFFFD) || (0x10000 <= u && u <= 0xEFFFF)
}

fn is_xml_name_char(c: char) -> (r: bool)
    ensures
        r == xml_name_char(c),
{
    let u = c as u32;
    is_xml_name_start_char(c) || c == '-' || c == '.' || ('0' <= c && c <= '9') || u == 0xB7 || (0x300
        <= u && u <= 0x36F) || (0x203F <= u && u <= 0x2040)
}

/// Whether `name` is an XML `Name`.
pub fn is_valid_xml_name(name: &str) -> (r: bool)
    ensures
        r == spec_valid_xml_name(name@),
{
    let v = chars_of(name);
    if v.len() == 0 || !is_xml_name_start_char(v[0]) {
        return false;
    }
    let mut i: usize = 1;
    while i < v.len()
        invariant
            v@ == name@,
            1 <= i <= v.len(),
            forall|k: int| 1 <= k < i ==> xml_name_char(#[trigger] v@[k]),
        decreases v.len() - i,
    {
        if !is_xml_name_char(v[i]) {
            return false;
        }
        i = i + 1;
    }
    true
}

// ---------------------------------------------------------------------------
// Node creation
// ---------------------------------------------------------------------------

/// `s` holds `?>`.
pub open spec fn holds_pi_end(s: Seq<char>) -> bool {
    exists|i: int| 0 <= i < s.len() - 1 && s[i] == '?' && #[trigger] s[i + 1] == '>'
}

fn contains_pi_end(s: &str) -> (r: bool)
    ensures
        r == holds_pi_end(s@),
{
    let v = chars_of(s);
    let mut i: usize = 0;
    while i < v.len() && i + 1 < v.len()
        invariant
            v@ == s@,
            i <= v.len(),
            forall|k: int| 0 <= k < i && k < v.len() - 1 ==> !(v@[k] == '?' && #[trigger] v@[k + 1] == '>'),
        decreases v.len() - i,
    {
        if v[i] == '?' && v[i + 1] == '>' {
            return true;
        }
        i = i + 1;
    }
    false
}

/// Why `createProcessingInstruction(target, data)` fails: the target is not an
/// XML name, or the data holds `?>`.
pub open spec fn pi_error(target: Seq<char>, data: Seq<char>) -> Option<DomError> {
    if !spec_valid_xml_name(target) || holds_pi_end(data) {
        Some(DomError::InvalidCharacterError)
    } else {
        None
    }
}

/// `document.createProcessingInstruction(target, data)`.
pub fn create_processing_instruction(tree: &mut DomTree, target: &str, data: &str) -> (r: Result<NodeId, DomError>)
    requires
        old(tree).wf(),
    ensures
        final(tree).wf(),
        pi_error(target@, data@) is Some ==> r == Err::<NodeId, DomError>(pi_error(target@, data@)->0)
            && *final(tree) == *old(tree),
        pi_error(target@, data@) is None ==> {
            &&& r == Ok::<NodeId, DomError>(old(tree).nodes.len() as NodeId)
            &&& final(tree).nodes.len() == old(tree).nodes.len() + 1
            &&& final(tree).node(old(tree).nodes.len() as NodeId).data matches NodeData::ProcessingInstruction {
                target: t,
                content,
            } && t@ == target@ && content@ == data@
        },
{
    if !is_valid_xml_name(target) {
        return Err(DomError::InvalidCharacterError);
    }
    if contains_pi_end(data) {
        return Err(DomError::InvalidCharacterError);
    }
    Ok(tree.create_processing_instruction(target, data))
}

/// `document.createElement(tagName)`: in an HTML document the tag name is
/// ASCII-lowercased and the element is in the XHTML namespace; in an XML
/// document the name is kept and the element has no namespace.
pub fn document_create_element(tree: &mut DomTree, tag: &str) -> (id: NodeId)
    requires
        old(tree).wf(),
    ensures
        final(tree).wf(),
        id == old(tree).nodes.len(),
        final(tree).is_element(id),
        old(tree).html_document ==> final(tree).tag(id) == ascii_lower(tag@) && final(tree).element_ns(id)
            == crate::dom::xhtml_ns(),
        !old(tree).html_document ==> final(tree).tag(id) == tag@ && final(tree).element_ns(id)
            == Seq::<char>::empty(),
        final(tree).attrs(id).len() == 0,
        final(tree).parent_of(id) is None,
{
    if tree.is_html_document() {
        let lower = to_ascii_lowercase(tag);
        tree.create_element(lower.as_str())
    } else {
        tree.create_element(tag)
    }
}

/// `document.createElementNS(namespace, qualifiedName)` (empty namespace for
/// null): the name is validated and extracted first.
pub fn document_create_element_ns(tree: &mut DomTree, namespace: &str, qualified_name: &str) -> (r: Result<
    NodeId,
    DomError,
>)
    requires
        old(tree).wf(),
    ensures
        final(tree).wf(),
        match spec_validate_and_extract(namespace@, qualified_name@) {
            Err(e) => r == Err::<NodeId, DomError>(e) && *final(tree) == *old(tree),
            Ok(_) => r == Ok::<NodeId, DomError>(old(tree).nodes.len() as NodeId) && final(tree).is_element(
                old(tree).nodes.len() as NodeId,
            ) && final(tree).tag(old(tree).nodes.len() as NodeId) == qualified_name@ && final(tree).element_ns(
                old(tree).nodes.len() as NodeId,
            ) == namespace@,
        },
{
    match validate_and_extract(namespace, qualified_name) {
        Err(e) => Err(e),
        Ok(_) => Ok(tree.create_element_ns(namespace, qualified_name)),
    }
}

/// The name of the attribute `document.createAttribute(localName)` makes:
/// `InvalidCharacterError` for the empty name; ASCII-lowercased in an HTML
/// document.
pub fn create_attribute_name(tree: &DomTree, local_name: &str) -> (r: Result<String, DomError>)
    ensures
        local_name@.len() == 0 ==> r == Err::<String, DomError>(DomError::InvalidCharacterError),
        local_name@.len() > 0 && tree.html_document ==> (r matches Ok(n) && n@ == ascii_lower(local_name@)),
        local_name@.len() > 0 && !tree.html_document ==> (r matches Ok(n) && n@ == local_name@),
{
    if local_name.is_empty() {
        return Err(DomError::InvalidCharacterError);
    }
    if tree.is_html_document() {
        Ok(to_ascii_lowercase(local_name))
    } else {
        Ok(owned(local_name))
    }
}

// ---------------------------------------------------------------------------
// DOMImplementation
// ---------------------------------------------------------------------------

/// `createDocumentType(name, ...)` refuses a name holding `>` or a space.
pub open spec fn doctype_name_invalid(name: Seq<char>) -> bool {
    name.contains('>') || name.contains(' ')
}

/// The name check of `document.implementation.createDocumentType`.
pub fn validate_doctype_name(name: &str) -> (r: Result<(), DomError>)
    ensures
        doctype_name_invalid(name@) ==> r == Err::<(), DomError>(DomError::InvalidCharacterError),
        !doctype_name_invalid(name@) ==> r is Ok,
{
    if crate::text::contains_char(name, '>') || crate::text::contains_char(name, ' ') {
        Err(DomError::InvalidCharacterError)
    } else {
        Ok(())
    }
}

/// The `contentType` of a document made by `createDocument` in namespace `ns`.
pub open spec fn spec_content_type(ns: Seq<char>) -> Seq<char> {
    if ns == crate::dom::xhtml_ns() {
        "application/xhtml+xml"@
    } else if ns == "http://www.w3.org/2000/svg"@ {
        "image/svg+xml"@
    } else {
        "application/xml"@
    }
}

/// `contentType` for `createDocument` in namespace `ns`.
pub fn content_type_for_namespace(ns: &str) -> (r: String)
    ensures
        r@ == spec_content_type(ns@),
{
    let x = crate::dom::xhtml_namespace();
    if crate::text::str_eq(ns, x.as_str()) {
        owned("application/xhtml+xml")
    } else if crate::text::str_eq(ns, "http://www.w3.org/2000/svg") {
        owned("image/svg+xml")
    } else {
        owned("application/xml")
    }
}

/// `document.implementation.createHTMLDocument(title)`: a new HTML document
/// holding a `html` doctype and `html` > (`head`, `body`); with a title, `head`
/// holds a `title` element with that text.
pub fn create_html_document(title: Option<&str>) -> (t: DomTree)
    ensures
        t.wf(),
        t.html_document,
        t.children_of(0) == seq![1usize, 2usize],
        t.node(1).data matches NodeData::Doctype { name } && name@ == "html"@,
        t.is_element(2) && t.tag(2) == "html"@ && t.children_of(2) == seq![3usize, 4usize],
        t.is_element(3) && t.tag(3) == "head"@,
        t.is_element(4) && t.tag(4) == "body"@ && t.children_of(4).len() == 0,
        title is None ==> t.children_of(3).len() == 0,
        title matches Some(s) ==> {
            &&& t.children_of(3) == seq![5usize]
            &&& t.is_element(5) && t.tag(5) == "title"@
            &&& t.children_of(5) == seq![6usize]
            &&& t.node(6).data matches NodeData::Text { content } && content@ == s@
        },
{
    let mut t = DomTree::new();
    let doctype = t.create_doctype("html");
    let html = t.create_element("html");
    let head = t.create_element("head");
    let body = t.create_element("body");
    let ghost n1 = t.nodes@[1];
    let doc = t.document();
    t.append_child(doc, doctype);
    t.append_child(doc, html);
    assert(t.children_of(0) =~= seq![1usize, 2usize]);
    let ghost n0 = t.nodes@[0];
    assert(t.nodes@[1].data == n1.data);
    let ghost n1 = t.nodes@[1];
    t.append_child(html, head);
    assert(t.nodes@[0] == n0 && t.nodes@[1] == n1);
    t.append_child(html, body);
    assert(t.nodes@[0] == n0 && t.nodes@[1] == n1);
    assert(t.children_of(2) =~= seq![3usize, 4usize]);
    let ghost n2 = t.nodes@[2];
    let ghost n4 = t.nodes@[4];
    match title {
        Some(s) => {
            let title_el = t.create_element("title");
            let text = t.create_text(s);
            assert(t.nodes@[0] == n0 && t.nodes@[1] == n1 && t.nodes@[2] == n2 && t.nodes@[4] == n4);
            t.append_child(title_el, text);
            assert(t.nodes@[0] == n0 && t.nodes@[1] == n1 && t.nodes@[2] == n2 && t.nodes@[4] == n4);
            t.append_child(head, title_el);
            assert(t.nodes@[0] == n0 && t.nodes@[1] == n1 && t.nodes@[2] == n2 && t.nodes@[4] == n4);
            assert(t.children_of(3) =~= seq![5usize]);
            assert(t.children_of(5) =~= seq![6usize]);
        },
        None => {},
    }
    t
}

/// `document.implementation.createDocument(namespace, qualifiedName, doctype)`
/// (empty namespace for null; `doctype_name` the name of the given doctype):
/// the name is validated and extracted first; the new XML document holds the
/// doctype, if any, then an element named `qualifiedName` in `namespace` when
/// that name is not empty.
pub fn create_xml_document(namespace: &str, qualified_name: &str, doctype_name: Option<&str>) -> (r: Result<
    DomTree,
    DomError,
>)
    ensures
        match spec_validate_and_extract(namespace@, qualified_name@) {
            Err(e) => r matches Err(x) && x == e,
            Ok(_) => r matches Ok(t) && {
                let dt = if doctype_name is Some { 1int } else { 0int };
                &&& t.wf()
                &&& !t.html_document
                &&& t.children_of(0).len() == dt + if qualified_name@.len() > 0 { 1int } else { 0int }
                &&& doctype_name matches Some(n) ==> (t.node(t.children_of(0)[0]).data matches NodeData::Doctype {
                    name,
                } && name@ == n@)
                &&& qualified_name@.len() > 0 ==> {
                    let e = t.children_of(0)[dt];
                    &&& t.is_element(e)
                    &&& t.tag(e) == qualified_name@
                    &&& t.element_ns(e) == namespace@
                }
            },
        },
{
    match validate_and_extract(namespace, qualified_name) {
        Err(e) => Err(e),
        Ok(_) => {
            let mut t = DomTree::new_xml();
            let doc = t.document();
            match doctype_name {
                Some(n) => {
                    let dt = t.create_doctype(n);
                    t.append_child(doc, dt);
                    assert(t.children_of(0) =~= seq![dt]);
                },
                None => {},
            }
            let ghost before = t.children_of(0);
            let ghost first = if before.len() > 0 { t.nodes@[before[0] as int] } else { t.nodes@[0] };
            if !qualified_name.is_empty() {
                let e = t.create_element_ns(namespace, qualified_name);
                assert(before.len() > 0 ==> t.nodes@[before[0] as int] == first);
                t.append_child(doc, e);
                assert(t.children_of(0) == before.push(e));
                assert(before.len() > 0 ==> t.nodes@[before[0] as int] == first);
            }
            Ok(t)
        },
    }
}

// ---------------------------------------------------------------------------
// Moving and copying nodes
// ---------------------------------------------------------------------------

/// `document.importNode(node, false)` from tree `source`: a detached copy of
/// the node alone in `target`; a document cannot be imported
/// (`NotSupportedError`).
pub fn import_node_shallow(target: &mut DomTree, source: &DomTree, n: NodeId) -> (r: Result<NodeId, DomError>)
    requires
        old(target).wf(),
        source.valid(n),
    ensures
        final(target).wf(),
        source.node(n).data is Document ==> r == Err::<NodeId, DomError>(DomError::NotSupportedError)
            && *final(target) == *old(target),
        !(source.node(n).data is Document) ==> {
            let id = old(target).nodes.len() as NodeId;
            &&& r == Ok::<NodeId, DomError>(id)
            &&& final(target).nodes.len() == old(target).nodes.len() + 1
            &&& crate::dom::copy_of(final(target).node(id).data, source.node(n).data)
            &&& final(target).parent_of(id) is None
            &&& final(target).children_of(id).len() == 0
        },
{
    let data = &source.get_node(n).data;
    if matches!(data, NodeData::Document) {
        return Err(DomError::NotSupportedError);
    }
    Ok(target.create_copy(data))
}

/// `document.adoptNode(node)` for a node of the document's own tree: it is
/// removed from its parent; a document cannot be adopted (`NotSupportedError`).
pub fn adopt_node_same_tree(tree: &mut DomTree, n: NodeId) -> (r: Result<(), DomError>)
    requires
        old(tree).wf(),
        old(tree).valid(n),
    ensures
        final(tree).wf(),
        old(tree).node(n).data is Document ==> r == Err::<(), DomError>(DomError::NotSupportedError)
            && *final(tree) == *old(tree),
        !(old(tree).node(n).data is Document) ==> r is Ok && final(tree).parent_of(n) is None
            && match old(tree).parent_of(n) {
            Some(p) => p != n ==> final(tree).children_of(p) == DomTree::without_child(old(tree).children_of(p), n),
            None => true,
        },
{
    if matches!(tree.get_node(n).data, NodeData::Document) {
        return Err(DomError::NotSupportedError);
    }
    tree.detach(n);
    Ok(())
}

/// `document.removeChild(child)`: a child of the document leaves it; any other
/// node is left where it is.
pub fn document_remove_child(tree: &mut DomTree, child: NodeId)
    requires
        old(tree).wf(),
        old(tree).valid(child),
    ensures
        final(tree).wf(),
        final(tree).nodes.len() == old(tree).nodes.len(),
        old(tree).parent_of(child) == Some(0usize) && child != 0 ==> final(tree).parent_of(child) is None
            && final(tree).children_of(0) == DomTree::without_child(old(tree).children_of(0), child),
        forall|m: int|
            0 <= m < old(tree).nodes.len() && m != 0 && m != child ==> #[trigger] final(tree).nodes@[m]
                == old(tree).nodes@[m],
        !(old(tree).parent_of(child) == Some(0usize) && child != 0) ==> *final(tree) == *old(tree),
{
    if child != 0 && tree.get_node(child).parent == Some(0) {
        tree.detach(child);
    }
}

/// The document's children after `child` moves to their end: it leaves its
/// place among them first when it was one of them.
pub open spec fn appended_to_document(tree: &DomTree, child: NodeId) -> Seq<NodeId> {
    if tree.parent_of(child) == Some(0usize) {
        DomTree::without_child(tree.children_of(0), child).push(child)
    } else {
        tree.children_of(0).push(child)
    }
}

/// The children of fragment `f` can move to the document one by one: they are
/// distinct, none is the document or `f` itself, and each has `f` as parent.
pub open spec fn movable_fragment(tree: &DomTree, f: NodeId) -> bool {
    let kids = tree.children_of(f);
    &&& f != 0
    &&& kids.no_duplicates()
    &&& forall|k: int|
        0 <= k < kids.len() ==> #[trigger] kids[k] != 0 && kids[k] != f && tree.parent_of(kids[k]) == Some(f)
}

/// `document.appendChild(child)`: a document fragment hands its children to
/// the document in order, leaving it empty; any other node moves to the end of
/// the document's children.
pub fn document_append_child(tree: &mut DomTree, child: NodeId)
    requires
        old(tree).wf(),
        old(tree).valid(child),
        child != 0,
        old(tree).node(child).data is DocumentFragment ==> movable_fragment(old(tree), child),
    ensures
        final(tree).wf(),
        final(tree).nodes.len() == old(tree).nodes.len(),
        !(old(tree).node(child).data is DocumentFragment) ==> final(tree).parent_of(child) == Some(0usize)
            && final(tree).children_of(0) == appended_to_document(old(tree), child),
        !(old(tree).node(child).data is DocumentFragment) ==> forall|m: int|
            0 <= m < old(tree).nodes.len() && m != 0 && m != child && Some(m as NodeId) != old(tree).parent_of(
                child,
            ) ==> #[trigger] final(tree).nodes@[m] == old(tree).nodes@[m],
        old(tree).node(child).data is DocumentFragment ==> {
            &&& final(tree).children_of(0) == old(tree).children_of(0) + old(tree).children_of(child)
            &&& final(tree).children_of(child).len() == 0
            &&& forall|k: int|
                0 <= k < old(tree).children_of(child).len() ==> final(tree).parent_of(
                    #[trigger] old(tree).children_of(child)[k],
                ) == Some(0usize)
            &&& forall|m: int|
                0 <= m < old(tree).nodes.len() && m != 0 && m != child && !old(tree).children_of(
                    child,
                ).contains(m as NodeId) ==> #[trigger] final(tree).nodes@[m] == old(tree).nodes@[m]
        },
{
    if !matches!(tree.get_node(child).data, NodeData::DocumentFragment) {
        tree.detach(child);
        tree.append_child(0, child);
        return;
    }
    let kids = tree.get_node(child).children.clone();
    let ghost t0 = *tree;
    let mut i: usize = 0;
    while i < kids.len()
        invariant
            tree.wf(),
            t0.wf(),
            child != 0,
            t0.valid(child),
            kids@ == t0.children_of(child),
            movable_fragment(&t0, child),
            i <= kids.len(),
            tree.nodes.len() == t0.nodes.len(),
            tree.node(child).data is DocumentFragment,
            tree.parent_of(child) == t0.parent_of(child),
            tree.children_of(child) == kids@.skip(i as int),
            tree.children_of(0) == t0.children_of(0) + kids@.take(i as int),
            forall|k: int| i <= k < kids.len() ==> tree.parent_of(#[trigger] kids@[k]) == Some(child),
            forall|k: int| 0 <= k < i ==> tree.parent_of(#[trigger] kids@[k]) == Some(0usize),
            forall|m: int|
                0 <= m < t0.nodes.len() && m != 0 && m != child && !kids@.contains(m as NodeId)
                    ==> #[trigger] tree.nodes@[m] == t0.nodes@[m],
        decreases kids.len() - i,
    {
        let c = kids[i];
        proof {
            assert(t0.valid(c)) by {
                t0.lemma_children_valid(child);
            }
            assert(c != 0);
            assert(kids@.skip(i as int)[0] == c);
            crate::text::lemma_first_index_is(kids@.skip(i as int), DomTree::is_node(c), 0);
            assert(kids@.skip(i as int).remove(0) =~= kids@.skip(i as int + 1));
        }
        let ghost before = *tree;
        tree.detach(c);
        assert(tree.children_of(child) =~= kids@.skip(i as int + 1));
        assert(tree.parent_of(child) == before.parent_of(child));
        assert(tree.children_of(0) == before.children_of(0));
        tree.append_child(0, c);
        assert(tree.children_of(0) =~= t0.children_of(0) + kids@.take(i as int + 1));
        assert forall|k: int| i + 1 <= k < kids.len() implies tree.parent_of(#[trigger] kids@[k]) == Some(child) by {
            assert(kids@[k] != c);
            assert(kids@[k] != 0);
            assert(before.parent_of(kids@[k]) == Some(child));
        }
        assert forall|k: int| 0 <= k < i + 1 implies tree.parent_of(#[trigger] kids@[k]) == Some(0usize) by {
            if k < i {
                assert(kids@[k] != c);
                assert(before.parent_of(kids@[k]) == Some(0usize));
            }
        }
        assert forall|m: int|
            0 <= m < t0.nodes.len() && m != 0 && m != child && !kids@.contains(m as NodeId) implies #[trigger] tree.nodes@[m]
                == t0.nodes@[m] by {
            assert(m != c);
            assert(before.nodes@[m] == t0.nodes@[m]);
        }
        i = i + 1;
    }
    assert(kids@.take(kids.len() as int) =~= kids@);
}

// ---------------------------------------------------------------------------
// contains, doctype
// ---------------------------------------------------------------------------

/// Walking up from `n` through parents, at most `fuel` steps, reaches the
/// document node.
pub open spec fn reaches_document(tree: &DomTree, n: NodeId, fuel: nat) -> bool
    decreases fuel,
{
    if fuel == 0 {
        false
    } else if n == 0 {
        true
    } else {
        match tree.parent_of(n) {
            Some(p) => reaches_document(tree, p, (fuel - 1) as nat),
            None => false,
        }
    }
}

/// `document.contains(other)` for a node `other` of the document's tree: the
/// document is an inclusive ancestor of it (a parent chain visits each node
/// of the tree at most once).
pub open spec fn spec_document_contains(tree: &DomTree, n: NodeId) -> bool {
    reaches_document(tree, n, tree.nodes.len() as nat)
}

/// `document.contains(other)` for a node of the same tree.
pub fn document_contains(tree: &DomTree, other: NodeId) -> (r: bool)
    requires
        tree.wf(),
        tree.valid(other),
    ensures
        r == spec_document_contains(tree, other),
{
    let mut current = other;
    let mut fuel: usize = tree.nodes.len();
    while fuel > 0
        invariant
            tree.wf(),
            tree.valid(current),
            reaches_document(tree, current, fuel as nat) == spec_document_contains(tree, other),
        decreases fuel,
    {
        if current == 0 {
            return true;
        }
        match tree.get_node(current).parent {
            Some(p) => {
                current = p;
            },
            None => {
                return false;
            },
        }
        fuel = fuel - 1;
    }
    false
}

/// Predicate: the node is a document type node.
pub open spec fn doctype_pred(tree: &DomTree) -> spec_fn(NodeId) -> bool {
    |m: NodeId| tree.valid(m) && tree.node(m).data is Doctype
}

/// `document.doctype`: the first document type child of the document.
pub open spec fn spec_doctype(tree: &DomTree) -> Option<NodeId> {
    let i = first_index(tree.children_of(0), doctype_pred(tree));
    if i < 0 {
        None
    } else {
        Some(tree.children_of(0)[i])
    }
}

/// `document.doctype`.
pub fn doctype(tree: &DomTree) -> (r: Option<NodeId>)
    requires
        tree.wf(),
    ensures
        r == spec_doctype(tree),
{
    let children = &tree.get_node(0).children;
    proof {
        tree.lemma_children_valid(0);
    }
    let mut i: usize = 0;
    while i < children.len()
        invariant
            children@ == tree.children_of(0),
            forall|k: int| 0 <= k < children.len() ==> tree.valid(#[trigger] children@[k]),
            i <= children.len(),
            forall|k: int| 0 <= k < i ==> !doctype_pred(tree)(#[trigger] children@[k]),
        decreases children.len() - i,
    {
        let c = children[i];
        if matches!(tree.get_node(c).data, NodeData::Doctype { .. }) {
            proof {
                lemma_first_index_is(children@, doctype_pred(tree), i as int);
            }
            return Some(c);
        }
        i = i + 1;
    }
    proof {
        lemma_first_index_none(children@, doctype_pred(tree));
    }
    None
}

// ---------------------------------------------------------------------------
// documentElement, head, body
// ---------------------------------------------------------------------------

/// `document.documentElement`: the first element child of the document.
pub open spec fn spec_document_element(tree: &DomTree) -> Option<NodeId> {
    let c = tree.children_of(0).filter(tree.element_pred());
    if c.len() > 0 {
        Some(c[0])
    } else {
        None
    }
}

/// `document.documentElement`.
pub fn document_element(tree: &DomTree) -> (r: Option<NodeId>)
    requires
        tree.wf(),
    ensures
        r == spec_document_element(tree),
        r matches Some(e) ==> tree.is_element(e),
{
    let c = tree.element_children(0);
    proof {
        lemma_filter_first(tree.children_of(0), tree.element_pred());
    }
    if c.len() > 0 {
        Some(c[0])
    } else {
        None
    }
}

/// Predicate: the node is an element whose tag name is `tag` in any ASCII case.
pub open spec fn tag_ic_pred(tree: &DomTree, tag: Seq<char>) -> spec_fn(NodeId) -> bool {
    |m: NodeId| tree.is_element(m) && crate::text::eq_ic(tree.tag(m), tag)
}

/// The first child element of `p` whose tag name is `tag` in any ASCII case.
pub open spec fn child_by_tag(tree: &DomTree, p: NodeId, tag: Seq<char>) -> Option<NodeId> {
    let c = tree.children_of(p).filter(tag_ic_pred(tree, tag));
    if c.len() > 0 {
        Some(c[0])
    } else {
        None
    }
}

/// The first child element of `p` named `tag` (ASCII case-insensitively).
pub fn child_element_by_tag(tree: &DomTree, p: NodeId, tag: &str) -> (r: Option<NodeId>)
    requires
        tree.wf(),
        tree.valid(p),
    ensures
        r == child_by_tag(tree, p, tag@),
        r matches Some(e) ==> tree.is_element(e),
{
    let children = &tree.get_node(p).children;
    proof {
        tree.lemma_children_valid(p);
        lemma_filter_first(tree.children_of(p), tag_ic_pred(tree, tag@));
        crate::text::lemma_first_index(tree.children_of(p), tag_ic_pred(tree, tag@));
    }
    let mut i: usize = 0;
    while i < children.len()
        invariant
            children@ == tree.children_of(p),
            forall|k: int| 0 <= k < children.len() ==> tree.valid(#[trigger] children@[k]),
            i <= children.len(),
            forall|k: int| 0 <= k < i ==> !tag_ic_pred(tree, tag@)(#[trigger] children@[k]),
        decreases children.len() - i,
    {
        let c = children[i];
        match tree.tag_name(c) {
            Some(t) => {
                if crate::text::eq_ignore_ascii_case(t.as_str(), tag) {
                    proof {
                        lemma_first_index_is(children@, tag_ic_pred(tree, tag@), i as int);
                        lemma_filter_first(tree.children_of(p), tag_ic_pred(tree, tag@));
                    }
                    return Some(c);
                }
            },
            None => {},
        }
        i = i + 1;
    }
    proof {
        lemma_first_index_none(children@, tag_ic_pred(tree, tag@));
    }
    None
}

/// `document.head`: the first `head` child of the document element.
pub open spec fn spec_head(tree: &DomTree) -> Option<NodeId> {
    match spec_document_element(tree) {
        Some(h) => child_by_tag(tree, h, "head"@),
        None => None,
    }
}

/// `document.body`: the first `body` child of the document element.
pub open spec fn spec_body(tree: &DomTree) -> Option<NodeId> {
    match spec_document_element(tree) {
        Some(h) => child_by_tag(tree, h, "body"@),
        None => None,
    }
}

/// `document.head`.
pub fn document_head(tree: &DomTree) -> (r: Option<NodeId>)
    requires
        tree.wf(),
    ensures
        r == spec_head(tree),
        r matches Some(e) ==> tree.is_element(e),
{
    match document_element(tree) {
        Some(h) => child_element_by_tag(tree, h, "head"),
        None => None,
    }
}

/// `document.body`.
pub fn document_body(tree: &DomTree) -> (r: Option<NodeId>)
    requires
        tree.wf(),
    ensures
        r == spec_body(tree),
        r matches Some(e) ==> tree.is_element(e),
{
    match document_element(tree) {
        Some(h) => child_element_by_tag(tree, h, "body"),
        None => None,
    }
}

// ---------------------------------------------------------------------------
// title
// ---------------------------------------------------------------------------

/// The node is a text or CDATA section node (the nodes whose data makes up
/// text content).
pub open spec fn is_text_like(tree: &DomTree, m: NodeId) -> bool {
    tree.valid(m) && (tree.node(m).data is Text || tree.node(m).data is CDATASection)
}

/// The data of the text nodes among `list`, concatenated in order.
pub open spec fn text_of(tree: &DomTree, list: Seq<NodeId>) -> Seq<char>
    decreases list.len(),
{
    if list.len() == 0 {
        Seq::empty()
    } else {
        text_of(tree, list.drop_last()) + if is_text_like(tree, list.last()) {
            tree.char_data(list.last())
        } else {
            Seq::empty()
        }
    }
}

/// `textContent` of an element: the data of its text descendants in tree order.
pub open spec fn text_content(tree: &DomTree, n: NodeId) -> Seq<char> {
    text_of(tree, tree.descendants(n))
}

/// The text content of node `n`.
pub fn get_text_content(tree: &DomTree, n: NodeId) -> (r: String)
    requires
        tree.wf(),
        tree.valid(n),
    ensures
        r@ == text_content(tree, n),
{
    let d = tree.collect_descendants(n);
    let mut out: Vec<char> = Vec::new();
    let mut i: usize = 0;
    while i < d.len()
        invariant
            d@ == tree.descendants(n),
            forall|k: int| 0 <= k < d.len() ==> tree.valid(#[trigger] d@[k]),
            i <= d.len(),
            out@ == text_of(tree, d@.take(i as int)),
        decreases d.len() - i,
    {
        assert(d@.take(i as int + 1).drop_last() =~= d@.take(i as int));
        let m = d[i];
        match &tree.get_node(m).data {
            NodeData::Text { content } => {
                let c = chars_of(content.as_str());
                extend_chars(&mut out, &c);
            },
            NodeData::CDATASection { content } => {
                let c = chars_of(content.as_str());
                extend_chars(&mut out, &c);
            },
            _ => {
                assert(out@ =~= out@ + Seq::<char>::empty());
            },
        }
        i = i + 1;
    }
    assert(d@.take(d.len() as int) =~= d@);
    string_of(&out)
}

/// The first element of the document, in tree order, with tag name `tag`.
pub open spec fn first_by_tag(tree: &DomTree, tag: Seq<char>) -> Option<NodeId> {
    let i = first_index(tree.descendants(0), tag_match_pred(tree, tag));
    if i < 0 {
        None
    } else {
        Some(tree.descendants(0)[i])
    }
}

/// The first element of the document with tag name `tag`.
pub fn first_element_by_tag(tree: &DomTree, tag: &str) -> (r: Option<NodeId>)
    requires
        tree.wf(),
    ensures
        r == first_by_tag(tree, tag@),
        r matches Some(t) ==> tree.is_element(t),
{
    let all = crate::collections::collect_descendants_by_tag(tree, 0, tag);
    let ghost d = tree.descendants(0);
    let ghost p = tag_match_pred(tree, tag@);
    proof {
        crate::text::lemma_first_index(d, p);
        lemma_filter_first(d, p);
    }
    if all.len() > 0 {
        Some(all[0])
    } else {
        None
    }
}

/// The first element of `s.filter(p)` is the element at the first index of `p`.
proof fn lemma_filter_first(s: Seq<NodeId>, p: spec_fn(NodeId) -> bool)
    ensures
        first_index(s, p) >= 0 ==> s.filter(p).len() > 0 && s.filter(p)[0] == s[first_index(s, p)],
        first_index(s, p) < 0 ==> s.filter(p).len() == 0,
        forall|k: int| 0 <= k < s.filter(p).len() ==> p(#[trigger] s.filter(p)[k]),
    decreases s.len(),
{
    reveal_with_fuel(Seq::filter, 1);
    broadcast use vstd::seq_lib::group_filter_ensures;
    if s.len() > 0 {
        let t = s.drop_last();
        lemma_filter_first(t, p);
        crate::text::lemma_first_index(s, p);
        crate::text::lemma_first_index(t, p);
        if first_index(t, p) >= 0 {
            assert(s[first_index(t, p)] == t[first_index(t, p)]);
            assert forall|j: int| 0 <= j < first_index(t, p) implies !p(#[trigger] s[j]) by {
                assert(s[j] == t[j]);
            }
            lemma_first_index_is(s, p, first_index(t, p));
        } else if p(s.last()) {
            assert forall|j: int| 0 <= j < s.len() - 1 implies !p(#[trigger] s[j]) by {
                assert(s[j] == t[j]);
            }
            lemma_first_index_is(s, p, s.len() - 1);
        } else {
            assert forall|j: int| 0 <= j < s.len() implies !p(#[trigger] s[j]) by {
                if j < s.len() - 1 {
                    assert(s[j] == t[j]);
                }
            }
            lemma_first_index_none(s, p);
        }
    }
}

/// `document.title`: the text content of the first `title` element, or the
/// empty string.
pub fn document_title(tree: &DomTree) -> (r: String)
    requires
        tree.wf(),
    ensures
        r@ == match first_by_tag(tree, "title"@) {
            Some(t) => text_content(tree, t),
            None => Seq::empty(),
        },
{
    match first_element_by_tag(tree, "title") {
        Some(t) => get_text_content(tree, t),
        None => String::new(),
    }
}

/// `node.textContent = text` on an element: its children are removed and,
/// for non-empty text, one new text node holding `text` becomes its only child.
pub fn set_text_content(tree: &mut DomTree, n: NodeId, text: &str)
    requires
        old(tree).wf(),
        old(tree).valid(n),
        n != 0,
    ensures
        final(tree).wf(),
        final(tree).html_document == old(tree).html_document,
        final(tree).nodes.len() == old(tree).nodes.len() + if text@.len() > 0 {
            1int
        } else {
            0int
        },
        final(tree).node(n).data == old(tree).node(n).data,
        !old(tree).children_of(n).contains(n) ==> final(tree).parent_of(n) == old(tree).parent_of(n),
        forall|m: int|
            0 <= m < old(tree).nodes.len() && m != n && !old(tree).children_of(n).contains(m as NodeId)
                ==> #[trigger] final(tree).nodes@[m] == old(tree).nodes@[m],
        forall|k: int|
            0 <= k < old(tree).children_of(n).len() ==> final(tree).parent_of(
                #[trigger] old(tree).children_of(n)[k],
            ) is None,
        text@.len() == 0 ==> final(tree).children_of(n).len() == 0,
        text@.len() > 0 ==> {
            let c = final(tree).children_of(n);
            &&& c.len() == 1
            &&& c[0] == old(tree).nodes.len()
            &&& final(tree).node(c[0]).data matches NodeData::Text { content } && content@ == text@
            &&& final(tree).children_of(c[0]).len() == 0
        },
{
    tree.remove_all_children(n);
    if !text.is_empty() {
        let t = tree.create_text(text);
        tree.append_child(n, t);
    }
}

/// `document.title = text`: sets the text of the first `title` element; when
/// there is none, a new `title` element with that text is appended to
/// `document.head`, or else to the document.
pub fn document_set_title(tree: &mut DomTree, text: &str)
    requires
        old(tree).wf(),
    ensures
        final(tree).wf(),
        first_by_tag(old(tree), "title"@) matches Some(t) ==> {
            &&& forall|m: int|
                0 <= m < old(tree).nodes.len() && m != t && !old(tree).children_of(t).contains(m as NodeId)
                    ==> #[trigger] final(tree).nodes@[m] == old(tree).nodes@[m]
            &&& final(tree).node(t).data == old(tree).node(t).data
            &&& final(tree).children_of(t).len() == if text@.len() > 0 {
                1int
            } else {
                0int
            }
            &&& text@.len() > 0 ==> (final(tree).node(final(tree).children_of(t)[0]).data matches NodeData::Text {
                content,
            } && content@ == text@)
        },
        first_by_tag(old(tree), "title"@) is None ==> {
            let id = old(tree).nodes.len() as NodeId;
            let host = match spec_head(old(tree)) {
                Some(h) => h,
                None => 0,
            };
            &&& forall|m: int|
                0 <= m < old(tree).nodes.len() && m != host ==> #[trigger] final(tree).nodes@[m] == old(
                    tree,
                ).nodes@[m]
            &&& final(tree).is_element(id)
            &&& final(tree).tag(id) == "title"@
            &&& final(tree).parent_of(id) == Some(host)
            &&& final(tree).children_of(host) == old(tree).children_of(host).push(id)
            &&& final(tree).children_of(id).len() == if text@.len() > 0 {
                1int
            } else {
                0int
            }
            &&& text@.len() > 0 ==> (final(tree).node(final(tree).children_of(id)[0]).data matches NodeData::Text {
                content,
            } && content@ == text@)
        },
{
    let head = document_head(tree);
    match first_element_by_tag(tree, "title") {
        Some(t) => {
            proof {
                crate::text::lemma_first_index(tree.descendants(0), tag_match_pred(&*tree, "title"@));
            }
            assert(t != 0);
            set_text_content(tree, t, text);
        },
        None => {
            let ghost t0 = *tree;
            let title = tree.create_element("title");
            let ghost t1 = *tree;
            assert(title != 0);
            set_text_content(tree, title, text);
            assert(tree.parent_of(title) is None) by {
                assert(t1.children_of(title).len() == 0);
            }
            let host = match head {
                Some(h) => h,
                None => 0,
            };
            assert(host < t0.nodes.len());
            assert(tree.nodes@[host as int] == t0.nodes@[host as int]) by {
                assert(t1.nodes@[host as int] == t0.nodes@[host as int]);
                assert(!t1.children_of(title).contains(host));
            }
            tree.append_child(host, title);
        },
    }
}

// ---------------------------------------------------------------------------
// Laws
// ---------------------------------------------------------------------------

/// Reading `textContent` after `textContent = text` gives `text`: the element
/// then holds exactly one text child with that data (none for empty text).
pub proof fn lemma_text_content_after_set(tree: &DomTree, n: NodeId, text: Seq<char>)
    requires
        tree.nodes.len() > 0,
        text.len() == 0 ==> tree.children_of(n).len() == 0,
        text.len() > 0 ==> {
            let c = tree.children_of(n);
            &&& c.len() == 1
            &&& tree.valid(c[0])
            &&& tree.node(c[0]).data matches NodeData::Text { content } && content@ == text
            &&& tree.children_of(c[0]).len() == 0
        },
    ensures
        text_content(tree, n) == text,
{
    let fuel = tree.nodes.len() as nat;
    let list = tree.children_of(n);
    if text.len() == 0 {
        assert(tree.descendants(n) == Seq::<NodeId>::empty());
        assert(text_of(tree, Seq::<NodeId>::empty()) == Seq::<char>::empty());
        assert(text =~= Seq::<char>::empty());
    } else {
        let c = list[0];
        assert(list.drop_last() =~= Seq::<NodeId>::empty());
        assert(tree.forest(list.drop_last(), fuel, None) == Seq::<NodeId>::empty());
        assert(tree.forest(tree.children_of(c), (fuel - 1) as nat, None) == Seq::<NodeId>::empty());
        assert(tree.descendants(n) =~= seq![c]);
        assert(seq![c].drop_last() =~= Seq::<NodeId>::empty());
        assert(is_text_like(tree, c));
        assert(tree.char_data(c) == text);
        assert(text_of(tree, Seq::<NodeId>::empty()) == Seq::<char>::empty());
        assert(text_of(tree, seq![c]) =~= text);
    }
}

} // verus!
