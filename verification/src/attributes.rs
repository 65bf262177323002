//! The attribute methods and properties of elements: `getAttribute`,
//! `setAttribute`, `toggleAttribute`, the namespaced variants, attribute nodes,
//! `id` and `className`.
use vstd::prelude::*;
use crate::dom::{
    at_most_one, lemma_absent_after_remove, lemma_get_after_set, lemma_get_after_set_ns,
    lemma_set_keeps_other, qname_is, attrs_remove, attrs_remove_ns, attrs_set, attrs_set_ns, name_or_local_is, ns_local_is,
    qname_or_local_is,
    value_where, AttrKey, AttrView, DomAttribute, DomTree, NodeId,
};
use crate::error::DomError;
use crate::names::{
    is_valid_attribute_name, set_attribute_ns_error, spec_valid_attribute_name, split_qname,
    validate_attribute_ns,
};
use crate::text::{
    ascii_lower, chars_of, first_index, lemma_first_index_is, lemma_first_index_none, owned,
    starts_with, string_of_range, to_ascii_lowercase,
};

verus! {

// ---------------------------------------------------------------------------
// Specifications
// ---------------------------------------------------------------------------

/// Attribute names are ASCII-lowercased for elements of HTML documents.
pub open spec fn normalized_name(tree: &DomTree, name: Seq<char>) -> Seq<char> {
    if tree.html_document {
        ascii_lower(name)
    } else {
        name
    }
}

/// The event type of an inline handler attribute (`onclick` → `click`): the name
/// after `on`, for names longer than two characters that start with `on`.
pub open spec fn handler_event(name: Seq<char>) -> Option<Seq<char>> {
    if name.len() > 2 && name.take(2) == "on"@ {
        Some(name.skip(2))
    } else {
        None
    }
}

/// What an attribute write reports to its caller: the name actually written
/// and, for an inline event handler attribute, its event type.
pub struct AttrWrite {
    pub name: String,
    pub handler_event: Option<String>,
}

/// The qualified names of an element's attributes, in order.
pub open spec fn attr_names(attrs: Seq<AttrView>) -> Seq<Seq<char>> {
    attrs.map_values(|a: AttrView| a.qname())
}

/// `toggleAttribute(name, force)` on a tree: the result and the new attribute list.
pub open spec fn toggle_outcome(present: bool, force: Option<bool>) -> (bool, int) {
    // (result, action): action 0 = keep, 1 = remove, 2 = add
    if present {
        match force {
            Some(true) => (true, 0),
            _ => (false, 1),
        }
    } else {
        match force {
            Some(false) => (false, 0),
            _ => (true, 2),
        }
    }
}

/// The tree change `toggleAttribute` makes for the normalized name `n`.
pub open spec fn toggled(t0: &DomTree, t1: &DomTree, el: NodeId, n: Seq<char>, force: Option<bool>) -> bool {
    let action = toggle_outcome(t0.has_attr(el, n), force).1;
    &&& action == 0 ==> *t1 == *t0
    &&& action == 1 ==> t0.updated_attrs(t1, el, attrs_remove(t0.attrs(el), n))
    &&& action == 2 ==> t0.updated_attrs(t1, el, attrs_set(t0.attrs(el), n, Seq::empty()))
}

// ---------------------------------------------------------------------------
// Helpers
// ---------------------------------------------------------------------------

/// ASCII-lowercase `name` in HTML documents.
pub fn normalize_name(tree: &DomTree, name: &str) -> (r: String)
    ensures
        r@ == normalized_name(tree, name@),
{
    if tree.is_html_document() {
        to_ascii_lowercase(name)
    } else {
        owned(name)
    }
}

/// The event type of an inline handler attribute name.
pub fn inline_handler_event(name: &str) -> (r: Option<String>)
    ensures
        r.deep_view() == handler_event(name@),
{
    let v = chars_of(name);
    if v.len() > 2 && starts_with(name, "on") {
        proof {
            reveal_strlit("on");
        }
        assert(name@.take(2) =~= name@.subrange(0, 2));
        let rest = string_of_range(&v, 2, v.len());
        assert(v@.subrange(2, v@.len() as int) =~= name@.skip(2));
        Some(rest)
    } else {
        proof {
            reveal_strlit("on");
            if name@.len() > 2 {
                assert(name@.take(2) =~= name@.subrange(0, 2));
            }
        }
        None
    }
}

// ---------------------------------------------------------------------------
// Attribute methods
// ---------------------------------------------------------------------------

/// `element.getAttribute(name)`: per spec the name is lowercased for HTML documents.
pub fn get_attribute_fn(tree: &DomTree, el: NodeId, name: &str) -> (r: Option<String>)
    requires
        tree.valid(el),
    ensures
        r.deep_view() == tree.get_attr(el, normalized_name(tree, name@)),
{
    let name = normalize_name(tree, name);
    tree.get_attribute(el, name.as_str())
}

/// `element.setAttribute(name, value)`: an invalid name raises
/// `InvalidCharacterError`; otherwise the (normalized) attribute is set.
pub fn set_attribute_fn(tree: &mut DomTree, el: NodeId, name: &str, value: &str) -> (r: Result<
    AttrWrite,
    DomError,
>)
    requires
        old(tree).wf(),
        old(tree).valid(el),
    ensures
        final(tree).wf(),
        !spec_valid_attribute_name(name@) ==> r == Err::<AttrWrite, DomError>(
            DomError::InvalidCharacterError,
        ) && *final(tree) == *old(tree),
        spec_valid_attribute_name(name@) ==> {
            let n = normalized_name(old(tree), name@);
            &&& r matches Ok(w) && w.name@ == n && w.handler_event.deep_view() == handler_event(n)
            &&& old(tree).updated_attrs(final(tree), el, attrs_set(old(tree).attrs(el), n, value@))
        },
{
    if !is_valid_attribute_name(name) {
        return Err(DomError::InvalidCharacterError);
    }
    let name = normalize_name(tree, name);
    tree.set_attribute(el, name.as_str(), value);
    let handler_event = inline_handler_event(name.as_str());
    Ok(AttrWrite { name, handler_event })
}

/// `element.removeAttribute(name)`.
pub fn remove_attribute_fn(tree: &mut DomTree, el: NodeId, name: &str) -> (r: AttrWrite)
    requires
        old(tree).wf(),
        old(tree).valid(el),
    ensures
        final(tree).wf(),
        r.name@ == normalized_name(old(tree), name@),
        r.handler_event.deep_view() == handler_event(r.name@),
        old(tree).updated_attrs(final(tree), el, attrs_remove(old(tree).attrs(el), r.name@)),
{
    let name = normalize_name(tree, name);
    tree.remove_attribute(el, name.as_str());
    let handler_event = inline_handler_event(name.as_str());
    AttrWrite { name, handler_event }
}

/// `element.hasAttribute(name)`.
pub fn has_attribute_fn(tree: &DomTree, el: NodeId, name: &str) -> (r: bool)
    requires
        tree.valid(el),
    ensures
        r == tree.has_attr(el, normalized_name(tree, name@)),
{
    let name = normalize_name(tree, name);
    tree.has_attribute(el, name.as_str())
}

/// `element.hasAttributes()`.
pub fn has_attributes_fn(tree: &DomTree, el: NodeId) -> (r: bool)
    requires
        tree.valid(el),
    ensures
        r == (tree.attrs(el).len() > 0),
{
    tree.has_attributes(el)
}

/// `element.toggleAttribute(name, force)`: an invalid name raises
/// `InvalidCharacterError`. A present attribute is kept when `force` is true and
/// removed otherwise; a missing one is added (empty value) unless `force` is
/// false. Returns whether the attribute is present afterwards.
pub fn toggle_attribute_fn(tree: &mut DomTree, el: NodeId, name: &str, force: Option<bool>) -> (r:
    Result<bool, DomError>)
    requires
        old(tree).wf(),
        old(tree).valid(el),
    ensures
        final(tree).wf(),
        !spec_valid_attribute_name(name@) ==> r == Err::<bool, DomError>(
            DomError::InvalidCharacterError,
        ) && *final(tree) == *old(tree),
        spec_valid_attribute_name(name@) ==> {
            let n = normalized_name(old(tree), name@);
            &&& r == Ok::<bool, DomError>(toggle_outcome(old(tree).has_attr(el, n), force).0)
            &&& toggled(old(tree), final(tree), el, n, force)
        },
{
    if !is_valid_attribute_name(name) {
        return Err(DomError::InvalidCharacterError);
    }
    let name = normalize_name(tree, name);
    let has_attr = tree.has_attribute(el, name.as_str());
    let has_force = force.is_some();
    let force_value = match force {
        Some(b) => b,
        None => false,
    };
    if has_attr {
        if has_force && force_value {
            Ok(true)
        } else {
            tree.remove_attribute(el, name.as_str());
            Ok(false)
        }
    } else if !has_force || force_value {
        tree.set_attribute(el, name.as_str(), "");
        proof {
            reveal_strlit("");
            assert(""@ =~= Seq::<char>::empty());
        }
        Ok(true)
    } else {
        Ok(false)
    }
}

/// `element.getAttributeNames()`: qualified names in order.
pub fn get_attribute_names_fn(tree: &DomTree, el: NodeId) -> (r: Vec<String>)
    requires
        tree.valid(el),
    ensures
        r.deep_view() == attr_names(tree.attrs(el)),
{
    let attrs = tree.attributes(el);
    let ghost av = tree.attrs(el);
    let mut names: Vec<String> = Vec::new();
    let mut i: usize = 0;
    while i < attrs.len()
        invariant
            av == tree.attrs(el),
            attrs@.map_values(|a: DomAttribute| a@) == av,
            i <= attrs.len(),
            names.deep_view() == attr_names(av.take(i as int)),
        decreases attrs.len() - i,
    {
        assert(av[i as int] == attrs@[i as int]@);
        let q = attrs[i].qualified_name();
        names.push(q);
        proof {
            let prev = av.take(i as int);
            let next = av.take(i as int + 1);
            assert(next =~= prev.push(av[i as int]));
            assert(attr_names(next) =~= attr_names(prev).push(av[i as int].qname()));
        }
        i = i + 1;
        assert(names.deep_view() =~= attr_names(av.take(i as int)));
    }
    assert(av.take(attrs.len() as int) =~= av);
    names
}

/// Copy of the first attribute satisfying `key`.
fn find_attribute_by(tree: &DomTree, el: NodeId, key: &AttrKey) -> (r: Option<DomAttribute>)
    requires
        tree.valid(el),
    ensures
        match r {
            Some(a) => first_index(tree.attrs(el), key.pred()) >= 0 && a@ == tree.attrs(el)[first_index(
                tree.attrs(el),
                key.pred(),
            )],
            None => first_index(tree.attrs(el), key.pred()) == -1,
        },
{
    let attrs = tree.attributes(el);
    let ghost av = tree.attrs(el);
    let mut i: usize = 0;
    while i < attrs.len()
        invariant
            av == tree.attrs(el),
            attrs@.map_values(|a: DomAttribute| a@) == av,
            i <= attrs.len(),
            forall|j: int| 0 <= j < i ==> !key.pred()(#[trigger] av[j]),
        decreases attrs.len() - i,
    {
        assert(av[i as int] == attrs@[i as int]@);
        if key.test(&attrs[i]) {
            assert(key.pred()(av[i as int]));
            proof {
                lemma_first_index_is(av, key.pred(), i as int);
            }
            return Some(attrs[i].duplicate());
        }
        i = i + 1;
    }
    proof {
        lemma_first_index_none(av, key.pred());
    }
    None
}

/// The attribute `getAttributeNode(name)` returns: the first whose qualified
/// name or local name is `name`.
pub fn get_attribute_node_fn(tree: &DomTree, el: NodeId, name: &str) -> (r: Option<DomAttribute>)
    requires
        tree.valid(el),
    ensures
        match r {
            Some(a) => first_index(tree.attrs(el), qname_or_local_is(name@)) >= 0 && a@
                == tree.attrs(el)[first_index(tree.attrs(el), qname_or_local_is(name@))],
            None => first_index(tree.attrs(el), qname_or_local_is(name@)) == -1,
        },
{
    find_attribute_by(tree, el, &AttrKey::QualifiedOrLocalName(owned(name)))
}

/// The attribute `getAttributeNodeNS(namespace, localName)` returns.
pub fn get_attribute_node_ns_fn(tree: &DomTree, el: NodeId, namespace: &str, local_name: &str) -> (r:
    Option<DomAttribute>)
    requires
        tree.valid(el),
    ensures
        match r {
            Some(a) => first_index(tree.attrs(el), ns_local_is(namespace@, local_name@)) >= 0 && a@
                == tree.attrs(el)[first_index(tree.attrs(el), ns_local_is(namespace@, local_name@))],
            None => first_index(tree.attrs(el), ns_local_is(namespace@, local_name@)) == -1,
        },
{
    find_attribute_by(tree, el, &AttrKey::Namespaced(owned(namespace), owned(local_name)))
}

/// `element.setAttributeNS(namespace, qualifiedName, value)` (empty namespace for
/// null): validate the name and namespace, then set the attribute with the
/// prefix and local name of the qualified name.
pub fn set_attribute_ns_fn(tree: &mut DomTree, el: NodeId, namespace: &str, qualified_name: &str, value: &str) -> (r:
    Result<(), DomError>)
    requires
        old(tree).wf(),
        old(tree).valid(el),
    ensures
        final(tree).wf(),
        match set_attribute_ns_error(namespace@, qualified_name@) {
            Some(e) => r == Err::<(), DomError>(e) && *final(tree) == *old(tree),
            None => r is Ok && old(tree).updated_attrs(
                final(tree),
                el,
                attrs_set_ns(
                    old(tree).attrs(el),
                    namespace@,
                    split_qname(qualified_name@).0,
                    split_qname(qualified_name@).1,
                    value@,
                ),
            ),
        },
{
    match validate_attribute_ns(namespace, qualified_name) {
        Err(e) => Err(e),
        Ok((prefix, local)) => {
            tree.set_attribute_ns(el, namespace, prefix.as_str(), local.as_str(), value);
            Ok(())
        },
    }
}

/// `element.getAttributeNS(namespace, localName)`.
pub fn get_attribute_ns_fn(tree: &DomTree, el: NodeId, namespace: &str, local_name: &str) -> (r:
    Option<String>)
    requires
        tree.valid(el),
    ensures
        r.deep_view() == value_where(tree.attrs(el), ns_local_is(namespace@, local_name@)),
{
    tree.get_attribute_ns(el, namespace, local_name)
}

/// `element.removeAttributeNS(namespace, localName)`.
pub fn remove_attribute_ns_fn(tree: &mut DomTree, el: NodeId, namespace: &str, local_name: &str)
    requires
        old(tree).wf(),
        old(tree).valid(el),
    ensures
        final(tree).wf(),
        old(tree).updated_attrs(
            final(tree),
            el,
            attrs_remove_ns(old(tree).attrs(el), namespace@, local_name@),
        ),
{
    tree.remove_attribute_ns(el, namespace, local_name)
}

/// `element.hasAttributeNS(namespace, localName)`.
pub fn has_attribute_ns_fn(tree: &DomTree, el: NodeId, namespace: &str, local_name: &str) -> (r:
    bool)
    requires
        tree.valid(el),
    ensures
        r == (value_where(tree.attrs(el), ns_local_is(namespace@, local_name@)) is Some),
{
    tree.has_attribute_ns(el, namespace, local_name)
}

/// The attribute an attribute node replaces: matched by namespace and local name
/// when it has a namespace, else by qualified or local name.
pub open spec fn node_match(ns: Seq<char>, name: Seq<char>, local: Seq<char>) -> spec_fn(AttrView) -> bool {
    if ns.len() > 0 {
        ns_local_is(ns, local)
    } else {
        qname_or_local_is(name)
    }
}

/// An attribute node owned by another element is in use: setting it on `el`
/// raises `InUseAttributeError`. `owner` is the element that owns the node, if
/// any.
pub open spec fn owner_error(owner: Option<NodeId>, el: NodeId) -> Option<DomError> {
    match owner {
        Some(o) => if o != el {
            Some(DomError::InUseAttributeError)
        } else {
            None
        },
        None => None,
    }
}

/// The `InUseAttributeError` check of `setAttributeNode` and `setNamedItem`.
pub fn check_attr_owner(owner: Option<NodeId>, el: NodeId) -> (r: Result<(), DomError>)
    ensures
        match owner_error(owner, el) {
            Some(e) => r == Err::<(), DomError>(e),
            None => r is Ok,
        },
{
    match owner {
        Some(o) => if o != el {
            Err(DomError::InUseAttributeError)
        } else {
            Ok(())
        },
        None => Ok(()),
    }
}

/// `element.setAttributeNode(attr)` / `setAttributeNodeNS(attr)` (and
/// `NamedNodeMap.setNamedItem`) for an attribute node owned by `owner`, with
/// name `name`, namespace `namespace` (empty for null), local name `local_name`
/// and value `value`: a node owned by another element raises
/// `InUseAttributeError`; otherwise returns a copy of the attribute it replaces,
/// then sets the attribute (namespaced when it has a namespace).
pub fn set_attribute_node_fn(
    tree: &mut DomTree,
    el: NodeId,
    owner: Option<NodeId>,
    name: &str,
    namespace: &str,
    local_name: &str,
    value: &str,
) -> (r: Result<Option<DomAttribute>, DomError>)
    requires
        old(tree).wf(),
        old(tree).valid(el),
    ensures
        final(tree).wf(),
        owner_error(owner, el) is Some ==> r == Err::<Option<DomAttribute>, DomError>(
            owner_error(owner, el)->0,
        ) && *final(tree) == *old(tree),
        owner_error(owner, el) is None ==> {
            &&& r matches Ok(old_attr) && match old_attr {
                Some(a) => first_index(old(tree).attrs(el), node_match(namespace@, name@, local_name@))
                    >= 0 && a@ == old(tree).attrs(el)[first_index(
                    old(tree).attrs(el),
                    node_match(namespace@, name@, local_name@),
                )],
                None => first_index(old(tree).attrs(el), node_match(namespace@, name@, local_name@)) == -1,
            }
            &&& namespace@.len() > 0 ==> old(tree).updated_attrs(
                final(tree),
                el,
                attrs_set_ns(old(tree).attrs(el), namespace@, split_qname(name@).0, split_qname(name@).1, value@),
            )
            &&& namespace@.len() == 0 ==> old(tree).updated_attrs(
                final(tree),
                el,
                attrs_set(old(tree).attrs(el), name@, value@),
            )
        },
{
    match check_attr_owner(owner, el) {
        Err(e) => {
            return Err(e);
        },
        Ok(()) => {},
    }
    let old_attr = if !namespace.is_empty() {
        get_attribute_node_ns_fn(tree, el, namespace, local_name)
    } else {
        get_attribute_node_fn(tree, el, name)
    };
    if !namespace.is_empty() {
        let (prefix, local) = crate::names::split_qualified_name(name);
        tree.set_attribute_ns(el, namespace, prefix.as_str(), local.as_str(), value);
    } else {
        tree.set_attribute(el, name, value);
    }
    Ok(old_attr)
}

/// `element.removeAttributeNode(attr)` for an attribute node with namespace
/// `namespace` (empty for null), local name `local_name` and name `name`: the
/// matching attribute (by namespace and local name, or else by qualified name
/// `name` or local name `local_name`) is removed and its qualified name
/// returned; without one, `NotFoundError`.
pub fn remove_attribute_node_fn(
    tree: &mut DomTree,
    el: NodeId,
    namespace: &str,
    local_name: &str,
    name: &str,
) -> (r: Result<String, DomError>)
    requires
        old(tree).wf(),
        old(tree).valid(el),
    ensures
        final(tree).wf(),
        ({
            let p = if namespace@.len() > 0 {
                ns_local_is(namespace@, local_name@)
            } else {
                name_or_local_is(name@, local_name@)
            };
            let i = first_index(old(tree).attrs(el), p);
            if i < 0 {
                r == Err::<String, DomError>(DomError::NotFoundError) && *final(tree) == *old(tree)
            } else {
                &&& r matches Ok(q) && q@ == old(tree).attrs(el)[i].qname()
                &&& namespace@.len() > 0 ==> old(tree).updated_attrs(
                    final(tree),
                    el,
                    attrs_remove_ns(old(tree).attrs(el), namespace@, local_name@),
                )
                &&& namespace@.len() == 0 ==> old(tree).updated_attrs(
                    final(tree),
                    el,
                    attrs_remove(old(tree).attrs(el), name@),
                )
            }
        }),
{
    let found = if !namespace.is_empty() {
        find_attribute_by(tree, el, &AttrKey::Namespaced(owned(namespace), owned(local_name)))
    } else {
        find_attribute_by(tree, el, &AttrKey::NameOrLocal(owned(name), owned(local_name)))
    };
    let qname = match found {
        Some(a) => a.qualified_name(),
        None => {
            return Err(DomError::NotFoundError);
        },
    };
    if !namespace.is_empty() {
        tree.remove_attribute_ns(el, namespace, local_name);
    } else {
        tree.remove_attribute(el, name);
    }
    Ok(qname)
}

// ---------------------------------------------------------------------------
// Laws
// ---------------------------------------------------------------------------

/// `setAttribute(name, value)` followed by `getAttribute(name)` gives `value`,
/// and every other attribute reads as before.
pub proof fn lemma_set_then_get(t0: &DomTree, t1: &DomTree, el: NodeId, name: Seq<char>, value: Seq<char>, other: Seq<char>)
    requires
        t0.is_element(el),
        t0.updated_attrs(t1, el, attrs_set(t0.attrs(el), normalized_name(t0, name), value)),
    ensures
        t1.get_attr(el, normalized_name(t1, name)) == Some(value),
        normalized_name(t0, other) != normalized_name(t0, name) ==> t1.get_attr(
            el,
            normalized_name(t1, other),
        ) == t0.get_attr(el, normalized_name(t0, other)),
{
    let n = normalized_name(t0, name);
    lemma_get_after_set(t0.attrs(el), n, value);
    if normalized_name(t0, other) != n {
        lemma_set_keeps_other(t0.attrs(el), n, value, normalized_name(t0, other));
    }
}

/// `removeAttribute(name)` on an element where at most one attribute has that
/// name leaves `hasAttribute(name)` false.
pub proof fn lemma_remove_then_absent(t0: &DomTree, t1: &DomTree, el: NodeId, name: Seq<char>)
    requires
        t0.is_element(el),
        at_most_one(t0.attrs(el), qname_is(normalized_name(t0, name))),
        t0.updated_attrs(t1, el, attrs_remove(t0.attrs(el), normalized_name(t0, name))),
    ensures
        !t1.has_attr(el, normalized_name(t1, name)),
{
    lemma_absent_after_remove(t0.attrs(el), normalized_name(t0, name));
}

/// What `toggleAttribute(name, force)` returns is whether the attribute is
/// present afterwards.
pub proof fn lemma_toggle_result_is_presence(
    t0: &DomTree,
    t1: &DomTree,
    el: NodeId,
    n: Seq<char>,
    force: Option<bool>,
)
    requires
        t0.is_element(el),
        at_most_one(t0.attrs(el), qname_is(n)),
        toggled(t0, t1, el, n, force),
    ensures
        t1.has_attr(el, n) == toggle_outcome(t0.has_attr(el, n), force).0,
{
    let action = toggle_outcome(t0.has_attr(el, n), force).1;
    if action == 1 {
        lemma_absent_after_remove(t0.attrs(el), n);
    } else if action == 2 {
        lemma_get_after_set(t0.attrs(el), n, Seq::empty());
    }
}

/// `toggleAttribute(name, force)` with a force returns the force, and the
/// attribute is present afterwards exactly when the force is true; without a
/// force it flips presence and returns whether the attribute is now present.
pub proof fn lemma_toggle_follows_force(
    t0: &DomTree,
    t1: &DomTree,
    el: NodeId,
    n: Seq<char>,
    force: Option<bool>,
)
    requires
        t0.is_element(el),
        at_most_one(t0.attrs(el), qname_is(n)),
        toggled(t0, t1, el, n, force),
    ensures
        force matches Some(b) ==> toggle_outcome(t0.has_attr(el, n), force).0 == b && t1.has_attr(el, n) == b,
        force is None ==> toggle_outcome(t0.has_attr(el, n), force).0 == !t0.has_attr(el, n)
            && t1.has_attr(el, n) == !t0.has_attr(el, n),
{
    lemma_toggle_result_is_presence(t0, t1, el, n, force);
}

/// `setAttributeNS(ns, qualifiedName, value)` followed by
/// `getAttributeNS(ns, localName)` gives `value`.
pub proof fn lemma_set_ns_then_get_ns(
    t0: &DomTree,
    t1: &DomTree,
    el: NodeId,
    ns: Seq<char>,
    qualified_name: Seq<char>,
    value: Seq<char>,
)
    requires
        t0.is_element(el),
        t0.updated_attrs(
            t1,
            el,
            attrs_set_ns(t0.attrs(el), ns, split_qname(qualified_name).0, split_qname(qualified_name).1, value),
        ),
    ensures
        value_where(t1.attrs(el), ns_local_is(ns, split_qname(qualified_name).1)) == Some(value),
{
    lemma_get_after_set_ns(t0.attrs(el), ns, split_qname(qualified_name).0, split_qname(qualified_name).1, value);
}

// ---------------------------------------------------------------------------
// id and className
// ---------------------------------------------------------------------------

/// `element.id` getter: the `id` attribute, or the empty string.
pub fn get_id(tree: &DomTree, el: NodeId) -> (r: String)
    requires
        tree.valid(el),
    ensures
        r@ == match tree.get_attr(el, "id"@) {
            Some(v) => v,
            None => Seq::empty(),
        },
{
    match tree.get_attribute(el, "id") {
        Some(v) => v,
        None => String::new(),
    }
}

/// `element.id` setter.
pub fn set_id(tree: &mut DomTree, el: NodeId, value: &str)
    requires
        old(tree).wf(),
        old(tree).valid(el),
    ensures
        final(tree).wf(),
        old(tree).updated_attrs(final(tree), el, attrs_set(old(tree).attrs(el), "id"@, value@)),
{
    tree.set_attribute(el, "id", value)
}

/// `element.className` getter: the `class` attribute, or the empty string.
pub fn get_class_name(tree: &DomTree, el: NodeId) -> (r: String)
    requires
        tree.valid(el),
    ensures
        r@ == match tree.get_attr(el, "class"@) {
            Some(v) => v,
            None => Seq::empty(),
        },
{
    match tree.get_attribute(el, "class") {
        Some(v) => v,
        None => String::new(),
    }
}

/// `element.className` setter.
pub fn set_class_name(tree: &mut DomTree, el: NodeId, value: &str)
    requires
        old(tree).wf(),
        old(tree).valid(el),
    ensures
        final(tree).wf(),
        old(tree).updated_attrs(final(tree), el, attrs_set(old(tree).attrs(el), "class"@, value@)),
{
    tree.set_attribute(el, "class", value)
}

} // verus!
