//! `element.attributes`, the `NamedNodeMap` over an element's attribute list:
//! indexed access, length, named properties and removal by name.
//! (`getNamedItem`, `getNamedItemNS` and `setNamedItem` are the attribute-node
//! operations of `attributes`.)
use vstd::prelude::*;
use crate::attributes::attr_names;
use crate::dom::{
    attrs_remove, attrs_remove_ns, ns_local_is, qname_or_local_is, AttrView, DomAttribute, DomTree,
    NodeId,
};
use crate::error::DomError;
use crate::text::{dedup, dedup_strings, first_index, lemma_dedup};

verus! {

/// `attributes.item(index)`: the attribute at `index`; nothing for a negative
/// index or one past the end.
pub open spec fn attr_item_of(attrs: Seq<AttrView>, index: i64) -> Option<AttrView> {
    if 0 <= index < attrs.len() {
        Some(attrs[index as int])
    } else {
        None
    }
}

/// `attributes.item(index)` of element `el`.
pub fn named_node_map_item(tree: &DomTree, el: NodeId, index: i64) -> (r: Option<DomAttribute>)
    requires
        tree.valid(el),
    ensures
        match r {
            Some(a) => attr_item_of(tree.attrs(el), index) == Some(a@),
            None => attr_item_of(tree.attrs(el), index) is None,
        },
{
    let attrs = tree.attributes(el);
    assert(attrs@.len() == tree.attrs(el).len());
    if index < 0 {
        return None;
    }
    let i: u64 = index as u64;
    let len: u64 = attrs.len() as u64;
    if i < len {
        assert(tree.attrs(el)[index as int] == attrs@[index as int]@);
        Some(attrs[i as usize].duplicate())
    } else {
        None
    }
}

/// `attributes.length` of element `el`.
pub fn named_node_map_length(tree: &DomTree, el: NodeId) -> (r: usize)
    requires
        tree.valid(el),
    ensures
        r == tree.attrs(el).len(),
{
    let attrs = tree.attributes(el);
    attrs.len()
}

/// The supported property names of `element.attributes`: the qualified names
/// of the attributes in order, each once.
pub open spec fn named_node_map_keys_of(attrs: Seq<AttrView>) -> Seq<Seq<char>> {
    dedup(attr_names(attrs))
}

/// The supported property names of `element.attributes`.
pub fn named_node_map_keys(tree: &DomTree, el: NodeId) -> (r: Vec<String>)
    requires
        tree.valid(el),
    ensures
        r.deep_view() == named_node_map_keys_of(tree.attrs(el)),
{
    let names = crate::attributes::get_attribute_names_fn(tree, el);
    dedup_strings(names)
}

/// `attributes.removeNamedItem(name)`: the first attribute whose qualified or
/// local name is `name` is reported and the attribute with qualified name
/// `name` removed; without a match, `NotFoundError` and no change.
pub fn remove_named_item(tree: &mut DomTree, el: NodeId, name: &str) -> (r: Result<DomAttribute, DomError>)
    requires
        old(tree).wf(),
        old(tree).valid(el),
    ensures
        final(tree).wf(),
        ({
            let i = first_index(old(tree).attrs(el), qname_or_local_is(name@));
            if i < 0 {
                r == Err::<DomAttribute, DomError>(DomError::NotFoundError) && *final(tree) == *old(tree)
            } else {
                &&& r matches Ok(a) && a@ == old(tree).attrs(el)[i]
                &&& old(tree).updated_attrs(final(tree), el, attrs_remove(old(tree).attrs(el), name@))
            }
        }),
{
    match crate::attributes::get_attribute_node_fn(tree, el, name) {
        Some(a) => {
            tree.remove_attribute(el, name);
            Ok(a)
        },
        None => Err(DomError::NotFoundError),
    }
}

/// `attributes.removeNamedItemNS(namespace, localName)` (empty namespace for
/// null): the attribute with that namespace and local name is removed and
/// reported; without one, `NotFoundError` and no change.
pub fn remove_named_item_ns(tree: &mut DomTree, el: NodeId, namespace: &str, local_name: &str) -> (r:
    Result<DomAttribute, DomError>)
    requires
        old(tree).wf(),
        old(tree).valid(el),
    ensures
        final(tree).wf(),
        ({
            let i = first_index(old(tree).attrs(el), ns_local_is(namespace@, local_name@));
            if i < 0 {
                r == Err::<DomAttribute, DomError>(DomError::NotFoundError) && *final(tree) == *old(tree)
            } else {
                &&& r matches Ok(a) && a@ == old(tree).attrs(el)[i]
                &&& old(tree).updated_attrs(
                    final(tree),
                    el,
                    attrs_remove_ns(old(tree).attrs(el), namespace@, local_name@),
                )
            }
        }),
{
    match crate::attributes::get_attribute_node_ns_fn(tree, el, namespace, local_name) {
        Some(a) => {
            tree.remove_attribute_ns(el, namespace, local_name);
            Ok(a)
        },
        None => Err(DomError::NotFoundError),
    }
}

/// The supported property names of `element.attributes` are distinct, and
/// are exactly the qualified names of its attributes.
pub proof fn lemma_named_node_map_keys(attrs: Seq<AttrView>)
    ensures
        named_node_map_keys_of(attrs).no_duplicates(),
        forall|i: int| 0 <= i < attrs.len() ==> named_node_map_keys_of(attrs).contains(#[trigger] attrs[i].qname()),
        forall|k: Seq<char>|
            named_node_map_keys_of(attrs).contains(k) ==> exists|i: int|
                0 <= i < attrs.len() && #[trigger] attrs[i].qname() == k,
{
    let names = attr_names(attrs);
    lemma_dedup(names);
    assert forall|i: int| 0 <= i < attrs.len() implies named_node_map_keys_of(attrs).contains(
        #[trigger] attrs[i].qname(),
    ) by {
        assert(names[i] == attrs[i].qname());
        assert(names.contains(attrs[i].qname()));
    }
    assert forall|k: Seq<char>| named_node_map_keys_of(attrs).contains(k) implies exists|i: int|
        0 <= i < attrs.len() && #[trigger] attrs[i].qname() == k by {
        assert(names.contains(k));
        let i = choose|i: int| 0 <= i < names.len() && names[i] == k;
        assert(attrs[i].qname() == k);
    }
}

} // verus!
