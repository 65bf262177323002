//! The node lists behind `HTMLCollection` and `NodeList`: which nodes a live
//! collection holds (an element's children, or descendants selected by class
//! names, by tag name, or by namespace and local name), and the `item`,
//! `length`, `namedItem` and named-property operations over such a list.
use vstd::prelude::*;
use crate::dom::{xhtml_namespace, xhtml_ns, DomTree, NodeId};
use crate::names::{split_qname, split_qualified_name};
use crate::text::{
    ascii_lower, contains_string, dedup, dedup_strings, first_index, lemma_dedup,
    lemma_first_index, lemma_first_index_is, lemma_first_index_none, split_tokens, str_eq,
    to_ascii_lowercase, tokens,
};

verus! {

// ---------------------------------------------------------------------------
// item, length, namedItem and named properties over a node list
// ---------------------------------------------------------------------------

/// `item(index)`: the node at `index`; nothing for a negative index or one past
/// the end.
pub open spec fn item_of(list: Seq<NodeId>, index: i64) -> Option<NodeId> {
    if 0 <= index < list.len() {
        Some(list[index as int])
    } else {
        None
    }
}

/// `item(index)` / indexed access of a collection holding `list`.
pub fn collection_item(list: &Vec<NodeId>, index: i64) -> (r: Option<NodeId>)
    ensures
        r == item_of(list@, index),
{
    if index < 0 {
        return None;
    }
    let i: u64 = index as u64;
    let len: u64 = list.len() as u64;
    if i < len {
        Some(list[i as usize])
    } else {
        None
    }
}

/// `length` of a collection holding `list`.
pub fn collection_length(list: &Vec<NodeId>) -> (r: usize)
    ensures
        r == list@.len(),
{
    list.len()
}

pub open spec fn id_name() -> Seq<char> {
    seq!['i', 'd']
}

pub open spec fn name_name() -> Seq<char> {
    seq!['n', 'a', 'm', 'e']
}

/// The node is an element in the XHTML namespace.
pub open spec fn is_xhtml_element(tree: &DomTree, n: NodeId) -> bool {
    tree.is_element(n) && tree.element_ns(n) == xhtml_ns()
}

/// Predicate: the element is named `name` by its `id` attribute or, for an
/// XHTML element, by its `name` attribute.
pub open spec fn named_pred(tree: &DomTree, name: Seq<char>) -> spec_fn(NodeId) -> bool {
    |n: NodeId|
        tree.is_element(n) && (tree.local_attr(n, id_name()) == Some(name) || (is_xhtml_element(
            tree,
            n,
        ) && tree.local_attr(n, name_name()) == Some(name)))
}

/// `namedItem(name)`: the first node of the list named `name`.
pub open spec fn named_item_of(tree: &DomTree, list: Seq<NodeId>, name: Seq<char>) -> Option<NodeId> {
    let i = first_index(list, named_pred(tree, name));
    if i < 0 {
        None
    } else {
        Some(list[i])
    }
}

/// The attribute with local name `local` as a one-element list when present and
/// non-empty, else the empty list.
pub open spec fn nonempty_attr(tree: &DomTree, n: NodeId, local: Seq<char>) -> Seq<Seq<char>> {
    match tree.local_attr(n, local) {
        Some(v) => if v.len() > 0 {
            seq![v]
        } else {
            Seq::empty()
        },
        None => Seq::empty(),
    }
}

/// The names an element contributes to the named properties: its non-empty
/// `id`, then, for an XHTML element, its non-empty `name`. Other nodes
/// contribute none.
pub open spec fn name_candidates(tree: &DomTree, n: NodeId) -> Seq<Seq<char>> {
    if tree.is_element(n) {
        nonempty_attr(tree, n, id_name()) + if is_xhtml_element(tree, n) {
            nonempty_attr(tree, n, name_name())
        } else {
            Seq::empty()
        }
    } else {
        Seq::empty()
    }
}

/// The names of all nodes of the list, in order, with repetitions.
pub open spec fn all_name_candidates(tree: &DomTree, list: Seq<NodeId>) -> Seq<Seq<char>>
    decreases list.len(),
{
    if list.len() == 0 {
        Seq::empty()
    } else {
        all_name_candidates(tree, list.drop_last()) + name_candidates(tree, list.last())
    }
}

/// The supported property names of a collection holding `list`: each name
/// once, at its first occurrence.
pub open spec fn named_keys_of(tree: &DomTree, list: Seq<NodeId>) -> Seq<Seq<char>> {
    dedup(all_name_candidates(tree, list))
}

/// Whether the element is in the XHTML namespace.
fn element_is_xhtml(tree: &DomTree, n: NodeId) -> (r: bool)
    requires
        tree.valid(n),
    ensures
        r == is_xhtml_element(tree, n),
{
    match tree.namespace_of(n) {
        Some(ns) => {
            let x = xhtml_namespace();
            str_eq(ns.as_str(), x.as_str())
        },
        None => false,
    }
}

/// Whether the element is named `name` (see `named_pred`).
fn is_named(tree: &DomTree, n: NodeId, name: &str) -> (r: bool)
    requires
        tree.valid(n),
    ensures
        r == named_pred(tree, name@)(n),
{
    if tree.tag_name(n).is_none() {
        return false;
    }
    proof {
        reveal_strlit("id");
        reveal_strlit("name");
    }
    assert("id"@ =~= id_name());
    assert("name"@ =~= name_name());
    match tree.local_attribute(n, "id") {
        Some(v) => {
            if str_eq(v.as_str(), name) {
                return true;
            }
        },
        None => {},
    }
    if element_is_xhtml(tree, n) {
        match tree.local_attribute(n, "name") {
            Some(v) => str_eq(v.as_str(), name),
            None => false,
        }
    } else {
        false
    }
}

/// `namedItem(name)` of a collection holding `list`.
pub fn collection_named_item(tree: &DomTree, list: &Vec<NodeId>, name: &str) -> (r: Option<NodeId>)
    requires
        forall|k: int| 0 <= k < list.len() ==> tree.valid(#[trigger] list@[k]),
    ensures
        r == named_item_of(tree, list@, name@),
{
    let mut i: usize = 0;
    while i < list.len()
        invariant
            forall|k: int| 0 <= k < list.len() ==> tree.valid(#[trigger] list@[k]),
            i <= list.len(),
            forall|k: int| 0 <= k < i ==> !named_pred(tree, name@)(#[trigger] list@[k]),
        decreases list.len() - i,
    {
        if is_named(tree, list[i], name) {
            proof {
                lemma_first_index_is(list@, named_pred(tree, name@), i as int);
            }
            return Some(list[i]);
        }
        i = i + 1;
    }
    proof {
        lemma_first_index_none(list@, named_pred(tree, name@));
    }
    None
}

/// The names element `n` contributes to the named properties.
fn push_name_candidates(tree: &DomTree, n: NodeId, out: &mut Vec<String>)
    requires
        tree.valid(n),
    ensures
        final(out).deep_view() == old(out).deep_view() + name_candidates(tree, n),
{
    proof {
        reveal_strlit("id");
        reveal_strlit("name");
    }
    assert("id"@ =~= id_name());
    assert("name"@ =~= name_name());
    if tree.tag_name(n).is_none() {
        assert(out.deep_view() =~= old(out).deep_view() + name_candidates(tree, n));
        return;
    }
    let ghost before = out.deep_view();
    match tree.local_attribute(n, "id") {
        Some(v) => {
            if !v.as_str().is_empty() {
                out.push(v);
            }
        },
        None => {},
    }
    assert(out.deep_view() =~= before + nonempty_attr(tree, n, id_name()));
    let ghost mid = out.deep_view();
    if element_is_xhtml(tree, n) {
        match tree.local_attribute(n, "name") {
            Some(v) => {
                if !v.as_str().is_empty() {
                    out.push(v);
                }
            },
            None => {},
        }
        assert(out.deep_view() =~= mid + nonempty_attr(tree, n, name_name()));
    } else {
        assert(out.deep_view() =~= mid + Seq::<Seq<char>>::empty());
    }
}

/// The supported property names of a collection holding `list`.
pub fn collection_named_keys(tree: &DomTree, list: &Vec<NodeId>) -> (r: Vec<String>)
    requires
        forall|k: int| 0 <= k < list.len() ==> tree.valid(#[trigger] list@[k]),
    ensures
        r.deep_view() == named_keys_of(tree, list@),
{
    let mut all: Vec<String> = Vec::new();
    let mut i: usize = 0;
    while i < list.len()
        invariant
            forall|k: int| 0 <= k < list.len() ==> tree.valid(#[trigger] list@[k]),
            i <= list.len(),
            all.deep_view() == all_name_candidates(tree, list@.take(i as int)),
        decreases list.len() - i,
    {
        assert(list@.take(i as int + 1).drop_last() =~= list@.take(i as int));
        push_name_candidates(tree, list[i], &mut all);
        i = i + 1;
    }
    assert(list@.take(list.len() as int) =~= list@);
    dedup_strings(all)
}

// ---------------------------------------------------------------------------
// Which nodes a collection holds
// ---------------------------------------------------------------------------

pub open spec fn class_name() -> Seq<char> {
    seq!['c', 'l', 'a', 's', 's']
}

/// Predicate: the element's `class` attribute (first by local name), split on
/// ASCII whitespace, contains every one of `names`.
pub open spec fn class_match_pred(tree: &DomTree, names: Seq<Seq<char>>) -> spec_fn(NodeId) -> bool {
    |n: NodeId|
        tree.is_element(n) && match tree.local_attr(n, class_name()) {
            Some(v) => forall|i: int| 0 <= i < names.len() ==> tokens(v, false).contains(#[trigger] names[i]),
            None => false,
        }
}

/// `getElementsByClassName`: descendants of `root` in tree order that carry all
/// of `names`; nothing for an empty list of names.
pub open spec fn elements_by_class(tree: &DomTree, root: NodeId, names: Seq<Seq<char>>) -> Seq<NodeId> {
    if names.len() == 0 {
        Seq::empty()
    } else {
        tree.descendants(root).filter(class_match_pred(tree, names))
    }
}

/// Whether element `n` carries all of `names`.
fn has_all_classes(tree: &DomTree, n: NodeId, names: &Vec<String>) -> (r: bool)
    requires
        tree.valid(n),
    ensures
        r == class_match_pred(tree, names.deep_view())(n),
{
    if tree.tag_name(n).is_none() {
        return false;
    }
    proof {
        reveal_strlit("class");
    }
    assert("class"@ =~= class_name());
    match tree.local_attribute(n, "class") {
        Some(v) => {
            let classes = split_tokens(v.as_str(), false);
            let mut i: usize = 0;
            while i < names.len()
                invariant
                    i <= names.len(),
                    classes.deep_view() == tokens(v@, false),
                    tree.is_element(n),
                    tree.local_attr(n, class_name()) == Some(v@),
                    forall|j: int| 0 <= j < i ==> tokens(v@, false).contains(#[trigger] names.deep_view()[j]),
                decreases names.len() - i,
            {
                assert(names.deep_view()[i as int] == names@[i as int]@);
                if !contains_string(&classes, &names[i]) {
                    assert(!tokens(v@, false).contains(names.deep_view()[i as int]));
                    return false;
                }
                i = i + 1;
            }
            true
        },
        None => false,
    }
}

/// Appends to `results` the descendants of `root`, in tree order, that carry
/// all of `class_names`.
pub fn collect_descendants_by_class_recursive(
    tree: &DomTree,
    root: NodeId,
    class_names: &Vec<String>,
    results: &mut Vec<NodeId>,
)
    requires
        tree.wf(),
        tree.valid(root),
    ensures
        final(results)@ == old(results)@ + tree.descendants(root).filter(
            class_match_pred(tree, class_names.deep_view()),
        ),
{
    let d = tree.collect_descendants(root);
    let ghost p = class_match_pred(tree, class_names.deep_view());
    let ghost before = results@;
    let mut i: usize = 0;
    while i < d.len()
        invariant
            d@ == tree.descendants(root),
            forall|k: int| 0 <= k < d.len() ==> tree.valid(#[trigger] d@[k]),
            p == class_match_pred(tree, class_names.deep_view()),
            i <= d.len(),
            results@ == before + d@.take(i as int).filter(p),
        decreases d.len() - i,
    {
        assert(d@.take(i as int + 1).drop_last() =~= d@.take(i as int));
        reveal_with_fuel(Seq::filter, 1);
        if has_all_classes(tree, d[i], class_names) {
            results.push(d[i]);
        }
        i = i + 1;
    }
    assert(d@.take(d.len() as int) =~= d@);
}

/// `getElementsByClassName(names)` below `root`, `class_names` being the
/// argument split on ASCII whitespace.
pub fn collect_descendants_by_class(tree: &DomTree, root: NodeId, class_names: &Vec<String>) -> (r: Vec<
    NodeId,
>)
    requires
        tree.wf(),
        tree.valid(root),
    ensures
        r@ == elements_by_class(tree, root, class_names.deep_view()),
{
    let mut results: Vec<NodeId> = Vec::new();
    if class_names.len() == 0 {
        return results;
    }
    collect_descendants_by_class_recursive(tree, root, class_names, &mut results);
    assert(results@ =~= elements_by_class(tree, root, class_names.deep_view()));
    results
}

/// Predicate: the element matches the `getElementsByTagName` argument `search`:
/// `*` matches every element; in an HTML document an XHTML element matches the
/// ASCII-lowercased argument; otherwise the qualified name must equal it.
pub open spec fn tag_match_pred(tree: &DomTree, search: Seq<char>) -> spec_fn(NodeId) -> bool {
    |n: NodeId|
        tree.is_element(n) && (search == seq!['*'] || if tree.html_document && tree.element_ns(n)
            == xhtml_ns() {
            ascii_lower(search) == tree.tag(n)
        } else {
            search == tree.tag(n)
        })
}

/// Whether element `n` matches `search` (see `tag_match_pred`); `lowered` is the
/// ASCII-lowercased `search`.
fn tag_matches(tree: &DomTree, n: NodeId, search: &str, lowered: &str) -> (r: bool)
    requires
        tree.valid(n),
        lowered@ == ascii_lower(search@),
    ensures
        r == tag_match_pred(tree, search@)(n),
{
    proof {
        reveal_strlit("*");
    }
    assert("*"@ =~= seq!['*']);
    match tree.tag_name(n) {
        Some(tag) => {
            if str_eq(search, "*") {
                true
            } else if tree.is_html_document() && element_is_xhtml(tree, n) {
                str_eq(lowered, tag.as_str())
            } else {
                str_eq(search, tag.as_str())
            }
        },
        None => false,
    }
}

/// Appends to `results` the descendants of `root`, in tree order, that match
/// the tag name `search_tag`.
pub fn collect_descendants_by_tag_recursive(
    tree: &DomTree,
    root: NodeId,
    search_tag: &str,
    results: &mut Vec<NodeId>,
)
    requires
        tree.wf(),
        tree.valid(root),
    ensures
        final(results)@ == old(results)@ + tree.descendants(root).filter(tag_match_pred(tree, search_tag@)),
{
    let d = tree.collect_descendants(root);
    let lowered = to_ascii_lowercase(search_tag);
    let ghost p = tag_match_pred(tree, search_tag@);
    let ghost before = results@;
    let mut i: usize = 0;
    while i < d.len()
        invariant
            d@ == tree.descendants(root),
            forall|k: int| 0 <= k < d.len() ==> tree.valid(#[trigger] d@[k]),
            p == tag_match_pred(tree, search_tag@),
            lowered@ == ascii_lower(search_tag@),
            i <= d.len(),
            results@ == before + d@.take(i as int).filter(p),
        decreases d.len() - i,
    {
        assert(d@.take(i as int + 1).drop_last() =~= d@.take(i as int));
        reveal_with_fuel(Seq::filter, 1);
        if tag_matches(tree, d[i], search_tag, lowered.as_str()) {
            results.push(d[i]);
        }
        i = i + 1;
    }
    assert(d@.take(d.len() as int) =~= d@);
}

/// `getElementsByTagName(tag_name)` below `root`.
pub fn collect_descendants_by_tag(tree: &DomTree, root: NodeId, tag_name: &str) -> (r: Vec<NodeId>)
    requires
        tree.wf(),
        tree.valid(root),
    ensures
        r@ == tree.descendants(root).filter(tag_match_pred(tree, tag_name@)),
{
    let mut results: Vec<NodeId> = Vec::new();
    collect_descendants_by_tag_recursive(tree, root, tag_name, &mut results);
    assert(results@ =~= tree.descendants(root).filter(tag_match_pred(tree, tag_name@)));
    results
}

/// Predicate: the element matches `getElementsByTagNameNS(namespace, local)`:
/// each of the two is `*` or equals the element's namespace, respectively the
/// part of its qualified name after the first colon.
pub open spec fn tag_ns_match_pred(tree: &DomTree, namespace: Seq<char>, local: Seq<char>) -> spec_fn(
    NodeId,
) -> bool {
    |n: NodeId|
        tree.is_element(n) && (namespace == seq!['*'] || namespace == tree.element_ns(n)) && (local
            == seq!['*'] || local == split_qname(tree.tag(n)).1)
}

fn tag_ns_matches(tree: &DomTree, n: NodeId, namespace: &str, local: &str) -> (r: bool)
    requires
        tree.valid(n),
    ensures
        r == tag_ns_match_pred(tree, namespace@, local@)(n),
{
    proof {
        reveal_strlit("*");
    }
    assert("*"@ =~= seq!['*']);
    match tree.tag_name(n) {
        Some(tag) => {
            let ns_ok = match tree.namespace_of(n) {
                Some(ns) => str_eq(namespace, "*") || str_eq(namespace, ns.as_str()),
                None => false,
            };
            if !ns_ok {
                return false;
            }
            let (_prefix, element_local) = split_qualified_name(tag.as_str());
            str_eq(local, "*") || str_eq(local, element_local.as_str())
        },
        None => false,
    }
}

/// Appends to `results` the descendants of `root`, in tree order, that match
/// `namespace` and `local_name`.
pub fn collect_descendants_by_tag_ns_recursive(
    tree: &DomTree,
    root: NodeId,
    namespace: &str,
    local_name: &str,
    results: &mut Vec<NodeId>,
)
    requires
        tree.wf(),
        tree.valid(root),
    ensures
        final(results)@ == old(results)@ + tree.descendants(root).filter(
            tag_ns_match_pred(tree, namespace@, local_name@),
        ),
{
    let d = tree.collect_descendants(root);
    let ghost p = tag_ns_match_pred(tree, namespace@, local_name@);
    let ghost before = results@;
    let mut i: usize = 0;
    while i < d.len()
        invariant
            d@ == tree.descendants(root),
            forall|k: int| 0 <= k < d.len() ==> tree.valid(#[trigger] d@[k]),
            p == tag_ns_match_pred(tree, namespace@, local_name@),
            i <= d.len(),
            results@ == before + d@.take(i as int).filter(p),
        decreases d.len() - i,
    {
        assert(d@.take(i as int + 1).drop_last() =~= d@.take(i as int));
        reveal_with_fuel(Seq::filter, 1);
        if tag_ns_matches(tree, d[i], namespace, local_name) {
            results.push(d[i]);
        }
        i = i + 1;
    }
    assert(d@.take(d.len() as int) =~= d@);
}

/// `getElementsByTagNameNS(namespace, local_name)` below `root`.
pub fn collect_descendants_by_tag_ns(tree: &DomTree, root: NodeId, namespace: &str, local_name: &str) -> (r:
    Vec<NodeId>)
    requires
        tree.wf(),
        tree.valid(root),
    ensures
        r@ == tree.descendants(root).filter(tag_ns_match_pred(tree, namespace@, local_name@)),
{
    let mut results: Vec<NodeId> = Vec::new();
    collect_descendants_by_tag_ns_recursive(tree, root, namespace, local_name, &mut results);
    assert(results@ =~= tree.descendants(root).filter(tag_ns_match_pred(tree, namespace@, local_name@)));
    results
}

// ---------------------------------------------------------------------------
// Laws
// ---------------------------------------------------------------------------

proof fn lemma_candidates_name(tree: &DomTree, n: NodeId, name: Seq<char>)
    requires
        name.len() > 0,
    ensures
        named_pred(tree, name)(n) <==> name_candidates(tree, n).contains(name),
{
    let c = name_candidates(tree, n);
    let ids = nonempty_attr(tree, n, id_name());
    let names = if is_xhtml_element(tree, n) {
        nonempty_attr(tree, n, name_name())
    } else {
        Seq::<Seq<char>>::empty()
    };
    if !tree.is_element(n) {
        return;
    }
    assert(c == ids + names);
    if named_pred(tree, name)(n) {
        if tree.local_attr(n, id_name()) == Some(name) {
            assert(c[0] == name);
        } else {
            assert(c[ids.len() as int] == name);
        }
    }
    if c.contains(name) {
        let k = choose|k: int| 0 <= k < c.len() && c[k] == name;
        if k < ids.len() {
            assert(ids[k] == name);
        } else {
            assert(names[k - ids.len()] == name);
        }
    }
}

proof fn lemma_all_candidates_name(tree: &DomTree, list: Seq<NodeId>, name: Seq<char>)
    requires
        name.len() > 0,
    ensures
        all_name_candidates(tree, list).contains(name) <==> exists|k: int|
            0 <= k < list.len() && #[trigger] named_pred(tree, name)(list[k]),
    decreases list.len(),
{
    if list.len() > 0 {
        let front = list.drop_last();
        lemma_all_candidates_name(tree, front, name);
        lemma_candidates_name(tree, list.last(), name);
        let a = all_name_candidates(tree, front);
        let b = name_candidates(tree, list.last());
        let all = a + b;
        if all.contains(name) {
            let k = choose|k: int| 0 <= k < all.len() && all[k] == name;
            if k < a.len() {
                assert(a[k] == name);
                let m = choose|m: int| 0 <= m < front.len() && #[trigger] named_pred(tree, name)(front[m]);
                assert(list[m] == front[m]);
            } else {
                assert(b[k - a.len()] == name);
                assert(named_pred(tree, name)(list[list.len() - 1]));
            }
        }
        if exists|k: int| 0 <= k < list.len() && #[trigger] named_pred(tree, name)(list[k]) {
            let k = choose|k: int| 0 <= k < list.len() && #[trigger] named_pred(tree, name)(list[k]);
            if k < list.len() - 1 {
                assert(front[k] == list[k]);
                assert(a.contains(name));
                let m = choose|m: int| 0 <= m < a.len() && a[m] == name;
                assert(all[m] == name);
            } else {
                assert(b.contains(name));
                let m = choose|m: int| 0 <= m < b.len() && b[m] == name;
                assert(all[a.len() + m] == name);
            }
        }
    }
}

/// A non-empty name resolves through `namedItem` exactly when it is one of the
/// collection's supported property names; those names are distinct and
/// non-empty.
pub proof fn lemma_named_item_iff_named_key(tree: &DomTree, list: Seq<NodeId>, name: Seq<char>)
    requires
        name.len() > 0,
    ensures
        named_item_of(tree, list, name) is Some <==> named_keys_of(tree, list).contains(name),
        named_keys_of(tree, list).no_duplicates(),
{
    let p = named_pred(tree, name);
    lemma_all_candidates_name(tree, list, name);
    lemma_dedup(all_name_candidates(tree, list));
    lemma_first_index(list, p);
    if exists|k: int| 0 <= k < list.len() && #[trigger] p(list[k]) {
        let k = choose|k: int| 0 <= k < list.len() && #[trigger] p(list[k]);
        crate::text::lemma_first_index_exists(list, p, k);
    }
    if first_index(list, p) >= 0 {
        assert(p(list[first_index(list, p)]));
    }
}

/// Every supported property name of a collection is non-empty.
pub proof fn lemma_named_keys_nonempty(tree: &DomTree, list: Seq<NodeId>)
    ensures
        forall|i: int|
            0 <= i < named_keys_of(tree, list).len() ==> (#[trigger] named_keys_of(tree, list)[i]).len() > 0,
    decreases list.len(),
{
    let all = all_name_candidates(tree, list);
    lemma_all_candidates_nonempty(tree, list);
    lemma_dedup(all);
    assert forall|i: int| 0 <= i < named_keys_of(tree, list).len() implies (#[trigger] named_keys_of(
        tree,
        list,
    )[i]).len() > 0 by {
        let x = named_keys_of(tree, list)[i];
        assert(named_keys_of(tree, list).contains(x));
        assert(all.contains(x));
    }
}

proof fn lemma_all_candidates_nonempty(tree: &DomTree, list: Seq<NodeId>)
    ensures
        forall|i: int|
            0 <= i < all_name_candidates(tree, list).len() ==> (#[trigger] all_name_candidates(tree, list)[i]).len() > 0,
    decreases list.len(),
{
    if list.len() > 0 {
        lemma_all_candidates_nonempty(tree, list.drop_last());
        let a = all_name_candidates(tree, list.drop_last());
        let b = name_candidates(tree, list.last());
        assert forall|i: int| 0 <= i < (a + b).len() implies (#[trigger] (a + b)[i]).len() > 0 by {}
    }
}

/// `getElementsByTagName("*")` holds every element descendant.
pub proof fn lemma_tag_wildcard_all_elements(tree: &DomTree, root: NodeId)
    ensures
        tree.descendants(root).filter(tag_match_pred(tree, seq!['*'])) == tree.descendants(root).filter(
            tree.element_pred(),
        ),
{
    assert(tag_match_pred(tree, seq!['*']) =~= tree.element_pred());
}

/// `getElementsByTagNameNS("*", "*")` holds every element descendant.
pub proof fn lemma_tag_ns_wildcard_all_elements(tree: &DomTree, root: NodeId)
    ensures
        tree.descendants(root).filter(tag_ns_match_pred(tree, seq!['*'], seq!['*'])) == tree.descendants(
            root,
        ).filter(tree.element_pred()),
{
    assert(tag_ns_match_pred(tree, seq!['*'], seq!['*']) =~= tree.element_pred());
}

/// `getElementsByTagNameNS(namespace, local)` holds exactly the descendant
/// elements whose namespace is `namespace` and whose local name is `local`,
/// either of the two being `*` for any.
pub proof fn lemma_tag_ns_results(tree: &DomTree, root: NodeId, namespace: Seq<char>, local: Seq<char>)
    ensures
        forall|i: int|
            0 <= i < tree.descendants(root).filter(tag_ns_match_pred(tree, namespace, local)).len() ==> {
                let m = #[trigger] tree.descendants(root).filter(tag_ns_match_pred(tree, namespace, local))[i];
                &&& tree.descendants(root).contains(m)
                &&& tree.is_element(m)
                &&& namespace != seq!['*'] ==> tree.element_ns(m) == namespace
                &&& local != seq!['*'] ==> split_qname(tree.tag(m)).1 == local
            },
        forall|m: NodeId|
            #[trigger] tree.descendants(root).contains(m) && tree.is_element(m) && (namespace == seq!['*']
                || tree.element_ns(m) == namespace) && (local == seq!['*'] || split_qname(tree.tag(m)).1
                == local) ==> tree.descendants(root).filter(tag_ns_match_pred(tree, namespace, local)).contains(m),
{
    broadcast use vstd::seq_lib::group_filter_ensures;
    let p = tag_ns_match_pred(tree, namespace, local);
    let r = tree.descendants(root).filter(p);
    assert forall|i: int| 0 <= i < r.len() implies {
        let m = #[trigger] r[i];
        &&& tree.descendants(root).contains(m)
        &&& tree.is_element(m)
        &&& namespace != seq!['*'] ==> tree.element_ns(m) == namespace
        &&& local != seq!['*'] ==> split_qname(tree.tag(m)).1 == local
    } by {
        assert(p(r[i]));
        assert(r.contains(r[i]));
        tree.descendants(root).lemma_filter_contains_rev(p, r[i]);
    }
    assert forall|m: NodeId|
        #[trigger] tree.descendants(root).contains(m) && tree.is_element(m) && (namespace == seq!['*']
            || tree.element_ns(m) == namespace) && (local == seq!['*'] || split_qname(tree.tag(m)).1
            == local) implies r.contains(m) by {
        assert(p(m));
        let k = choose|k: int| 0 <= k < tree.descendants(root).len() && tree.descendants(root)[k] == m;
        tree.descendants(root).lemma_filter_contains(p, k);
    }
}

/// A filter of the descendants of `root` holds exactly the descendants that
/// satisfy the predicate.
proof fn lemma_descendant_filter(tree: &DomTree, root: NodeId, p: spec_fn(NodeId) -> bool)
    ensures
        forall|i: int|
            0 <= i < tree.descendants(root).filter(p).len() ==> tree.descendants(root).contains(
                #[trigger] tree.descendants(root).filter(p)[i],
            ) && p(tree.descendants(root).filter(p)[i]),
        forall|m: NodeId|
            #[trigger] tree.descendants(root).contains(m) && p(m) ==> tree.descendants(root).filter(p).contains(m),
{
    broadcast use vstd::seq_lib::group_filter_ensures;
    let d = tree.descendants(root);
    let r = d.filter(p);
    assert forall|i: int| 0 <= i < r.len() implies d.contains(#[trigger] r[i]) && p(r[i]) by {
        assert(r.contains(r[i]));
        d.lemma_filter_contains_rev(p, r[i]);
    }
    assert forall|m: NodeId| #[trigger] d.contains(m) && p(m) implies r.contains(m) by {
        let k = choose|k: int| 0 <= k < d.len() && d[k] == m;
        d.lemma_filter_contains(p, k);
    }
}

/// `getElementsByClassName(names)` holds exactly the descendant elements whose
/// `class` attribute has every one of `names` among its tokens; nothing for no
/// names.
pub proof fn lemma_class_results(tree: &DomTree, root: NodeId, names: Seq<Seq<char>>)
    ensures
        names.len() == 0 ==> elements_by_class(tree, root, names).len() == 0,
        forall|i: int|
            0 <= i < elements_by_class(tree, root, names).len() ==> {
                let m = #[trigger] elements_by_class(tree, root, names)[i];
                &&& tree.descendants(root).contains(m)
                &&& tree.is_element(m)
                &&& tree.local_attr(m, class_name()) matches Some(v) && forall|j: int|
                    0 <= j < names.len() ==> tokens(v, false).contains(#[trigger] names[j])
            },
        forall|m: NodeId|
            #[trigger] tree.descendants(root).contains(m) && tree.is_element(m) && names.len() > 0 && (
            tree.local_attr(m, class_name()) matches Some(v) && forall|j: int|
                0 <= j < names.len() ==> tokens(v, false).contains(#[trigger] names[j]))
                ==> elements_by_class(tree, root, names).contains(m),
{
    lemma_descendant_filter(tree, root, class_match_pred(tree, names));
}

/// `getElementsByTagName(name)` holds exactly the descendant elements whose
/// qualified name is `name` (its ASCII lowercase for HTML elements of an HTML
/// document), or every descendant element for `*`.
pub proof fn lemma_tag_results(tree: &DomTree, root: NodeId, name: Seq<char>)
    ensures
        forall|i: int|
            0 <= i < tree.descendants(root).filter(tag_match_pred(tree, name)).len() ==> {
                let m = #[trigger] tree.descendants(root).filter(tag_match_pred(tree, name))[i];
                &&& tree.descendants(root).contains(m)
                &&& tree.is_element(m)
                &&& name != seq!['*'] && tree.html_document && tree.element_ns(m) == xhtml_ns() ==> tree.tag(m)
                    == ascii_lower(name)
                &&& name != seq!['*'] && !(tree.html_document && tree.element_ns(m) == xhtml_ns()) ==> tree.tag(m)
                    == name
            },
        forall|m: NodeId|
            #[trigger] tree.descendants(root).contains(m) && tree.is_element(m) && (name == seq!['*'] || (
            tree.html_document && tree.element_ns(m) == xhtml_ns() && tree.tag(m) == ascii_lower(name)) || (!(
            tree.html_document && tree.element_ns(m) == xhtml_ns()) && tree.tag(m) == name))
                ==> tree.descendants(root).filter(tag_match_pred(tree, name)).contains(m),
{
    lemma_descendant_filter(tree, root, tag_match_pred(tree, name));
}

} // verus!
