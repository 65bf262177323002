//! Activation behavior: which element a click activates, the legacy
//! pre-activation of checkboxes and radio buttons and its undo, and what the
//! post-activation step asks the host to do.
use vstd::prelude::*;
use crate::dom::{
    attrs_remove, attrs_set, qname_is, AttrView, DomTree, NodeId,
};
use crate::text::{
    eq_ic, eq_ignore_ascii_case, first_index, last_index, lemma_first_index,
    lemma_first_index_exists, lemma_first_index_is, lemma_first_index_none, lemma_last_index_is,
    lemma_last_index_none, owned, str_eq, to_lowercase, unicode_lower,
};

verus! {

// ---------------------------------------------------------------------------
// Specifications
// ---------------------------------------------------------------------------

/// The element's tag name, Unicode-lowercased.
pub open spec fn lower_tag(tree: &DomTree, n: NodeId) -> Seq<char> {
    unicode_lower(tree.tag(n))
}

/// The element's `type` attribute, Unicode-lowercased, or `default` without one.
pub open spec fn input_type_or(tree: &DomTree, n: NodeId, default: Seq<char>) -> Seq<char> {
    match tree.local_attr(n, "type"@) {
        Some(v) => unicode_lower(v),
        None => default,
    }
}

pub open spec fn is_form_control_tag(t: Seq<char>) -> bool {
    t == "input"@ || t == "button"@ || t == "select"@ || t == "textarea"@
}

/// A form control (input, button, select, textarea) with a `disabled` attribute.
pub open spec fn spec_is_disabled(tree: &DomTree, n: NodeId) -> bool {
    tree.is_element(n) && is_form_control_tag(lower_tag(tree, n)) && tree.local_attr(
        n,
        "disabled"@,
    ) is Some
}

/// Elements with activation behavior: checkbox, radio, submit, reset, button
/// and image inputs (an input without `type` is a text input), buttons,
/// details, labels, and links (`a`, `area`) with an `href`.
pub open spec fn spec_has_activation_behavior(tree: &DomTree, n: NodeId) -> bool {
    tree.is_element(n) && {
        let t = lower_tag(tree, n);
        if t == "input"@ {
            let it = input_type_or(tree, n, "text"@);
            it == "checkbox"@ || it == "radio"@ || it == "submit"@ || it == "reset"@ || it
                == "button"@ || it == "image"@
        } else if t == "button"@ || t == "details"@ || t == "label"@ {
            true
        } else if t == "a"@ || t == "area"@ {
            tree.local_attr(n, "href"@) is Some
        } else {
            false
        }
    }
}

pub open spec fn activation_pred(tree: &DomTree) -> spec_fn(NodeId) -> bool {
    |n: NodeId| spec_has_activation_behavior(tree, n)
}

/// The activation target of a dispatch along `path` (root first, target last):
/// the nearest inclusive ancestor with activation behavior when the event
/// bubbles, otherwise the target itself when it has activation behavior.
pub open spec fn spec_activation_target(tree: &DomTree, path: Seq<NodeId>, bubbles: bool) -> Option<
    NodeId,
> {
    if bubbles {
        let i = last_index(path, activation_pred(tree));
        if i < 0 {
            None
        } else {
            Some(path[i])
        }
    } else if path.len() == 0 {
        None
    } else if spec_has_activation_behavior(tree, path.last()) {
        Some(path.last())
    } else {
        None
    }
}

/// `n` or one of its first `fuel - 1` ancestors is the document node.
pub open spec fn connected_within(tree: &DomTree, n: NodeId, fuel: nat) -> bool
    decreases fuel,
{
    if fuel == 0 {
        false
    } else if tree.node(n).data is Document {
        true
    } else {
        match tree.parent_of(n) {
            Some(p) => connected_within(tree, p, (fuel - 1) as nat),
            None => false,
        }
    }
}

/// The node has the document as an inclusive ancestor.
pub open spec fn spec_is_connected(tree: &DomTree, n: NodeId) -> bool {
    connected_within(tree, n, tree.nodes.len() as nat)
}

/// Walking up from `cur`: the first `form` element (ASCII case-insensitive tag),
/// when it is connected to the document; `None` when that form is not, or
/// when there is no form above.
pub open spec fn form_search(tree: &DomTree, cur: Option<NodeId>, fuel: nat) -> Option<NodeId>
    decreases fuel,
{
    if fuel == 0 {
        None
    } else {
        match cur {
            None => None,
            Some(p) => if tree.is_element(p) && eq_ic(tree.tag(p), "form"@) {
                if spec_is_connected(tree, p) {
                    Some(p)
                } else {
                    None
                }
            } else {
                form_search(tree, tree.parent_of(p), (fuel - 1) as nat)
            },
        }
    }
}

/// The nearest `form` ancestor of `n` (not `n` itself), if it is connected.
pub open spec fn spec_ancestor_form(tree: &DomTree, n: NodeId) -> Option<NodeId> {
    form_search(tree, tree.parent_of(n), tree.nodes.len() as nat)
}

pub open spec fn is_labelable_tag(t: Seq<char>) -> bool {
    t == "input"@ || t == "select"@ || t == "textarea"@ || t == "button"@
}

pub open spec fn labelable_pred(tree: &DomTree) -> spec_fn(NodeId) -> bool {
    |m: NodeId| tree.is_element(m) && is_labelable_tag(lower_tag(tree, m))
}

/// The first labelable element (input, select, textarea, button) among the
/// descendants of `n`, in tree order.
pub open spec fn spec_first_labelable(tree: &DomTree, n: NodeId) -> Option<NodeId> {
    let d = tree.descendants(n);
    let i = first_index(d, labelable_pred(tree));
    if i < 0 {
        None
    } else {
        Some(d[i])
    }
}

/// The control of a label: the element whose id is the non-empty `for`
/// attribute, otherwise the first labelable descendant.
pub open spec fn spec_label_control(tree: &DomTree, label: NodeId) -> Option<NodeId> {
    match tree.get_attr(label, "for"@) {
        Some(f) => if f.len() > 0 {
            tree.element_by_id(f)
        } else {
            spec_first_labelable(tree, label)
        },
        None => spec_first_labelable(tree, label),
    }
}

/// Some attribute is a `type` attribute whose value is `radio` (ASCII case-insensitive).
pub open spec fn has_radio_type(attrs: Seq<AttrView>) -> bool {
    exists|i: int| 0 <= i < attrs.len() && (#[trigger] attrs[i]).local == "type"@ && eq_ic(attrs[i].value, "radio"@)
}

/// The element's `name` attribute is `name`; an element without one is in
/// the group with the empty name.
pub open spec fn name_matches(tree: &DomTree, c: NodeId, name: Seq<char>) -> bool {
    match tree.local_attr(c, "name"@) {
        Some(v) => v == name,
        None => name.len() == 0,
    }
}

pub open spec fn radio_pred(tree: &DomTree, name: Seq<char>) -> spec_fn(NodeId) -> bool {
    |c: NodeId|
        tree.is_element(c) && eq_ic(tree.tag(c), "input"@) && has_radio_type(tree.attrs(c))
            && name_matches(tree, c, name)
}

/// Where a radio group is searched: the nearest connected form ancestor, or the document.
pub open spec fn radio_group_root(tree: &DomTree, n: NodeId) -> NodeId {
    match spec_ancestor_form(tree, n) {
        Some(f) => f,
        None => 0,
    }
}

/// The other radio inputs of `n`'s group `name`, in tree order; the subtree of `n`
/// is not searched.
pub open spec fn spec_radio_group(tree: &DomTree, n: NodeId, name: Seq<char>) -> Seq<NodeId> {
    tree.descendants_skipping(radio_group_root(tree, n), n).filter(radio_pred(tree, name))
}

// ---------------------------------------------------------------------------
// Checked-state operations
// ---------------------------------------------------------------------------

/// The attribute list of node `m` after the operations `ops` in order: each
/// `(x, true)` with `x == m` sets `checked` to the empty string, each `(x, false)`
/// removes it; operations on other nodes leave `m` alone.
pub open spec fn apply_checked(a: Seq<AttrView>, m: NodeId, ops: Seq<(NodeId, bool)>) -> Seq<
    AttrView,
>
    decreases ops.len(),
{
    if ops.len() == 0 {
        a
    } else {
        let prev = apply_checked(a, m, ops.drop_last());
        let op = ops.last();
        if op.0 == m {
            if op.1 {
                attrs_set(prev, "checked"@, Seq::empty())
            } else {
                attrs_remove(prev, "checked"@)
            }
        } else {
            prev
        }
    }
}

/// `new` is `old` after the checked-state operations `ops`.
pub open spec fn applied_checked(old: &DomTree, new: &DomTree, ops: Seq<(NodeId, bool)>) -> bool {
    &&& old.same_shape(new)
    &&& forall|m: NodeId|
        old.is_element(m) ==> #[trigger] new.attrs(m) == apply_checked(old.attrs(m), m, ops)
}

/// Run the checked-state operations `ops` on the tree.
fn apply_checked_ops(tree: &mut DomTree, ops: &Vec<(NodeId, bool)>)
    requires
        old(tree).wf(),
        forall|i: int| 0 <= i < ops.len() ==> old(tree).valid(#[trigger] ops@[i].0),
    ensures
        final(tree).wf(),
        applied_checked(old(tree), final(tree), ops@),
{
    let ghost t0 = *tree;
    let checked = owned("checked");
    let empty = String::new();
    proof {
        reveal_strlit("checked");
    }
    let mut i: usize = 0;
    while i < ops.len()
        invariant
            checked@ == "checked"@,
            empty@ == Seq::<char>::empty(),
            t0.wf(),
            tree.wf(),
            forall|k: int| 0 <= k < ops.len() ==> t0.valid(#[trigger] ops@[k].0),
            i <= ops.len(),
            applied_checked(&t0, tree, ops@.take(i as int)),
        decreases ops.len() - i,
    {
        let (x, b) = ops[i];
        let ghost cur = *tree;
        assert(ops@.take(i as int + 1).drop_last() =~= ops@.take(i as int));
        assert(ops@.take(i as int + 1).last() == ops@[i as int]);
        if b {
            tree.set_attribute(x, checked.as_str(), empty.as_str());
            proof {
                cur.lemma_updated_attrs_shape(tree, x, attrs_set(cur.attrs(x), "checked"@, Seq::empty()));
            }
        } else {
            tree.remove_attribute(x, checked.as_str());
            proof {
                cur.lemma_updated_attrs_shape(tree, x, attrs_remove(cur.attrs(x), "checked"@));
            }
        }
        proof {
            t0.lemma_same_shape_trans(&cur, tree);
            assert forall|m: NodeId| t0.is_element(m) implies #[trigger] tree.attrs(m) == apply_checked(
                t0.attrs(m),
                m,
                ops@.take(i as int + 1),
            ) by {
                assert(cur.attrs(m) == apply_checked(t0.attrs(m), m, ops@.take(i as int)));
                if m == x {
                    assert(cur.is_element(m));
                } else {
                    assert(tree.node(m) == cur.node(m));
                }
            }
        }
        i = i + 1;
    }
    assert(ops@.take(ops.len() as int) =~= ops@);
}

// ---------------------------------------------------------------------------
// Saved activation state
// ---------------------------------------------------------------------------

/// Saved state for legacy pre-activation (checkbox/radio toggle undo on cancel).
pub enum SavedActivationState {
    Checkbox { was_checked: bool },
    Radio { node_id: NodeId, was_checked: bool, siblings: Vec<(NodeId, bool)> },
    Unchanged,
}

/// The checked-state operations that `restore_activation(node_id, saved)` runs.
pub open spec fn restore_ops(node_id: NodeId, saved: SavedActivationState) -> Seq<(NodeId, bool)> {
    match saved {
        SavedActivationState::Checkbox { was_checked } => seq![(node_id, was_checked)],
        SavedActivationState::Radio { node_id: rid, was_checked, siblings } => seq![
            (rid, was_checked),
        ] + siblings@,
        SavedActivationState::Unchanged => Seq::empty(),
    }
}

/// What legacy pre-activation does to node `n`, as a relation between the tree
/// before (`old`), after (`new`) and the saved state `saved`:
/// for an `input` (Unicode-lowercased tag) of type checkbox it toggles `checked`;
/// of type radio it sets `checked` on `n` and removes it from the other radios of
/// the group, remembering who was checked; otherwise nothing changes.
pub open spec fn pre_activation_post(old: &DomTree, new: &DomTree, n: NodeId, saved: SavedActivationState) -> bool {
    if !old.is_element(n) || lower_tag(old, n) != "input"@ {
        saved is Unchanged && *new == *old
    } else {
        let t = input_type_or(old, n, Seq::empty());
        let was = old.has_attr(n, "checked"@);
        if t == "checkbox"@ {
            saved == (SavedActivationState::Checkbox { was_checked: was }) && applied_checked(
                old,
                new,
                seq![(n, !was)],
            )
        } else if t == "radio"@ {
            let name = match old.get_attr(n, "name"@) {
                Some(v) => v,
                None => Seq::empty(),
            };
            let sibs = spec_radio_group(old, n, name);
            &&& saved matches SavedActivationState::Radio { node_id, was_checked, siblings } && node_id
                == n && was_checked == was && siblings@ == sibs.map_values(
                |s: NodeId| (s, old.has_attr(s, "checked"@)),
            )
            &&& applied_checked(
                old,
                new,
                seq![(n, true)] + sibs.map_values(|s: NodeId| (s, false)),
            )
        } else {
            saved is Unchanged && *new == *old
        }
    }
}


// ---------------------------------------------------------------------------
// Undoing pre-activation
// ---------------------------------------------------------------------------

/// The attribute list has an attribute named `checked`.
pub open spec fn has_checked(a: Seq<AttrView>) -> bool {
    first_index(a, qname_is("checked"@)) >= 0
}

/// After setting `checked`, the list has it.
proof fn lemma_set_then_has(a: Seq<AttrView>)
    ensures
        has_checked(attrs_set(a, "checked"@, Seq::empty())),
{
    let p = qname_is("checked"@);
    let i = first_index(a, p);
    lemma_first_index(a, p);
    let b = attrs_set(a, "checked"@, Seq::empty());
    if i >= 0 {
        assert(p(b[i]));
        lemma_first_index_exists(b, p, i);
    } else {
        assert(p(b[a.len() as int]));
        lemma_first_index_exists(b, p, a.len() as int);
    }
}

/// Setting `checked` on a list without it and removing it again gives the list back.
proof fn lemma_set_then_remove(a: Seq<AttrView>)
    requires
        !has_checked(a),
    ensures
        attrs_remove(attrs_set(a, "checked"@, Seq::empty()), "checked"@) == a,
{
    let p = qname_is("checked"@);
    lemma_first_index(a, p);
    let b = attrs_set(a, "checked"@, Seq::empty());
    assert(b == a.push(AttrView { local: "checked"@, ns: Seq::empty(), prefix: Seq::empty(), value: Seq::empty() }));
    assert forall|j: int| 0 <= j < a.len() implies !p(#[trigger] b[j]) by {
        assert(b[j] == a[j]);
        assert(!p(a[j]));
    }
    assert(p(b[a.len() as int]));
    lemma_first_index_is(b, p, a.len() as int);
    assert(b.remove(a.len() as int) =~= a);
}

/// Operations that do not name `m` leave its attribute list as the operations before them did.
proof fn lemma_apply_suffix(a: Seq<AttrView>, m: NodeId, pre: Seq<(NodeId, bool)>, rest: Seq<(NodeId, bool)>)
    requires
        forall|i: int| 0 <= i < rest.len() ==> (#[trigger] rest[i]).0 != m,
    ensures
        apply_checked(a, m, pre + rest) == apply_checked(a, m, pre),
    decreases rest.len(),
{
    if rest.len() > 0 {
        let r2 = rest.drop_last();
        assert((pre + rest).drop_last() =~= pre + r2);
        assert((pre + rest).last() == rest[rest.len() - 1]);
        assert forall|i: int| 0 <= i < r2.len() implies (#[trigger] r2[i]).0 != m by {
            assert(r2[i] == rest[i]);
        }
        lemma_apply_suffix(a, m, pre, r2);
    } else {
        assert(pre + rest =~= pre);
    }
}

/// Only removals of `checked` on a list without it change nothing.
proof fn lemma_apply_removals(a: Seq<AttrView>, m: NodeId, ops: Seq<(NodeId, bool)>)
    requires
        !has_checked(a),
        forall|i: int| 0 <= i < ops.len() && (#[trigger] ops[i]).0 == m ==> !ops[i].1,
    ensures
        apply_checked(a, m, ops) == a,
    decreases ops.len(),
{
    if ops.len() > 0 {
        let o2 = ops.drop_last();
        assert forall|i: int| 0 <= i < o2.len() && (#[trigger] o2[i]).0 == m implies !o2[i].1 by {
            assert(o2[i] == ops[i]);
        }
        lemma_apply_removals(a, m, o2);
        assert(ops.last() == ops[ops.len() - 1]);
    }
}

/// When every operation on `m` sets `checked` and there is one, the list has it.
proof fn lemma_apply_sets(a: Seq<AttrView>, m: NodeId, ops: Seq<(NodeId, bool)>, k: int)
    requires
        0 <= k < ops.len(),
        ops[k].0 == m,
        forall|i: int| 0 <= i < ops.len() && (#[trigger] ops[i]).0 == m ==> ops[i].1,
    ensures
        has_checked(apply_checked(a, m, ops)),
    decreases ops.len(),
{
    let last = ops[ops.len() - 1];
    assert(ops.last() == last);
    if last.0 == m {
        lemma_set_then_has(apply_checked(a, m, ops.drop_last()));
    } else {
        let o2 = ops.drop_last();
        assert(k < ops.len() - 1);
        assert(o2[k] == ops[k]);
        assert forall|i: int| 0 <= i < o2.len() && (#[trigger] o2[i]).0 == m implies o2[i].1 by {
            assert(o2[i] == ops[i]);
        }
        lemma_apply_sets(a, m, o2, k);
    }
}

/// A walk that skips `n` never lists `n`.
proof fn lemma_forest_skips(tree: &DomTree, list: Seq<NodeId>, fuel: nat, n: NodeId)
    ensures
        !tree.forest(list, fuel, Some(n)).contains(n),
    decreases fuel, list.len(),
{
    if list.len() > 0 {
        lemma_forest_skips(tree, list.drop_last(), fuel, n);
        let c = list.last();
        if c != n && fuel > 0 {
            lemma_forest_skips(tree, tree.children_of(c), (fuel - 1) as nat, n);
            let front = tree.forest(list.drop_last(), fuel, Some(n));
            let sub = tree.forest(tree.children_of(c), (fuel - 1) as nat, Some(n));
            let f = tree.forest(list, fuel, Some(n));
            assert(f == front.push(c) + sub);
            if f.contains(n) {
                let j = choose|j: int| 0 <= j < f.len() && f[j] == n;
                if j < front.len() {
                    assert(front[j] == n);
                } else if j > front.len() {
                    assert(sub[j - front.len() - 1] == n);
                }
            }
        } else if c != n {
            let front = tree.forest(list.drop_last(), fuel, Some(n));
            let f = tree.forest(list, fuel, Some(n));
            if f.contains(n) {
                let j = choose|j: int| 0 <= j < f.len() && f[j] == n;
                if j < front.len() {
                    assert(front[j] == n);
                }
            }
        }
    }
}

/// Law: restoring with the state that legacy pre-activation saved gives every
/// node back exactly the presence or absence of its `checked` attribute.
pub proof fn lemma_restore_undoes_pre_activation(
    t0: DomTree,
    t1: DomTree,
    t2: DomTree,
    n: NodeId,
    saved: SavedActivationState,
)
    requires
        t0.wf(),
        t0.valid(n),
        pre_activation_post(&t0, &t1, n, saved),
        applied_checked(&t1, &t2, restore_ops(n, saved)),
    ensures
        forall|m: NodeId| t0.valid(m) ==> #[trigger] t2.has_attr(m, "checked"@) == t0.has_attr(m, "checked"@),
{
    let ops2 = restore_ops(n, saved);
    assert forall|m: NodeId| t0.valid(m) implies #[trigger] t2.has_attr(m, "checked"@) == t0.has_attr(m, "checked"@) by {
        let a = t0.attrs(m);
        assert(t2.has_attr(m, "checked"@) == has_checked(t2.attrs(m)));
        assert(t0.has_attr(m, "checked"@) == has_checked(a));
        if !t0.is_element(m) {
            if saved is Unchanged {
                assert(t1 == t0);
            } else {
                assert(t1.node(m).data == t0.node(m).data);
            }
            assert(t2.node(m).data == t1.node(m).data);
            assert(t2.attrs(m) == t0.attrs(m));
            assert(has_checked(t2.attrs(m)) == has_checked(a));
        } else if saved is Unchanged {
            assert(t1 == t0);
            assert(ops2 =~= Seq::<(NodeId, bool)>::empty());
            assert(t2.attrs(m) == apply_checked(t1.attrs(m), m, ops2));
            assert(has_checked(t2.attrs(m)) == has_checked(a));
        } else if saved is Checkbox {
            let was = t0.has_attr(n, "checked"@);
            let ops1 = seq![(n, !was)];
            assert(t1.attrs(m) == apply_checked(a, m, ops1));
            assert(t1.is_element(m));
            assert(t2.attrs(m) == apply_checked(t1.attrs(m), m, ops2));
            assert(ops1.drop_last() =~= Seq::<(NodeId, bool)>::empty());
            assert(ops2.drop_last() =~= Seq::<(NodeId, bool)>::empty());
            assert(apply_checked(a, m, ops1.drop_last()) == a);
            assert(apply_checked(t1.attrs(m), m, ops2.drop_last()) == t1.attrs(m));
            if m == n {
                assert(was == has_checked(a));
                if was {
                    lemma_set_then_has(attrs_remove(a, "checked"@));
                } else {
                    lemma_set_then_remove(a);
                }
            }
            assert(has_checked(t2.attrs(m)) == has_checked(a));
        } else {
            let name = match t0.get_attr(n, "name"@) {
                Some(v) => v,
                None => Seq::empty(),
            };
            let sibs = spec_radio_group(&t0, n, name);
            let was = t0.has_attr(n, "checked"@);
            let rest1 = sibs.map_values(|s: NodeId| (s, false));
            let ops1 = seq![(n, true)] + rest1;
            let saved_sibs = sibs.map_values(|s: NodeId| (s, t0.has_attr(s, "checked"@)));
            assert(ops2 == seq![(n, was)] + saved_sibs);
            assert(t1.attrs(m) == apply_checked(a, m, ops1));
            assert(t1.is_element(m));
            let a1 = t1.attrs(m);
            assert(t2.attrs(m) == apply_checked(a1, m, ops2));
            let d = t0.descendants_skipping(radio_group_root(&t0, n), n);
            lemma_forest_skips(&t0, t0.children_of(radio_group_root(&t0, n)), t0.nodes.len() as nat, n);
            assert(!sibs.contains(n)) by {
                if sibs.contains(n) {
                    d.lemma_filter_contains_rev(radio_pred(&t0, name), n);
                }
            }
            let one1 = seq![(n, true)];
            let one2 = seq![(n, was)];
            assert(one1.drop_last() =~= Seq::<(NodeId, bool)>::empty());
            assert(one2.drop_last() =~= Seq::<(NodeId, bool)>::empty());
            if m == n {
                assert forall|i: int| 0 <= i < rest1.len() implies (#[trigger] rest1[i]).0 != m by {
                    assert(rest1[i].0 == sibs[i]);
                    if sibs[i] == n {
                        assert(sibs.contains(n));
                    }
                }
                lemma_apply_suffix(a, m, one1, rest1);
                assert forall|i: int| 0 <= i < saved_sibs.len() implies (#[trigger] saved_sibs[i]).0 != m by {
                    assert(saved_sibs[i].0 == sibs[i]);
                    if sibs[i] == n {
                        assert(sibs.contains(n));
                    }
                }
                lemma_apply_suffix(a1, m, one2, saved_sibs);
                assert(apply_checked(a, m, one1.drop_last()) == a);
                assert(apply_checked(a1, m, one2.drop_last()) == a1);
                assert(was == has_checked(a));
                if was {
                    lemma_set_then_has(attrs_set(a, "checked"@, Seq::empty()));
                } else {
                    lemma_set_then_remove(a);
                }
                assert(has_checked(t2.attrs(m)) == has_checked(a));
            } else {
                let has0 = t0.has_attr(m, "checked"@);
                assert(has0 == has_checked(a));
                if sibs.contains(m) {
                    let k = choose|k: int| 0 <= k < sibs.len() && sibs[k] == m;
                    if has0 {
                        assert forall|i: int| 0 <= i < ops2.len() && (#[trigger] ops2[i]).0 == m implies ops2[i].1 by {
                            if i > 0 {
                                assert(ops2[i] == saved_sibs[i - 1]);
                            }
                        }
                        assert(ops2[k + 1] == saved_sibs[k]);
                        lemma_apply_sets(a1, m, ops2, k + 1);
                    } else {
                        assert forall|i: int| 0 <= i < ops1.len() && (#[trigger] ops1[i]).0 == m implies !ops1[i].1 by {
                            if i > 0 {
                                assert(ops1[i] == rest1[i - 1]);
                            }
                        }
                        lemma_apply_removals(a, m, ops1);
                        assert forall|i: int| 0 <= i < ops2.len() && (#[trigger] ops2[i]).0 == m implies !ops2[i].1 by {
                            if i > 0 {
                                assert(ops2[i] == saved_sibs[i - 1]);
                            }
                        }
                        lemma_apply_removals(a1, m, ops2);
                    }
                    assert(has_checked(t2.attrs(m)) == has_checked(a));
                } else {
                    let e = Seq::<(NodeId, bool)>::empty();
                    assert forall|i: int| 0 <= i < ops1.len() implies (#[trigger] ops1[i]).0 != m by {
                        if i > 0 {
                            assert(ops1[i] == rest1[i - 1]);
                            if sibs[i - 1] == m {
                                assert(sibs.contains(m));
                            }
                        }
                    }
                    lemma_apply_suffix(a, m, e, ops1);
                    assert(e + ops1 =~= ops1);
                    assert forall|i: int| 0 <= i < ops2.len() implies (#[trigger] ops2[i]).0 != m by {
                        if i > 0 {
                            assert(ops2[i] == saved_sibs[i - 1]);
                            if sibs[i - 1] == m {
                                assert(sibs.contains(m));
                            }
                        }
                    }
                    lemma_apply_suffix(a1, m, e, ops2);
                    assert(e + ops2 =~= ops2);
                    assert(has_checked(t2.attrs(m)) == has_checked(a));
                }
            }
        }
    }
}

// ---------------------------------------------------------------------------
// Executable functions
// ---------------------------------------------------------------------------

/// Check if an element is disabled (has "disabled" attribute and is a form element).
pub fn is_disabled(tree: &DomTree, node_id: NodeId) -> (r: bool)
    requires
        tree.valid(node_id),
    ensures
        r == spec_is_disabled(tree, node_id),
{
    match tree.tag_name(node_id) {
        Some(t) => {
            let tag = to_lowercase(t.as_str());
            if str_eq(tag.as_str(), "input") || str_eq(tag.as_str(), "button") || str_eq(
                tag.as_str(),
                "select",
            ) || str_eq(tag.as_str(), "textarea") {
                tree.local_attribute(node_id, "disabled").is_some()
            } else {
                false
            }
        },
        None => false,
    }
}

/// The Unicode-lowercased `type` attribute of `n`, or `default`.
fn input_type(tree: &DomTree, n: NodeId, default: &str) -> (r: String)
    requires
        tree.valid(n),
    ensures
        r@ == input_type_or(tree, n, default@),
{
    match tree.local_attribute(n, "type") {
        Some(v) => to_lowercase(v.as_str()),
        None => owned(default),
    }
}

/// Check if an element has activation behavior.
pub fn has_activation_behavior(tree: &DomTree, node_id: NodeId) -> (r: bool)
    requires
        tree.valid(node_id),
    ensures
        r == spec_has_activation_behavior(tree, node_id),
{
    match tree.tag_name(node_id) {
        Some(t) => {
            let tag = to_lowercase(t.as_str());
            if str_eq(tag.as_str(), "input") {
                let it = input_type(tree, node_id, "text");
                str_eq(it.as_str(), "checkbox") || str_eq(it.as_str(), "radio") || str_eq(
                    it.as_str(),
                    "submit",
                ) || str_eq(it.as_str(), "reset") || str_eq(it.as_str(), "button") || str_eq(
                    it.as_str(),
                    "image",
                )
            } else if str_eq(tag.as_str(), "button") || str_eq(tag.as_str(), "details") || str_eq(
                tag.as_str(),
                "label",
            ) {
                true
            } else if str_eq(tag.as_str(), "a") || str_eq(tag.as_str(), "area") {
                tree.local_attribute(node_id, "href").is_some()
            } else {
                false
            }
        },
        None => false,
    }
}

/// Find the activation target per the DOM spec: the nearest inclusive ancestor
/// of the target that has activation behavior. The propagation path is ordered
/// root-to-target; when the event does not bubble only the target is checked.
pub fn find_activation_target(tree: &DomTree, propagation_path: &[NodeId], bubbles: bool) -> (r:
    Option<NodeId>)
    requires
        forall|i: int| 0 <= i < propagation_path@.len() ==> tree.valid(#[trigger] propagation_path@[i]),
    ensures
        r == spec_activation_target(tree, propagation_path@, bubbles),
{
    let len = propagation_path.len();
    if bubbles {
        let mut i: usize = len;
        while i > 0
            invariant
                bubbles,
                len == propagation_path@.len(),
                forall|k: int| 0 <= k < len ==> tree.valid(#[trigger] propagation_path@[k]),
                i <= len,
                forall|j: int| i <= j < len ==> !activation_pred(tree)(#[trigger] propagation_path@[j]),
            decreases i,
        {
            let node_id = propagation_path[i - 1];
            if has_activation_behavior(tree, node_id) {
                assert(activation_pred(tree)(propagation_path@[i - 1]));
                proof {
                    lemma_last_index_is(propagation_path@, activation_pred(tree), i - 1);
                }
                return Some(node_id);
            }
            i = i - 1;
        }
        proof {
            lemma_last_index_none(propagation_path@, activation_pred(tree));
        }
        None
    } else {
        if len == 0 {
            return None;
        }
        let target = propagation_path[len - 1];
        if has_activation_behavior(tree, target) {
            Some(target)
        } else {
            None
        }
    }
}

/// Check if a node is connected to the document (has a Document ancestor).
pub fn is_connected(tree: &DomTree, node_id: NodeId) -> (r: bool)
    requires
        tree.wf(),
        tree.valid(node_id),
    ensures
        r == spec_is_connected(tree, node_id),
{
    let mut current = node_id;
    let mut fuel: usize = tree.nodes.len();
    while fuel > 0
        invariant
            tree.wf(),
            tree.valid(current),
            connected_within(tree, current, fuel as nat) == spec_is_connected(tree, node_id),
        decreases fuel,
    {
        let node = tree.get_node(current);
        if matches!(node.data, crate::dom::NodeData::Document) {
            return true;
        }
        match node.parent {
            Some(p) => {
                assert(match tree.nodes@[current as int].parent {
                    Some(q) => q < tree.nodes.len(),
                    None => true,
                });
                current = p;
            },
            None => {
                return false;
            },
        }
        fuel = fuel - 1;
    }
    false
}

/// Find an ancestor `<form>` element that is connected to the document.
pub fn find_ancestor_form(tree: &DomTree, node_id: NodeId) -> (r: Option<NodeId>)
    requires
        tree.wf(),
        tree.valid(node_id),
    ensures
        r == spec_ancestor_form(tree, node_id),
        r matches Some(f) ==> tree.valid(f),
{
    assert(match tree.nodes@[node_id as int].parent {
        Some(q) => q < tree.nodes.len(),
        None => true,
    });
    let mut current = tree.get_node(node_id).parent;
    let mut fuel: usize = tree.nodes.len();
    while fuel > 0
        invariant
            tree.wf(),
            current matches Some(c) ==> tree.valid(c),
            form_search(tree, current, fuel as nat) == spec_ancestor_form(tree, node_id),
        decreases fuel,
    {
        match current {
            None => {
                return None;
            },
            Some(pid) => {
                let is_form = match tree.tag_name(pid) {
                    Some(t) => eq_ignore_ascii_case(t.as_str(), "form"),
                    None => false,
                };
                if is_form {
                    if is_connected(tree, pid) {
                        return Some(pid);
                    }
                    return None;
                }
                assert(match tree.nodes@[pid as int].parent {
                    Some(q) => q < tree.nodes.len(),
                    None => true,
                });
                current = tree.get_node(pid).parent;
            },
        }
        fuel = fuel - 1;
    }
    None
}

/// Find the first labelable descendant (input, select, textarea, button) in tree order.
pub fn find_first_labelable_descendant(tree: &DomTree, node_id: NodeId) -> (r: Option<NodeId>)
    requires
        tree.wf(),
        tree.valid(node_id),
    ensures
        r == spec_first_labelable(tree, node_id),
{
    let d = tree.collect_descendants(node_id);
    let mut i: usize = 0;
    while i < d.len()
        invariant
            d@ == tree.descendants(node_id),
            forall|k: int| 0 <= k < d.len() ==> tree.valid(#[trigger] d@[k]),
            i <= d.len(),
            forall|j: int| 0 <= j < i ==> !labelable_pred(tree)(#[trigger] d@[j]),
        decreases d.len() - i,
    {
        let child_id = d[i];
        match tree.tag_name(child_id) {
            Some(t) => {
                let tag = to_lowercase(t.as_str());
                if str_eq(tag.as_str(), "input") || str_eq(tag.as_str(), "select") || str_eq(
                    tag.as_str(),
                    "textarea",
                ) || str_eq(tag.as_str(), "button") {
                    assert(labelable_pred(tree)(d@[i as int]));
                    proof {
                        lemma_first_index_is(d@, labelable_pred(tree), i as int);
                    }
                    return Some(child_id);
                }
            },
            None => {},
        }
        i = i + 1;
    }
    proof {
        lemma_first_index_none(d@, labelable_pred(tree));
    }
    None
}

/// Find the control associated with a `<label>` element: the element named by a
/// non-empty `for` attribute, otherwise the first labelable descendant.
pub fn find_label_control(tree: &DomTree, label_id: NodeId) -> (r: Option<NodeId>)
    requires
        tree.wf(),
        tree.valid(label_id),
    ensures
        r == spec_label_control(tree, label_id),
{
    match tree.get_attribute(label_id, "for") {
        Some(for_id) => {
            if !for_id.as_str().is_empty() {
                return tree.get_element_by_id(for_id.as_str());
            }
        },
        None => {},
    }
    find_first_labelable_descendant(tree, label_id)
}

/// Some attribute is `type="radio"` (value compared ASCII case-insensitively).
fn is_radio_input_attrs(tree: &DomTree, n: NodeId) -> (r: bool)
    requires
        tree.valid(n),
    ensures
        r == has_radio_type(tree.attrs(n)),
{
    let attrs = tree.attributes(n);
    let ghost av = tree.attrs(n);
    let mut i: usize = 0;
    while i < attrs.len()
        invariant
            av == tree.attrs(n),
            attrs@.map_values(|a: crate::dom::DomAttribute| a@) == av,
            i <= attrs.len(),
            forall|j: int|
                0 <= j < i ==> !((#[trigger] av[j]).local == "type"@ && eq_ic(av[j].value, "radio"@)),
        decreases attrs.len() - i,
    {
        assert(av[i as int] == attrs@[i as int]@);
        if str_eq(attrs[i].local_name.as_str(), "type") && eq_ignore_ascii_case(
            attrs[i].value.as_str(),
            "radio",
        ) {
            return true;
        }
        i = i + 1;
    }
    false
}

/// The node is a radio input of the group `radio_name`.
fn is_radio_in_group(tree: &DomTree, c: NodeId, radio_name: &str) -> (r: bool)
    requires
        tree.valid(c),
    ensures
        r == radio_pred(tree, radio_name@)(c),
{
    match tree.tag_name(c) {
        Some(t) => {
            if eq_ignore_ascii_case(t.as_str(), "input") {
                let is_radio = is_radio_input_attrs(tree, c);
                let name_ok = match tree.local_attribute(c, "name") {
                    Some(v) => str_eq(v.as_str(), radio_name),
                    None => radio_name.is_empty(),
                };
                is_radio && name_ok
            } else {
                false
            }
        },
        None => false,
    }
}

/// Collect, in tree order, the radio inputs of group `radio_name` under `current`,
/// skipping the subtree of `exclude`.
pub fn collect_radio_siblings(
    tree: &DomTree,
    current: NodeId,
    exclude: NodeId,
    radio_name: &str,
    result: &mut Vec<NodeId>,
)
    requires
        tree.wf(),
        tree.valid(current),
    ensures
        final(result)@ == old(result)@ + tree.descendants_skipping(current, exclude).filter(
            radio_pred(tree, radio_name@),
        ),
        forall|i: int| 0 <= i < old(result).len() ==> #[trigger] final(result)@[i] == old(result)@[i],
{
    let d = tree.collect_descendants_skipping(current, exclude);
    let ghost start = result@;
    let mut i: usize = 0;
    while i < d.len()
        invariant
            d@ == tree.descendants_skipping(current, exclude),
            forall|k: int| 0 <= k < d.len() ==> tree.valid(#[trigger] d@[k]),
            i <= d.len(),
            result@ == start + d@.take(i as int).filter(radio_pred(tree, radio_name@)),
        decreases d.len() - i,
    {
        let c = d[i];
        assert(d@.take(i as int + 1).drop_last() =~= d@.take(i as int));
        reveal_with_fuel(Seq::filter, 1);
        if is_radio_in_group(tree, c, radio_name) {
            result.push(c);
        }
        i = i + 1;
        assert(result@ =~= start + d@.take(i as int).filter(radio_pred(tree, radio_name@)));
    }
    assert(d@.take(d.len() as int) =~= d@);
}

/// Find all radio inputs in the same radio group (same name attribute) under the
/// same form ancestor (or document root), excluding the given node.
pub fn find_radio_group_siblings(tree: &DomTree, node_id: NodeId, radio_name: &str) -> (r: Vec<
    NodeId,
>)
    requires
        tree.wf(),
        tree.valid(node_id),
    ensures
        r@ == spec_radio_group(tree, node_id, radio_name@),
        forall|i: int| 0 <= i < r.len() ==> tree.valid(#[trigger] r@[i]),
{
    let group_root = match find_ancestor_form(tree, node_id) {
        Some(f) => f,
        None => tree.document(),
    };
    let mut result: Vec<NodeId> = Vec::new();
    collect_radio_siblings(tree, group_root, node_id, radio_name, &mut result);
    assert(result@ =~= spec_radio_group(tree, node_id, radio_name@));
    proof {
        tree.lemma_children_valid(group_root);
        tree.lemma_forest_valid(
            tree.children_of(group_root),
            tree.nodes.len() as nat,
            Some(node_id),
        );
        let d = tree.descendants_skipping(group_root, node_id);
        assert forall|i: int| 0 <= i < result.len() implies tree.valid(#[trigger] result@[i]) by {
            lemma_filter_member(d, radio_pred(tree, radio_name@), i);
        }
    }
    result
}

/// An element of a filtered sequence is an element of the unfiltered one.
proof fn lemma_filter_member(s: Seq<NodeId>, p: spec_fn(NodeId) -> bool, i: int)
    requires
        0 <= i < s.filter(p).len(),
    ensures
        exists|k: int| 0 <= k < s.len() && s[k] == s.filter(p)[i],
{
    let x = s.filter(p)[i];
    assert(s.filter(p).contains(x));
    s.lemma_filter_contains_rev(p, x);
}

/// Run legacy pre-activation behavior.
/// For checkbox: save checked state, toggle it.
/// For radio: save group state, check this radio, uncheck siblings.
pub fn run_legacy_pre_activation(tree: &mut DomTree, node_id: NodeId) -> (r: SavedActivationState)
    requires
        old(tree).wf(),
        old(tree).valid(node_id),
    ensures
        final(tree).wf(),
        pre_activation_post(old(tree), final(tree), node_id, r),
{
    let ghost t0 = *tree;
    let tag = match tree.tag_name(node_id) {
        Some(t) => to_lowercase(t.as_str()),
        None => {
            return SavedActivationState::Unchanged;
        },
    };
    if !str_eq(tag.as_str(), "input") {
        return SavedActivationState::Unchanged;
    }
    let input_type = input_type(tree, node_id, "");
    proof {
        assert(Seq::<char>::empty() =~= ""@) by {
            reveal_strlit("");
        }
    }
    if str_eq(input_type.as_str(), "checkbox") {
        let was_checked = tree.has_attribute(node_id, "checked");
        let mut ops: Vec<(NodeId, bool)> = Vec::new();
        ops.push((node_id, !was_checked));
        apply_checked_ops(tree, &ops);
        assert(ops@ =~= seq![(node_id, !was_checked)]);
        SavedActivationState::Checkbox { was_checked }
    } else if str_eq(input_type.as_str(), "radio") {
        let was_checked = tree.has_attribute(node_id, "checked");
        let radio_name = match tree.get_attribute(node_id, "name") {
            Some(v) => v,
            None => String::new(),
        };
        let siblings = find_radio_group_siblings(tree, node_id, radio_name.as_str());
        let mut saved_siblings: Vec<(NodeId, bool)> = Vec::new();
        let mut ops: Vec<(NodeId, bool)> = Vec::new();
        ops.push((node_id, true));
        let mut i: usize = 0;
        while i < siblings.len()
            invariant
                *tree == t0,
                tree.wf(),
                forall|k: int| 0 <= k < siblings.len() ==> tree.valid(#[trigger] siblings@[k]),
                tree.valid(node_id),
                i <= siblings.len(),
                saved_siblings@ == siblings@.take(i as int).map_values(
                    |s: NodeId| (s, t0.has_attr(s, "checked"@)),
                ),
                ops@ == seq![(node_id, true)] + siblings@.take(i as int).map_values(
                    |s: NodeId| (s, false),
                ),
            decreases siblings.len() - i,
        {
            let sid = siblings[i];
            let checked = tree.has_attribute(sid, "checked");
            saved_siblings.push((sid, checked));
            ops.push((sid, false));
            i = i + 1;
            assert(saved_siblings@ =~= siblings@.take(i as int).map_values(
                |s: NodeId| (s, t0.has_attr(s, "checked"@)),
            ));
            assert(ops@ =~= seq![(node_id, true)] + siblings@.take(i as int).map_values(
                |s: NodeId| (s, false),
            ));
        }
        assert(siblings@.take(siblings.len() as int) =~= siblings@);
        assert forall|k: int| 0 <= k < ops.len() implies tree.valid(#[trigger] ops@[k].0) by {
            if k > 0 {
                assert(ops@[k].0 == siblings@[k - 1]);
            }
        }
        apply_checked_ops(tree, &ops);
        SavedActivationState::Radio { node_id, was_checked, siblings: saved_siblings }
    } else {
        SavedActivationState::Unchanged
    }
}

/// Restore activation state (undo pre-activation on cancel): set or remove
/// `checked` on each remembered node as it was.
pub fn restore_activation(tree: &mut DomTree, node_id: NodeId, saved: SavedActivationState)
    requires
        old(tree).wf(),
        forall|i: int|
            0 <= i < restore_ops(node_id, saved).len() ==> old(tree).valid(
                #[trigger] restore_ops(node_id, saved)[i].0,
            ),
    ensures
        final(tree).wf(),
        applied_checked(old(tree), final(tree), restore_ops(node_id, saved)),
{
    let ghost ops_spec = restore_ops(node_id, saved);
    let mut ops: Vec<(NodeId, bool)> = Vec::new();
    match saved {
        SavedActivationState::Checkbox { was_checked } => {
            ops.push((node_id, was_checked));
        },
        SavedActivationState::Radio { node_id: rid, was_checked, siblings } => {
            ops.push((rid, was_checked));
            let mut i: usize = 0;
            while i < siblings.len()
                invariant
                    i <= siblings.len(),
                    ops@ == seq![(rid, was_checked)] + siblings@.take(i as int),
                decreases siblings.len() - i,
            {
                ops.push(siblings[i]);
                i = i + 1;
                assert(ops@ =~= seq![(rid, was_checked)] + siblings@.take(i as int));
            }
            assert(siblings@.take(siblings.len() as int) =~= siblings@);
        },
        SavedActivationState::Unchanged => {},
    }
    assert(ops@ =~= ops_spec);
    apply_checked_ops(tree, &ops);
}

} // verus!

verus! {

/// What the post-activation step asks the host to do.
pub enum PostActivationAction {
    /// Fire `input`, then `change`, at the node (bubbling, not cancelable).
    FireInputAndChange(NodeId),
    /// Fire a non-bubbling, cancelable `submit` at the form.
    SubmitForm(NodeId),
    /// Fire a non-bubbling, cancelable `reset` at the form.
    ResetForm(NodeId),
    /// Call `click()` on the label's control.
    ClickControl(NodeId),
    /// Set `location.hash` to the fragment (the `href` without its leading `#`).
    NavigateToFragment(String),
    /// The `open` attribute of the details element was toggled; fire `toggle` at it.
    FireToggle(NodeId),
    /// Nothing to do.
    Nothing,
}

/// `PostActivationAction` with its string taken by view.
pub enum PostActivationView {
    FireInputAndChange(NodeId),
    SubmitForm(NodeId),
    ResetForm(NodeId),
    ClickControl(NodeId),
    NavigateToFragment(Seq<char>),
    FireToggle(NodeId),
    Nothing,
}

impl View for PostActivationAction {
    type V = PostActivationView;

    open spec fn view(&self) -> PostActivationView {
        match self {
            PostActivationAction::FireInputAndChange(n) => PostActivationView::FireInputAndChange(*n),
            PostActivationAction::SubmitForm(n) => PostActivationView::SubmitForm(*n),
            PostActivationAction::ResetForm(n) => PostActivationView::ResetForm(*n),
            PostActivationAction::ClickControl(n) => PostActivationView::ClickControl(*n),
            PostActivationAction::NavigateToFragment(s) => PostActivationView::NavigateToFragment(s@),
            PostActivationAction::FireToggle(n) => PostActivationView::FireToggle(*n),
            PostActivationAction::Nothing => PostActivationView::Nothing,
        }
    }
}

/// Submit to the connected ancestor form, if there is one.
pub open spec fn form_action(tree: &DomTree, n: NodeId, submit: bool) -> PostActivationView {
    match spec_ancestor_form(tree, n) {
        Some(f) => if submit {
            PostActivationView::SubmitForm(f)
        } else {
            PostActivationView::ResetForm(f)
        },
        None => PostActivationView::Nothing,
    }
}

/// The post-activation behavior of node `n` (after a dispatch that was not canceled):
/// checkbox and radio inputs fire `input` and `change`; submit and image inputs,
/// and buttons of type submit (the default), submit their form; reset inputs
/// and buttons reset it; a label clicks its control; a link whose `href` starts
/// with `#` navigates to that fragment; details toggles `open` and fires `toggle`.
pub open spec fn spec_post_activation(tree: &DomTree, n: NodeId) -> PostActivationView {
    if !tree.is_element(n) {
        PostActivationView::Nothing
    } else {
        let t = lower_tag(tree, n);
        let it = input_type_or(tree, n, Seq::empty());
        if t == "input"@ {
            if it == "checkbox"@ || it == "radio"@ {
                PostActivationView::FireInputAndChange(n)
            } else if it == "submit"@ || it == "image"@ {
                form_action(tree, n, true)
            } else if it == "reset"@ {
                form_action(tree, n, false)
            } else {
                PostActivationView::Nothing
            }
        } else if t == "button"@ {
            let bt = if it.len() == 0 {
                "submit"@
            } else {
                it
            };
            if bt == "submit"@ {
                form_action(tree, n, true)
            } else if bt == "reset"@ {
                form_action(tree, n, false)
            } else {
                PostActivationView::Nothing
            }
        } else if t == "label"@ {
            match spec_label_control(tree, n) {
                Some(c) => PostActivationView::ClickControl(c),
                None => PostActivationView::Nothing,
            }
        } else if t == "a"@ || t == "area"@ {
            let href = match tree.get_attr(n, "href"@) {
                Some(v) => v,
                None => Seq::empty(),
            };
            if href.len() > 0 && href[0] == '#' {
                PostActivationView::NavigateToFragment(href.drop_first())
            } else {
                PostActivationView::Nothing
            }
        } else if t == "details"@ {
            PostActivationView::FireToggle(n)
        } else {
            PostActivationView::Nothing
        }
    }
}

/// Run post-activation behavior after successful dispatch (not canceled): toggle
/// the `open` attribute of a details element and tell the host what to fire.
pub fn run_post_activation(tree: &mut DomTree, node_id: NodeId) -> (r: PostActivationAction)
    requires
        old(tree).wf(),
        old(tree).valid(node_id),
    ensures
        final(tree).wf(),
        r@ == spec_post_activation(old(tree), node_id),
        r is FireToggle ==> old(tree).updated_attrs(
            final(tree),
            node_id,
            if old(tree).has_attr(node_id, "open"@) {
                attrs_remove(old(tree).attrs(node_id), "open"@)
            } else {
                attrs_set(old(tree).attrs(node_id), "open"@, Seq::empty())
            },
        ),
        !(r is FireToggle) ==> *final(tree) == *old(tree),
{
    let tag = match tree.tag_name(node_id) {
        Some(t) => to_lowercase(t.as_str()),
        None => {
            return PostActivationAction::Nothing;
        },
    };
    let input_type = input_type(tree, node_id, "");
    proof {
        assert(Seq::<char>::empty() =~= ""@) by {
            reveal_strlit("");
        }
    }
    if str_eq(tag.as_str(), "input") {
        if str_eq(input_type.as_str(), "checkbox") || str_eq(input_type.as_str(), "radio") {
            PostActivationAction::FireInputAndChange(node_id)
        } else if str_eq(input_type.as_str(), "submit") || str_eq(input_type.as_str(), "image") {
            match find_ancestor_form(tree, node_id) {
                Some(f) => PostActivationAction::SubmitForm(f),
                None => PostActivationAction::Nothing,
            }
        } else if str_eq(input_type.as_str(), "reset") {
            match find_ancestor_form(tree, node_id) {
                Some(f) => PostActivationAction::ResetForm(f),
                None => PostActivationAction::Nothing,
            }
        } else {
            PostActivationAction::Nothing
        }
    } else if str_eq(tag.as_str(), "button") {
        let button_type = if input_type.as_str().is_empty() {
            owned("submit")
        } else {
            input_type
        };
        if str_eq(button_type.as_str(), "submit") {
            match find_ancestor_form(tree, node_id) {
                Some(f) => PostActivationAction::SubmitForm(f),
                None => PostActivationAction::Nothing,
            }
        } else if str_eq(button_type.as_str(), "reset") {
            match find_ancestor_form(tree, node_id) {
                Some(f) => PostActivationAction::ResetForm(f),
                None => PostActivationAction::Nothing,
            }
        } else {
            PostActivationAction::Nothing
        }
    } else if str_eq(tag.as_str(), "label") {
        match find_label_control(tree, node_id) {
            Some(c) => PostActivationAction::ClickControl(c),
            None => PostActivationAction::Nothing,
        }
    } else if str_eq(tag.as_str(), "a") || str_eq(tag.as_str(), "area") {
        let href = match tree.get_attribute(node_id, "href") {
            Some(v) => v,
            None => String::new(),
        };
        let chars = crate::text::chars_of(href.as_str());
        if chars.len() > 0 && chars[0] == '#' {
            let fragment = crate::text::string_of_range(&chars, 1, chars.len());
            assert(chars@.subrange(1, chars@.len() as int) =~= chars@.drop_first());
            PostActivationAction::NavigateToFragment(fragment)
        } else {
            PostActivationAction::Nothing
        }
    } else if str_eq(tag.as_str(), "details") {
        let has_open = tree.has_attribute(node_id, "open");
        if has_open {
            tree.remove_attribute(node_id, "open");
        } else {
            tree.set_attribute(node_id, "open", "");
            proof {
                reveal_strlit("");
            }
        }
        PostActivationAction::FireToggle(node_id)
    } else {
        PostActivationAction::Nothing
    }
}

/// A `button` without a `type` attribute is a submit button: its activation
/// submits its connected ancestor form, and does nothing without one.
pub proof fn lemma_button_defaults_to_submit(tree: &DomTree, n: NodeId)
    requires
        tree.is_element(n),
        lower_tag(tree, n) == "button"@,
        tree.local_attr(n, "type"@) is None,
    ensures
        spec_post_activation(tree, n) == match spec_ancestor_form(tree, n) {
            Some(f) => PostActivationView::SubmitForm(f),
            None => PostActivationView::Nothing,
        },
{
    reveal_strlit("button");
    reveal_strlit("input");
    reveal_strlit("submit");
    assert("button"@ != "input"@) by {
        assert("button"@[0] != "input"@[0]);
    }
}

/// What activation does by kind of element: submit controls (`input` of type
/// submit or image, `button` of type submit or without a type) submit their
/// connected ancestor form and reset controls reset it, doing nothing without
/// one; checkbox and radio inputs fire `input` and `change` at themselves; a
/// label clicks its control; `details` toggles; a link whose `href` starts
/// with `#` navigates to the rest of it.
pub proof fn lemma_post_activation_by_kind(tree: &DomTree, n: NodeId)
    requires
        tree.is_element(n),
    ensures
        ({
            let t = lower_tag(tree, n);
            let it = input_type_or(tree, n, Seq::empty());
            let form = spec_ancestor_form(tree, n);
            let r = spec_post_activation(tree, n);
            &&& (t == "input"@ && (it == "submit"@ || it == "image"@)) || (t == "button"@ && (it == "submit"@
                || it.len() == 0)) ==> r == match form {
                Some(f) => PostActivationView::SubmitForm(f),
                None => PostActivationView::Nothing,
            }
            &&& (t == "input"@ || t == "button"@) && it == "reset"@ ==> r == match form {
                Some(f) => PostActivationView::ResetForm(f),
                None => PostActivationView::Nothing,
            }
            &&& t == "input"@ && (it == "checkbox"@ || it == "radio"@) ==> r
                == PostActivationView::FireInputAndChange(n)
            &&& t == "label"@ ==> r == match spec_label_control(tree, n) {
                Some(c) => PostActivationView::ClickControl(c),
                None => PostActivationView::Nothing,
            }
            &&& t == "details"@ ==> r == PostActivationView::FireToggle(n)
            &&& (t == "a"@ || t == "area"@) && (tree.get_attr(n, "href"@) matches Some(h) && h.len() > 0
                && h[0] == '#') ==> r == PostActivationView::NavigateToFragment(
                tree.get_attr(n, "href"@)->0.drop_first(),
            )
        }),
{
    reveal_strlit("input");
    reveal_strlit("button");
    reveal_strlit("label");
    reveal_strlit("details");
    reveal_strlit("a");
    reveal_strlit("area");
    reveal_strlit("submit");
    reveal_strlit("image");
    reveal_strlit("reset");
    reveal_strlit("checkbox");
    reveal_strlit("radio");
    assert("input"@[0] != "button"@[0] && "input"@[0] != "label"@[0] && "input"@[0] != "details"@[0]
        && "input"@[0] != "a"@[0] && "input"@[0] != "area"@[0]);
    assert("button"@[0] != "label"@[0] && "button"@[0] != "details"@[0] && "button"@[0] != "a"@[0]
        && "button"@[0] != "area"@[0]);
    assert("label"@[0] != "details"@[0] && "label"@[0] != "a"@[0] && "label"@[0] != "area"@[0]);
    assert("details"@[0] != "a"@[0] && "details"@[0] != "area"@[0]);
    assert("submit"@[0] != "reset"@[0] && "submit"@[0] != "checkbox"@[0] && "submit"@[0] != "radio"@[0]
        && "submit"@[0] != "image"@[0]);
    assert("image"@[0] != "reset"@[0] && "image"@[0] != "checkbox"@[0] && "image"@[0] != "radio"@[0]);
    assert("reset"@[0] != "checkbox"@[0] && "reset"@[1] != "radio"@[1] && "reset"@.len() != 0);
    assert("checkbox"@[0] != "radio"@[0]);
}

} // verus!
