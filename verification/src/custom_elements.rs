//! `customElements`: the registry of custom element definitions, `define`,
//! `get`, `whenDefined`, the elements a definition upgrades, and which
//! lifecycle callback a custom element receives.
//!
//! Constructors and callbacks are script objects; the registry refers to each
//! by a handle the caller chooses.
use vstd::prelude::*;
use crate::dom::{DomTree, NodeId};
use crate::error::DomError;
use crate::names::is_valid_custom_element_name;
use crate::text::{contains_char, contains_string, first_index, lemma_first_index_is, lemma_first_index_none, str_eq};

verus! {

/// One custom element definition.
pub struct CustomElementDefinition {
    pub name: String,
    pub constructor: u64,
    pub observed_attributes: Vec<String>,
    pub connected_callback: Option<u64>,
    pub disconnected_callback: Option<u64>,
    pub attribute_changed_callback: Option<u64>,
}

/// The registry: definitions in the order they were made, each name once.
pub struct CustomElementRegistry {
    pub definitions: Vec<CustomElementDefinition>,
}

/// Predicate: the definition is for `name`.
pub open spec fn defines(name: Seq<char>) -> spec_fn(CustomElementDefinition) -> bool {
    |d: CustomElementDefinition| d.name@ == name
}

/// A valid custom element name: non-empty and holding a hyphen.
pub open spec fn spec_valid_custom_name(name: Seq<char>) -> bool {
    name.len() > 0 && name.contains('-')
}

impl CustomElementRegistry {
    /// No name is defined twice.
    pub open spec fn wf(&self) -> bool {
        forall|i: int, j: int|
            0 <= i < self.definitions.len() && 0 <= j < self.definitions.len() && i != j ==> (
            #[trigger] self.definitions@[i]).name@ != (#[trigger] self.definitions@[j]).name@
    }

    /// The index of the definition of `name`, or -1.
    pub open spec fn index_of(&self, name: Seq<char>) -> int {
        first_index(self.definitions@, defines(name))
    }

    pub open spec fn is_defined(&self, name: Seq<char>) -> bool {
        self.index_of(name) >= 0
    }

    /// An empty registry.
    pub fn new() -> (r: CustomElementRegistry)
        ensures
            r.wf(),
            r.definitions@.len() == 0,
    {
        CustomElementRegistry { definitions: Vec::new() }
    }

    /// Position of the definition of `name`.
    pub fn find(&self, name: &str) -> (r: Option<usize>)
        ensures
            match r {
                Some(i) => i < self.definitions.len() && self.index_of(name@) == i,
                None => self.index_of(name@) == -1,
            },
    {
        let mut i: usize = 0;
        while i < self.definitions.len()
            invariant
                i <= self.definitions.len(),
                forall|k: int| 0 <= k < i ==> !defines(name@)(#[trigger] self.definitions@[k]),
            decreases self.definitions.len() - i,
        {
            if str_eq(self.definitions[i].name.as_str(), name) {
                proof {
                    lemma_first_index_is(self.definitions@, defines(name@), i as int);
                }
                return Some(i);
            }
            i = i + 1;
        }
        proof {
            lemma_first_index_none(self.definitions@, defines(name@));
        }
        None
    }

    /// `customElements.define(name, constructor)`: an invalid name raises
    /// `SyntaxError`, a name already defined `NotSupportedError`; otherwise the
    /// definition is added.
    pub fn define(&mut self, def: CustomElementDefinition) -> (r: Result<(), DomError>)
        requires
            old(self).wf(),
        ensures
            final(self).wf(),
            !spec_valid_custom_name(def.name@) ==> r == Err::<(), DomError>(DomError::SyntaxError)
                && final(self).definitions@ == old(self).definitions@,
            spec_valid_custom_name(def.name@) && old(self).is_defined(def.name@) ==> r == Err::<
                (),
                DomError,
            >(DomError::NotSupportedError) && final(self).definitions@ == old(self).definitions@,
            spec_valid_custom_name(def.name@) && !old(self).is_defined(def.name@) ==> r is Ok
                && final(self).definitions@ == old(self).definitions@.push(def),
    {
        if !is_valid_custom_element_name(def.name.as_str()) {
            return Err(DomError::SyntaxError);
        }
        if self.find(def.name.as_str()).is_some() {
            return Err(DomError::NotSupportedError);
        }
        proof {
            crate::text::lemma_first_index(self.definitions@, defines(def.name@));
        }
        let ghost before = self.definitions@;
        self.definitions.push(def);
        assert forall|i: int, j: int|
            0 <= i < self.definitions.len() && 0 <= j < self.definitions.len() && i != j implies (
            #[trigger] self.definitions@[i]).name@ != (#[trigger] self.definitions@[j]).name@ by {
            if i == before.len() {
                assert(!defines(def.name@)(before[j]));
            } else if j == before.len() {
                assert(!defines(def.name@)(before[i]));
            } else {
                assert(self.definitions@[i] == before[i]);
                assert(self.definitions@[j] == before[j]);
            }
        }
        Ok(())
    }

    /// `customElements.get(name)`: the constructor of the definition of `name`.
    pub fn get(&self, name: &str) -> (r: Option<u64>)
        ensures
            self.is_defined(name@) ==> r == Some(self.definitions@[self.index_of(name@)].constructor),
            !self.is_defined(name@) ==> r is None,
    {
        match self.find(name) {
            Some(i) => Some(self.definitions[i].constructor),
            None => None,
        }
    }

    /// `customElements.whenDefined(name)`: an invalid name raises `SyntaxError`;
    /// otherwise the promise resolves at once, with the constructor when
    /// `name` is defined.
    pub fn when_defined(&self, name: &str) -> (r: Result<Option<u64>, DomError>)
        ensures
            !spec_valid_custom_name(name@) ==> r == Err::<Option<u64>, DomError>(DomError::SyntaxError),
            spec_valid_custom_name(name@) && self.is_defined(name@) ==> r == Ok::<Option<u64>, DomError>(
                Some(self.definitions@[self.index_of(name@)].constructor),
            ),
            spec_valid_custom_name(name@) && !self.is_defined(name@) ==> r == Ok::<
                Option<u64>,
                DomError,
            >(None),
    {
        if !is_valid_custom_element_name(name) {
            return Err(DomError::SyntaxError);
        }
        Ok(self.get(name))
    }
}

/// Which lifecycle callback a custom element receives.
#[derive(PartialEq, Eq, Structural, Clone, Copy, Debug)]
pub enum Lifecycle {
    Connected,
    Disconnected,
}

/// The element's tag names a custom element: it holds a hyphen.
pub open spec fn custom_tag(tree: &DomTree, n: NodeId) -> Option<Seq<char>> {
    if tree.is_element(n) && tree.tag(n).contains('-') {
        Some(tree.tag(n))
    } else {
        None
    }
}

/// The `connectedCallback` or `disconnectedCallback` that node `n` receives:
/// the callback of the definition of its tag name, when it names a custom
/// element.
pub open spec fn spec_lifecycle_callback(
    reg: &CustomElementRegistry,
    tree: &DomTree,
    n: NodeId,
    kind: Lifecycle,
) -> Option<u64> {
    match custom_tag(tree, n) {
        Some(t) => if reg.is_defined(t) {
            let d = reg.definitions@[reg.index_of(t)];
            match kind {
                Lifecycle::Connected => d.connected_callback,
                Lifecycle::Disconnected => d.disconnected_callback,
            }
        } else {
            None
        },
        None => None,
    }
}

fn custom_tag_of(tree: &DomTree, n: NodeId) -> (r: Option<&String>)
    requires
        tree.valid(n),
    ensures
        match r {
            Some(t) => custom_tag(tree, n) == Some(t@),
            None => custom_tag(tree, n) is None,
        },
{
    match tree.tag_name(n) {
        Some(t) => if contains_char(t.as_str(), '-') {
            Some(t)
        } else {
            None
        },
        None => None,
    }
}

/// The lifecycle callback of kind `kind` that node `n` receives.
pub fn lifecycle_callback(reg: &CustomElementRegistry, tree: &DomTree, n: NodeId, kind: Lifecycle) -> (r:
    Option<u64>)
    requires
        tree.valid(n),
    ensures
        r == spec_lifecycle_callback(reg, tree, n, kind),
{
    match custom_tag_of(tree, n) {
        Some(t) => match reg.find(t.as_str()) {
            Some(i) => match kind {
                Lifecycle::Connected => reg.definitions[i].connected_callback,
                Lifecycle::Disconnected => reg.definitions[i].disconnected_callback,
            },
            None => None,
        },
        None => None,
    }
}

/// The `attributeChangedCallback` that node `n` receives for a change of
/// attribute `attr`: that of the definition of its tag name, when `attr` is
/// one of the definition's observed attributes.
pub open spec fn spec_attribute_changed_callback(
    reg: &CustomElementRegistry,
    tree: &DomTree,
    n: NodeId,
    attr: Seq<char>,
) -> Option<u64> {
    match custom_tag(tree, n) {
        Some(t) => if reg.is_defined(t) {
            let d = reg.definitions@[reg.index_of(t)];
            if d.observed_attributes.deep_view().contains(attr) {
                d.attribute_changed_callback
            } else {
                None
            }
        } else {
            None
        },
        None => None,
    }
}

/// The `attributeChangedCallback` node `n` receives for attribute `attr`.
pub fn attribute_changed_callback(reg: &CustomElementRegistry, tree: &DomTree, n: NodeId, attr: &String) -> (r:
    Option<u64>)
    requires
        tree.valid(n),
    ensures
        r == spec_attribute_changed_callback(reg, tree, n, attr@),
{
    match custom_tag_of(tree, n) {
        Some(t) => match reg.find(t.as_str()) {
            Some(i) => {
                if contains_string(&reg.definitions[i].observed_attributes, attr) {
                    reg.definitions[i].attribute_changed_callback
                } else {
                    None
                }
            },
            None => None,
        },
        None => None,
    }
}

/// Predicate: the node is an element whose tag name is `name`.
pub open spec fn tag_is(tree: &DomTree, name: Seq<char>) -> spec_fn(NodeId) -> bool {
    |m: NodeId| tree.is_element(m) && tree.tag(m) == name
}

/// The elements a new definition of `name` upgrades: those of the document
/// with tag name `name`, in tree order.
pub fn elements_to_upgrade(tree: &DomTree, name: &str) -> (r: Vec<NodeId>)
    requires
        tree.wf(),
    ensures
        r@ == tree.descendants(0).filter(tag_is(tree, name@)),
{
    let d = tree.collect_descendants(0);
    let mut out: Vec<NodeId> = Vec::new();
    let mut i: usize = 0;
    while i < d.len()
        invariant
            d@ == tree.descendants(0),
            forall|k: int| 0 <= k < d.len() ==> tree.valid(#[trigger] d@[k]),
            i <= d.len(),
            out@ == d@.take(i as int).filter(tag_is(tree, name@)),
        decreases d.len() - i,
    {
        assert(d@.take(i as int + 1).drop_last() =~= d@.take(i as int));
        reveal_with_fuel(Seq::filter, 1);
        match tree.tag_name(d[i]) {
            Some(t) => {
                if str_eq(t.as_str(), name) {
                    out.push(d[i]);
                }
            },
            None => {},
        }
        i = i + 1;
    }
    assert(d@.take(d.len() as int) =~= d@);
    out
}

// ---------------------------------------------------------------------------
// Laws
// ---------------------------------------------------------------------------

/// After a successful `define`, the name is defined (so defining it again
/// fails with `NotSupportedError`) and `get` of the name gives its constructor.
pub proof fn lemma_define_then_get(r0: &CustomElementRegistry, r1: &CustomElementRegistry, def: CustomElementDefinition)
    requires
        r0.wf(),
        spec_valid_custom_name(def.name@),
        !r0.is_defined(def.name@),
        r1.definitions@ == r0.definitions@.push(def),
    ensures
        r1.is_defined(def.name@),
        r1.definitions@[r1.index_of(def.name@)].constructor == def.constructor,
{
    let p = defines(def.name@);
    crate::text::lemma_first_index(r0.definitions@, p);
    let a = r1.definitions@;
    assert forall|j: int| 0 <= j < r0.definitions@.len() implies !p(#[trigger] a[j]) by {
        assert(a[j] == r0.definitions@[j]);
    }
    assert(p(a[r0.definitions@.len() as int]));
    lemma_first_index_is(a, p, r0.definitions@.len() as int);
}

} // verus!
