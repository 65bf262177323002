//! Identity of `Attr` objects: `getAttributeNode`, `attributes[i]` and
//! `attributes.getNamedItem` hand out the same `Attr` for the same attribute
//! of the same element. The cache maps an element and a qualified name to the
//! handle of the `Attr` that stands for it; the caller keeps the objects.
use vstd::prelude::*;
use crate::dom::NodeId;
use crate::text::str_eq;

verus! {

/// One cached `Attr`: the element, the attribute's qualified name, the handle.
pub struct AttrCacheEntry {
    pub element: NodeId,
    pub qualified_name: String,
    pub handle: u64,
}

/// The `Attr` identity cache. Later entries win over earlier ones for the
/// same key; `next_handle` is the handle the next new `Attr` gets.
pub struct AttrNodeCache {
    pub entries: Vec<AttrCacheEntry>,
    pub next_handle: u64,
}

/// The cache as plain values: (element, qualified name, handle) entries and
/// the next handle.
pub struct AttrCacheView {
    pub entries: Seq<(NodeId, Seq<char>, u64)>,
    pub next_handle: u64,
}

pub open spec fn entry_view(e: AttrCacheEntry) -> (NodeId, Seq<char>, u64) {
    (e.element, e.qualified_name@, e.handle)
}

impl View for AttrNodeCache {
    type V = AttrCacheView;

    open spec fn view(&self) -> AttrCacheView {
        AttrCacheView { entries: self.entries@.map_values(|e: AttrCacheEntry| entry_view(e)), next_handle: self.next_handle }
    }
}

// ---------------------------------------------------------------------------
// Specifications
// ---------------------------------------------------------------------------

/// The handle cached for `(el, q)`: that of the last entry with this key.
pub open spec fn cached(entries: Seq<(NodeId, Seq<char>, u64)>, el: NodeId, q: Seq<char>) -> Option<u64>
    decreases entries.len(),
{
    if entries.len() == 0 {
        None
    } else if entries.last().0 == el && entries.last().1 == q {
        Some(entries.last().2)
    } else {
        cached(entries.drop_last(), el, q)
    }
}

/// The cache with `(el, q)` bound to handle `h`.
pub open spec fn spec_bind(v: AttrCacheView, el: NodeId, q: Seq<char>, h: u64) -> AttrCacheView {
    AttrCacheView { entries: v.entries.push((el, q, h)), next_handle: v.next_handle }
}

/// The entry does not have key `(el, q)`.
pub open spec fn other_key(el: NodeId, q: Seq<char>) -> spec_fn((NodeId, Seq<char>, u64)) -> bool {
    |e: (NodeId, Seq<char>, u64)| !(e.0 == el && e.1 == q)
}

/// The cache without any binding of `(el, q)`.
pub open spec fn spec_forget(v: AttrCacheView, el: NodeId, q: Seq<char>) -> AttrCacheView {
    AttrCacheView { entries: v.entries.filter(other_key(el, q)), next_handle: v.next_handle }
}

/// The `Attr` for `(el, q)` and the cache after: the cached one, or a new
/// handle that is then cached.
pub open spec fn spec_get_or_create(v: AttrCacheView, el: NodeId, q: Seq<char>) -> (AttrCacheView, u64) {
    match cached(v.entries, el, q) {
        Some(h) => (v, h),
        None => (
            AttrCacheView { entries: v.entries.push((el, q, v.next_handle)), next_handle: (v.next_handle + 1) as u64 },
            v.next_handle,
        ),
    }
}

// ---------------------------------------------------------------------------
// Operations
// ---------------------------------------------------------------------------

impl AttrNodeCache {
    /// An empty cache.
    pub fn new() -> (r: AttrNodeCache)
        ensures
            r@.entries.len() == 0,
            r@.next_handle == 0,
    {
        AttrNodeCache { entries: Vec::new(), next_handle: 0 }
    }

    /// The handle cached for `(el, q)`, if any.
    pub fn lookup(&self, el: NodeId, q: &str) -> (r: Option<u64>)
        ensures
            r == cached(self@.entries, el, q@),
    {
        let ghost v = self@.entries;
        let mut i: usize = self.entries.len();
        assert(v.take(i as int) =~= v);
        while i > 0
            invariant
                i <= self.entries.len(),
                v == self@.entries,
                cached(v, el, q@) == cached(v.take(i as int), el, q@),
            decreases i,
        {
            let e = &self.entries[i - 1];
            assert(v.take(i as int).drop_last() =~= v.take(i as int - 1));
            assert(v.take(i as int).last() == entry_view(*e));
            if e.element == el && str_eq(e.qualified_name.as_str(), q) {
                return Some(e.handle);
            }
            i = i - 1;
        }
        None
    }

    /// A handle no entry was made with yet, for an `Attr` that is not cached.
    pub fn fresh_handle(&mut self) -> (r: u64)
        requires
            old(self).next_handle < u64::MAX,
        ensures
            r == old(self).next_handle,
            final(self)@.entries == old(self)@.entries,
            final(self)@.next_handle == old(self).next_handle + 1,
    {
        let h = self.next_handle;
        self.next_handle = h + 1;
        h
    }

    /// Caches handle `h` for `(el, q)`, in place of any earlier one.
    pub fn bind(&mut self, el: NodeId, q: &str, h: u64)
        ensures
            final(self)@ == spec_bind(old(self)@, el, q@, h),
    {
        let e = AttrCacheEntry { element: el, qualified_name: q.to_string(), handle: h };
        self.entries.push(e);
        assert(self@.entries =~= old(self)@.entries.push((el, q@, h)));
    }

    /// The `Attr` for `(el, q)`: the cached handle, or a new one, cached from
    /// then on.
    pub fn get_or_create(&mut self, el: NodeId, q: &str) -> (r: u64)
        requires
            old(self).next_handle < u64::MAX,
        ensures
            (final(self)@, r) == spec_get_or_create(old(self)@, el, q@),
    {
        match self.lookup(el, q) {
            Some(h) => h,
            None => {
                let h = self.fresh_handle();
                self.bind(el, q, h);
                h
            },
        }
    }

    /// Drops the binding of `(el, q)`.
    pub fn forget(&mut self, el: NodeId, q: &str)
        ensures
            final(self)@ == spec_forget(old(self)@, el, q@),
    {
        let ghost v = old(self)@.entries;
        let ghost p = other_key(el, q@);
        let mut kept: Vec<AttrCacheEntry> = Vec::new();
        let mut i: usize = 0;
        while i < self.entries.len()
            invariant
                i <= self.entries.len(),
                self@ == old(self)@,
                v == self@.entries,
                p == other_key(el, q@),
                kept@.map_values(|e: AttrCacheEntry| entry_view(e)) == v.take(i as int).filter(p),
            decreases self.entries.len() - i,
        {
            assert(v.take(i as int + 1).drop_last() =~= v.take(i as int));
            reveal_with_fuel(Seq::filter, 1);
            let same = self.entries[i].element == el && str_eq(self.entries[i].qualified_name.as_str(), q);
            assert(v.take(i as int + 1).last() == entry_view(self.entries@[i as int]));
            if !same {
                let e = AttrCacheEntry {
                    element: self.entries[i].element,
                    qualified_name: self.entries[i].qualified_name.clone(),
                    handle: self.entries[i].handle,
                };
                kept.push(e);
                assert(kept@.map_values(|e: AttrCacheEntry| entry_view(e)) =~= v.take(i as int + 1).filter(p));
            } else {
                assert(v.take(i as int + 1).filter(p) == v.take(i as int).filter(p));
            }
            i = i + 1;
        }
        assert(v.take(v.len() as int) =~= v);
        self.entries = kept;
    }

    /// `removeNamedItem` of the attribute `(el, q)`: the cached `Attr`, if
    /// any, is handed back and leaves the cache.
    pub fn take(&mut self, el: NodeId, q: &str) -> (r: Option<u64>)
        ensures
            r == cached(old(self)@.entries, el, q@),
            final(self)@ == spec_forget(old(self)@, el, q@),
    {
        let r = self.lookup(el, q);
        self.forget(el, q);
        r
    }

    /// `setAttributeNode` of the `Attr` with handle `h` and name `name` on `el`,
    /// replacing the attribute with qualified name `old_qname` (if any): `h` is
    /// cached for `name`; the `Attr` cached for `name` before is handed back,
    /// and when there was one and `old_qname` differs from `name`, the binding
    /// of `old_qname` is dropped.
    pub fn set_attribute_node(&mut self, el: NodeId, name: &str, h: u64, old_qname: Option<&str>) -> (r: Option<
        u64,
    >)
        ensures
            r == cached(old(self)@.entries, el, name@),
            match (r, old_qname) {
                (Some(_), Some(o)) => if o@ != name@ {
                    final(self)@ == spec_forget(spec_bind(old(self)@, el, name@, h), el, o@)
                } else {
                    final(self)@ == spec_bind(old(self)@, el, name@, h)
                },
                _ => final(self)@ == spec_bind(old(self)@, el, name@, h),
            },
    {
        let before = self.lookup(el, name);
        self.bind(el, name, h);
        match (before, old_qname) {
            (Some(_), Some(o)) => {
                if !str_eq(o, name) {
                    self.forget(el, o);
                }
            },
            _ => {},
        }
        before
    }
}

// ---------------------------------------------------------------------------
// Laws
// ---------------------------------------------------------------------------

/// Binding `(el, q)` makes it read back the handle and leaves other keys.
pub proof fn lemma_cached_after_bind(v: AttrCacheView, el: NodeId, q: Seq<char>, h: u64, el2: NodeId, q2: Seq<char>)
    ensures
        cached(spec_bind(v, el, q, h).entries, el, q) == Some(h),
        !(el2 == el && q2 == q) ==> cached(spec_bind(v, el, q, h).entries, el2, q2) == cached(v.entries, el2, q2),
{
    assert(spec_bind(v, el, q, h).entries.drop_last() =~= v.entries);
}

/// Forgetting `(el, q)` leaves it unbound and other keys as they were.
pub proof fn lemma_cached_after_forget(v: AttrCacheView, el: NodeId, q: Seq<char>, el2: NodeId, q2: Seq<char>)
    ensures
        cached(spec_forget(v, el, q).entries, el, q) is None,
        !(el2 == el && q2 == q) ==> cached(spec_forget(v, el, q).entries, el2, q2) == cached(v.entries, el2, q2),
    decreases v.entries.len(),
{
    let s = v.entries;
    let p = other_key(el, q);
    if s.len() > 0 {
        let w = AttrCacheView { entries: s.drop_last(), next_handle: v.next_handle };
        lemma_cached_after_forget(w, el, q, el2, q2);
        reveal_with_fuel(Seq::filter, 1);
        assert(s.filter(p) == if p(s.last()) {
            s.drop_last().filter(p).push(s.last())
        } else {
            s.drop_last().filter(p)
        });
        if p(s.last()) {
            assert(s.drop_last().filter(p).push(s.last()).drop_last() =~= s.drop_last().filter(p));
        }
    } else {
        assert(s.filter(p) =~= Seq::<(NodeId, Seq<char>, u64)>::empty());
    }
}

/// The same attribute gets the same `Attr` every time: asking again hands
/// back the handle the first request gave and changes nothing.
pub proof fn lemma_get_or_create_identity(v: AttrCacheView, el: NodeId, q: Seq<char>)
    ensures
        spec_get_or_create(spec_get_or_create(v, el, q).0, el, q) == spec_get_or_create(v, el, q),
{
    if cached(v.entries, el, q) is None {
        lemma_cached_after_bind(v, el, q, v.next_handle, el, q);
    }
}

/// Asking for the `Attr` of one attribute leaves the `Attr` cached for every
/// other attribute as it was.
pub proof fn lemma_get_or_create_keeps_others(v: AttrCacheView, el: NodeId, q: Seq<char>, el2: NodeId, q2: Seq<char>)
    requires
        !(el2 == el && q2 == q),
    ensures
        cached(spec_get_or_create(v, el, q).0.entries, el2, q2) == cached(v.entries, el2, q2),
{
    lemma_cached_after_bind(v, el, q, v.next_handle, el2, q2);
}

/// After `removeNamedItem` hands back the cached `Attr`, a new request for the
/// attribute gets a new `Attr`.
pub proof fn lemma_take_then_new(v: AttrCacheView, el: NodeId, q: Seq<char>)
    ensures
        spec_get_or_create(spec_forget(v, el, q), el, q).1 == v.next_handle,
{
    lemma_cached_after_forget(v, el, q, el, q);
}

} // verus!
