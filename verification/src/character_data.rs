//! `CharacterData` on text, CDATA section, comment and processing-instruction
//! nodes: `data`, `length`, `appendData`, `deleteData`, `insertData`,
//! `replaceData`, `substringData`; and `splitText` and `wholeText` on text
//! nodes. Lengths, offsets and counts count UTF-16 code units; strings hold
//! Unicode scalar values, so a range that cuts a surrogate pair gives U+FFFD
//! for the half it holds.
use vstd::prelude::*;
use crate::dom::{DomTree, NodeData, NodeId};
use crate::error::DomError;
use crate::text::{chars_of, extend_chars, first_index, owned, string_of};
use crate::utf16::{decode16, decode_utf16_range, encode_utf16, lemma_decode_utf16, lemma_decode16_units, lemma_utf16_concat, push_units, utf16};

verus! {

// ---------------------------------------------------------------------------
// Arguments
// ---------------------------------------------------------------------------

/// WebIDL `unsigned long` conversion of an integer: its remainder modulo 2^32.
pub open spec fn unsigned_long(n: int) -> int {
    n % 0x1_0000_0000
}

/// The `unsigned long` an integer argument converts to.
pub fn to_unsigned_long(n: i64) -> (r: u32)
    ensures
        r == unsigned_long(n as int),
{
    let m: i64 = 0x1_0000_0000;
    if n >= 0 {
        let r: i64 = n % m;
        assert(r == n % m);
        r as u32
    } else {
        let k: i64 = -(n + 1);
        let q: i64 = k % m;
        let r: i64 = m - 1 - q;
        assert(r == (n as int) % 0x1_0000_0000) by (nonlinear_arith)
            requires
                n < 0,
                k == -(n + 1),
                q == k % m,
                m == 0x1_0000_0000,
                r == m - 1 - q,
        {
            let d = k / m;
            assert(k == d * m + q);
            assert(n == (-d - 1) * m + r);
            assert(0 <= r < m);
        }
        r as u32
    }
}

// ---------------------------------------------------------------------------
// Specifications
// ---------------------------------------------------------------------------

/// The length of character data `d`: its number of UTF-16 code units.
pub open spec fn data_length(d: Seq<char>) -> int {
    utf16(d).len() as int
}

/// The end of the range that `count` units from `offset` cover in `len`
/// units, clamped to `len`.
pub open spec fn range_end(len: int, offset: int, count: int) -> int {
    if offset + count > len {
        len
    } else {
        offset + count
    }
}

/// `substringData(offset, count)`: `IndexSizeError` past the end, else what
/// the code units from `offset` on, at most `count` of them, decode to.
pub open spec fn substring_of(d: Seq<char>, offset: int, count: int) -> Result<Seq<char>, DomError> {
    let u = utf16(d);
    if offset > u.len() {
        Err(DomError::IndexSizeError)
    } else {
        Ok(decode16(u.subrange(offset, range_end(u.len() as int, offset, count))))
    }
}

/// `replaceData(offset, count, data)` on data `d` (with `offset` at most its
/// length): the covered code units are replaced by those of `data`.
pub open spec fn replaced(d: Seq<char>, offset: int, count: int, data: Seq<char>) -> Seq<char> {
    let u = utf16(d);
    decode16(u.take(offset) + utf16(data) + u.skip(range_end(u.len() as int, offset, count)))
}

// ---------------------------------------------------------------------------
// Reading
// ---------------------------------------------------------------------------

/// The node is a text, CDATA section, comment or processing-instruction node.
pub fn is_character_data(tree: &DomTree, n: NodeId) -> (r: bool)
    requires
        tree.valid(n),
    ensures
        r == tree.is_character_data(n),
{
    match &tree.get_node(n).data {
        NodeData::Text { .. } => true,
        NodeData::CDATASection { .. } => true,
        NodeData::Comment { .. } => true,
        NodeData::ProcessingInstruction { .. } => true,
        _ => false,
    }
}

/// `data` getter: the node's character data; nothing for other nodes.
pub fn character_data_get(tree: &DomTree, n: NodeId) -> (r: Option<String>)
    requires
        tree.valid(n),
    ensures
        match r {
            Some(d) => tree.is_character_data(n) && d@ == tree.char_data(n),
            None => !tree.is_character_data(n),
        },
{
    match &tree.get_node(n).data {
        NodeData::Text { content } => Some(content.clone()),
        NodeData::CDATASection { content } => Some(content.clone()),
        NodeData::Comment { content } => Some(content.clone()),
        NodeData::ProcessingInstruction { content, .. } => Some(content.clone()),
        _ => None,
    }
}

fn data_chars(tree: &DomTree, n: NodeId) -> (r: Vec<char>)
    requires
        tree.valid(n),
    ensures
        r@ == tree.char_data(n),
{
    match &tree.get_node(n).data {
        NodeData::Text { content } => chars_of(content.as_str()),
        NodeData::CDATASection { content } => chars_of(content.as_str()),
        NodeData::Comment { content } => chars_of(content.as_str()),
        NodeData::ProcessingInstruction { content, .. } => chars_of(content.as_str()),
        _ => Vec::new(),
    }
}

fn data_units(tree: &DomTree, n: NodeId) -> (r: Vec<u16>)
    requires
        tree.valid(n),
    ensures
        r@ == utf16(tree.char_data(n)),
{
    let v = data_chars(tree, n);
    encode_utf16(&v)
}

/// `length`: the number of UTF-16 code units of the node's data (0 for other
/// nodes).
pub fn character_data_length(tree: &DomTree, n: NodeId) -> (r: usize)
    requires
        tree.valid(n),
    ensures
        r == data_length(tree.char_data(n)),
{
    data_units(tree, n).len()
}

/// `substringData(offset, count)`.
pub fn substring_data(tree: &DomTree, n: NodeId, offset: usize, count: usize) -> (r: Result<String, DomError>)
    requires
        tree.valid(n),
    ensures
        match r {
            Ok(s) => substring_of(tree.char_data(n), offset as int, count as int) == Ok::<Seq<char>, DomError>(s@),
            Err(e) => substring_of(tree.char_data(n), offset as int, count as int) == Err::<Seq<char>, DomError>(e),
        },
{
    let u = data_units(tree, n);
    if offset > u.len() {
        return Err(DomError::IndexSizeError);
    }
    let end = if count > u.len() - offset {
        u.len()
    } else {
        offset + count
    };
    let v = decode_utf16_range(&u, offset, end);
    Ok(string_of(&v))
}

// ---------------------------------------------------------------------------
// Writing
// ---------------------------------------------------------------------------

/// `data` setter: replaces the character data; other nodes are left alone.
pub fn set_data(tree: &mut DomTree, n: NodeId, data: &str)
    requires
        old(tree).wf(),
        old(tree).valid(n),
    ensures
        final(tree).wf(),
        old(tree).is_character_data(n) ==> old(tree).with_char_data(final(tree), n, data@),
        !old(tree).is_character_data(n) ==> *final(tree) == *old(tree),
{
    if is_character_data(tree, n) {
        tree.set_character_data(n, owned(data));
    }
}

/// `appendData(data)`: appends to the character data.
pub fn append_data(tree: &mut DomTree, n: NodeId, data: &str)
    requires
        old(tree).wf(),
        old(tree).valid(n),
    ensures
        final(tree).wf(),
        old(tree).is_character_data(n) ==> old(tree).with_char_data(
            final(tree),
            n,
            old(tree).char_data(n) + data@,
        ),
        !old(tree).is_character_data(n) ==> *final(tree) == *old(tree),
{
    if is_character_data(tree, n) {
        let mut v = data_chars(tree, n);
        let w = chars_of(data);
        extend_chars(&mut v, &w);
        tree.set_character_data(n, string_of(&v));
    }
}

/// `replaceData(offset, count, data)`: `IndexSizeError` when `offset` is past
/// the end; otherwise the code units from `offset`, at most `count` of them,
/// are replaced by those of `data`. Other nodes are left alone.
pub fn replace_data(tree: &mut DomTree, n: NodeId, offset: usize, count: usize, data: &str) -> (r: Result<
    (),
    DomError,
>)
    requires
        old(tree).wf(),
        old(tree).valid(n),
    ensures
        final(tree).wf(),
        !old(tree).is_character_data(n) ==> r is Ok && *final(tree) == *old(tree),
        old(tree).is_character_data(n) && offset > data_length(old(tree).char_data(n)) ==> r == Err::<(), DomError>(
            DomError::IndexSizeError,
        ) && *final(tree) == *old(tree),
        old(tree).is_character_data(n) && offset <= data_length(old(tree).char_data(n)) ==> r is Ok
            && old(tree).with_char_data(
            final(tree),
            n,
            replaced(old(tree).char_data(n), offset as int, count as int, data@),
        ),
{
    if !is_character_data(tree, n) {
        return Ok(());
    }
    let u = data_units(tree, n);
    if offset > u.len() {
        return Err(DomError::IndexSizeError);
    }
    let end = if count > u.len() - offset {
        u.len()
    } else {
        offset + count
    };
    let d = encode_utf16(&chars_of(data));
    let mut w: Vec<u16> = Vec::new();
    push_units(&mut w, &u, 0, offset);
    push_units(&mut w, &d, 0, d.len());
    push_units(&mut w, &u, end, u.len());
    assert(w@ =~= u@.take(offset as int) + d@ + u@.skip(end as int));
    let out = decode_utf16_range(&w, 0, w.len());
    assert(w@.subrange(0, w@.len() as int) =~= w@);
    tree.set_character_data(n, string_of(&out));
    Ok(())
}

/// `deleteData(offset, count)`: `replaceData(offset, count, "")`.
pub fn delete_data(tree: &mut DomTree, n: NodeId, offset: usize, count: usize) -> (r: Result<(), DomError>)
    requires
        old(tree).wf(),
        old(tree).valid(n),
    ensures
        final(tree).wf(),
        !old(tree).is_character_data(n) ==> r is Ok && *final(tree) == *old(tree),
        old(tree).is_character_data(n) && offset > data_length(old(tree).char_data(n)) ==> r == Err::<(), DomError>(
            DomError::IndexSizeError,
        ) && *final(tree) == *old(tree),
        old(tree).is_character_data(n) && offset <= data_length(old(tree).char_data(n)) ==> r is Ok
            && old(tree).with_char_data(
            final(tree),
            n,
            replaced(old(tree).char_data(n), offset as int, count as int, Seq::empty()),
        ),
{
    let r = replace_data(tree, n, offset, count, "");
    proof {
        reveal_strlit("");
    }
    assert(""@ =~= Seq::<char>::empty());
    r
}

/// `insertData(offset, data)`: `replaceData(offset, 0, data)`.
pub fn insert_data(tree: &mut DomTree, n: NodeId, offset: usize, data: &str) -> (r: Result<(), DomError>)
    requires
        old(tree).wf(),
        old(tree).valid(n),
    ensures
        final(tree).wf(),
        !old(tree).is_character_data(n) ==> r is Ok && *final(tree) == *old(tree),
        old(tree).is_character_data(n) && offset > data_length(old(tree).char_data(n)) ==> r == Err::<(), DomError>(
            DomError::IndexSizeError,
        ) && *final(tree) == *old(tree),
        old(tree).is_character_data(n) && offset <= data_length(old(tree).char_data(n)) ==> r is Ok
            && old(tree).with_char_data(
            final(tree),
            n,
            replaced(old(tree).char_data(n), offset as int, 0, data@),
        ),
{
    replace_data(tree, n, offset, 0, data)
}

// ---------------------------------------------------------------------------
// Text nodes: splitText and wholeText
// ---------------------------------------------------------------------------

/// Why `splitText` fails.
#[derive(PartialEq, Eq, Structural, Clone, Copy, Debug)]
pub enum SplitTextError {
    /// The node is not a text node.
    NotText,
    /// The offset is past the end of the data.
    IndexSize,
}

pub open spec fn is_text(tree: &DomTree, m: NodeId) -> bool {
    tree.valid(m) && tree.node(m).data is Text
}

fn text_node(tree: &DomTree, m: NodeId) -> (r: bool)
    requires
        tree.valid(m),
    ensures
        r == is_text(tree, m),
{
    match &tree.get_node(m).data {
        NodeData::Text { .. } => true,
        _ => false,
    }
}

/// `splitText(offset)` of text node `n`: the node keeps what the first
/// `offset` UTF-16 code units of its data decode to, a new text node after it
/// (in its parent, if any) gets the rest; `IndexSizeError` past the end; an
/// error for other nodes. No node but `n` and its parent changes.
pub fn split_text(tree: &mut DomTree, n: NodeId, offset: usize) -> (r: Result<NodeId, SplitTextError>)
    requires
        old(tree).wf(),
        old(tree).valid(n),
    ensures
        final(tree).wf(),
        !is_text(old(tree), n) ==> r == Err::<NodeId, SplitTextError>(SplitTextError::NotText)
            && *final(tree) == *old(tree),
        is_text(old(tree), n) && offset > data_length(old(tree).char_data(n)) ==> r == Err::<
            NodeId,
            SplitTextError,
        >(SplitTextError::IndexSize) && *final(tree) == *old(tree),
        is_text(old(tree), n) && offset <= data_length(old(tree).char_data(n)) ==> {
            let u = utf16(old(tree).char_data(n));
            let id = old(tree).nodes.len() as NodeId;
            &&& r == Ok::<NodeId, SplitTextError>(id)
            &&& final(tree).nodes.len() == old(tree).nodes.len() + 1
            &&& forall|m: int|
                0 <= m < old(tree).nodes.len() && m != n && Some(m as NodeId) != old(tree).parent_of(n)
                    ==> #[trigger] final(tree).nodes@[m] == old(tree).nodes@[m]
            &&& is_text(final(tree), id)
            &&& final(tree).char_data(id) == decode16(u.skip(offset as int))
            &&& is_text(final(tree), n)
            &&& final(tree).char_data(n) == decode16(u.take(offset as int))
            &&& old(tree).parent_of(n) != Some(n) ==> final(tree).node(n).children@ == old(tree).node(
                n,
            ).children@
            &&& final(tree).parent_of(n) == old(tree).parent_of(n)
            &&& match old(tree).parent_of(n) {
                Some(p) => {
                    let i = first_index(old(tree).children_of(p), DomTree::is_node(n));
                    &&& i >= 0 ==> final(tree).parent_of(id) == Some(p) && final(tree).children_of(p)
                        == old(tree).children_of(p).insert(i + 1, id)
                    &&& i < 0 ==> final(tree).parent_of(id) is None
                },
                None => final(tree).parent_of(id) is None,
            }
        },
{
    if !text_node(tree, n) {
        return Err(SplitTextError::NotText);
    }
    let u = data_units(tree, n);
    if offset > u.len() {
        return Err(SplitTextError::IndexSize);
    }
    let rest = string_of(&decode_utf16_range(&u, offset, u.len()));
    let head = string_of(&decode_utf16_range(&u, 0, offset));
    assert(u@.subrange(offset as int, u@.len() as int) =~= u@.skip(offset as int));
    assert(u@.subrange(0, offset as int) =~= u@.take(offset as int));
    let parent = tree.get_node(n).parent;
    let new_id = tree.create_text(rest.as_str());
    assert(tree.char_data(new_id) == decode16(u@.skip(offset as int)));
    assert(tree.nodes@[n as int] == old(tree).nodes@[n as int]);
    tree.set_character_data(n, head);
    match parent {
        Some(p) => {
            assert(old(tree).valid(p));
            let sibs = tree.get_node(p).children.clone();
            assert(sibs@ == old(tree).children_of(p)) by {
                if p != n {
                    assert(tree.nodes@[p as int] == old(tree).nodes@[p as int]);
                }
            }
            match crate::dom::index_of_node(&sibs, n) {
                Some(i) => {
                    tree.insert_child_at(p, i + 1, new_id);
                },
                None => {},
            }
        },
        None => {},
    }
    Ok(new_id)
}

/// The data of the text siblings `sibs[..i]` that run without interruption up
/// to position `i`, in order.
pub open spec fn text_run_before(tree: &DomTree, sibs: Seq<NodeId>, i: int) -> Seq<char>
    decreases i,
{
    if i <= 0 || i > sibs.len() || !is_text(tree, sibs[i - 1]) {
        Seq::empty()
    } else {
        text_run_before(tree, sibs, i - 1) + tree.char_data(sibs[i - 1])
    }
}

/// The data of the text siblings after position `i` that run without
/// interruption from it, in order.
pub open spec fn text_run_after(tree: &DomTree, sibs: Seq<NodeId>, i: int) -> Seq<char>
    decreases sibs.len() - i,
{
    if i < -1 || i + 1 >= sibs.len() || !is_text(tree, sibs[i + 1]) {
        Seq::empty()
    } else {
        tree.char_data(sibs[i + 1]) + text_run_after(tree, sibs, i + 1)
    }
}

/// `wholeText` of text node `n`: the data of the contiguous text nodes around
/// it among its siblings, in order (its own data when it has no parent).
pub open spec fn whole_text_of(tree: &DomTree, n: NodeId) -> Seq<char> {
    match tree.parent_of(n) {
        Some(p) => {
            let sibs = tree.children_of(p);
            let i = first_index(sibs, DomTree::is_node(n));
            if i < 0 {
                tree.char_data(n)
            } else {
                text_run_before(tree, sibs, i) + tree.char_data(n) + text_run_after(tree, sibs, i)
            }
        },
        None => tree.char_data(n),
    }
}

/// `wholeText`: for a text node, the data of the contiguous text nodes around
/// it; nothing for other nodes.
pub fn whole_text(tree: &DomTree, n: NodeId) -> (r: Option<String>)
    requires
        tree.wf(),
        tree.valid(n),
    ensures
        match r {
            Some(s) => is_text(tree, n) && s@ == whole_text_of(tree, n),
            None => !is_text(tree, n),
        },
{
    if !text_node(tree, n) {
        return None;
    }
    let own = data_chars(tree, n);
    let parent = tree.get_node(n).parent;
    match parent {
        None => {
            let s = string_of(&own);
            assert(s@ == whole_text_of(tree, n));
            Some(s)
        },
        Some(p) => {
            let sibs = &tree.get_node(p).children;
            proof {
                tree.lemma_children_valid(p);
            }
            match crate::dom::index_of_node(sibs, n) {
                None => Some(string_of(&own)),
                Some(i) => {
                    let mut before: Vec<char> = Vec::new();
                    let mut j: usize = i;
                    while j > 0 && text_node(tree, sibs[j - 1])
                        invariant
                            j <= i < sibs.len(),
                            sibs@ == tree.children_of(p),
                            forall|k: int| 0 <= k < sibs.len() ==> tree.valid(#[trigger] sibs@[k]),
                            text_run_before(tree, sibs@, i as int) == text_run_before(tree, sibs@, j as int)
                                + before@,
                        decreases j,
                    {
                        let mut d = data_chars(tree, sibs[j - 1]);
                        extend_chars(&mut d, &before);
                        before = d;
                        j = j - 1;
                    }
                    let mut after: Vec<char> = Vec::new();
                    let mut k: usize = i;
                    while k + 1 < sibs.len() && text_node(tree, sibs[k + 1])
                        invariant
                            i <= k < sibs.len(),
                            sibs@ == tree.children_of(p),
                            forall|q: int| 0 <= q < sibs.len() ==> tree.valid(#[trigger] sibs@[q]),
                            text_run_after(tree, sibs@, i as int) == after@ + text_run_after(
                                tree,
                                sibs@,
                                k as int,
                            ),
                        decreases sibs.len() - k,
                    {
                        let d = data_chars(tree, sibs[k + 1]);
                        assert(text_run_after(tree, sibs@, k as int) == d@ + text_run_after(
                            tree,
                            sibs@,
                            k as int + 1,
                        ));
                        extend_chars(&mut after, &d);
                        k = k + 1;
                    }
                    let mut all = before;
                    extend_chars(&mut all, &own);
                    extend_chars(&mut all, &after);
                    assert(text_run_before(tree, sibs@, j as int) == Seq::<char>::empty());
                    assert(text_run_after(tree, sibs@, k as int) == Seq::<char>::empty());
                    assert(all@ =~= whole_text_of(tree, n));
                    Some(string_of(&all))
                },
            }
        },
    }
}

// ---------------------------------------------------------------------------
// Laws
// ---------------------------------------------------------------------------

/// `unsigned long` conversion keeps values in range and wraps the others
/// (-1 becomes 4294967295).
pub proof fn lemma_unsigned_long(n: int)
    ensures
        0 <= unsigned_long(n) < 0x1_0000_0000,
        0 <= n < 0x1_0000_0000 ==> unsigned_long(n) == n,
        unsigned_long(-1) == 0xffff_ffff,
{
}

/// After `insertData(offset, s)`, `substringData(offset, s.length)` reads `s`,
/// at every offset up to the length.
pub proof fn lemma_insert_then_substring(d: Seq<char>, offset: int, s: Seq<char>)
    requires
        0 <= offset <= data_length(d),
    ensures
        substring_of(replaced(d, offset, 0, s), offset, data_length(s)) == Ok::<Seq<char>, DomError>(s),
{
    let u = utf16(d);
    let x = u.take(offset);
    let y = u.skip(offset);
    let e = utf16(s);
    assert(range_end(u.len() as int, offset, 0) == offset);
    let r = replaced(d, offset, 0, s);
    if s.len() == 0 {
        assert(e =~= Seq::<u16>::empty());
        assert(x + e + y =~= u);
        lemma_decode16_units(u);
        assert(utf16(r).subrange(offset, offset) =~= Seq::<u16>::empty());
        assert(decode16(Seq::<u16>::empty()) =~= s);
    } else {
        crate::utf16::lemma_utf16_ends(s);
        assert((x + e).last() == e.last());
        crate::utf16::lemma_decode16_concat(x + e, y);
        crate::utf16::lemma_decode16_concat(x, e);
        lemma_decode_utf16(s);
        assert(r == decode16(x) + s + decode16(y));
        lemma_utf16_concat(decode16(x) + s, decode16(y));
        lemma_utf16_concat(decode16(x), s);
        lemma_decode16_units(x);
        lemma_decode16_units(y);
        let t = utf16(r);
        assert(t == utf16(decode16(x)) + e + utf16(decode16(y)));
        assert(range_end(t.len() as int, offset, e.len() as int) == offset + e.len());
        assert(t.subrange(offset, offset + e.len()) =~= e);
    }
}

/// `replaceData(offset, count, s)` changes the length by the length of `s`
/// less the number of code units it covered.
pub proof fn lemma_replace_length(d: Seq<char>, offset: int, count: int, s: Seq<char>)
    requires
        0 <= offset <= data_length(d),
        0 <= count,
    ensures
        data_length(replaced(d, offset, count, s)) == data_length(d) - (range_end(data_length(d), offset, count)
            - offset) + data_length(s),
{
    let u = utf16(d);
    let end = range_end(u.len() as int, offset, count);
    lemma_decode16_units(u.take(offset) + utf16(s) + u.skip(end));
}

/// The code-unit offset at which the `k`-th character of `d` starts.
pub open spec fn unit_offset(d: Seq<char>, k: int) -> int {
    data_length(d.take(k))
}

/// The encoding of `d` is that of its first `k` characters followed by that of
/// the rest.
pub proof fn lemma_units_split(d: Seq<char>, k: int)
    requires
        0 <= k <= d.len(),
    ensures
        utf16(d) == utf16(d.take(k)) + utf16(d.skip(k)),
{
    assert(d.take(k) + d.skip(k) =~= d);
    lemma_utf16_concat(d.take(k), d.skip(k));
}

/// `deleteData` from the start of the `k`-th character to the start of the
/// `j`-th leaves the characters before the one followed by those from the
/// other on.
pub proof fn lemma_delete_keeps_rest(d: Seq<char>, k: int, j: int)
    requires
        0 <= k <= j <= d.len(),
    ensures
        replaced(d, unit_offset(d, k), unit_offset(d, j) - unit_offset(d, k), Seq::empty()) == d.take(k)
            + d.skip(j),
{
    let u = utf16(d);
    let off = unit_offset(d, k);
    let end = unit_offset(d, j);
    lemma_units_split(d, j);
    lemma_units_split(d.take(j), k);
    assert(d.take(j).take(k) =~= d.take(k));
    assert(u.take(off) =~= utf16(d.take(k)));
    assert(range_end(u.len() as int, off, end - off) == end);
    assert(u.skip(end) =~= utf16(d.skip(j)));
    assert(utf16(Seq::<char>::empty()) == Seq::<u16>::empty());
    assert(u.take(off) + utf16(Seq::<char>::empty()) + u.skip(end) =~= utf16(d.take(k)) + utf16(d.skip(j)));
    lemma_utf16_concat(d.take(k), d.skip(j));
    lemma_decode_utf16(d.take(k) + d.skip(j));
}

/// `splitText` at the start of a character loses nothing: the node's new data
/// followed by the new node's data is the old data.
pub proof fn lemma_split_text_concat(d: Seq<char>, k: int)
    requires
        0 <= k <= d.len(),
    ensures
        decode16(utf16(d).take(unit_offset(d, k))) + decode16(utf16(d).skip(unit_offset(d, k))) == d,
{
    let u = utf16(d);
    lemma_units_split(d, k);
    assert(u.take(unit_offset(d, k)) =~= utf16(d.take(k)));
    assert(u.skip(unit_offset(d, k)) =~= utf16(d.skip(k)));
    lemma_decode_utf16(d.take(k));
    lemma_decode_utf16(d.skip(k));
    assert(d.take(k) + d.skip(k) =~= d);
}

} // verus!
