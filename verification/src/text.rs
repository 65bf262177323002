//! Character and string helpers shared by the DOM bindings.
//!
//! Strings are modelled by their views (`Seq<char>`); the executable helpers
//! work on `Vec<char>` internally and hand back `String`s.
use vstd::prelude::*;
use vstd::std_specs::iter::IteratorSpec;

verus! {

// ---------------------------------------------------------------------------
// Character classes
// ---------------------------------------------------------------------------

/// ASCII whitespace as the DOM and `char::is_ascii_whitespace` define it:
/// space, tab, line feed, form feed and carriage return.
pub open spec fn is_ascii_ws(c: char) -> bool {
    c == ' ' || c == '\t' || c == '\n' || c == '\x0C' || c == '\r'
}

/// Unicode `White_Space`, the set that `char::is_whitespace` tests.
pub open spec fn is_unicode_ws(c: char) -> bool {
    ('\u{9}' <= c && c <= '\u{d}') || c == ' ' || c == '\u{85}' || c == '\u{a0}' || c
        == '\u{1680}' || ('\u{2000}' <= c && c <= '\u{200a}') || c == '\u{2028}' || c
        == '\u{2029}' || c == '\u{202f}' || c == '\u{205f}' || c == '\u{3000}'
}

/// The whitespace test selected by `unicode`.
pub open spec fn is_ws(unicode: bool, c: char) -> bool {
    if unicode {
        is_unicode_ws(c)
    } else {
        is_ascii_ws(c)
    }
}

pub open spec fn is_ascii_upper(c: char) -> bool {
    'A' <= c && c <= 'Z'
}

pub open spec fn is_ascii_lower(c: char) -> bool {
    'a' <= c && c <= 'z'
}

/// ASCII uppercase of one character; other characters are unchanged.
pub open spec fn ascii_upper_char(c: char) -> char {
    if is_ascii_lower(c) {
        ((c as u32) - 32) as char
    } else {
        c
    }
}

/// ASCII lowercase of one character; other characters are unchanged.
pub open spec fn ascii_lower_char(c: char) -> char {
    if is_ascii_upper(c) {
        ((c as u32) + 32) as char
    } else {
        c
    }
}

/// ASCII lowercase of a string (`str::to_ascii_lowercase`).
pub open spec fn ascii_lower(s: Seq<char>) -> Seq<char> {
    s.map_values(|c: char| ascii_lower_char(c))
}

pub fn is_ascii_whitespace_char(c: char) -> (r: bool)
    ensures
        r == is_ascii_ws(c),
{
    c == ' ' || c == '\t' || c == '\n' || c == '\x0C' || c == '\r'
}

pub fn is_whitespace_char(c: char) -> (r: bool)
    ensures
        r == is_unicode_ws(c),
{
    ('\u{9}' <= c && c <= '\u{d}') || c == ' ' || c == '\u{85}' || c == '\u{a0}' || c
        == '\u{1680}' || ('\u{2000}' <= c && c <= '\u{200a}') || c == '\u{2028}' || c
        == '\u{2029}' || c == '\u{202f}' || c == '\u{205f}' || c == '\u{3000}'
}

pub fn ws_char(unicode: bool, c: char) -> (r: bool)
    ensures
        r == is_ws(unicode, c),
{
    if unicode {
        is_whitespace_char(c)
    } else {
        is_ascii_whitespace_char(c)
    }
}

pub fn lower_char(c: char) -> (r: char)
    ensures
        r == ascii_lower_char(c),
{
    if 'A' <= c && c <= 'Z' {
        let u: u32 = (c as u32) + 32;
        let b: u8 = u as u8;
        b as char
    } else {
        c
    }
}


/// ASCII case-insensitive equality of two strings.
pub open spec fn eq_ic(a: Seq<char>, b: Seq<char>) -> bool {
    ascii_lower(a) == ascii_lower(b)
}

/// Index of the last element satisfying `p`, or -1.
pub open spec fn last_index<A>(s: Seq<A>, p: spec_fn(A) -> bool) -> int
    decreases s.len(),
{
    if s.len() == 0 {
        -1
    } else if p(s.last()) {
        s.len() - 1
    } else {
        last_index(s.drop_last(), p)
    }
}

/// Unicode lowercase of a string, as `str::to_lowercase` computes it.
pub uninterp spec fn unicode_lower(s: Seq<char>) -> Seq<char>;

/// Unicode uppercase of one character, as `char::to_uppercase` yields it.
pub uninterp spec fn unicode_upper(c: char) -> Seq<char>;

/// `str::to_lowercase`. Claimed: the result is `unicode_lower` of the input,
/// a function of the input alone; nothing more is stated of the Unicode mapping.
#[verifier::external_body]
pub(crate) fn to_lowercase(s: &str) -> (r: String)
    ensures
        r@ == unicode_lower(s@),
{
    s.to_lowercase()
}

/// Uppercase of one character, as `char::to_uppercase` yields it: the capital
/// letter for an ASCII lowercase letter, `unicode_upper` for any other.
pub open spec fn upper_of(c: char) -> Seq<char> {
    if is_ascii_lower(c) {
        seq![ascii_upper_char(c)]
    } else {
        unicode_upper(c)
    }
}

/// `char::to_uppercase`, collected into a `String`. Claimed: its characters are
/// `unicode_upper(c)`, a function of `c` alone, and for an ASCII lowercase
/// letter the one capital letter (`'a'..='z'` to `'A'..='Z'`), as std
/// documents; nothing more is stated of the Unicode mapping.
#[verifier::external_body]
pub(crate) fn char_to_uppercase(c: char) -> (r: String)
    ensures
        r@ == unicode_upper(c),
        is_ascii_lower(c) ==> r@ == seq![ascii_upper_char(c)],
{
    c.to_uppercase().to_string()
}

// ---------------------------------------------------------------------------
// Sequence helpers
// ---------------------------------------------------------------------------

/// Index of the first element satisfying `p`, or -1.
pub open spec fn first_index<A>(s: Seq<A>, p: spec_fn(A) -> bool) -> int
    decreases s.len(),
{
    if s.len() == 0 {
        -1
    } else if p(s[0]) {
        0
    } else {
        let r = first_index(s.drop_first(), p);
        if r < 0 {
            -1
        } else {
            r + 1
        }
    }
}

/// `first_index` is the least index satisfying `p`, or -1 when none does.
pub proof fn lemma_first_index<A>(s: Seq<A>, p: spec_fn(A) -> bool)
    ensures
        -1 <= first_index(s, p) < s.len(),
        first_index(s, p) >= 0 ==> p(s[first_index(s, p)]),
        forall|j: int| 0 <= j < first_index(s, p) ==> !p(#[trigger] s[j]),
        first_index(s, p) == -1 ==> forall|j: int| 0 <= j < s.len() ==> !p(#[trigger] s[j]),
    decreases s.len(),
{
    if s.len() > 0 && !p(s[0]) {
        lemma_first_index(s.drop_first(), p);
        assert forall|j: int| 0 <= j < first_index(s, p) implies !p(#[trigger] s[j]) by {
            if j > 0 {
                assert(s[j] == s.drop_first()[j - 1]);
            }
        }
        if first_index(s, p) == -1 {
            assert forall|j: int| 0 <= j < s.len() implies !p(#[trigger] s[j]) by {
                if j > 0 {
                    assert(s[j] == s.drop_first()[j - 1]);
                }
            }
        }
    }
}

/// An index that satisfies `p` with none before it is the first index.
pub proof fn lemma_first_index_is<A>(s: Seq<A>, p: spec_fn(A) -> bool, i: int)
    requires
        0 <= i < s.len(),
        p(s[i]),
        forall|j: int| 0 <= j < i ==> !p(#[trigger] s[j]),
    ensures
        first_index(s, p) == i,
{
    lemma_first_index(s, p);
    if first_index(s, p) < i {
        if first_index(s, p) >= 0 {
            assert(!p(s[first_index(s, p)]));
        } else {
            assert(!p(s[i]));
        }
    } else if first_index(s, p) > i {
        assert(!p(s[i]));
    }
}

/// When no element satisfies `p`, the first index is -1.
pub proof fn lemma_first_index_none<A>(s: Seq<A>, p: spec_fn(A) -> bool)
    requires
        forall|j: int| 0 <= j < s.len() ==> !p(#[trigger] s[j]),
    ensures
        first_index(s, p) == -1,
{
    lemma_first_index(s, p);
    if first_index(s, p) >= 0 {
        assert(!p(s[first_index(s, p)]));
    }
}


/// `last_index` is the greatest index satisfying `p`, or -1 when none does.
pub proof fn lemma_last_index<A>(s: Seq<A>, p: spec_fn(A) -> bool)
    ensures
        -1 <= last_index(s, p) < s.len(),
        last_index(s, p) >= 0 ==> p(s[last_index(s, p)]),
        forall|j: int| last_index(s, p) < j < s.len() ==> !p(#[trigger] s[j]),
    decreases s.len(),
{
    if s.len() > 0 && !p(s.last()) {
        lemma_last_index(s.drop_last(), p);
        assert forall|j: int| last_index(s, p) < j < s.len() implies !p(#[trigger] s[j]) by {
            if j < s.len() - 1 {
                assert(s[j] == s.drop_last()[j]);
            }
        }
        if last_index(s, p) >= 0 {
            assert(s[last_index(s, p)] == s.drop_last()[last_index(s, p)]);
        }
    }
}

/// An index that satisfies `p` with none after it is the last index.
pub proof fn lemma_last_index_is<A>(s: Seq<A>, p: spec_fn(A) -> bool, i: int)
    requires
        0 <= i < s.len(),
        p(s[i]),
        forall|j: int| i < j < s.len() ==> !p(#[trigger] s[j]),
    ensures
        last_index(s, p) == i,
{
    lemma_last_index(s, p);
    if last_index(s, p) > i {
        assert(!p(s[last_index(s, p)]));
    } else if last_index(s, p) < i {
        assert(!p(s[i]));
    }
}

/// When no element satisfies `p`, the last index is -1.
pub proof fn lemma_last_index_none<A>(s: Seq<A>, p: spec_fn(A) -> bool)
    requires
        forall|j: int| 0 <= j < s.len() ==> !p(#[trigger] s[j]),
    ensures
        last_index(s, p) == -1,
{
    lemma_last_index(s, p);
    if last_index(s, p) >= 0 {
        assert(!p(s[last_index(s, p)]));
    }
}

/// Predicates that agree on every element of `s` have the same first index.
pub proof fn lemma_first_index_agree<A>(s: Seq<A>, p: spec_fn(A) -> bool, q: spec_fn(A) -> bool)
    requires
        forall|j: int| 0 <= j < s.len() ==> p(#[trigger] s[j]) == q(s[j]),
    ensures
        first_index(s, p) == first_index(s, q),
{
    lemma_first_index(s, p);
    let i = first_index(s, p);
    if i >= 0 {
        assert(q(s[i]));
        assert forall|j: int| 0 <= j < i implies !q(#[trigger] s[j]) by {
            assert(!p(s[j]));
        }
        lemma_first_index_is(s, q, i);
    } else {
        assert forall|j: int| 0 <= j < s.len() implies !q(#[trigger] s[j]) by {
            assert(!p(s[j]));
        }
        lemma_first_index_none(s, q);
    }
}

/// Some element satisfies `p` exactly when the first index is not -1.
pub proof fn lemma_first_index_exists<A>(s: Seq<A>, p: spec_fn(A) -> bool, j: int)
    requires
        0 <= j < s.len(),
        p(s[j]),
    ensures
        0 <= first_index(s, p) <= j,
{
    lemma_first_index(s, p);
    if first_index(s, p) == -1 {
        assert(!p(s[j]));
    }
    if first_index(s, p) > j {
        assert(!p(s[j]));
    }
}

/// The list `s` without repetitions, each element kept at its first occurrence.
pub open spec fn dedup<A>(s: Seq<A>) -> Seq<A>
    decreases s.len(),
{
    if s.len() == 0 {
        s
    } else {
        let d = dedup(s.drop_last());
        if d.contains(s.last()) {
            d
        } else {
            d.push(s.last())
        }
    }
}

/// `dedup` keeps exactly the elements of `s`, each once.
pub proof fn lemma_dedup<A>(s: Seq<A>)
    ensures
        dedup(s).no_duplicates(),
        forall|x: A| dedup(s).contains(x) <==> s.contains(x),
        dedup(s).len() <= s.len(),
    decreases s.len(),
{
    if s.len() > 0 {
        let t = s.drop_last();
        lemma_dedup(t);
        assert(s =~= t.push(s.last()));
        assert forall|x: A| dedup(s).contains(x) <==> s.contains(x) by {
            let d = dedup(t);
            if s.contains(x) {
                if x != s.last() {
                    let k = choose|k: int| 0 <= k < s.len() && s[k] == x;
                    assert(k != s.len() - 1);
                    assert(t[k] == x);
                    assert(t.contains(x));
                    assert(d.contains(x));
                    if !d.contains(s.last()) {
                        let m = choose|m: int| 0 <= m < d.len() && d[m] == x;
                        assert(d.push(s.last())[m] == x);
                    }
                } else {
                    if !d.contains(s.last()) {
                        assert(d.push(s.last())[d.len() as int] == x);
                    }
                }
            }
            if dedup(s).contains(x) {
                if x == s.last() {
                    assert(s[s.len() - 1] == x);
                } else {
                    let k = choose|k: int| 0 <= k < dedup(s).len() && dedup(s)[k] == x;
                    if !d.contains(s.last()) {
                        assert(k < d.len());
                        assert(d[k] == x);
                    }
                    assert(d.contains(x));
                    assert(t.contains(x));
                    let m = choose|m: int| 0 <= m < t.len() && t[m] == x;
                    assert(s[m] == x);
                }
            }
        }
    }
}

/// Join `list` with `sep` between consecutive items (`slice::join`).
pub open spec fn join(list: Seq<Seq<char>>, sep: Seq<char>) -> Seq<char>
    decreases list.len(),
{
    if list.len() == 0 {
        Seq::empty()
    } else if list.len() == 1 {
        list[0]
    } else {
        join(list.drop_last(), sep) + sep + list.last()
    }
}

/// Maximal runs of non-whitespace characters of `s`, in order
/// (`str::split_whitespace` when `unicode`, `str::split_ascii_whitespace` otherwise).
pub open spec fn tokens(s: Seq<char>, unicode: bool) -> Seq<Seq<char>>
    decreases s.len(),
{
    if s.len() == 0 {
        Seq::empty()
    } else {
        let prev = tokens(s.drop_last(), unicode);
        let c = s.last();
        if is_ws(unicode, c) {
            prev
        } else if s.len() >= 2 && !is_ws(unicode, s[s.len() - 2]) {
            prev.update(prev.len() - 1, prev.last().push(c))
        } else {
            prev.push(seq![c])
        }
    }
}

/// Every token is non-empty and free of whitespace; a string ending in a
/// non-whitespace character has at least one token.
pub proof fn lemma_tokens(s: Seq<char>, unicode: bool)
    ensures
        s.len() > 0 && !is_ws(unicode, s.last()) ==> tokens(s, unicode).len() > 0,
        forall|i: int|
            0 <= i < tokens(s, unicode).len() ==> (#[trigger] tokens(s, unicode)[i]).len() > 0,
        forall|i: int, j: int|
            0 <= i < tokens(s, unicode).len() && 0 <= j < tokens(s, unicode)[i].len()
                ==> !is_ws(unicode, #[trigger] tokens(s, unicode)[i][j]),
    decreases s.len(),
{
    if s.len() > 0 {
        let t = s.drop_last();
        lemma_tokens(t, unicode);
        let prev = tokens(t, unicode);
        let c = s.last();
        if !is_ws(unicode, c) && s.len() >= 2 && !is_ws(unicode, s[s.len() - 2]) {
            assert(t.last() == s[s.len() - 2]);
            assert(prev.len() > 0);
            let r = tokens(s, unicode);
            assert forall|i: int, j: int|
                0 <= i < r.len() && 0 <= j < r[i].len() implies !is_ws(
                unicode,
                #[trigger] r[i][j],
            ) by {
                if i == prev.len() - 1 {
                    if j < prev.last().len() {
                        assert(r[i][j] == prev[i][j]);
                    }
                } else {
                    assert(r[i] == prev[i]);
                }
            }
            assert forall|i: int| 0 <= i < r.len() implies (#[trigger] r[i]).len() > 0 by {
                if i != prev.len() - 1 {
                    assert(r[i] == prev[i]);
                }
            }
        } else if !is_ws(unicode, c) {
            let r = tokens(s, unicode);
            assert forall|i: int, j: int|
                0 <= i < r.len() && 0 <= j < r[i].len() implies !is_ws(
                unicode,
                #[trigger] r[i][j],
            ) by {
                if i < prev.len() {
                    assert(r[i] == prev[i]);
                }
            }
            assert forall|i: int| 0 <= i < r.len() implies (#[trigger] r[i]).len() > 0 by {
                if i < prev.len() {
                    assert(r[i] == prev[i]);
                }
            }
        }
    }
}

/// A string without whitespace is a single token (or none, when empty).
pub proof fn lemma_tokens_no_ws(s: Seq<char>, unicode: bool)
    requires
        forall|i: int| 0 <= i < s.len() ==> !is_ws(unicode, #[trigger] s[i]),
    ensures
        s.len() == 0 ==> tokens(s, unicode) =~= Seq::<Seq<char>>::empty(),
        s.len() > 0 ==> tokens(s, unicode) =~= seq![s],
    decreases s.len(),
{
    if s.len() > 0 {
        let t = s.drop_last();
        lemma_tokens_no_ws(t, unicode);
        assert(!is_ws(unicode, s[s.len() - 1]));
        if s.len() >= 2 {
            assert(!is_ws(unicode, s[s.len() - 2]));
            assert(t.push(s.last()) =~= s);
        } else {
            assert(seq![s.last()] =~= s);
        }
    }
}


/// A token: non-empty and free of whitespace.
pub open spec fn is_word(w: Seq<char>, unicode: bool) -> bool {
    w.len() > 0 && forall|i: int| 0 <= i < w.len() ==> !is_ws(unicode, #[trigger] w[i])
}

/// A whitespace character at the end adds no token.
pub proof fn lemma_tokens_push_ws(x: Seq<char>, c: char, unicode: bool)
    requires
        is_ws(unicode, c),
    ensures
        tokens(x.push(c), unicode) == tokens(x, unicode),
{
    assert(x.push(c).drop_last() =~= x);
}

/// A word after whitespace (or at the start) is one more token.
pub proof fn lemma_tokens_append_word(x: Seq<char>, w: Seq<char>, unicode: bool)
    requires
        x.len() == 0 || is_ws(unicode, x.last()),
        is_word(w, unicode),
    ensures
        tokens(x + w, unicode) == tokens(x, unicode).push(w),
    decreases w.len(),
{
    let c = w.last();
    assert(!is_ws(unicode, w[w.len() - 1]));
    if w.len() == 1 {
        assert((x + w).drop_last() =~= x);
        assert(seq![c] =~= w);
        if x.len() > 0 {
            assert((x + w)[(x + w).len() - 2] == x.last());
        }
    } else {
        let w2 = w.drop_last();
        assert(forall|i: int| 0 <= i < w2.len() ==> w2[i] == w[i]);
        lemma_tokens_append_word(x, w2, unicode);
        assert((x + w).drop_last() =~= x + w2);
        assert((x + w)[(x + w).len() - 2] == w[w.len() - 2]);
        assert(!is_ws(unicode, w[w.len() - 2]));
        assert(w2.push(c) =~= w);
        assert(tokens(x, unicode).push(w2).update(tokens(x, unicode).len() as int, w2.push(c)) =~= tokens(x, unicode).push(w));
    }
}

/// Splitting a space-joined list of words gives the words back.
pub proof fn lemma_tokens_of_join(list: Seq<Seq<char>>, unicode: bool)
    requires
        forall|i: int| 0 <= i < list.len() ==> is_word(#[trigger] list[i], unicode),
    ensures
        tokens(join(list, seq![' ']), unicode) == list,
    decreases list.len(),
{
    if list.len() == 0 {
        assert(tokens(Seq::<char>::empty(), unicode) =~= list);
    } else if list.len() == 1 {
        lemma_tokens_append_word(Seq::empty(), list[0], unicode);
        assert(Seq::<char>::empty() + list[0] =~= list[0]);
        assert(Seq::<Seq<char>>::empty().push(list[0]) =~= list);
    } else {
        let init = list.drop_last();
        assert(forall|i: int| 0 <= i < init.len() ==> init[i] == list[i]);
        lemma_tokens_of_join(init, unicode);
        let x = join(init, seq![' ']) + seq![' '];
        lemma_tokens_push_ws(join(init, seq![' ']), ' ', unicode);
        assert(join(init, seq![' ']).push(' ') =~= x);
        assert(list[list.len() - 1] == list.last());
        lemma_tokens_append_word(x, list.last(), unicode);
        assert(init.push(list.last()) =~= list);
    }
}


/// Filtering keeps a list free of repetitions.
pub proof fn lemma_filter_unique<A>(s: Seq<A>, p: spec_fn(A) -> bool)
    requires
        s.no_duplicates(),
    ensures
        s.filter(p).no_duplicates(),
    decreases s.len(),
{
    reveal_with_fuel(Seq::filter, 1);
    if s.len() > 0 {
        let t = s.drop_last();
        assert(t.no_duplicates());
        lemma_filter_unique(t, p);
        if p(s.last()) {
            let f = t.filter(p);
            if f.contains(s.last()) {
                t.lemma_filter_contains_rev(p, s.last());
                let k = choose|k: int| 0 <= k < t.len() && t[k] == s.last();
                assert(s[k] == s[s.len() - 1]);
            }
            let g = f.push(s.last());
            assert forall|i: int, j: int| 0 <= i < g.len() && 0 <= j < g.len() && i != j implies g[i] != g[j] by {
                if i < f.len() && j < f.len() {
                } else if i < f.len() {
                    assert(f.contains(f[i]));
                } else if j < f.len() {
                    assert(f.contains(f[j]));
                }
            }
        }
    }
}

/// A list without repetitions is its own `dedup`.
pub proof fn lemma_dedup_unique<A>(s: Seq<A>)
    requires
        s.no_duplicates(),
    ensures
        dedup(s) == s,
    decreases s.len(),
{
    if s.len() > 0 {
        let t = s.drop_last();
        assert(t.no_duplicates());
        lemma_dedup_unique(t);
        if t.contains(s.last()) {
            let k = choose|k: int| 0 <= k < t.len() && t[k] == s.last();
            assert(s[k] == s[s.len() - 1]);
        }
        assert(t.push(s.last()) =~= s);
    }
}

// ---------------------------------------------------------------------------
// Executable string helpers
// ---------------------------------------------------------------------------

/// Appends one character to a `String` (std `String::push`).
/// Claimed: the string afterwards is the old one with `c` added at the end.
#[verifier::external_body]
fn push_char(s: &mut String, c: char)
    ensures
        final(s)@ == old(s)@.push(c),
{
    s.push(c);
}

/// The characters of `s`, in order.
pub fn chars_of(s: &str) -> (v: Vec<char>)
    ensures
        v@ == s@,
{
    broadcast use vstd::string::group_string_axioms;

    let mut it = s.chars();
    let mut v: Vec<char> = Vec::new();
    assert(it.remaining() == s@);
    loop
        invariant
            v@ + it.remaining() == s@,
            it.obeys_prophetic_iter_laws(),
            it.decrease() is Some,
        ensures
            v@ == s@,
        decreases it.decrease()->0,
    {
        match it.next() {
            Some(c) => {
                v.push(c);
                assert(v@ + it.remaining() =~= s@);
            },
            None => {
                assert(v@ =~= s@);
                break ;
            },
        }
    }
    v
}

/// A `String` holding exactly the characters of `v[from..to]`.
pub fn string_of_range(v: &Vec<char>, from: usize, to: usize) -> (s: String)
    requires
        from <= to <= v.len(),
    ensures
        s@ == v@.subrange(from as int, to as int),
{
    let mut s = String::new();
    let mut i: usize = from;
    while i < to
        invariant
            from <= i <= to <= v.len(),
            s@ == v@.subrange(from as int, i as int),
        decreases to - i,
    {
        push_char(&mut s, v[i]);
        i = i + 1;
        assert(s@ =~= v@.subrange(from as int, i as int));
    }
    s
}

/// A `String` holding exactly the characters `v`.
pub fn string_of(v: &Vec<char>) -> (s: String)
    ensures
        s@ == v@,
{
    let s = string_of_range(v, 0, v.len());
    assert(v@.subrange(0, v@.len() as int) =~= v@);
    s
}

/// Appends the characters of `w` to `v`.
pub fn extend_chars(v: &mut Vec<char>, w: &Vec<char>)
    ensures
        final(v)@ == old(v)@ + w@,
{
    let mut i: usize = 0;
    while i < w.len()
        invariant
            v@ == old(v)@ + w@.take(i as int),
            i <= w.len(),
        decreases w.len() - i,
    {
        v.push(w[i]);
        i = i + 1;
        assert(v@ =~= old(v)@ + w@.take(i as int));
    }
    assert(w@.take(w.len() as int) =~= w@);
}

/// `a` followed by `b`.
pub fn concat(a: &str, b: &str) -> (r: String)
    ensures
        r@ == a@ + b@,
{
    let mut v = chars_of(a);
    let w = chars_of(b);
    extend_chars(&mut v, &w);
    string_of(&v)
}

/// An owned copy of `s`.
pub fn owned(s: &str) -> (r: String)
    ensures
        r@ == s@,
{
    let v = chars_of(s);
    string_of(&v)
}

/// Character-wise equality of two character sequences.
pub fn chars_eq(a: &Vec<char>, b: &Vec<char>) -> (r: bool)
    ensures
        r == (a@ == b@),
{
    if a.len() != b.len() {
        return false;
    }
    let mut i: usize = 0;
    while i < a.len()
        invariant
            a.len() == b.len(),
            i <= a.len(),
            forall|j: int| 0 <= j < i ==> a@[j] == b@[j],
        decreases a.len() - i,
    {
        if a[i] != b[i] {
            return false;
        }
        i = i + 1;
    }
    assert(a@ =~= b@);
    true
}

/// String equality by content.
pub fn str_eq(a: &str, b: &str) -> (r: bool)
    ensures
        r == (a@ == b@),
{
    let va = chars_of(a);
    let vb = chars_of(b);
    chars_eq(&va, &vb)
}

/// `s` begins with `prefix`.
pub fn starts_with(s: &str, prefix: &str) -> (r: bool)
    ensures
        r == (prefix@.len() <= s@.len() && s@.subrange(0, prefix@.len() as int) == prefix@),
{
    let vs = chars_of(s);
    let vp = chars_of(prefix);
    if vp.len() > vs.len() {
        return false;
    }
    let mut i: usize = 0;
    while i < vp.len()
        invariant
            vs@ == s@,
            vp@ == prefix@,
            vp.len() <= vs.len(),
            i <= vp.len(),
            forall|j: int| 0 <= j < i ==> vs@[j] == vp@[j],
        decreases vp.len() - i,
    {
        if vs[i] != vp[i] {
            assert(vs@.subrange(0, vp@.len() as int)[i as int] != vp@[i as int]);
            return false;
        }
        i = i + 1;
    }
    assert(vs@.subrange(0, vp@.len() as int) =~= vp@);
    true
}

/// `s` holds the character `c`.
pub fn contains_char(s: &str, c: char) -> (r: bool)
    ensures
        r == s@.contains(c),
{
    let v = chars_of(s);
    let mut i: usize = 0;
    while i < v.len()
        invariant
            v@ == s@,
            i <= v.len(),
            forall|j: int| 0 <= j < i ==> v@[j] != c,
        decreases v.len() - i,
    {
        if v[i] == c {
            assert(s@[i as int] == c);
            return true;
        }
        i = i + 1;
    }
    false
}

/// ASCII lowercase copy of `s` (`str::to_ascii_lowercase`).
pub fn to_ascii_lowercase(s: &str) -> (r: String)
    ensures
        r@ == ascii_lower(s@),
{
    let v = chars_of(s);
    let mut out: Vec<char> = Vec::new();
    let mut i: usize = 0;
    while i < v.len()
        invariant
            v@ == s@,
            i <= v.len(),
            out@ == ascii_lower(s@.take(i as int)),
        decreases v.len() - i,
    {
        let c = lower_char(v[i]);
        out.push(c);
        i = i + 1;
        assert(out@ =~= ascii_lower(s@.take(i as int)));
    }
    assert(s@.take(v.len() as int) =~= s@);
    string_of(&out)
}

/// ASCII case-insensitive equality (`str::eq_ignore_ascii_case`).
pub fn eq_ignore_ascii_case(a: &str, b: &str) -> (r: bool)
    ensures
        r == eq_ic(a@, b@),
{
    let la = to_ascii_lowercase(a);
    let lb = to_ascii_lowercase(b);
    la == lb
}

/// Split `s` into its whitespace-separated tokens.
pub fn split_tokens(s: &str, unicode: bool) -> (r: Vec<String>)
    ensures
        r.deep_view() == tokens(s@, unicode),
{
    let v = chars_of(s);
    let mut out: Vec<Vec<char>> = Vec::new();
    let mut i: usize = 0;
    while i < v.len()
        invariant
            v@ == s@,
            i <= v.len(),
            out@.map_values(|t: Vec<char>| t@) == tokens(s@.take(i as int), unicode),
        decreases v.len() - i,
    {
        let c = v[i];
        let ghost pre = s@.take(i as int);
        let ghost cur = s@.take(i as int + 1);
        assert(cur.drop_last() =~= pre);
        assert(cur.last() == c);
        proof {
            lemma_tokens(pre, unicode);
        }
        if ws_char(unicode, c) {
        } else if i >= 1 && !ws_char(unicode, v[i - 1]) {
            assert(pre.last() == v@[i - 1]);
            assert(cur[cur.len() - 2] == v@[i - 1]);
            let last = out.len() - 1;
            out[last].push(c);
        } else {
            let mut t: Vec<char> = Vec::new();
            t.push(c);
            assert(t@ =~= seq![c]);
            out.push(t);
        }
        i = i + 1;
        assert(out@.map_values(|t: Vec<char>| t@) =~= tokens(s@.take(i as int), unicode));
    }
    assert(s@.take(v.len() as int) =~= s@);
    let mut r: Vec<String> = Vec::new();
    let mut k: usize = 0;
    while k < out.len()
        invariant
            k <= out.len(),
            r.deep_view() =~= out@.map_values(|t: Vec<char>| t@).take(k as int),
        decreases out.len() - k,
    {
        let st = string_of(&out[k]);
        let ghost old_r = r.deep_view();
        r.push(st);
        assert(r.deep_view() =~= old_r.push(out@[k as int]@));
        k = k + 1;
        assert(r.deep_view() =~= out@.map_values(|t: Vec<char>| t@).take(k as int));
    }
    assert(out@.map_values(|t: Vec<char>| t@).take(out.len() as int) =~= out@.map_values(
        |t: Vec<char>| t@,
    ));
    r
}

/// Join `list` with `sep` between items (`[String]::join`).
pub fn join_strings(list: &Vec<String>, sep: &str) -> (r: String)
    ensures
        r@ == join(list.deep_view(), sep@),
{
    let mut out: Vec<char> = Vec::new();
    let sepv = chars_of(sep);
    let mut i: usize = 0;
    while i < list.len()
        invariant
            sepv@ == sep@,
            i <= list.len(),
            out@ == join(list.deep_view().take(i as int), sep@),
        decreases list.len() - i,
    {
        let item = chars_of(list[i].as_str());
        let ghost before = out@;
        if i > 0 {
            let mut j: usize = 0;
            while j < sepv.len()
                invariant
                    j <= sepv.len(),
                    out@ == before + sepv@.take(j as int),
                decreases sepv.len() - j,
            {
                out.push(sepv[j]);
                j = j + 1;
                assert(out@ =~= before + sepv@.take(j as int));
            }
            assert(sepv@.take(sepv.len() as int) =~= sepv@);
        }
        let ghost mid = out@;
        let mut j: usize = 0;
        while j < item.len()
            invariant
                j <= item.len(),
                out@ == mid + item@.take(j as int),
            decreases item.len() - j,
        {
            out.push(item[j]);
            j = j + 1;
            assert(out@ =~= mid + item@.take(j as int));
        }
        assert(item@.take(item.len() as int) =~= item@);
        let ghost dv = list.deep_view();
        assert(dv.take(i as int + 1).drop_last() =~= dv.take(i as int));
        assert(dv[i as int] == list@[i as int]@);
        i = i + 1;
        if i == 1 {
            assert(out@ =~= join(dv.take(1), sep@));
        } else {
            assert(out@ =~= join(dv.take(i as int), sep@));
        }
    }
    assert(list.deep_view().take(list.len() as int) =~= list.deep_view());
    string_of(&out)
}

/// Keep the first occurrence of each string of `list`.
pub fn dedup_strings(list: Vec<String>) -> (r: Vec<String>)
    ensures
        r.deep_view() == dedup(list.deep_view()),
{
    let mut out: Vec<String> = Vec::new();
    let mut i: usize = 0;
    while i < list.len()
        invariant
            i <= list.len(),
            out.deep_view() == dedup(list.deep_view().take(i as int)),
        decreases list.len() - i,
    {
        let ghost dv = list.deep_view();
        assert(dv.take(i as int + 1).drop_last() =~= dv.take(i as int));
        let found = contains_string(&out, &list[i]);
        if !found {
            out.push(list[i].clone());
        }
        i = i + 1;
        assert(out.deep_view() =~= dedup(dv.take(i as int)));
    }
    assert(list.deep_view().take(list.len() as int) =~= list.deep_view());
    out
}

/// `list` holds a string equal to `s`.
pub fn contains_string(list: &Vec<String>, s: &String) -> (r: bool)
    ensures
        r == list.deep_view().contains(s@),
{
    let mut i: usize = 0;
    while i < list.len()
        invariant
            i <= list.len(),
            forall|j: int| 0 <= j < i ==> list.deep_view()[j] != s@,
        decreases list.len() - i,
    {
        if list[i] == *s {
            assert(list.deep_view()[i as int] == s@);
            return true;
        }
        i = i + 1;
    }
    false
}

/// The predicate "is equal to `s`".
pub open spec fn equals(s: Seq<char>) -> spec_fn(Seq<char>) -> bool {
    |x: Seq<char>| x == s
}

/// Position of the first string of `list` equal to `s`.
pub fn position_of(list: &Vec<String>, s: &String) -> (r: Option<usize>)
    ensures
        match r {
            Some(k) => k < list.len() && first_index(list.deep_view(), equals(s@)) == k,
            None => first_index(list.deep_view(), equals(s@)) == -1,
        },
{
    let mut i: usize = 0;
    while i < list.len()
        invariant
            i <= list.len(),
            forall|j: int| 0 <= j < i ==> !equals(s@)(#[trigger] list.deep_view()[j]),
        decreases list.len() - i,
    {
        assert(list.deep_view()[i as int] == list@[i as int]@);
        if list[i] == *s {
            assert(list.deep_view()[i as int] == s@);
            assert(equals(s@)(list.deep_view()[i as int]));
            proof {
                lemma_first_index_is(list.deep_view(), equals(s@), i as int);
            }
            return Some(i);
        }
        i = i + 1;
    }
    proof {
        lemma_first_index_none(list.deep_view(), equals(s@));
    }
    None
}

} // verus!
