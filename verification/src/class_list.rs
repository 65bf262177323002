//! `element.classList`: the element's `class` attribute seen as an ordered set
//! of tokens (`DOMTokenList`).
use vstd::prelude::*;
use crate::dom::{attrs_set, lemma_get_after_set, DomTree, NodeId};
use crate::error::DomError;
use crate::text::{
    chars_of, contains_string, dedup, dedup_strings, first_index, is_ascii_whitespace_char,
    is_ascii_ws, is_word, join, join_strings, lemma_dedup, lemma_dedup_unique, lemma_first_index_is,
    lemma_first_index_none, lemma_tokens, lemma_tokens_of_join, position_of, split_tokens,
    tokens,
};

verus! {

// ---------------------------------------------------------------------------
// Specifications
// ---------------------------------------------------------------------------

/// Why a token is refused: empty → `SyntaxError`; containing ASCII whitespace →
/// `InvalidCharacterError`.
pub open spec fn token_error(t: Seq<char>) -> Option<DomError> {
    if t.len() == 0 {
        Some(DomError::SyntaxError)
    } else if exists|i: int| 0 <= i < t.len() && is_ascii_ws(#[trigger] t[i]) {
        Some(DomError::InvalidCharacterError)
    } else {
        None
    }
}

pub open spec fn token_invalid() -> spec_fn(Seq<char>) -> bool {
    |t: Seq<char>| token_error(t) is Some
}

/// The error of the first refused token of `toks`, if any.
pub open spec fn first_token_error(toks: Seq<Seq<char>>) -> Option<DomError> {
    let i = first_index(toks, token_invalid());
    if i < 0 {
        None
    } else {
        token_error(toks[i])
    }
}

/// The raw `class` attribute, or the empty string without one.
pub open spec fn class_value(tree: &DomTree, n: NodeId) -> Seq<char> {
    match tree.get_attr(n, "class"@) {
        Some(v) => v,
        None => Seq::empty(),
    }
}

/// The class names of `n`: the `class` attribute split on Unicode whitespace,
/// each name kept once at its first place.
pub open spec fn class_tokens(tree: &DomTree, n: NodeId) -> Seq<Seq<char>> {
    match tree.get_attr(n, "class"@) {
        Some(v) => dedup(tokens(v, true)),
        None => Seq::empty(),
    }
}

/// `new` is `old` with the `class` attribute of `n` set to `classes` joined by spaces.
pub open spec fn classes_written(old: &DomTree, new: &DomTree, n: NodeId, classes: Seq<Seq<char>>) -> bool {
    old.updated_attrs(new, n, attrs_set(old.attrs(n), "class"@, join(classes, seq![' '])))
}

pub open spec fn other_than(t: Seq<char>) -> spec_fn(Seq<char>) -> bool {
    |c: Seq<char>| c != t
}

pub open spec fn not_in(toks: Seq<Seq<char>>) -> spec_fn(Seq<char>) -> bool {
    |c: Seq<char>| !toks.contains(c)
}

// ---------------------------------------------------------------------------
// Token validation
// ---------------------------------------------------------------------------

/// Validate a DOMTokenList token per the spec:
/// - Empty string -> SyntaxError
/// - Contains ASCII whitespace -> InvalidCharacterError
pub fn validate_token(token: &str) -> (r: Result<(), DomError>)
    ensures
        match token_error(token@) {
            Some(e) => r == Err::<(), DomError>(e),
            None => r is Ok,
        },
{
    let v = chars_of(token);
    if v.len() == 0 {
        return Err(DomError::SyntaxError);
    }
    let mut i: usize = 0;
    while i < v.len()
        invariant
            v@ == token@,
            i <= v.len(),
            forall|j: int| 0 <= j < i ==> !is_ascii_ws(#[trigger] v@[j]),
        decreases v.len() - i,
    {
        if is_ascii_whitespace_char(v[i]) {
            return Err(DomError::InvalidCharacterError);
        }
        i = i + 1;
    }
    Ok(())
}

/// Validate every token, reporting the first refused one.
pub fn validate_tokens(toks: &Vec<String>) -> (r: Result<(), DomError>)
    ensures
        match first_token_error(toks.deep_view()) {
            Some(e) => r == Err::<(), DomError>(e),
            None => r is Ok,
        },
{
    let ghost dv = toks.deep_view();
    let mut i: usize = 0;
    while i < toks.len()
        invariant
            dv == toks.deep_view(),
            i <= toks.len(),
            forall|j: int| 0 <= j < i ==> !token_invalid()(#[trigger] dv[j]),
        decreases toks.len() - i,
    {
        assert(dv[i as int] == toks@[i as int]@);
        match validate_token(toks[i].as_str()) {
            Err(e) => {
                assert(token_invalid()(dv[i as int]));
                proof {
                    lemma_first_index_is(dv, token_invalid(), i as int);
                }
                return Err(e);
            },
            Ok(()) => {},
        }
        i = i + 1;
    }
    proof {
        lemma_first_index_none(dv, token_invalid());
    }
    Ok(())
}

// ---------------------------------------------------------------------------
// JsClassList
// ---------------------------------------------------------------------------

/// The class list of one element.
pub struct JsClassList {
    pub node_id: NodeId,
}

impl JsClassList {
    pub fn new(node_id: NodeId) -> (r: Self)
        ensures
            r.node_id == node_id,
    {
        JsClassList { node_id }
    }

    /// Returns true if the element has a "class" attribute (even if empty).
    pub fn has_class_attribute(&self, tree: &DomTree) -> (r: bool)
        requires
            tree.valid(self.node_id),
        ensures
            r == tree.has_attr(self.node_id, "class"@),
    {
        tree.has_attribute(self.node_id, "class")
    }

    /// Returns the raw class attribute string, or empty string if no attribute.
    pub fn get_raw_class_value(&self, tree: &DomTree) -> (r: String)
        requires
            tree.valid(self.node_id),
        ensures
            r@ == class_value(tree, self.node_id),
    {
        match tree.get_attribute(self.node_id, "class") {
            Some(v) => v,
            None => String::new(),
        }
    }

    /// Parse the class attribute into a deduplicated vector of class names.
    pub fn get_classes(&self, tree: &DomTree) -> (r: Vec<String>)
        requires
            tree.valid(self.node_id),
        ensures
            r.deep_view() == class_tokens(tree, self.node_id),
    {
        match tree.get_attribute(self.node_id, "class") {
            Some(class_str) => {
                let parts = split_tokens(class_str.as_str(), true);
                dedup_strings(parts)
            },
            None => {
                let r: Vec<String> = Vec::new();
                assert(r.deep_view() =~= Seq::<Seq<char>>::empty());
                r
            },
        }
    }

    /// Write class names back to the class attribute, joined by single spaces.
    /// When all classes are removed the attribute becomes empty (it stays).
    pub fn set_classes(&self, tree: &mut DomTree, classes: Vec<String>)
        requires
            old(tree).wf(),
            old(tree).valid(self.node_id),
        ensures
            final(tree).wf(),
            classes_written(old(tree), final(tree), self.node_id, classes.deep_view()),
    {
        let class_str = join_strings(&classes, " ");
        proof {
            reveal_strlit(" ");
        }
        assert(" "@ =~= seq![' ']);
        tree.set_attribute(self.node_id, "class", class_str.as_str());
    }

    /// `classList.add(...tokens)`: validate all tokens first, then add each one
    /// not yet present, and write the list back.
    pub fn add(&self, tree: &mut DomTree, tokens: &Vec<String>) -> (r: Result<(), DomError>)
        requires
            old(tree).wf(),
            old(tree).valid(self.node_id),
        ensures
            final(tree).wf(),
            match first_token_error(tokens.deep_view()) {
                Some(e) => r == Err::<(), DomError>(e) && *final(tree) == *old(tree),
                None => r is Ok && classes_written(
                    old(tree),
                    final(tree),
                    self.node_id,
                    dedup(class_tokens(old(tree), self.node_id) + tokens.deep_view()),
                ),
            },
    {
        match validate_tokens(tokens) {
            Err(e) => {
                return Err(e);
            },
            Ok(()) => {},
        }
        let mut classes = self.get_classes(tree);
        let ghost base = classes.deep_view();
        proof {
            let s = tree.get_attr(self.node_id, "class"@);
            if s is Some {
                lemma_dedup(crate::text::tokens(s.unwrap(), true));
            }
            lemma_dedup_unique(base);
            assert(base + tokens.deep_view().take(0) =~= base);
        }
        let mut i: usize = 0;
        while i < tokens.len()
            invariant
                i <= tokens.len(),
                classes.deep_view() == dedup(base + tokens.deep_view().take(i as int)),
            decreases tokens.len() - i,
        {
            let ghost dv = tokens.deep_view();
            assert((base + dv.take(i as int + 1)).drop_last() =~= base + dv.take(i as int));
            assert((base + dv.take(i as int + 1)).last() == tokens@[i as int]@);
            if !contains_string(&classes, &tokens[i]) {
                classes.push(tokens[i].clone());
            }
            i = i + 1;
            assert(classes.deep_view() =~= dedup(base + tokens.deep_view().take(i as int)));
        }
        assert(tokens.deep_view().take(tokens.len() as int) =~= tokens.deep_view());
        self.set_classes(tree, classes);
        Ok(())
    }

    /// `classList.remove(...tokens)`: validate all tokens first; without a class
    /// attribute nothing changes (the attribute is not created); otherwise drop
    /// every class equal to one of the tokens and write the list back.
    pub fn remove(&self, tree: &mut DomTree, tokens: &Vec<String>) -> (r: Result<(), DomError>)
        requires
            old(tree).wf(),
            old(tree).valid(self.node_id),
        ensures
            final(tree).wf(),
            match first_token_error(tokens.deep_view()) {
                Some(e) => r == Err::<(), DomError>(e) && *final(tree) == *old(tree),
                None => r is Ok && if old(tree).has_attr(self.node_id, "class"@) {
                    classes_written(
                        old(tree),
                        final(tree),
                        self.node_id,
                        class_tokens(old(tree), self.node_id).filter(not_in(tokens.deep_view())),
                    )
                } else {
                    *final(tree) == *old(tree)
                },
            },
    {
        match validate_tokens(tokens) {
            Err(e) => {
                return Err(e);
            },
            Ok(()) => {},
        }
        if !self.has_class_attribute(tree) {
            return Ok(());
        }
        let classes = self.get_classes(tree);
        let ghost cv = classes.deep_view();
        let mut kept: Vec<String> = Vec::new();
        let mut i: usize = 0;
        while i < classes.len()
            invariant
                cv == classes.deep_view(),
                i <= classes.len(),
                kept.deep_view() == cv.take(i as int).filter(not_in(tokens.deep_view())),
            decreases classes.len() - i,
        {
            assert(cv.take(i as int + 1).drop_last() =~= cv.take(i as int));
            assert(cv.take(i as int + 1).last() == classes@[i as int]@);
            reveal_with_fuel(Seq::filter, 1);
            if !contains_string(tokens, &classes[i]) {
                kept.push(classes[i].clone());
            }
            i = i + 1;
            assert(kept.deep_view() =~= cv.take(i as int).filter(not_in(tokens.deep_view())));
        }
        assert(cv.take(classes.len() as int) =~= cv);
        self.set_classes(tree, kept);
        Ok(())
    }

    /// `classList.toggle(token, force)`: returns whether the token is present
    /// afterwards. With `force` the attribute is only written when the
    /// membership changes; without it the list is always written back.
    pub fn toggle(&self, tree: &mut DomTree, token: &String, force: Option<bool>) -> (r: Result<
        bool,
        DomError,
    >)
        requires
            old(tree).wf(),
            old(tree).valid(self.node_id),
        ensures
            final(tree).wf(),
            match token_error(token@) {
                Some(e) => r == Err::<bool, DomError>(e) && *final(tree) == *old(tree),
                None => {
                    let classes = class_tokens(old(tree), self.node_id);
                    let has = classes.contains(token@);
                    let without = classes.filter(other_than(token@));
                    match force {
                        Some(true) => r == Ok::<bool, DomError>(true) && if has {
                            *final(tree) == *old(tree)
                        } else {
                            classes_written(old(tree), final(tree), self.node_id, classes.push(token@))
                        },
                        Some(false) => r == Ok::<bool, DomError>(false) && if has {
                            classes_written(old(tree), final(tree), self.node_id, without)
                        } else {
                            *final(tree) == *old(tree)
                        },
                        None => r == Ok::<bool, DomError>(!has) && classes_written(
                            old(tree),
                            final(tree),
                            self.node_id,
                            if has {
                                without
                            } else {
                                classes.push(token@)
                            },
                        ),
                    }
                },
            },
    {
        match validate_token(token.as_str()) {
            Err(e) => {
                return Err(e);
            },
            Ok(()) => {},
        }
        let mut classes = self.get_classes(tree);
        let ghost cv = classes.deep_view();
        let has_token = contains_string(&classes, token);
        match force {
            Some(true) => {
                if !has_token {
                    classes.push(token.clone());
                    assert(classes.deep_view() =~= cv.push(token@));
                    self.set_classes(tree, classes);
                }
                Ok(true)
            },
            Some(false) => {
                if has_token {
                    let kept = retain_other(&classes, token);
                    self.set_classes(tree, kept);
                }
                Ok(false)
            },
            None => {
                let result = if has_token {
                    let kept = retain_other(&classes, token);
                    classes = kept;
                    false
                } else {
                    classes.push(token.clone());
                    assert(classes.deep_view() =~= cv.push(token@));
                    true
                };
                self.set_classes(tree, classes);
                Ok(result)
            },
        }
    }

    /// `classList.replace(old, new)`: validate both tokens (old first); without a
    /// class attribute, or when `old` is not a class, returns false and changes
    /// nothing; otherwise puts `new` in place of the first `old`, drops later
    /// repetitions, writes the list back and returns true.
    pub fn replace(&self, tree: &mut DomTree, old_token: &String, new_token: &String) -> (r: Result<
        bool,
        DomError,
    >)
        requires
            old(tree).wf(),
            old(tree).valid(self.node_id),
        ensures
            final(tree).wf(),
            match token_error(old_token@) {
                Some(e) => r == Err::<bool, DomError>(e) && *final(tree) == *old(tree),
                None => match token_error(new_token@) {
                    Some(e) => r == Err::<bool, DomError>(e) && *final(tree) == *old(tree),
                    None => {
                        let classes = class_tokens(old(tree), self.node_id);
                        let pos = first_index(classes, crate::text::equals(old_token@));
                        if !old(tree).has_attr(self.node_id, "class"@) || pos < 0 {
                            r == Ok::<bool, DomError>(false) && *final(tree) == *old(tree)
                        } else {
                            r == Ok::<bool, DomError>(true) && classes_written(
                                old(tree),
                                final(tree),
                                self.node_id,
                                dedup(classes.update(pos, new_token@)),
                            )
                        }
                    },
                },
            },
    {
        match validate_token(old_token.as_str()) {
            Err(e) => {
                return Err(e);
            },
            Ok(()) => {},
        }
        match validate_token(new_token.as_str()) {
            Err(e) => {
                return Err(e);
            },
            Ok(()) => {},
        }
        if !self.has_class_attribute(tree) {
            return Ok(false);
        }
        let mut classes = self.get_classes(tree);
        let pos = match position_of(&classes, old_token) {
            Some(p) => p,
            None => {
                return Ok(false);
            },
        };
        let ghost before = classes.deep_view();
        classes.set(pos, new_token.clone());
        assert(classes.deep_view() =~= before.update(pos as int, new_token@));
        let deduped = dedup_strings(classes);
        self.set_classes(tree, deduped);
        Ok(true)
    }

    /// `classList.contains(token)`.
    pub fn contains(&self, tree: &DomTree, token: &String) -> (r: bool)
        requires
            tree.valid(self.node_id),
        ensures
            r == class_tokens(tree, self.node_id).contains(token@),
    {
        let classes = self.get_classes(tree);
        contains_string(&classes, token)
    }

    /// `classList.item(index)`: the class at `index`, or none past the end.
    pub fn item(&self, tree: &DomTree, index: usize) -> (r: Option<String>)
        requires
            tree.valid(self.node_id),
        ensures
            r.deep_view() == (if index < class_tokens(tree, self.node_id).len() {
                Some(class_tokens(tree, self.node_id)[index as int])
            } else {
                None
            }),
    {
        let classes = self.get_classes(tree);
        if index < classes.len() {
            assert(classes.deep_view()[index as int] == classes@[index as int]@);
            Some(classes[index].clone())
        } else {
            None
        }
    }

    /// `classList.length`.
    pub fn get_length(&self, tree: &DomTree) -> (r: usize)
        requires
            tree.valid(self.node_id),
        ensures
            r == class_tokens(tree, self.node_id).len(),
    {
        self.get_classes(tree).len()
    }

    /// `classList.value` getter: the raw class attribute.
    pub fn get_value(&self, tree: &DomTree) -> (r: String)
        requires
            tree.valid(self.node_id),
        ensures
            r@ == class_value(tree, self.node_id),
    {
        self.get_raw_class_value(tree)
    }

    /// `classList.value` setter: sets the raw class attribute.
    pub fn set_value(&self, tree: &mut DomTree, value: &str)
        requires
            old(tree).wf(),
            old(tree).valid(self.node_id),
        ensures
            final(tree).wf(),
            old(tree).updated_attrs(
                final(tree),
                self.node_id,
                attrs_set(old(tree).attrs(self.node_id), "class"@, value@),
            ),
    {
        tree.set_attribute(self.node_id, "class", value);
    }

    /// `classList.toString()`: the raw class attribute.
    pub fn to_string_method(&self, tree: &DomTree) -> (r: String)
        requires
            tree.valid(self.node_id),
        ensures
            r@ == class_value(tree, self.node_id),
    {
        self.get_raw_class_value(tree)
    }
}

/// The classes other than `token`, in order.
fn retain_other(classes: &Vec<String>, token: &String) -> (r: Vec<String>)
    ensures
        r.deep_view() == classes.deep_view().filter(other_than(token@)),
{
    let ghost cv = classes.deep_view();
    let mut kept: Vec<String> = Vec::new();
    let mut i: usize = 0;
    while i < classes.len()
        invariant
            cv == classes.deep_view(),
            i <= classes.len(),
            kept.deep_view() == cv.take(i as int).filter(other_than(token@)),
        decreases classes.len() - i,
    {
        assert(cv.take(i as int + 1).drop_last() =~= cv.take(i as int));
        assert(cv.take(i as int + 1).last() == classes@[i as int]@);
        reveal_with_fuel(Seq::filter, 1);
        if classes[i] != *token {
            kept.push(classes[i].clone());
        }
        i = i + 1;
        assert(kept.deep_view() =~= cv.take(i as int).filter(other_than(token@)));
    }
    assert(cv.take(classes.len() as int) =~= cv);
    kept
}

} // verus!

verus! {

// ---------------------------------------------------------------------------
// Laws
// ---------------------------------------------------------------------------

/// Every class name of an element is a word: non-empty, without Unicode whitespace.
pub proof fn lemma_class_tokens_words(tree: &DomTree, n: NodeId)
    ensures
        forall|i: int|
            0 <= i < class_tokens(tree, n).len() ==> is_word(#[trigger] class_tokens(tree, n)[i], true),
        class_tokens(tree, n).no_duplicates(),
{
    match tree.get_attr(n, "class"@) {
        Some(v) => {
            let t = tokens(v, true);
            lemma_tokens(v, true);
            lemma_dedup(t);
            let c = dedup(t);
            assert forall|i: int| 0 <= i < c.len() implies is_word(#[trigger] c[i], true) by {
                assert(c.contains(c[i]));
                assert(t.contains(c[i]));
                let k = choose|k: int| 0 <= k < t.len() && t[k] == c[i];
                assert(t[k].len() > 0);
                assert forall|j: int| 0 <= j < c[i].len() implies !crate::text::is_ws(true, #[trigger] c[i][j]) by {
                    assert(t[k][j] == c[i][j]);
                }
            }
        },
        None => {},
    }
}

/// Writing a list of distinct words to `class` and reading the class names back
/// gives the same list.
pub proof fn lemma_classes_roundtrip(t0: &DomTree, t1: &DomTree, n: NodeId, list: Seq<Seq<char>>)
    requires
        t0.is_element(n),
        classes_written(t0, t1, n, list),
        list.no_duplicates(),
        forall|i: int| 0 <= i < list.len() ==> is_word(#[trigger] list[i], true),
    ensures
        class_tokens(t1, n) == list,
{
    lemma_get_after_set(t0.attrs(n), "class"@, join(list, seq![' ']));
    assert(t1.get_attr(n, "class"@) == Some(join(list, seq![' '])));
    lemma_tokens_of_join(list, true);
    lemma_dedup_unique(list);
}

/// Law: after `classList.add(tokens)` succeeds, the class names are the old ones
/// followed by the new tokens not yet present; so every token is contained.
/// Stated for tokens without Unicode whitespace: a token holding, say, a
/// no-break space passes validation (which looks for ASCII whitespace only) but
/// is split apart when the attribute is read back.
pub proof fn lemma_add_then_contains(t0: &DomTree, t1: &DomTree, n: NodeId, toks: Seq<Seq<char>>)
    requires
        t0.is_element(n),
        first_token_error(toks) is None,
        forall|i: int| 0 <= i < toks.len() ==> is_word(#[trigger] toks[i], true),
        classes_written(t0, t1, n, dedup(class_tokens(t0, n) + toks)),
    ensures
        class_tokens(t1, n) == dedup(class_tokens(t0, n) + toks),
        forall|i: int| 0 <= i < toks.len() ==> class_tokens(t1, n).contains(#[trigger] toks[i]),
{
    let c = class_tokens(t0, n);
    let all = c + toks;
    let l = dedup(all);
    lemma_class_tokens_words(t0, n);
    lemma_dedup(all);
    assert forall|i: int| 0 <= i < l.len() implies is_word(#[trigger] l[i], true) by {
        assert(l.contains(l[i]));
        assert(all.contains(l[i]));
        let k = choose|k: int| 0 <= k < all.len() && all[k] == l[i];
        if k < c.len() {
            assert(all[k] == c[k]);
        } else {
            assert(all[k] == toks[k - c.len()]);
        }
    }
    lemma_classes_roundtrip(t0, t1, n, l);
    assert forall|i: int| 0 <= i < toks.len() implies class_tokens(t1, n).contains(#[trigger] toks[i]) by {
        assert(all[c.len() + i] == toks[i]);
        assert(all.contains(toks[i]));
    }
}

/// Law: after `classList.remove(tokens)` succeeds on an element with a class
/// attribute, the class names are the old ones without the tokens; none of the
/// tokens is contained any more.
pub proof fn lemma_remove_then_absent(t0: &DomTree, t1: &DomTree, n: NodeId, toks: Seq<Seq<char>>)
    requires
        t0.is_element(n),
        classes_written(t0, t1, n, class_tokens(t0, n).filter(not_in(toks))),
    ensures
        class_tokens(t1, n) == class_tokens(t0, n).filter(not_in(toks)),
        forall|i: int| 0 <= i < toks.len() ==> !class_tokens(t1, n).contains(#[trigger] toks[i]),
{
    let c = class_tokens(t0, n);
    let l = c.filter(not_in(toks));
    lemma_class_tokens_words(t0, n);
    broadcast use vstd::seq_lib::group_filter_ensures;
    assert forall|i: int| 0 <= i < l.len() implies is_word(#[trigger] l[i], true) by {
        assert(l.contains(l[i]));
        c.lemma_filter_contains_rev(not_in(toks), l[i]);
        let k = choose|k: int| 0 <= k < c.len() && c[k] == l[i];
    }
    crate::text::lemma_filter_unique(c, not_in(toks));
    lemma_classes_roundtrip(t0, t1, n, l);
    assert forall|i: int| 0 <= i < toks.len() implies !class_tokens(t1, n).contains(#[trigger] toks[i]) by {
        if l.contains(toks[i]) {
            let k = choose|k: int| 0 <= k < l.len() && l[k] == toks[i];
            assert(not_in(toks)(l[k]));
            assert(toks.contains(toks[i]));
        }
    }
}

/// Law: `classList.toggle(token)` without `force` returns whether the token is
/// a class name afterwards (for a token without Unicode whitespace, as for `add`).
pub proof fn lemma_toggle_result(t0: &DomTree, t1: &DomTree, n: NodeId, token: Seq<char>, r: bool)
    requires
        t0.is_element(n),
        token_error(token) is None,
        is_word(token, true),
        ({
            let classes = class_tokens(t0, n);
            let present = classes.contains(token);
            r == !present && classes_written(
                t0,
                t1,
                n,
                if present {
                    classes.filter(other_than(token))
                } else {
                    classes.push(token)
                },
            )
        }),
    ensures
        r == class_tokens(t1, n).contains(token),
{
    let c = class_tokens(t0, n);
    lemma_class_tokens_words(t0, n);
    if c.contains(token) {
        let l = c.filter(other_than(token));
        broadcast use vstd::seq_lib::group_filter_ensures;
        assert forall|i: int| 0 <= i < l.len() implies is_word(#[trigger] l[i], true) by {
            assert(l.contains(l[i]));
            c.lemma_filter_contains_rev(other_than(token), l[i]);
        }
        crate::text::lemma_filter_unique(c, other_than(token));
        lemma_classes_roundtrip(t0, t1, n, l);
        if l.contains(token) {
            let k = choose|k: int| 0 <= k < l.len() && l[k] == token;
            assert(other_than(token)(l[k]));
        }
    } else {
        let l = c.push(token);
        assert forall|i: int| 0 <= i < l.len() implies is_word(#[trigger] l[i], true) by {
            if i < c.len() {
                assert(l[i] == c[i]);
            }
        }
        assert(l.no_duplicates()) by {
            assert forall|i: int, j: int| 0 <= i < l.len() && 0 <= j < l.len() && i != j implies l[i] != l[j] by {
                if i < c.len() && j < c.len() {
                    assert(l[i] == c[i] && l[j] == c[j]);
                } else if i < c.len() {
                    assert(l[i] == c[i]);
                    assert(c.contains(c[i]));
                } else if j < c.len() {
                    assert(l[j] == c[j]);
                    assert(c.contains(c[j]));
                }
            }
        }
        lemma_classes_roundtrip(t0, t1, n, l);
        assert(l[c.len() as int] == token);
    }
}

} // verus!
