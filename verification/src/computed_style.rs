//! `getComputedStyle(element)`: a read-only snapshot of an element's computed
//! style properties (`CSSStyleDeclaration`), read by property name or through
//! the camelCase accessors.
use vstd::prelude::*;
use crate::anchor_form::spec_camel_to_kebab;
use crate::dom::{DomTree, NodeId};
use crate::text::{
    first_index, last_index, lemma_first_index, lemma_first_index_is,
    lemma_first_index_none, lemma_last_index_is, owned, str_eq,
};

verus! {

/// Style properties as (name, value) pairs.
pub type StylePairs = Seq<(Seq<char>, Seq<char>)>;

/// The pairs of a vector of owned strings, seen through their views.
pub open spec fn pair_views(v: Seq<(String, String)>) -> StylePairs {
    v.map_values(|p: (String, String)| (p.0@, p.1@))
}

/// Predicate: the pair's property name is `name`.
pub open spec fn key_is(name: Seq<char>) -> spec_fn((Seq<char>, Seq<char>)) -> bool {
    |p: (Seq<char>, Seq<char>)| p.0 == name
}

/// Map insertion on a pair list: replace the value of `name`, or append it.
pub open spec fn style_insert(m: StylePairs, name: Seq<char>, value: Seq<char>) -> StylePairs {
    let i = first_index(m, key_is(name));
    if i >= 0 {
        m.update(i, (name, value))
    } else {
        m.push((name, value))
    }
}

/// The map that collecting `pairs` builds: each name once, the last value
/// given for it winning.
pub open spec fn style_map(pairs: StylePairs) -> StylePairs
    decreases pairs.len(),
{
    if pairs.len() == 0 {
        Seq::empty()
    } else {
        style_insert(style_map(pairs.drop_last()), pairs.last().0, pairs.last().1)
    }
}

/// The value of property `name`, or the empty string when it has none.
pub open spec fn style_lookup(m: StylePairs, name: Seq<char>) -> Seq<char> {
    let i = first_index(m, key_is(name));
    if i >= 0 {
        m[i].1
    } else {
        Seq::empty()
    }
}

/// No property name occurs twice.
pub open spec fn distinct_names(m: StylePairs) -> bool {
    forall|i: int, j: int| 0 <= i < m.len() && 0 <= j < m.len() && i != j ==> (#[trigger] m[i]).0 != (#[trigger] m[j]).0
}

/// Position of the first pair of `styles` named `name`.
fn position_of_name(styles: &Vec<(String, String)>, name: &str) -> (r: Option<usize>)
    ensures
        match r {
            Some(j) => j < styles.len() && first_index(pair_views(styles@), key_is(name@)) == j,
            None => first_index(pair_views(styles@), key_is(name@)) == -1,
        },
{
    let ghost v = pair_views(styles@);
    let mut j: usize = 0;
    while j < styles.len()
        invariant
            j <= styles.len(),
            v == pair_views(styles@),
            forall|k: int| 0 <= k < j ==> !key_is(name@)(#[trigger] v[k]),
        decreases styles.len() - j,
    {
        assert(v[j as int] == (styles@[j as int].0@, styles@[j as int].1@));
        if str_eq(styles[j].0.as_str(), name) {
            proof {
                lemma_first_index_is(v, key_is(name@), j as int);
            }
            return Some(j);
        }
        j = j + 1;
    }
    proof {
        lemma_first_index_none(v, key_is(name@));
    }
    None
}

/// A snapshot of an element's computed style.
pub struct JsComputedStyle {
    styles: Vec<(String, String)>,
}

impl View for JsComputedStyle {
    type V = StylePairs;

    closed spec fn view(&self) -> StylePairs {
        pair_views(self.styles@)
    }
}

impl JsComputedStyle {
    /// The snapshot of the properties `pairs` (a later value for a property
    /// replaces an earlier one).
    pub fn from_pairs(pairs: &Vec<(String, String)>) -> (r: JsComputedStyle)
        ensures
            r@ == style_map(pair_views(pairs@)),
    {
        let mut styles: Vec<(String, String)> = Vec::new();
        let mut i: usize = 0;
        while i < pairs.len()
            invariant
                i <= pairs.len(),
                pair_views(styles@) == style_map(pair_views(pairs@).take(i as int)),
            decreases pairs.len() - i,
        {
            let ghost pv = pair_views(pairs@);
            assert(pv.take(i as int + 1).drop_last() =~= pv.take(i as int));
            assert(pv[i as int] == (pairs@[i as int].0@, pairs@[i as int].1@));
            let name = pairs[i].0.clone();
            let value = pairs[i].1.clone();
            let ghost before = pair_views(styles@);
            match position_of_name(&styles, name.as_str()) {
                Some(j) => {
                    styles.set(j, (name, value));
                    assert(pair_views(styles@) =~= before.update(
                        j as int,
                        (pairs@[i as int].0@, pairs@[i as int].1@),
                    ));
                },
                None => {
                    styles.push((name, value));
                    assert(pair_views(styles@) =~= before.push((pairs@[i as int].0@, pairs@[i as int].1@)));
                },
            }
            i = i + 1;
        }
        assert(pair_views(pairs@).take(pairs.len() as int) =~= pair_views(pairs@));
        JsComputedStyle { styles }
    }

    /// The snapshot `getComputedStyle` takes of node `n`.
    pub fn for_node(tree: &DomTree, n: NodeId) -> (r: JsComputedStyle)
        requires
            tree.valid(n),
        ensures
            r@ == style_map(pair_views(tree.node(n).computed_style@)),
    {
        JsComputedStyle::from_pairs(&tree.get_node(n).computed_style)
    }

    /// `getPropertyValue(prop)`: the value of `prop`, or the empty string.
    pub fn lookup(&self, prop: &str) -> (r: String)
        ensures
            r@ == style_lookup(self@, prop@),
    {
        let mut i: usize = 0;
        while i < self.styles.len()
            invariant
                i <= self.styles.len(),
                forall|k: int| 0 <= k < i ==> !key_is(prop@)(#[trigger] self@[k]),
            decreases self.styles.len() - i,
        {
            assert(self@[i as int] == (self.styles@[i as int].0@, self.styles@[i as int].1@));
            if str_eq(self.styles[i].0.as_str(), prop) {
                proof {
                    lemma_first_index_is(self@, key_is(prop@), i as int);
                }
                return self.styles[i].1.clone();
            }
            i = i + 1;
        }
        proof {
            lemma_first_index_none(self@, key_is(prop@));
        }
        String::new()
    }

    /// `length`: the number of properties.
    pub fn length(&self) -> (r: usize)
        ensures
            r == self@.len(),
    {
        self.styles.len()
    }
}

/// The property a camelCase accessor of `CSSStyleDeclaration` reads.
pub open spec fn accessor_lookup(camel: Seq<char>) -> Option<Seq<char>> {
    if camel == "color"@ {
        Some("color"@)
    } else if camel == "display"@ {
        Some("display"@)
    } else if camel == "visibility"@ {
        Some("visibility"@)
    } else if camel == "fontSize"@ {
        Some("font-size"@)
    } else if camel == "fontFamily"@ {
        Some("font-family"@)
    } else if camel == "fontWeight"@ {
        Some("font-weight"@)
    } else if camel == "fontStyle"@ {
        Some("font-style"@)
    } else if camel == "backgroundColor"@ {
        Some("background-color"@)
    } else if camel == "margin"@ {
        Some("margin"@)
    } else if camel == "marginTop"@ {
        Some("margin-top"@)
    } else if camel == "marginRight"@ {
        Some("margin-right"@)
    } else if camel == "marginBottom"@ {
        Some("margin-bottom"@)
    } else if camel == "marginLeft"@ {
        Some("margin-left"@)
    } else if camel == "padding"@ {
        Some("padding"@)
    } else if camel == "paddingTop"@ {
        Some("padding-top"@)
    } else if camel == "paddingRight"@ {
        Some("padding-right"@)
    } else if camel == "paddingBottom"@ {
        Some("padding-bottom"@)
    } else if camel == "paddingLeft"@ {
        Some("padding-left"@)
    } else if camel == "width"@ {
        Some("width"@)
    } else if camel == "height"@ {
        Some("height"@)
    } else if camel == "border"@ {
        Some("border"@)
    } else if camel == "position"@ {
        Some("position"@)
    } else if camel == "top"@ {
        Some("top"@)
    } else if camel == "right"@ {
        Some("right"@)
    } else if camel == "bottom"@ {
        Some("bottom"@)
    } else if camel == "left"@ {
        Some("left"@)
    } else if camel == "textAlign"@ {
        Some("text-align"@)
    } else if camel == "textDecoration"@ {
        Some("text-decoration"@)
    } else if camel == "lineHeight"@ {
        Some("line-height"@)
    } else if camel == "overflow"@ {
        Some("overflow"@)
    } else if camel == "cursor"@ {
        Some("cursor"@)
    } else if camel == "opacity"@ {
        Some("opacity"@)
    } else if camel == "zIndex"@ {
        Some("z-index"@)
    } else {
        None
    }
}

/// The property read by the camelCase accessor `camel`, if it is one.
pub fn accessor_property(camel: &str) -> (r: Option<String>)
    ensures
        r.deep_view() == accessor_lookup(camel@),
{
    if str_eq(camel, "color") {
        return Some(owned("color"));
    }
    if str_eq(camel, "display") {
        return Some(owned("display"));
    }
    if str_eq(camel, "visibility") {
        return Some(owned("visibility"));
    }
    if str_eq(camel, "fontSize") {
        return Some(owned("font-size"));
    }
    if str_eq(camel, "fontFamily") {
        return Some(owned("font-family"));
    }
    if str_eq(camel, "fontWeight") {
        return Some(owned("font-weight"));
    }
    if str_eq(camel, "fontStyle") {
        return Some(owned("font-style"));
    }
    if str_eq(camel, "backgroundColor") {
        return Some(owned("background-color"));
    }
    if str_eq(camel, "margin") {
        return Some(owned("margin"));
    }
    if str_eq(camel, "marginTop") {
        return Some(owned("margin-top"));
    }
    if str_eq(camel, "marginRight") {
        return Some(owned("margin-right"));
    }
    if str_eq(camel, "marginBottom") {
        return Some(owned("margin-bottom"));
    }
    if str_eq(camel, "marginLeft") {
        return Some(owned("margin-left"));
    }
    if str_eq(camel, "padding") {
        return Some(owned("padding"));
    }
    if str_eq(camel, "paddingTop") {
        return Some(owned("padding-top"));
    }
    if str_eq(camel, "paddingRight") {
        return Some(owned("padding-right"));
    }
    if str_eq(camel, "paddingBottom") {
        return Some(owned("padding-bottom"));
    }
    if str_eq(camel, "paddingLeft") {
        return Some(owned("padding-left"));
    }
    if str_eq(camel, "width") {
        return Some(owned("width"));
    }
    if str_eq(camel, "height") {
        return Some(owned("height"));
    }
    if str_eq(camel, "border") {
        return Some(owned("border"));
    }
    if str_eq(camel, "position") {
        return Some(owned("position"));
    }
    if str_eq(camel, "top") {
        return Some(owned("top"));
    }
    if str_eq(camel, "right") {
        return Some(owned("right"));
    }
    if str_eq(camel, "bottom") {
        return Some(owned("bottom"));
    }
    if str_eq(camel, "left") {
        return Some(owned("left"));
    }
    if str_eq(camel, "textAlign") {
        return Some(owned("text-align"));
    }
    if str_eq(camel, "textDecoration") {
        return Some(owned("text-decoration"));
    }
    if str_eq(camel, "lineHeight") {
        return Some(owned("line-height"));
    }
    if str_eq(camel, "overflow") {
        return Some(owned("overflow"));
    }
    if str_eq(camel, "cursor") {
        return Some(owned("cursor"));
    }
    if str_eq(camel, "opacity") {
        return Some(owned("opacity"));
    }
    if str_eq(camel, "zIndex") {
        return Some(owned("z-index"));
    }
    None
}

// ---------------------------------------------------------------------------
// Laws
// ---------------------------------------------------------------------------

/// The value the last pair named `name` gives, or the empty string.
pub open spec fn last_value(pairs: StylePairs, name: Seq<char>) -> Seq<char> {
    let i = last_index(pairs, key_is(name));
    if i >= 0 {
        pairs[i].1
    } else {
        Seq::empty()
    }
}

proof fn lemma_insert_distinct(m: StylePairs, name: Seq<char>, value: Seq<char>)
    requires
        distinct_names(m),
    ensures
        distinct_names(style_insert(m, name, value)),
        forall|i: int| 0 <= i < style_insert(m, name, value).len() ==> (#[trigger] style_insert(m, name, value)[i]).0 == name || m.contains(style_insert(m, name, value)[i]),
{
    let r = style_insert(m, name, value);
    lemma_first_index(m, key_is(name));
    let i = first_index(m, key_is(name));
    if i >= 0 {
        assert forall|a: int, b: int| 0 <= a < r.len() && 0 <= b < r.len() && a != b implies (#[trigger] r[a]).0 != (#[trigger] r[b]).0 by {
            assert(r[a].0 == m[a].0);
            assert(r[b].0 == m[b].0);
        }
        assert forall|a: int| 0 <= a < r.len() implies (#[trigger] r[a]).0 == name || m.contains(r[a]) by {
            if a != i {
                assert(r[a] == m[a]);
            }
        }
    } else {
        assert forall|a: int, b: int| 0 <= a < r.len() && 0 <= b < r.len() && a != b implies (#[trigger] r[a]).0 != (#[trigger] r[b]).0 by {
            if a == m.len() {
                assert(!key_is(name)(m[b]));
            } else if b == m.len() {
                assert(!key_is(name)(m[a]));
            }
        }
        assert forall|a: int| 0 <= a < r.len() implies (#[trigger] r[a]).0 == name || m.contains(r[a]) by {
            if a < m.len() {
                assert(r[a] == m[a]);
            }
        }
    }
}

/// A snapshot names each property once, so its `length` counts distinct
/// properties.
pub proof fn lemma_style_map_distinct(pairs: StylePairs)
    ensures
        distinct_names(style_map(pairs)),
    decreases pairs.len(),
{
    if pairs.len() > 0 {
        lemma_style_map_distinct(pairs.drop_last());
        lemma_insert_distinct(style_map(pairs.drop_last()), pairs.last().0, pairs.last().1);
    }
}

proof fn lemma_first_index_push_other<A>(s: Seq<A>, p: spec_fn(A) -> bool, x: A)
    requires
        !p(x),
    ensures
        first_index(s.push(x), p) == first_index(s, p),
{
    let t = s.push(x);
    lemma_first_index(s, p);
    let i = first_index(s, p);
    if i >= 0 {
        assert forall|j: int| 0 <= j < i implies !p(#[trigger] t[j]) by {
            assert(t[j] == s[j]);
        }
        assert(t[i] == s[i]);
        lemma_first_index_is(t, p, i);
    } else {
        assert forall|j: int| 0 <= j < t.len() implies !p(#[trigger] t[j]) by {
            if j < s.len() {
                assert(t[j] == s[j]);
            }
        }
        lemma_first_index_none(t, p);
    }
}

/// Reading a property of the snapshot of `pairs` gives the last value given
/// for it, or the empty string.
pub proof fn lemma_lookup_last_value(pairs: StylePairs, name: Seq<char>)
    ensures
        style_lookup(style_map(pairs), name) == last_value(pairs, name),
    decreases pairs.len(),
{
    if pairs.len() > 0 {
        let front = pairs.drop_last();
        lemma_lookup_last_value(front, name);
        let m = style_map(front);
        let (n, v) = pairs.last();
        let r = style_insert(m, n, v);
        assert(style_map(pairs) == r);
        let p = key_is(name);
        lemma_first_index(m, key_is(n));
        let i = first_index(m, key_is(n));
        if n == name {
            lemma_last_index_is(pairs, p, pairs.len() - 1);
            if i >= 0 {
                assert forall|j: int| 0 <= j < i implies !p(#[trigger] r[j]) by {
                    assert(r[j] == m[j]);
                }
                lemma_first_index_is(r, p, i);
            } else {
                assert forall|j: int| 0 <= j < m.len() implies !p(#[trigger] r[j]) by {
                    assert(r[j] == m[j]);
                }
                lemma_first_index_is(r, p, m.len() as int);
            }
            assert(style_lookup(r, name) == v);
            assert(last_value(pairs, name) == v);
        } else {
            assert(last_index(pairs, p) == last_index(front, p));
            lemma_first_index(m, p);
            if i >= 0 {
                assert forall|j: int| 0 <= j < r.len() implies #[trigger] p(r[j]) == p(m[j]) by {
                    if j == i {
                        assert(m[j].0 == n);
                    } else {
                        assert(r[j] == m[j]);
                    }
                }
                lemma_first_index_agree_two(m, r, p);
                let k = first_index(m, p);
                if k >= 0 {
                    assert(k != i) by {
                        assert(p(m[k]));
                        assert(m[i].0 == n);
                    }
                    assert(r[k] == m[k]);
                }
            } else {
                lemma_first_index_push_other(m, p, (n, v));
                let k = first_index(m, p);
                if k >= 0 {
                    assert(r[k] == m[k]);
                }
            }
            assert(style_lookup(r, name) == style_lookup(m, name));
            crate::text::lemma_last_index(front, p);
            let li = last_index(front, p);
            if li >= 0 {
                assert(pairs[li] == front[li]);
            }
            assert(last_value(pairs, name) == last_value(front, name));
        }
    }
}

/// Two equally long sequences on which `p` agrees pointwise have the same
/// first index for `p`.
proof fn lemma_first_index_agree_two<A>(s: Seq<A>, t: Seq<A>, p: spec_fn(A) -> bool)
    requires
        s.len() == t.len(),
        forall|j: int| 0 <= j < t.len() ==> #[trigger] p(t[j]) == p(s[j]),
    ensures
        first_index(s, p) == first_index(t, p),
{
    lemma_first_index(s, p);
    let i = first_index(s, p);
    if i >= 0 {
        assert(p(t[i]));
        assert forall|j: int| 0 <= j < i implies !p(#[trigger] t[j]) by {
            assert(!p(s[j]));
        }
        lemma_first_index_is(t, p, i);
    } else {
        assert forall|j: int| 0 <= j < t.len() implies !p(#[trigger] t[j]) by {
            assert(!p(s[j]));
        }
        lemma_first_index_none(t, p);
    }
}

/// Each camelCase accessor reads the property named by the kebab-case form of
/// its own name (`marginTop` reads `margin-top`, `zIndex` reads `z-index`).
pub proof fn lemma_accessor_reads_kebab_form(camel: Seq<char>)
    ensures
        accessor_lookup(camel) matches Some(p) ==> p == spec_camel_to_kebab(camel),
{
    lemma_kebab_of_color();
    lemma_kebab_of_display();
    lemma_kebab_of_visibility();
    lemma_kebab_of_font_size();
    lemma_kebab_of_font_family();
    lemma_kebab_of_font_weight();
    lemma_kebab_of_font_style();
    lemma_kebab_of_background_color();
    lemma_kebab_of_margin();
    lemma_kebab_of_margin_top();
    lemma_kebab_of_margin_right();
    lemma_kebab_of_margin_bottom();
    lemma_kebab_of_margin_left();
    lemma_kebab_of_padding();
    lemma_kebab_of_padding_top();
    lemma_kebab_of_padding_right();
    lemma_kebab_of_padding_bottom();
    lemma_kebab_of_padding_left();
    lemma_kebab_of_width();
    lemma_kebab_of_height();
    lemma_kebab_of_border();
    lemma_kebab_of_position();
    lemma_kebab_of_top();
    lemma_kebab_of_right();
    lemma_kebab_of_bottom();
    lemma_kebab_of_left();
    lemma_kebab_of_text_align();
    lemma_kebab_of_text_decoration();
    lemma_kebab_of_line_height();
    lemma_kebab_of_overflow();
    lemma_kebab_of_cursor();
    lemma_kebab_of_opacity();
    lemma_kebab_of_z_index();
}

proof fn lemma_kebab_of_color()
    ensures
        spec_camel_to_kebab("color"@) == "color"@,
{
    reveal_strlit("color");
    reveal_strlit("color");
    reveal_with_fuel(spec_camel_to_kebab, 6);
    assert(spec_camel_to_kebab("color"@) =~= "color"@);
}

proof fn lemma_kebab_of_display()
    ensures
        spec_camel_to_kebab("display"@) == "display"@,
{
    reveal_strlit("display");
    reveal_strlit("display");
    reveal_with_fuel(spec_camel_to_kebab, 8);
    assert(spec_camel_to_kebab("display"@) =~= "display"@);
}

proof fn lemma_kebab_of_visibility()
    ensures
        spec_camel_to_kebab("visibility"@) == "visibility"@,
{
    reveal_strlit("visibility");
    reveal_strlit("visibility");
    reveal_with_fuel(spec_camel_to_kebab, 11);
    assert(spec_camel_to_kebab("visibility"@) =~= "visibility"@);
}

proof fn lemma_kebab_of_font_size()
    ensures
        spec_camel_to_kebab("fontSize"@) == "font-size"@,
{
    reveal_strlit("fontSize");
    reveal_strlit("font-size");
    reveal_with_fuel(spec_camel_to_kebab, 9);
    assert(spec_camel_to_kebab("fontSize"@) =~= "font-size"@);
}

proof fn lemma_kebab_of_font_family()
    ensures
        spec_camel_to_kebab("fontFamily"@) == "font-family"@,
{
    reveal_strlit("fontFamily");
    reveal_strlit("font-family");
    reveal_with_fuel(spec_camel_to_kebab, 11);
    assert(spec_camel_to_kebab("fontFamily"@) =~= "font-family"@);
}

proof fn lemma_kebab_of_font_weight()
    ensures
        spec_camel_to_kebab("fontWeight"@) == "font-weight"@,
{
    reveal_strlit("fontWeight");
    reveal_strlit("font-weight");
    reveal_with_fuel(spec_camel_to_kebab, 11);
    assert(spec_camel_to_kebab("fontWeight"@) =~= "font-weight"@);
}

proof fn lemma_kebab_of_font_style()
    ensures
        spec_camel_to_kebab("fontStyle"@) == "font-style"@,
{
    reveal_strlit("fontStyle");
    reveal_strlit("font-style");
    reveal_with_fuel(spec_camel_to_kebab, 10);
    assert(spec_camel_to_kebab("fontStyle"@) =~= "font-style"@);
}

proof fn lemma_kebab_of_background_color()
    ensures
        spec_camel_to_kebab("backgroundColor"@) == "background-color"@,
{
    reveal_strlit("backgroundColor");
    reveal_strlit("background-color");
    reveal_with_fuel(spec_camel_to_kebab, 16);
    assert(spec_camel_to_kebab("backgroundColor"@) =~= "background-color"@);
}

proof fn lemma_kebab_of_margin()
    ensures
        spec_camel_to_kebab("margin"@) == "margin"@,
{
    reveal_strlit("margin");
    reveal_strlit("margin");
    reveal_with_fuel(spec_camel_to_kebab, 7);
    assert(spec_camel_to_kebab("margin"@) =~= "margin"@);
}

proof fn lemma_kebab_of_margin_top()
    ensures
        spec_camel_to_kebab("marginTop"@) == "margin-top"@,
{
    reveal_strlit("marginTop");
    reveal_strlit("margin-top");
    reveal_with_fuel(spec_camel_to_kebab, 10);
    assert(spec_camel_to_kebab("marginTop"@) =~= "margin-top"@);
}

proof fn lemma_kebab_of_margin_right()
    ensures
        spec_camel_to_kebab("marginRight"@) == "margin-right"@,
{
    reveal_strlit("marginRight");
    reveal_strlit("margin-right");
    reveal_with_fuel(spec_camel_to_kebab, 12);
    assert(spec_camel_to_kebab("marginRight"@) =~= "margin-right"@);
}

proof fn lemma_kebab_of_margin_bottom()
    ensures
        spec_camel_to_kebab("marginBottom"@) == "margin-bottom"@,
{
    reveal_strlit("marginBottom");
    reveal_strlit("margin-bottom");
    reveal_with_fuel(spec_camel_to_kebab, 13);
    assert(spec_camel_to_kebab("marginBottom"@) =~= "margin-bottom"@);
}

proof fn lemma_kebab_of_margin_left()
    ensures
        spec_camel_to_kebab("marginLeft"@) == "margin-left"@,
{
    reveal_strlit("marginLeft");
    reveal_strlit("margin-left");
    reveal_with_fuel(spec_camel_to_kebab, 11);
    assert(spec_camel_to_kebab("marginLeft"@) =~= "margin-left"@);
}

proof fn lemma_kebab_of_padding()
    ensures
        spec_camel_to_kebab("padding"@) == "padding"@,
{
    reveal_strlit("padding");
    reveal_strlit("padding");
    reveal_with_fuel(spec_camel_to_kebab, 8);
    assert(spec_camel_to_kebab("padding"@) =~= "padding"@);
}

proof fn lemma_kebab_of_padding_top()
    ensures
        spec_camel_to_kebab("paddingTop"@) == "padding-top"@,
{
    reveal_strlit("paddingTop");
    reveal_strlit("padding-top");
    reveal_with_fuel(spec_camel_to_kebab, 11);
    assert(spec_camel_to_kebab("paddingTop"@) =~= "padding-top"@);
}

proof fn lemma_kebab_of_padding_right()
    ensures
        spec_camel_to_kebab("paddingRight"@) == "padding-right"@,
{
    reveal_strlit("paddingRight");
    reveal_strlit("padding-right");
    reveal_with_fuel(spec_camel_to_kebab, 13);
    assert(spec_camel_to_kebab("paddingRight"@) =~= "padding-right"@);
}

proof fn lemma_kebab_of_padding_bottom()
    ensures
        spec_camel_to_kebab("paddingBottom"@) == "padding-bottom"@,
{
    reveal_strlit("paddingBottom");
    reveal_strlit("padding-bottom");
    reveal_with_fuel(spec_camel_to_kebab, 14);
    assert(spec_camel_to_kebab("paddingBottom"@) =~= "padding-bottom"@);
}

proof fn lemma_kebab_of_padding_left()
    ensures
        spec_camel_to_kebab("paddingLeft"@) == "padding-left"@,
{
    reveal_strlit("paddingLeft");
    reveal_strlit("padding-left");
    reveal_with_fuel(spec_camel_to_kebab, 12);
    assert(spec_camel_to_kebab("paddingLeft"@) =~= "padding-left"@);
}

proof fn lemma_kebab_of_width()
    ensures
        spec_camel_to_kebab("width"@) == "width"@,
{
    reveal_strlit("width");
    reveal_strlit("width");
    reveal_with_fuel(spec_camel_to_kebab, 6);
    assert(spec_camel_to_kebab("width"@) =~= "width"@);
}

proof fn lemma_kebab_of_height()
    ensures
        spec_camel_to_kebab("height"@) == "height"@,
{
    reveal_strlit("height");
    reveal_strlit("height");
    reveal_with_fuel(spec_camel_to_kebab, 7);
    assert(spec_camel_to_kebab("height"@) =~= "height"@);
}

proof fn lemma_kebab_of_border()
    ensures
        spec_camel_to_kebab("border"@) == "border"@,
{
    reveal_strlit("border");
    reveal_strlit("border");
    reveal_with_fuel(spec_camel_to_kebab, 7);
    assert(spec_camel_to_kebab("border"@) =~= "border"@);
}

proof fn lemma_kebab_of_position()
    ensures
        spec_camel_to_kebab("position"@) == "position"@,
{
    reveal_strlit("position");
    reveal_strlit("position");
    reveal_with_fuel(spec_camel_to_kebab, 9);
    assert(spec_camel_to_kebab("position"@) =~= "position"@);
}

proof fn lemma_kebab_of_top()
    ensures
        spec_camel_to_kebab("top"@) == "top"@,
{
    reveal_strlit("top");
    reveal_strlit("top");
    reveal_with_fuel(spec_camel_to_kebab, 4);
    assert(spec_camel_to_kebab("top"@) =~= "top"@);
}

proof fn lemma_kebab_of_right()
    ensures
        spec_camel_to_kebab("right"@) == "right"@,
{
    reveal_strlit("right");
    reveal_strlit("right");
    reveal_with_fuel(spec_camel_to_kebab, 6);
    assert(spec_camel_to_kebab("right"@) =~= "right"@);
}

proof fn lemma_kebab_of_bottom()
    ensures
        spec_camel_to_kebab("bottom"@) == "bottom"@,
{
    reveal_strlit("bottom");
    reveal_strlit("bottom");
    reveal_with_fuel(spec_camel_to_kebab, 7);
    assert(spec_camel_to_kebab("bottom"@) =~= "bottom"@);
}

proof fn lemma_kebab_of_left()
    ensures
        spec_camel_to_kebab("left"@) == "left"@,
{
    reveal_strlit("left");
    reveal_strlit("left");
    reveal_with_fuel(spec_camel_to_kebab, 5);
    assert(spec_camel_to_kebab("left"@) =~= "left"@);
}

proof fn lemma_kebab_of_text_align()
    ensures
        spec_camel_to_kebab("textAlign"@) == "text-align"@,
{
    reveal_strlit("textAlign");
    reveal_strlit("text-align");
    reveal_with_fuel(spec_camel_to_kebab, 10);
    assert(spec_camel_to_kebab("textAlign"@) =~= "text-align"@);
}

proof fn lemma_kebab_of_text_decoration()
    ensures
        spec_camel_to_kebab("textDecoration"@) == "text-decoration"@,
{
    reveal_strlit("textDecoration");
    reveal_strlit("text-decoration");
    reveal_with_fuel(spec_camel_to_kebab, 15);
    assert(spec_camel_to_kebab("textDecoration"@) =~= "text-decoration"@);
}

proof fn lemma_kebab_of_line_height()
    ensures
        spec_camel_to_kebab("lineHeight"@) == "line-height"@,
{
    reveal_strlit("lineHeight");
    reveal_strlit("line-height");
    reveal_with_fuel(spec_camel_to_kebab, 11);
    assert(spec_camel_to_kebab("lineHeight"@) =~= "line-height"@);
}

proof fn lemma_kebab_of_overflow()
    ensures
        spec_camel_to_kebab("overflow"@) == "overflow"@,
{
    reveal_strlit("overflow");
    reveal_strlit("overflow");
    reveal_with_fuel(spec_camel_to_kebab, 9);
    assert(spec_camel_to_kebab("overflow"@) =~= "overflow"@);
}

proof fn lemma_kebab_of_cursor()
    ensures
        spec_camel_to_kebab("cursor"@) == "cursor"@,
{
    reveal_strlit("cursor");
    reveal_strlit("cursor");
    reveal_with_fuel(spec_camel_to_kebab, 7);
    assert(spec_camel_to_kebab("cursor"@) =~= "cursor"@);
}

proof fn lemma_kebab_of_opacity()
    ensures
        spec_camel_to_kebab("opacity"@) == "opacity"@,
{
    reveal_strlit("opacity");
    reveal_strlit("opacity");
    reveal_with_fuel(spec_camel_to_kebab, 8);
    assert(spec_camel_to_kebab("opacity"@) =~= "opacity"@);
}

proof fn lemma_kebab_of_z_index()
    ensures
        spec_camel_to_kebab("zIndex"@) == "z-index"@,
{
    reveal_strlit("zIndex");
    reveal_strlit("z-index");
    reveal_with_fuel(spec_camel_to_kebab, 7);
    assert(spec_camel_to_kebab("zIndex"@) =~= "z-index"@);
}

} // verus!
