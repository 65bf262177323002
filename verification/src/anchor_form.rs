//! Reflected properties of anchors, forms and all elements: `a.href`,
//! `form.action`, `form.method`, `form.elements`, `element.hidden`, and the
//! `element.dataset` map over `data-*` attributes with its name conversions.
use vstd::prelude::*;
use crate::dom::{
    at_most_one, attrs_remove, attrs_set, lemma_absent_after_remove, lemma_get_after_set, local_is,
    qname_is, value_where, AttrView, DomTree, NodeId,
};
use crate::text::{
    ascii_lower, ascii_lower_char, char_to_uppercase, chars_of, concat, extend_chars, first_index,
    ascii_upper_char, is_ascii_lower, is_ascii_upper, lemma_first_index_agree, lower_char, owned,
    starts_with, string_of, string_of_range, upper_of,
};

verus! {

// ---------------------------------------------------------------------------
// Name conversions of the dataset map
// ---------------------------------------------------------------------------

/// Left-to-right scan of a kebab-case name: the camelCase text produced so far,
/// and whether the last character read was a hyphen.
pub open spec fn kebab_scan(s: Seq<char>) -> (Seq<char>, bool)
    decreases s.len(),
{
    if s.len() == 0 {
        (Seq::empty(), false)
    } else {
        let (out, after_hyphen) = kebab_scan(s.drop_last());
        let c = s.last();
        if c == '-' {
            (
                if after_hyphen {
                    out.push('-')
                } else {
                    out
                },
                true,
            )
        } else if after_hyphen {
            (out + upper_of(c), false)
        } else {
            (out.push(c), false)
        }
    }
}

/// kebab-case to camelCase: a hyphen followed by another character becomes
/// that character uppercased (`char::to_uppercase`); a hyphen after a hyphen,
/// and a trailing hyphen, are kept.
pub open spec fn spec_kebab_to_camel(s: Seq<char>) -> Seq<char> {
    let (out, after_hyphen) = kebab_scan(s);
    if after_hyphen {
        out.push('-')
    } else {
        out
    }
}

/// What camelCase to kebab-case makes of one character.
pub open spec fn kebab_piece(c: char) -> Seq<char> {
    if is_ascii_upper(c) {
        seq!['-', ascii_lower_char(c)]
    } else {
        seq![c]
    }
}

/// camelCase to kebab-case: each ASCII uppercase letter becomes a hyphen
/// followed by its lowercase; every other character is kept.
pub open spec fn spec_camel_to_kebab(s: Seq<char>) -> Seq<char>
    decreases s.len(),
{
    if s.len() == 0 {
        Seq::empty()
    } else {
        spec_camel_to_kebab(s.drop_last()) + kebab_piece(s.last())
    }
}

/// `kebab_to_camel("user-id") == "userId"`.
pub fn kebab_to_camel(s: &str) -> (r: String)
    ensures
        r@ == spec_kebab_to_camel(s@),
{
    let v = chars_of(s);
    let mut out: Vec<char> = Vec::new();
    let mut after_hyphen = false;
    let mut i: usize = 0;
    while i < v.len()
        invariant
            v@ == s@,
            i <= v.len(),
            out@ == kebab_scan(s@.take(i as int)).0,
            after_hyphen == kebab_scan(s@.take(i as int)).1,
        decreases v.len() - i,
    {
        let c = v[i];
        assert(s@.take(i as int + 1).drop_last() =~= s@.take(i as int));
        assert(s@.take(i as int + 1).last() == c);
        if c == '-' {
            if after_hyphen {
                out.push('-');
            }
            after_hyphen = true;
        } else if after_hyphen {
            let up = char_to_uppercase(c);
            let uv = chars_of(up.as_str());
            extend_chars(&mut out, &uv);
            after_hyphen = false;
        } else {
            out.push(c);
        }
        i = i + 1;
    }
    assert(s@.take(v.len() as int) =~= s@);
    if after_hyphen {
        out.push('-');
    }
    string_of(&out)
}

/// `camel_to_kebab("dateOfBirth") == "date-of-birth"`.
pub fn camel_to_kebab(s: &str) -> (r: String)
    ensures
        r@ == spec_camel_to_kebab(s@),
{
    let v = chars_of(s);
    let mut out: Vec<char> = Vec::new();
    let mut i: usize = 0;
    while i < v.len()
        invariant
            v@ == s@,
            i <= v.len(),
            out@ == spec_camel_to_kebab(s@.take(i as int)),
        decreases v.len() - i,
    {
        let c = v[i];
        assert(s@.take(i as int + 1).drop_last() =~= s@.take(i as int));
        assert(s@.take(i as int + 1).last() == c);
        if 'A' <= c && c <= 'Z' {
            out.push('-');
            out.push(lower_char(c));
        } else {
            out.push(c);
        }
        i = i + 1;
        assert(out@ =~= spec_camel_to_kebab(s@.take(i as int)));
    }
    assert(s@.take(v.len() as int) =~= s@);
    string_of(&out)
}

// ---------------------------------------------------------------------------
// URL parsing for `a.href`
// ---------------------------------------------------------------------------

/// Why the URL parser refused an input, as far as `a.href` tells the cases apart.
#[derive(PartialEq, Eq, Structural, Clone, Copy, Debug)]
pub enum UrlParseError {
    /// The input is a relative URL and no base was given.
    RelativeUrlWithoutBase,
    /// Any other parse error.
    Other,
}

/// The serialization of the URL that `url::Url::parse(input)` returns, or the error.
pub uninterp spec fn url_parse_result(input: Seq<char>) -> Result<Seq<char>, UrlParseError>;

/// The serialization of the URL that `url::Url::join` returns for `input`
/// against the URL parsed from `base`, or the error.
pub uninterp spec fn url_join_result(base: Seq<char>, input: Seq<char>) -> Result<
    Seq<char>,
    UrlParseError,
>;

/// A parse outcome seen through the views of its strings.
pub open spec fn url_outcome(r: Result<String, UrlParseError>) -> Result<Seq<char>, UrlParseError> {
    match r {
        Ok(s) => Ok(s@),
        Err(e) => Err(e),
    }
}

/// `url::Url::parse`, handing back the serialization of the parsed URL.
/// Claimed: the outcome is `url_parse_result(input)`, a function of the input
/// alone; nothing is stated of what the WHATWG URL parser computes.
#[verifier::external_body]
fn parse_url(input: &str) -> (r: Result<String, UrlParseError>)
    ensures
        url_outcome(r) == url_parse_result(input@),
{
    match url::Url::parse(input) {
        Ok(u) => Ok(String::from(u)),
        Err(url::ParseError::RelativeUrlWithoutBase) => Err(UrlParseError::RelativeUrlWithoutBase),
        Err(_) => Err(UrlParseError::Other),
    }
}

/// `url::Url::join` of `input` against the URL that `url::Url::parse` makes of
/// `base`, handing back the serialization. Claimed: the outcome is
/// `url_join_result(base, input)`, a function of the two strings alone.
#[verifier::external_body]
fn join_url(base: &str, input: &str) -> (r: Result<String, UrlParseError>)
    ensures
        url_outcome(r) == url_join_result(base@, input@),
{
    match url::Url::parse(base) {
        Ok(b) => match b.join(input) {
            Ok(u) => Ok(String::from(u)),
            Err(url::ParseError::RelativeUrlWithoutBase) => Err(UrlParseError::RelativeUrlWithoutBase),
            Err(_) => Err(UrlParseError::Other),
        },
        Err(_) => Err(UrlParseError::Other),
    }
}

/// What `a.href` reports for the attribute value `value`, given the parse of
/// `value` and its resolution against `about:blank`: the parsed URL; for a
/// relative URL the resolved one; the value itself when neither succeeds.
pub open spec fn href_of(
    value: Seq<char>,
    parsed: Result<Seq<char>, UrlParseError>,
    joined: Result<Seq<char>, UrlParseError>,
) -> Seq<char> {
    match parsed {
        Ok(s) => s,
        Err(UrlParseError::RelativeUrlWithoutBase) => match joined {
            Ok(s) => s,
            Err(_) => value,
        },
        Err(UrlParseError::Other) => value,
    }
}

/// The `href` an anchor reports for attribute value `value`, given what the URL
/// parser made of it (`parsed`) and of it against `about:blank` (`joined`).
pub fn href_from_parse(
    value: &str,
    parsed: Result<String, UrlParseError>,
    joined: Result<String, UrlParseError>,
) -> (r: String)
    ensures
        r@ == href_of(value@, url_outcome(parsed), url_outcome(joined)),
{
    match parsed {
        Ok(s) => s,
        Err(UrlParseError::RelativeUrlWithoutBase) => match joined {
            Ok(s) => s,
            Err(_) => owned(value),
        },
        Err(UrlParseError::Other) => owned(value),
    }
}

/// The `href` an anchor reports for attribute value `value`: parsed as a URL,
/// and for a relative URL resolved against `about:blank`.
pub fn resolve_href(value: &str) -> (r: String)
    ensures
        r@ == href_of(value@, url_parse_result(value@), url_join_result("about:blank"@, value@)),
{
    let parsed = parse_url(value);
    let relative = match &parsed {
        Err(UrlParseError::RelativeUrlWithoutBase) => true,
        _ => false,
    };
    let joined = if relative {
        join_url("about:blank", value)
    } else {
        Err(UrlParseError::Other)
    };
    href_from_parse(value, parsed, joined)
}

// ---------------------------------------------------------------------------
// Reflected attributes
// ---------------------------------------------------------------------------

/// The value of attribute `name`, or the empty string.
pub open spec fn attr_or_empty(tree: &DomTree, el: NodeId, name: Seq<char>) -> Seq<char> {
    match tree.get_attr(el, name) {
        Some(v) => v,
        None => Seq::empty(),
    }
}

/// `a.href` getter: the resolved `href` attribute, or the empty string.
pub fn get_href(tree: &DomTree, el: NodeId) -> (r: String)
    requires
        tree.valid(el),
    ensures
        r@ == match tree.get_attr(el, "href"@) {
            Some(v) => href_of(v, url_parse_result(v), url_join_result("about:blank"@, v)),
            None => Seq::empty(),
        },
{
    match tree.get_attribute(el, "href") {
        Some(v) => resolve_href(v.as_str()),
        None => String::new(),
    }
}

/// `a.href` setter: writes the `href` attribute.
pub fn set_href(tree: &mut DomTree, el: NodeId, value: &str)
    requires
        old(tree).wf(),
        old(tree).valid(el),
    ensures
        final(tree).wf(),
        old(tree).updated_attrs(final(tree), el, attrs_set(old(tree).attrs(el), "href"@, value@)),
{
    tree.set_attribute(el, "href", value)
}

/// `form.action` getter: the `action` attribute, or the empty string.
pub fn get_action(tree: &DomTree, el: NodeId) -> (r: String)
    requires
        tree.valid(el),
    ensures
        r@ == attr_or_empty(tree, el, "action"@),
{
    match tree.get_attribute(el, "action") {
        Some(v) => v,
        None => String::new(),
    }
}

/// `form.action` setter.
pub fn set_action(tree: &mut DomTree, el: NodeId, value: &str)
    requires
        old(tree).wf(),
        old(tree).valid(el),
    ensures
        final(tree).wf(),
        old(tree).updated_attrs(final(tree), el, attrs_set(old(tree).attrs(el), "action"@, value@)),
{
    tree.set_attribute(el, "action", value)
}

/// `form.method` getter: the `method` attribute, `"get"` when there is none.
pub fn get_method(tree: &DomTree, el: NodeId) -> (r: String)
    requires
        tree.valid(el),
    ensures
        r@ == match tree.get_attr(el, "method"@) {
            Some(v) => v,
            None => "get"@,
        },
{
    match tree.get_attribute(el, "method") {
        Some(v) => v,
        None => owned("get"),
    }
}

/// `form.method` setter.
pub fn set_method(tree: &mut DomTree, el: NodeId, value: &str)
    requires
        old(tree).wf(),
        old(tree).valid(el),
    ensures
        final(tree).wf(),
        old(tree).updated_attrs(final(tree), el, attrs_set(old(tree).attrs(el), "method"@, value@)),
{
    tree.set_attribute(el, "method", value)
}

/// A tag name of a form control listed by `form.elements`: `input`, `select`,
/// `textarea` or `button`, in any ASCII case.
pub open spec fn is_form_control_tag(tag: Seq<char>) -> bool {
    let t = ascii_lower(tag);
    t == seq!['i', 'n', 'p', 'u', 't'] || t == seq!['s', 'e', 'l', 'e', 'c', 't'] || t == seq![
        't',
        'e',
        'x',
        't',
        'a',
        'r',
        'e',
        'a',
    ] || t == seq!['b', 'u', 't', 't', 'o', 'n']
}

/// Predicate: the node is a form-control element.
pub open spec fn form_control_pred(tree: &DomTree) -> spec_fn(NodeId) -> bool {
    |n: NodeId| tree.is_element(n) && is_form_control_tag(tree.tag(n))
}

fn is_form_control_name(tag: &str) -> (r: bool)
    ensures
        r == is_form_control_tag(tag@),
{
    let t = crate::text::to_ascii_lowercase(tag);
    proof {
        reveal_strlit("input");
        reveal_strlit("select");
        reveal_strlit("textarea");
        reveal_strlit("button");
    }
    assert("input"@ =~= seq!['i', 'n', 'p', 'u', 't']);
    assert("select"@ =~= seq!['s', 'e', 'l', 'e', 'c', 't']);
    assert("textarea"@ =~= seq!['t', 'e', 'x', 't', 'a', 'r', 'e', 'a']);
    assert("button"@ =~= seq!['b', 'u', 't', 't', 'o', 'n']);
    crate::text::str_eq(t.as_str(), "input") || crate::text::str_eq(t.as_str(), "select")
        || crate::text::str_eq(t.as_str(), "textarea") || crate::text::str_eq(t.as_str(), "button")
}

/// `form.elements`: the form-control descendants of `form`, in tree order.
pub fn get_form_elements(tree: &DomTree, form: NodeId) -> (r: Vec<NodeId>)
    requires
        tree.wf(),
        tree.valid(form),
    ensures
        r@ == tree.descendants(form).filter(form_control_pred(tree)),
{
    let d = tree.collect_descendants(form);
    let mut out: Vec<NodeId> = Vec::new();
    let mut i: usize = 0;
    while i < d.len()
        invariant
            d@ == tree.descendants(form),
            forall|k: int| 0 <= k < d.len() ==> tree.valid(#[trigger] d@[k]),
            i <= d.len(),
            out@ == d@.take(i as int).filter(form_control_pred(tree)),
        decreases d.len() - i,
    {
        let n = d[i];
        assert(d@.take(i as int + 1).drop_last() =~= d@.take(i as int));
        reveal_with_fuel(Seq::filter, 1);
        match tree.tag_name(n) {
            Some(t) => {
                if is_form_control_name(t.as_str()) {
                    out.push(n);
                }
            },
            None => {},
        }
        i = i + 1;
    }
    assert(d@.take(d.len() as int) =~= d@);
    out
}

/// `element.hidden` getter: whether the `hidden` attribute is present.
pub fn get_hidden(tree: &DomTree, el: NodeId) -> (r: bool)
    requires
        tree.valid(el),
    ensures
        r == tree.has_attr(el, "hidden"@),
{
    tree.has_attribute(el, "hidden")
}

/// `element.hidden` setter: true sets `hidden` to the empty string, false
/// removes it.
pub fn set_hidden(tree: &mut DomTree, el: NodeId, value: bool)
    requires
        old(tree).wf(),
        old(tree).valid(el),
    ensures
        final(tree).wf(),
        value ==> old(tree).updated_attrs(
            final(tree),
            el,
            attrs_set(old(tree).attrs(el), "hidden"@, Seq::empty()),
        ),
        !value ==> old(tree).updated_attrs(final(tree), el, attrs_remove(old(tree).attrs(el), "hidden"@)),
{
    if value {
        tree.set_attribute(el, "hidden", "");
        proof {
            reveal_strlit("");
            assert(""@ =~= Seq::<char>::empty());
        }
    } else {
        tree.remove_attribute(el, "hidden");
    }
}

// ---------------------------------------------------------------------------
// element.dataset
// ---------------------------------------------------------------------------

/// `data-`.
pub open spec fn data_prefix() -> Seq<char> {
    seq!['d', 'a', 't', 'a', '-']
}

/// The attribute behind the dataset key `camel`: `data-` and its kebab-case form.
pub open spec fn data_attr_name(camel: Seq<char>) -> Seq<char> {
    data_prefix() + spec_camel_to_kebab(camel)
}

/// The local name is that of a `data-*` attribute.
pub open spec fn is_data_name(local: Seq<char>) -> bool {
    local.len() >= 5 && local.take(5) == data_prefix()
}

/// The dataset keys of an attribute list: for each `data-*` attribute, in
/// order, the camelCase form of its name after `data-`.
pub open spec fn dataset_keys_of(attrs: Seq<AttrView>) -> Seq<Seq<char>>
    decreases attrs.len(),
{
    if attrs.len() == 0 {
        Seq::empty()
    } else {
        let front = dataset_keys_of(attrs.drop_last());
        let l = attrs.last().local;
        if is_data_name(l) {
            front.push(spec_kebab_to_camel(l.skip(5)))
        } else {
            front
        }
    }
}

fn data_attribute_name(camel: &str) -> (r: String)
    ensures
        r@ == data_attr_name(camel@),
{
    let kebab = camel_to_kebab(camel);
    let r = concat("data-", kebab.as_str());
    proof {
        reveal_strlit("data-");
    }
    assert("data-"@ =~= data_prefix());
    r
}

/// `element.dataset[camel]`: the value of the first attribute whose local name
/// is `data-` and the kebab-case form of `camel`.
pub fn dataset_get(tree: &DomTree, el: NodeId, camel: &str) -> (r: Option<String>)
    requires
        tree.valid(el),
    ensures
        r.deep_view() == tree.local_attr(el, data_attr_name(camel@)),
{
    let name = data_attribute_name(camel);
    tree.local_attribute(el, name.as_str())
}

/// `element.dataset[camel] = value`: sets the `data-*` attribute.
pub fn dataset_set(tree: &mut DomTree, el: NodeId, camel: &str, value: &str)
    requires
        old(tree).wf(),
        old(tree).valid(el),
    ensures
        final(tree).wf(),
        old(tree).updated_attrs(
            final(tree),
            el,
            attrs_set(old(tree).attrs(el), data_attr_name(camel@), value@),
        ),
{
    let name = data_attribute_name(camel);
    tree.set_attribute(el, name.as_str(), value)
}

/// `delete element.dataset[camel]`: removes the `data-*` attribute when present,
/// and reports whether it was present.
pub fn dataset_delete(tree: &mut DomTree, el: NodeId, camel: &str) -> (r: bool)
    requires
        old(tree).wf(),
        old(tree).valid(el),
    ensures
        final(tree).wf(),
        r == old(tree).has_attr(el, data_attr_name(camel@)),
        old(tree).has_attr(el, data_attr_name(camel@)) ==> old(tree).updated_attrs(
            final(tree),
            el,
            attrs_remove(old(tree).attrs(el), data_attr_name(camel@)),
        ),
        !old(tree).has_attr(el, data_attr_name(camel@)) ==> *final(tree) == *old(tree),
{
    let name = data_attribute_name(camel);
    if tree.has_attribute(el, name.as_str()) {
        tree.remove_attribute(el, name.as_str());
        true
    } else {
        false
    }
}

/// The keys of `element.dataset`, in attribute order.
pub fn dataset_keys(tree: &DomTree, el: NodeId) -> (r: Vec<String>)
    requires
        tree.valid(el),
    ensures
        r.deep_view() == dataset_keys_of(tree.attrs(el)),
{
    let attrs = tree.attributes(el);
    let ghost av = tree.attrs(el);
    let mut keys: Vec<String> = Vec::new();
    let mut i: usize = 0;
    proof {
        reveal_strlit("data-");
    }
    assert("data-"@ =~= data_prefix());
    while i < attrs.len()
        invariant
            av == tree.attrs(el),
            attrs@.map_values(|a: crate::dom::DomAttribute| a@) == av,
            i <= attrs.len(),
            keys.deep_view() == dataset_keys_of(av.take(i as int)),
            "data-"@ == data_prefix(),
        decreases attrs.len() - i,
    {
        assert(av[i as int] == attrs@[i as int]@);
        assert(av.take(i as int + 1).drop_last() =~= av.take(i as int));
        let local = &attrs[i].local_name;
        if starts_with(local.as_str(), "data-") {
            let v = chars_of(local.as_str());
            let rest = string_of_range(&v, 5, v.len());
            assert(rest@ =~= local@.skip(5));
            assert(local@.take(5) =~= local@.subrange(0, 5));
            let key = kebab_to_camel(rest.as_str());
            keys.push(key);
            assert(keys.deep_view() =~= dataset_keys_of(av.take(i as int + 1)));
        } else {
            assert(local@.len() >= 5 ==> local@.take(5) =~= local@.subrange(0, 5));
        }
        i = i + 1;
    }
    assert(av.take(attrs.len() as int) =~= av);
    keys
}

// ---------------------------------------------------------------------------
// Laws
// ---------------------------------------------------------------------------

/// A name without hyphens is its own camelCase form.
pub proof fn lemma_kebab_to_camel_without_hyphen(s: Seq<char>)
    requires
        !s.contains('-'),
    ensures
        spec_kebab_to_camel(s) == s,
{
    lemma_kebab_scan_plain(s);
}

proof fn lemma_kebab_scan_plain(s: Seq<char>)
    requires
        !s.contains('-'),
    ensures
        kebab_scan(s) == (s, false),
    decreases s.len(),
{
    if s.len() > 0 {
        let t = s.drop_last();
        assert(!t.contains('-')) by {
            if t.contains('-') {
                let k = choose|k: int| 0 <= k < t.len() && t[k] == '-';
                assert(s[k] == '-');
            }
        }
        lemma_kebab_scan_plain(t);
        assert(s.last() != '-') by {
            if s.last() == '-' {
                assert(s[s.len() - 1] == '-');
            }
        }
        assert(t.push(s.last()) =~= s);
    }
}

/// A name without ASCII uppercase letters is its own kebab-case form.
pub proof fn lemma_camel_to_kebab_without_upper(s: Seq<char>)
    requires
        forall|i: int| 0 <= i < s.len() ==> !is_ascii_upper(#[trigger] s[i]),
    ensures
        spec_camel_to_kebab(s) == s,
    decreases s.len(),
{
    if s.len() > 0 {
        let t = s.drop_last();
        assert forall|i: int| 0 <= i < t.len() implies !is_ascii_upper(#[trigger] t[i]) by {
            assert(t[i] == s[i]);
        }
        lemma_camel_to_kebab_without_upper(t);
        assert(!is_ascii_upper(s[s.len() - 1]));
        assert(t + seq![s.last()] =~= s);
    }
}

/// ASCII case conversion of one letter is undone by the other conversion.
pub proof fn lemma_ascii_case_inverse(c: char)
    ensures
        is_ascii_upper(c) ==> is_ascii_lower(ascii_lower_char(c)) && ascii_upper_char(ascii_lower_char(c))
            == c,
        is_ascii_lower(c) ==> is_ascii_upper(ascii_upper_char(c)) && ascii_lower_char(ascii_upper_char(c))
            == c,
{
    let u = c as u32;
    vstd::utf8::char_u32_cast(c, u);
    if is_ascii_upper(c) {
        let l = (u + 32) as char;
        assert((l as u32) == u + 32);
        assert(((l as u32) - 32) as char == c);
    }
    if is_ascii_lower(c) {
        let h = (u - 32) as char;
        assert((h as u32) == u - 32);
        assert(((h as u32) + 32) as char == c);
    }
}

/// A name without hyphens survives camelCase to kebab-case and back:
/// `kebab_to_camel(camel_to_kebab(s)) == s` (`"dateOfBirth"`, `"Abc"`).
pub proof fn lemma_camel_kebab_round_trip(s: Seq<char>)
    requires
        !s.contains('-'),
    ensures
        spec_kebab_to_camel(spec_camel_to_kebab(s)) == s,
{
    lemma_scan_of_kebab(s);
}

/// Reading the kebab-case form of a name without hyphens gives the name back,
/// with no hyphen pending.
proof fn lemma_scan_of_kebab(s: Seq<char>)
    requires
        !s.contains('-'),
    ensures
        kebab_scan(spec_camel_to_kebab(s)) == (s, false),
    decreases s.len(),
{
    if s.len() > 0 {
        let t = s.drop_last();
        let c = s.last();
        assert(c != '-') by {
            assert(s[s.len() - 1] == c);
        }
        assert(!t.contains('-')) by {
            if t.contains('-') {
                let j = choose|j: int| 0 <= j < t.len() && t[j] == '-';
                assert(s[j] == '-');
            }
        }
        lemma_scan_of_kebab(t);
        let x = spec_camel_to_kebab(t);
        assert(t.push(c) =~= s);
        if is_ascii_upper(c) {
            let l = ascii_lower_char(c);
            lemma_ascii_case_inverse(c);
            let y = x + seq!['-', l];
            assert(y.drop_last() =~= x.push('-'));
            assert(x.push('-').drop_last() =~= x);
            assert(kebab_scan(x.push('-')) == (t, true));
            assert(t + upper_of(l) =~= s);
        } else {
            let y = x + seq![c];
            assert(y.drop_last() =~= x);
        }
    }
}

/// The lowercase kebab-case names: no ASCII uppercase letter, and each hyphen
/// followed by an ASCII lowercase letter.
pub open spec fn is_lower_kebab(s: Seq<char>) -> bool {
    forall|i: int|
        0 <= i < s.len() ==> !is_ascii_upper(#[trigger] s[i]) && (s[i] == '-' ==> i + 1 < s.len()
            && is_ascii_lower(s[i + 1]))
}

/// A lowercase kebab-case name survives kebab-case to camelCase and back:
/// `camel_to_kebab(kebab_to_camel(s)) == s` (`"user-id"`, `"a-b-c"`).
pub proof fn lemma_kebab_camel_round_trip(s: Seq<char>)
    requires
        is_lower_kebab(s),
    ensures
        spec_camel_to_kebab(spec_kebab_to_camel(s)) == s,
{
    lemma_scan_of_lower_kebab(s, s.len() as int);
    assert(s.take(s.len() as int) =~= s);
    if s.len() > 0 {
        assert(s[s.len() - 1] != '-');
    }
}

/// Reading the first `i` characters of a lowercase kebab-case name: the
/// kebab-case form of the text produced is what was read, less a pending
/// hyphen.
proof fn lemma_scan_of_lower_kebab(s: Seq<char>, i: int)
    requires
        is_lower_kebab(s),
        0 <= i <= s.len(),
    ensures
        ({
            let (out, after_hyphen) = kebab_scan(s.take(i));
            &&& after_hyphen == (i > 0 && s[i - 1] == '-')
            &&& after_hyphen ==> spec_camel_to_kebab(out) == s.take(i - 1)
            &&& !after_hyphen ==> spec_camel_to_kebab(out) == s.take(i)
        }),
    decreases i,
{
    if i == 0 {
        assert(s.take(0) =~= Seq::<char>::empty());
    } else {
        lemma_scan_of_lower_kebab(s, i - 1);
        let p = s.take(i);
        let c = s[i - 1];
        assert(p.drop_last() =~= s.take(i - 1));
        assert(p.last() == c);
        let (out, ah) = kebab_scan(s.take(i - 1));
        assert(!is_ascii_upper(c));
        if c == '-' {
            if i >= 2 {
                assert(s[i - 2] != '-') by {
                    if s[i - 2] == '-' {
                        assert(is_ascii_lower(s[i - 1]));
                    }
                }
            }
        } else if ah {
            assert(is_ascii_lower(c));
            lemma_ascii_case_inverse(c);
            let up = ascii_upper_char(c);
            assert(out + upper_of(c) =~= out.push(up));
            assert(out.push(up).drop_last() =~= out);
            assert(s.take(i - 2) + seq!['-', c] =~= p) by {
                assert(s[i - 2] == '-');
            }
        } else {
            assert(out.push(c).drop_last() =~= out);
            assert(s.take(i - 1) + seq![c] =~= p);
        }
    }
}

/// The kebab-case form has no ASCII uppercase letters, so converting it again
/// changes nothing.
pub proof fn lemma_camel_to_kebab_idempotent(s: Seq<char>)
    ensures
        forall|i: int|
            0 <= i < spec_camel_to_kebab(s).len() ==> !is_ascii_upper(#[trigger] spec_camel_to_kebab(s)[i]),
        spec_camel_to_kebab(spec_camel_to_kebab(s)) == spec_camel_to_kebab(s),
    decreases s.len(),
{
    if s.len() > 0 {
        lemma_camel_to_kebab_idempotent(s.drop_last());
        let f = spec_camel_to_kebab(s.drop_last());
        let p = kebab_piece(s.last());
        assert forall|i: int| 0 <= i < (f + p).len() implies !is_ascii_upper(#[trigger] (f + p)[i]) by {
            if i >= f.len() {
                let c = s.last();
                if is_ascii_upper(c) {
                    assert(((c as u32) + 32) as char == ascii_lower_char(c));
                }
            }
        }
    }
    lemma_camel_to_kebab_without_upper(spec_camel_to_kebab(s));
}

/// No attribute of the list has a namespace prefix (as for elements that the
/// HTML parser made), so qualified names and local names coincide.
pub open spec fn unprefixed(attrs: Seq<AttrView>) -> bool {
    forall|i: int| 0 <= i < attrs.len() ==> (#[trigger] attrs[i]).prefix.len() == 0
}

proof fn lemma_unprefixed_local_is_qname(attrs: Seq<AttrView>, name: Seq<char>)
    requires
        unprefixed(attrs),
    ensures
        value_where(attrs, local_is(name)) == value_where(attrs, qname_is(name)),
{
    assert forall|j: int| 0 <= j < attrs.len() implies local_is(name)(#[trigger] attrs[j]) == qname_is(
        name,
    )(attrs[j]) by {
        assert(attrs[j].prefix.len() == 0);
    }
    lemma_first_index_agree(attrs, local_is(name), qname_is(name));
}

/// Writing `dataset[camel] = value` and reading `dataset[camel]` gives `value`,
/// on an element whose attributes carry no prefix.
pub proof fn lemma_dataset_set_then_get(t0: &DomTree, t1: &DomTree, el: NodeId, camel: Seq<char>, value: Seq<char>)
    requires
        t0.is_element(el),
        unprefixed(t0.attrs(el)),
        t0.updated_attrs(t1, el, attrs_set(t0.attrs(el), data_attr_name(camel), value)),
    ensures
        t1.local_attr(el, data_attr_name(camel)) == Some(value),
{
    let a = t0.attrs(el);
    let n = data_attr_name(camel);
    let b = attrs_set(a, n, value);
    let i = first_index(a, qname_is(n));
    crate::text::lemma_first_index(a, qname_is(n));
    assert(unprefixed(b)) by {
        assert forall|j: int| 0 <= j < b.len() implies (#[trigger] b[j]).prefix.len() == 0 by {
            if j < a.len() {
                assert(a[j].prefix.len() == 0);
                assert(b[j].prefix == a[j].prefix);
            }
        }
    }
    lemma_unprefixed_local_is_qname(b, n);
    lemma_get_after_set(a, n, value);
}

/// After `delete dataset[camel]`, reading `dataset[camel]` gives nothing, on an
/// element whose attributes carry no prefix and name that attribute once.
pub proof fn lemma_dataset_delete_then_absent(t0: &DomTree, t1: &DomTree, el: NodeId, camel: Seq<char>)
    requires
        t0.is_element(el),
        unprefixed(t0.attrs(el)),
        at_most_one(t0.attrs(el), qname_is(data_attr_name(camel))),
        t0.has_attr(el, data_attr_name(camel)) ==> t0.updated_attrs(
            t1,
            el,
            attrs_remove(t0.attrs(el), data_attr_name(camel)),
        ),
        !t0.has_attr(el, data_attr_name(camel)) ==> *t1 == *t0,
    ensures
        t1.local_attr(el, data_attr_name(camel)) is None,
{
    let a = t0.attrs(el);
    let n = data_attr_name(camel);
    lemma_unprefixed_local_is_qname(a, n);
    if t0.has_attr(el, n) {
        let b = attrs_remove(a, n);
        crate::text::lemma_first_index(a, qname_is(n));
        let i = first_index(a, qname_is(n));
        assert(i >= 0);
        assert(b == a.remove(i));
        assert(unprefixed(b)) by {
            assert forall|j: int| 0 <= j < b.len() implies (#[trigger] b[j]).prefix.len() == 0 by {
                if j < i {
                    assert(b[j] == a[j]);
                    assert(a[j].prefix.len() == 0);
                } else {
                    assert(b[j] == a[j + 1]);
                    assert(a[j + 1].prefix.len() == 0);
                }
            }
        }
        lemma_unprefixed_local_is_qname(b, n);
        lemma_absent_after_remove(a, n);
    }
}

/// Setting `hidden` and reading it back gives what was set (for `false`, on an
/// element with at most one `hidden` attribute).
pub proof fn lemma_hidden_roundtrip(t0: &DomTree, t1: &DomTree, el: NodeId, value: bool)
    requires
        t0.is_element(el),
        !value ==> at_most_one(t0.attrs(el), qname_is("hidden"@)),
        value ==> t0.updated_attrs(t1, el, attrs_set(t0.attrs(el), "hidden"@, Seq::empty())),
        !value ==> t0.updated_attrs(t1, el, attrs_remove(t0.attrs(el), "hidden"@)),
    ensures
        t1.has_attr(el, "hidden"@) == value,
{
    if value {
        lemma_get_after_set(t0.attrs(el), "hidden"@, Seq::empty());
    } else {
        lemma_absent_after_remove(t0.attrs(el), "hidden"@);
    }
}

/// A reflected attribute (`action`, `method`, `href`) reads back the value
/// its setter wrote.
pub proof fn lemma_reflected_set_then_get(t0: &DomTree, t1: &DomTree, el: NodeId, name: Seq<char>, value: Seq<char>)
    requires
        t0.is_element(el),
        t0.updated_attrs(t1, el, attrs_set(t0.attrs(el), name, value)),
    ensures
        t1.get_attr(el, name) == Some(value),
        attr_or_empty(t1, el, name) == value,
{
    lemma_get_after_set(t0.attrs(el), name, value);
}

} // verus!
