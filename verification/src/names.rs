//! Name validation: attribute names, namespace prefixes, element names, and the
//! DOM "validate and extract" step for a namespace and qualified name.
use vstd::prelude::*;
use crate::error::DomError;
use crate::text::{
    chars_of, first_index, is_ascii_ws, lemma_first_index_is, lemma_first_index_none, owned,
    str_eq, string_of_range,
};

verus! {

/// The XML namespace.
pub open spec fn xml_ns() -> Seq<char> {
    "http://www.w3.org/XML/1998/namespace"@
}

/// The XMLNS namespace.
pub open spec fn xmlns_ns() -> Seq<char> {
    "http://www.w3.org/2000/xmlns/"@
}

/// Characters a namespace prefix may not hold: ASCII whitespace, NULL, `/`, `>`.
pub open spec fn bad_prefix_char(c: char) -> bool {
    is_ascii_ws(c) || c == '\0' || c == '/' || c == '>'
}

/// Characters an attribute local name may not hold: those of a prefix, and `=`.
pub open spec fn bad_attr_char(c: char) -> bool {
    bad_prefix_char(c) || c == '='
}

/// A valid namespace prefix: non-empty, without ASCII whitespace, NULL, `/` or `>`.
pub open spec fn spec_valid_prefix(s: Seq<char>) -> bool {
    s.len() > 0 && forall|i: int| 0 <= i < s.len() ==> !bad_prefix_char(#[trigger] s[i])
}

/// A valid attribute local name: non-empty, without ASCII whitespace, NULL, `/`,
/// `=` or `>`.
pub open spec fn spec_valid_attribute_name(s: Seq<char>) -> bool {
    s.len() > 0 && forall|i: int| 0 <= i < s.len() ==> !bad_attr_char(#[trigger] s[i])
}

pub open spec fn is_ascii_alpha(c: char) -> bool {
    ('a' <= c && c <= 'z') || ('A' <= c && c <= 'Z')
}

pub open spec fn is_ascii_alnum(c: char) -> bool {
    is_ascii_alpha(c) || ('0' <= c && c <= '9')
}

/// A character allowed after the first in a name that does not start with a letter.
pub open spec fn name_tail_char(c: char) -> bool {
    is_ascii_alnum(c) || c == '-' || c == '.' || c == ':' || c == '_' || (c as u32) >= 0x80
}

/// A valid element name: non-empty; starting with an ASCII letter and free of
/// ASCII whitespace, NULL, `/` and `>`; or starting with `:`, `_` or a non-ASCII
/// character and continuing with ASCII alphanumerics, `-`, `.`, `:`, `_` or
/// non-ASCII characters.
pub open spec fn spec_valid_dom_name(s: Seq<char>) -> bool {
    s.len() > 0 && if is_ascii_alpha(s[0]) {
        forall|i: int| 0 <= i < s.len() ==> !bad_prefix_char(#[trigger] s[i])
    } else {
        (s[0] == ':' || s[0] == '_' || (s[0] as u32) >= 0x80) && forall|i: int|
            1 <= i < s.len() ==> name_tail_char(#[trigger] s[i])
    }
}

pub open spec fn is_colon() -> spec_fn(char) -> bool {
    |c: char| c == ':'
}

/// A qualified name split at its first colon into (prefix, local name);
/// without a colon the prefix is empty.
pub open spec fn split_qname(q: Seq<char>) -> (Seq<char>, Seq<char>) {
    let i = first_index(q, is_colon());
    if i < 0 {
        (Seq::empty(), q)
    } else {
        (q.take(i), q.skip(i + 1))
    }
}

pub open spec fn has_colon(q: Seq<char>) -> bool {
    first_index(q, is_colon()) >= 0
}

fn all_chars_avoid(v: &Vec<char>, from: usize, to: usize, with_eq: bool) -> (r: bool)
    requires
        from <= to <= v.len(),
    ensures
        r == forall|i: int|
            from <= i < to ==> !(if with_eq {
                bad_attr_char(#[trigger] v@[i])
            } else {
                bad_prefix_char(v@[i])
            }),
{
    let mut i = from;
    while i < to
        invariant
            from <= i <= to <= v.len(),
            forall|k: int|
                from <= k < i ==> !(if with_eq {
                    bad_attr_char(#[trigger] v@[k])
                } else {
                    bad_prefix_char(v@[k])
                }),
        decreases to - i,
    {
        let c = v[i];
        let bad = c == ' ' || c == '\t' || c == '\n' || c == '\x0C' || c == '\r' || c == '\0' || c
            == '/' || c == '>' || (with_eq && c == '=');
        if bad {
            return false;
        }
        i = i + 1;
    }
    true
}

/// `is_valid_attribute_name`: a valid attribute local name.
pub fn is_valid_attribute_name(name: &str) -> (r: bool)
    ensures
        r == spec_valid_attribute_name(name@),
{
    let v = chars_of(name);
    v.len() > 0 && all_chars_avoid(&v, 0, v.len(), true)
}

/// A valid namespace prefix.
pub fn is_valid_prefix(prefix: &str) -> (r: bool)
    ensures
        r == spec_valid_prefix(prefix@),
{
    let v = chars_of(prefix);
    v.len() > 0 && all_chars_avoid(&v, 0, v.len(), false)
}

fn is_alpha(c: char) -> (r: bool)
    ensures
        r == is_ascii_alpha(c),
{
    ('a' <= c && c <= 'z') || ('A' <= c && c <= 'Z')
}

/// `is_valid_dom_name`: a valid element name.
pub fn is_valid_dom_name(name: &str) -> (r: bool)
    ensures
        r == spec_valid_dom_name(name@),
{
    let v = chars_of(name);
    if v.len() == 0 {
        return false;
    }
    if is_alpha(v[0]) {
        return all_chars_avoid(&v, 0, v.len(), false);
    }
    let c0 = v[0];
    if !(c0 == ':' || c0 == '_' || (c0 as u32) >= 0x80) {
        return false;
    }
    let mut i: usize = 1;
    while i < v.len()
        invariant
            v@ == name@,
            1 <= i <= v.len(),
            !is_ascii_alpha(v@[0]),
            v@[0] == ':' || v@[0] == '_' || (v@[0] as u32) >= 0x80,
            forall|k: int| 1 <= k < i ==> name_tail_char(#[trigger] v@[k]),
        decreases v.len() - i,
    {
        let c = v[i];
        let ok = ('a' <= c && c <= 'z') || ('A' <= c && c <= 'Z') || ('0' <= c && c <= '9') || c
            == '-' || c == '.' || c == ':' || c == '_' || (c as u32) >= 0x80;
        if !ok {
            return false;
        }
        i = i + 1;
    }
    true
}

/// Position of the first colon of a qualified name.
pub fn find_colon(v: &Vec<char>) -> (r: Option<usize>)
    ensures
        match r {
            Some(i) => i < v.len() && first_index(v@, is_colon()) == i,
            None => first_index(v@, is_colon()) == -1,
        },
{
    let mut i: usize = 0;
    while i < v.len()
        invariant
            i <= v.len(),
            forall|k: int| 0 <= k < i ==> !is_colon()(#[trigger] v@[k]),
        decreases v.len() - i,
    {
        if v[i] == ':' {
            assert(is_colon()(v@[i as int]));
            proof {
                lemma_first_index_is(v@, is_colon(), i as int);
            }
            return Some(i);
        }
        i = i + 1;
    }
    proof {
        lemma_first_index_none(v@, is_colon());
    }
    None
}

/// Split a qualified name at its first colon.
pub fn split_qualified_name(q: &str) -> (r: (String, String))
    ensures
        r.0@ == split_qname(q@).0,
        r.1@ == split_qname(q@).1,
{
    let v = chars_of(q);
    match find_colon(&v) {
        Some(i) => {
            let p = string_of_range(&v, 0, i);
            let l = string_of_range(&v, i + 1, v.len());
            assert(v@.subrange(0, i as int) =~= v@.take(i as int));
            assert(v@.subrange(i + 1, v@.len() as int) =~= v@.skip(i + 1));
            (p, l)
        },
        None => (String::new(), owned(q)),
    }
}

/// The namespace checks shared by `setAttributeNS` and "validate and extract":
/// a prefix needs a namespace; `xml` needs the XML namespace; `xmlns` (as prefix
/// or as whole name) needs the XMLNS namespace, and the XMLNS namespace needs it.
pub open spec fn namespace_error(ns: Seq<char>, qname: Seq<char>) -> bool {
    let prefix = split_qname(qname).0;
    ||| has_colon(qname) && ns.len() == 0
    ||| prefix == "xml"@ && ns != xml_ns()
    ||| (prefix == "xmlns"@ || qname == "xmlns"@) && ns != xmlns_ns()
    ||| ns == xmlns_ns() && prefix != "xmlns"@ && qname != "xmlns"@
}

/// The name checks of `setAttributeNS`: with a colon, the prefix must be a valid
/// prefix and the local name a valid attribute name; without, the whole name must
/// be a valid attribute name.
pub open spec fn attr_qname_invalid(qname: Seq<char>) -> bool {
    if has_colon(qname) {
        !spec_valid_prefix(split_qname(qname).0) || !spec_valid_attribute_name(split_qname(qname).1)
    } else {
        !spec_valid_attribute_name(qname)
    }
}

/// The error `setAttributeNS(ns, qname, _)` raises, if any.
pub open spec fn set_attribute_ns_error(ns: Seq<char>, qname: Seq<char>) -> Option<DomError> {
    if attr_qname_invalid(qname) {
        Some(DomError::InvalidCharacterError)
    } else if namespace_error(ns, qname) {
        Some(DomError::NamespaceError)
    } else {
        None
    }
}

fn check_namespace(ns: &str, qualified_name: &str, prefix: &str, has_prefix: bool) -> (r: bool)
    requires
        prefix@ == split_qname(qualified_name@).0,
        has_prefix == has_colon(qualified_name@),
    ensures
        r == namespace_error(ns@, qualified_name@),
{
    let xml_ns = "http://www.w3.org/XML/1998/namespace";
    let xmlns_ns = "http://www.w3.org/2000/xmlns/";
    if has_prefix && ns.is_empty() {
        return true;
    }
    if str_eq(prefix, "xml") && !str_eq(ns, xml_ns) {
        return true;
    }
    if (str_eq(prefix, "xmlns") || str_eq(qualified_name, "xmlns")) && !str_eq(ns, xmlns_ns) {
        return true;
    }
    if str_eq(ns, xmlns_ns) && !str_eq(prefix, "xmlns") && !str_eq(qualified_name, "xmlns") {
        return true;
    }
    false
}

/// Validate the arguments of `setAttributeNS`, returning the (prefix, local name)
/// split of the qualified name.
pub fn validate_attribute_ns(namespace: &str, qualified_name: &str) -> (r: Result<
    (String, String),
    DomError,
>)
    ensures
        match set_attribute_ns_error(namespace@, qualified_name@) {
            Some(e) => r == Err::<(String, String), DomError>(e),
            None => r matches Ok((p, l)) && p@ == split_qname(qualified_name@).0 && l@ == split_qname(
                qualified_name@,
            ).1,
        },
{
    let v = chars_of(qualified_name);
    let colon = find_colon(&v);
    let (prefix, local) = split_qualified_name(qualified_name);
    let has_prefix = colon.is_some();
    if has_prefix {
        if !is_valid_prefix(prefix.as_str()) || !is_valid_attribute_name(local.as_str()) {
            return Err(DomError::InvalidCharacterError);
        }
    } else if !is_valid_attribute_name(qualified_name) {
        return Err(DomError::InvalidCharacterError);
    }
    if check_namespace(namespace, qualified_name, prefix.as_str(), has_prefix) {
        return Err(DomError::NamespaceError);
    }
    Ok((prefix, local))
}

/// The name checks of "validate and extract": with a colon, prefix and local
/// name must both be valid element names; without, a non-empty name must be one.
pub open spec fn element_qname_invalid(qname: Seq<char>) -> bool {
    if has_colon(qname) {
        !spec_valid_dom_name(split_qname(qname).0) || !spec_valid_dom_name(split_qname(qname).1)
    } else {
        qname.len() > 0 && !spec_valid_dom_name(qname)
    }
}

/// The outcome of "validate and extract" (DOM): `InvalidCharacterError` for a bad
/// name, then `NamespaceError` for a bad namespace (the XMLNS check applies only
/// to a non-empty name), otherwise (namespace, prefix, local name).
pub open spec fn spec_validate_and_extract(ns: Seq<char>, qname: Seq<char>) -> Result<
    (Seq<char>, Seq<char>, Seq<char>),
    DomError,
> {
    let prefix = split_qname(qname).0;
    if element_qname_invalid(qname) {
        Err(DomError::InvalidCharacterError)
    } else if (has_colon(qname) && ns.len() == 0) || (prefix == "xml"@ && ns != xml_ns()) || ((
    prefix == "xmlns"@ || qname == "xmlns"@) && ns != xmlns_ns()) || (ns == xmlns_ns()
        && qname.len() > 0 && prefix != "xmlns"@ && qname != "xmlns"@) {
        Err(DomError::NamespaceError)
    } else {
        Ok((ns, prefix, split_qname(qname).1))
    }
}

/// Implements the DOM spec's "validate and extract a namespace and qualifiedName"
/// algorithm. Returns (namespace, prefix, local_name) or the DOMException to throw.
pub fn validate_and_extract(namespace: &str, qualified_name: &str) -> (r: Result<
    (String, String, String),
    DomError,
>)
    ensures
        match spec_validate_and_extract(namespace@, qualified_name@) {
            Err(e) => r == Err::<(String, String, String), DomError>(e),
            Ok((n, p, l)) => r matches Ok((rn, rp, rl)) && rn@ == n && rp@ == p && rl@ == l,
        },
{
    let v = chars_of(qualified_name);
    let colon = find_colon(&v);
    let (prefix, local) = split_qualified_name(qualified_name);
    let has_prefix = colon.is_some();
    if has_prefix {
        if !is_valid_dom_name(prefix.as_str()) || !is_valid_dom_name(local.as_str()) {
            return Err(DomError::InvalidCharacterError);
        }
    } else {
        if !qualified_name.is_empty() && !is_valid_dom_name(qualified_name) {
            return Err(DomError::InvalidCharacterError);
        }
    }
    let xml_ns = "http://www.w3.org/XML/1998/namespace";
    let xmlns_ns = "http://www.w3.org/2000/xmlns/";
    if has_prefix && namespace.is_empty() {
        return Err(DomError::NamespaceError);
    }
    if str_eq(prefix.as_str(), "xml") && !str_eq(namespace, xml_ns) {
        return Err(DomError::NamespaceError);
    }
    if (str_eq(prefix.as_str(), "xmlns") || str_eq(qualified_name, "xmlns")) && !str_eq(
        namespace,
        xmlns_ns,
    ) {
        return Err(DomError::NamespaceError);
    }
    if str_eq(namespace, xmlns_ns) && !qualified_name.is_empty() && !str_eq(
        prefix.as_str(),
        "xmlns",
    ) && !str_eq(qualified_name, "xmlns") {
        return Err(DomError::NamespaceError);
    }
    Ok((owned(namespace), prefix, local))
}

/// A custom element name must be non-empty and contain a hyphen
/// (`customElements.define` raises `SyntaxError` otherwise).
pub fn is_valid_custom_element_name(name: &str) -> (r: bool)
    ensures
        r == (name@.len() > 0 && name@.contains('-')),
{
    !name.is_empty() && crate::text::contains_char(name, '-')
}

} // verus!
