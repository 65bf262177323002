use braille_engine::anchor_form::{
    dataset_get, get_action, get_form_elements, get_hidden, get_href, get_method, kebab_to_camel,
    set_action, set_hidden, set_href, set_method,
};
use braille_engine::dom::{DomTree, NodeId};

/// document > html > body, returning (tree, body).
fn page() -> (DomTree, NodeId) {
    let mut t = DomTree::new();
    let html = t.create_element("html");
    let body = t.create_element("body");
    let doc = t.document();
    t.append_child(doc, html);
    t.append_child(html, body);
    (t, body)
}

/// Appends a new element `tag` under `parent` with the given attributes.
fn element(t: &mut DomTree, parent: NodeId, tag: &str, attrs: &[(&str, &str)]) -> NodeId {
    let e = t.create_element(tag);
    for (k, v) in attrs {
        t.set_attribute(e, k, v);
    }
    t.append_child(parent, e);
    e
}

#[test]
fn kebab_to_camel_simple() {
    assert_eq!(kebab_to_camel("user-id"), "userId");
}

#[test]
fn kebab_to_camel_multiple_segments() {
    assert_eq!(kebab_to_camel("foo-bar-baz"), "fooBarBaz");
}

#[test]
fn kebab_to_camel_no_dashes() {
    assert_eq!(kebab_to_camel("name"), "name");
}

#[test]
fn kebab_to_camel_single_char_segments() {
    assert_eq!(kebab_to_camel("a-b-c"), "aBC");
}

#[test]
fn a_href_getter_returns_attribute() {
    let (mut t, body) = page();
    let a = element(&mut t, body, "a", &[("id", "link"), ("href", "https://example.com")]);
    let found = t.get_element_by_id("link").unwrap();
    assert_eq!(found, a);
    assert_eq!(get_href(&t, found), "https://example.com/");
}

#[test]
fn a_href_setter_updates_attribute() {
    let (mut t, body) = page();
    element(&mut t, body, "a", &[("id", "link"), ("href", "https://old.com")]);
    let a = t.get_element_by_id("link").unwrap();
    set_href(&mut t, a, "https://new.com");
    assert_eq!(get_href(&t, a), "https://new.com/");
}

#[test]
fn form_action_getter_returns_attribute() {
    let (mut t, body) = page();
    element(&mut t, body, "form", &[("id", "f"), ("action", "/submit")]);
    let f = t.get_element_by_id("f").unwrap();
    assert_eq!(get_action(&t, f), "/submit");
}

#[test]
fn form_action_setter_updates_attribute() {
    let (mut t, body) = page();
    element(&mut t, body, "form", &[("id", "f"), ("action", "/old")]);
    let f = t.get_element_by_id("f").unwrap();
    set_action(&mut t, f, "/new");
    assert_eq!(get_action(&t, f), "/new");
}

#[test]
fn form_method_defaults_to_get() {
    let (mut t, body) = page();
    element(&mut t, body, "form", &[("id", "f")]);
    let f = t.get_element_by_id("f").unwrap();
    assert_eq!(get_method(&t, f), "get");
}

#[test]
fn form_method_setter_updates_attribute() {
    let (mut t, body) = page();
    element(&mut t, body, "form", &[("id", "f")]);
    let f = t.get_element_by_id("f").unwrap();
    set_method(&mut t, f, "post");
    assert_eq!(get_method(&t, f), "post");
}

#[test]
fn form_elements_returns_interactive_children() {
    let (mut t, body) = page();
    let f = element(&mut t, body, "form", &[("id", "f")]);
    element(&mut t, f, "input", &[("type", "text")]);
    let select = element(&mut t, f, "select", &[]);
    element(&mut t, select, "option", &[]);
    element(&mut t, f, "textarea", &[]);
    element(&mut t, f, "button", &[]);
    element(&mut t, f, "div", &[]);
    let f = t.get_element_by_id("f").unwrap();
    assert_eq!(get_form_elements(&t, f).len(), 4);
}

#[test]
fn form_elements_returns_correct_tag_names() {
    let (mut t, body) = page();
    let f = element(&mut t, body, "form", &[("id", "f")]);
    element(&mut t, f, "input", &[("type", "text")]);
    element(&mut t, f, "button", &[]);
    let elems = get_form_elements(&t, f);
    // tagName is the uppercased tag name of an HTML element
    let tags: Vec<String> = elems.iter().map(|&e| t.tag_name(e).unwrap().to_ascii_uppercase()).collect();
    assert_eq!(tags.join(","), "INPUT,BUTTON");
}

#[test]
fn hidden_getter_true_when_attribute_present() {
    let (mut t, body) = page();
    element(&mut t, body, "div", &[("id", "d"), ("hidden", "")]);
    let d = t.get_element_by_id("d").unwrap();
    assert_eq!(get_hidden(&t, d), true);
}

#[test]
fn hidden_getter_false_when_attribute_absent() {
    let (mut t, body) = page();
    element(&mut t, body, "div", &[("id", "d")]);
    let d = t.get_element_by_id("d").unwrap();
    assert_eq!(get_hidden(&t, d), false);
}

#[test]
fn hidden_setter_adds_attribute() {
    let (mut t, body) = page();
    element(&mut t, body, "div", &[("id", "d")]);
    let d = t.get_element_by_id("d").unwrap();
    set_hidden(&mut t, d, true);
    assert_eq!(get_hidden(&t, d), true);
}

#[test]
fn hidden_setter_removes_attribute() {
    let (mut t, body) = page();
    element(&mut t, body, "div", &[("id", "d"), ("hidden", "")]);
    let d = t.get_element_by_id("d").unwrap();
    set_hidden(&mut t, d, false);
    assert_eq!(get_hidden(&t, d), false);
}

#[test]
fn dataset_reads_data_attributes() {
    let (mut t, body) = page();
    element(&mut t, body, "div", &[("id", "d"), ("data-name", "Alice"), ("data-age", "30")]);
    let d = t.get_element_by_id("d").unwrap();
    let s = format!("{},{}", dataset_get(&t, d, "name").unwrap(), dataset_get(&t, d, "age").unwrap());
    assert_eq!(s, "Alice,30");
}

#[test]
fn dataset_converts_kebab_to_camel() {
    let (mut t, body) = page();
    element(&mut t, body, "div", &[("id", "d"), ("data-user-id", "5"), ("data-first-name", "Bob")]);
    let d = t.get_element_by_id("d").unwrap();
    let s = format!(
        "{},{}",
        dataset_get(&t, d, "userId").unwrap(),
        dataset_get(&t, d, "firstName").unwrap()
    );
    assert_eq!(s, "5,Bob");
}
