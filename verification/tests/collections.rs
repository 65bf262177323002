use braille_engine::collections::{collection_item, collection_length, collection_named_item, collection_named_keys};
use braille_engine::dom::{DomTree, NodeId};

/// `<div id="test"><img><img id=foo><img id=foo><img name="bar"></div>`, then two
/// `img` elements in no namespace appended: one with id `baz`, one named `qux`.
fn named_children_tree() -> (DomTree, NodeId) {
    let mut t = DomTree::new();
    let html = t.create_element("html");
    let body = t.create_element("body");
    let doc = t.document();
    t.append_child(doc, html);
    t.append_child(html, body);
    let container = t.create_element("div");
    t.set_attribute(container, "id", "test");
    t.append_child(body, container);
    let a = t.create_element("img");
    t.append_child(container, a);
    for attrs in [("id", "foo"), ("id", "foo"), ("name", "bar")] {
        let e = t.create_element("img");
        t.set_attribute(e, attrs.0, attrs.1);
        t.append_child(container, e);
    }
    let baz = t.create_element_ns("", "img");
    t.set_attribute(baz, "id", "baz");
    t.append_child(container, baz);
    let qux = t.create_element_ns("", "img");
    t.set_attribute(qux, "name", "qux");
    t.append_child(container, qux);
    (t, container)
}

fn check_children_named_props() -> Result<(), String> {
    let (t, _) = named_children_tree();
    let container = t.get_element_by_id("test").ok_or("no container")?;
    let list = t.element_children(container);
    let mut errors: Vec<String> = Vec::new();
    if collection_length(&list) != 6 {
        errors.push(format!("length={}", list.len()));
    }
    let first = collection_item(&list, 0).ok_or("no item 0")?;
    if t.namespace_of(first).map(|s| s.as_str()) != Some("http://www.w3.org/1999/xhtml") {
        errors.push("parsed ns".to_string());
    }
    let fifth = collection_item(&list, 4).ok_or("no item 4")?;
    if t.namespace_of(fifth).map(|s| s.as_str()) != Some("") {
        errors.push("createElementNS ns".to_string());
    }
    let own = collection_named_keys(&t, &list);
    for name in ["foo", "bar", "baz"] {
        if !own.iter().any(|k| k == name) {
            errors.push(format!("missing {} in ownPropertyNames", name));
        }
    }
    if own.iter().any(|k| k == "qux") {
        errors.push("qux should not be in ownPropertyNames".to_string());
    }
    if errors.is_empty() {
        Ok(())
    } else {
        Err(errors.join("; "))
    }
}

#[test]
fn collections_htmlcollection_children_named_props() {
    let result = check_children_named_props();
    assert_eq!(result, Ok(()), "HTMLCollection test failed: {:?}", result);
}

#[test]
fn mod_htmlcollection_children_named_props() {
    let result = check_children_named_props();
    assert_eq!(result, Ok(()), "HTMLCollection test failed: {:?}", result);
}

#[test]
fn named_item_prefers_first_match_and_skips_name_outside_xhtml() {
    let (t, container) = named_children_tree();
    let list = t.element_children(container);
    assert_eq!(collection_named_item(&t, &list, "foo"), Some(list[1]));
    assert_eq!(collection_named_item(&t, &list, "bar"), Some(list[3]));
    assert_eq!(collection_named_item(&t, &list, "baz"), Some(list[4]));
    assert_eq!(collection_named_item(&t, &list, "qux"), None);
    assert_eq!(collection_item(&list, -1), None);
    assert_eq!(collection_item(&list, 6), None);
}
