use braille_engine::attributes::{
    get_attribute_fn, get_class_name, get_id, has_attribute_fn, remove_attribute_fn, set_attribute_fn,
    set_attribute_ns_fn, set_class_name, set_id,
};
use braille_engine::dom::{DomTree, NodeId};
use braille_engine::named_node_map::named_node_map_item;

/// document > html > body > div#app; the div is node 3.
fn make_test_tree() -> DomTree {
    let mut t = DomTree::new();
    let html = t.create_element("html");
    let body = t.create_element("body");
    let div = t.create_element("div");
    t.set_attribute(div, "id", "app");
    let doc = t.document();
    t.append_child(doc, html);
    t.append_child(html, body);
    t.append_child(body, div);
    t
}

fn app(t: &DomTree) -> NodeId {
    t.get_element_by_id("app").unwrap()
}

#[test]
fn attributes_get_attribute_returns_value() {
    let t = make_test_tree();
    let el = app(&t);
    assert_eq!(get_attribute_fn(&t, el, "id"), Some("app".to_string()));
}

#[test]
fn attributes_get_attribute_returns_null_for_missing() {
    let t = make_test_tree();
    let el = app(&t);
    assert!(get_attribute_fn(&t, el, "nonexistent").is_none());
}

#[test]
fn attributes_set_attribute_creates_new_attribute() {
    let mut t = make_test_tree();
    let el = app(&t);
    set_attribute_fn(&mut t, el, "data-x", "hello").unwrap();
    let div_id = 3;
    assert_eq!(t.get_attribute(div_id, "data-x"), Some("hello".to_string()));
}

#[test]
fn attributes_set_attribute_then_get_attribute() {
    let mut t = make_test_tree();
    let el = app(&t);
    set_attribute_fn(&mut t, el, "data-x", "hello").unwrap();
    assert_eq!(get_attribute_fn(&t, el, "data-x"), Some("hello".to_string()));
}

#[test]
fn attributes_remove_attribute_removes_attribute() {
    let mut t = make_test_tree();
    let el = app(&t);
    remove_attribute_fn(&mut t, el, "id");
    let div_id = 3;
    assert_eq!(t.get_attribute(div_id, "id"), None);
}

#[test]
fn attributes_has_attribute_returns_true_for_existing() {
    let t = make_test_tree();
    let el = app(&t);
    assert_eq!(has_attribute_fn(&t, el, "id"), true);
}

#[test]
fn attributes_has_attribute_returns_false_for_missing() {
    let t = make_test_tree();
    let el = app(&t);
    assert_eq!(has_attribute_fn(&t, el, "nonexistent"), false);
}

#[test]
fn attributes_id_getter_returns_id_attribute() {
    let t = make_test_tree();
    let el = app(&t);
    assert_eq!(get_id(&t, el), "app");
}

#[test]
fn attributes_id_setter_updates_id_attribute() {
    let mut t = make_test_tree();
    let el = app(&t);
    set_id(&mut t, el, "newId");
    let div_id = 3;
    assert_eq!(t.get_attribute(div_id, "id"), Some("newId".to_string()));
}

#[test]
fn attributes_id_setter_then_getter() {
    let mut t = make_test_tree();
    let el = app(&t);
    set_id(&mut t, el, "newId");
    assert_eq!(get_id(&t, el), "newId");
}

#[test]
fn attributes_class_name_getter_returns_class_attribute() {
    let mut t = make_test_tree();
    let el = app(&t);
    set_attribute_fn(&mut t, el, "class", "container").unwrap();
    let el = app(&t);
    assert_eq!(get_class_name(&t, el), "container");
}

#[test]
fn attributes_class_name_setter_updates_class_attribute() {
    let mut t = make_test_tree();
    let el = app(&t);
    set_class_name(&mut t, el, "wrapper");
    let div_id = 3;
    assert_eq!(t.get_attribute(div_id, "class"), Some("wrapper".to_string()));
}

#[test]
fn attributes_class_name_getter_returns_empty_string_for_missing() {
    let t = make_test_tree();
    let el = app(&t);
    assert_eq!(get_class_name(&t, el), "");
}

#[test]
fn attributes_id_getter_returns_empty_string_for_missing() {
    let mut t = make_test_tree();
    let el = app(&t);
    remove_attribute_fn(&mut t, el, "id");
    let fresh = braille_engine::document::document_create_element(&mut t, "div");
    assert_eq!(get_id(&t, fresh), "");
}

#[test]
fn attributes_attribute_workflow_integration() {
    let mut t = make_test_tree();
    let el = app(&t);
    let has_id = has_attribute_fn(&t, el, "id");
    let has_class = has_attribute_fn(&t, el, "class");
    assert!(has_id && !has_class);
    set_attribute_fn(&mut t, el, "class", "container").unwrap();
    set_attribute_fn(&mut t, el, "data-value", "123").unwrap();
    set_id(&mut t, el, "main");
    set_class_name(&mut t, el, "wrapper");
    remove_attribute_fn(&mut t, el, "data-value");
    let div_id = 3;
    assert_eq!(t.get_attribute(div_id, "id"), Some("main".to_string()));
    assert_eq!(t.get_attribute(div_id, "class"), Some("wrapper".to_string()));
    assert_eq!(t.get_attribute(div_id, "data-value"), None);
}

#[test]
fn attributes_set_attribute_ns_then_read_attributes_array() {
    let mut t = make_test_tree();
    let el = braille_engine::document::document_create_element(&mut t, "foo");
    set_attribute_ns_fn(&mut t, el, "http://www.w3.org/XML/1998/namespace", "a:bb", "pass").unwrap();
    let value = match named_node_map_item(&t, el, 0) {
        Some(attr) => attr.value,
        None => "NO_ATTR".to_string(),
    };
    assert_eq!(value, "pass");
}

#[test]
fn mod_get_attribute_returns_value() {
    let t = make_test_tree();
    let el = app(&t);
    assert_eq!(get_attribute_fn(&t, el, "id"), Some("app".to_string()));
}

#[test]
fn mod_get_attribute_returns_null_for_missing() {
    let t = make_test_tree();
    let el = app(&t);
    assert!(get_attribute_fn(&t, el, "nonexistent").is_none());
}

#[test]
fn mod_set_attribute_creates_new_attribute() {
    let mut t = make_test_tree();
    let el = app(&t);
    set_attribute_fn(&mut t, el, "data-x", "hello").unwrap();
    let div_id = 3;
    assert_eq!(t.get_attribute(div_id, "data-x"), Some("hello".to_string()));
}

#[test]
fn mod_set_attribute_then_get_attribute() {
    let mut t = make_test_tree();
    let el = app(&t);
    set_attribute_fn(&mut t, el, "data-x", "hello").unwrap();
    assert_eq!(get_attribute_fn(&t, el, "data-x"), Some("hello".to_string()));
}

#[test]
fn mod_remove_attribute_removes_attribute() {
    let mut t = make_test_tree();
    let el = app(&t);
    remove_attribute_fn(&mut t, el, "id");
    let div_id = 3;
    assert_eq!(t.get_attribute(div_id, "id"), None);
}

#[test]
fn mod_has_attribute_returns_true_for_existing() {
    let t = make_test_tree();
    let el = app(&t);
    assert_eq!(has_attribute_fn(&t, el, "id"), true);
}

#[test]
fn mod_has_attribute_returns_false_for_missing() {
    let t = make_test_tree();
    let el = app(&t);
    assert_eq!(has_attribute_fn(&t, el, "nonexistent"), false);
}

#[test]
fn mod_id_getter_returns_id_attribute() {
    let t = make_test_tree();
    let el = app(&t);
    assert_eq!(get_id(&t, el), "app");
}

#[test]
fn mod_id_setter_updates_id_attribute() {
    let mut t = make_test_tree();
    let el = app(&t);
    set_id(&mut t, el, "newId");
    let div_id = 3;
    assert_eq!(t.get_attribute(div_id, "id"), Some("newId".to_string()));
}

#[test]
fn mod_id_setter_then_getter() {
    let mut t = make_test_tree();
    let el = app(&t);
    set_id(&mut t, el, "newId");
    assert_eq!(get_id(&t, el), "newId");
}

#[test]
fn mod_class_name_getter_returns_class_attribute() {
    let mut t = make_test_tree();
    let el = app(&t);
    set_attribute_fn(&mut t, el, "class", "container").unwrap();
    let el = app(&t);
    assert_eq!(get_class_name(&t, el), "container");
}

#[test]
fn mod_class_name_setter_updates_class_attribute() {
    let mut t = make_test_tree();
    let el = app(&t);
    set_class_name(&mut t, el, "wrapper");
    let div_id = 3;
    assert_eq!(t.get_attribute(div_id, "class"), Some("wrapper".to_string()));
}

#[test]
fn mod_class_name_getter_returns_empty_string_for_missing() {
    let t = make_test_tree();
    let el = app(&t);
    assert_eq!(get_class_name(&t, el), "");
}

#[test]
fn mod_id_getter_returns_empty_string_for_missing() {
    let mut t = make_test_tree();
    let el = app(&t);
    remove_attribute_fn(&mut t, el, "id");
    let fresh = braille_engine::document::document_create_element(&mut t, "div");
    assert_eq!(get_id(&t, fresh), "");
}

#[test]
fn mod_attribute_workflow_integration() {
    let mut t = make_test_tree();
    let el = app(&t);
    let has_id = has_attribute_fn(&t, el, "id");
    let has_class = has_attribute_fn(&t, el, "class");
    assert!(has_id && !has_class);
    set_attribute_fn(&mut t, el, "class", "container").unwrap();
    set_attribute_fn(&mut t, el, "data-value", "123").unwrap();
    set_id(&mut t, el, "main");
    set_class_name(&mut t, el, "wrapper");
    remove_attribute_fn(&mut t, el, "data-value");
    let div_id = 3;
    assert_eq!(t.get_attribute(div_id, "id"), Some("main".to_string()));
    assert_eq!(t.get_attribute(div_id, "class"), Some("wrapper".to_string()));
    assert_eq!(t.get_attribute(div_id, "data-value"), None);
}

#[test]
fn mod_set_attribute_ns_then_read_attributes_array() {
    let mut t = make_test_tree();
    let el = braille_engine::document::document_create_element(&mut t, "foo");
    set_attribute_ns_fn(&mut t, el, "http://www.w3.org/XML/1998/namespace", "a:bb", "pass").unwrap();
    let value = match named_node_map_item(&t, el, 0) {
        Some(attr) => attr.value,
        None => "NO_ATTR".to_string(),
    };
    assert_eq!(value, "pass");
}
