use braille_engine::abort::{
    abort_listener_snapshot, is_abort_listener_registered, reason_for, remove_once_abort_listeners, signal_any, AbortAction, AbortReason,
    AbortSignalState,
};
use braille_engine::activation::{
    find_activation_target, has_activation_behavior, is_disabled, restore_activation, run_legacy_pre_activation, run_post_activation,
    PostActivationAction,
};
use braille_engine::anchor_form::{
    camel_to_kebab, dataset_delete, dataset_get, dataset_keys, dataset_set, get_hidden, get_href,
    get_method, kebab_to_camel, resolve_href, set_hidden, set_method,
};
use braille_engine::attr_nodes::AttrNodeCache;
use braille_engine::attributes::{
    check_attr_owner, has_attribute_ns_fn, has_attributes_fn, remove_attribute_ns_fn, get_attribute_fn, get_attribute_ns_fn, has_attribute_fn, remove_attribute_fn,
    remove_attribute_node_fn, set_attribute_fn, set_attribute_node_fn, set_attribute_ns_fn,
    toggle_attribute_fn,
};
use braille_engine::character_data::{
    append_data, character_data_get, character_data_length, delete_data, insert_data, replace_data,
    split_text, substring_data, to_unsigned_long, whole_text, SplitTextError,
};
use braille_engine::class_list::JsClassList;
use braille_engine::collections::{
    collect_descendants_by_class, collect_descendants_by_tag, collect_descendants_by_tag_ns,
    collection_named_item, collection_named_keys,
};
use braille_engine::custom_elements::{
    attribute_changed_callback, elements_to_upgrade, lifecycle_callback, CustomElementDefinition,
    CustomElementRegistry, Lifecycle,
};
use braille_engine::document::{
    adopt_node_same_tree, content_type_for_namespace, validate_doctype_name, create_attribute_name, create_html_document, create_processing_instruction,
    create_xml_document, doctype, document_append_child, document_body, document_contains,
    document_create_element, document_create_element_ns, document_element, document_head,
    document_remove_child, document_set_title, document_title, import_node_shallow, is_valid_xml_name,
};
use braille_engine::dom::{DomTree, NodeId};
use braille_engine::error::DomError;
use braille_engine::events::{
    add_event_listener, begin_dispatch, creates_custom_event, end_dispatch, parse_listener_options,
    remove_event_listener, DispatchError, EventState, ListenerEntry, ListenerOptionsArg,
};
use braille_engine::named_node_map::{
    named_node_map_keys, named_node_map_length, remove_named_item, remove_named_item_ns,
};
use braille_engine::text::split_tokens;

/// document > html > (head, body); returns (tree, html, head, body).
fn page() -> (DomTree, NodeId, NodeId, NodeId) {
    let mut t = DomTree::new();
    let html = t.create_element("html");
    let head = t.create_element("head");
    let body = t.create_element("body");
    let doc = t.document();
    t.append_child(doc, html);
    t.append_child(html, head);
    t.append_child(html, body);
    (t, html, head, body)
}

fn child(t: &mut DomTree, parent: NodeId, tag: &str) -> NodeId {
    let e = t.create_element(tag);
    t.append_child(parent, e);
    e
}

fn strings(v: &[&str]) -> Vec<String> {
    v.iter().map(|s| s.to_string()).collect()
}

// --- attributes -----------------------------------------------------------

#[test]
fn set_attribute_lowercases_name_in_html_documents() {
    let (mut t, _, _, body) = page();
    let d = child(&mut t, body, "div");
    let w = set_attribute_fn(&mut t, d, "DATA-X", "1").unwrap();
    assert_eq!(w.name, "data-x");
    assert_eq!(get_attribute_fn(&t, d, "data-x"), Some("1".to_string()));
    assert_eq!(get_attribute_fn(&t, d, "Data-X"), Some("1".to_string()));
}

#[test]
fn set_attribute_keeps_other_attributes() {
    let (mut t, _, _, body) = page();
    let d = child(&mut t, body, "div");
    set_attribute_fn(&mut t, d, "a", "1").unwrap();
    set_attribute_fn(&mut t, d, "b", "2").unwrap();
    set_attribute_fn(&mut t, d, "a", "3").unwrap();
    assert_eq!(get_attribute_fn(&t, d, "a"), Some("3".to_string()));
    assert_eq!(get_attribute_fn(&t, d, "b"), Some("2".to_string()));
    assert_eq!(named_node_map_length(&t, d), 2);
}

#[test]
fn set_attribute_reports_inline_handler_event() {
    let (mut t, _, _, body) = page();
    let d = child(&mut t, body, "div");
    let w = set_attribute_fn(&mut t, d, "onclick", "go()").unwrap();
    assert_eq!(w.handler_event, Some("click".to_string()));
    let w = set_attribute_fn(&mut t, d, "title", "x").unwrap();
    assert_eq!(w.handler_event, None);
}

#[test]
fn set_attribute_rejects_invalid_name() {
    let (mut t, _, _, body) = page();
    let d = child(&mut t, body, "div");
    assert!(matches!(set_attribute_fn(&mut t, d, "a b", "1"), Err(DomError::InvalidCharacterError)));
    assert!(matches!(set_attribute_fn(&mut t, d, "", "1"), Err(DomError::InvalidCharacterError)));
    assert_eq!(named_node_map_length(&t, d), 0);
}

#[test]
fn remove_attribute_then_absent() {
    let (mut t, _, _, body) = page();
    let d = child(&mut t, body, "div");
    set_attribute_fn(&mut t, d, "x", "1").unwrap();
    remove_attribute_fn(&mut t, d, "X");
    assert_eq!(has_attribute_fn(&t, d, "x"), false);
}

#[test]
fn toggle_attribute_result_is_presence() {
    let (mut t, _, _, body) = page();
    let d = child(&mut t, body, "div");
    assert_eq!(toggle_attribute_fn(&mut t, d, "hidden", None), Ok(true));
    assert_eq!(has_attribute_fn(&t, d, "hidden"), true);
    assert_eq!(toggle_attribute_fn(&mut t, d, "hidden", Some(true)), Ok(true));
    assert_eq!(has_attribute_fn(&t, d, "hidden"), true);
    assert_eq!(toggle_attribute_fn(&mut t, d, "hidden", None), Ok(false));
    assert_eq!(has_attribute_fn(&t, d, "hidden"), false);
    assert_eq!(toggle_attribute_fn(&mut t, d, "hidden", Some(false)), Ok(false));
    assert_eq!(has_attribute_fn(&t, d, "hidden"), false);
    assert_eq!(toggle_attribute_fn(&mut t, d, "a=b", None), Err(DomError::InvalidCharacterError));
}

#[test]
fn set_attribute_ns_then_get_attribute_ns() {
    let (mut t, _, _, body) = page();
    let d = child(&mut t, body, "div");
    let ns = "http://example.com/ns";
    set_attribute_ns_fn(&mut t, d, ns, "p:local", "v").unwrap();
    assert_eq!(get_attribute_ns_fn(&t, d, ns, "local"), Some("v".to_string()));
    assert_eq!(get_attribute_fn(&t, d, "p:local"), Some("v".to_string()));
    assert_eq!(set_attribute_ns_fn(&mut t, d, "", "p:x", "v"), Err(DomError::NamespaceError));
}

#[test]
fn attribute_nodes_in_use_and_not_found() {
    let (mut t, _, _, body) = page();
    let d = child(&mut t, body, "div");
    let other = child(&mut t, body, "span");
    assert_eq!(check_attr_owner(Some(other), d), Err(DomError::InUseAttributeError));
    assert_eq!(check_attr_owner(Some(d), d), Ok(()));
    assert!(matches!(
        set_attribute_node_fn(&mut t, d, Some(other), "x", "", "x", "1"),
        Err(DomError::InUseAttributeError)
    ));
    let replaced = set_attribute_node_fn(&mut t, d, None, "x", "", "x", "1").unwrap();
    assert!(replaced.is_none());
    let replaced = set_attribute_node_fn(&mut t, d, None, "x", "", "x", "2").unwrap();
    assert_eq!(replaced.map(|a| a.value), Some("1".to_string()));
    assert_eq!(remove_attribute_node_fn(&mut t, d, "", "x", "x"), Ok("x".to_string()));
    assert_eq!(remove_attribute_node_fn(&mut t, d, "", "x", "x"), Err(DomError::NotFoundError));
}

#[test]
fn named_node_map_keys_are_distinct_qualified_names() {
    let (mut t, _, _, body) = page();
    let d = child(&mut t, body, "div");
    set_attribute_fn(&mut t, d, "a", "1").unwrap();
    set_attribute_ns_fn(&mut t, d, "urn:x", "p:b", "2").unwrap();
    set_attribute_ns_fn(&mut t, d, "urn:y", "p:b", "3").unwrap();
    assert_eq!(named_node_map_keys(&t, d), strings(&["a", "p:b"]));
    assert_eq!(remove_named_item(&mut t, d, "zzz").err(), Some(DomError::NotFoundError));
    assert_eq!(remove_named_item(&mut t, d, "a").map(|a| a.value), Ok("1".to_string()));
    assert_eq!(named_node_map_length(&t, d), 2);
}

// --- dataset, hidden, href, method ---------------------------------------

#[test]
fn kebab_and_camel_conversions() {
    assert_eq!(kebab_to_camel("plain"), "plain");
    assert_eq!(kebab_to_camel("a--b"), "a-B");
    assert_eq!(kebab_to_camel("trailing-"), "trailing-");
    assert_eq!(camel_to_kebab("dateOfBirth"), "date-of-birth");
    assert_eq!(camel_to_kebab("plain"), "plain");
    assert_eq!(camel_to_kebab(&camel_to_kebab("aBC")), camel_to_kebab("aBC"));
}

#[test]
fn dataset_set_get_delete_and_keys() {
    let (mut t, _, _, body) = page();
    let d = child(&mut t, body, "div");
    dataset_set(&mut t, d, "userId", "7");
    assert_eq!(t.get_attribute(d, "data-user-id"), Some("7".to_string()));
    assert_eq!(dataset_get(&t, d, "userId"), Some("7".to_string()));
    set_attribute_fn(&mut t, d, "data-first-name", "Bob").unwrap();
    set_attribute_fn(&mut t, d, "title", "x").unwrap();
    assert_eq!(dataset_keys(&t, d), strings(&["userId", "firstName"]));
    assert!(dataset_delete(&mut t, d, "userId"));
    assert_eq!(dataset_get(&t, d, "userId"), None);
    assert!(!dataset_delete(&mut t, d, "missing"));
}

#[test]
fn camel_kebab_round_trips() {
    for s in ["dateOfBirth", "Abc", "x", "", "\u{e9}t\u{e9}Ok"] {
        assert_eq!(kebab_to_camel(&camel_to_kebab(s)), s);
    }
    for s in ["user-id", "a-b-c", "-a", "x1-y2", "caf\u{e9}-bar"] {
        assert_eq!(camel_to_kebab(&kebab_to_camel(s)), s);
    }
    assert_eq!(camel_to_kebab("Abc"), "-abc");
    assert_eq!(kebab_to_camel("-abc"), "Abc");
}

#[test]
fn hidden_roundtrip() {
    let (mut t, _, _, body) = page();
    let d = child(&mut t, body, "div");
    set_hidden(&mut t, d, true);
    assert!(get_hidden(&t, d));
    assert_eq!(t.get_attribute(d, "hidden"), Some(String::new()));
    set_hidden(&mut t, d, false);
    assert!(!get_hidden(&t, d));
}

#[test]
fn href_resolution() {
    assert_eq!(resolve_href("https://example.com"), "https://example.com/");
    assert_eq!(resolve_href("#frag"), "about:blank#frag");
    assert_eq!(resolve_href("http://[::1"), "http://[::1");
    let (mut t, _, _, body) = page();
    let a = child(&mut t, body, "a");
    assert_eq!(get_href(&t, a), "");
    set_method(&mut t, a, "dialog");
    assert_eq!(get_method(&t, a), "dialog");
}

// --- class list -----------------------------------------------------------

#[test]
fn class_list_add_remove_toggle_replace() {
    let (mut t, _, _, body) = page();
    let d = child(&mut t, body, "div");
    let cl = JsClassList::new(d);
    assert_eq!(cl.get_length(&t), 0);
    cl.add(&mut t, &strings(&["a", "b", "a"])).unwrap();
    assert_eq!(cl.get_value(&t), "a b");
    assert!(cl.contains(&t, &"b".to_string()));
    cl.remove(&mut t, &strings(&["a"])).unwrap();
    assert!(!cl.contains(&t, &"a".to_string()));
    assert_eq!(cl.toggle(&mut t, &"c".to_string(), None), Ok(true));
    assert!(cl.contains(&t, &"c".to_string()));
    assert_eq!(cl.toggle(&mut t, &"c".to_string(), None), Ok(false));
    assert_eq!(cl.replace(&mut t, &"b".to_string(), &"z".to_string()), Ok(true));
    assert_eq!(cl.item(&t, 0), Some("z".to_string()));
    assert_eq!(cl.add(&mut t, &strings(&[""])), Err(DomError::SyntaxError));
    assert_eq!(cl.add(&mut t, &strings(&["a b"])), Err(DomError::InvalidCharacterError));
}

#[test]
fn class_list_set_value_roundtrip() {
    let (mut t, _, _, body) = page();
    let d = child(&mut t, body, "div");
    let cl = JsClassList::new(d);
    cl.set_value(&mut t, "  x  y x ");
    assert_eq!(cl.get_classes(&t), strings(&["x", "y"]));
    assert_eq!(cl.get_raw_class_value(&t), "  x  y x ");
    cl.set_classes(&mut t, strings(&["p", "q"]));
    assert_eq!(cl.get_classes(&t), strings(&["p", "q"]));
}

// --- collections ----------------------------------------------------------

#[test]
fn elements_by_class_tag_and_namespace() {
    let (mut t, _, _, body) = page();
    let a = child(&mut t, body, "div");
    t.set_attribute(a, "class", "x y");
    let b = child(&mut t, a, "span");
    t.set_attribute(b, "class", "y");
    let c = t.create_element_ns("urn:svg", "svg:rect");
    t.append_child(body, c);
    assert_eq!(collect_descendants_by_class(&t, 0, &split_tokens("y", false)), vec![a, b]);
    assert_eq!(collect_descendants_by_class(&t, 0, &split_tokens("y x", false)), vec![a]);
    assert_eq!(collect_descendants_by_class(&t, 0, &split_tokens("  ", false)), Vec::<NodeId>::new());
    assert_eq!(collect_descendants_by_tag(&t, body, "SPAN"), vec![b]);
    assert_eq!(collect_descendants_by_tag(&t, body, "*"), vec![a, b, c]);
    assert_eq!(collect_descendants_by_tag_ns(&t, 0, "urn:svg", "rect"), vec![c]);
    assert_eq!(collect_descendants_by_tag_ns(&t, body, "*", "*"), vec![a, b, c]);
}

#[test]
fn named_item_resolves_exactly_the_named_keys() {
    let (mut t, _, _, body) = page();
    let a = child(&mut t, body, "input");
    t.set_attribute(a, "name", "n");
    let b = child(&mut t, body, "p");
    t.set_attribute(b, "id", "i");
    t.set_attribute(b, "name", "i");
    let list = t.element_children(body);
    let keys = collection_named_keys(&t, &list);
    assert_eq!(keys, strings(&["n", "i"]));
    for k in &keys {
        assert!(collection_named_item(&t, &list, k).is_some());
    }
    assert_eq!(collection_named_item(&t, &list, "x"), None);
}

// --- character data -------------------------------------------------------

#[test]
fn character_data_operations() {
    let (mut t, _, _, body) = page();
    let n = t.create_text("hello");
    t.append_child(body, n);
    assert_eq!(character_data_length(&t, n), 5);
    insert_data(&mut t, n, 5, " world").unwrap();
    assert_eq!(substring_data(&t, n, 5, 6), Ok(" world".to_string()));
    replace_data(&mut t, n, 0, 5, "HELLO").unwrap();
    assert_eq!(character_data_get(&t, n), Some("HELLO world".to_string()));
    delete_data(&mut t, n, 5, 100).unwrap();
    assert_eq!(character_data_get(&t, n), Some("HELLO".to_string()));
    append_data(&mut t, n, "!");
    assert_eq!(character_data_get(&t, n), Some("HELLO!".to_string()));
    assert_eq!(substring_data(&t, n, 7, 1), Err(DomError::IndexSizeError));
    assert_eq!(delete_data(&mut t, n, 7, 1), Err(DomError::IndexSizeError));
    assert_eq!(character_data_get(&t, body), None);
}

#[test]
fn split_text_and_whole_text() {
    let (mut t, _, _, body) = page();
    let n = t.create_text("abcdef");
    t.append_child(body, n);
    let m = split_text(&mut t, n, 2).unwrap();
    assert_eq!(character_data_get(&t, n), Some("ab".to_string()));
    assert_eq!(character_data_get(&t, m), Some("cdef".to_string()));
    assert_eq!(t.element_children(body).len(), 0);
    assert_eq!(whole_text(&t, n), Some("abcdef".to_string()));
    assert_eq!(split_text(&mut t, n, 9), Err(SplitTextError::IndexSize));
    assert_eq!(split_text(&mut t, body, 0), Err(SplitTextError::NotText));
    assert_eq!(whole_text(&t, body), None);
}

#[test]
fn character_data_counts_utf16_units() {
    let (mut t, _, _, body) = page();
    let n = t.create_text("a\u{1F600}b");
    t.append_child(body, n);
    assert_eq!(character_data_length(&t, n), 4);
    assert_eq!(substring_data(&t, n, 1, 2), Ok("\u{1F600}".to_string()));
    assert_eq!(substring_data(&t, n, 3, 1), Ok("b".to_string()));
    assert_eq!(substring_data(&t, n, 1, 1), Ok("\u{FFFD}".to_string()));
    assert_eq!(substring_data(&t, n, 4, 1), Ok(String::new()));
    assert_eq!(substring_data(&t, n, 5, 1), Err(DomError::IndexSizeError));
    insert_data(&mut t, n, 3, "\u{e9}").unwrap();
    assert_eq!(character_data_get(&t, n), Some("a\u{1F600}\u{e9}b".to_string()));
    assert_eq!(character_data_length(&t, n), 5);
    delete_data(&mut t, n, 1, 2).unwrap();
    assert_eq!(character_data_get(&t, n), Some("a\u{e9}b".to_string()));
    replace_data(&mut t, n, 1, 1, "\u{10437}").unwrap();
    assert_eq!(character_data_get(&t, n), Some("a\u{10437}b".to_string()));
    assert_eq!(character_data_length(&t, n), 4);
    assert_eq!(replace_data(&mut t, n, 5, 0, "x"), Err(DomError::IndexSizeError));
}

#[test]
fn split_text_at_utf16_offset() {
    let (mut t, _, _, body) = page();
    let n = t.create_text("\u{1F600}xy");
    t.append_child(body, n);
    let m = split_text(&mut t, n, 2).unwrap();
    assert_eq!(character_data_get(&t, n), Some("\u{1F600}".to_string()));
    assert_eq!(character_data_get(&t, m), Some("xy".to_string()));
    assert_eq!(split_text(&mut t, n, 3), Err(SplitTextError::IndexSize));
    let k = split_text(&mut t, n, 1).unwrap();
    assert_eq!(character_data_get(&t, n), Some("\u{FFFD}".to_string()));
    assert_eq!(character_data_get(&t, k), Some("\u{FFFD}".to_string()));
}

#[test]
fn split_text_leaves_other_nodes() {
    let (mut t, _, _, body) = page();
    let p = child(&mut t, body, "p");
    let n = t.create_text("abcd");
    t.append_child(p, n);
    let before = t.create_text("zz");
    let m = split_text(&mut t, n, 1).unwrap();
    assert_eq!(character_data_get(&t, before), Some("zz".to_string()));
    assert_eq!(t.get_node(body).children, vec![p]);
    assert_eq!(t.get_node(p).children, vec![n, m]);
}

#[test]
fn insert_then_substring_reads_back() {
    let (mut t, _, _, body) = page();
    let n = t.create_text("x\u{1F600}y");
    t.append_child(body, n);
    insert_data(&mut t, n, 3, "\u{1F601}z").unwrap();
    assert_eq!(substring_data(&t, n, 3, 3), Ok("\u{1F601}z".to_string()));
}

#[test]
fn unsigned_long_conversion_wraps() {
    assert_eq!(to_unsigned_long(5), 5);
    assert_eq!(to_unsigned_long(-1), 4294967295);
    assert_eq!(to_unsigned_long(4294967296 + 7), 7);
    assert_eq!(to_unsigned_long(i64::MIN), 0);
}

// --- activation -----------------------------------------------------------

#[test]
fn checkbox_activation_and_restore() {
    let (mut t, _, _, body) = page();
    let c = child(&mut t, body, "INPUT");
    t.set_attribute(c, "type", "checkbox");
    assert!(has_activation_behavior(&t, c));
    let saved = run_legacy_pre_activation(&mut t, c);
    assert!(t.has_attribute(c, "checked"));
    restore_activation(&mut t, c, saved);
    assert!(!t.has_attribute(c, "checked"));
    let saved = run_legacy_pre_activation(&mut t, c);
    let _ = saved;
    assert!(matches!(run_post_activation(&mut t, c), PostActivationAction::FireInputAndChange(x) if x == c));
}

// --- document -------------------------------------------------------------

#[test]
fn document_accessors_and_title() {
    let (mut t, html, head, body) = page();
    assert_eq!(document_element(&t), Some(html));
    assert_eq!(document_head(&t), Some(head));
    assert_eq!(document_body(&t), Some(body));
    assert_eq!(document_title(&t), "");
    document_set_title(&mut t, "Hello");
    assert_eq!(document_title(&t), "Hello");
    assert_eq!(t.element_children(head).len(), 1);
    document_set_title(&mut t, "Again");
    assert_eq!(document_title(&t), "Again");
    assert!(document_contains(&t, body));
    let loose = document_create_element(&mut t, "DIV");
    assert_eq!(t.tag_name(loose).unwrap(), "div");
    assert!(!document_contains(&t, loose));
    assert_eq!(doctype(&t), None);
}

#[test]
fn document_creation_checks() {
    let (mut t, _, _, _) = page();
    assert!(is_valid_xml_name("xml-stylesheet"));
    assert!(!is_valid_xml_name("1abc"));
    assert!(create_processing_instruction(&mut t, "xml-stylesheet", "href='a'").is_ok());
    assert_eq!(create_processing_instruction(&mut t, "x", "a?>b"), Err(DomError::InvalidCharacterError));
    assert_eq!(create_processing_instruction(&mut t, "1x", "a"), Err(DomError::InvalidCharacterError));
    assert_eq!(create_attribute_name(&t, "ABC"), Ok("abc".to_string()));
    assert_eq!(create_attribute_name(&t, ""), Err(DomError::InvalidCharacterError));
    assert!(document_create_element_ns(&mut t, "http://www.w3.org/2000/svg", "svg:g").is_ok());
    assert_eq!(document_create_element_ns(&mut t, "", "p:g"), Err(DomError::NamespaceError));
}

// --- abort ----------------------------------------------------------------

#[test]
fn abort_signal_aborts_once() {
    let mut s = AbortSignalState::new();
    assert!(!s.aborted());
    assert_eq!(s.throw_if_aborted(), Ok(()));
    assert_eq!(s.abort(reason_for(Some(9)), false), AbortAction::FireAbortEvent);
    assert_eq!(s.abort(reason_for(None), false), AbortAction::Nothing);
    assert_eq!(s.throw_if_aborted(), Err(AbortReason::Value(9)));
    let mut timed = AbortSignalState::new();
    timed.abort(reason_for(None), true);
    assert_eq!(timed.reason, Some(AbortReason::TimeoutError));
    let any = signal_any(&vec![AbortSignalState::new(), timed, s]);
    assert_eq!(any.reason, Some(AbortReason::TimeoutError));
    assert!(!signal_any(&vec![AbortSignalState::new()]).aborted());
}

// --- custom elements ------------------------------------------------------

fn definition(name: &str, ctor: u64) -> CustomElementDefinition {
    CustomElementDefinition {
        name: name.to_string(),
        constructor: ctor,
        observed_attributes: strings(&["title"]),
        connected_callback: Some(ctor + 1),
        disconnected_callback: None,
        attribute_changed_callback: Some(ctor + 2),
    }
}

#[test]
fn custom_element_registry() {
    let mut reg = CustomElementRegistry::new();
    assert_eq!(reg.define(definition("nohyphen", 1)), Err(DomError::SyntaxError));
    assert_eq!(reg.define(definition("my-el", 10)), Ok(()));
    assert_eq!(reg.define(definition("my-el", 20)), Err(DomError::NotSupportedError));
    assert_eq!(reg.get("my-el"), Some(10));
    assert_eq!(reg.when_defined("other-el"), Ok(None));
    assert_eq!(reg.when_defined("bad"), Err(DomError::SyntaxError));
    let (mut t, _, _, body) = page();
    let e = child(&mut t, body, "my-el");
    assert_eq!(elements_to_upgrade(&t, "my-el"), vec![e]);
    assert_eq!(lifecycle_callback(&reg, &t, e, Lifecycle::Connected), Some(11));
    assert_eq!(lifecycle_callback(&reg, &t, e, Lifecycle::Disconnected), None);
    assert_eq!(attribute_changed_callback(&reg, &t, e, &"title".to_string()), Some(12));
    assert_eq!(attribute_changed_callback(&reg, &t, e, &"id".to_string()), None);
}

// --- events ---------------------------------------------------------------

#[test]
fn event_listeners_and_dispatch_state() {
    let mut entries: Vec<ListenerEntry> = Vec::new();
    let l = |cb: u64, capture: bool| ListenerEntry { event_type: "click".to_string(), callback: cb, capture, once: false };
    add_event_listener(&mut entries, l(1, false));
    add_event_listener(&mut entries, l(1, false));
    add_event_listener(&mut entries, l(1, true));
    assert_eq!(entries.len(), 2);
    remove_event_listener(&mut entries, "click", 1, false);
    assert_eq!(entries.len(), 1);
    assert!(entries[0].capture);
    assert_eq!(parse_listener_options(&ListenerOptionsArg::Absent), (false, false));
    assert_eq!(parse_listener_options(&ListenerOptionsArg::Flag(true)), (true, false));
    assert_eq!(
        parse_listener_options(&ListenerOptionsArg::Object { capture: None, once: Some(true) }),
        (false, true)
    );
    assert!(creates_custom_event("CustomEvent"));
    assert!(!creates_custom_event("Event"));
    let mut e = EventState {
        initialized: true,
        dispatching: false,
        phase: 0,
        target: None,
        current_target: None,
        default_prevented: true,
        propagation_stopped: false,
        immediate_propagation_stopped: false,
    };
    assert_eq!(begin_dispatch(&mut e, 0), Ok(()));
    assert_eq!(begin_dispatch(&mut e, 0), Err(DispatchError::AlreadyDispatching));
    assert_eq!(e.phase, 2);
    assert_eq!(end_dispatch(&mut e), false);
    assert!(!e.dispatching);
    e.initialized = false;
    assert_eq!(begin_dispatch(&mut e, 0), Err(DispatchError::NotInitialized));
}

#[test]
fn abort_listener_bookkeeping() {
    let mk = |t: &str, cb: u64, once: bool| ListenerEntry { event_type: t.to_string(), callback: cb, capture: false, once };
    let mut entries = vec![mk("abort", 1, true), mk("click", 2, false), mk("abort", 3, false)];
    assert_eq!(abort_listener_snapshot(&entries), vec![(1, false, true), (3, false, false)]);
    assert!(is_abort_listener_registered(&entries, 1, false));
    assert!(!is_abort_listener_registered(&entries, 1, true));
    remove_once_abort_listeners(&mut entries, 1);
    assert_eq!(entries.len(), 2);
    assert_eq!(entries[0].callback, 2);
    assert!(!is_abort_listener_registered(&entries, 1, false));
    assert!(is_abort_listener_registered(&entries, 3, false));
    assert!(!is_abort_listener_registered(&entries, 2, false));
}

#[test]
fn error_names_and_codes() {
    assert_eq!(DomError::IndexSizeError.code(), 1);
    assert_eq!(DomError::NotFoundError.name(), "NotFoundError");
}

#[test]
fn document_append_remove_import_adopt() {
    let mut t = DomTree::new();
    let comment = t.create_comment("c");
    document_append_child(&mut t, comment);
    assert_eq!(t.get_node(0).children, vec![comment]);
    let frag = t.create_document_fragment();
    let a = t.create_element("a");
    let b = t.create_element("b");
    t.append_child(frag, a);
    t.append_child(frag, b);
    document_append_child(&mut t, frag);
    assert_eq!(t.get_node(0).children, vec![comment, a, b]);
    assert!(t.get_node(frag).children.is_empty());
    document_append_child(&mut t, comment);
    assert_eq!(t.get_node(0).children, vec![a, b, comment]);
    document_remove_child(&mut t, a);
    assert_eq!(t.get_node(0).children, vec![b, comment]);
    assert_eq!(t.get_node(a).parent, None);
    adopt_node_same_tree(&mut t, b).unwrap();
    assert_eq!(t.get_node(0).children, vec![comment]);
    assert_eq!(adopt_node_same_tree(&mut t, 0), Err(DomError::NotSupportedError));

    let mut src = DomTree::new();
    let el = src.create_element("p");
    src.set_attribute(el, "id", "x");
    let copy = import_node_shallow(&mut t, &src, el).unwrap();
    assert_eq!(t.get_attribute(copy, "id"), Some("x".to_string()));
    assert_eq!(t.get_node(copy).parent, None);
    assert_eq!(import_node_shallow(&mut t, &src, 0), Err(DomError::NotSupportedError));
}

#[test]
fn new_documents() {
    let h = create_html_document(Some("T"));
    assert_eq!(document_title(&h), "T");
    assert_eq!(doctype(&h), Some(1));
    assert_eq!(document_body(&h), Some(4));
    let x = create_xml_document("urn:x", "root", Some("root")).unwrap();
    assert_eq!(x.get_node(0).children.len(), 2);
    assert_eq!(x.tag_name(2).map(|s| s.as_str()), Some("root"));
    assert_eq!(create_xml_document("", "p:root", None).err(), Some(DomError::NamespaceError));
}

#[test]
fn remaining_operations() {
    let (mut t, html, _, body) = page();
    let button = child(&mut t, body, "BUTTON");
    t.set_attribute(button, "disabled", "");
    let span = child(&mut t, button, "span");
    assert!(is_disabled(&t, button));
    assert!(!is_disabled(&t, span));
    assert_eq!(find_activation_target(&t, &[0, html, body, button, span], true), Some(button));
    assert_eq!(find_activation_target(&t, &[0, html, body, button, span], false), None);

    assert!(!has_attributes_fn(&t, span));
    set_attribute_ns_fn(&mut t, span, "urn:x", "p:a", "1").unwrap();
    assert!(has_attributes_fn(&t, span));
    assert!(has_attribute_ns_fn(&t, span, "urn:x", "a"));
    let attr = braille_engine::attributes::get_attribute_node_ns_fn(&t, span, "urn:x", "a").unwrap();
    assert!(attr.matches_ns("urn:x", "a"));
    remove_attribute_ns_fn(&mut t, span, "urn:x", "a");
    assert!(!has_attribute_ns_fn(&t, span, "urn:x", "a"));
    set_attribute_ns_fn(&mut t, span, "urn:x", "p:b", "2").unwrap();
    assert_eq!(remove_named_item_ns(&mut t, span, "urn:x", "b").map(|a| a.value), Ok("2".to_string()));
    assert_eq!(remove_named_item_ns(&mut t, span, "urn:x", "b").err(), Some(DomError::NotFoundError));

    let cl = JsClassList::new(span);
    cl.set_value(&mut t, "a b");
    assert_eq!(cl.to_string_method(&t), "a b");

    assert_eq!(content_type_for_namespace("http://www.w3.org/1999/xhtml"), "application/xhtml+xml");
    assert_eq!(content_type_for_namespace("http://www.w3.org/2000/svg"), "image/svg+xml");
    assert_eq!(content_type_for_namespace(""), "application/xml");
    assert_eq!(validate_doctype_name("html"), Ok(()));
    assert_eq!(validate_doctype_name("a b"), Err(DomError::InvalidCharacterError));
}

// --- Attr identity ------------------------------------------------------------

#[test]
fn attr_cache_gives_same_attr_for_same_attribute() {
    let mut c = AttrNodeCache::new();
    let a = c.get_or_create(3, "id");
    let b = c.get_or_create(3, "class");
    let d = c.get_or_create(4, "id");
    assert_ne!(a, b);
    assert_ne!(a, d);
    assert_eq!(c.get_or_create(3, "id"), a);
    assert_eq!(c.lookup(3, "id"), Some(a));
    assert_eq!(c.lookup(3, "title"), None);
}

#[test]
fn attr_cache_take_and_rebind() {
    let mut c = AttrNodeCache::new();
    let a = c.get_or_create(1, "x");
    assert_eq!(c.take(1, "x"), Some(a));
    assert_eq!(c.lookup(1, "x"), None);
    assert_eq!(c.take(1, "x"), None);
    let fresh = c.get_or_create(1, "x");
    assert_ne!(fresh, a);
    let n = c.fresh_handle();
    assert_eq!(c.set_attribute_node(1, "x", n, Some("x")), Some(fresh));
    assert_eq!(c.lookup(1, "x"), Some(n));
    let y = c.get_or_create(1, "y");
    let m = c.fresh_handle();
    assert_eq!(c.set_attribute_node(1, "z", m, Some("y")), None);
    assert_eq!(c.lookup(1, "y"), Some(y));
    let k = c.fresh_handle();
    assert_eq!(c.set_attribute_node(1, "z", k, Some("y")), Some(m));
    assert_eq!(c.lookup(1, "y"), None);
    assert_eq!(c.lookup(1, "z"), Some(k));
    c.bind(2, "q", 77);
    assert_eq!(c.lookup(2, "q"), Some(77));
    c.forget(2, "q");
    assert_eq!(c.lookup(2, "q"), None);
}
