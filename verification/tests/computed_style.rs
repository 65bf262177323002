use braille_engine::computed_style::{accessor_property, JsComputedStyle};
use braille_engine::dom::{DomTree, NodeId};

fn styled(props: &[(&str, &str)]) -> (DomTree, NodeId) {
    let mut t = DomTree::new();
    let html = t.create_element("html");
    let body = t.create_element("body");
    let doc = t.document();
    t.append_child(doc, html);
    t.append_child(html, body);
    let p = t.create_element("p");
    t.set_attribute(p, "id", "t");
    t.append_child(body, p);
    let style: Vec<(String, String)> = props.iter().map(|(k, v)| (k.to_string(), v.to_string())).collect();
    t.set_computed_style(p, style);
    (t, p)
}

/// What a camelCase accessor reads on the snapshot.
fn read_accessor(s: &JsComputedStyle, camel: &str) -> String {
    let prop = accessor_property(camel).expect("known accessor");
    s.lookup(&prop)
}

#[test]
fn get_computed_style_returns_color() {
    let (t, _) = styled(&[("color", "rgb(255, 0, 0)")]);
    let p = t.get_element_by_id("t").unwrap();
    let s = JsComputedStyle::for_node(&t, p);
    let result = s.lookup("color");
    assert!(!result.is_empty(), "computed color should not be empty: {}", result);
}

#[test]
fn get_computed_style_camel_case_accessor() {
    let (t, _) = styled(&[("display", "none")]);
    let p = t.get_element_by_id("t").unwrap();
    let s = JsComputedStyle::for_node(&t, p);
    let result = read_accessor(&s, "display");
    assert_eq!(result, "none");
}

#[test]
fn get_computed_style_length() {
    let (t, _) = styled(&[("color", "rgb(255, 0, 0)"), ("display", "block")]);
    let p = t.get_element_by_id("t").unwrap();
    let s = JsComputedStyle::for_node(&t, p);
    let n = s.length() as f64;
    assert!(n >= 2.0, "should have at least 2 computed properties, got {}", n);
}

#[test]
fn get_computed_style_empty_for_no_styles() {
    let (t, _) = styled(&[]);
    let p = t.get_element_by_id("t").unwrap();
    let s = JsComputedStyle::for_node(&t, p);
    let result = s.lookup("color");
    assert!(result.is_empty() || !result.is_empty(), "should return a string");
}

#[test]
fn window_get_computed_style() {
    let (t, _) = styled(&[("color", "rgb(255, 0, 0)")]);
    let p = t.get_element_by_id("t").unwrap();
    let s = JsComputedStyle::for_node(&t, p);
    let result = read_accessor(&s, "color");
    assert!(!result.is_empty(), "window.getComputedStyle should work");
}

#[test]
fn different_elements_different_styles() {
    let mut t = DomTree::new();
    let html = t.create_element("html");
    let doc = t.document();
    t.append_child(doc, html);
    let a = t.create_element("p");
    let b = t.create_element("p");
    t.append_child(html, a);
    t.append_child(html, b);
    t.set_computed_style(a, vec![("color".to_string(), "rgb(255, 0, 0)".to_string())]);
    t.set_computed_style(b, vec![("color".to_string(), "rgb(0, 0, 255)".to_string())]);
    let a_str = JsComputedStyle::for_node(&t, a).lookup("color");
    let b_str = JsComputedStyle::for_node(&t, b).lookup("color");
    assert_ne!(a_str, b_str, "different classes should give different colors: a={}, b={}", a_str, b_str);
}

#[test]
fn later_value_wins_and_length_counts_distinct_properties() {
    let (t, p) = styled(&[("color", "red"), ("display", "block"), ("color", "blue")]);
    let s = JsComputedStyle::for_node(&t, p);
    assert_eq!(s.lookup("color"), "blue");
    assert_eq!(s.length(), 2);
    assert_eq!(accessor_property("zIndex"), Some("z-index".to_string()));
    assert_eq!(accessor_property("backgroundColor"), Some("background-color".to_string()));
    assert_eq!(accessor_property("nope"), None);
}
