use qugui::condition::{check_condition, split_marker};
use qugui::store::Vars;

fn pair(a: &str, b: &str) -> (String, String) {
    (a.to_string(), b.to_string())
}

#[test]
fn empty_condition_is_true() {
    let mut v = Vars::new();
    assert!(check_condition(&vec![], &v));
    v.set("mode".to_string(), "edit".to_string());
    assert!(check_condition(&vec![], &v));
}

#[test]
fn unset_variable_meets_only_negated() {
    let v = Vars::new();
    assert!(check_condition(&vec![pair("mode!", "edit")], &v));
    assert!(!check_condition(&vec![pair("mode", "edit")], &v));
}

#[test]
fn equality_and_negation() {
    let mut v = Vars::new();
    v.set("mode".to_string(), "edit".to_string());
    assert!(check_condition(&vec![pair("mode", "edit")], &v));
    assert!(!check_condition(&vec![pair("mode", "view")], &v));
    assert!(!check_condition(&vec![pair("mode!", "edit")], &v));
    assert!(check_condition(&vec![pair("mode!", "view")], &v));
}

#[test]
fn every_constraint_must_hold() {
    let mut v = Vars::new();
    v.set("a".to_string(), "1".to_string());
    v.set("b".to_string(), "2".to_string());
    assert!(check_condition(&vec![pair("a", "1"), pair("b", "2")], &v));
    assert!(!check_condition(&vec![pair("a", "1"), pair("b", "3")], &v));
    assert!(!check_condition(&vec![pair("a", "0"), pair("b", "2")], &v));
}

#[test]
fn marker_is_stripped_once() {
    assert_eq!(split_marker("mode!"), ("mode".to_string(), true));
    assert_eq!(split_marker("mode"), ("mode".to_string(), false));
    assert_eq!(split_marker("x!!"), ("x!".to_string(), true));
    assert_eq!(split_marker(""), ("".to_string(), false));
}
