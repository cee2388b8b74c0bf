use plato::dom::{element, text, whitespace, Node};
use plato::strmap::StringMap;

fn attrs(pairs: &[(&str, &str)]) -> StringMap {
    let mut m = StringMap::new();
    for (k, v) in pairs {
        m.insert(k.to_string(), v.to_string());
    }
    m
}

#[test]
fn element_names() {
    let e = element("svg:rect", 3, StringMap::new(), Vec::new());
    assert_eq!(e.tag_name(), Some("rect"));
    assert_eq!(e.tag_qualified_name(), Some("svg:rect"));
    assert_eq!(e.offset(), 3);
    let p = element("p", 0, StringMap::new(), Vec::new());
    assert_eq!(p.tag_name(), Some("p"));
    assert_eq!(p.tag_qualified_name(), None);
    assert!(p.is_block());
    assert!(p.is_element());
    assert!(!element("span", 0, StringMap::new(), Vec::new()).is_block());
    assert!(whitespace(" ", 1).is_whitespace());
    assert!(!text("a", 1).is_block());
}

#[test]
fn attributes_classes_and_ids() {
    let e = element("a", 0, attrs(&[("class", "c x  y"), ("id", "e")]), Vec::new());
    assert_eq!(e.attr("id"), Some("e"));
    assert_eq!(e.id(), Some("e"));
    assert_eq!(e.attr("href"), None);
    assert_eq!(e.classes(), Some(vec!["c".to_string(), "x".to_string(), "".to_string(), "y".to_string()]));
    assert_eq!(text("t", 0).classes(), None);
}

#[test]
fn text_of_nodes() {
    let e = element("b", 0, StringMap::new(), vec![text("bold", 3)]);
    assert_eq!(e.text(), Some("bold"));
    let f = element("b", 0, StringMap::new(), vec![text("a", 3), text("b", 4)]);
    assert_eq!(f.text(), None);
}

#[test]
fn find_in_document_order() {
    let tree = element("html", 0, StringMap::new(), vec![
        element("body", 1, StringMap::new(), vec![
            element("p", 2, attrs(&[("id", "one")]), vec![text("x", 3)]),
            element("p", 4, attrs(&[("id", "two")]), Vec::new()),
        ]),
    ]);
    assert_eq!(tree.find("p").map(|n| n.offset()), Some(2));
    assert_eq!(tree.find("body").map(|n| n.offset()), Some(1));
    assert!(tree.find("table").is_none());
    assert_eq!(tree.find_by_id("two").map(|n| n.offset()), Some(4));
    assert!(tree.find_by_id("three").is_none());
    assert_eq!(tree.child(0).map(|n| n.offset()), Some(1));
    assert!(tree.child(1).is_none());
}

#[test]
fn lost_inlines_are_wrapped() {
    let mut tree = element("body", 0, StringMap::new(), vec![
        whitespace(" ", 1),
        text("a", 2),
        element("em", 3, StringMap::new(), Vec::new()),
        whitespace(" ", 4),
        element("p", 5, StringMap::new(), vec![
            text("b", 6),
            element("div", 7, StringMap::new(), Vec::new()),
        ]),
        text("c", 8),
    ]);
    tree.wrap_lost_inlines();
    let children = tree.children().unwrap();
    assert_eq!(children.len(), 4);
    assert!(children[0].is_whitespace());
    assert_eq!(children[1].tag_name(), Some("anonymous"));
    assert_eq!(children[1].offset(), 2);
    assert_eq!(children[1].children().unwrap().len(), 3);
    assert_eq!(children[2].tag_name(), Some("p"));
    let inner = children[2].children().unwrap();
    assert_eq!(inner.len(), 2);
    assert_eq!(inner[0].tag_name(), Some("anonymous"));
    assert_eq!(inner[0].children().unwrap().len(), 1);
    assert_eq!(children[3].tag_name(), Some("anonymous"));
    assert_eq!(children[3].offset(), 8);
}

#[test]
fn inline_only_children_stay() {
    let mut tree = element("p", 0, StringMap::new(), vec![text("a", 1), element("em", 2, StringMap::new(), Vec::new())]);
    tree.wrap_lost_inlines();
    assert_eq!(tree.children().unwrap().len(), 2);
    assert_eq!(tree.children().unwrap()[1].tag_name(), Some("em"));
}

#[test]
fn string_maps() {
    let mut m = StringMap::new();
    assert_eq!(m.len(), 0);
    m.insert("a".to_string(), "1".to_string());
    m.insert("b".to_string(), "2".to_string());
    m.insert("a".to_string(), "3".to_string());
    assert_eq!(m.len(), 2);
    assert_eq!(m.get("a").map(|s| s.as_str()), Some("3"));
    assert_eq!(m.get("c"), None);
    let c = m.copy();
    assert_eq!(c.get("b").map(|s| s.as_str()), Some("2"));
}
