use plato::css::CssParser;
use plato::dom::element;
use plato::strmap::StringMap;
use plato::style::{expand_and_insert, matches_simple_selector, split_words};

fn attrs(pairs: &[(&str, &str)]) -> StringMap {
    let mut m = StringMap::new();
    for (k, v) in pairs {
        m.insert(k.to_string(), v.to_string());
    }
    m
}

#[test]
fn margins_expand_to_four_sides() {
    let mut props = StringMap::new();
    expand_and_insert("margin", "1em 2em", &mut props);
    assert_eq!(props.get("margin-top").map(|s| s.as_str()), Some("1em"));
    assert_eq!(props.get("margin-right").map(|s| s.as_str()), Some("2em"));
    assert_eq!(props.get("margin-bottom").map(|s| s.as_str()), Some("1em"));
    assert_eq!(props.get("margin-left").map(|s| s.as_str()), Some("2em"));
    expand_and_insert("padding", "1 2 3", &mut props);
    assert_eq!(props.get("padding-left").map(|s| s.as_str()), Some("2"));
    assert_eq!(props.get("padding-bottom").map(|s| s.as_str()), Some("3"));
    expand_and_insert("padding", " 4 ", &mut props);
    assert_eq!(props.get("padding-top").map(|s| s.as_str()), Some(" 4 "));
    expand_and_insert("margin", "1 2 3 4 5", &mut props);
    assert_eq!(props.get("margin-top").map(|s| s.as_str()), Some("1em"));
    expand_and_insert("color", "red", &mut props);
    assert_eq!(props.get("color").map(|s| s.as_str()), Some("red"));
    assert_eq!(props.len(), 9);
}

#[test]
fn words_of_a_value() {
    assert_eq!(split_words("  a\tbb  c "), vec!["a".to_string(), "bb".to_string(), "c".to_string()]);
    assert!(split_words("   ").is_empty());
}

#[test]
fn simple_selectors_match_names_classes_and_ids() {
    let node = element("a", 0, attrs(&[("class", "c x y"), ("id", "e")]), Vec::new());
    let mut parser = CssParser::new("a.c.y#e { b: 1 } a.z { b: 2 } p { b: 3 } .x { b: 4 } #f { b: 5 }");
    let css = parser.parse();
    let results: Vec<bool> = css.rules.iter()
        .map(|r| matches_simple_selector(&node, &r.selector.simple_selectors[0]))
        .collect();
    assert_eq!(results, vec![true, false, false, true, false]);
}
