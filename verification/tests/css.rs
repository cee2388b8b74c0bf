use plato::css::{CssParser, Combinator, AttributeOperator, PseudoClass};

#[test]
fn simple_css() {
    let text = "a, .b { b: c; d: e }";
    let css = CssParser::new(text).parse();
    println!("{:?}", css);
}

#[test]
fn combinators_css() {
    let text = "a#i.j.k > b { b: c } a + .l { u: v } a { x: y }";
    let css = CssParser::new(text).parse();
    println!("{:?}", css);
}

#[test]
fn css_rules_per_selector() {
    let css = CssParser::new("a, .b { b: c; d: e }").parse();
    assert_eq!(css.rules.len(), 2);
    let first = &css.rules[0];
    assert_eq!(first.selector.simple_selectors[0].tag_name.as_deref(), Some("a"));
    assert_eq!(first.declarations.len(), 2);
    assert_eq!(first.declarations[0].name, "b");
    assert_eq!(first.declarations[0].value, "c");
    assert_eq!(first.declarations[1].name, "d");
    assert_eq!(first.declarations[1].value, "e");
    let second = &css.rules[1];
    assert_eq!(second.selector.simple_selectors[0].classes, vec!["b".to_string()]);
}

#[test]
fn css_combinators_and_ids() {
    let css = CssParser::new("a#i.j.k > b { b: c } a + .l { u: v } a { x: y }").parse();
    assert_eq!(css.rules.len(), 3);
    let s = &css.rules[0].selector;
    assert_eq!(s.simple_selectors.len(), 2);
    assert!(matches!(s.combinators[0], Combinator::Empty));
    assert!(matches!(s.combinators[1], Combinator::Child));
    assert_eq!(s.simple_selectors[0].id.as_deref(), Some("i"));
    assert_eq!(s.simple_selectors[0].classes, vec!["j".to_string(), "k".to_string()]);
    assert!(matches!(css.rules[1].selector.combinators[1], Combinator::NextSibling));
    assert_eq!(s.specificity(), [1, 2, 2]);
}

#[test]
fn css_skips_comments_at_rules_and_unsupported() {
    let css = CssParser::new("@import url(x.css); /* c */ p::before { a: b } q:first-child, r { c: d !important; }").parse();
    assert_eq!(css.rules.len(), 2);
    assert_eq!(css.rules[0].selector.simple_selectors[0].pseudo_classes, vec![PseudoClass::FirstChild]);
    assert_eq!(css.rules[0].declarations[0].value, "d");
    assert!(css.rules[0].declarations[0].important);
}

#[test]
fn css_attributes() {
    let css = CssParser::new("a[href], b[x=\"y\"], c[ns|l~='w'] { e: f }").parse();
    assert_eq!(css.rules.len(), 3);
    let a = &css.rules[0].selector.simple_selectors[0].attributes[0];
    assert_eq!(a.name, "href");
    assert!(matches!(a.operator, AttributeOperator::Exists));
    let b = &css.rules[1].selector.simple_selectors[0].attributes[0];
    assert!(matches!(&b.operator, AttributeOperator::Matches(v) if v == "y"));
    let c = &css.rules[2].selector.simple_selectors[0].attributes[0];
    assert_eq!(c.name, "ns:l");
    assert!(matches!(&c.operator, AttributeOperator::Contains(v) if v == "w"));
}

#[test]
fn css_declarations_alone() {
    let decls = CssParser::new(" margin : 1em  2em ; color:red").parse_declarations();
    assert_eq!(decls.len(), 2);
    assert_eq!(decls[0].name, "margin");
    assert_eq!(decls[0].value, "1em  2em");
    assert_eq!(decls[1].name, "color");
    assert_eq!(decls[1].value, "red");
    assert!(!decls[1].important);
}

#[test]
fn css_duplicate_classes_are_kept_once() {
    let css = CssParser::new(".a.a.b { x: y }").parse();
    assert_eq!(css.rules[0].selector.simple_selectors[0].classes, vec!["a".to_string(), "b".to_string()]);
}
