use plato::document::{
    asciify, chapter_from_index, file_kind, chapter_from_uri, resolve_location, toc_as_html, Location,
    TextLocation, TocEntry, TOC_HTML_HEAD,
};

fn entry(title: &str, index: usize, location: Location, children: Vec<TocEntry>) -> TocEntry {
    TocEntry { title: title.to_string(), location, index, children }
}

fn toc() -> Vec<TocEntry> {
    vec![
        entry("One", 0, Location::Exact(0), vec![
            entry("One.A", 1, Location::Uri("a.html".to_string()), Vec::new()),
            entry("One.B", 2, Location::Exact(7), Vec::new()),
        ]),
        entry("Two <2>", 3, Location::Uri("b.html#x".to_string()), Vec::new()),
    ]
}

#[test]
fn chapters_by_index_and_uri() {
    let toc = toc();
    assert_eq!(chapter_from_index(2, &toc).map(|e| e.title.as_str()), Some("One.B"));
    assert_eq!(chapter_from_index(0, &toc).map(|e| e.title.as_str()), Some("One"));
    assert!(chapter_from_index(9, &toc).is_none());
    assert_eq!(chapter_from_uri("a.html", &toc).map(|e| e.index), Some(1));
    assert!(chapter_from_uri("c.html", &toc).is_none());
}

#[test]
fn toc_html() {
    let toc = toc();
    let html = toc_as_html(&toc, 2);
    let expected = format!(
        "{}<ul><li><a href=\"@0\">One</a></li><ul><li><a href=\"@a.html\">One.A</a></li><li><a href=\"@7\"><strong>One.B</strong></a></li></ul><li><a href=\"@b.html#x\">Two &lt;2&gt;</a></li></ul></body></html>",
        TOC_HTML_HEAD
    );
    assert_eq!(html, expected);
}

#[test]
fn text_locations() {
    let a = TextLocation::Static(1, 5);
    let b = TextLocation::Static(2, 0);
    let c = TextLocation::Dynamic(0);
    assert!(a.precedes(b));
    assert!(b.precedes(c));
    assert!(!c.precedes(a));
    assert_eq!(b.min_max(a), (a, b));
    assert_eq!(a.location(), 1);
    assert_eq!(c.location(), 0);
}

#[test]
fn locations_resolve_within_the_pages() {
    assert_eq!(resolve_location(10, &Location::Exact(3)), Some(3));
    assert_eq!(resolve_location(10, &Location::Exact(10)), None);
    assert_eq!(resolve_location(10, &Location::Previous(3)), Some(2));
    assert_eq!(resolve_location(10, &Location::Previous(0)), None);
    assert_eq!(resolve_location(10, &Location::Next(8)), Some(9));
    assert_eq!(resolve_location(10, &Location::Next(9)), None);
    assert_eq!(resolve_location(0, &Location::Exact(0)), None);
    assert_eq!(resolve_location(10, &Location::Uri("a.html".to_string())), None);
}

#[test]
fn names_become_ascii() {
    assert_eq!(asciify("\u{152}uvre \u{2014} l\u{2019}\u{e9}t\u{e9}"), "Oeuvre - l'ete");
    assert_eq!(asciify("c\u{e6}sar \u{2013} \u{c6}on \u{153}"), "caesar - Aeon oe");
    assert_eq!(asciify("plain"), "plain");
    assert_eq!(asciify("Ni\u{f1}o"), "Nino");
}

#[test]
fn file_kinds_are_lower_case_extensions() {
    assert_eq!(file_kind("books/Dune.EPUB"), Some("epub".to_string()));
    assert_eq!(file_kind("a/b.tar.Gz"), Some("gz".to_string()));
    assert_eq!(file_kind("a/.bashrc"), None);
    assert_eq!(file_kind("a/noext"), None);
    assert_eq!(file_kind("dir/"), None);
    assert_eq!(file_kind("a/b."), Some("".to_string()));
}
