use plato::document::{Location, TocEntry};
use plato::dom::{text, whitespace, ElementData, Node};
use plato::epub::{parent_dir_of, Chunk, EpubDocument};
use plato::strmap::StringMap;

fn attrs(pairs: &[(&str, &str)]) -> StringMap {
    let mut m = StringMap::new();
    for (k, v) in pairs {
        m.insert(k.to_string(), v.to_string());
    }
    m
}

fn el(name: &str, pairs: &[(&str, &str)], children: Vec<Node>) -> Node {
    Node::Element(ElementData {
        offset: 0,
        name: name.to_string(),
        qualified_name: None,
        attributes: attrs(pairs),
        children,
    })
}

fn leaf(name: &str, content: &str) -> Node {
    el(name, &[], vec![text(content, 0)])
}

fn package(metadata: Vec<Node>) -> Node {
    el("package", &[], vec![
        el("metadata", &[], metadata),
        el("manifest", &[], vec![
            el("item", &[("id", "ncx"), ("href", "toc.ncx")], Vec::new()),
            el("item", &[("id", "c1"), ("href", "ch1.html")], Vec::new()),
        ]),
        el("spine", &[("toc", "ncx")], Vec::new()),
    ])
}

fn chunks(parts: &[(&str, usize)]) -> Vec<Chunk> {
    parts.iter().map(|(p, n)| Chunk { path: p.to_string(), size: *n }).collect()
}

fn book(metadata: Vec<Node>) -> EpubDocument {
    EpubDocument::from_parts(package(metadata), "OEBPS".to_string(), chunks(&[("OEBPS/a.html", 10), ("OEBPS/b.html", 0), ("OEBPS/c.html", 5)]))
        .unwrap()
}

#[test]
fn an_empty_spine_makes_no_book() {
    assert!(EpubDocument::from_parts(package(Vec::new()), String::new(), Vec::new()).is_none());
}

#[test]
fn offsets_follow_the_spine() {
    let doc = book(Vec::new());
    assert_eq!(doc.size(), 15);
    assert_eq!(doc.pages_count(), 15);
    assert_eq!((doc.offset(0), doc.offset(1), doc.offset(2), doc.offset(3)), (0, 10, 10, 15));
    assert_eq!(doc.vertebra_coordinates(0), Some((0, 0)));
    assert_eq!(doc.vertebra_coordinates(9), Some((0, 0)));
    assert_eq!(doc.vertebra_coordinates(10), Some((2, 10)));
    assert_eq!(doc.vertebra_coordinates(14), Some((2, 10)));
    assert_eq!(doc.vertebra_coordinates(15), None);
    assert_eq!(doc.vertebra_coordinates_from_name("OEBPS/b.html"), Some((1, 10)));
    assert_eq!(doc.vertebra_coordinates_from_name("OEBPS/c.html"), Some((2, 10)));
    assert_eq!(doc.vertebra_coordinates_from_name("c.html"), None);
    assert_eq!(doc.vertebra_coordinates_with(|i, end| i == 1 && end == 10), Some((1, 10)));
}

#[test]
fn metadata_of_the_package() {
    let doc = book(vec![
        whitespace("\n", 0),
        leaf("dc:title", "Le Petit Prince"),
        leaf("dc:creator", "Antoine de Saint-Exup&eacute;ry"),
        leaf("dc:creator", "Someone Else"),
        leaf("dc:date", "1943-04-06"),
        leaf("dc:language", "fr"),
        el("meta", &[("name", "calibre:series"), ("content", "Classics &amp; More")], Vec::new()),
        el("meta", &[("name", "calibre:series_index"), ("content", "2")], Vec::new()),
        el("dc:description", &[], Vec::new()),
    ]);
    assert_eq!(doc.title().as_deref(), Some("Le Petit Prince"));
    assert_eq!(doc.author().as_deref(), Some("Antoine de Saint-Exupéry"));
    assert_eq!(doc.year().as_deref(), Some("1943"));
    assert_eq!(doc.language().as_deref(), Some("fr"));
    assert_eq!(doc.publisher(), None);
    assert_eq!(doc.description(), None);
    assert_eq!(doc.series().as_deref(), Some("Classics & More"));
    assert_eq!(doc.series_index().as_deref(), Some("2"));
    assert_eq!(doc.metadata_by_name("calibre:rating"), None);
    let short = book(vec![leaf("dc:date", "99")]);
    assert_eq!(short.year().as_deref(), Some("99"));
}

#[test]
fn categories_are_sorted_and_unique() {
    let doc = book(vec![
        leaf("dc:subject", "FIC009000 - FICTION / Fantasy / General|JUV000000 - JUVENILE FICTION / General"),
        leaf("dc:subject", "Adventure"),
        leaf("dc:subject", "  FICTION / Fantasy / General "),
        leaf("dc:subject", "Adventure"),
        leaf("subject", "Ignored"),
    ]);
    assert_eq!(
        doc.categories(),
        vec!["Adventure".to_string(), "FICTION.Fantasy.General".to_string(), "JUVENILE FICTION.General".to_string()]
    );
    assert!(book(Vec::new()).categories().is_empty());
}

fn point(label: &str, src: &str, inner: Vec<Node>) -> Node {
    let mut children = vec![el("navLabel", &[], vec![leaf("text", label)]), el("content", &[("src", src)], Vec::new())];
    children.extend(inner);
    el("navPoint", &[], children)
}

fn uri(e: &TocEntry) -> &str {
    match &e.location {
        Location::Uri(u) => u.as_str(),
        _ => panic!("not a URI"),
    }
}

#[test]
fn table_of_contents_from_the_navigation_map() {
    let doc = book(Vec::new());
    let path = doc.toc_path().unwrap();
    assert_eq!(path, "OEBPS/toc.ncx");
    let ncx = el("ncx", &[], vec![el("navMap", &[], vec![
        point("Chapter 1", "ch1.html#a", Vec::new()),
        whitespace(" ", 0),
        point("Chapter 2", "../ch2.html", vec![point("Part &amp; Parcel", "ch2.html#s1", Vec::new())]),
    ])]);
    let toc = doc.toc(&ncx, &path).unwrap();
    assert_eq!(toc.len(), 2);
    assert_eq!((toc[0].title.as_str(), uri(&toc[0]), toc[0].index), ("Chapter 1", "OEBPS/ch1.html#a", 0));
    assert!(toc[0].children.is_empty());
    assert_eq!((toc[1].title.as_str(), uri(&toc[1]), toc[1].index), ("Chapter 2", "ch2.html", 1));
    assert_eq!(toc[1].children.len(), 1);
    let sub = &toc[1].children[0];
    assert_eq!((sub.title.as_str(), uri(sub), sub.index), ("Part & Parcel", "OEBPS/ch2.html#s1", 2));
    assert!(doc.toc(&el("ncx", &[], Vec::new()), &path).is_none());
    let mut index = 5;
    let entries = doc.walk_toc(&el("navMap", &[], vec![point("X", "/x.html", Vec::new())]), "", &mut index);
    assert_eq!((uri(&entries[0]), entries[0].index, index), ("/x.html", 5, 6));
}

#[test]
fn parents_of_paths() {
    assert_eq!(parent_dir_of("a/b/c.ncx"), "a/b");
    assert_eq!(parent_dir_of("/a"), "/");
    assert_eq!(parent_dir_of("toc.ncx"), "");
    assert_eq!(parent_dir_of("/"), "");
}
