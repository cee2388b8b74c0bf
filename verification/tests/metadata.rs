use plato::metadata::{
    consolidate, extract_metadata_from_filename, file_name_from_info, make_query, FileInfo, Info,
    ReaderInfo, SimpleStatus, SortMethod,
};
use plato::sorting::{progress_order, sort, sort_author, sort_filepath, sort_title, sorter};
use std::cmp::Ordering;

fn info(title: &str, author: &str, path: &str) -> Info {
    Info {
        title: title.to_string(),
        subtitle: String::new(),
        author: author.to_string(),
        year: String::new(),
        language: String::new(),
        publisher: String::new(),
        series: String::new(),
        edition: String::new(),
        volume: String::new(),
        number: String::new(),
        isbn: String::new(),
        categories: Vec::new(),
        file: FileInfo { path: path.to_string(), kind: "epub".to_string(), size: 0 },
        reader: None,
        added: 0,
    }
}

#[test]
fn titles_are_shown_with_their_parts() {
    let mut i = info("Dune", "Frank Herbert", "books/dune.epub");
    assert_eq!(i.title(), "Dune");
    assert_eq!(i.label(), "Dune \u{b7} Frank Herbert");
    i.number = "1".to_string();
    assert_eq!(i.title(), "Dune #1");
    i.series = "Saga".to_string();
    assert_eq!(i.title(), "Dune (Saga #1)");
    i.volume = "2".to_string();
    i.subtitle = "The Desert Planet".to_string();
    assert_eq!(i.title(), "Dune \u{2014} vol. 2: The Desert Planet (Saga #1)");
    let mut q = info("Why?", "", "why.epub");
    q.subtitle = "Because".to_string();
    assert_eq!(q.title(), "Why? Because");
    assert_eq!(q.label(), "Why? Because");
    let untitled = info("", "", "books/Dune.tar.epub");
    assert_eq!(untitled.title(), "Dune.tar");
}

#[test]
fn stems_and_statuses() {
    assert_eq!(info("", "", "a/.bashrc").file_stem(), ".bashrc");
    assert_eq!(info("", "", "a/b.tar.gz").file_stem(), "b.tar");
    assert_eq!(info("", "", "a/b.").file_stem(), "b");
    assert_eq!(info("", "", "a/b/./").file_stem(), "b");
    let mut i = info("T", "", "t.epub");
    assert_eq!(i.simple_status(), SimpleStatus::New);
    i.reader = Some(ReaderInfo { opened: 5, current_page: 3, pages_count: 10, finished: false });
    assert_eq!(i.simple_status(), SimpleStatus::Reading);
    i.reader = Some(ReaderInfo { opened: 5, current_page: 9, pages_count: 10, finished: true });
    assert_eq!(i.simple_status(), SimpleStatus::Finished);
}

#[test]
fn sorting_names() {
    assert_eq!(info("", "Herbert, Frank", "").alphabetic_author(), "Herbert");
    assert_eq!(info("", "Frank Herbert", "").alphabetic_author(), "Herbert");
    assert_eq!(info("", "", "").alphabetic_author(), "");
    assert_eq!(info("The Hobbit", "", "").alphabetic_title(), "Hobbit");
    assert_eq!(info("An Apple", "", "").alphabetic_title(), "Apple");
    assert_eq!(info("A Tale", "", "").alphabetic_title(), "Tale");
    assert_eq!(info("Anne", "", "").alphabetic_title(), "Anne");
    let mut fr = info("Le Petit Prince", "", "");
    fr.language = "fr".to_string();
    assert_eq!(fr.alphabetic_title(), "Petit Prince");
    fr.title = "L\u{2019}\u{c9}tranger".to_string();
    assert_eq!(fr.alphabetic_title(), "\u{c9}tranger");
    fr.title = "Les Mis\u{e9}rables".to_string();
    assert_eq!(fr.alphabetic_title(), "Mis\u{e9}rables");
    let mut de = info("The Tod", "", "");
    de.language = "de".to_string();
    assert_eq!(de.alphabetic_title(), "The Tod");
}

#[test]
fn file_names_from_information() {
    let mut i = info("L'\u{e9}t\u{e9}", "\u{c9}mile", "x.epub");
    i.subtitle = "Part 1".to_string();
    assert_eq!(file_name_from_info(&i), "L'ete - Part 1 - Emile.epub");
    let mut q = info("What?/Why: Now!", "", "q.pdf");
    q.file.kind = "pdf".to_string();
    assert_eq!(file_name_from_info(&q), "What Why Now.pdf");
    let d = info("Dots...", "", "d.epub");
    assert_eq!(file_name_from_info(&d), "Dots..epub");
    let mut n = info("Book", "", "n.epub");
    n.number = "4".to_string();
    n.volume = "II".to_string();
    assert_eq!(file_name_from_info(&n), "Book - II - 4.epub");
    assert_eq!(file_name_from_info(&info("", "A", "x.epub")), "");
}

#[test]
fn information_from_file_names() {
    let mut i = info("", "", "lib/(Dune Saga) Frank Herbert - Dune_The Desert Planet-Ace Books (1965).epub");
    extract_metadata_from_filename("", &mut i);
    assert_eq!(i.series, "Dune Saga");
    assert_eq!(i.author, "Frank Herbert");
    assert_eq!(i.title, "Dune");
    assert_eq!(i.subtitle, "The Desert Planet");
    assert_eq!(i.publisher, "Ace Books");
    assert_eq!(i.year, "1965");
    let mut j = info("", "", "Frank Herbert - Dune-Chilton (1965).pdf");
    extract_metadata_from_filename("", &mut j);
    assert_eq!((j.author.as_str(), j.title.as_str(), j.subtitle.as_str()), ("Frank Herbert", "Dune", ""));
    assert_eq!((j.publisher.as_str(), j.year.as_str()), ("Chilton", "1965"));
    let mut k = info("Kept", "", "Someone - Other.epub");
    extract_metadata_from_filename("", &mut k);
    assert_eq!((k.title.as_str(), k.author.as_str()), ("Kept", ""));
}

#[test]
fn consolidation() {
    let mut i = info("dune: the desert planet", "O'Brien", "d.epub");
    i.year = "19650101".to_string();
    i.series = "Herbert's".to_string();
    consolidate("", &mut i);
    assert_eq!(i.title, "Dune");
    assert_eq!(i.subtitle, "The Desert Planet");
    assert_eq!(i.author, "O\u{2019}Brien");
    assert_eq!(i.series, "Herbert\u{2019}s");
    assert_eq!(i.year, "1965");
    let mut f = info("le titre: sous-titre", "", "f.epub");
    f.language = "fr".to_string();
    consolidate("", &mut f);
    assert_eq!((f.title.as_str(), f.subtitle.as_str()), ("le titre", "sous-titre"));
}

#[test]
fn search_queries() {
    assert!(make_query("...").is_none());
    assert!(make_query("").is_none());
    assert!(make_query(" ").is_none());
    let q = make_query("cafe").unwrap();
    assert_eq!(q.pattern(), "(?i)[c\u{e7}][a\u{e1}\u{e0}\u{e2}\u{e4}]f[e\u{e9}\u{e8}\u{ea}\u{eb}]");
    let q = Some(q);
    assert!(info("Le Caf\u{e9}", "", "x.epub").is_match(&q));
    assert!(!info("Tea", "", "x.epub").is_match(&q));
    let mut c = info("Tea", "", "x.epub");
    c.categories.push("Caf\u{e9}s".to_string());
    assert!(c.is_match(&q));
    assert!(info("Tea", "", "cafe/tea.epub").is_match(&q));
    assert!(info("Tea", "", "x.epub").is_match(&None));
    assert!(make_query("(").is_none());
}

#[test]
fn books_sort_by_method() {
    let mut md = vec![
        info("The Zebra", "Smith, John", "b/z.epub"),
        info("An Apple", "Adams, Ann", "a-b/x.epub"),
        info("Mango", "Jones, Bob", "a/y.epub"),
    ];
    md[0].file.size = 30;
    md[1].file.size = 10;
    md[2].file.size = 20;
    assert_eq!(sort_title(&md[0], &md[1]), Ordering::Greater);
    assert_eq!(sort_author(&md[1], &md[2]), Ordering::Less);
    assert_eq!(sort_filepath(&md[2], &md[1]), Ordering::Less);
    assert_eq!(sorter(SortMethod::Size, &md[0], &md[2]), Ordering::Greater);
    sort(&mut md, SortMethod::Title, false);
    let titles: Vec<&str> = md.iter().map(|i| i.title.as_str()).collect();
    assert_eq!(titles, vec!["An Apple", "Mango", "The Zebra"]);
    sort(&mut md, SortMethod::Size, true);
    let sizes: Vec<u64> = md.iter().map(|i| i.file.size).collect();
    assert_eq!(sizes, vec![30, 20, 10]);
    sort(&mut md, SortMethod::FilePath, false);
    let paths: Vec<&str> = md.iter().map(|i| i.file.path.as_str()).collect();
    assert_eq!(paths, vec!["a/y.epub", "a-b/x.epub", "b/z.epub"]);
}

#[test]
fn ties_keep_their_order() {
    let mut md = vec![info("B", "", "1"), info("A", "", "2"), info("B", "", "3"), info("A", "", "4")];
    sort(&mut md, SortMethod::Title, false);
    let paths: Vec<&str> = md.iter().map(|i| i.file.path.as_str()).collect();
    assert_eq!(paths, vec!["2", "4", "1", "3"]);
    sort(&mut md, SortMethod::Title, true);
    let paths: Vec<&str> = md.iter().map(|i| i.file.path.as_str()).collect();
    assert_eq!(paths, vec!["1", "3", "2", "4"]);
}

#[test]
fn progress_ranks_finished_then_new_then_reading() {
    let new = info("A", "", "a.epub");
    let mut reading = info("B", "", "b.epub");
    reading.reader = Some(ReaderInfo { opened: 5, current_page: 3, pages_count: 10, finished: false });
    let mut finished = info("C", "", "c.epub");
    finished.reader = Some(ReaderInfo { opened: 5, current_page: 9, pages_count: 10, finished: true });
    assert_eq!(progress_order(&finished, &new), Some(Ordering::Less));
    assert_eq!(progress_order(&new, &reading), Some(Ordering::Less));
    assert_eq!(progress_order(&reading, &finished), Some(Ordering::Greater));
    assert_eq!(progress_order(&new, &new), Some(Ordering::Equal));
    assert_eq!(progress_order(&reading, &reading), None);
}
