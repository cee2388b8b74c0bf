use plato::dictionary::{
    decode_number, index_fits, definition_value, lookup_query, metadata_query, parse_index,
    parse_index_with_settings, DictError, Entry, Index, Metadata, Settings,
};

fn entry(headword: &str, offset: u64, size: u64) -> Entry {
    Entry { headword: String::from(headword), offset, size, original: None }
}

fn lines(ls: &[&str]) -> Vec<String> {
    ls.iter().map(|l| l.to_string()).collect()
}

#[test]
fn test_index_find() {
    let words = vec![entry("bar", 0, 8), entry("baz", 8, 4), entry("foo", 12, 4)];

    let index = Index {
        entries: words,
        state: None,
        settings: Settings { all_characters: false, case_sensitive: false },
    };

    let r = index.find("apples", false);
    assert!(r.is_empty());

    let r = index.find("baz", false);
    assert!(!r.is_empty());
    assert_eq!(r.len(), 1);
    assert_eq!(r.first().unwrap().headword, "baz");

    let r = index.find("bas", true);
    assert!(!r.is_empty());
    assert_eq!(r.len(), 2);
    assert_eq!(r.first().unwrap().headword, "bar");
}

#[test]
fn find_returns_every_entry_of_a_headword() {
    let words = vec![entry("a", 0, 1), entry("b", 1, 1), entry("b", 2, 1), entry("b", 3, 1), entry("c", 4, 1)];
    let index = Index {
        entries: words,
        state: None,
        settings: Settings { all_characters: true, case_sensitive: true },
    };
    let r = index.find("b", false);
    assert_eq!(r.iter().map(|e| e.offset).collect::<Vec<u64>>(), vec![1, 2, 3]);
    assert!(index.find("d", false).is_empty());
}

#[test]
fn decode_numbers() {
    assert_eq!(decode_number("A").unwrap(), 0);
    assert_eq!(decode_number("B").unwrap(), 1);
    assert_eq!(decode_number("a").unwrap(), 26);
    assert_eq!(decode_number("0").unwrap(), 52);
    assert_eq!(decode_number("+").unwrap(), 62);
    assert_eq!(decode_number("/").unwrap(), 63);
    assert_eq!(decode_number("BA").unwrap(), 64);
    assert_eq!(decode_number("CAB").unwrap(), 2 * 4096 + 1);
    assert_eq!(decode_number("").unwrap(), 0);
}

#[test]
fn decode_number_reports_the_last_bad_character() {
    match decode_number("A*B") {
        Err(DictError::InvalidCharacter(c, None, Some(pos))) => {
            assert_eq!(c, '*');
            assert_eq!(pos, 1);
        },
        _ => panic!("expected an invalid character"),
    }
    match decode_number("?AB!") {
        Err(DictError::InvalidCharacter(c, None, Some(pos))) => {
            assert_eq!(c, '!');
            assert_eq!(pos, 0);
        },
        _ => panic!("expected an invalid character"),
    }
}

#[test]
fn parse_index_reads_metadata_and_folds_case() {
    let ls = lines(&[
        "00-database-allchars\tA\tB\n",
        "00-database-url\tB\tC\n",
        "Bar\tC\tD\n",
        "Straße\tD\tE\tStraße\n",
    ]);
    let index = parse_index(ls, false).ok().unwrap();
    assert!(index.state.is_none());
    assert!(index.settings.all_characters);
    assert!(!index.settings.case_sensitive);
    assert_eq!(index.entries.len(), 4);
    assert_eq!(index.entries[2].headword, "bar");
    assert_eq!(index.entries[2].offset, 2);
    assert_eq!(index.entries[2].size, 3);
    assert_eq!(index.entries[3].headword, "strasse");
    assert_eq!(index.entries[3].original.as_deref(), Some("Straße"));
}

#[test]
fn lazy_parse_stops_after_the_metadata() {
    let ls = lines(&[
        "00-database-allchars\tA\tB",
        "00-database-case-sensitive\tA\tB",
        "Bar\tC\tD",
        "Foo\tD\tE",
    ]);
    let mut index = parse_index(ls, true).ok().unwrap();
    assert!(index.settings.all_characters);
    assert!(index.settings.case_sensitive);
    assert_eq!(index.entries.len(), 3);
    assert_eq!(index.entries.last().unwrap().headword, "Bar");
    assert_eq!(index.state.as_ref().map(|s| s.len()), Some(1));
    let r = index.load_and_find("Foo", false);
    assert_eq!(r.len(), 1);
    assert_eq!(r[0].offset, 3);
    assert!(index.state.is_none());
    assert_eq!(index.entries.len(), 4);
}

#[test]
fn missing_column_is_reported_with_its_line() {
    let ls = lines(&["00-database-allchars\tA\tB", "bar\tA"]);
    match parse_index(ls, false) {
        Err(DictError::MissingColumnInIndex(n)) => assert_eq!(n, 1),
        _ => panic!("expected a missing column"),
    }
}

#[test]
fn known_settings_are_kept() {
    let ls = lines(&["Bar\tA\tB"]);
    let index = parse_index_with_settings(ls, false, Some(Settings { all_characters: true, case_sensitive: true })).ok().unwrap();
    assert_eq!(index.entries[0].headword, "Bar");
}

#[test]
fn queries() {
    let m = Metadata { all_chars: false, case_sensitive: false };
    assert_eq!(lookup_query("Hello, World!", &m), "hello world");
    let m = Metadata { all_chars: true, case_sensitive: true };
    assert_eq!(lookup_query("Hello, World!", &m), "Hello, World!");
    assert_eq!(metadata_query("short", false), "00databaseshort");
    assert_eq!(metadata_query("short", true), "00-database-short");
}

#[test]
fn definition_values() {
    assert_eq!(definition_value("00-database-short\n  My Dict \n"), "My Dict");
    assert_eq!(definition_value("abc\n"), "abc");
    assert_eq!(definition_value(" x "), "x");
    assert_eq!(definition_value(""), "");
}

#[test]
fn lazy_then_rest_reads_like_a_full_parse() {
    let ls = lines(&[
        "00-database-allchars\tA\tB",
        "00-database-url\tB\tC",
        "Bar\tC\tD",
        "Foo\tD\tE",
        "Qux\tE\tF\tQUX",
    ]);
    let full = parse_index(ls.clone(), false).ok().unwrap();
    let mut lazy = parse_index(ls, true).ok().unwrap();
    lazy.load_and_find("x", false);
    assert_eq!(lazy.entries.len(), full.entries.len());
    for (a, b) in lazy.entries.iter().zip(full.entries.iter()) {
        assert_eq!(a.headword, b.headword);
        assert_eq!(a.offset, b.offset);
        assert_eq!(a.size, b.size);
        assert_eq!(a.original, b.original);
    }
    assert_eq!(lazy.settings.all_characters, full.settings.all_characters);
    assert_eq!(lazy.settings.case_sensitive, full.settings.case_sensitive);
}

#[test]
fn offsets_too_large_for_u64_are_caught_before_parsing() {
    let good = lines(&["apple\tA\tB", "pear\tB\tC"]);
    assert!(index_fits(&good, false, None));
    let bad = lines(&["apple\t//////////////\tB"]);
    assert!(!index_fits(&bad, false, None));
}
