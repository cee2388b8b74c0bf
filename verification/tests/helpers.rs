use plato::helpers::{decode_entities, fingerprint, AsciiExtension, Fp, IsHidden, Normalize};

#[test]
fn test_entities() {
    assert_eq!(decode_entities("a &amp b"), "a &amp b");
    assert_eq!(decode_entities("a &zZz; b"), "a &zZz; b");
    assert_eq!(decode_entities("a &amp; b"), "a & b");
    assert_eq!(decode_entities("a &#x003E; b"), "a > b");
    assert_eq!(decode_entities("a &#38; b"), "a & b");
    assert_eq!(decode_entities("a &lt; b &gt; c"), "a < b > c");
}

#[test]
fn entities_edge_cases() {
    assert_eq!(decode_entities("no entity"), "no entity");
    assert_eq!(decode_entities("&#xD800;"), "&#xD800;");
    assert_eq!(decode_entities("&#;"), "&#;");
    assert_eq!(decode_entities("&#+65;"), "A");
    assert_eq!(decode_entities("&#99999999999;"), "&#99999999999;");
    assert_eq!(decode_entities("&Aacute;&aacute;"), "Áá");
    assert_eq!(decode_entities("x & y; z"), "x & y; z");
}

#[test]
fn alphabetic_digits() {
    assert_eq!('A'.to_alphabetic_digit(), Some(0));
    assert_eq!('Z'.to_alphabetic_digit(), Some(25));
    assert_eq!('a'.to_alphabetic_digit(), None);
}

#[test]
fn fingerprints() {
    let fp = Fp::from_hex("00000001000000FF").unwrap();
    assert_eq!(fp.value(), 0x1_0000_00FF);
    assert_eq!(fp.to_hex(), "00000001000000FF");
    assert_eq!(Fp(0xABCDEF).to_hex(), "0000000000ABCDEF");
    assert!(Fp::from_hex("xyz").is_none());
    assert!(Fp::from_hex("10000000000000000").is_none());
    assert_eq!("ff".parse::<Fp>().ok(), Some(Fp(255)));
    assert_eq!(fingerprint(0x1_0000_0002, 0x10), Fp(0x0000_0002_0000_0001 ^ 0x10));
    assert!(".hidden".is_hidden());
    assert!(!"shown".is_hidden());
    assert!(!"".is_hidden());
}

#[test]
fn paths_normalize() {
    assert_eq!("a/./b/../c".normalize(), "a/c");
    assert_eq!("/a/../../b".normalize(), "/b");
    assert_eq!("../a".normalize(), "a");
    assert_eq!("OEBPS/Text/../Images/cover.jpg".normalize(), "OEBPS/Images/cover.jpg");
    assert_eq!("a//b/".normalize(), "a/b");
    assert_eq!("./".normalize(), "");
    assert_eq!("".normalize(), "");
    assert_eq!("/".normalize(), "/");
    assert_eq!("/..".normalize(), "/");
}

#[test]
fn normalizing_twice_changes_nothing_more() {
    for p in ["a/./b/../c", "/x/../y//z/.", "../../q", "/", ""] {
        let once = p.normalize();
        assert_eq!(once.as_str().normalize(), once);
    }
}
