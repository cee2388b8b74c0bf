use plato::list_style::{format_list_prefix, ListStyleType};

fn prefix(kind: ListStyleType, index: usize) -> Option<String> {
    format_list_prefix(kind, index)
}

#[test]
fn bullets_and_no_marker() {
    assert_eq!(prefix(ListStyleType::NoMarker, 3), None);
    assert_eq!(prefix(ListStyleType::Disc, 0).as_deref(), Some("• "));
    assert_eq!(prefix(ListStyleType::Circle, 9).as_deref(), Some("◦ "));
    assert_eq!(prefix(ListStyleType::Square, 1).as_deref(), Some("▪ "));
}

#[test]
fn numbers_count_from_one() {
    assert_eq!(prefix(ListStyleType::Decimal, 0).as_deref(), Some("1. "));
    assert_eq!(prefix(ListStyleType::Decimal, 41).as_deref(), Some("42. "));
}

#[test]
fn roman_numerals() {
    assert_eq!(prefix(ListStyleType::LowerRoman, 3).as_deref(), Some("iv. "));
    assert_eq!(prefix(ListStyleType::UpperRoman, 8).as_deref(), Some("IX. "));
    assert_eq!(prefix(ListStyleType::UpperRoman, 1993).as_deref(), Some("MCMXCIV. "));
    assert_eq!(prefix(ListStyleType::UpperRoman, 5031).as_deref(), Some("MMMMMXXXII. "));
    assert_eq!(prefix(ListStyleType::LowerRoman, 48).as_deref(), Some("xlix. "));
}

#[test]
fn letters_repeat() {
    assert_eq!(prefix(ListStyleType::LowerAlpha, 0).as_deref(), Some("a. "));
    assert_eq!(prefix(ListStyleType::UpperAlpha, 25).as_deref(), Some("Z. "));
    assert_eq!(prefix(ListStyleType::LowerAlpha, 26).as_deref(), Some("a. "));
    assert_eq!(prefix(ListStyleType::LowerGreek, 0).as_deref(), Some("α. "));
    assert_eq!(prefix(ListStyleType::LowerGreek, 16).as_deref(), Some("ρ. "));
    assert_eq!(prefix(ListStyleType::LowerGreek, 17).as_deref(), Some("σ. "));
    assert_eq!(prefix(ListStyleType::UpperGreek, 23).as_deref(), Some("Ω. "));
    assert_eq!(prefix(ListStyleType::UpperGreek, 24).as_deref(), Some("Α. "));
}
