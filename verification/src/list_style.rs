//! The markers of list items: bullets, numbers, Roman numerals and letters.
use vstd::prelude::*;
use crate::chars::{decimal, push_decimal, push_one, push_str};
use crate::helpers::char_from_u32;
use septem::Roman;

verus! {

/// How the items of a list are marked.
#[derive(Debug, Copy, Clone, PartialEq, Eq, Structural)]
pub enum ListStyleType {
    NoMarker,
    Disc,
    Circle,
    Square,
    Decimal,
    LowerRoman,
    UpperRoman,
    LowerAlpha,
    UpperAlpha,
    LowerGreek,
    UpperGreek,
}

/// The values of the Roman numerals, largest first, with the subtractive pairs among them.
pub open spec fn roman_value(k: int) -> int {
    seq![1000int, 900, 500, 400, 100, 90, 50, 40, 10, 9, 5, 4, 1][k]
}

/// The letters of the numeral of `roman_value(k)`, in capitals.
pub open spec fn roman_letters(k: int) -> Seq<char> {
    seq![
        seq!['M'], seq!['C', 'M'], seq!['D'], seq!['C', 'D'], seq!['C'], seq!['X', 'C'], seq!['L'],
        seq!['X', 'L'], seq!['X'], seq!['I', 'X'], seq!['V'], seq!['I', 'V'], seq!['I'],
    ][k]
}

/// The Roman numeral of `n` in capitals, from the value `k` down: each value taken as often as
/// it fits, largest first. Past 3999 the thousands repeat `M`; zero has no letters.
pub open spec fn roman_from(n: int, k: int) -> Seq<char>
    decreases 13 - k, n,
{
    if k < 0 || k >= 13 || n <= 0 {
        Seq::empty()
    } else if n >= roman_value(k) {
        roman_letters(k) + roman_from(n - roman_value(k), k)
    } else {
        roman_from(n, k + 1)
    }
}

/// A capital Roman letter in small type.
pub open spec fn roman_lower(c: char) -> char {
    if c == 'M' {
        'm'
    } else if c == 'D' {
        'd'
    } else if c == 'C' {
        'c'
    } else if c == 'L' {
        'l'
    } else if c == 'X' {
        'x'
    } else if c == 'V' {
        'v'
    } else {
        'i'
    }
}

/// The Roman numeral of `n`, in capitals or in small letters.
pub open spec fn roman_numeral(n: u32, small: bool) -> Seq<char> {
    let upper = roman_from(n as int, 0);
    if small {
        upper.map_values(|c: char| roman_lower(c))
    } else {
        upper
    }
}

/// `septem::Roman::to_lowercase` of `Roman::from_unchecked(n)`: the numeral of `n` in small
/// letters, which the crate builds by taking each value, largest first, as often as it fits.
#[verifier::external_body]
fn roman_small(n: u32) -> (r: String)
    ensures
        r@ == roman_numeral(n, true),
{
    Roman::from_unchecked(n).to_lowercase()
}

/// `septem::Roman::to_uppercase` of `Roman::from_unchecked(n)`: the numeral of `n` in
/// capitals, built in the same way.
#[verifier::external_body]
fn roman_capital(n: u32) -> (r: String)
    ensures
        r@ == roman_numeral(n, false),
{
    Roman::from_unchecked(n).to_uppercase()
}

/// The letter of a lettered item: the alphabet from `start`, repeating every 26 items.
pub open spec fn alpha_letter(start: int, index: int) -> char {
    (start + (index % 0x1_0000_0000) % 26) as char
}

/// The letter of an item marked in Greek: the alphabet from `start` without the final sigma,
/// repeating every 24 items.
pub open spec fn greek_letter(start: int, index: int) -> char {
    let i = (index % 0x1_0000_0000) % 24;
    (start + if i >= 17 { i + 1 } else { i }) as char
}

/// The marker of item `index` (from zero) of a list of the given style, followed by its
/// space; none for `NoMarker`.
pub open spec fn list_prefix(kind: ListStyleType, index: int) -> Option<Seq<char>> {
    let dot = seq!['.', ' '];
    match kind {
        ListStyleType::NoMarker => None,
        ListStyleType::Disc => Some(seq!['\u{2022}', ' ']),
        ListStyleType::Circle => Some(seq!['\u{25E6}', ' ']),
        ListStyleType::Square => Some(seq!['\u{25AA}', ' ']),
        ListStyleType::Decimal => Some(decimal((index + 1) as nat) + dot),
        ListStyleType::LowerRoman => Some(roman_numeral(((index % 0x1_0000_0000) + 1) as u32, true) + dot),
        ListStyleType::UpperRoman => Some(roman_numeral(((index % 0x1_0000_0000) + 1) as u32, false) + dot),
        ListStyleType::LowerAlpha => Some(seq![alpha_letter(0x61, index)] + dot),
        ListStyleType::UpperAlpha => Some(seq![alpha_letter(0x41, index)] + dot),
        ListStyleType::LowerGreek => Some(seq![greek_letter(0x03B1, index)] + dot),
        ListStyleType::UpperGreek => Some(seq![greek_letter(0x0391, index)] + dot),
    }
}

/// The marker of item `index` (from zero) of a list of the given style; the numbers go from
/// one, the Roman ones on the item's index taken modulo 2³².
pub fn format_list_prefix(kind: ListStyleType, index: usize) -> (r: Option<String>)
    requires
        kind == ListStyleType::Decimal ==> index < usize::MAX,
        kind == ListStyleType::LowerRoman || kind == ListStyleType::UpperRoman ==> (index as int) % 0x1_0000_0000int
            != 0xFFFF_FFFF,
    ensures
        match r {
            Some(s) => list_prefix(kind, index as int) == Some(s@),
            None => list_prefix(kind, index as int) is None,
        },
{
    let wide = index as u64;
    let low = (wide % 0x1_0000_0000) as u32;
    assert(low as int == (index as int) % 0x1_0000_0000int);
    let mut s = String::new();
    match kind {
        ListStyleType::NoMarker => {
            return None;
        },
        ListStyleType::Disc => {
            push_one(&mut s, '\u{2022}');
            push_one(&mut s, ' ');
            return Some(s);
        },
        ListStyleType::Circle => {
            push_one(&mut s, '\u{25E6}');
            push_one(&mut s, ' ');
            return Some(s);
        },
        ListStyleType::Square => {
            push_one(&mut s, '\u{25AA}');
            push_one(&mut s, ' ');
            return Some(s);
        },
        ListStyleType::Decimal => {
            push_decimal(&mut s, index + 1);
        },
        ListStyleType::LowerRoman => {
            let numeral = roman_small(low + 1);
            push_str(&mut s, numeral.as_str());
        },
        ListStyleType::UpperRoman => {
            let numeral = roman_capital(low + 1);
            push_str(&mut s, numeral.as_str());
        },
        ListStyleType::LowerAlpha | ListStyleType::UpperAlpha => {
            let start: u32 = if kind == ListStyleType::LowerAlpha { 0x61 } else { 0x41 };
            match char_from_u32(start + low % 26) {
                Some(c) => push_one(&mut s, c),
                None => {
                    return None;
                },
            }
        },
        ListStyleType::LowerGreek | ListStyleType::UpperGreek => {
            let mut i = low % 24;
            if i >= 17 {
                i += 1;
            }
            let start: u32 = if kind == ListStyleType::LowerGreek { 0x03B1 } else { 0x0391 };
            match char_from_u32(start + i) {
                Some(c) => push_one(&mut s, c),
                None => {
                    return None;
                },
            }
        },
    }
    push_one(&mut s, '.');
    push_one(&mut s, ' ');
    Some(s)
}

} // verus!
