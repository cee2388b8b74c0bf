use vstd::prelude::*;
use crate::chars::{
    chars_of, find_char, index_of, lemma_index_of, push_one, push_range, push_str, range_eq,
    is_ascii_uppercase, split_char, split_on, str_eq, string_views, to_string,
};

verus! {

broadcast use vstd::string::group_string_axioms;

// ---------------------------------------------------------------------------------------------
// Numbers written in a radix
// ---------------------------------------------------------------------------------------------

/// The value of a digit in the given radix, letters of either case standing for the digits
/// above nine.
pub open spec fn digit_value(c: char, radix: int) -> Option<int> {
    let v: int = if '0' <= c <= '9' {
        c as int - '0' as int
    } else if 'a' <= c <= 'z' {
        c as int - 'a' as int + 10
    } else if 'A' <= c <= 'Z' {
        c as int - 'A' as int + 10
    } else {
        36
    };
    if v < radix {
        Some(v)
    } else {
        None
    }
}

/// The number written with the digits `d`, if they all are digits.
pub open spec fn digits_value(d: Seq<char>, radix: int) -> Option<int>
    decreases d.len(),
{
    if d.len() == 0 {
        Some(0)
    } else {
        match (digits_value(d.drop_last(), radix), digit_value(d.last(), radix)) {
            (Some(v), Some(x)) => Some(v * radix + x),
            _ => None,
        }
    }
}

/// An unsigned number written in the given radix, with an optional leading `+`, as
/// `from_str_radix` reads it: `None` for an empty text, a bad digit, or a value above `max`.
pub open spec fn parse_radix(s: Seq<char>, radix: int, max: int) -> Option<int> {
    let d = if s.len() > 0 && s[0] == '+' {
        s.drop_first()
    } else {
        s
    };
    if d.len() == 0 {
        None
    } else {
        match digits_value(d, radix) {
            Some(v) => if v <= max {
                Some(v)
            } else {
                None
            },
            None => None,
        }
    }
}

proof fn lemma_digits_value_grows(d: Seq<char>, k: int, radix: int)
    requires
        2 <= radix,
        0 <= k <= d.len(),
        digits_value(d, radix) is Some,
    ensures
        digits_value(d.subrange(0, k), radix) is Some,
        digits_value(d.subrange(0, k), radix)->0 <= digits_value(d, radix)->0,
        digits_value(d, radix)->0 >= 0,
    decreases d.len(),
{
    if d.len() > 0 {
        lemma_digits_value_grows(d.drop_last(), if k < d.len() { k } else { d.len() - 1 }, radix);
        let v = digits_value(d.drop_last(), radix)->0;
        let x = digit_value(d.last(), radix)->0;
        assert(v * radix + x >= v) by (nonlinear_arith)
            requires
                v >= 0,
                x >= 0,
                radix >= 2,
        ;
        if k < d.len() {
            assert(d.drop_last().subrange(0, k) =~= d.subrange(0, k));
        } else {
            assert(d.subrange(0, k) =~= d);
        }
    } else {
        assert(d.subrange(0, k) =~= d);
    }
}

fn digit_of_char(c: char, radix: u64) -> (r: Option<u64>)
    requires
        radix <= 36,
    ensures
        match digit_value(c, radix as int) {
            Some(v) => r == Some(v as u64),
            None => r is None,
        },
{
    let v: u64 = if '0' <= c && c <= '9' {
        (c as u32 - '0' as u32) as u64
    } else if 'a' <= c && c <= 'z' {
        (c as u32 - 'a' as u32 + 10) as u64
    } else if 'A' <= c && c <= 'Z' {
        (c as u32 - 'A' as u32 + 10) as u64
    } else {
        36
    };
    if v < radix {
        Some(v)
    } else {
        None
    }
}

/// Reads the number written in `v[from..to]`, as `from_str_radix` does.
pub fn parse_radix_range(v: &Vec<char>, from: usize, to: usize, radix: u64, max: u64) -> (r: Option<u64>)
    requires
        from <= to <= v@.len(),
        2 <= radix <= 36,
    ensures
        r matches Some(m) ==> parse_radix(v@.subrange(from as int, to as int), radix as int, max as int)
            == Some(m as int) && m <= max,
        r is None ==> parse_radix(v@.subrange(from as int, to as int), radix as int, max as int) is None,
{
    let ghost s = v@.subrange(from as int, to as int);
    let mut start = from;
    if from < to && v[from] == '+' {
        start = from + 1;
    }
    let ghost d = v@.subrange(start as int, to as int);
    assert(d =~= if s.len() > 0 && s[0] == '+' { s.drop_first() } else { s });
    if start == to {
        return None;
    }
    let mut acc: u64 = 0;
    let mut i = start;
    while i < to
        invariant
            from <= start <= i <= to <= v@.len(),
            2 <= radix <= 36,
            d == v@.subrange(start as int, to as int),
            s == v@.subrange(from as int, to as int),
            d == (if s.len() > 0 && s[0] == '+' { s.drop_first() } else { s }),
            start < to,
            digits_value(d.subrange(0, i - start), radix as int) == Some(acc as int),
            acc <= max,
        decreases to - i,
    {
        let ghost k = (i - start) as int;
        assert(d.subrange(0, k + 1).drop_last() =~= d.subrange(0, k));
        assert(d.subrange(0, k + 1).last() == v@[i as int]);
        match digit_of_char(v[i], radix) {
            None => {
                proof {
                    assert(digits_value(d.subrange(0, k + 1), radix as int) is None);
                    if digits_value(d, radix as int) is Some {
                        lemma_digits_value_grows(d, k + 1, radix as int);
                    }
                    assert(digits_value(d, radix as int) is None);
                    assert(parse_radix(s, radix as int, max as int) is None);
                }
                return None;
            },
            Some(x) => {
                let next = match acc.checked_mul(radix) {
                    Some(m) => m.checked_add(x),
                    None => None,
                };
                match next {
                    Some(n) if n <= max => {
                        acc = n;
                    },
                    _ => {
                        proof {
                            let w = digits_value(d.subrange(0, k + 1), radix as int)->0;
                            assert(w == acc * radix + x);
                            assert(w > max) by {
                                if acc * radix + x <= max {
                                    assert(acc * radix <= u64::MAX) by (nonlinear_arith)
                                        requires
                                            acc * radix + x <= max,
                                            x >= 0,
                                            max <= u64::MAX,
                                    ;
                                }
                            }
                            if digits_value(d, radix as int) is Some {
                                lemma_digits_value_grows(d, k + 1, radix as int);
                            }
                            assert(parse_radix(s, radix as int, max as int) is None);
                        }
                        return None;
                    },
                }
            },
        }
        i += 1;
    }
    assert(d.subrange(0, (to - start) as int) =~= d);
    Some(acc)
}

// ---------------------------------------------------------------------------------------------
// Characters
// ---------------------------------------------------------------------------------------------

/// Whether `n` is the code of a character (not a surrogate, not above `0x10FFFF`).
pub open spec fn is_scalar_value(n: u32) -> bool {
    n < 0xD800 || (0xE000 <= n && n <= 0x10FFFF)
}

/// `char::from_u32`: the character of code `n`, if there is one.
#[verifier::external_body]
pub(crate) fn char_from_u32(n: u32) -> (c: Option<char>)
    ensures
        is_scalar_value(n) ==> c == Some(n as char),
        !is_scalar_value(n) ==> c is None,
{
    char::from_u32(n)
}

/// The position of an uppercase ASCII letter in the alphabet.
pub trait AsciiExtension {
    fn to_alphabetic_digit(self) -> Option<u32>;
}

impl AsciiExtension for char {
    fn to_alphabetic_digit(self) -> (r: Option<u32>)
        ensures
            is_ascii_uppercase(self) ==> r == Some((self as u32 - 65) as u32),
            !is_ascii_uppercase(self) ==> r is None,
    {
        if 'A' <= self && self <= 'Z' {
            Some(self as u32 - 65)
        } else {
            None
        }
    }
}

// ---------------------------------------------------------------------------------------------
// Character entities
// ---------------------------------------------------------------------------------------------

/// The entry at position `i` of the HTML entity table of the `entities` crate: the entity, as
/// `&name;` or `&name`, and the characters it stands for; `None` past the end of the table.
pub uninterp spec fn html_entity_at(i: int) -> Option<(Seq<char>, Seq<char>)>;

/// `entities::ENTITIES.get(i)`: the entity and characters of the table's entry `i`.
#[verifier::external_body]
fn entity_at(i: usize) -> (r: Option<(&'static str, &'static str)>)
    ensures
        match r {
            Some((e, c)) => html_entity_at(i as int) == Some((e@, c@)),
            None => html_entity_at(i as int) is None,
        },
{
    entities::ENTITIES.get(i).map(|e| (e.entity, e.characters))
}

/// The characters of the first entry of the entity table, from position `i` on, whose
/// entity is `name`.
pub open spec fn entity_lookup_from(name: Seq<char>, i: int) -> Option<Seq<char>>
    decreases usize::MAX - i,
{
    if i < 0 || i >= usize::MAX {
        None
    } else {
        match html_entity_at(i) {
            None => None,
            Some((e, c)) => if e == name {
                Some(c)
            } else {
                entity_lookup_from(name, i + 1)
            },
        }
    }
}

pub open spec fn entity_lookup(name: Seq<char>) -> Option<Seq<char>> {
    entity_lookup_from(name, 0)
}

/// Looks `v[from..to]` up in the entity table.
fn lookup_entity(v: &Vec<char>, from: usize, to: usize) -> (r: Option<&'static str>)
    requires
        from <= to <= v@.len(),
    ensures
        match r {
            Some(c) => entity_lookup(v@.subrange(from as int, to as int)) == Some(c@),
            None => entity_lookup(v@.subrange(from as int, to as int)) is None,
        },
{
    let ghost name = v@.subrange(from as int, to as int);
    let mut i: usize = 0;
    while i < usize::MAX
        invariant
            name == v@.subrange(from as int, to as int),
            from <= to <= v@.len(),
            entity_lookup_from(name, i as int) == entity_lookup(name),
        decreases usize::MAX - i,
    {
        match entity_at(i) {
            None => return None,
            Some((e, c)) => {
                if range_eq(v, from, to, e) {
                    return Some(c);
                }
            },
        }
        i += 1;
    }
    None
}

/// The character of a numeric reference `&#...;` (decimal) or `&#x...;` (hexadecimal).
pub open spec fn numeric_reference(ent: Seq<char>) -> Option<char> {
    let hex = ent[2] == 'x';
    let radix: int = if hex {
        16
    } else {
        10
    };
    let drift: int = if hex {
        3
    } else {
        2
    };
    match parse_radix(ent.subrange(drift, ent.len() - 1), radix, u32::MAX as int) {
        Some(n) => if is_scalar_value(n as u32) {
            Some((n as u32) as char)
        } else {
            None
        },
        None => None,
    }
}

/// What a reference `&...;` is replaced with: the characters of a known entity, the
/// character of a valid numeric reference, or else the reference itself.
pub open spec fn replacement(ent: Seq<char>) -> Seq<char> {
    match entity_lookup(ent) {
        Some(c) => c,
        None => if ent[1] == '#' {
            match numeric_reference(ent) {
                Some(ch) => seq![ch],
                None => ent,
            }
        } else {
            ent
        },
    }
}

/// `t` with its character references replaced, from the first `&` that a `;` follows on.
#[verifier::opaque]
pub open spec fn decode_from(t: Seq<char>) -> Seq<char>
    decreases t.len(),
{
    match index_of(t, '&') {
        None => t,
        Some(s) => {
            let r = t.skip(s);
            match index_of(r, ';') {
                None => t,
                Some(e) => {
                    proof {
                        lemma_index_of(t, '&');
                        lemma_index_of(r, ';');
                    }
                    t.take(s) + replacement(r.take(e + 1)) + decode_from(r.skip(e + 1))
                },
            }
        },
    }
}

proof fn lemma_decode_step(t: Seq<char>, cur: int, start: int, end: int)
    requires
        0 <= cur <= start < end < t.len(),
        index_of(t.subrange(cur, t.len() as int), '&') == Some(start - cur),
        index_of(t.subrange(start, t.len() as int), ';') == Some(end - start),
    ensures
        decode_from(t.subrange(cur, t.len() as int)) == t.subrange(cur, start) + replacement(
            t.subrange(start, end + 1),
        ) + decode_from(t.subrange(end + 1, t.len() as int)),
{
    reveal(decode_from);
    let len = t.len() as int;
    let c = t.subrange(cur, len);
    let s = start - cur;
    let r = c.skip(s);
    assert(r =~= t.subrange(start, len));
    let e = end - start;
    assert(r.take(e + 1) =~= t.subrange(start, end + 1));
    assert(c.take(s) =~= t.subrange(cur, start));
    assert(r.skip(e + 1) =~= t.subrange(end + 1, len));
}

proof fn lemma_decode_done(t: Seq<char>, cur: int, start: int)
    requires
        0 <= cur <= start <= t.len(),
        index_of(t.subrange(cur, t.len() as int), '&') is None || (index_of(
            t.subrange(cur, t.len() as int),
            '&',
        ) == Some(start - cur) && index_of(t.subrange(start, t.len() as int), ';') is None),
    ensures
        decode_from(t.subrange(cur, t.len() as int)) == t.subrange(cur, t.len() as int),
{
    reveal(decode_from);
    let c = t.subrange(cur, t.len() as int);
    if index_of(c, '&') is Some {
        assert(c.skip(start - cur) =~= t.subrange(start, t.len() as int));
    }
}

/// Appends what the reference `t[start..=end]` is replaced with.
fn push_replacement(buf: &mut String, t: &Vec<char>, start: usize, end: usize)
    requires
        start < end < t@.len(),
        t@[start as int] == '&',
        t@[end as int] == ';',
        forall|j: int| start <= j < end ==> t@[j] != ';',
    ensures
        final(buf)@ == old(buf)@ + replacement(t@.subrange(start as int, end + 1)),
{
    let n = t.len();
    let ghost ent = t@.subrange(start as int, end + 1);
    assert(ent.len() == end + 1 - start);
    assert(ent[1] == t@[start + 1]);
    match lookup_entity(t, start, end + 1) {
        Some(repl) => {
            assert(replacement(ent) == repl@);
            crate::chars::push_str(buf, repl);
        },
        None => {
            if t[start + 1] == '#' {
                assert(t@[start + 1] != ';');
                let hex = t[start + 2] == 'x';
                assert(ent[2] == t@[start + 2]);
                assert(hex ==> t@[start + 2] != ';');
                let radix: u64 = if hex {
                    16
                } else {
                    10
                };
                let drift: usize = if hex {
                    3
                } else {
                    2
                };
                assert(ent.subrange(drift as int, ent.len() - 1) =~= t@.subrange(
                    start + drift,
                    end as int,
                ));
                let n = parse_radix_range(t, start + drift, end, radix, 0xFFFF_FFFF);
                let ch = match n {
                    Some(m) => {
                        assert(m <= 0xFFFF_FFFF);
                        let m32 = m as u32;
                        assert(m32 as int == m as int);
                        char_from_u32(m32)
                    },
                    None => None,
                };
                assert(ch == numeric_reference(ent));
                match ch {
                    Some(ch) => {
                        push_one(buf, ch);
                    },
                    None => {
                        push_range(buf, t, start, end + 1);
                    },
                }
            } else {
                push_range(buf, t, start, end + 1);
            }
        },
    }
}

/// Replaces the character references (`&amp;`, `&#38;`, `&#x26;`, ...) of a text with the
/// characters they stand for; unknown or invalid references are kept as they are.
pub fn decode_entities(text: &str) -> (r: String)
    ensures
        r@ == decode_from(text@),
{
    let t = chars_of(text);
    let len = t.len();
    let mut buf = String::new();
    let mut cur: usize = 0;
    assert(t@.subrange(0, len as int) =~= t@);
    loop
        invariant_except_break
            buf@ + decode_from(t@.subrange(cur as int, len as int)) == decode_from(t@),
        invariant
            len == t@.len(),
            t@ == text@,
            cur <= len,
        ensures
            buf@ + t@.subrange(cur as int, len as int) == decode_from(t@),
        decreases len - cur,
    {
        let start = match find_char(&t, cur, len, '&') {
            Some(start) => start,
            None => {
                proof {
                    assert(index_of(t@.subrange(cur as int, len as int), '&') is None);
                    lemma_decode_done(t@, cur as int, cur as int);
                }
                break;
            },
        };
        let end = match find_char(&t, start, len, ';') {
            Some(end) => end,
            None => {
                proof {
                    assert(index_of(t@.subrange(start as int, len as int), ';') is None);
                    lemma_index_of(t@.subrange(cur as int, len as int), '&');
                    assert(index_of(t@.subrange(cur as int, len as int), '&') == Some(start - cur));
                    lemma_decode_done(t@, cur as int, start as int);
                }
                break;
            },
        };
        proof {
            let c = t@.subrange(cur as int, len as int);
            let r = t@.subrange(start as int, len as int);
            lemma_index_of(c, '&');
            lemma_index_of(r, ';');
            assert(c[start - cur] == '&');
            assert(r[end - start] == ';');
            assert forall|j: int| start <= j < end implies t@[j] != ';' by {
                assert(r[j - start] == t@[j]);
            }
            lemma_decode_step(t@, cur as int, start as int, end as int);
        }
        push_range(&mut buf, &t, cur, start);
        push_replacement(&mut buf, &t, start, end);
        cur = end + 1;
    }
    push_range(&mut buf, &t, cur, len);
    buf
}

// ---------------------------------------------------------------------------------------------
// Fingerprints
// ---------------------------------------------------------------------------------------------

/// The fingerprint of a file: a 64-bit number, written as 16 upper-case hexadecimal digits.
#[derive(Debug, Copy, Clone, Hash, PartialEq, Eq, Structural)]
pub struct Fp(pub u64);

/// The reason a text is not a fingerprint.
#[derive(Debug, Copy, Clone, PartialEq, Eq, Structural)]
pub struct FpParseError;

/// The upper-case hexadecimal digit of `d`.
pub open spec fn hex_char(d: int) -> char {
    if 0 <= d < 10 {
        (d + 48) as char
    } else {
        (d + 55) as char
    }
}

/// The last `count` hexadecimal digits of `n`, most significant first.
pub open spec fn hex_digits(n: nat, count: nat) -> Seq<char>
    decreases count,
{
    if count == 0 {
        Seq::empty()
    } else {
        hex_digits(n / 16, (count - 1) as nat).push(hex_char((n % 16) as int))
    }
}

/// The fingerprint of a file from its modification time (in seconds) and its size: the time
/// with its halves exchanged, exclusive-or the size.
pub open spec fn fingerprint_of(modified: u64, len: u64) -> u64 {
    (((modified << 32u64) | (modified >> 32u64)) ^ len) as u64
}

fn hex_digit(d: u64) -> (c: char)
    requires
        d < 16,
    ensures
        c == hex_char(d as int),
{
    let n: u32 = if d < 10 {
        (d + 48) as u32
    } else {
        (d + 55) as u32
    };
    match char_from_u32(n) {
        Some(c) => c,
        None => {
            assert(false);
            ' '
        },
    }
}

/// Appends the last `count` hexadecimal digits of `n` to `s`.
fn push_hex(s: &mut String, n: u64, count: u8)
    ensures
        final(s)@ == old(s)@ + hex_digits(n as nat, count as nat),
    decreases count,
{
    if count > 0 {
        push_hex(s, n / 16, count - 1);
        crate::chars::push_one(s, hex_digit(n % 16));
        assert(old(s)@ + hex_digits((n / 16) as nat, (count - 1) as nat) + seq![hex_char((n % 16) as int)]
            =~= old(s)@ + hex_digits(n as nat, count as nat));
    }
}

impl Fp {
    /// The fingerprint that a hexadecimal number stands for, as `u64::from_str_radix` reads
    /// it in base 16.
    pub fn from_hex(s: &str) -> (r: Option<Fp>)
        ensures
            match parse_radix(s@, 16, u64::MAX as int) {
                Some(v) => r == Some(Fp(v as u64)),
                None => r is None,
            },
    {
        let v = chars_of(s);
        assert(v@.subrange(0, v@.len() as int) =~= s@);
        match parse_radix_range(&v, 0, v.len(), 16, u64::MAX) {
            Some(n) => Some(Fp(n)),
            None => None,
        }
    }

    /// The fingerprint written as 16 upper-case hexadecimal digits.
    pub fn to_hex(&self) -> (s: String)
        ensures
            s@ == hex_digits(self.0 as nat, 16),
    {
        let mut s = String::new();
        push_hex(&mut s, self.0, 16);
        assert(Seq::<char>::empty() + hex_digits(self.0 as nat, 16) =~= hex_digits(self.0 as nat, 16));
        s
    }

    /// The number of the fingerprint.
    pub fn value(&self) -> (n: u64)
        ensures
            n == self.0,
    {
        self.0
    }
}

impl std::str::FromStr for Fp {
    type Err = FpParseError;

    fn from_str(s: &str) -> (r: Result<Fp, FpParseError>)
        ensures
            match parse_radix(s@, 16, u64::MAX as int) {
                Some(v) => r == Ok::<Fp, FpParseError>(Fp(v as u64)),
                None => r == Err::<Fp, FpParseError>(FpParseError),
            },
    {
        match Fp::from_hex(s) {
            Some(fp) => Ok(fp),
            None => Err(FpParseError),
        }
    }
}

/// The fingerprint of a file from its modification time (in seconds since the epoch) and its
/// size.
pub fn fingerprint(modified: u64, len: u64) -> (fp: Fp)
    ensures
        fp.0 == fingerprint_of(modified, len),
{
    Fp(((modified << 32u64) | (modified >> 32u64)) ^ len)
}

/// Whether the name of a directory entry makes it hidden: it starts with a dot.
pub open spec fn hidden_name(name: Seq<char>) -> bool {
    name.len() > 0 && name[0] == '.'
}

/// Entries that can be hidden.
pub trait IsHidden {
    fn is_hidden(&self) -> bool;
}

impl IsHidden for str {
    fn is_hidden(&self) -> (b: bool)
        ensures
            b == hidden_name(self@),
    {
        let v = chars_of(self);
        v.len() > 0 && v[0] == '.'
    }
}

/// `16` to the power `e`.
pub open spec fn pow16(e: nat) -> int
    decreases e,
{
    if e == 0 {
        1
    } else {
        16 * pow16((e - 1) as nat)
    }
}

proof fn lemma_pow16_positive(e: nat)
    ensures
        pow16(e) > 0,
    decreases e,
{
    if e > 0 {
        lemma_pow16_positive((e - 1) as nat);
    }
}

/// The hexadecimal digits read back give the number, up to their count.
proof fn lemma_hex_digits_value(n: nat, count: nat)
    ensures
        digits_value(hex_digits(n, count), 16) == Some(n as int % pow16(count)),
        hex_digits(n, count).len() == count,
    decreases count,
{
    if count == 0 {
        assert(n as int % 1 == 0);
    } else {
        let c = (count - 1) as nat;
        lemma_hex_digits_value(n / 16, c);
        let d = (n % 16) as int;
        assert(digit_value(hex_char(d), 16) == Some(d));
        let h = hex_digits(n, count);
        assert(h.drop_last() =~= hex_digits(n / 16, c));
        lemma_pow16_positive(c);
        vstd::arithmetic::div_mod::lemma_mod_breakdown(n as int, 16, pow16(c));
        assert(16 * pow16(c) == pow16(count));
    }
}

/// Writing a fingerprint in hexadecimal (`Fp::to_hex`) and reading it back (`Fp::from_hex`)
/// gives the fingerprint again.
pub proof fn lemma_fingerprint_round_trip(n: u64)
    ensures
        parse_radix(hex_digits(n as nat, 16), 16, u64::MAX as int) == Some(n as int),
{
    lemma_hex_digits_value(n as nat, 16);
    assert(pow16(16) == 0x10000000000000000) by {
        reveal_with_fuel(pow16, 17);
    }
    let h = hex_digits(n as nat, 16);
    assert(digit_value(h[0], 16) is Some) by {
        lemma_hex_digits_all_digits(n as nat, 16, 0);
    }
}

/// Every character of the hexadecimal writing is a digit.
proof fn lemma_hex_digits_all_digits(n: nat, count: nat, k: int)
    requires
        0 <= k < count,
    ensures
        hex_digits(n, count).len() == count,
        digit_value(hex_digits(n, count)[k], 16) is Some,
    decreases count,
{
    lemma_hex_digits_value(n, count);
    let c = (count - 1) as nat;
    if k < c {
        lemma_hex_digits_all_digits(n / 16, c, k);
        assert(hex_digits(n, count)[k] == hex_digits(n / 16, c)[k]);
    } else {
        let d = (n % 16) as int;
        assert(digit_value(hex_char(d), 16) == Some(d));
    }
}

// ---------------------------------------------------------------------------------------------
// Normal paths
// ---------------------------------------------------------------------------------------------

/// A name that a path keeps: not empty (two slashes in a row, or one at an end) and not `.`.
pub open spec fn kept_name(p: Seq<char>) -> bool {
    p.len() > 0 && p != seq!['.']
}

/// The names of a path as `Path::components` reads them on Unix, `..` among them.
pub open spec fn path_names(s: Seq<char>) -> Seq<Seq<char>> {
    split_char(s, '/').filter(keeps())
}

/// `kept_name` as a predicate to filter with.
pub open spec fn keeps() -> spec_fn(Seq<char>) -> bool {
    |p: Seq<char>| kept_name(p)
}

/// The names that remain when each `..` takes the name before it away, if there is one.
pub open spec fn resolve_names(names: Seq<Seq<char>>) -> Seq<Seq<char>>
    decreases names.len(),
{
    if names.len() == 0 {
        Seq::empty()
    } else {
        let r = resolve_names(names.drop_last());
        if names.last() == seq!['.', '.'] {
            if r.len() > 0 {
                r.drop_last()
            } else {
                r
            }
        } else {
            r.push(names.last())
        }
    }
}

/// Names joined by slashes.
pub open spec fn join_names(names: Seq<Seq<char>>) -> Seq<char>
    decreases names.len(),
{
    if names.len() == 0 {
        Seq::empty()
    } else if names.len() == 1 {
        names[0]
    } else {
        names[0] + seq!['/'] + join_names(names.drop_first())
    }
}

/// Whether a path starts at the root.
pub open spec fn rooted(s: Seq<char>) -> bool {
    s.len() > 0 && s[0] == '/'
}

/// A path without `.`, without `..` but where it stands first, and without empty names: the
/// root if it has one, then the names that remain, joined by slashes.
pub open spec fn normalized_path(s: Seq<char>) -> Seq<char> {
    let body = join_names(resolve_names(path_names(s)));
    if rooted(s) {
        seq!['/'] + body
    } else {
        body
    }
}

proof fn lemma_join_push(r: Seq<Seq<char>>, x: Seq<char>)
    ensures
        join_names(r.push(x)) == if r.len() == 0 {
            x
        } else {
            join_names(r) + seq!['/'] + x
        },
    decreases r.len(),
{
    if r.len() == 1 {
        assert(r.push(x).drop_first() =~= seq![x]);
        assert(join_names(seq![x]) == x);
        assert(join_names(r.push(x)) =~= join_names(r) + seq!['/'] + x);
    } else if r.len() > 1 {
        assert(r.push(x).drop_first() =~= r.drop_first().push(x));
        lemma_join_push(r.drop_first(), x);
        assert(r.push(x)[0] == r[0]);
        assert(join_names(r.push(x)) =~= join_names(r) + seq!['/'] + x);
    }
}

/// A name of a normal path: kept, not `..`, without a slash.
pub open spec fn plain_name(p: Seq<char>) -> bool {
    kept_name(p) && p != seq!['.', '.'] && forall|j: int| 0 <= j < p.len() ==> p[j] != '/'
}

proof fn lemma_split_pieces(s: Seq<char>, c: char)
    ensures
        forall|i: int, j: int|
            0 <= i < split_char(s, c).len() && 0 <= j < split_char(s, c)[i].len() ==> split_char(s, c)[i][j] != c,
    decreases s.len(),
{
    lemma_index_of(s, c);
    match index_of(s, c) {
        Some(k) => {
            if 0 <= k < s.len() {
                lemma_split_pieces(s.skip(k + 1), c);
                let sp = split_char(s, c);
                assert forall|i: int, j: int| 0 <= i < sp.len() && 0 <= j < sp[i].len() implies sp[i][j] != c by {
                    if i > 0 {
                        assert(sp[i] == split_char(s.skip(k + 1), c)[i - 1]);
                    }
                }
            }
        },
        None => {},
    }
}

proof fn lemma_resolve_plain(names: Seq<Seq<char>>)
    requires
        forall|i: int| 0 <= i < names.len() ==> kept_name(#[trigger] names[i]) && forall|j: int|
            0 <= j < names[i].len() ==> names[i][j] != '/',
    ensures
        forall|i: int| 0 <= i < resolve_names(names).len() ==> plain_name(#[trigger] resolve_names(names)[i]),
    decreases names.len(),
{
    if names.len() > 0 {
        lemma_resolve_plain(names.drop_last());
        let r = resolve_names(names.drop_last());
        assert(kept_name(names[names.len() - 1]));
        if names.last() != seq!['.', '.'] {
            assert forall|i: int| 0 <= i < r.push(names.last()).len() implies plain_name(
                #[trigger] r.push(names.last())[i],
            ) by {
                if i < r.len() {
                    assert(r.push(names.last())[i] == r[i]);
                }
            }
        }
    }
}

proof fn lemma_resolve_plain_unchanged(names: Seq<Seq<char>>)
    requires
        forall|i: int| 0 <= i < names.len() ==> plain_name(#[trigger] names[i]),
    ensures
        resolve_names(names) == names,
    decreases names.len(),
{
    if names.len() > 0 {
        lemma_resolve_plain_unchanged(names.drop_last());
        assert(plain_name(names[names.len() - 1]));
        assert(names.drop_last().push(names.last()) =~= names);
    }
}

proof fn lemma_filter_plain_unchanged(names: Seq<Seq<char>>)
    requires
        forall|i: int| 0 <= i < names.len() ==> plain_name(#[trigger] names[i]),
    ensures
        names.filter(keeps()) == names,
    decreases names.len(),
{
    if names.len() > 0 {
        let d = names.drop_last();
        lemma_filter_plain_unchanged(d);
        assert(plain_name(names[names.len() - 1]));
        d.lemma_filter_push(names.last(), keeps());
        assert(d.push(names.last()) =~= names);
    }
}

proof fn lemma_split_join(r: Seq<Seq<char>>)
    requires
        r.len() > 0,
        forall|i: int| 0 <= i < r.len() ==> plain_name(#[trigger] r[i]),
    ensures
        split_char(join_names(r), '/') == r,
    decreases r.len(),
{
    let x = r[0];
    assert(plain_name(x));
    if r.len() == 1 {
        lemma_index_of(x, '/');
        assert(index_of(x, '/') is None);
        assert(split_char(x, '/') =~= seq![x]);
        assert(r =~= seq![x]);
    } else {
        let rest = r.drop_first();
        assert forall|i: int| 0 <= i < rest.len() implies plain_name(#[trigger] rest[i]) by {
            assert(rest[i] == r[i + 1]);
        }
        lemma_split_join(rest);
        let s = join_names(r);
        assert(s == x + seq!['/'] + join_names(rest));
        lemma_index_of(s, '/');
        assert(s[x.len() as int] == '/');
        match index_of(s, '/') {
            Some(k) => {
                if k < x.len() {
                    assert(s[k] == x[k]);
                }
                assert(k == x.len());
                assert(s.take(k) =~= x);
                assert(s.skip(k + 1) =~= join_names(rest));
            },
            None => {
                assert(false);
            },
        }
        assert(r =~= seq![x] + rest);
    }
}

proof fn lemma_join_starts(r: Seq<Seq<char>>)
    requires
        r.len() > 0,
        r[0].len() > 0,
    ensures
        join_names(r).len() > 0,
        join_names(r)[0] == r[0][0],
{
}

proof fn lemma_path_names_clean(s: Seq<char>)
    ensures
        forall|i: int| 0 <= i < path_names(s).len() ==> kept_name(#[trigger] path_names(s)[i]) && forall|j: int|
            0 <= j < path_names(s)[i].len() ==> path_names(s)[i][j] != '/',
{
    let names = path_names(s);
    let sp = split_char(s, '/');
    lemma_split_pieces(s, '/');
    assert forall|i: int| 0 <= i < names.len() implies kept_name(#[trigger] names[i]) && forall|j: int|
        0 <= j < names[i].len() ==> names[i][j] != '/' by {
        sp.lemma_filter_pred(keeps(), i);
        assert(names.contains(names[i]));
        sp.lemma_filter_contains_rev(keeps(), names[i]);
        let k = choose|k: int| 0 <= k < sp.len() && sp[k] == names[i];
        assert forall|j: int| 0 <= j < names[i].len() implies names[i][j] != '/' by {
            assert(sp[k][j] != '/');
        }
    }
}

proof fn lemma_no_names(t: Seq<char>)
    requires
        t == seq!['/'] || t == Seq::<char>::empty(),
    ensures
        path_names(t) == Seq::<Seq<char>>::empty(),
{
    let e = Seq::<char>::empty();
    assert(split_char(e, '/') == seq![e]);
    assert(seq![e].drop_last() =~= Seq::<Seq<char>>::empty());
    assert(seq![e].filter(keeps()) =~= Seq::<Seq<char>>::empty()) by {
        reveal(Seq::filter);
        assert(!keeps()(e));
        assert(Seq::<Seq<char>>::empty().filter(keeps()) =~= Seq::<Seq<char>>::empty());
    }
    if t == seq!['/'] {
        assert(index_of(t, '/') == Some(0int));
        assert(t.skip(1) =~= e);
        assert(t.take(0) =~= e);
        assert(split_char(t, '/') =~= seq![e, e]);
        assert(seq![e, e].drop_last() =~= seq![e]);
        assert(seq![e, e].filter(keeps()) =~= Seq::<Seq<char>>::empty()) by {
            reveal(Seq::filter);
            assert(!keeps()(e));
        }
    }
}

proof fn lemma_names_of_joined(r: Seq<Seq<char>>, root: bool)
    requires
        r.len() > 0,
        forall|i: int| 0 <= i < r.len() ==> plain_name(#[trigger] r[i]),
    ensures
        path_names(if root { seq!['/'] + join_names(r) } else { join_names(r) }) == r,
        rooted(if root { seq!['/'] + join_names(r) } else { join_names(r) }) == root,
{
    lemma_split_join(r);
    lemma_filter_plain_unchanged(r);
    assert(plain_name(r[0]));
    lemma_join_starts(r);
    let body = join_names(r);
    if root {
        let t = seq!['/'] + body;
        assert(index_of(t, '/') == Some(0int));
        assert(t.take(0) =~= Seq::<char>::empty());
        assert(t.skip(1) =~= body);
        assert(split_char(t, '/') == seq![Seq::<char>::empty()] + r);
        r.lemma_filter_prepend(Seq::<char>::empty(), keeps());
        assert(path_names(t) =~= r);
    }
}

/// Putting a path in normal form twice gives what putting it in normal form once gives.
pub proof fn lemma_normalize_idempotent(s: Seq<char>)
    ensures
        normalized_path(normalized_path(s)) == normalized_path(s),
{
    lemma_path_names_clean(s);
    lemma_resolve_plain(path_names(s));
    let r = resolve_names(path_names(s));
    let t = normalized_path(s);
    if r.len() == 0 {
        if rooted(s) {
            assert(t =~= seq!['/']);
        } else {
            assert(t =~= Seq::<char>::empty());
        }
        lemma_no_names(t);
        assert(resolve_names(path_names(t)) =~= Seq::<Seq<char>>::empty());
    } else {
        lemma_names_of_joined(r, rooted(s));
        lemma_resolve_plain_unchanged(r);
    }
}

/// Paths that can be put in a normal form.
pub trait Normalize {
    fn normalize(&self) -> String;
}

impl Normalize for str {
    fn normalize(&self) -> (r: String)
        ensures
            r@ == normalized_path(self@),
    {
        let pieces = split_on(self, '/');
        let ghost sp = split_char(self@, '/');
        let mut names: Vec<String> = Vec::new();
        let mut i: usize = 0;
        while i < pieces.len()
            invariant
                0 <= i <= pieces@.len(),
                string_views(pieces@) == sp,
                string_views(names@) == resolve_names(sp.take(i as int).filter(keeps())),
            decreases pieces@.len() - i,
        {
            let p = pieces[i].as_str();
            let ghost f = sp.take(i as int).filter(keeps());
            proof {
                reveal_strlit("");
                reveal_strlit(".");
                reveal_strlit("..");
                assert(""@ =~= Seq::<char>::empty());
                assert("."@ =~= seq!['.']);
                assert(".."@ =~= seq!['.', '.']);
                assert(sp[i as int] == p@);
                assert(sp.take(i + 1) =~= sp.take(i as int).push(p@));
                sp.take(i as int).lemma_filter_push(p@, keeps());
            }
            if str_eq(p, "") || str_eq(p, ".") {
                assert(!kept_name(p@));
            } else if str_eq(p, "..") {
                assert(kept_name(p@));
                assert(f.push(p@).drop_last() =~= f);
                let ghost before = names@;
                names.pop();
                proof {
                    if before.len() > 0 {
                        assert(string_views(names@) =~= string_views(before).drop_last());
                    } else {
                        assert(string_views(names@) =~= string_views(before));
                    }
                }
            } else {
                assert(p@.len() == 0 ==> p@ =~= Seq::<char>::empty());
                assert(kept_name(p@));
                assert(f.push(p@).drop_last() =~= f);
                let ghost before = names@;
                names.push(to_string(p));
                assert(string_views(names@) =~= string_views(before).push(p@));
            }
            i += 1;
        }
        assert(sp.take(sp.len() as int) =~= sp);
        let ghost rn = string_views(names@);
        let v = chars_of(self);
        let root = v.len() > 0 && v[0] == '/';
        let mut r = String::new();
        if root {
            push_one(&mut r, '/');
        }
        let ghost prefix = r@;
        let mut k: usize = 0;
        while k < names.len()
            invariant
                0 <= k <= rn.len(),
                rn == string_views(names@),
                r@ == prefix + join_names(rn.take(k as int)),
            decreases rn.len() - k,
        {
            proof {
                assert(rn.take(k + 1) =~= rn.take(k as int).push(rn[k as int]));
                lemma_join_push(rn.take(k as int), rn[k as int]);
            }
            if k > 0 {
                push_one(&mut r, '/');
            }
            push_str(&mut r, names[k].as_str());
            assert(r@ =~= prefix + join_names(rn.take(k + 1)));
            k += 1;
        }
        assert(rn.take(rn.len() as int) =~= rn);
        assert(r@ =~= normalized_path(self@));
        r
    }
}

} // verus!
