//! Reading the `*.index` files of dictd dictionaries.
//!
//! Each line of an index names a headword, then the position and the length of its
//! definition in the dictionary file, each written in a base 64 numeral whose digits are
//! `A-Z`, `a-z`, `0-9`, `+` and `/` (so `'a'` is 26), most significant digit first, then,
//! optionally, the headword as it was before it was folded. The columns are separated by tabs.
use vstd::prelude::*;
use crate::chars::{chars_of, string_of, find_char, index_of, is_whitespace, opt_chars};

verus! {

/// What can go wrong while reading an index.
#[derive(Debug, Clone)]
pub enum DictError {
    /// A character that is not a digit where a number was expected, with optionally the line
    /// and the position (counted from the end of the number).
    InvalidCharacter(char, Option<usize>, Option<usize>),
    /// A line with fewer than three tab-separated columns.
    MissingColumnInIndex(usize),
    /// A malformed file, with an explanation and optionally the file's path.
    InvalidFileFormat(String, Option<String>),
    /// A malformed index that asks for more memory than there is.
    MemoryError,
    /// A word that the dictionary does not hold.
    WordNotFound(String),
}

/// The value of a digit of the index numerals.
pub open spec fn base_value(c: char) -> Option<int> {
    if 'A' <= c <= 'Z' {
        Some(c as int - 65)
    } else if 'a' <= c <= 'z' {
        Some(c as int - 71)
    } else if '0' <= c <= '9' {
        Some(c as int + 4)
    } else if c == '+' {
        Some(62)
    } else if c == '/' {
        Some(63)
    } else {
        None
    }
}

/// The number written by the digits `s`, most significant first (a non-digit counts as 0).
pub open spec fn numeral(s: Seq<char>) -> int
    decreases s.len(),
{
    if s.len() == 0 {
        0
    } else {
        numeral(s.drop_last()) * 64 + match base_value(s.last()) {
            Some(v) => v,
            None => 0,
        }
    }
}

/// How many characters at the end of `s` are digits.
pub open spec fn trailing_digits(s: Seq<char>) -> nat
    decreases s.len(),
{
    if s.len() == 0 || base_value(s.last()) is None {
        0
    } else {
        1 + trailing_digits(s.drop_last())
    }
}

/// What decoding `s` gives: its value, or the last character of it that is no digit, with
/// the number of digits after it.
pub open spec fn decoded(s: Seq<char>) -> Result<u64, DictError> {
    let t = trailing_digits(s);
    if t == s.len() {
        Ok(numeral(s) as u64)
    } else {
        Err(DictError::InvalidCharacter(s[s.len() - 1 - t], None, Some(t as usize)))
    }
}

/// Decoding `s` stays within `u64`: digits are read from the end, at most eleven of them
/// before a non-digit, and what they write fits.
pub open spec fn decodable(s: Seq<char>) -> bool {
    let t = trailing_digits(s);
    t <= 11 && numeral(s.subrange(s.len() - t, s.len() as int)) <= u64::MAX
}

/// `64` to the power `e`.
pub open spec fn pow64(e: nat) -> int
    decreases e,
{
    if e == 0 {
        1
    } else {
        64 * pow64((e - 1) as nat)
    }
}

proof fn lemma_pow64_monotone(a: nat, b: nat)
    requires
        a <= b,
    ensures
        1 <= pow64(a) <= pow64(b),
    decreases b,
{
    if b > 0 && a < b {
        lemma_pow64_monotone(a, (b - 1) as nat);
    } else if b > 0 {
        lemma_pow64_monotone(0, (b - 1) as nat);
    }
}

proof fn lemma_numeral_prepend(c: char, t: Seq<char>)
    requires
        base_value(c) is Some,
    ensures
        numeral(seq![c] + t) == base_value(c).unwrap() * pow64(t.len()) + numeral(t),
    decreases t.len(),
{
    let b = base_value(c).unwrap();
    if t.len() == 0 {
        assert((seq![c] + t).drop_last() =~= Seq::<char>::empty());
        assert((seq![c] + t).last() == c);
        assert(numeral(Seq::<char>::empty()) == 0);
        assert(pow64(0) == 1);
    } else {
        let u = seq![c] + t;
        assert(u.drop_last() =~= seq![c] + t.drop_last());
        assert(u.last() == t.last());
        lemma_numeral_prepend(c, t.drop_last());
        let p = pow64((t.len() - 1) as nat);
        assert(pow64(t.len()) == 64 * p);
        assert((b * p + numeral(t.drop_last())) * 64 == b * (64 * p) + numeral(t.drop_last())
            * 64) by (nonlinear_arith);
    }
}

proof fn lemma_numeral_nonnegative(s: Seq<char>)
    ensures
        numeral(s) >= 0,
    decreases s.len(),
{
    if s.len() > 0 {
        lemma_numeral_nonnegative(s.drop_last());
    }
}

/// The digits at the end: if the last `i` characters are digits, at least `i` digits end
/// `s`, exactly `i` when the character before them is no digit.
proof fn lemma_trailing_digits(s: Seq<char>, i: int)
    requires
        0 <= i <= s.len(),
        forall|j: int| s.len() - i <= j < s.len() ==> base_value(#[trigger] s[j]) is Some,
    ensures
        trailing_digits(s) >= i,
        i < s.len() && base_value(s[s.len() - 1 - i]) is None ==> trailing_digits(s) == i,
    decreases i,
{
    if i > 0 {
        assert(base_value(s[s.len() - 1]) is Some);
        let d = s.drop_last();
        assert forall|j: int| d.len() - (i - 1) <= j < d.len() implies base_value(
            #[trigger] d[j],
        ) is Some by {
            assert(d[j] == s[j]);
        }
        lemma_trailing_digits(d, i - 1);
        if i < s.len() {
            assert(d[d.len() - 1 - (i - 1)] == s[s.len() - 1 - i]);
        }
    }
}

/// The suffixes of a run of digits write growing numbers.
proof fn lemma_suffix_monotone(s: Seq<char>, i: int, t: int)
    requires
        0 <= i <= t <= s.len(),
        forall|j: int| s.len() - t <= j < s.len() ==> base_value(#[trigger] s[j]) is Some,
    ensures
        numeral(s.subrange(s.len() - i, s.len() as int)) <= numeral(
            s.subrange(s.len() - t, s.len() as int),
        ),
    decreases t - i,
{
    if i < t {
        lemma_suffix_monotone(s, i, t - 1);
        let n = s.len() as int;
        let c = s[n - t];
        assert(s.subrange(n - t, n) =~= seq![c] + s.subrange(n - t + 1, n));
        lemma_numeral_prepend(c, s.subrange(n - t + 1, n));
        lemma_pow64_monotone(0, (t - 1) as nat);
        assert(base_value(c).unwrap() * pow64((t - 1) as nat) >= 0) by (nonlinear_arith)
            requires
                base_value(c).unwrap() >= 0,
                pow64((t - 1) as nat) >= 1,
        ;
    }
}

/// The value of a digit of the index numerals.
fn get_base(input: char) -> (r: Option<u64>)
    ensures
        match base_value(input) {
            Some(v) => r == Some(v as u64),
            None => r is None,
        },
{
    let n = input as u32;
    if 'A' <= input && input <= 'Z' {
        Some((n - 65) as u64)
    } else if 'a' <= input && input <= 'z' {
        Some((n - 71) as u64)
    } else if '0' <= input && input <= '9' {
        Some((n + 4) as u64)
    } else if input == '+' {
        Some(62)
    } else if input == '/' {
        Some(63)
    } else {
        None
    }
}

/// Decodes the numeral `v[from..to]`.
fn decode_range(v: &Vec<char>, from: usize, to: usize) -> (r: Result<u64, DictError>)
    requires
        from <= to <= v@.len(),
        decodable(v@.subrange(from as int, to as int)),
    ensures
        r == decoded(v@.subrange(from as int, to as int)),
{
    let ghost s = v@.subrange(from as int, to as int);
    let n = to - from;
    let mut index: u64 = 0;
    let mut p: u64 = 1;
    let mut i: usize = 0;
    proof {
        lemma_trailing_digits(s, 0);
        lemma_trailing_digits_bound(s);
        reveal_with_fuel(pow64, 11);
    }
    while i < n
        invariant
            s == v@.subrange(from as int, to as int),
            from <= to <= v@.len(),
            n == s.len(),
            0 <= i <= n,
            decodable(s),
            i <= trailing_digits(s) <= n,
            forall|j: int| n - i <= j < n ==> base_value(#[trigger] s[j]) is Some,
            index == numeral(s.subrange(n - i, n as int)),
            i == 0 ==> p == 1,
            i > 0 ==> p == pow64((i - 1) as nat),
            pow64(9) == 18014398509481984,
        decreases n - i,
    {
        let c = v[to - 1 - i];
        assert(c == s[n - 1 - i]);
        match get_base(c) {
            None => {
                proof {
                    lemma_trailing_digits(s, i as int);
                }
                return Err(DictError::InvalidCharacter(c, None, Some(i)));
            },
            Some(x) => {
                proof {
                    assert forall|j: int| n - (i + 1) <= j < n implies base_value(
                        #[trigger] s[j],
                    ) is Some by {}
                    lemma_trailing_digits(s, i + 1);
                    let t = trailing_digits(s) as int;
                    assert(s.subrange(n - (i + 1), n as int) =~= seq![c] + s.subrange(
                        n - i,
                        n as int,
                    ));
                    lemma_numeral_prepend(c, s.subrange(n - i, n as int));
                    assert forall|j: int| n - t <= j < n implies base_value(
                        #[trigger] s[j],
                    ) is Some by {
                        lemma_trailing_digits_run(s, j);
                    }
                    lemma_suffix_monotone(s, i + 1, t);
                    if i > 0 {
                        lemma_pow64_monotone((i - 1) as nat, 9);
                    }
                }
                let q: u64 = if i == 0 {
                    1
                } else {
                    p * 64
                };
                assert(q == pow64(i as nat));
                proof {
                    lemma_numeral_nonnegative(s.subrange(n - i, n as int));
                    assert(x * q <= u64::MAX) by (nonlinear_arith)
                        requires
                            x * q + index <= u64::MAX,
                            index >= 0,
                    ;
                }
                index = index + x * q;
                p = q;
            },
        }
        i += 1;
    }
    proof {
        lemma_trailing_digits(s, n as int);
        assert(s.subrange(0, n as int) =~= s);
    }
    Ok(index)
}

proof fn lemma_trailing_digits_bound(s: Seq<char>)
    ensures
        trailing_digits(s) <= s.len(),
    decreases s.len(),
{
    if s.len() > 0 {
        lemma_trailing_digits_bound(s.drop_last());
    }
}

/// Every character between the last non-digit and the end is a digit.
proof fn lemma_trailing_digits_run(s: Seq<char>, j: int)
    requires
        0 <= j,
        s.len() - trailing_digits(s) <= j < s.len(),
    ensures
        base_value(s[j]) is Some,
    decreases s.len(),
{
    lemma_trailing_digits_bound(s);
    if j < s.len() - 1 {
        let d = s.drop_last();
        lemma_trailing_digits_run(d, j);
        assert(d[j] == s[j]);
    }
}

/// Decodes a number written in the index numerals.
pub fn decode_number(word: &str) -> (r: Result<u64, DictError>)
    requires
        decodable(word@),
    ensures
        r == decoded(word@),
{
    let v = chars_of(word);
    assert(v@.subrange(0, v@.len() as int) =~= v@);
    decode_range(&v, 0, v.len())
}

/// The text before the first tab of `s`, all of `s` if it has none.
pub open spec fn tab_field(s: Seq<char>) -> Seq<char> {
    match index_of(s, '\t') {
        Some(k) => s.take(k),
        None => s,
    }
}

/// What follows the first tab of `s`, if it has one.
pub open spec fn after_tab(s: Seq<char>) -> Option<Seq<char>> {
    match index_of(s, '\t') {
        Some(k) => Some(s.skip(k + 1)),
        None => None,
    }
}

/// The tab-separated column `n` of `s`, counted from 0, if `s` has that many.
pub open spec fn column(s: Seq<char>, n: nat) -> Option<Seq<char>>
    decreases n,
{
    if n == 0 {
        Some(tab_field(s))
    } else {
        match after_tab(s) {
            Some(r) => column(r, (n - 1) as nat),
            None => None,
        }
    }
}

/// What a line of the index holds: the headword, the offset and the size of its definition,
/// and the headword before folding if the line gives it; or why the line is malformed.
pub open spec fn line_record(line: Seq<char>, line_number: usize) -> Result<
    (Seq<char>, u64, u64, Option<Seq<char>>),
    DictError,
> {
    match column(line, 1) {
        None => Err(DictError::MissingColumnInIndex(line_number)),
        Some(off) => match decoded(off) {
            Err(e) => Err(e),
            Ok(offset) => match column(line, 2) {
                None => Err(DictError::MissingColumnInIndex(line_number)),
                Some(sz) => match decoded(sz) {
                    Err(e) => Err(e),
                    Ok(size) => Ok((tab_field(line), offset, size, column(line, 3))),
                },
            },
        },
    }
}

/// The numbers of a line that get decoded stay within `u64`.
pub open spec fn line_decodable(line: Seq<char>) -> bool {
    match column(line, 1) {
        None => true,
        Some(off) => decodable(off) && (decoded(off) is Ok ==> match column(line, 2) {
            None => true,
            Some(sz) => decodable(sz),
        }),
    }
}


/// The column that starts at `from`: where it ends, and where the next one starts if a tab
/// follows it.
fn next_column(v: &Vec<char>, from: usize) -> (r: (usize, Option<usize>))
    requires
        from <= v@.len(),
    ensures
        from <= r.0 <= v@.len(),
        tab_field(v@.subrange(from as int, v@.len() as int)) == v@.subrange(from as int, r.0 as int),
        after_tab(v@.subrange(from as int, v@.len() as int)) == match r.1 {
            Some(k) => Some(v@.subrange(k as int, v@.len() as int)),
            None => None::<Seq<char>>,
        },
        r.1 matches Some(k) ==> k == r.0 + 1 && k <= v@.len(),
{
    let ghost w = v@.subrange(from as int, v@.len() as int);
    proof {
        crate::chars::lemma_index_of(w, '\t');
    }
    match find_char(v, from, v.len(), '\t') {
        Some(k) => {
            assert(index_of(w, '\t') == Some(k - from)) by {
                match index_of(w, '\t') {
                    Some(i) => assert(k == from + i),
                    None => assert(false),
                }
            }
            assert(w.take(k - from) =~= v@.subrange(from as int, k as int));
            assert(w.skip(k - from + 1) =~= v@.subrange(k + 1, v@.len() as int));
            (k, Some(k + 1))
        },
        None => {
            assert(index_of(w, '\t') is None);
            assert(w =~= v@.subrange(from as int, v@.len() as int));
            (v.len(), None)
        },
    }
}

/// Reads a line of the index.
fn parse_line(line: &Vec<char>, line_number: usize) -> (r: Result<
    (String, u64, u64, Option<String>),
    DictError,
>)
    requires
        line_decodable(line@),
    ensures
        match line_record(line@, line_number) {
            Ok((h, o, s, orig)) => r matches Ok((h2, o2, s2, orig2)) && h2@ == h && o2 == o && s2
                == s && opt_chars(orig2) == orig,
            Err(e) => r == Err::<(String, u64, u64, Option<String>), DictError>(e),
        },
{
    let v = line;
    let len = v.len();
    proof {
        assert(v@.subrange(0, len as int) =~= v@);
        reveal_with_fuel(column, 4);
    }
    let (e0, n1) = next_column(v, 0);
    let headword = string_of(v, 0, e0);
    let p1 = match n1 {
        Some(p) => p,
        None => {
            return Err(DictError::MissingColumnInIndex(line_number));
        },
    };
    let (e1, n2) = next_column(v, p1);
    assert(column(line@, 1) == Some(v@.subrange(p1 as int, e1 as int)));
    let offset = match decode_range(v, p1, e1) {
        Ok(x) => x,
        Err(e) => {
            return Err(e);
        },
    };
    let p2 = match n2 {
        Some(p) => p,
        None => {
            return Err(DictError::MissingColumnInIndex(line_number));
        },
    };
    let (e2, n3) = next_column(v, p2);
    assert(column(line@, 2) == Some(v@.subrange(p2 as int, e2 as int)));
    let size = match decode_range(v, p2, e2) {
        Ok(x) => x,
        Err(e) => {
            return Err(e);
        },
    };
    let original = match n3 {
        Some(p3) => {
            let (e3, _) = next_column(v, p3);
            assert(column(line@, 3) == Some(v@.subrange(p3 as int, e3 as int)));
            Some(string_of(v, p3, e3))
        },
        None => None,
    };
    Ok((headword, offset, size, original))
}

/// A headword of the index and where its definition lies in the dictionary file.
#[derive(Debug, Clone)]
pub struct Entry {
    pub headword: String,
    pub offset: u64,
    pub size: u64,
    pub original: Option<String>,
}

/// An entry as plain values: headword, offset, size, headword before folding.
pub type EntryView = (Seq<char>, u64, u64, Option<Seq<char>>);

impl View for Entry {
    type V = EntryView;

    open spec fn view(&self) -> EntryView {
        (self.headword@, self.offset, self.size, opt_chars(self.original))
    }
}

/// The entries as plain values.
pub open spec fn entry_views(s: Seq<Entry>) -> Seq<EntryView> {
    s.map_values(|e: Entry| e@)
}

/// The options of the index that `dictfmt` records in its metadata headwords.
#[derive(Debug, Clone, Copy)]
pub struct Settings {
    pub all_characters: bool,
    pub case_sensitive: bool,
}

/// An index: its entries, the lines that are still to be read when it was loaded lazily, and
/// its options.
pub struct Index {
    pub entries: Vec<Entry>,
    pub state: Option<Vec<String>>,
    pub settings: Settings,
}

/// `a` equals `b` or comes before it, comparing character by character.
pub open spec fn chars_le(a: Seq<char>, b: Seq<char>) -> bool
    decreases a.len(),
{
    if a.len() == 0 {
        true
    } else if b.len() == 0 {
        false
    } else if a[0] != b[0] {
        (a[0] as u32) < (b[0] as u32)
    } else {
        chars_le(a.drop_first(), b.drop_first())
    }
}

pub proof fn lemma_chars_le_antisymmetric(a: Seq<char>, b: Seq<char>)
    requires
        chars_le(a, b),
        chars_le(b, a),
    ensures
        a == b,
    decreases a.len(),
{
    if a.len() > 0 && b.len() > 0 {
        assert(a[0] == b[0]);
        lemma_chars_le_antisymmetric(a.drop_first(), b.drop_first());
        assert(a.drop_first() == b.drop_first());
        assert(a =~= seq![a[0]] + a.drop_first());
        assert(b =~= seq![b[0]] + b.drop_first());
    }
}

/// The headwords of the entries come in order.
pub open spec fn sorted_by_headword(s: Seq<EntryView>) -> bool {
    forall|i: int, j: int| 0 <= i < j < s.len() ==> chars_le(#[trigger] s[i].0, #[trigger] s[j].0)
}

/// The Levenshtein distance of two texts: the fewest insertions, deletions and substitutions
/// of characters that turn `a` into `b`.
pub open spec fn edit_distance(a: Seq<char>, b: Seq<char>) -> nat
    decreases a.len() + b.len(),
{
    if a.len() == 0 {
        b.len()
    } else if b.len() == 0 {
        a.len()
    } else {
        let substitute = edit_distance(a.drop_last(), b.drop_last()) + if a.last() == b.last() {
            0nat
        } else {
            1nat
        };
        let delete = edit_distance(a.drop_last(), b) + 1;
        let insert = edit_distance(a, b.drop_last()) + 1;
        if substitute <= delete && substitute <= insert {
            substitute
        } else if delete <= insert {
            delete
        } else {
            insert
        }
    }
}

/// `levenshtein::levenshtein`, which computes the Levenshtein distance of the characters of
/// the two texts with one row of the usual table (it answers 0 at once on equal texts, and
/// the other's length when one is empty). Claimed of it: the result is `edit_distance` of the
/// two texts.
#[verifier::external_body]
fn levenshtein_distance(a: &str, b: &str) -> (d: usize)
    ensures
        d == edit_distance(a@, b@),
{
    levenshtein::levenshtein(a, b)
}

/// `slice::binary_search_by_key` on the headwords, which `str` compares byte by byte, that
/// is character by character on UTF-8 text. Claimed of it, as its documentation says: on
/// entries sorted that way it returns `Ok` with the position of an entry with that headword if
/// there is one, `Err` otherwise. On unsorted entries the documentation leaves the result
/// unspecified, and nothing is claimed.
#[verifier::external_body]
fn search_headword(entries: &Vec<Entry>, key: &str) -> (r: Result<usize, usize>)
    ensures
        sorted_by_headword(entry_views(entries@)) ==> match r {
            Ok(i) => i < entries@.len() && entries@[i as int].headword@ == key@,
            Err(_) => forall|j: int|
                0 <= j < entries@.len() ==> (#[trigger] entries@[j]).headword@ != key@,
        },
{
    entries.binary_search_by_key(&key, |entry| entry.headword.as_str())
}

/// A copy of an entry.
fn copy_entry(e: &Entry) -> (r: Entry)
    ensures
        r@ == e@,
{
    let original = match &e.original {
        Some(o) => Some(o.clone()),
        None => None,
    };
    Entry { headword: e.headword.clone(), offset: e.offset, size: e.size, original }
}

/// When `p` holds on `s` exactly at the positions `lo..hi`, the elements where it holds are
/// `s[lo..hi]`.
proof fn lemma_filter_block<A>(s: Seq<A>, p: spec_fn(A) -> bool, lo: int, hi: int)
    requires
        0 <= lo <= hi <= s.len(),
        forall|k: int| 0 <= k < s.len() ==> (p(#[trigger] s[k]) <==> lo <= k < hi),
    ensures
        s.filter(p) == s.subrange(lo, hi),
    decreases s.len(),
{
    if s.len() == 0 {
        assert(s.filter(p) =~= Seq::<A>::empty()) by {
            reveal(Seq::filter);
        }
    } else {
        let d = s.drop_last();
        let n = s.len() as int;
        assert(s =~= d.push(s.last()));
        d.lemma_filter_push(s.last(), p);
        assert(p(s[n - 1]) <==> lo <= n - 1 < hi);
        if hi == n && lo < hi {
            lemma_filter_block(d, p, lo, n - 1);
            assert(d.subrange(lo, n - 1).push(s.last()) =~= s.subrange(lo, hi));
        } else {
            let h = if hi == n { n - 1 } else { hi };
            let l = if lo > h { h } else { lo };
            lemma_filter_block(d, p, l, h);
            assert(d.subrange(l, h) =~= s.subrange(lo, hi));
        }
    }
}

/// The entries of a headword (`fuzzy`: of the headwords at most one edit away from it).
/// Exact lookups search the sorted index: on unsorted entries they give a run of
/// consecutive entries.
pub fn find_entries(entries: &Vec<Entry>, headword: &str, fuzzy: bool) -> (r: Vec<Entry>)
    ensures
        fuzzy ==> entry_views(r@) == entry_views(entries@).filter(
            |e: EntryView| edit_distance(headword@, e.0) <= 1,
        ),
        !fuzzy && sorted_by_headword(entry_views(entries@)) ==> entry_views(r@) == entry_views(
            entries@,
        ).filter(|e: EntryView| e.0 == headword@),
        !fuzzy ==> exists|lo: int, hi: int|
            0 <= lo <= hi <= entries@.len() && entry_views(r@) == entry_views(entries@).subrange(
                lo,
                hi,
            ),
{
    let ghost ev = entry_views(entries@);
    if fuzzy {
        let ghost near = |e: EntryView| edit_distance(headword@, e.0) <= 1;
        let mut results: Vec<Entry> = Vec::new();
        let mut i: usize = 0;
        while i < entries.len()
            invariant
                0 <= i <= entries@.len(),
                ev == entry_views(entries@),
                near == (|e: EntryView| edit_distance(headword@, e.0) <= 1),
                entry_views(results@) == ev.take(i as int).filter(near),
            decreases entries@.len() - i,
        {
            let d = levenshtein_distance(headword, entries[i].headword.as_str());
            proof {
                assert(ev.take(i + 1) =~= ev.take(i as int).push(entries@[i as int]@));
                ev.take(i as int).lemma_filter_push(entries@[i as int]@, near);
            }
            if d <= 1 {
                let e = copy_entry(&entries[i]);
                results.push(e);
                assert(entry_views(results@) =~= ev.take(i + 1).filter(near));
            } else {
                assert(entry_views(results@) =~= ev.take(i + 1).filter(near));
            }
            i += 1;
        }
        assert(ev.take(entries@.len() as int) =~= ev);
        proof {
            assert(0 <= 0 <= 0 <= entries@.len());
        }
        results
    } else {
        match search_headword(entries, headword) {
            Ok(found) => {
                if found >= entries.len() {
                    let empty: Vec<Entry> = Vec::new();
                    assert(entry_views(empty@) =~= ev.subrange(0, 0));
                    return empty;
                }
                let ghost sorted = sorted_by_headword(ev);
                let mut results: Vec<Entry> = Vec::new();
                results.push(copy_entry(&entries[found]));
                let mut i = found;
                let ghost mut lo: int = found as int;
                assert(entry_views(results@) =~= ev.subrange(lo, found + 1));
                while i > 0
                    invariant_except_break
                        i == lo,
                    invariant
                        0 <= lo <= found < entries@.len(),
                        ev == entry_views(entries@),
                        i <= lo,
                        entry_views(results@) == ev.subrange(lo, found + 1),
                        sorted ==> forall|k: int| lo <= k <= found ==> ev[k].0 == headword@,
                        sorted == sorted_by_headword(ev),
                        sorted ==> ev[found as int].0 == headword@,
                    ensures
                        lo == 0 || ev[lo - 1].0 != headword@,
                    decreases i,
                {
                    i -= 1;
                    if !crate::chars::str_eq(entries[i].headword.as_str(), headword) {
                        break;
                    }
                    let x = copy_entry(&entries[i]);
                    let ghost before = results@;
                    results.insert(0, x);
                    proof {
                        assert(entry_views(before) == ev.subrange(lo, found + 1));
                        lo = i as int;
                        assert(results@ =~= seq![x] + before);
                        assert(entry_views(before).len() == before.len());
                        assert(results@.len() == found + 1 - lo);
                        assert forall|k: int| 0 <= k < results@.len() implies #[trigger] entry_views(
                            results@,
                        )[k] == ev.subrange(lo, found + 1)[k] by {
                            assert(entry_views(results@)[k] == results@[k]@);
                            assert(ev.subrange(lo, found + 1)[k] == ev[lo + k]);
                            assert(ev[lo + k] == entries@[lo + k]@);
                            if k > 0 {
                                assert(results@[k] == before[k - 1]);
                                assert(entry_views(before)[k - 1] == before[k - 1]@);
                                assert(entry_views(before)[k - 1] == ev.subrange(lo + 1, found + 1)[k - 1]);
                            }
                        }
                    }
                    assert(entry_views(results@) =~= ev.subrange(lo, found + 1));
                }
                let ghost mut hi: int = found as int;
                i = found;
                while i < entries.len() - 1
                    invariant_except_break
                        i == hi,
                    invariant
                        0 <= lo <= found <= hi < entries@.len(),
                        ev == entry_views(entries@),
                        i >= hi,
                        entry_views(results@) == ev.subrange(lo, hi + 1),
                        sorted ==> forall|k: int| lo <= k <= hi ==> ev[k].0 == headword@,
                        sorted == sorted_by_headword(ev),
                        lo == 0 || ev[lo - 1].0 != headword@,
                    ensures
                        hi == entries@.len() - 1 || ev[hi + 1].0 != headword@,
                    decreases entries@.len() - i,
                {
                    i += 1;
                    if !crate::chars::str_eq(entries[i].headword.as_str(), headword) {
                        break;
                    }
                    let x = copy_entry(&entries[i]);
                    let ghost before = results@;
                    results.push(x);
                    proof {
                        assert(entry_views(before) == ev.subrange(lo, hi + 1));
                        hi = i as int;
                        assert(entry_views(before).len() == before.len());
                        assert(results@.len() == hi + 1 - lo);
                        assert forall|k: int| 0 <= k < results@.len() implies #[trigger] entry_views(
                            results@,
                        )[k] == ev.subrange(lo, hi + 1)[k] by {
                            assert(entry_views(results@)[k] == results@[k]@);
                            assert(ev.subrange(lo, hi + 1)[k] == ev[lo + k]);
                            assert(ev[lo + k] == entries@[lo + k]@);
                            if k < before.len() {
                                assert(results@[k] == before[k]);
                                assert(entry_views(before)[k] == before[k]@);
                                assert(entry_views(before)[k] == ev.subrange(lo, hi)[k]);
                            }
                        }
                    }
                    assert(entry_views(results@) =~= ev.subrange(lo, hi + 1));
                }
                proof {
                    if sorted {
                        let p = |e: EntryView| e.0 == headword@;
                        assert forall|k: int| 0 <= k < ev.len() implies (p(#[trigger] ev[k])
                            <==> lo <= k < hi + 1) by {
                            if k < lo && ev[k].0 == headword@ {
                                if k < lo - 1 {
                                    assert(chars_le(ev[k].0, ev[lo - 1].0));
                                    assert(chars_le(ev[lo - 1].0, ev[lo].0));
                                    lemma_chars_le_antisymmetric(ev[lo - 1].0, headword@);
                                }
                            }
                            if k > hi + 1 && ev[k].0 == headword@ {
                                assert(chars_le(ev[hi].0, ev[hi + 1].0));
                                assert(chars_le(ev[hi + 1].0, ev[k].0));
                                lemma_chars_le_antisymmetric(ev[hi + 1].0, headword@);
                            }
                        }
                        lemma_filter_block(ev, p, lo, hi + 1);
                    }
                }
                results
            },
            Err(_) => {
                proof {
                    if sorted_by_headword(ev) {
                        let p = |e: EntryView| e.0 == headword@;
                        assert forall|k: int| 0 <= k < ev.len() implies (p(#[trigger] ev[k])
                            <==> 0 <= k < 0) by {
                            assert(ev[k] == entries@[k]@);
                        }
                        lemma_filter_block(ev, p, 0, 0);
                    }
                }
                let empty: Vec<Entry> = Vec::new();
                assert(entry_views(empty@) =~= ev.subrange(0, 0));
                empty
            },
        }
    }
}

impl Index {
    /// The entries of a headword (`fuzzy`: of the headwords at most one edit away from it).
    pub fn find(&self, headword: &str, fuzzy: bool) -> (r: Vec<Entry>)
        ensures
            fuzzy ==> entry_views(r@) == entry_views(self.entries@).filter(
                |e: EntryView| edit_distance(headword@, e.0) <= 1,
            ),
            !fuzzy && sorted_by_headword(entry_views(self.entries@)) ==> entry_views(r@)
                == entry_views(self.entries@).filter(|e: EntryView| e.0 == headword@),
            !fuzzy ==> exists|lo: int, hi: int|
                0 <= lo <= hi <= self.entries@.len() && entry_views(r@) == entry_views(
                    self.entries@,
                ).subrange(lo, hi),
    {
        find_entries(&self.entries, headword, fuzzy)
    }

    /// The options of the index.
    pub fn settings(&self) -> (s: Settings)
        ensures
            s == self.settings,
    {
        self.settings
    }
}

/// `s` starts with `p`.
pub open spec fn starts_with(s: Seq<char>, p: Seq<char>) -> bool {
    p.len() <= s.len() && s.take(p.len() as int) == p
}

/// The headwords that hold the metadata of an index.
pub open spec fn is_metadata(h: Seq<char>) -> bool {
    starts_with(h, "00-database-"@) || starts_with(h, "00database"@)
}

/// `s` without the white space that ends it.
pub open spec fn trim_end(s: Seq<char>) -> Seq<char>
    decreases s.len(),
{
    if s.len() > 0 && is_whitespace(s.last()) {
        trim_end(s.drop_last())
    } else {
        s
    }
}

/// The characters of each line.
pub open spec fn line_views(lines: Seq<String>) -> Seq<Seq<char>> {
    lines.map_values(|l: String| l@)
}

/// Some entry has the headword `h`.
pub open spec fn has_headword(s: Seq<EntryView>, h: Seq<char>) -> bool {
    exists|j: int| 0 <= j < s.len() && (#[trigger] s[j]).0 == h
}

/// The options that the metadata headwords among `entries` record: all characters kept when
/// `00-database-allchars` is there, case kept when the case-sensitivity headword of that
/// mode is there.
pub open spec fn detected(entries: Seq<EntryView>) -> Settings {
    let all = has_headword(entries, "00-database-allchars"@);
    let word = if all {
        "00-database-case-sensitive"@
    } else {
        "00databasecasesensitive"@
    };
    Settings { all_characters: all, case_sensitive: has_headword(entries, word) }
}

/// The state of a reading: metadata found, options settled, the options, the entries read.
pub type ScanState = (bool, bool, Settings, Seq<EntryView>);

/// The state at the start of a reading, given the options if they are known.
pub open spec fn init_state(settings: Option<Settings>) -> ScanState {
    match settings {
        Some(s) => (true, true, s, Seq::empty()),
        None => (false, false, Settings { all_characters: false, case_sensitive: false }, Seq::empty()),
    }
}

/// The metadata flags after reading a line with headword `h`.
pub open spec fn next_flags(found: bool, created: bool, h: Seq<char>) -> (bool, bool) {
    if !found && is_metadata(h) {
        (true, created)
    } else if found && !created && !is_metadata(h) {
        (true, true)
    } else {
        (found, created)
    }
}

/// The state after reading a line. Once the metadata headwords are over, the options are
/// settled from the entries read so far: when these are sorted, as they are in an index,
/// they are the detected options; otherwise the search they rest on is unspecified, and they
/// are `chosen`. Without the case-sensitivity option, headwords are case folded.
pub open spec fn scan_step(
    st: ScanState,
    rec: (Seq<char>, u64, u64, Option<Seq<char>>),
    chosen: Settings,
) -> ScanState {
    let h = rec.0;
    let (found, created) = next_flags(st.0, st.1, h);
    let settings = if created && !st.1 {
        if sorted_by_headword(st.3) {
            detected(st.3)
        } else {
            chosen
        }
    } else {
        st.2
    };
    let word = if settings.case_sensitive {
        h
    } else {
        case_fold(h)
    };
    (found, created, settings, st.3.push((word, rec.1, rec.2, rec.3)))
}

/// Reading the lines from `i` on: the final state and the number of lines read, or the
/// error of the first malformed line. A lazy reading stops after the line that settles the
/// options.
pub open spec fn scan(
    lines: Seq<Seq<char>>,
    i: int,
    lazy: bool,
    st: ScanState,
    chosen: Settings,
) -> Result<(ScanState, int), DictError>
    decreases lines.len() - i,
{
    if i < 0 || i >= lines.len() {
        Ok((st, i))
    } else {
        match line_record(trim_end(lines[i]), i as usize) {
            Err(e) => Err(e),
            Ok(rec) => {
                let st2 = scan_step(st, rec, chosen);
                if lazy && st2.1 {
                    Ok((st2, i + 1))
                } else {
                    scan(lines, i + 1, lazy, st2, chosen)
                }
            },
        }
    }
}

/// The numbers of the lines that a reading from `i` goes through stay within `u64`.
pub open spec fn scan_fits(lines: Seq<Seq<char>>, i: int, lazy: bool, found: bool, created: bool) -> bool
    decreases lines.len() - i,
{
    if i < 0 || i >= lines.len() {
        true
    } else {
        let line = trim_end(lines[i]);
        line_decodable(line) && match line_record(line, i as usize) {
            Err(_) => true,
            Ok(rec) => {
                let (f2, c2) = next_flags(found, created, rec.0);
                if lazy && c2 {
                    true
                } else {
                    scan_fits(lines, i + 1, lazy, f2, c2)
                }
            },
        }
    }
}

/// Whether a reading fails, and how, depends on the lines only.
proof fn lemma_scan_error(
    lines: Seq<Seq<char>>,
    i: int,
    lazy: bool,
    st1: ScanState,
    st2: ScanState,
    c1: Settings,
    c2: Settings,
)
    requires
        st1.0 == st2.0,
        st1.1 == st2.1,
    ensures
        scan(lines, i, lazy, st1, c1) is Err <==> scan(lines, i, lazy, st2, c2) is Err,
        scan(lines, i, lazy, st1, c1) is Err ==> scan(lines, i, lazy, st1, c1) == scan(
            lines,
            i,
            lazy,
            st2,
            c2,
        ),
    decreases lines.len() - i,
{
    if 0 <= i < lines.len() {
        if let Ok(rec) = line_record(trim_end(lines[i]), i as usize) {
            lemma_scan_error(
                lines,
                i + 1,
                lazy,
                scan_step(st1, rec, c1),
                scan_step(st2, rec, c2),
                c1,
                c2,
            );
        }
    }
}

/// Removes the white space that ends `v`.
fn trim_end_chars(v: &mut Vec<char>)
    ensures
        final(v)@ == trim_end(old(v)@),
{
    while v.len() > 0 && crate::chars::char_is_whitespace(v[v.len() - 1])
        invariant
            trim_end(v@) == trim_end(old(v)@),
        decreases v@.len(),
    {
        v.pop();
    }
}

/// Whether `s` starts with `p`.
fn has_prefix(s: &Vec<char>, p: &str) -> (r: bool)
    ensures
        r == starts_with(s@, p@),
{
    let pv = chars_of(p);
    let r = crate::chars::starts_with_at(s, 0, &pv);
    proof {
        if pv@.len() <= s@.len() {
            assert(s@.subrange(0, pv@.len() as int) =~= s@.take(pv@.len() as int));
        }
    }
    r
}

/// A name for what `caseless::default_case_fold_str` returns: the default case folding of
/// Unicode.
pub uninterp spec fn case_fold(s: Seq<char>) -> Seq<char>;

/// `caseless::default_case_fold_str`: the text with each character replaced by its default
/// case folding (one to three characters). Claimed of it: the result is the name applied to
/// the text.
#[verifier::external_body]
fn default_case_fold(s: &str) -> (r: String)
    ensures
        r@ == case_fold(s@),
{
    caseless::default_case_fold_str(s)
}

proof fn lemma_filter_nonempty<A>(s: Seq<A>, p: spec_fn(A) -> bool)
    ensures
        s.filter(p).len() > 0 <==> exists|j: int| 0 <= j < s.len() && p(#[trigger] s[j]),
{
    broadcast use vstd::seq_lib::group_filter_ensures;

    if s.filter(p).len() > 0 {
        let x = s.filter(p)[0];
        assert(s.filter(p).contains(x));
        s.lemma_filter_contains_rev(p, x);
        let j = choose|j: int| 0 <= j < s.len() && s[j] == x;
        assert(p(s[j]));
    }
    if exists|j: int| 0 <= j < s.len() && p(#[trigger] s[j]) {
        let j = choose|j: int| 0 <= j < s.len() && p(#[trigger] s[j]);
        s.lemma_filter_contains(p, j);
    }
}

/// The options that the metadata headwords among `entries` record.
fn detect_settings(entries: &Vec<Entry>) -> (s: Settings)
    ensures
        sorted_by_headword(entry_views(entries@)) ==> s == detected(entry_views(entries@)),
{
    let ghost ev = entry_views(entries@);
    let found = find_entries(entries, "00-database-allchars", false);
    let all_chars = found.len() > 0;
    proof {
        let p = |e: EntryView| e.0 == "00-database-allchars"@;
        lemma_filter_nonempty(ev, p);
        assert(entry_views(found@).len() == found@.len());
        if sorted_by_headword(ev) {
            assert(all_chars == has_headword(ev, "00-database-allchars"@)) by {
                if all_chars {
                    let j = choose|j: int| 0 <= j < ev.len() && p(#[trigger] ev[j]);
                    assert(ev[j].0 == "00-database-allchars"@);
                }
                if has_headword(ev, "00-database-allchars"@) {
                    let j = choose|j: int| 0 <= j < ev.len() && (#[trigger] ev[j]).0
                        == "00-database-allchars"@;
                    assert(p(ev[j]));
                }
            }
        }
    }
    let word = if all_chars {
        "00-database-case-sensitive"
    } else {
        "00databasecasesensitive"
    };
    let found = find_entries(entries, word, false);
    let case_sensitive = found.len() > 0;
    proof {
        let p = |e: EntryView| e.0 == word@;
        lemma_filter_nonempty(ev, p);
        assert(entry_views(found@).len() == found@.len());
        if sorted_by_headword(ev) {
            assert(case_sensitive == has_headword(ev, word@)) by {
                if case_sensitive {
                    let j = choose|j: int| 0 <= j < ev.len() && p(#[trigger] ev[j]);
                    assert(ev[j].0 == word@);
                }
                if has_headword(ev, word@) {
                    let j = choose|j: int| 0 <= j < ev.len() && (#[trigger] ev[j]).0 == word@;
                    assert(p(ev[j]));
                }
            }
        }
    }
    Settings { all_characters: all_chars, case_sensitive }
}

/// Reads the lines of an index (`lazy`: only up to the line that settles the options, keeping
/// the others for later), starting from the given options if they are known.
pub fn parse_index_with_settings(lines: Vec<String>, lazy: bool, settings: Option<Settings>) -> (r:
    Result<Index, DictError>)
    requires
        scan_fits(line_views(lines@), 0, lazy, init_state(settings).0, init_state(settings).1),
    ensures
        match r {
            Ok(idx) => match scan(line_views(lines@), 0, lazy, init_state(settings), idx.settings) {
                Ok((st, n)) => {
                    &&& entry_views(idx.entries@) == st.3
                    &&& idx.settings == st.2
                    &&& lazy ==> match idx.state {
                        Some(rest) => line_views(rest@) == line_views(lines@).skip(n),
                        None => false,
                    }
                    &&& !lazy ==> idx.state is None
                },
                Err(_) => false,
            },
            Err(e) => forall|c: Settings| #[trigger]
                scan(line_views(lines@), 0, lazy, init_state(settings), c) == Err::<(ScanState, int), DictError>(e),
        },
{
    let ghost views = line_views(lines@);
    let ghost st0 = init_state(settings);
    let mut remaining = lines;
    let mut found = false;
    let mut created = false;
    let mut s = Settings { all_characters: false, case_sensitive: false };
    match settings {
        Some(init) => {
            s = init;
            found = true;
            created = true;
        },
        None => {},
    }
    let ghost mut unsorted_made = false;
    let mut entries: Vec<Entry> = Vec::new();
    assert(entry_views(entries@) =~= Seq::<EntryView>::empty());
    assert((found, created, s, entry_views(entries@)) == st0);
    let n = remaining.len();
    let mut i: usize = 0;
    while i < n
        invariant_except_break
            forall|c: Settings| (!unsorted_made || c == s) ==> #[trigger] scan(views, 0, lazy, st0, c) == scan(
                views,
                i as int,
                lazy,
                (found, created, s, entry_views(entries@)),
                c,
            ),
            scan_fits(views, i as int, lazy, found, created),
        invariant
            views == line_views(remaining@),
            views == line_views(lines@),
            n == remaining@.len(),
            0 <= i <= n,
            st0 == init_state(settings),
            unsorted_made ==> created,
        ensures
            forall|c: Settings| (!unsorted_made || c == s) ==> #[trigger] scan(views, 0, lazy, st0, c) == Ok::<(ScanState, int), DictError>(
                ((found, created, s, entry_views(entries@)), i as int),
            ),
        decreases n - i,
    {
        let ghost cur: ScanState = (found, created, s, entry_views(entries@));
        let mut v = chars_of(remaining[i].as_str());
        trim_end_chars(&mut v);
        assert(v@ == trim_end(views[i as int]));
        let rec = parse_line(&v, i);
        match rec {
            Err(e) => {
                proof {
                    assert forall|c: Settings| #[trigger] scan(views, 0, lazy, st0, c) == Err::<(ScanState, int), DictError>(e) by {
                        assert(scan(views, 0, lazy, st0, s) == scan(views, i as int, lazy, cur, s));
                        lemma_scan_error(views, 0, lazy, st0, st0, s, c);
                    }
                }
                return Err(e);
            },
            Ok((headword, offset, size, original)) => {
                let ghost rec_view = (headword@, offset, size, opt_chars(original));
                let hv = chars_of(headword.as_str());
                let meta = has_prefix(&hv, "00-database-") || has_prefix(&hv, "00database");
                let ghost was_created = created;
                if !found && meta {
                    found = true;
                } else if found && !created && !meta {
                    let d = detect_settings(&entries);
                    proof {
                        if !sorted_by_headword(entry_views(entries@)) {
                            unsorted_made = true;
                        }
                    }
                    s = d;
                    created = true;
                }
                let word = if !s.case_sensitive {
                    default_case_fold(headword.as_str())
                } else {
                    headword
                };
                let ghost before = entries@;
                entries.push(Entry { headword: word, offset, size, original });
                proof {
                    assert(entry_views(entries@) =~= entry_views(before).push(
                        (word@, offset, size, opt_chars(original)),
                    ));
                    assert forall|c: Settings| (!unsorted_made || c == s) implies #[trigger] scan_step(
                        cur,
                        rec_view,
                        c,
                    ) == (found, created, s, entry_views(entries@)) by {}
                }
                i += 1;
                if lazy && created {
                    break;
                }
            },
        }
    }
    let state = if lazy {
        let rest = remaining.split_off(i);
        proof {
            assert(line_views(rest@) =~= views.skip(i as int));
        }
        Some(rest)
    } else {
        None
    };
    Ok(Index { entries, state, settings: s })
}

/// Reads the lines of an index (`lazy`: only up to the line that settles the options).
pub fn parse_index(lines: Vec<String>, lazy: bool) -> (r: Result<Index, DictError>)
    requires
        scan_fits(line_views(lines@), 0, lazy, false, false),
    ensures
        match r {
            Ok(idx) => match scan(line_views(lines@), 0, lazy, init_state(None), idx.settings) {
                Ok((st, n)) => {
                    &&& entry_views(idx.entries@) == st.3
                    &&& idx.settings == st.2
                    &&& lazy ==> match idx.state {
                        Some(rest) => line_views(rest@) == line_views(lines@).skip(n),
                        None => false,
                    }
                    &&& !lazy ==> idx.state is None
                },
                Err(_) => false,
            },
            Err(e) => forall|c: Settings| #[trigger]
                scan(line_views(lines@), 0, lazy, init_state(None), c) == Err::<(ScanState, int), DictError>(e),
        },
{
    parse_index_with_settings(lines, lazy, None)
}

impl Index {
    /// Reads the lines left by a lazy loading, with the options found then, and finds the
    /// entries of a headword among all entries.
    pub fn load_and_find(&mut self, headword: &str, fuzzy: bool) -> (r: Vec<Entry>)
        requires
            match old(self).state {
                Some(rest) => scan_fits(line_views(rest@), 0, false, true, true),
                None => true,
            },
        ensures
            final(self).state is None,
            final(self).settings == old(self).settings,
            match old(self).state {
                Some(rest) => match scan(line_views(rest@), 0, false, init_state(Some(old(self).settings)), old(self).settings) {
                    Ok((st, _)) => entry_views(final(self).entries@) == entry_views(old(self).entries@) + st.3,
                    Err(_) => final(self).entries@ == old(self).entries@,
                },
                None => final(self).entries@ == old(self).entries@,
            },
            fuzzy ==> entry_views(r@) == entry_views(final(self).entries@).filter(
                |e: EntryView| edit_distance(headword@, e.0) <= 1,
            ),
            !fuzzy && sorted_by_headword(entry_views(final(self).entries@)) ==> entry_views(r@)
                == entry_views(final(self).entries@).filter(|e: EntryView| e.0 == headword@),
    {
        let mut state = None;
        std::mem::swap(&mut state, &mut self.state);
        if let Some(rest) = state {
            let ghost rv = line_views(rest@);
            if let Ok(mut index) = parse_index_with_settings(rest, false, Some(self.settings)) {
                let ghost before = self.entries@;
                let ghost added = index.entries@;
                self.entries.append(&mut index.entries);
                proof {
                    assert(index.settings == self.settings) by {
                        lemma_settled_scan(rv, 0, false, init_state(Some(self.settings)), index.settings);
                    }
                    assert(entry_views(self.entries@) =~= entry_views(before) + entry_views(added));
                }
            }
        }
        self.find(headword, fuzzy)
    }
}

/// Once the options are settled, a reading keeps them, whatever would be chosen.
proof fn lemma_settled_scan(lines: Seq<Seq<char>>, i: int, lazy: bool, st: ScanState, c: Settings)
    requires
        st.0 && st.1,
    ensures
        scan(lines, i, lazy, st, c) matches Ok((st2, _)) ==> st2.2 == st.2 && st2.0 && st2.1,
        scan(lines, i, lazy, st, c) == scan(lines, i, lazy, st, st.2),
    decreases lines.len() - i,
{
    if 0 <= i < lines.len() {
        if let Ok(rec) = line_record(trim_end(lines[i]), i as usize) {
            lemma_settled_scan(lines, i + 1, lazy, scan_step(st, rec, c), c);
            lemma_settled_scan(lines, i + 1, lazy, scan_step(st, rec, st.2), st.2);
            assert(scan_step(st, rec, c) == scan_step(st, rec, st.2));
        }
    }
}

/// The options of a dictionary that lookups depend on.
#[derive(Debug, Clone, Copy)]
pub struct Metadata {
    pub all_chars: bool,
    pub case_sensitive: bool,
}

/// The options that the metadata headwords of an index record, as a dictionary is loaded.
pub fn index_metadata(index: &Index) -> (m: Metadata)
    ensures
        sorted_by_headword(entry_views(index.entries@)) ==> m.all_chars == detected(
            entry_views(index.entries@),
        ).all_characters && m.case_sensitive == detected(
            entry_views(index.entries@),
        ).case_sensitive,
{
    let d = detect_settings(&index.entries);
    Metadata { all_chars: d.all_characters, case_sensitive: d.case_sensitive }
}

/// A name for what `str::to_lowercase` returns: the lower case mapping of Unicode.
pub uninterp spec fn lowercase(s: Seq<char>) -> Seq<char>;

/// `str::to_lowercase`: the text with each character replaced by its lower case mapping.
/// Claimed of it: the result is the name applied to the text.
#[verifier::external_body]
pub(crate) fn to_lowercase(s: &str) -> (r: String)
    ensures
        r@ == lowercase(s@),
{
    s.to_lowercase()
}

/// A name for what `char::is_alphanumeric` returns: whether the character has the
/// Alphabetic or the Numeric property of Unicode.
pub uninterp spec fn alphanumeric(c: char) -> bool;

/// `char::is_alphanumeric`. Claimed of it: the result is the name applied to the character.
#[verifier::external_body]
pub(crate) fn char_is_alphanumeric(c: char) -> (b: bool)
    ensures
        b == alphanumeric(c),
{
    c.is_alphanumeric()
}

/// The text that a lookup of `word` searches the index for.
pub open spec fn query_of(word: Seq<char>, metadata: Metadata) -> Seq<char> {
    let w = if metadata.case_sensitive {
        word
    } else {
        lowercase(word)
    };
    if metadata.all_chars {
        w
    } else {
        w.filter(|c: char| alphanumeric(c) || is_whitespace(c))
    }
}

/// The characters of `s` for which `keep` holds (`keep` tells letters and digits, and white
/// space too when `space` is set).
fn retain_chars(s: &str, space: bool) -> (r: String)
    ensures
        space ==> r@ == s@.filter(|c: char| alphanumeric(c) || is_whitespace(c)),
        !space ==> r@ == s@.filter(|c: char| alphanumeric(c)),
{
    let v = chars_of(s);
    let ghost p = if space {
        |c: char| alphanumeric(c) || is_whitespace(c)
    } else {
        |c: char| alphanumeric(c)
    };
    let mut r = String::new();
    let mut i: usize = 0;
    while i < v.len()
        invariant
            0 <= i <= v@.len(),
            v@ == s@,
            p == if space {
                |c: char| alphanumeric(c) || is_whitespace(c)
            } else {
                |c: char| alphanumeric(c)
            },
            r@ == v@.take(i as int).filter(p),
        decreases v@.len() - i,
    {
        let c = v[i];
        proof {
            assert(v@.take(i + 1) =~= v@.take(i as int).push(c));
            v@.take(i as int).lemma_filter_push(c, p);
        }
        let keep = if space {
            char_is_alphanumeric(c) || crate::chars::char_is_whitespace(c)
        } else {
            char_is_alphanumeric(c)
        };
        if keep {
            crate::chars::push_one(&mut r, c);
        }
        i += 1;
    }
    assert(v@.take(v@.len() as int) =~= v@);
    r
}

/// The text that a lookup of `word` searches the index for: lower case unless the dictionary
/// keeps case, reduced to letters, digits and white space unless it keeps all characters.
pub fn lookup_query(word: &str, metadata: &Metadata) -> (q: String)
    ensures
        q@ == query_of(word@, *metadata),
{
    let query = if !metadata.case_sensitive {
        to_lowercase(word)
    } else {
        word.to_owned()
    };
    if !metadata.all_chars {
        retain_chars(query.as_str(), true)
    } else {
        query
    }
}

/// The headword that holds the metadata entry `name`.
pub open spec fn metadata_headword(name: Seq<char>, all_chars: bool) -> Seq<char> {
    let q = "00-database-"@ + name;
    if all_chars {
        q
    } else {
        q.filter(|c: char| alphanumeric(c))
    }
}

/// The headword that holds the metadata entry `name`: `00-database-` and the name, reduced to
/// letters and digits unless the dictionary keeps all characters.
pub fn metadata_query(name: &str, all_chars: bool) -> (q: String)
    ensures
        q@ == metadata_headword(name@, all_chars),
{
    let mut query = "00-database-".to_owned();
    crate::chars::push_str(&mut query, name);
    if !all_chars {
        retain_chars(query.as_str(), false)
    } else {
        query
    }
}

/// `s` without the white space that starts it.
pub open spec fn trim_start(s: Seq<char>) -> Seq<char>
    decreases s.len(),
{
    if s.len() > 0 && is_whitespace(s[0]) {
        trim_start(s.drop_first())
    } else {
        s
    }
}

/// The value of a metadata entry, from its definition: what follows its first line when
/// there is more, the whole definition otherwise, without the white space around it.
pub open spec fn metadata_value(def: Seq<char>) -> Seq<char> {
    let start = match index_of(def, '\n') {
        Some(k) => if k < def.len() - 1 {
            k
        } else {
            0
        },
        None => 0,
    };
    trim_start(trim_end(def.skip(start)))
}

/// The value of a metadata entry, from its definition.
pub fn definition_value(def: &str) -> (r: String)
    ensures
        r@ == metadata_value(def@),
{
    let mut v = chars_of(def);
    let n = v.len();
    proof {
        assert(v@.subrange(0, n as int) =~= v@);
    }
    let found = find_char(&v, 0, n, '\n');
    proof {
        crate::chars::lemma_index_of(v@, '\n');
        match index_of(v@, '\n') {
            Some(k) => assert(found == Some(k as usize)),
            None => assert(found is None),
        }
    }
    let start = match found {
        Some(k) => if k + 1 < n {
            k
        } else {
            0
        },
        None => 0,
    };
    assert(start == match index_of(def@, '\n') {
        Some(k) => if k < def@.len() - 1 {
            k
        } else {
            0
        },
        None => 0,
    });
    let mut rest = v.split_off(start);
    assert(rest@ =~= def@.skip(start as int));
    trim_end_chars(&mut rest);
    let ghost t = rest@;
    assert(t.skip(0) =~= t);
    let mut j: usize = 0;
    while j < rest.len() && crate::chars::char_is_whitespace(rest[j])
        invariant
            0 <= j <= rest@.len(),
            rest@ == t,
            trim_start(t.skip(j as int)) == trim_start(t),
        decreases rest@.len() - j,
    {
        assert(t.skip(j as int).drop_first() =~= t.skip(j + 1));
        j += 1;
    }
    assert(trim_start(t.skip(j as int)) == t.skip(j as int)) by {
        if j < t.len() {
            assert(t.skip(j as int)[0] == t[j as int]);
        }
    }
    let r = string_of(&rest, j, rest.len());
    assert(t.subrange(j as int, t.len() as int) =~= t.skip(j as int));
    r
}

/// A lazy reading goes the way a full one does up to where it stops.
proof fn lemma_lazy_prefix(lines: Seq<Seq<char>>, i: int, st: ScanState, c: Settings)
    requires
        0 <= i,
        !st.1,
    ensures
        match scan(lines, i, true, st, c) {
            Ok((st1, n)) => if st1.1 {
                scan(lines, i, false, st, c) == scan(lines, n, false, st1, c) && i < n <= lines.len()
            } else {
                scan(lines, i, false, st, c) == Ok::<(ScanState, int), DictError>((st1, n))
            },
            Err(e) => scan(lines, i, false, st, c) == Err::<(ScanState, int), DictError>(e),
        },
    decreases lines.len() - i,
{
    if i < lines.len() {
        if let Ok(rec) = line_record(trim_end(lines[i]), i as usize) {
            let st2 = scan_step(st, rec, c);
            if !st2.1 {
                lemma_lazy_prefix(lines, i + 1, st2, c);
            }
        }
    }
}

/// Whether a line reads without error does not depend on its number, nor what it holds.
proof fn lemma_line_record_number(line: Seq<char>, a: usize, b: usize)
    ensures
        line_record(line, a) is Ok <==> line_record(line, b) is Ok,
        line_record(line, a) is Ok ==> line_record(line, a) == line_record(line, b),
{
}

/// Once the options are settled, reading the lines from `i` adds the same entries as reading
/// them from the start of the lines that begin at `k`, and keeps the options.
proof fn lemma_settled_suffix(
    lines: Seq<Seq<char>>,
    k: int,
    i: int,
    s: Settings,
    e: Seq<EntryView>,
    f: Seq<EntryView>,
    c1: Settings,
    c2: Settings,
)
    requires
        0 <= k <= i,
        k <= lines.len(),
    ensures
        scan(lines, i, false, (true, true, s, e), c1) is Ok <==> scan(
            lines.skip(k),
            i - k,
            false,
            (true, true, s, f),
            c2,
        ) is Ok,
        scan(lines, i, false, (true, true, s, e), c1) matches Ok((st1, _)) ==> scan(
            lines.skip(k),
            i - k,
            false,
            (true, true, s, f),
            c2,
        ) matches Ok((st2, _)) && st1.0 && st1.1 && st2.0 && st2.1 && st1.2 == s && st2.2 == s
            && st1.3.len() >= e.len() && st2.3.len() >= f.len() && st1.3.take(e.len() as int) == e
            && st2.3.take(f.len() as int) == f && st1.3.skip(e.len() as int) == st2.3.skip(
            f.len() as int,
        ),
    decreases lines.len() - i,
{
    let t = lines.skip(k);
    assert(t.len() == lines.len() - k);
    if i < lines.len() {
        assert(t[i - k] == lines[i]);
        lemma_line_record_number(trim_end(lines[i]), i as usize, (i - k) as usize);
        if let Ok(rec) = line_record(trim_end(lines[i]), i as usize) {
            let st1 = scan_step((true, true, s, e), rec, c1);
            let st2 = scan_step((true, true, s, f), rec, c2);
            assert(line_record(trim_end(t[i - k]), (i - k) as usize) == Ok::<
                (Seq<char>, u64, u64, Option<Seq<char>>),
                DictError,
            >(rec));
            assert(st1.0 && st1.1 && st1.2 == s);
            assert(st2.0 && st2.1 && st2.2 == s);
            assert(scan(lines, i, false, (true, true, s, e), c1) == scan(lines, i + 1, false, st1, c1));
            assert(scan(t, i - k, false, (true, true, s, f), c2) == scan(t, i - k + 1, false, st2, c2));
            assert(st1 == (true, true, s, st1.3));
            assert(st2 == (true, true, s, st2.3));
            lemma_settled_suffix(lines, k, i + 1, s, st1.3, st2.3, c1, c2);
            if let Ok((r1, _)) = scan(lines, i + 1, false, st1, c1) {
                if let Ok((r2, _)) = scan(t, i - k + 1, false, st2, c2) {
                    assert(r1.3.take(e.len() as int) =~= r1.3.take(st1.3.len() as int).take(
                        e.len() as int,
                    ));
                    assert(r2.3.take(f.len() as int) =~= r2.3.take(st2.3.len() as int).take(
                        f.len() as int,
                    ));
                    assert(st1.3.take(e.len() as int) =~= e);
                    assert(st2.3.take(f.len() as int) =~= f);
                    assert(r1.3.skip(e.len() as int) =~= seq![st1.3.last()] + r1.3.skip(
                        st1.3.len() as int,
                    ));
                    assert(r2.3.skip(f.len() as int) =~= seq![st2.3.last()] + r2.3.skip(
                        st2.3.len() as int,
                    ));
                }
            }
        }
    } else {
        assert(e.take(e.len() as int) =~= e);
        assert(f.take(f.len() as int) =~= f);
        assert(e.skip(e.len() as int) =~= f.skip(f.len() as int));
    }
}

/// Reading an index lazily, then reading the lines it left with the options it settled (as
/// `load_and_find` does), gives what reading all of it at once gives: the same entries in the
/// same order, and the same options.
pub proof fn lemma_lazy_reading(lines: Seq<Seq<char>>, c: Settings)
    requires
        scan(lines, 0, false, init_state(None), c) is Ok,
    ensures
        match scan(lines, 0, true, init_state(None), c) {
            Ok((st1, n)) => match scan(lines.skip(n), 0, false, init_state(Some(st1.2)), st1.2) {
                Ok((st2, _)) => match scan(lines, 0, false, init_state(None), c) {
                    Ok((st, _)) => st.3 == st1.3 + st2.3 && st.2 == st2.2,
                    Err(_) => false,
                },
                Err(_) => false,
            },
            Err(_) => false,
        },
{
    let st0 = init_state(None);
    lemma_lazy_prefix(lines, 0, st0, c);
    match scan(lines, 0, true, st0, c) {
        Ok((st1, n)) => {
            if st1.1 {
                assert(st1.0) by {
                    lemma_flags_settled(lines, 0, true, st0, c);
                }
                assert(st1 == (true, true, st1.2, st1.3));
                lemma_settled_suffix(lines, n, n, st1.2, st1.3, Seq::empty(), c, st1.2);
                assert(lines.skip(n) =~= lines.skip(n));
                let full = scan(lines, n, false, st1, c);
                if let Ok((st, _)) = full {
                    if let Ok((st2, _)) = scan(lines.skip(n), 0, false, (true, true, st1.2, Seq::empty()), st1.2) {
                        assert(st.3 =~= st.3.take(st1.3.len() as int) + st.3.skip(st1.3.len() as int));
                        assert(st2.3.skip(0) =~= st2.3);
                    }
                }
            } else {
                lemma_scan_end(lines, 0, true, st0, c);
                assert(lines.skip(n) =~= Seq::<Seq<char>>::empty());
                assert(st1.3 + Seq::<EntryView>::empty() =~= st1.3);
            }
        },
        Err(_) => {},
    }
}

/// Metadata is found no later than the options are settled.
proof fn lemma_flags_settled(lines: Seq<Seq<char>>, i: int, lazy: bool, st: ScanState, c: Settings)
    requires
        st.1 ==> st.0,
    ensures
        scan(lines, i, lazy, st, c) matches Ok((st1, _)) ==> (st1.1 ==> st1.0),
    decreases lines.len() - i,
{
    if 0 <= i < lines.len() {
        if let Ok(rec) = line_record(trim_end(lines[i]), i as usize) {
            lemma_flags_settled(lines, i + 1, lazy, scan_step(st, rec, c), c);
        }
    }
}

/// A reading that does not settle the options reads every line.
proof fn lemma_scan_end(lines: Seq<Seq<char>>, i: int, lazy: bool, st: ScanState, c: Settings)
    requires
        0 <= i <= lines.len(),
    ensures
        scan(lines, i, lazy, st, c) matches Ok((st1, n)) ==> (n == lines.len() || st1.1),
    decreases lines.len() - i,
{
    if i < lines.len() {
        if let Ok(rec) = line_record(trim_end(lines[i]), i as usize) {
            lemma_scan_end(lines, i + 1, lazy, scan_step(st, rec, c), c);
        }
    }
}

proof fn lemma_numeral_step(s: Seq<char>, a: int, k: int)
    requires
        0 <= a <= k < s.len(),
    ensures
        numeral(s.subrange(a, k + 1)) == numeral(s.subrange(a, k)) * 64 + match base_value(s[k]) {
            Some(v) => v,
            None => 0,
        },
{
    assert(s.subrange(a, k + 1).drop_last() =~= s.subrange(a, k));
}

/// Whether decoding `v[from..to]` stays within `u64`.
fn decodable_range(v: &Vec<char>, from: usize, to: usize) -> (b: bool)
    requires
        from <= to <= v@.len(),
    ensures
        b == decodable(v@.subrange(from as int, to as int)),
{
    let ghost s = v@.subrange(from as int, to as int);
    let n = to - from;
    let mut t: usize = 0;
    while t < n && t < 12 && get_base(v[to - 1 - t]).is_some()
        invariant
            s == v@.subrange(from as int, to as int),
            from <= to <= v@.len(),
            n == s.len(),
            0 <= t <= n,
            t <= 12,
            forall|j: int| n - t <= j < n ==> base_value(#[trigger] s[j]) is Some,
        decreases n - t,
    {
        assert(s[n - 1 - t] == v@[to - 1 - t]);
        t += 1;
    }
    proof {
        lemma_trailing_digits(s, t as int);
        lemma_trailing_digits_bound(s);
        if t < 12 && t < n {
            assert(s[n - 1 - t] == v@[to - 1 - t]);
        }
    }
    if t > 11 {
        return false;
    }
    let mut acc: u128 = 0;
    let mut k: usize = n - t;
    proof {
        reveal_with_fuel(pow64, 12);
        assert(s.subrange(n - t, (n - t) as int) =~= Seq::<char>::empty());
    }
    while k < n
        invariant
            s == v@.subrange(from as int, to as int),
            from <= to <= v@.len(),
            n == s.len(),
            t <= 11,
            t <= n,
            n - t <= k <= n,
            forall|j: int| n - t <= j < n ==> base_value(#[trigger] s[j]) is Some,
            acc == numeral(s.subrange(n - t, k as int)),
            acc < pow64((k - (n - t)) as nat),
            pow64(11) == 73786976294838206464,
        decreases n - k,
    {
        let d = match get_base(v[from + k]) {
            Some(x) => x,
            None => 0,
        };
        assert(s[k as int] == v@[from + k]);
        proof {
            lemma_numeral_step(s, n - t, k as int);
            let j = (k - (n - t)) as nat;
            lemma_pow64_monotone(j, 11);
            assert(acc * 64 + d < pow64(j + 1)) by (nonlinear_arith)
                requires
                    acc < pow64(j),
                    d < 64,
                    pow64(j + 1) == 64 * pow64(j),
            ;
            lemma_pow64_monotone(j + 1, 12);
            assert(pow64(12) == 4722366482869645213696);
        }
        acc = acc * 64 + d as u128;
        k += 1;
    }
    acc <= u64::MAX as u128
}

/// Whether the numbers of a line that get decoded stay within `u64`.
fn line_fits(v: &Vec<char>) -> (b: bool)
    ensures
        b == line_decodable(v@),
{
    let len = v.len();
    proof {
        assert(v@.subrange(0, len as int) =~= v@);
        reveal_with_fuel(column, 3);
    }
    let (_, n1) = next_column(v, 0);
    match n1 {
        None => true,
        Some(p1) => {
            let (e1, n2) = next_column(v, p1);
            assert(column(v@, 1) == Some(v@.subrange(p1 as int, e1 as int)));
            if !decodable_range(v, p1, e1) {
                return false;
            }
            match decode_range(v, p1, e1) {
                Err(_) => true,
                Ok(_) => match n2 {
                    None => true,
                    Some(p2) => {
                        let (e2, _) = next_column(v, p2);
                        assert(column(v@, 2) == Some(v@.subrange(p2 as int, e2 as int)));
                        decodable_range(v, p2, e2)
                    },
                },
            }
        },
    }
}

/// Whether reading `lines` stays within `u64` (what `parse_index_with_settings` requires).
pub fn index_fits(lines: &Vec<String>, lazy: bool, settings: Option<Settings>) -> (b: bool)
    ensures
        b == scan_fits(line_views(lines@), 0, lazy, init_state(settings).0, init_state(settings).1),
{
    let ghost views = line_views(lines@);
    let (mut found, mut created) = match settings {
        Some(_) => (true, true),
        None => (false, false),
    };
    let mut i: usize = 0;
    while i < lines.len()
        invariant
            views == line_views(lines@),
            0 <= i <= lines@.len(),
            scan_fits(views, 0, lazy, init_state(settings).0, init_state(settings).1) == scan_fits(
                views,
                i as int,
                lazy,
                found,
                created,
            ),
        decreases lines@.len() - i,
    {
        let mut v = chars_of(lines[i].as_str());
        trim_end_chars(&mut v);
        assert(v@ == trim_end(views[i as int]));
        if !line_fits(&v) {
            return false;
        }
        match parse_line(&v, i) {
            Err(_) => {
                return true;
            },
            Ok((headword, _, _, _)) => {
                let hv = chars_of(headword.as_str());
                let meta = has_prefix(&hv, "00-database-") || has_prefix(&hv, "00database");
                if !found && meta {
                    found = true;
                } else if found && !created && !meta {
                    created = true;
                }
                if lazy && created {
                    return true;
                }
            },
        }
        i += 1;
    }
    true
}


/// A dictionary that ignores case always searches for the word in lower case, whether it
/// keeps all characters or not: the query is the lower-cased word, or the lower-cased word
/// reduced to letters, digits and white space; and the reduced query is the full one reduced.
pub proof fn lemma_query_ignores_case(word: Seq<char>)
    ensures
        query_of(word, Metadata { all_chars: true, case_sensitive: false }) == lowercase(word),
        query_of(word, Metadata { all_chars: false, case_sensitive: false }) == lowercase(word).filter(
            |c: char| alphanumeric(c) || is_whitespace(c),
        ),
        query_of(word, Metadata { all_chars: false, case_sensitive: false }) == query_of(
            word,
            Metadata { all_chars: true, case_sensitive: false },
        ).filter(|c: char| alphanumeric(c) || is_whitespace(c)),
{
}

/// A dictionary that keeps case searches for the word as it is written: the word itself, or
/// the word reduced to letters, digits and white space.
pub proof fn lemma_query_keeps_case(word: Seq<char>)
    ensures
        query_of(word, Metadata { all_chars: true, case_sensitive: true }) == word,
        query_of(word, Metadata { all_chars: false, case_sensitive: true }) == word.filter(
            |c: char| alphanumeric(c) || is_whitespace(c),
        ),
{
}

} // verus!
