use vstd::prelude::*;
use crate::geom::CycleDir;
use crate::chars::{str_eq, push_str, push_one, push_decimal, decimal, chars_of, opt_chars};
use unicode_normalization::UnicodeNormalization;
use crate::dictionary::{lowercase, to_lowercase};
use crate::metadata::{file_name, file_name_of};
use crate::symbolic_path::{last_index_of, lemma_last_index_of, rfind_separator};
use crate::chars::string_of;

verus! {

/// A place in a document.
#[derive(Debug, Clone)]
pub enum Location {
    Exact(usize),
    Previous(usize),
    Next(usize),
    LocalUri(usize, String),
    Uri(String),
}

/// An entry of a table of contents, with its sub-entries.
#[derive(Debug)]
pub struct TocEntry {
    pub title: String,
    pub location: Location,
    pub index: usize,
    pub children: Vec<TocEntry>,
}

/// The entries of a table of contents in reading order: each entry comes before its
/// children, which come before the entry's next sibling.
pub open spec fn flatten(toc: Seq<TocEntry>) -> Seq<TocEntry>
    decreases toc,
{
    if toc.len() == 0 {
        Seq::empty()
    } else {
        let e = toc[0];
        seq![e] + flatten(e.children@) + flatten(toc.drop_first())
    }
}

pub proof fn lemma_flatten_append(a: Seq<TocEntry>, b: Seq<TocEntry>)
    ensures
        flatten(a + b) == flatten(a) + flatten(b),
    decreases a.len(),
{
    if a.len() == 0 {
        assert(a + b =~= b);
        assert(flatten(a) + flatten(b) =~= flatten(b));
    } else {
        assert((a + b).drop_first() =~= a.drop_first() + b);
        lemma_flatten_append(a.drop_first(), b);
        assert(flatten(a + b) =~= flatten(a) + flatten(b));
    }
}

/// Reading one more entry adds it, then its descendants.
pub proof fn lemma_flatten_prefix(toc: Seq<TocEntry>, i: int)
    requires
        0 <= i < toc.len(),
    ensures
        flatten(toc.subrange(0, i + 1)) == flatten(toc.subrange(0, i)) + seq![toc[i]] + flatten(
            toc[i].children@,
        ),
{
    assert(toc.subrange(0, i + 1) =~= toc.subrange(0, i) + seq![toc[i]]);
    lemma_flatten_append(toc.subrange(0, i), seq![toc[i]]);
    assert(seq![toc[i]].drop_first() =~= Seq::<TocEntry>::empty());
    assert(flatten(Seq::<TocEntry>::empty()) =~= Seq::<TocEntry>::empty());
    assert(flatten(seq![toc[i]]) =~= seq![toc[i]] + flatten(toc[i].children@) + flatten(
        Seq::<TocEntry>::empty(),
    ));
    assert(flatten(seq![toc[i]]) =~= seq![toc[i]] + flatten(toc[i].children@));
    assert(flatten(toc.subrange(0, i + 1)) =~= flatten(toc.subrange(0, i)) + seq![toc[i]]
        + flatten(toc[i].children@));
}

/// Reading one more entry backwards, from the end, adds it and its descendants before.
pub proof fn lemma_flatten_suffix(toc: Seq<TocEntry>, i: int)
    requires
        0 <= i < toc.len(),
    ensures
        flatten(toc.subrange(i, toc.len() as int)) == seq![toc[i]] + flatten(toc[i].children@)
            + flatten(toc.subrange(i + 1, toc.len() as int)),
{
    assert(toc.subrange(i, toc.len() as int).drop_first() =~= toc.subrange(
        i + 1,
        toc.len() as int,
    ));
}

/// The first element of `s` that satisfies `p`.
pub open spec fn first_match(s: Seq<TocEntry>, p: spec_fn(TocEntry) -> bool) -> Option<TocEntry>
    decreases s.len(),
{
    if s.len() == 0 {
        None
    } else if p(s[0]) {
        Some(s[0])
    } else {
        first_match(s.drop_first(), p)
    }
}

/// The last element of `s` that satisfies `p`.
pub open spec fn last_match(s: Seq<TocEntry>, p: spec_fn(TocEntry) -> bool) -> Option<TocEntry>
    decreases s.len(),
{
    if s.len() == 0 {
        None
    } else if p(s.last()) {
        Some(s.last())
    } else {
        last_match(s.drop_last(), p)
    }
}

pub proof fn lemma_first_match_append(a: Seq<TocEntry>, b: Seq<TocEntry>, p: spec_fn(TocEntry) -> bool)
    ensures
        first_match(a + b, p) == match first_match(a, p) {
            Some(e) => Some(e),
            None => first_match(b, p),
        },
    decreases a.len(),
{
    if a.len() == 0 {
        assert(a + b =~= b);
    } else {
        assert((a + b).drop_first() =~= a.drop_first() + b);
        lemma_first_match_append(a.drop_first(), b, p);
    }
}

pub proof fn lemma_last_match_append(a: Seq<TocEntry>, b: Seq<TocEntry>, p: spec_fn(TocEntry) -> bool)
    ensures
        last_match(a + b, p) == match last_match(b, p) {
            Some(e) => Some(e),
            None => last_match(a, p),
        },
    decreases b.len(),
{
    if b.len() == 0 {
        assert(a + b =~= a);
    } else {
        assert((a + b).drop_last() =~= a + b.drop_last());
        lemma_last_match_append(a, b.drop_last(), p);
    }
}

pub open spec fn deref_opt(r: Option<&TocEntry>) -> Option<TocEntry> {
    match r {
        Some(e) => Some(*e),
        None => None,
    }
}

pub open spec fn has_index(index: usize) -> spec_fn(TocEntry) -> bool {
    |e: TocEntry| e.index == index
}

pub open spec fn has_uri(uri: Seq<char>) -> spec_fn(TocEntry) -> bool {
    |e: TocEntry|
        match e.location {
            Location::Uri(u) => u@ == uri,
            _ => false,
        }
}

/// The entry whose `index` is the given one, first in reading order.
pub fn chapter_from_index(index: usize, toc: &[TocEntry]) -> (r: Option<&TocEntry>)
    ensures
        deref_opt(r) == first_match(flatten(toc@), has_index(index)),
    decreases toc@,
{
    let mut i: usize = 0;
    while i < toc.len()
        invariant
            0 <= i <= toc@.len(),
            first_match(flatten(toc@.subrange(0, i as int)), has_index(index)) is None,
        decreases toc@.len() - i,
    {
        let entry = &toc[i];
        proof {
            lemma_flatten_prefix(toc@, i as int);
            lemma_first_match_append(flatten(toc@.subrange(0, i as int)), seq![*entry], has_index(index));
            lemma_first_match_append(
                flatten(toc@.subrange(0, i as int)) + seq![*entry],
                flatten(entry.children@),
                has_index(index),
            );
            lemma_flatten_append(toc@.subrange(0, i + 1), toc@.subrange(i + 1, toc@.len() as int));
            assert(toc@ =~= toc@.subrange(0, i + 1) + toc@.subrange(i + 1, toc@.len() as int));
            lemma_first_match_append(
                flatten(toc@.subrange(0, i + 1)),
                flatten(toc@.subrange(i + 1, toc@.len() as int)),
                has_index(index),
            );
            assert(seq![*entry].drop_first() =~= Seq::<TocEntry>::empty());
            assert(first_match(Seq::<TocEntry>::empty(), has_index(index)) is None);
            assert(has_index(index)(*entry) == (entry.index == index));
            assert(decreases_to!(toc@ => toc@[i as int].children@));
        }
        if entry.index == index {
            return Some(entry);
        }
        let result = chapter_from_index(index, entry.children.as_slice());
        if result.is_some() {
            return result;
        }
        i += 1;
    }
    assert(toc@.subrange(0, i as int) =~= toc@);
    None
}

/// Looking at one more entry, in reading order, for the first one that satisfies `p`.
pub proof fn lemma_first_step(toc: Seq<TocEntry>, i: int, p: spec_fn(TocEntry) -> bool)
    requires
        0 <= i < toc.len(),
    ensures
        first_match(flatten(toc.subrange(0, i + 1)), p) == match first_match(
            flatten(toc.subrange(0, i)),
            p,
        ) {
            Some(x) => Some(x),
            None => if p(toc[i]) {
                Some(toc[i])
            } else {
                first_match(flatten(toc[i].children@), p)
            },
        },
        first_match(flatten(toc.subrange(0, i + 1)), p) is Some ==> first_match(flatten(toc), p)
            == first_match(flatten(toc.subrange(0, i + 1)), p),
        first_match(flatten(toc.subrange(0, 0)), p) is None,
{
    let a = flatten(toc.subrange(0, i));
    let e = toc[i];
    lemma_flatten_prefix(toc, i);
    lemma_first_match_append(a, seq![e], p);
    lemma_first_match_append(a + seq![e], flatten(e.children@), p);
    assert(seq![e].drop_first() =~= Seq::<TocEntry>::empty());
    assert(first_match(Seq::<TocEntry>::empty(), p) is None);
    let len = toc.len() as int;
    assert(toc =~= toc.subrange(0, i + 1) + toc.subrange(i + 1, len));
    lemma_flatten_append(toc.subrange(0, i + 1), toc.subrange(i + 1, len));
    lemma_first_match_append(flatten(toc.subrange(0, i + 1)), flatten(toc.subrange(i + 1, len)), p);
    assert(toc.subrange(0, 0) =~= Seq::<TocEntry>::empty());
    assert(flatten(Seq::<TocEntry>::empty()) =~= Seq::<TocEntry>::empty());
}

/// Looking at one more entry, backwards from the end, for the last one that satisfies `p`.
pub proof fn lemma_last_step(toc: Seq<TocEntry>, i: int, p: spec_fn(TocEntry) -> bool)
    requires
        0 <= i < toc.len(),
    ensures
        last_match(flatten(toc.subrange(i, toc.len() as int)), p) == match last_match(
            flatten(toc.subrange(i + 1, toc.len() as int)),
            p,
        ) {
            Some(x) => Some(x),
            None => match last_match(flatten(toc[i].children@), p) {
                Some(x) => Some(x),
                None => if p(toc[i]) {
                    Some(toc[i])
                } else {
                    None
                },
            },
        },
        last_match(flatten(toc.subrange(toc.len() as int, toc.len() as int)), p) is None,
        toc.subrange(0, toc.len() as int) == toc,
{
    let len = toc.len() as int;
    let e = toc[i];
    lemma_flatten_suffix(toc, i);
    let rest = flatten(toc.subrange(i + 1, len));
    let kids = flatten(e.children@);
    assert(seq![e] + kids + rest =~= seq![e] + (kids + rest));
    lemma_last_match_append(seq![e], kids + rest, p);
    lemma_last_match_append(kids, rest, p);
    assert(seq![e].drop_last() =~= Seq::<TocEntry>::empty());
    assert(last_match(Seq::<TocEntry>::empty(), p) is None);
    assert(toc.subrange(len, len) =~= Seq::<TocEntry>::empty());
    assert(flatten(Seq::<TocEntry>::empty()) =~= Seq::<TocEntry>::empty());
    assert(toc.subrange(0, len) =~= toc);
}

/// The entry whose location is the given URI, first in reading order.
pub fn chapter_from_uri<'a>(target_uri: &str, toc: &'a [TocEntry]) -> (r: Option<&'a TocEntry>)
    ensures
        deref_opt(r) == first_match(flatten(toc@), has_uri(target_uri@)),
    decreases toc@,
{
    let mut i: usize = 0;
    while i < toc.len()
        invariant
            0 <= i <= toc@.len(),
            first_match(flatten(toc@.subrange(0, i as int)), has_uri(target_uri@)) is None,
        decreases toc@.len() - i,
    {
        let entry = &toc[i];
        proof {
            lemma_first_step(toc@, i as int, has_uri(target_uri@));
            assert(decreases_to!(toc@ => toc@[i as int].children@));
        }
        if let Location::Uri(uri) = &entry.location {
            if str_eq(target_uri, uri.as_str()) {
                return Some(entry);
            }
        }
        let result = chapter_from_uri(target_uri, entry.children.as_slice());
        if result.is_some() {
            return result;
        }
        i += 1;
    }
    assert(toc@.subrange(0, i as int) =~= toc@);
    None
}

pub open spec fn is_exact_other_than(e: TocEntry, index: usize) -> bool {
    match e.location {
        Location::Exact(n) => n != index,
        _ => false,
    }
}

/// The entries that can follow the current chapter `chap` (or the position `index`, when
/// there is no current chapter).
pub open spec fn follows(chap: Option<TocEntry>, index: usize) -> spec_fn(TocEntry) -> bool {
    |e: TocEntry|
        match chap {
            Some(c) => e.index > c.index && is_exact_other_than(e, index),
            None => match e.location {
                Location::Exact(n) => n > index,
                _ => false,
            },
        }
}

/// The entries that can precede the current chapter `chap` (or the position `index`, when
/// there is no current chapter).
pub open spec fn precedes(chap: Option<TocEntry>, index: usize) -> spec_fn(TocEntry) -> bool {
    |e: TocEntry|
        match chap {
            Some(c) => e.index < c.index && is_exact_other_than(e, index),
            None => match e.location {
                Location::Exact(n) => n < index,
                _ => false,
            },
        }
}

/// The next chapter: the first entry, in reading order, that follows.
fn next_chapter<'a>(chap: Option<&TocEntry>, index: usize, toc: &'a [TocEntry]) -> (r: Option<&'a TocEntry>)
    ensures
        deref_opt(r) == first_match(flatten(toc@), follows(deref_opt(chap), index)),
    decreases toc@,
{
    let ghost p = follows(deref_opt(chap), index);
    let mut i: usize = 0;
    while i < toc.len()
        invariant
            0 <= i <= toc@.len(),
            p == follows(deref_opt(chap), index),
            first_match(flatten(toc@.subrange(0, i as int)), p) is None,
        decreases toc@.len() - i,
    {
        let entry = &toc[i];
        proof {
            lemma_first_step(toc@, i as int, p);
            assert(decreases_to!(toc@ => toc@[i as int].children@));
        }
        if let Some(chap) = chap {
            if entry.index > chap.index {
                if let Location::Exact(entry_index) = entry.location {
                    if entry_index != index {
                        return Some(entry);
                    }
                }
            }
        } else {
            if let Location::Exact(entry_index) = entry.location {
                if entry_index > index {
                    return Some(entry);
                }
            }
        }
        let result = next_chapter(chap, index, entry.children.as_slice());
        if result.is_some() {
            return result;
        }
        i += 1;
    }
    assert(toc@.subrange(0, i as int) =~= toc@);
    None
}

/// The previous chapter: the last entry, in reading order, that precedes.
fn previous_chapter<'a>(chap: Option<&TocEntry>, index: usize, toc: &'a [TocEntry]) -> (r: Option<&'a TocEntry>)
    ensures
        deref_opt(r) == last_match(flatten(toc@), precedes(deref_opt(chap), index)),
    decreases toc@,
{
    let ghost p = precedes(deref_opt(chap), index);
    let mut i: usize = toc.len();
    proof {
        if toc@.len() > 0 {
            lemma_last_step(toc@, 0, p);
        } else {
            assert(toc@.subrange(0, 0) =~= toc@);
        }
    }
    while i > 0
        invariant
            0 <= i <= toc@.len(),
            p == precedes(deref_opt(chap), index),
            last_match(flatten(toc@.subrange(i as int, toc@.len() as int)), p) is None,
        decreases i,
    {
        let entry = &toc[i - 1];
        proof {
            lemma_last_step(toc@, i - 1, p);
            assert(decreases_to!(toc@ => toc@[i - 1].children@));
        }
        let result = previous_chapter(chap, index, entry.children.as_slice());
        if result.is_some() {
            proof {
                lemma_last_step(toc@, 0, p);
                lemma_last_suffix_found(toc@, (i - 1) as int, p);
            }
            return result;
        }
        if let Some(chap) = chap {
            if entry.index < chap.index {
                if let Location::Exact(entry_index) = entry.location {
                    if entry_index != index {
                        proof {
                            lemma_last_suffix_found(toc@, (i - 1) as int, p);
                        }
                        return Some(entry);
                    }
                }
            }
        } else {
            if let Location::Exact(entry_index) = entry.location {
                if entry_index < index {
                    proof {
                        lemma_last_suffix_found(toc@, (i - 1) as int, p);
                    }
                    return Some(entry);
                }
            }
        }
        i -= 1;
    }
    proof {
        if toc@.len() > 0 {
            lemma_last_step(toc@, 0, p);
        }
    }
    None
}

/// When a suffix of the entries holds a match, the last match of the whole is that of the
/// suffix.
pub proof fn lemma_last_suffix_found(toc: Seq<TocEntry>, i: int, p: spec_fn(TocEntry) -> bool)
    requires
        0 <= i < toc.len(),
        last_match(flatten(toc.subrange(i, toc.len() as int)), p) is Some,
    ensures
        last_match(flatten(toc), p) == last_match(flatten(toc.subrange(i, toc.len() as int)), p),
{
    let len = toc.len() as int;
    assert(toc =~= toc.subrange(0, i) + toc.subrange(i, len));
    lemma_flatten_append(toc.subrange(0, i), toc.subrange(i, len));
    lemma_last_match_append(flatten(toc.subrange(0, i)), flatten(toc.subrange(i, len)), p);
}

/// Reading one entry while looking for the current chapter: an entry at an exact location
/// not after `index` becomes the current chapter when there is none yet or when it is
/// further than the current one.
pub open spec fn chapter_update(
    e: TocEntry,
    index: usize,
    acc: Option<TocEntry>,
    acc_index: int,
) -> (Option<TocEntry>, int) {
    match e.location {
        Location::Exact(n) => if n <= index && (acc is None || n > acc_index) {
            (Some(e), n as int)
        } else {
            (acc, acc_index)
        },
        _ => (acc, acc_index),
    }
}

pub open spec fn chapter_fold(
    s: Seq<TocEntry>,
    index: usize,
    acc: Option<TocEntry>,
    acc_index: int,
) -> (Option<TocEntry>, int)
    decreases s.len(),
{
    if s.len() == 0 {
        (acc, acc_index)
    } else {
        let (a, b) = chapter_update(s[0], index, acc, acc_index);
        chapter_fold(s.drop_first(), index, a, b)
    }
}

pub proof fn lemma_chapter_fold_append(
    x: Seq<TocEntry>,
    y: Seq<TocEntry>,
    index: usize,
    acc: Option<TocEntry>,
    acc_index: int,
)
    ensures
        chapter_fold(x + y, index, acc, acc_index) == ({
            let (a, b) = chapter_fold(x, index, acc, acc_index);
            chapter_fold(y, index, a, b)
        }),
    decreases x.len(),
{
    if x.len() == 0 {
        assert(x + y =~= y);
    } else {
        assert((x + y).drop_first() =~= x.drop_first() + y);
        let (a, b) = chapter_update(x[0], index, acc, acc_index);
        lemma_chapter_fold_append(x.drop_first(), y, index, a, b);
    }
}

fn chapter_aux<'a>(
    toc: &'a [TocEntry],
    index: usize,
    chap: &mut Option<&'a TocEntry>,
    chap_index: &mut usize,
)
    ensures
        (deref_opt(*final(chap)), *final(chap_index) as int) == chapter_fold(
            flatten(toc@),
            index,
            deref_opt(*old(chap)),
            *old(chap_index) as int,
        ),
    decreases toc@,
{
    let ghost c0 = deref_opt(*chap);
    let ghost i0 = *chap_index as int;
    let mut i: usize = 0;
    proof {
        assert(toc@.subrange(0, 0) =~= Seq::<TocEntry>::empty());
        assert(flatten(Seq::<TocEntry>::empty()) =~= Seq::<TocEntry>::empty());
    }
    while i < toc.len()
        invariant
            0 <= i <= toc@.len(),
            (deref_opt(*chap), *chap_index as int) == chapter_fold(
                flatten(toc@.subrange(0, i as int)),
                index,
                c0,
                i0,
            ),
        decreases toc@.len() - i,
    {
        let entry = &toc[i];
        let ghost before = (deref_opt(*chap), *chap_index as int);
        proof {
            lemma_flatten_prefix(toc@, i as int);
            let a = flatten(toc@.subrange(0, i as int));
            lemma_chapter_fold_append(a, seq![*entry], index, c0, i0);
            lemma_chapter_fold_append(a + seq![*entry], flatten(entry.children@), index, c0, i0);
            assert(seq![*entry].drop_first() =~= Seq::<TocEntry>::empty());
            assert(decreases_to!(toc@ => toc@[i as int].children@));
        }
        if let Location::Exact(entry_index) = entry.location {
            if entry_index <= index && (chap.is_none() || entry_index > *chap_index) {
                *chap = Some(entry);
                *chap_index = entry_index;
            }
        }
        assert((deref_opt(*chap), *chap_index as int) == chapter_update(
            *entry,
            index,
            before.0,
            before.1,
        ));
        let ghost mid = (deref_opt(*chap), *chap_index as int);
        chapter_aux(entry.children.as_slice(), index, chap, chap_index);
        proof {
            let a = flatten(toc@.subrange(0, i as int));
            assert(chapter_fold(seq![*entry], index, before.0, before.1) == chapter_fold(
                Seq::<TocEntry>::empty(),
                index,
                mid.0,
                mid.1,
            ));
            assert(chapter_fold(seq![*entry], index, before.0, before.1) == mid);
            assert(chapter_fold(a + seq![*entry], index, c0, i0) == mid);
            assert(flatten(toc@.subrange(0, i + 1)) == a + seq![*entry] + flatten(entry.children@));
        }
        i += 1;
    }
    assert(toc@.subrange(0, i as int) =~= toc@);
}

/// The chapter at position `index`: the entry at the furthest exact location not after
/// `index`, the first one in reading order among equals.
fn chapter(index: usize, toc: &[TocEntry]) -> (r: Option<&TocEntry>)
    ensures
        deref_opt(r) == chapter_fold(flatten(toc@), index, None, 0).0,
{
    let mut chap = None;
    let mut chap_index: usize = 0;
    chapter_aux(toc, index, &mut chap, &mut chap_index);
    chap
}

/// The chapter after or before the one at position `index`.
fn chapter_relative(index: usize, dir: CycleDir, toc: &[TocEntry]) -> (r: Option<&TocEntry>)
    ensures
        ({
            let chap = chapter_fold(flatten(toc@), index, None, 0).0;
            deref_opt(r) == match dir {
                CycleDir::Previous => last_match(flatten(toc@), precedes(chap, index)),
                CycleDir::Next => first_match(flatten(toc@), follows(chap, index)),
            }
        }),
{
    let chap = chapter(index, toc);
    match dir {
        CycleDir::Previous => previous_chapter(chap, index, toc),
        CycleDir::Next => next_chapter(chap, index, toc),
    }
}

/// A position in a document: a page and an offset in it, or an offset in a reflowable
/// document. Positions are ordered by variant first (all static ones come first), then by
/// their numbers.
#[derive(Debug, Copy, Clone, PartialEq, Eq, Structural, PartialOrd, Ord, Hash)]
pub enum TextLocation {
    Static(usize, usize),
    Dynamic(usize),
}

pub open spec fn text_location_lt(a: TextLocation, b: TextLocation) -> bool {
    match (a, b) {
        (TextLocation::Static(p1, o1), TextLocation::Static(p2, o2)) => p1 < p2 || (p1 == p2
            && o1 < o2),
        (TextLocation::Static(..), TextLocation::Dynamic(..)) => true,
        (TextLocation::Dynamic(..), TextLocation::Static(..)) => false,
        (TextLocation::Dynamic(x), TextLocation::Dynamic(y)) => x < y,
    }
}

impl TextLocation {
    pub open spec fn spec_location(self) -> usize {
        match self {
            TextLocation::Static(page, _) => page,
            TextLocation::Dynamic(offset) => offset,
        }
    }

    /// The page of a static position, the offset of a dynamic one.
    pub fn location(self) -> (n: usize)
        ensures
            n == self.spec_location(),
    {
        match self {
            TextLocation::Static(page, _) => page,
            TextLocation::Dynamic(offset) => offset,
        }
    }

    /// Whether `self` comes before `other`.
    pub fn precedes(self, other: Self) -> (b: bool)
        ensures
            b == text_location_lt(self, other),
    {
        match (self, other) {
            (TextLocation::Static(p1, o1), TextLocation::Static(p2, o2)) => p1 < p2 || (p1 == p2
                && o1 < o2),
            (TextLocation::Static(..), TextLocation::Dynamic(..)) => true,
            (TextLocation::Dynamic(..), TextLocation::Static(..)) => false,
            (TextLocation::Dynamic(x), TextLocation::Dynamic(y)) => x < y,
        }
    }

    /// The two positions, the first one first.
    pub fn min_max(self, other: Self) -> (r: (Self, Self))
        ensures
            r == if text_location_lt(self, other) {
                (self, other)
            } else {
                (other, self)
            },
    {
        if self.precedes(other) {
            (self, other)
        } else {
            (other, self)
        }
    }
}

/// The order of positions is a strict total order, so `min_max` puts its arguments in order
/// whichever order they come in.
pub proof fn lemma_text_location_order(a: TextLocation, b: TextLocation, c: TextLocation)
    ensures
        !text_location_lt(a, a),
        text_location_lt(a, b) ==> !text_location_lt(b, a),
        text_location_lt(a, b) && text_location_lt(b, c) ==> text_location_lt(a, c),
        a != b ==> text_location_lt(a, b) || text_location_lt(b, a),
        a != b ==> (if text_location_lt(a, b) { (a, b) } else { (b, a) }) == (if text_location_lt(b, a) { (b, a) } else { (a, b) }),
{
}

#[derive(Debug, Copy, Clone, PartialEq, Eq, Structural)]
pub struct Neighbors {
    pub previous_page: Option<usize>,
    pub next_page: Option<usize>,
}

/// A location as written in a saved table of contents.
#[derive(Debug, Clone)]
pub enum TocLocation {
    Exact(usize),
    Uri(String),
}

/// An entry of a saved table of contents.
#[derive(Debug)]
pub enum SimpleTocEntry {
    Leaf(String, TocLocation),
    Container(String, TocLocation, Vec<SimpleTocEntry>),
}

pub open spec fn location_of(loc: TocLocation) -> Location {
    match loc {
        TocLocation::Exact(n) => Location::Exact(n),
        TocLocation::Uri(uri) => Location::Uri(uri),
    }
}

impl vstd::std_specs::convert::FromSpecImpl<TocLocation> for Location {
    open spec fn obeys_from_spec() -> bool {
        true
    }

    open spec fn from_spec(v: TocLocation) -> Location {
        location_of(v)
    }
}

impl From<TocLocation> for Location {
    fn from(loc: TocLocation) -> (l: Location) {
        match loc {
            TocLocation::Exact(n) => Location::Exact(n),
            TocLocation::Uri(uri) => Location::Uri(uri),
        }
    }
}

/// The beginning of the HTML page of a table of contents.
pub const TOC_HTML_HEAD: &'static str = "<html>\n                         <head>\n                             <title>Table of Contents</title>\n                             <link rel=\"stylesheet\" type=\"text/css\" href=\"css/toc.css\"/>\n                         </head>\n                     <body>";

/// `t` with `<` and `>` written as `&lt;` and `&gt;`.
pub open spec fn escape_angles(t: Seq<char>) -> Seq<char>
    decreases t.len(),
{
    if t.len() == 0 {
        Seq::empty()
    } else {
        escape_angles(t.drop_last()) + if t.last() == '<' {
            seq!['&', 'l', 't', ';']
        } else if t.last() == '>' {
            seq!['&', 'g', 't', ';']
        } else {
            seq![t.last()]
        }
    }
}

/// The opening of the link of an entry.
pub open spec fn toc_link(loc: Location) -> Seq<char> {
    match loc {
        Location::Exact(n) => "<li><a href=\"@"@ + decimal(n as nat) + "\">"@,
        Location::Uri(uri) => "<li><a href=\"@"@ + uri@ + "\">"@,
        _ => "<li><a href=\"#\">"@,
    }
}

/// The HTML of one entry of a table of contents.
pub open spec fn toc_entry_html(e: TocEntry, chap_index: usize) -> Seq<char>
    decreases e, 0nat,
{
    toc_entry_head(e, chap_index) + if e.children@.len() > 0 {
        toc_list_html(e.children@, chap_index)
    } else {
        Seq::empty()
    }
}

/// The HTML of the entries, one after the other.
pub open spec fn toc_items_html(toc: Seq<TocEntry>, chap_index: usize) -> Seq<char>
    decreases toc, 1nat,
{
    if toc.len() == 0 {
        Seq::empty()
    } else {
        toc_entry_html(toc[0], chap_index) + toc_items_html(toc.drop_first(), chap_index)
    }
}

/// The HTML list of a table of contents.
pub open spec fn toc_list_html(toc: Seq<TocEntry>, chap_index: usize) -> Seq<char>
    decreases toc, 2nat,
{
    "<ul>"@ + toc_items_html(toc, chap_index) + "</ul>"@
}

/// Appends `t` with `<` and `>` escaped.
fn push_escaped(buf: &mut String, t: &str)
    ensures
        final(buf)@ == old(buf)@ + escape_angles(t@),
{
    let v = chars_of(t);
    let mut i: usize = 0;
    while i < v.len()
        invariant
            0 <= i <= v@.len(),
            v@ == t@,
            buf@ == old(buf)@ + escape_angles(v@.take(i as int)),
        decreases v@.len() - i,
    {
        assert(v@.take((i + 1) as int).drop_last() =~= v@.take(i as int));
        let c = v[i];
        let ghost before = buf@;
        if c == '<' {
            push_one(buf, '&');
            push_one(buf, 'l');
            push_one(buf, 't');
            push_one(buf, ';');
        } else if c == '>' {
            push_one(buf, '&');
            push_one(buf, 'g');
            push_one(buf, 't');
            push_one(buf, ';');
        } else {
            push_one(buf, c);
        }
        assert(buf@ =~= old(buf)@ + escape_angles(v@.take((i + 1) as int)));
        i += 1;
    }
    assert(v@.take(v@.len() as int) =~= v@);
}

/// The HTML of an entry without its sub-entries.
pub open spec fn toc_entry_head(e: TocEntry, chap_index: usize) -> Seq<char> {
    let title = escape_angles(e.title@);
    toc_link(e.location) + (if e.index == chap_index {
        "<strong>"@ + title + "</strong>"@
    } else {
        title
    }) + "</a></li>"@
}

fn push_entry_head(buf: &mut String, entry: &TocEntry, chap_index: usize)
    ensures
        final(buf)@ == old(buf)@ + toc_entry_head(*entry, chap_index),
{
    match &entry.location {
        Location::Exact(n) => {
            push_str(buf, "<li><a href=\"@");
            push_decimal(buf, *n);
            push_str(buf, "\">");
        },
        Location::Uri(uri) => {
            push_str(buf, "<li><a href=\"@");
            push_str(buf, uri.as_str());
            push_str(buf, "\">");
        },
        _ => push_str(buf, "<li><a href=\"#\">"),
    }
    if entry.index == chap_index {
        push_str(buf, "<strong>");
        push_escaped(buf, entry.title.as_str());
        push_str(buf, "</strong>");
    } else {
        push_escaped(buf, entry.title.as_str());
    }
    push_str(buf, "</a></li>");
    assert(buf@ =~= old(buf)@ + toc_entry_head(*entry, chap_index));
}

/// Appends the HTML list of a table of contents, the chapter at `chap_index` in bold.
pub fn toc_as_html_aux(toc: &[TocEntry], chap_index: usize, buf: &mut String)
    ensures
        final(buf)@ == old(buf)@ + toc_list_html(toc@, chap_index),
    decreases toc@,
{
    push_str(buf, "<ul>");
    let mut i: usize = 0;
    while i < toc.len()
        invariant
            0 <= i <= toc@.len(),
            buf@ == old(buf)@ + "<ul>"@ + toc_items_html(toc@.take(i as int), chap_index),
        decreases toc@.len() - i,
    {
        let entry = &toc[i];
        let ghost before = buf@;
        proof {
            assert(decreases_to!(toc@ => toc@[i as int].children@));
        }
        push_entry_head(buf, entry, chap_index);
        if entry.children.len() > 0 {
            toc_as_html_aux(entry.children.as_slice(), chap_index, buf);
        }
        proof {
            lemma_items_prefix(toc@, i as int, chap_index);
            assert(buf@ =~= before + toc_entry_html(*entry, chap_index));
        }
        i += 1;
    }
    push_str(buf, "</ul>");
    assert(toc@.take(toc@.len() as int) =~= toc@);
}

proof fn lemma_items_prefix(toc: Seq<TocEntry>, i: int, chap_index: usize)
    requires
        0 <= i < toc.len(),
    ensures
        toc_items_html(toc.take(i + 1), chap_index) == toc_items_html(toc.take(i), chap_index)
            + toc_entry_html(toc[i], chap_index),
    decreases i,
{
    if i == 0 {
        assert(toc.take(1).drop_first() =~= Seq::<TocEntry>::empty());
        assert(toc_items_html(toc.take(0), chap_index) =~= Seq::<char>::empty());
        assert(toc_items_html(Seq::<TocEntry>::empty(), chap_index) =~= Seq::<char>::empty());
        assert(toc_items_html(toc.take(1), chap_index) =~= toc_entry_html(toc[0], chap_index));
    } else {
        let t = toc.drop_first();
        lemma_items_prefix(t, i - 1, chap_index);
        assert(toc.take(i + 1).drop_first() =~= t.take(i));
        assert(toc.take(i).drop_first() =~= t.take(i - 1));
        assert(toc.take(i + 1)[0] == toc[0]);
        assert(toc.take(i)[0] == toc[0]);
        assert(t[i - 1] == toc[i]);
        assert(toc_items_html(toc.take(i + 1), chap_index) =~= toc_items_html(toc.take(i), chap_index)
            + toc_entry_html(toc[i], chap_index));
    }
}

/// The HTML page of a table of contents, the chapter at `chap_index` in bold.
pub fn toc_as_html(toc: &[TocEntry], chap_index: usize) -> (s: String)
    ensures
        s@ == TOC_HTML_HEAD@ + toc_list_html(toc@, chap_index) + "</body></html>"@,
{
    let mut buf = crate::chars::to_string(TOC_HTML_HEAD);
    toc_as_html_aux(toc, chap_index, &mut buf);
    push_str(&mut buf, "</body></html>");
    buf
}

/// The page that a location resolves to in a document of `pages_count` pages, for the
/// locations a document with fixed pages understands: an existing page, or the page before or
/// after a page when there is one.
pub open spec fn resolved_location(pages_count: usize, loc: Location) -> Option<usize> {
    if pages_count == 0 {
        None
    } else {
        match loc {
            Location::Exact(index) => if index >= pages_count {
                None
            } else {
                Some(index)
            },
            Location::Previous(index) => if index > 0 {
                Some((index - 1) as usize)
            } else {
                None
            },
            Location::Next(index) => if index < pages_count - 1 {
                Some((index + 1) as usize)
            } else {
                None
            },
            _ => None,
        }
    }
}

/// The page that a location resolves to in a document of `pages_count` pages.
pub fn resolve_location(pages_count: usize, loc: &Location) -> (r: Option<usize>)
    ensures
        r == resolved_location(pages_count, *loc),
{
    if pages_count == 0 {
        return None;
    }
    match loc {
        Location::Exact(index) => if *index >= pages_count {
            None
        } else {
            Some(*index)
        },
        Location::Previous(index) => if *index > 0 {
            Some(*index - 1)
        } else {
            None
        },
        Location::Next(index) => if *index < pages_count - 1 {
            Some(*index + 1)
        } else {
            None
        },
        _ => None,
    }
}

/// A name for what `UnicodeNormalization::nfkd` gives: the compatibility decomposition of
/// Unicode.
pub uninterp spec fn nfkd(s: Seq<char>) -> Seq<char>;

/// `UnicodeNormalization::nfkd` of `unicode_normalization`, collected into a string. Claimed of
/// it: the result is the name applied to the text.
#[verifier::external_body]
fn nfkd_of(s: &str) -> (r: String)
    ensures
        r@ == nfkd(s@),
{
    s.nfkd().collect::<String>()
}

/// A name for what `unicode_normalization::char::is_combining_mark` tells: whether a
/// character is a combining mark.
pub uninterp spec fn combining_mark(c: char) -> bool;

/// `unicode_normalization::char::is_combining_mark`. Claimed of it: the result is the name
/// applied to the character.
#[verifier::external_body]
fn is_combining_mark(c: char) -> (b: bool)
    ensures
        b == combining_mark(c),
{
    unicode_normalization::char::is_combining_mark(c)
}

/// What a character becomes in an ASCII-friendly name: nothing for a combining mark, two
/// letters for a ligature, a hyphen for a dash, an apostrophe for a right single quote.
pub open spec fn ascii_piece(c: char) -> Seq<char> {
    if combining_mark(c) {
        Seq::empty()
    } else if c == '\u{153}' {
        seq!['o', 'e']
    } else if c == '\u{152}' {
        seq!['O', 'e']
    } else if c == '\u{e6}' {
        seq!['a', 'e']
    } else if c == '\u{c6}' {
        seq!['A', 'e']
    } else if c == '\u{2014}' || c == '\u{2013}' {
        seq!['-']
    } else if c == '\u{2019}' {
        seq!['\'']
    } else {
        seq![c]
    }
}

/// The pieces of the characters of `s`, one after the other.
pub open spec fn ascii_pieces(s: Seq<char>) -> Seq<char>
    decreases s.len(),
{
    if s.len() == 0 {
        Seq::empty()
    } else {
        ascii_pieces(s.drop_last()) + ascii_piece(s.last())
    }
}

/// A name made friendlier to ASCII: decomposed, without combining marks, ligatures spelled
/// out, dashes and right quotes made plain.
pub fn asciify(name: &str) -> (r: String)
    ensures
        r@ == ascii_pieces(nfkd(name@)),
{
    let d = nfkd_of(name);
    let v = chars_of(d.as_str());
    let mut r = String::new();
    let mut i: usize = 0;
    while i < v.len()
        invariant
            0 <= i <= v@.len(),
            v@ == nfkd(name@),
            r@ == ascii_pieces(v@.take(i as int)),
        decreases v@.len() - i,
    {
        let c = v[i];
        assert(v@.take(i + 1).drop_last() =~= v@.take(i as int));
        let ghost before = r@;
        if !is_combining_mark(c) {
            if c == '\u{153}' {
                push_str(&mut r, "oe");
            } else if c == '\u{152}' {
                push_str(&mut r, "Oe");
            } else if c == '\u{e6}' {
                push_str(&mut r, "ae");
            } else if c == '\u{c6}' {
                push_str(&mut r, "Ae");
            } else if c == '\u{2014}' || c == '\u{2013}' {
                push_one(&mut r, '-');
            } else if c == '\u{2019}' {
                push_one(&mut r, '\'');
            } else {
                push_one(&mut r, c);
            }
        }
        proof {
            reveal_strlit("oe");
            reveal_strlit("Oe");
            reveal_strlit("ae");
            reveal_strlit("Ae");
        }
        assert(r@ =~= before + ascii_piece(c));
        i += 1;
    }
    assert(v@.take(v@.len() as int) =~= v@);
    r
}

/// The extension of a file name as `Path::extension` takes it: what follows its last dot,
/// unless that dot is the first character or there is none.
pub open spec fn extension_of(name: Seq<char>) -> Option<Seq<char>> {
    match last_index_of(name, '.') {
        Some(k) => if k > 0 {
            Some(name.skip(k + 1))
        } else {
            None
        },
        None => None,
    }
}

/// The kind of a file: the extension of its name, in lower case.
pub open spec fn kind_of(path: Seq<char>) -> Option<Seq<char>> {
    match file_name_of(path) {
        Some(name) => match extension_of(name) {
            Some(ext) => Some(lowercase(ext)),
            None => None,
        },
        None => None,
    }
}

/// The kind of a file: the extension of its name, in lower case.
pub fn file_kind(path: &str) -> (r: Option<String>)
    ensures
        opt_chars(r) == kind_of(path@),
{
    match file_name(path) {
        Some(name) => {
            let v = chars_of(name.as_str());
            proof {
                lemma_last_index_of(v@, '.');
            }
            let n = v.len();
            let found = rfind_separator(&v);
            match found {
                Some(k) => {
                    if k > 0 {
                        let ext = string_of(&v, k + 1, v.len());
                        assert(ext@ =~= v@.skip(k + 1));
                        Some(to_lowercase(ext.as_str()))
                    } else {
                        None
                    }
                },
                None => None,
            }
        },
        None => None,
    }
}

/// A rectangle of a page to render.
pub struct Rect;

/// A table of contents.
pub struct Toc;

/// A page of a document that can be rendered into a buffer and read as text.
pub trait Page {
    fn render(&self, rect: Rect, buf: &mut [u8]);

    fn text(&self) -> Option<String>;
}

} // verus!
