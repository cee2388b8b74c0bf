//! The orders by which the library's books are sorted.
use vstd::prelude::*;
use std::cmp::Ordering;
use crate::helpers::{keeps, path_names, rooted};
use crate::chars::{chars_of, lemma_index_of, split_char, split_on, str_eq, string_views, to_string};
use crate::metadata::{article_len, file_name, file_name_of, simple_status_of, sorting_author, Info, SimpleStatus, SortMethod};

verus! {

/// `-1`, `0` or `1` as `a` is below, equal to or above `b`.
pub open spec fn int_order(a: int, b: int) -> int {
    if a < b {
        -1
    } else if a == b {
        0
    } else {
        1
    }
}

/// Characters in the order of their code points.
pub open spec fn char_order(x: char, y: char) -> int {
    int_order(x as int, y as int)
}

/// `char_order` as a function value.
pub open spec fn chars_in_order() -> spec_fn(char, char) -> int {
    |x: char, y: char| char_order(x, y)
}

/// Whether `f` orders its values totally, ties allowed: it answers `-1`, `0` or `1`, swapping
/// its arguments changes the sign, and being at most another goes from one to the next.
pub open spec fn total_preorder<T>(f: spec_fn(T, T) -> int) -> bool {
    &&& forall|x: T, y: T| #![trigger f(x, y)] -1 <= f(x, y) <= 1 && f(x, y) == -f(y, x)
    &&& forall|x: T, y: T, z: T| #![trigger f(x, y), f(y, z)] f(x, y) <= 0 && f(y, z) <= 0 ==> f(x, z) <= 0
}

/// The lexicographic order of sequences whose items `f` orders: the first items that `f`
/// does not tie decide, and a sequence comes before the longer ones that it starts.
pub open spec fn lex_order<T>(a: Seq<T>, b: Seq<T>, f: spec_fn(T, T) -> int) -> int
    decreases a.len(),
{
    if a.len() == 0 {
        if b.len() == 0 {
            0
        } else {
            -1
        }
    } else if b.len() == 0 {
        1
    } else if f(a[0], b[0]) != 0 {
        f(a[0], b[0])
    } else {
        lex_order(a.drop_first(), b.drop_first(), f)
    }
}

/// The order of texts: lexicographic, by code point, as `str` compares (UTF-8 keeps the order
/// of code points).
pub open spec fn text_order(a: Seq<char>, b: Seq<char>) -> int {
    lex_order(a, b, chars_in_order())
}

/// Optional values: none first, then the values in the order `f` gives.
pub open spec fn opt_order<T>(a: Option<T>, b: Option<T>, f: spec_fn(T, T) -> int) -> int {
    match (a, b) {
        (None, None) => 0,
        (None, Some(_)) => -1,
        (Some(_), None) => 1,
        (Some(x), Some(y)) => f(x, y),
    }
}

/// The component of a path: `(0, _)` the root, `(1, _)` a leading `.`, `(2, _)` a `..`, `(3,
/// name)` a name; components are ordered by kind, then names by text.
pub open spec fn part_order(p: (int, Seq<char>), q: (int, Seq<char>)) -> int {
    if p.0 != q.0 {
        int_order(p.0, q.0)
    } else {
        text_order(p.1, q.1)
    }
}

/// `part_order` as a function value.
pub open spec fn parts_in_order() -> spec_fn((int, Seq<char>), (int, Seq<char>)) -> int {
    |p: (int, Seq<char>), q: (int, Seq<char>)| part_order(p, q)
}

/// A name of a path as a component: `..` or a plain name.
pub open spec fn name_part(p: Seq<char>) -> (int, Seq<char>) {
    if p == seq!['.', '.'] {
        (2, Seq::empty())
    } else {
        (3, p)
    }
}

/// The components of a path as `Path::components` gives them on Unix: the root, or a `.` that
/// starts a path without root, then its names, `..` among them.
pub open spec fn path_parts(s: Seq<char>) -> Seq<(int, Seq<char>)> {
    let head = if rooted(s) {
        seq![(0int, Seq::<char>::empty())]
    } else if split_char(s, '/')[0] == seq!['.'] {
        seq![(1int, Seq::<char>::empty())]
    } else {
        Seq::empty()
    };
    head + path_names(s).map_values(|p: Seq<char>| name_part(p))
}

/// The order of two books by a method of sorting.
pub open spec fn method_order(m: SortMethod, a: Info, b: Info) -> int {
    match m {
        SortMethod::Opened => opt_order(
            match a.reader {
                Some(r) => Some(r.opened as int),
                None => None,
            },
            match b.reader {
                Some(r) => Some(r.opened as int),
                None => None,
            },
            |x: int, y: int| int_order(x, y),
        ),
        SortMethod::Added => int_order(a.added as int, b.added as int),
        SortMethod::Pages => opt_order(
            match a.reader {
                Some(r) => Some(r.pages_count as int),
                None => None,
            },
            match b.reader {
                Some(r) => Some(r.pages_count as int),
                None => None,
            },
            |x: int, y: int| int_order(x, y),
        ),
        SortMethod::Author => text_order(sorting_author(a.author@), sorting_author(b.author@)),
        SortMethod::Title => text_order(
            a.title@.skip(article_len(a.language@, a.title@)),
            b.title@.skip(article_len(b.language@, b.title@)),
        ),
        SortMethod::Size => int_order(a.file.size as int, b.file.size as int),
        SortMethod::Kind => text_order(a.file.kind@, b.file.kind@),
        SortMethod::Year => text_order(a.year@, b.year@),
        SortMethod::FileName => opt_order(
            file_name_of(a.file.path@),
            file_name_of(b.file.path@),
            |x: Seq<char>, y: Seq<char>| text_order(x, y),
        ),
        SortMethod::FilePath => lex_order(
            path_parts(a.file.path@),
            path_parts(b.file.path@),
            parts_in_order(),
        ),
        SortMethod::Progress => 0,
    }
}

/// The order of a method of sorting, reversed when `reverse` is set.
pub open spec fn directed_order(m: SortMethod, reverse: bool, a: Info, b: Info) -> int {
    if reverse {
        -method_order(m, a, b)
    } else {
        method_order(m, a, b)
    }
}

pub(crate) proof fn lemma_lex_antisymmetric<T>(a: Seq<T>, b: Seq<T>, f: spec_fn(T, T) -> int)
    requires
        total_preorder(f),
    ensures
        -1 <= lex_order(a, b, f) <= 1,
        lex_order(a, b, f) == -lex_order(b, a, f),
    decreases a.len(),
{
    if a.len() > 0 && b.len() > 0 {
        assert(f(a[0], b[0]) == -f(b[0], a[0]));
        lemma_lex_antisymmetric(a.drop_first(), b.drop_first(), f);
    }
}

pub(crate) proof fn lemma_lex_transitive<T>(a: Seq<T>, b: Seq<T>, c: Seq<T>, f: spec_fn(T, T) -> int)
    requires
        total_preorder(f),
        lex_order(a, b, f) <= 0,
        lex_order(b, c, f) <= 0,
    ensures
        lex_order(a, c, f) <= 0,
    decreases a.len(),
{
    if a.len() > 0 && b.len() > 0 && c.len() > 0 {
        let (x, y, z) = (a[0], b[0], c[0]);
        assert(f(x, y) == -f(y, x));
        assert(f(y, z) == -f(z, y));
        assert(f(x, z) == -f(z, x));
        assert(f(x, y) <= 0 && f(y, z) <= 0 ==> f(x, z) <= 0);
        assert(f(z, x) <= 0 && f(x, y) <= 0 ==> f(z, y) <= 0);
        assert(f(y, z) <= 0 && f(z, x) <= 0 ==> f(y, x) <= 0);
        if f(x, y) == 0 && f(y, z) == 0 {
            lemma_lex_transitive(a.drop_first(), b.drop_first(), c.drop_first(), f);
        }
    }
}

/// Lexicographic order keeps a total order of the items total.
proof fn lemma_lex_total<T>(f: spec_fn(T, T) -> int)
    requires
        total_preorder(f),
    ensures
        total_preorder(|a: Seq<T>, b: Seq<T>| lex_order(a, b, f)),
{
    let g = |a: Seq<T>, b: Seq<T>| lex_order(a, b, f);
    assert forall|a: Seq<T>, b: Seq<T>| #![trigger g(a, b)] -1 <= g(a, b) <= 1 && g(a, b) == -g(b, a) by {
        lemma_lex_antisymmetric(a, b, f);
    }
    assert forall|a: Seq<T>, b: Seq<T>, c: Seq<T>| #![trigger g(a, b), g(b, c)] g(a, b) <= 0 && g(b, c) <= 0
        implies g(a, c) <= 0 by {
        lemma_lex_transitive(a, b, c, f);
    }
}

pub(crate) proof fn lemma_chars_total()
    ensures
        total_preorder(chars_in_order()),
{
}

proof fn lemma_parts_total()
    ensures
        total_preorder(parts_in_order()),
{
    lemma_chars_total();
    let f = parts_in_order();
    assert forall|p: (int, Seq<char>), q: (int, Seq<char>)| #![trigger f(p, q)] -1 <= f(p, q) <= 1 && f(p, q) == -f(q, p) by {
        lemma_lex_antisymmetric(p.1, q.1, chars_in_order());
    }
    assert forall|p: (int, Seq<char>), q: (int, Seq<char>), r: (int, Seq<char>)| #![trigger f(p, q), f(q, r)]
        f(p, q) <= 0 && f(q, r) <= 0 implies f(p, r) <= 0 by {
        if p.0 == q.0 && q.0 == r.0 {
            lemma_lex_transitive(p.1, q.1, r.1, chars_in_order());
        }
    }
}

/// Every method of sorting orders the books totally, ties allowed, and so does its reverse.
pub proof fn lemma_directed_order_total(m: SortMethod, reverse: bool)
    ensures
        total_preorder(|a: Info, b: Info| directed_order(m, reverse, a, b)),
{
    lemma_chars_total();
    lemma_parts_total();
    let ints = |x: int, y: int| int_order(x, y);
    let texts = |x: Seq<char>, y: Seq<char>| text_order(x, y);
    assert(total_preorder(ints));
    assert forall|x: Seq<char>, y: Seq<char>| #![trigger texts(x, y)] -1 <= texts(x, y) <= 1 && texts(x, y) == -texts(y, x) by {
        lemma_lex_antisymmetric(x, y, chars_in_order());
    }
    assert forall|x: Seq<char>, y: Seq<char>, z: Seq<char>| #![trigger texts(x, y), texts(y, z)]
        texts(x, y) <= 0 && texts(y, z) <= 0 implies texts(x, z) <= 0 by {
        lemma_lex_transitive(x, y, z, chars_in_order());
    }
    let d = |a: Info, b: Info| directed_order(m, reverse, a, b);
    assert forall|a: Info, b: Info| #![trigger d(a, b)] -1 <= d(a, b) <= 1 && d(a, b) == -d(b, a) by {
        match m {
            SortMethod::Author => lemma_lex_antisymmetric(sorting_author(a.author@), sorting_author(b.author@), chars_in_order()),
            SortMethod::Title => lemma_lex_antisymmetric(
                a.title@.skip(article_len(a.language@, a.title@)),
                b.title@.skip(article_len(b.language@, b.title@)),
                chars_in_order(),
            ),
            SortMethod::Kind => lemma_lex_antisymmetric(a.file.kind@, b.file.kind@, chars_in_order()),
            SortMethod::Year => lemma_lex_antisymmetric(a.year@, b.year@, chars_in_order()),
            SortMethod::FileName => {
                if let (Some(x), Some(y)) = (file_name_of(a.file.path@), file_name_of(b.file.path@)) {
                    lemma_lex_antisymmetric(x, y, chars_in_order());
                }
            },
            SortMethod::FilePath => lemma_lex_antisymmetric(
                path_parts(a.file.path@),
                path_parts(b.file.path@),
                parts_in_order(),
            ),
            _ => {},
        }
    }
    assert forall|a: Info, b: Info, c: Info| #![trigger d(a, b), d(b, c)] d(a, b) <= 0 && d(b, c) <= 0 implies d(
        a,
        c,
    ) <= 0 by {
        let (x, y, z) = if reverse {
            (c, b, a)
        } else {
            (a, b, c)
        };
        assert(method_order(m, x, y) <= 0 && method_order(m, y, z) <= 0) by {
            if reverse {
                assert(d(a, b) == -method_order(m, a, b));
                assert(d(b, c) == -method_order(m, b, c));
                assert(method_order(m, c, b) == -method_order(m, b, c)) by {
                    assert(d(c, b) == -d(b, c));
                }
                assert(method_order(m, b, a) == -method_order(m, a, b)) by {
                    assert(d(b, a) == -d(a, b));
                }
            }
        }
        match m {
            SortMethod::Author => lemma_lex_transitive(
                sorting_author(x.author@),
                sorting_author(y.author@),
                sorting_author(z.author@),
                chars_in_order(),
            ),
            SortMethod::Title => lemma_lex_transitive(
                x.title@.skip(article_len(x.language@, x.title@)),
                y.title@.skip(article_len(y.language@, y.title@)),
                z.title@.skip(article_len(z.language@, z.title@)),
                chars_in_order(),
            ),
            SortMethod::Kind => lemma_lex_transitive(x.file.kind@, y.file.kind@, z.file.kind@, chars_in_order()),
            SortMethod::Year => lemma_lex_transitive(x.year@, y.year@, z.year@, chars_in_order()),
            SortMethod::FileName => {
                if let (Some(p), Some(q), Some(r)) = (
                    file_name_of(x.file.path@),
                    file_name_of(y.file.path@),
                    file_name_of(z.file.path@),
                ) {
                    lemma_lex_transitive(p, q, r, chars_in_order());
                }
            },
            SortMethod::FilePath => lemma_lex_transitive(
                path_parts(x.file.path@),
                path_parts(y.file.path@),
                path_parts(z.file.path@),
                parts_in_order(),
            ),
            _ => {},
        }
        assert(method_order(m, x, z) <= 0);
        if reverse {
            assert(d(c, a) == method_order(m, c, a) * -1);
            assert(d(a, c) == -d(c, a));
        }
    }
}

/// The order of two integers as `-1`, `0` or `1`.
fn order_of_ints(a: i128, b: i128) -> (r: i8)
    ensures
        r == int_order(a as int, b as int),
{
    if a < b {
        -1
    } else if a == b {
        0
    } else {
        1
    }
}

/// Whether `x` comes before `y` by code point.
fn char_before(x: char, y: char) -> (b: bool)
    ensures
        b == ((x as int) < (y as int)),
{
    (x as u32) < (y as u32)
}

/// The order of two texts as `-1`, `0` or `1`.
pub(crate) fn order_of_texts(a: &str, b: &str) -> (r: i8)
    ensures
        r == text_order(a@, b@),
{
    let v = chars_of(a);
    let w = chars_of(b);
    let mut i: usize = 0;
    assert(v@.skip(0) =~= v@ && w@.skip(0) =~= w@);
    while i < v.len() && i < w.len() && v[i] == w[i]
        invariant
            0 <= i <= v@.len(),
            i <= w@.len(),
            v@ == a@,
            w@ == b@,
            text_order(a@, b@) == text_order(v@.skip(i as int), w@.skip(i as int)),
        decreases v@.len() - i,
    {
        proof {
            assert(v@.skip(i as int).drop_first() =~= v@.skip(i + 1));
            assert(w@.skip(i as int).drop_first() =~= w@.skip(i + 1));
        }
        i += 1;
    }
    proof {
        if i < v.len() && i < w.len() {
            assert(v@.skip(i as int)[0] == v@[i as int]);
            assert(w@.skip(i as int)[0] == w@[i as int]);
        }
    }
    if i == v.len() {
        if i == w.len() {
            0
        } else {
            -1
        }
    } else if i == w.len() {
        1
    } else if char_before(v[i], w[i]) {
        -1
    } else {
        1
    }
}

/// The components of a path, each as a kind and a name (see `part_order`).
fn parts_of(path: &str) -> (r: Vec<(u8, String)>)
    ensures
        r@.map_values(|p: (u8, String)| (p.0 as int, p.1@)) == path_parts(path@),
{
    let pieces = split_on(path, '/');
    let ghost sp = split_char(path@, '/');
    let v = chars_of(path);
    let mut r: Vec<(u8, String)> = Vec::new();
    proof {
        lemma_split_nonempty(path@, '/');
        reveal_strlit(".");
        assert("."@ =~= seq!['.']);
    }
    if v.len() > 0 && v[0] == '/' {
        r.push((0, String::new()));
    } else if str_eq(pieces[0].as_str(), ".") {
        r.push((1, String::new()));
    }
    let ghost head = r@.map_values(|p: (u8, String)| (p.0 as int, p.1@));
    assert(head == if rooted(path@) {
        seq![(0int, Seq::<char>::empty())]
    } else if sp[0] == seq!['.'] {
        seq![(1int, Seq::<char>::empty())]
    } else {
        Seq::<(int, Seq<char>)>::empty()
    });
    let ghost h = r@.len();
    let mut i: usize = 0;
    while i < pieces.len()
        invariant
            0 <= i <= pieces@.len(),
            string_views(pieces@) == sp,
            h <= r@.len(),
            r@.map_values(|p: (u8, String)| (p.0 as int, p.1@)) == head + sp.take(i as int).filter(
                keeps(),
            ).map_values(|p: Seq<char>| name_part(p)),
        decreases pieces@.len() - i,
    {
        let p = pieces[i].as_str();
        let ghost f = sp.take(i as int).filter(keeps());
        let ghost before = r@;
        proof {
            reveal_strlit("");
            reveal_strlit(".");
            reveal_strlit("..");
            assert(""@ =~= Seq::<char>::empty());
            assert("."@ =~= seq!['.']);
            assert(".."@ =~= seq!['.', '.']);
            assert(sp[i as int] == p@);
            assert(sp.take(i + 1) =~= sp.take(i as int).push(p@));
            sp.take(i as int).lemma_filter_push(p@, keeps());
        }
        if str_eq(p, "") || str_eq(p, ".") {
        } else {
            assert(p@.len() == 0 ==> p@ =~= Seq::<char>::empty());
            if str_eq(p, "..") {
                r.push((2, String::new()));
            } else {
                r.push((3, to_string(p)));
            }
            assert(f.push(p@).map_values(|p: Seq<char>| name_part(p)) =~= f.map_values(
                |p: Seq<char>| name_part(p),
            ).push(name_part(p@)));
            assert(r@.map_values(|p: (u8, String)| (p.0 as int, p.1@)) =~= before.map_values(
                |p: (u8, String)| (p.0 as int, p.1@),
            ).push(name_part(p@)));
        }
        i += 1;
    }
    assert(sp.take(sp.len() as int) =~= sp);
    r
}

proof fn lemma_split_nonempty(s: Seq<char>, c: char)
    ensures
        split_char(s, c).len() > 0,
{
    lemma_index_of(s, c);
}

/// The order of two lists of components as `-1`, `0` or `1`.
fn order_of_parts(a: &Vec<(u8, String)>, b: &Vec<(u8, String)>) -> (r: i8)
    ensures
        r == lex_order(
            a@.map_values(|p: (u8, String)| (p.0 as int, p.1@)),
            b@.map_values(|p: (u8, String)| (p.0 as int, p.1@)),
            parts_in_order(),
        ),
{
    let ghost va = a@.map_values(|p: (u8, String)| (p.0 as int, p.1@));
    let ghost vb = b@.map_values(|p: (u8, String)| (p.0 as int, p.1@));
    let mut i: usize = 0;
    assert(va.skip(0) =~= va && vb.skip(0) =~= vb);
    while i < a.len() && i < b.len()
        invariant
            0 <= i <= a@.len(),
            i <= b@.len(),
            va == a@.map_values(|p: (u8, String)| (p.0 as int, p.1@)),
            vb == b@.map_values(|p: (u8, String)| (p.0 as int, p.1@)),
            lex_order(va, vb, parts_in_order()) == lex_order(va.skip(i as int), vb.skip(i as int), parts_in_order()),
        decreases a@.len() - i,
    {
        let kind = order_of_ints(a[i].0 as i128, b[i].0 as i128);
        let o = if kind != 0 {
            kind
        } else {
            order_of_texts(a[i].1.as_str(), b[i].1.as_str())
        };
        proof {
            assert(va.skip(i as int)[0] == va[i as int]);
            assert(vb.skip(i as int)[0] == vb[i as int]);
            assert(o == part_order(va[i as int], vb[i as int]));
        }
        if o != 0 {
            return o;
        }
        proof {
            assert(va.skip(i as int).drop_first() =~= va.skip(i + 1));
            assert(vb.skip(i as int).drop_first() =~= vb.skip(i + 1));
        }
        i += 1;
    }
    if i == a.len() {
        if i == b.len() {
            0
        } else {
            -1
        }
    } else {
        1
    }
}

/// The value of an ordering: `-1` for less, `0` for equal, `1` for greater.
pub open spec fn ordering_value(o: Ordering) -> int {
    match o {
        Ordering::Less => -1,
        Ordering::Equal => 0,
        Ordering::Greater => 1,
    }
}

/// The ordering of a value `-1`, `0` or `1`.
fn ordering_of(r: i8) -> (o: Ordering)
    requires
        -1 <= r <= 1,
    ensures
        ordering_value(o) == r,
{
    if r < 0 {
        Ordering::Less
    } else if r == 0 {
        Ordering::Equal
    } else {
        Ordering::Greater
    }
}

/// The order of two optional numbers: none first.
fn order_of_opt_ints(a: Option<i128>, b: Option<i128>) -> (r: i8)
    ensures
        r == opt_order(
            match a {
                Some(x) => Some(x as int),
                None => None,
            },
            match b {
                Some(x) => Some(x as int),
                None => None,
            },
            |x: int, y: int| int_order(x, y),
        ),
{
    match (a, b) {
        (None, None) => 0,
        (None, Some(_)) => -1,
        (Some(_), None) => 1,
        (Some(x), Some(y)) => order_of_ints(x, y),
    }
}

/// When the books were last opened, as numbers.
fn opened_of(i: &Info) -> (r: Option<i128>)
    ensures
        r == match i.reader {
            Some(rd) => Some(rd.opened as i128),
            None => None,
        },
{
    match &i.reader {
        Some(rd) => Some(rd.opened as i128),
        None => None,
    }
}

/// The pages counts of the books, as numbers.
fn pages_of(i: &Info) -> (r: Option<i128>)
    ensures
        r == match i.reader {
            Some(rd) => Some(rd.pages_count as i128),
            None => None,
        },
{
    match &i.reader {
        Some(rd) => Some(rd.pages_count as i128),
        None => None,
    }
}

/// The date of addition as a number.
fn added_of(i: &Info) -> (r: i128)
    ensures
        r == i.added,
{
    i.added as i128
}

/// The file size as a number.
fn size_of_file(i: &Info) -> (r: i128)
    ensures
        r == i.file.size,
{
    i.file.size as i128
}

/// The order of the books by the method, as `-1`, `0` or `1`.
fn order_by(m: SortMethod, i1: &Info, i2: &Info) -> (r: i8)
    requires
        m != SortMethod::Progress,
    ensures
        r == method_order(m, *i1, *i2),
{
    match m {
        SortMethod::Opened => order_of_opt_ints(opened_of(i1), opened_of(i2)),
        SortMethod::Added => order_of_ints(added_of(i1), added_of(i2)),
        SortMethod::Pages => order_of_opt_ints(pages_of(i1), pages_of(i2)),
        SortMethod::Author => order_of_texts(i1.alphabetic_author(), i2.alphabetic_author()),
        SortMethod::Title => order_of_texts(i1.alphabetic_title(), i2.alphabetic_title()),
        SortMethod::Size => order_of_ints(size_of_file(i1), size_of_file(i2)),
        SortMethod::Kind => order_of_texts(i1.file.kind.as_str(), i2.file.kind.as_str()),
        SortMethod::Year => order_of_texts(i1.year.as_str(), i2.year.as_str()),
        SortMethod::FileName => {
            let a = file_name(i1.file.path.as_str());
            let b = file_name(i2.file.path.as_str());
            match (a, b) {
                (None, None) => 0,
                (None, Some(_)) => -1,
                (Some(_), None) => 1,
                (Some(x), Some(y)) => order_of_texts(x.as_str(), y.as_str()),
            }
        },
        SortMethod::FilePath => {
            let a = parts_of(i1.file.path.as_str());
            let b = parts_of(i2.file.path.as_str());
            order_of_parts(&a, &b)
        },
        SortMethod::Progress => 0,
    }
}


/// The order of a method of sorting on three books: between `-1` and `1`, of opposite signs
/// for swapped books, and going from one book to the next.
pub proof fn lemma_directed(m: SortMethod, reverse: bool, a: Info, b: Info, c: Info)
    ensures
        -1 <= directed_order(m, reverse, a, b) <= 1,
        directed_order(m, reverse, a, b) == -directed_order(m, reverse, b, a),
        directed_order(m, reverse, a, b) <= 0 && directed_order(m, reverse, b, c) <= 0 ==> directed_order(
            m,
            reverse,
            a,
            c,
        ) <= 0,
{
    lemma_directed_order_total(m, reverse);
    let d = |a: Info, b: Info| directed_order(m, reverse, a, b);
    assert(d(a, b) == directed_order(m, reverse, a, b));
    assert(d(b, a) == directed_order(m, reverse, b, a));
    assert(d(b, c) == directed_order(m, reverse, b, c));
    assert(d(a, c) == directed_order(m, reverse, a, c));
}

/// The order of two books by a method of sorting, reversed when `reverse` is set.
fn directed_by(m: SortMethod, reverse: bool, a: &Info, b: &Info) -> (r: i8)
    requires
        m != SortMethod::Progress,
    ensures
        r == directed_order(m, reverse, *a, *b),
{
    proof {
        lemma_directed(m, false, *a, *b, *b);
    }
    let o = order_by(m, a, b);
    if reverse {
        -o
    } else {
        o
    }
}

/// Books by the date they were last opened, those never opened first.
pub fn sort_opened(i1: &Info, i2: &Info) -> (o: Ordering)
    ensures
        ordering_value(o) == method_order(SortMethod::Opened, *i1, *i2),
{
    proof {
        lemma_directed(SortMethod::Opened, false, *i1, *i2, *i2);
    }
    ordering_of(order_by(SortMethod::Opened, i1, i2))
}

/// Books by the date they were added.
pub fn sort_added(i1: &Info, i2: &Info) -> (o: Ordering)
    ensures
        ordering_value(o) == method_order(SortMethod::Added, *i1, *i2),
{
    proof {
        lemma_directed(SortMethod::Added, false, *i1, *i2, *i2);
    }
    ordering_of(order_by(SortMethod::Added, i1, i2))
}

/// Books by their pages count, those never opened first.
pub fn sort_pages(i1: &Info, i2: &Info) -> (o: Ordering)
    ensures
        ordering_value(o) == method_order(SortMethod::Pages, *i1, *i2),
{
    proof {
        lemma_directed(SortMethod::Pages, false, *i1, *i2, *i2);
    }
    ordering_of(order_by(SortMethod::Pages, i1, i2))
}

/// Books by the name by which their author is sorted.
pub fn sort_author(i1: &Info, i2: &Info) -> (o: Ordering)
    ensures
        ordering_value(o) == method_order(SortMethod::Author, *i1, *i2),
{
    proof {
        lemma_directed(SortMethod::Author, false, *i1, *i2, *i2);
    }
    ordering_of(order_by(SortMethod::Author, i1, i2))
}

/// Books by their titles without the articles that start them.
pub fn sort_title(i1: &Info, i2: &Info) -> (o: Ordering)
    ensures
        ordering_value(o) == method_order(SortMethod::Title, *i1, *i2),
{
    proof {
        lemma_directed(SortMethod::Title, false, *i1, *i2, *i2);
    }
    ordering_of(order_by(SortMethod::Title, i1, i2))
}

/// Books by the size of their files.
pub fn sort_size(i1: &Info, i2: &Info) -> (o: Ordering)
    ensures
        ordering_value(o) == method_order(SortMethod::Size, *i1, *i2),
{
    proof {
        lemma_directed(SortMethod::Size, false, *i1, *i2, *i2);
    }
    ordering_of(order_by(SortMethod::Size, i1, i2))
}

/// Books by the kind of their files.
pub fn sort_kind(i1: &Info, i2: &Info) -> (o: Ordering)
    ensures
        ordering_value(o) == method_order(SortMethod::Kind, *i1, *i2),
{
    proof {
        lemma_directed(SortMethod::Kind, false, *i1, *i2, *i2);
    }
    ordering_of(order_by(SortMethod::Kind, i1, i2))
}

/// Books by their years, as texts.
pub fn sort_year(i1: &Info, i2: &Info) -> (o: Ordering)
    ensures
        ordering_value(o) == method_order(SortMethod::Year, *i1, *i2),
{
    proof {
        lemma_directed(SortMethod::Year, false, *i1, *i2, *i2);
    }
    ordering_of(order_by(SortMethod::Year, i1, i2))
}

/// Books by the names of their files, those without one first.
pub fn sort_filename(i1: &Info, i2: &Info) -> (o: Ordering)
    ensures
        ordering_value(o) == method_order(SortMethod::FileName, *i1, *i2),
{
    proof {
        lemma_directed(SortMethod::FileName, false, *i1, *i2, *i2);
    }
    ordering_of(order_by(SortMethod::FileName, i1, i2))
}

/// Books by the paths of their files, component by component.
pub fn sort_filepath(i1: &Info, i2: &Info) -> (o: Ordering)
    ensures
        ordering_value(o) == method_order(SortMethod::FilePath, *i1, *i2),
{
    proof {
        lemma_directed(SortMethod::FilePath, false, *i1, *i2, *i2);
    }
    ordering_of(order_by(SortMethod::FilePath, i1, i2))
}

/// The order of two books by a method of sorting.
pub fn sorter(sort_method: SortMethod, i1: &Info, i2: &Info) -> (o: Ordering)
    requires
        sort_method != SortMethod::Progress,
    ensures
        ordering_value(o) == method_order(sort_method, *i1, *i2),
{
    proof {
        lemma_directed(sort_method, false, *i1, *i2, *i2);
    }
    ordering_of(order_by(sort_method, i1, i2))
}

/// Whether the books of `s` are in the order of the method (reversed when `reverse` is set).
pub open spec fn sorted_by(s: Seq<Info>, m: SortMethod, reverse: bool) -> bool {
    forall|i: int, j: int| 0 <= i < j < s.len() ==> directed_order(m, reverse, s[i], s[j]) <= 0
}

/// Whether `p` takes each place of `after` to the place of `before` that held its book, no
/// two places to the same.
pub open spec fn rearranges(p: Seq<int>, before: Seq<Info>, after: Seq<Info>) -> bool {
    &&& p.len() == after.len() == before.len()
    &&& forall|k: int| 0 <= k < p.len() ==> 0 <= #[trigger] p[k] < before.len() && after[k] == before[p[k]]
    &&& forall|k: int, l: int| 0 <= k < l < p.len() ==> p[k] != p[l]
}

/// Whether books that the method ties keep, through `p`, the order that they had.
pub open spec fn keeps_ties(p: Seq<int>, s: Seq<Info>, m: SortMethod, reverse: bool) -> bool {
    forall|i: int, j: int|
        0 <= i < j < s.len() && directed_order(m, reverse, s[i], s[j]) == 0 ==> p[i] < p[j]
}

/// Sorts the books by a method, in decreasing order when `reverse_order` is set; books that
/// the method ties keep the order they had.
pub fn sort(md: &mut Vec<Info>, sort_method: SortMethod, reverse_order: bool)
    requires
        sort_method != SortMethod::Progress,
    ensures
        sorted_by(final(md)@, sort_method, reverse_order),
        exists|p: Seq<int>| rearranges(p, old(md)@, final(md)@) && keeps_ties(p, final(md)@, sort_method, reverse_order),
{
    let m = sort_method;
    let rev = reverse_order;
    let mut src: Vec<Info> = Vec::new();
    std::mem::swap(md, &mut src);
    let ghost orig = src@;
    let n = src.len();
    let mut out: Vec<Info> = Vec::new();
    let ghost mut perm: Seq<int> = Seq::empty();
    let mut i: usize = 0;
    assert(orig.skip(0) =~= orig);
    while i < n
        invariant
            m != SortMethod::Progress,
            n == orig.len(),
            0 <= i <= n,
            src@ == orig.skip(i as int),
            out@.len() == i,
            perm.len() == i,
            forall|k: int| 0 <= k < i ==> 0 <= #[trigger] perm[k] < i && out@[k] == orig[perm[k]],
            forall|k: int, l: int| 0 <= k < l < i ==> perm[k] != perm[l],
            sorted_by(out@, m, rev),
            keeps_ties(perm, out@, m, rev),
        decreases n - i,
    {
        let x = src.remove(0);
        assert(x == orig[i as int]);
        assert(orig.skip(i as int).remove(0) =~= orig.skip(i + 1));
        let mut pos: usize = 0;
        loop
            invariant
                m != SortMethod::Progress,
                0 <= pos <= out@.len(),
                forall|k: int| 0 <= k < pos ==> directed_order(m, rev, #[trigger] out@[k], x) <= 0,
            ensures
                0 <= pos <= out@.len(),
                forall|k: int| 0 <= k < pos ==> directed_order(m, rev, #[trigger] out@[k], x) <= 0,
                pos < out@.len() ==> directed_order(m, rev, out@[pos as int], x) > 0,
            decreases out@.len() - pos,
        {
            if pos >= out.len() {
                break;
            }
            if directed_by(m, rev, &out[pos], &x) > 0 {
                break;
            }
            pos += 1;
        }
        let ghost old_out = out@;
        proof {
            assert forall|k: int| pos <= k < old_out.len() implies directed_order(m, rev, #[trigger] old_out[k], x) > 0 by {
                lemma_directed(m, rev, old_out[pos as int], old_out[k], x);
                if k > pos {
                    assert(directed_order(m, rev, old_out[pos as int], old_out[k]) <= 0);
                }
            }
        }
        out.insert(pos, x);
        proof {
            let new_perm = perm.insert(pos as int, i as int);
            let s = out@;
            assert(s == old_out.insert(pos as int, x));
            assert forall|a: int, b: int| 0 <= a < b < s.len() implies directed_order(m, rev, s[a], s[b]) <= 0 by {
                if b < pos {
                    assert(s[a] == old_out[a] && s[b] == old_out[b]);
                } else if b == pos {
                    assert(s[a] == old_out[a]);
                } else if a == pos {
                    assert(s[b] == old_out[b - 1]);
                    lemma_directed(m, rev, x, old_out[b - 1], x);
                } else if a < pos {
                    assert(s[a] == old_out[a] && s[b] == old_out[b - 1]);
                } else {
                    assert(s[a] == old_out[a - 1] && s[b] == old_out[b - 1]);
                }
            }
            assert forall|a: int, b: int|
                0 <= a < b < s.len() && directed_order(m, rev, s[a], s[b]) == 0 implies new_perm[a] < new_perm[b] by {
                if b < pos {
                    assert(s[a] == old_out[a] && s[b] == old_out[b]);
                } else if b == pos {
                    assert(new_perm[b] == i);
                    assert(new_perm[a] == perm[a]);
                } else if a == pos {
                    assert(s[b] == old_out[b - 1]);
                    lemma_directed(m, rev, x, old_out[b - 1], x);
                } else if a < pos {
                    assert(s[a] == old_out[a] && s[b] == old_out[b - 1]);
                    assert(new_perm[a] == perm[a] && new_perm[b] == perm[b - 1]);
                } else {
                    assert(s[a] == old_out[a - 1] && s[b] == old_out[b - 1]);
                    assert(new_perm[a] == perm[a - 1] && new_perm[b] == perm[b - 1]);
                }
            }
            assert forall|k: int| 0 <= k < i + 1 implies 0 <= #[trigger] new_perm[k] < i + 1 && s[k] == orig[new_perm[k]] by {
                if k < pos {
                    assert(new_perm[k] == perm[k]);
                } else if k > pos {
                    assert(new_perm[k] == perm[k - 1]);
                }
            }
            assert forall|k: int, l: int| 0 <= k < l < i + 1 implies new_perm[k] != new_perm[l] by {
                if k < pos && l < pos {
                } else if k < pos && l == pos {
                    assert(new_perm[k] == perm[k]);
                } else if k < pos {
                    assert(new_perm[k] == perm[k] && new_perm[l] == perm[l - 1]);
                } else if k == pos {
                    assert(new_perm[l] == perm[l - 1]);
                } else {
                    assert(new_perm[k] == perm[k - 1] && new_perm[l] == perm[l - 1]);
                }
            }
            perm = new_perm;
        }
        i += 1;
    }
    *md = out;
    assert(rearranges(perm, orig, md@));
}


/// The rank of a status in the order of progress: finished books first, then new ones, then
/// those being read.
pub open spec fn status_rank(s: SimpleStatus) -> int {
    match s {
        SimpleStatus::Finished => 0,
        SimpleStatus::New => 1,
        SimpleStatus::Reading => 2,
    }
}

/// The order of two books by progress where their statuses decide it: finished books first,
/// then new ones, then those being read; none for two books being read, which the fraction
/// read of each decides.
pub fn progress_order(i1: &Info, i2: &Info) -> (r: Option<Ordering>)
    ensures
        match r {
            Some(o) => !(simple_status_of(i1.reader) == SimpleStatus::Reading && simple_status_of(i2.reader)
                == SimpleStatus::Reading) && ordering_value(o) == int_order(
                status_rank(simple_status_of(i1.reader)),
                status_rank(simple_status_of(i2.reader)),
            ),
            None => simple_status_of(i1.reader) == SimpleStatus::Reading && simple_status_of(i2.reader)
                == SimpleStatus::Reading,
        },
{
    let rank = |s: SimpleStatus| -> (k: i8)
        ensures
            k == status_rank(s),
    {
        match s {
            SimpleStatus::Finished => 0,
            SimpleStatus::New => 1,
            SimpleStatus::Reading => 2,
        }
    };
    let s1 = i1.simple_status();
    let s2 = i2.simple_status();
    if s1 == SimpleStatus::Reading && s2 == SimpleStatus::Reading {
        return None;
    }
    let (k1, k2) = (rank(s1), rank(s2));
    Some(ordering_of(if k1 < k2 { -1 } else if k1 == k2 { 0 } else { 1 }))
}


/// Sorting by pages compares the page counts of the books: of two opened books the one with
/// fewer pages comes first, whatever their dates; books never opened come before opened ones.
pub proof fn lemma_pages_order(a: Info, b: Info)
    ensures
        a.reader is Some && b.reader is Some ==> {
            let (p, q) = (a.reader->0.pages_count, b.reader->0.pages_count);
            &&& (method_order(SortMethod::Pages, a, b) < 0 <==> p < q)
            &&& (method_order(SortMethod::Pages, a, b) == 0 <==> p == q)
            &&& (method_order(SortMethod::Pages, a, b) > 0 <==> p > q)
        },
        a.reader is None && b.reader is Some ==> method_order(SortMethod::Pages, a, b) < 0,
        a.reader is None && b.reader is None ==> method_order(SortMethod::Pages, a, b) == 0,
{
}

/// Sorting by the opening date compares the dates on which the books were last opened: of two
/// opened books the one opened first comes first, whatever their page counts; books never
/// opened come before opened ones.
pub proof fn lemma_opened_order(a: Info, b: Info)
    ensures
        a.reader is Some && b.reader is Some ==> {
            let (p, q) = (a.reader->0.opened, b.reader->0.opened);
            &&& (method_order(SortMethod::Opened, a, b) < 0 <==> p < q)
            &&& (method_order(SortMethod::Opened, a, b) == 0 <==> p == q)
            &&& (method_order(SortMethod::Opened, a, b) > 0 <==> p > q)
        },
        a.reader is None && b.reader is Some ==> method_order(SortMethod::Opened, a, b) < 0,
        a.reader is None && b.reader is None ==> method_order(SortMethod::Opened, a, b) == 0,
{
}

/// Sorting by the date added, or by size, compares those numbers: the smaller comes first.
pub proof fn lemma_added_and_size_orders(a: Info, b: Info)
    ensures
        method_order(SortMethod::Added, a, b) < 0 <==> a.added < b.added,
        method_order(SortMethod::Added, a, b) == 0 <==> a.added == b.added,
        method_order(SortMethod::Size, a, b) < 0 <==> a.file.size < b.file.size,
        method_order(SortMethod::Size, a, b) == 0 <==> a.file.size == b.file.size,
{
}

} // verus!
