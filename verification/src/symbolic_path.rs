use vstd::prelude::*;
use crate::chars::{chars_of, find_char, index_of, lemma_index_of, push_one, push_str, to_string};

verus! {

broadcast use vstd::string::group_string_axioms;

/// The separator of the components of a symbolic path, as in `a.b.c`.
pub const PATH_SEPARATOR: char = '.';

/// The position of the last `c` in `s`.
pub open spec fn last_index_of(s: Seq<char>, c: char) -> Option<int>
    decreases s.len(),
{
    if s.len() == 0 {
        None
    } else if s.last() == c {
        Some(s.len() - 1)
    } else {
        last_index_of(s.drop_last(), c)
    }
}

pub proof fn lemma_last_index_of(s: Seq<char>, c: char)
    ensures
        last_index_of(s, c) matches Some(i) ==> 0 <= i < s.len() && s[i] == c && forall|j: int|
            i < j < s.len() ==> s[j] != c,
        last_index_of(s, c) is None ==> forall|j: int| 0 <= j < s.len() ==> s[j] != c,
    decreases s.len(),
{
    if s.len() > 0 && s.last() != c {
        lemma_last_index_of(s.drop_last(), c);
        assert forall|j: int| 0 <= j < s.len() - 1 implies s[j] == s.drop_last()[j] by {}
    }
}

/// The number of occurrences of `c` in `s`.
pub open spec fn count_char(s: Seq<char>, c: char) -> nat
    decreases s.len(),
{
    if s.len() == 0 {
        0
    } else {
        count_char(s.drop_last(), c) + if s.last() == c {
            1nat
        } else {
            0nat
        }
    }
}

/// The parent of a path: the path without its last component.
pub open spec fn path_parent(s: Seq<char>) -> Option<Seq<char>> {
    match last_index_of(s, PATH_SEPARATOR) {
        Some(i) => Some(s.take(i)),
        None => None,
    }
}

/// Whether `s` lies below `other`: it starts with `other` followed by a separator.
pub open spec fn path_is_descendant_of(s: Seq<char>, other: Seq<char>) -> bool {
    other.len() < s.len() && s.take(other.len() as int) == other && s[other.len() as int]
        == PATH_SEPARATOR
}

pub open spec fn path_first_component(s: Seq<char>) -> Seq<char> {
    match index_of(s, PATH_SEPARATOR) {
        Some(i) => s.take(i),
        None => s,
    }
}

pub open spec fn path_last_component(s: Seq<char>) -> Seq<char> {
    match last_index_of(s, PATH_SEPARATOR) {
        Some(i) => s.skip(i + 1),
        None => s,
    }
}

/// Paths whose components are separated by dots, such as the category `a.b.c`.
pub trait SymbolicPath {
    fn parent(&self) -> Option<&str>;

    fn ancestors(&self) -> Ancestors<'_>;

    fn is_child_of(&self, other: &str) -> bool;

    fn is_descendant_of(&self, other: &str) -> bool;

    fn first_component(&self) -> &str;

    fn last_component(&self) -> &str;

    fn join(&self, other: &str) -> String;

    fn depth(&self) -> usize;
}

/// The ancestors of a path, the nearest first.
pub struct Ancestors<'a> {
    next: Option<&'a str>,
}

impl<'a> Ancestors<'a> {
    pub closed spec fn pending(self) -> Option<Seq<char>> {
        match self.next {
            Some(s) => Some(s@),
            None => None,
        }
    }

    /// The next ancestor, if any; the one after it is its parent.
    pub fn next(&mut self) -> (r: Option<&'a str>)
        ensures
            match r {
                Some(s) => old(self).pending() == Some(s@) && final(self).pending() == path_parent(
                    s@,
                ),
                None => old(self).pending() is None && final(self).pending() is None,
            },
    {
        let next = self.next;
        self.next = match next {
            Some(s) => s.parent(),
            None => None,
        };
        next
    }
}

/// The last separator of `v[..]`, searched from the end.
pub(crate) fn rfind_separator(v: &Vec<char>) -> (r: Option<usize>)
    ensures
        match last_index_of(v@, PATH_SEPARATOR) {
            Some(i) => r == Some(i as usize),
            None => r is None,
        },
        r matches Some(k) ==> last_index_of(v@, '.') == Some(k as int) && k < v@.len(),
        r is None ==> last_index_of(v@, '.') is None,
{
    proof {
        lemma_last_index_of(v@, PATH_SEPARATOR);
    }
    let mut i = v.len();
    while i > 0
        invariant
            0 <= i <= v@.len(),
            forall|j: int| i <= j < v@.len() ==> v@[j] != PATH_SEPARATOR,
        decreases i,
    {
        if v[i - 1] == PATH_SEPARATOR {
            proof {
                lemma_last_index_of(v@, PATH_SEPARATOR);
                match last_index_of(v@, PATH_SEPARATOR) {
                    Some(k) => {
                        assert(v@[k] == PATH_SEPARATOR);
                        assert(k == i - 1);
                    },
                    None => {
                        assert(v@[i - 1] != PATH_SEPARATOR);
                    },
                }
            }
            return Some(i - 1);
        }
        i -= 1;
    }
    proof {
        if let Some(k) = last_index_of(v@, PATH_SEPARATOR) {
            assert(v@[k] == PATH_SEPARATOR);
        }
    }
    None
}

impl SymbolicPath for str {
    fn parent(&self) -> (r: Option<&str>)
        ensures
            match r {
                Some(p) => path_parent(self@) == Some(p@),
                None => path_parent(self@) is None,
            },
    {
        let v = chars_of(self);
        match rfind_separator(&v) {
            Some(index) => {
                proof {
                    lemma_last_index_of(v@, PATH_SEPARATOR);
                }
                let p = self.substring_char(0, index);
                assert(p@ =~= self@.take(index as int));
                assert(last_index_of(self@, PATH_SEPARATOR) == Some(index as int));
                assert(path_parent(self@) == Some(p@));
                Some(p)
            },
            None => None,
        }
    }

    fn ancestors(&self) -> (a: Ancestors<'_>)
        ensures
            a.pending() == path_parent(self@),
    {
        Ancestors { next: self.parent() }
    }

    fn is_child_of(&self, other: &str) -> (b: bool)
        ensures
            b == (path_parent(self@) == Some(other@)),
    {
        if let Some(p) = self.parent() {
            crate::chars::str_eq(p, other)
        } else {
            false
        }
    }

    fn join(&self, other: &str) -> (s: String)
        ensures
            s@ == self@ + seq![PATH_SEPARATOR] + other@,
    {
        let mut s = to_string(self);
        push_one(&mut s, PATH_SEPARATOR);
        push_str(&mut s, other);
        s
    }

    fn is_descendant_of(&self, other: &str) -> (b: bool)
        ensures
            b == path_is_descendant_of(self@, other@),
    {
        let v = chars_of(self);
        let w = chars_of(other);
        if w.len() >= v.len() {
            return false;
        }
        let prefix = crate::chars::range_eq(&v, 0, w.len(), other);
        assert(v@.subrange(0, w@.len() as int) =~= v@.take(w@.len() as int));
        let sep = v[w.len()] == PATH_SEPARATOR;
        prefix && sep
    }

    fn first_component(&self) -> (s: &str)
        ensures
            s@ == path_first_component(self@),
    {
        let v = chars_of(self);
        assert(v@.subrange(0, v@.len() as int) =~= v@);
        proof {
            lemma_index_of(v@, PATH_SEPARATOR);
        }
        match find_char(&v, 0, v.len(), PATH_SEPARATOR) {
            Some(index) => {
                let p = self.substring_char(0, index);
                assert(p@ =~= self@.take(index as int));
                p
            },
            None => self,
        }
    }

    fn last_component(&self) -> (s: &str)
        ensures
            s@ == path_last_component(self@),
    {
        let v = chars_of(self);
        match rfind_separator(&v) {
            Some(index) => {
                proof {
                    lemma_last_index_of(v@, PATH_SEPARATOR);
                }
                let p = self.substring_char(index + 1, v.len());
                assert(p@ =~= self@.skip(index + 1));
                p
            },
            None => self,
        }
    }

    fn depth(&self) -> (d: usize)
        ensures
            d == count_char(self@, PATH_SEPARATOR),
    {
        let v = chars_of(self);
        let mut n: usize = 0;
        let mut i: usize = 0;
        while i < v.len()
            invariant
                0 <= i <= v@.len(),
                n == count_char(v@.take(i as int), PATH_SEPARATOR),
                n <= i,
            decreases v@.len() - i,
        {
            assert(v@.take((i + 1) as int).drop_last() =~= v@.take(i as int));
            if v[i] == PATH_SEPARATOR {
                n += 1;
            }
            i += 1;
        }
        assert(v@.take(v@.len() as int) =~= v@);
        n
    }
}

/// A child lies below its parent, and joining a path with a component gives a child of it.
pub proof fn lemma_join_is_child(parent: Seq<char>, component: Seq<char>)
    requires
        !component.contains(PATH_SEPARATOR),
    ensures
        path_parent(parent + seq![PATH_SEPARATOR] + component) == Some(parent),
        path_last_component(parent + seq![PATH_SEPARATOR] + component) == component,
        path_is_descendant_of(parent + seq![PATH_SEPARATOR] + component, parent),
{
    let s = parent + seq![PATH_SEPARATOR] + component;
    lemma_last_index_of(s, PATH_SEPARATOR);
    let k = parent.len() as int;
    assert(s[k] == PATH_SEPARATOR);
    assert forall|j: int| k < j < s.len() implies s[j] != PATH_SEPARATOR by {
        assert(s[j] == component[j - k - 1]);
    }
    match last_index_of(s, PATH_SEPARATOR) {
        Some(i) => {
            if i > k {
                assert(s[i] != PATH_SEPARATOR);
            }
            if i < k {
                assert(s[k] != PATH_SEPARATOR);
            }
        },
        None => {},
    }
    assert(s.take(k) =~= parent);
    assert(s.skip(k + 1) =~= component);
}

/// A child lies below its parent: `is_child_of` implies `is_descendant_of`.
pub proof fn lemma_child_is_descendant(s: Seq<char>, other: Seq<char>)
    requires
        path_parent(s) == Some(other),
    ensures
        path_is_descendant_of(s, other),
{
    lemma_last_index_of(s, PATH_SEPARATOR);
    let i = last_index_of(s, PATH_SEPARATOR)->0;
    assert(other == s.take(i));
    assert(s.take(other.len() as int) =~= other);
}

} // verus!
