//! Which style rules apply to a node, and the properties that declarations set.
use vstd::prelude::*;
use crate::chars::{chars_of, string_of, str_eq, is_whitespace, char_is_whitespace, split_char, string_views, push_str, to_string};
use crate::css::{SimpleSelector, SimpleSelectorView};
use crate::dom::{Node, tag_name_of, attr_of};
use crate::strmap::StringMap;

verus! {

/// The values of the properties of a node, by property name.
pub type PropertyMap = StringMap;

/// The class names of a node (none when it has no `class` attribute).
pub open spec fn node_classes(n: Node) -> Seq<Seq<char>> {
    match attr_of(n, "class"@) {
        Some(t) => split_char(t, ' '),
        None => Seq::empty(),
    }
}

/// A node matches a simple selector when it has the selector's tag name, class names and
/// id, each of them that the selector gives.
pub open spec fn matches_simple(n: Node, sel: SimpleSelectorView) -> bool {
    &&& sel.tag_name matches Some(t) ==> tag_name_of(n) == Some(t)
    &&& forall|k: int| 0 <= k < sel.classes.len() ==> node_classes(n).contains(#[trigger] sel.classes[k])
    &&& sel.id matches Some(i) ==> attr_of(n, "id"@) == Some(i)
}

/// Whether `s` holds a string that reads `x`.
fn contains_str(s: &Vec<String>, x: &str) -> (b: bool)
    ensures
        b == string_views(s@).contains(x@),
{
    let mut k: usize = 0;
    while k < s.len()
        invariant
            0 <= k <= s@.len(),
            forall|j: int| 0 <= j < k ==> s@[j]@ != x@,
        decreases s@.len() - k,
    {
        if str_eq(s[k].as_str(), x) {
            assert(string_views(s@)[k as int] == x@);
            return true;
        }
        k += 1;
    }
    proof {
        if string_views(s@).contains(x@) {
            let j = choose|j: int| 0 <= j < string_views(s@).len() && string_views(s@)[j] == x@;
            assert(s@[j]@ == x@);
        }
    }
    false
}

/// Whether a node matches a simple selector.
pub fn matches_simple_selector(node: &Node, selector: &SimpleSelector) -> (b: bool)
    ensures
        b == matches_simple(*node, selector@),
{
    match &selector.tag_name {
        Some(name) => match node.tag_name() {
            Some(t) => if !str_eq(t, name.as_str()) {
                return false;
            },
            None => {
                return false;
            },
        },
        None => {},
    }
    let class_names = match node.classes() {
        Some(c) => c,
        None => Vec::new(),
    };
    assert(string_views(class_names@) == node_classes(*node)) by {
        if attr_of(*node, "class"@) is None {
            assert(string_views(class_names@) =~= Seq::<Seq<char>>::empty());
        }
    }
    let mut k: usize = 0;
    while k < selector.classes.len()
        invariant
            0 <= k <= selector.classes@.len(),
            string_views(class_names@) == node_classes(*node),
            forall|j: int| 0 <= j < k ==> node_classes(*node).contains(#[trigger] selector@.classes[j]),
        decreases selector.classes@.len() - k,
    {
        assert(selector@.classes[k as int] == selector.classes@[k as int]@);
        if !contains_str(&class_names, selector.classes[k].as_str()) {
            return false;
        }
        k += 1;
    }
    match &selector.id {
        Some(id) => match node.id() {
            Some(i) => str_eq(i, id.as_str()),
            None => false,
        },
        None => true,
    }
}

/// The length of the run of characters that are not white space at the start of `s`.
pub open spec fn word_end(s: Seq<char>) -> nat
    decreases s.len(),
{
    if s.len() == 0 || is_whitespace(s[0]) {
        0
    } else {
        1 + word_end(s.drop_first())
    }
}

/// The words of `s`: its maximal runs of characters that are not white space, in order.
pub open spec fn words(s: Seq<char>) -> Seq<Seq<char>>
    decreases s.len(),
{
    if s.len() == 0 {
        Seq::empty()
    } else if is_whitespace(s[0]) {
        words(s.drop_first())
    } else {
        let k = word_end(s);
        if 0 < k <= s.len() {
            seq![s.take(k as int)] + words(s.skip(k as int))
        } else {
            seq![s]
        }
    }
}

proof fn lemma_word_end_bound(s: Seq<char>)
    ensures
        word_end(s) <= s.len(),
        s.len() > 0 && !is_whitespace(s[0]) ==> word_end(s) > 0,
    decreases s.len(),
{
    if s.len() > 0 && !is_whitespace(s[0]) {
        lemma_word_end_bound(s.drop_first());
    }
}

/// The words of `s`, as `str::split_whitespace` gives them.
pub fn split_words(s: &str) -> (r: Vec<String>)
    ensures
        string_views(r@) == words(s@),
{
    let v = chars_of(s);
    let n = v.len();
    let mut r: Vec<String> = Vec::new();
    let mut pos: usize = 0;
    assert(v@.skip(0) =~= v@);
    assert(string_views(r@) + words(v@) =~= words(v@));
    while pos < n
        invariant
            v@ == s@,
            n == v@.len(),
            0 <= pos <= n,
            string_views(r@) + words(v@.skip(pos as int)) == words(v@),
        decreases n - pos,
    {
        if char_is_whitespace(v[pos]) {
            assert(v@.skip(pos as int).drop_first() =~= v@.skip(pos + 1));
            pos += 1;
        } else {
            let mut e = pos;
            while e < n && !char_is_whitespace(v[e])
                invariant
                    pos <= e <= n,
                    n == v@.len(),
                    word_end(v@.skip(pos as int)) == (e - pos) + word_end(v@.skip(e as int)),
                decreases n - e,
            {
                assert(v@.skip(e as int).drop_first() =~= v@.skip(e + 1));
                e += 1;
            }
            proof {
                let w = v@.skip(pos as int);
                lemma_word_end_bound(w);
                assert(word_end(v@.skip(e as int)) == 0);
                assert(w.take((e - pos) as int) =~= v@.subrange(pos as int, e as int));
                assert(w.skip((e - pos) as int) =~= v@.skip(e as int));
            }
            let word = string_of(&v, pos, e);
            let ghost before = r@;
            r.push(word);
            assert(string_views(r@) =~= string_views(before).push(word@));
            assert(string_views(r@) + words(v@.skip(e as int)) =~= string_views(before) + words(
                v@.skip(pos as int),
            ));
            pos = e;
        }
    }
    assert(words(v@.skip(n as int)) =~= Seq::<Seq<char>>::empty()) by {
        assert(v@.skip(n as int).len() == 0);
    }
    assert(string_views(r@) + Seq::<Seq<char>>::empty() =~= string_views(r@));
    r
}

/// The properties that a declaration sets, in order: `margin` and `padding` stand for their
/// four sides, given by one, two, three or four words (another count sets nothing).
pub open spec fn expansion(name: Seq<char>, value: Seq<char>) -> Seq<(Seq<char>, Seq<char>)> {
    if name == "margin"@ || name == "padding"@ {
        let w = words(value);
        let top = name + "-top"@;
        let right = name + "-right"@;
        let bottom = name + "-bottom"@;
        let left = name + "-left"@;
        if w.len() == 1 {
            seq![(top, value), (right, value), (bottom, value), (left, value)]
        } else if w.len() == 2 {
            seq![(top, w[0]), (right, w[1]), (bottom, w[0]), (left, w[1])]
        } else if w.len() == 3 {
            seq![(top, w[0]), (right, w[1]), (bottom, w[2]), (left, w[1])]
        } else if w.len() == 4 {
            seq![(top, w[0]), (right, w[1]), (bottom, w[2]), (left, w[3])]
        } else {
            Seq::empty()
        }
    } else {
        seq![(name, value)]
    }
}

/// A map with the pairs of `s` set in order.
pub open spec fn insert_all(m: Map<Seq<char>, Seq<char>>, s: Seq<(Seq<char>, Seq<char>)>) -> Map<
    Seq<char>,
    Seq<char>,
>
    decreases s.len(),
{
    if s.len() == 0 {
        m
    } else {
        insert_all(m, s.drop_last()).insert(s.last().0, s.last().1)
    }
}

/// Sets `name-side` to `value` in `props`.
fn insert_side(props: &mut PropertyMap, name: &str, side: &str, value: &str)
    ensures
        final(props)@ == old(props)@.insert(name@ + side@, value@),
{
    let mut key = to_string(name);
    push_str(&mut key, side);
    props.insert(key, to_string(value));
}

/// Sets the properties of a declaration in `props`.
pub fn expand_and_insert(name: &str, value: &str, props: &mut PropertyMap)
    ensures
        final(props)@ == insert_all(old(props)@, expansion(name@, value@)),
{
    let ghost m0 = props@;
    if str_eq(name, "margin") || str_eq(name, "padding") {
        let values = split_words(value);
        let ghost w = words(value@);
        assert(string_views(values@) == w);
        if values.len() >= 1 && values.len() <= 4 {
            let n = values.len();
            let top = if n == 1 {
                value
            } else {
                values[0].as_str()
            };
            let right = if n == 1 {
                value
            } else {
                values[1].as_str()
            };
            let bottom = if n == 1 {
                value
            } else if n == 2 {
                values[0].as_str()
            } else {
                values[2].as_str()
            };
            let left = if n == 1 {
                value
            } else if n == 4 {
                values[3].as_str()
            } else {
                values[1].as_str()
            };
            proof {
                if n >= 2 {
                    assert(values@[0]@ == w[0]);
                    assert(values@[1]@ == w[1]);
                }
                if n >= 3 {
                    assert(values@[2]@ == w[2]);
                }
                if n == 4 {
                    assert(values@[3]@ == w[3]);
                }
            }
            insert_side(props, name, "-top", top);
            insert_side(props, name, "-right", right);
            insert_side(props, name, "-bottom", bottom);
            insert_side(props, name, "-left", left);
            proof {
                let s = expansion(name@, value@);
                assert(s.len() == 4);
                assert(s.drop_last().drop_last().drop_last().drop_last() =~= Seq::empty());
                assert(s.drop_last().drop_last().drop_last() =~= seq![s[0]]);
                assert(s.drop_last().drop_last() =~= seq![s[0], s[1]]);
                assert(s.drop_last() =~= seq![s[0], s[1], s[2]]);
                reveal_with_fuel(insert_all, 5);
            }
        } else {
            assert(expansion(name@, value@) =~= Seq::empty());
        }
    } else {
        props.insert(to_string(name), to_string(value));
        proof {
            let s = expansion(name@, value@);
            assert(s.drop_last() =~= Seq::empty());
            reveal_with_fuel(insert_all, 2);
        }
    }
}

} // verus!
