//! A map from strings to strings, kept as a list of pairs with distinct keys.
use vstd::prelude::*;
use crate::chars::str_eq;

verus! {

/// A map from strings to strings.
#[derive(Debug)]
pub struct StringMap {
    pairs: Vec<(String, String)>,
}

/// The keys of a list of pairs.
pub open spec fn pair_keys(s: Seq<(String, String)>) -> Seq<Seq<char>> {
    s.map_values(|p: (String, String)| p.0@)
}

/// The map that a list of pairs with distinct keys stands for.
pub open spec fn pairs_map(s: Seq<(String, String)>) -> Map<Seq<char>, Seq<char>>
    decreases s.len(),
{
    if s.len() == 0 {
        Map::empty()
    } else {
        pairs_map(s.drop_last()).insert(s.last().0@, s.last().1@)
    }
}

/// In a list of pairs with distinct keys, the map holds each pair and nothing else.
proof fn lemma_pairs_map(s: Seq<(String, String)>)
    requires
        pair_keys(s).no_duplicates(),
    ensures
        forall|k: Seq<char>|
            #![trigger pairs_map(s).dom().contains(k)]
            pairs_map(s).dom().contains(k) <==> pair_keys(s).contains(k),
        forall|j: int| 0 <= j < s.len() ==> #[trigger] pairs_map(s)[s[j].0@] == s[j].1@,
    decreases s.len(),
{
    if s.len() > 0 {
        let d = s.drop_last();
        assert(pair_keys(d) =~= pair_keys(s).drop_last());
        lemma_pairs_map(d);
        let n = s.len() as int;
        assert(pair_keys(s)[n - 1] == s.last().0@);
        assert forall|k: Seq<char>| pairs_map(s).dom().contains(k) <==> pair_keys(s).contains(k) by {
            assert(pairs_map(s).dom().contains(k) <==> (pairs_map(d).dom().contains(k) || k == s.last().0@));
            if pair_keys(d).contains(k) {
                let j = choose|j: int| 0 <= j < pair_keys(d).len() && pair_keys(d)[j] == k;
                assert(pair_keys(s)[j] == k);
            }
            if pair_keys(s).contains(k) {
                let j = choose|j: int| 0 <= j < pair_keys(s).len() && pair_keys(s)[j] == k;
                if j < s.len() - 1 {
                    assert(pair_keys(d)[j] == k);
                }
            }
        }
        assert forall|j: int| 0 <= j < s.len() implies #[trigger] pairs_map(s)[s[j].0@] == s[j].1@ by {
            if j < n - 1 {
                assert(pair_keys(s)[j] != pair_keys(s)[n - 1]);
                assert(d[j] == s[j]);
                assert(pair_keys(d)[j] == s[j].0@);
                assert(pairs_map(d).dom().contains(d[j].0@));
                assert(pairs_map(d)[d[j].0@] == d[j].1@);
            }
        }
    }
}

impl View for StringMap {
    type V = Map<Seq<char>, Seq<char>>;

    closed spec fn view(&self) -> Map<Seq<char>, Seq<char>> {
        pairs_map(self.pairs@)
    }
}

impl StringMap {
    #[verifier::type_invariant]
    spec fn distinct_keys(self) -> bool {
        pair_keys(self.pairs@).no_duplicates()
    }

    /// An empty map.
    pub fn new() -> (m: StringMap)
        ensures
            m@ == Map::<Seq<char>, Seq<char>>::empty(),
    {
        let m = StringMap { pairs: Vec::new() };
        assert(pair_keys(m.pairs@) =~= Seq::<Seq<char>>::empty());
        m
    }

    /// The number of keys.
    pub fn len(&self) -> (n: usize)
        ensures
            n == self@.dom().len(),
    {
        proof {
            use_type_invariant(self);
            lemma_pairs_map(self.pairs@);
            assert(self@.dom() =~= pair_keys(self.pairs@).to_set());
            pair_keys(self.pairs@).unique_seq_to_set();
        }
        self.pairs.len()
    }

    /// The position of `key` among the pairs.
    fn position(&self, key: &str) -> (r: Option<usize>)
        ensures
            match r {
                Some(j) => j < self.pairs@.len() && self.pairs@[j as int].0@ == key@,
                None => !pair_keys(self.pairs@).contains(key@),
            },
    {
        let mut j: usize = 0;
        while j < self.pairs.len()
            invariant
                0 <= j <= self.pairs@.len(),
                forall|i: int| 0 <= i < j ==> self.pairs@[i].0@ != key@,
            decreases self.pairs@.len() - j,
        {
            if str_eq(self.pairs[j].0.as_str(), key) {
                return Some(j);
            }
            j += 1;
        }
        proof {
            if pair_keys(self.pairs@).contains(key@) {
                let i = choose|i: int| 0 <= i < pair_keys(self.pairs@).len() && pair_keys(self.pairs@)[i] == key@;
                assert(self.pairs@[i].0@ == key@);
            }
        }
        None
    }

    /// The value of `key`.
    pub fn get(&self, key: &str) -> (r: Option<&String>)
        ensures
            match r {
                Some(v) => self@.dom().contains(key@) && self@[key@] == v@,
                None => !self@.dom().contains(key@),
            },
    {
        proof {
            use_type_invariant(self);
            lemma_pairs_map(self.pairs@);
        }
        match self.position(key) {
            Some(j) => {
                assert(pair_keys(self.pairs@)[j as int] == key@);
                Some(&self.pairs[j].1)
            },
            None => None,
        }
    }

    /// A copy of the map.
    pub fn copy(&self) -> (m: StringMap)
        ensures
            m@ == self@,
    {
        proof {
            use_type_invariant(self);
        }
        let mut pairs: Vec<(String, String)> = Vec::new();
        let mut i: usize = 0;
        while i < self.pairs.len()
            invariant
                0 <= i <= self.pairs@.len(),
                pair_keys(self.pairs@).no_duplicates(),
                pairs@.len() == i,
                forall|j: int| 0 <= j < i ==> (#[trigger] pairs@[j]).0@ == self.pairs@[j].0@ && pairs@[j].1@ == self.pairs@[j].1@,
            decreases self.pairs@.len() - i,
        {
            let k = self.pairs[i].0.clone();
            let v = self.pairs[i].1.clone();
            pairs.push((k, v));
            i += 1;
        }
        proof {
            assert(pair_keys(pairs@) =~= pair_keys(self.pairs@));
            lemma_pairs_map(pairs@);
            lemma_pairs_map(self.pairs@);
            assert forall|x: Seq<char>| #[trigger] pairs_map(pairs@).dom().contains(x) implies pairs_map(pairs@)[x]
                == pairs_map(self.pairs@)[x] by {
                let j = choose|j: int| 0 <= j < pair_keys(pairs@).len() && pair_keys(pairs@)[j] == x;
                assert(pairs_map(pairs@)[pairs@[j].0@] == pairs@[j].1@);
                assert(pairs_map(self.pairs@)[self.pairs@[j].0@] == self.pairs@[j].1@);
            }
            assert(pairs_map(pairs@) =~= pairs_map(self.pairs@));
        }
        StringMap { pairs }
    }

    /// Sets the value of `key`.
    pub fn insert(&mut self, key: String, value: String)
        ensures
            final(self)@ == old(self)@.insert(key@, value@),
    {
        proof {
            use_type_invariant(&*self);
            lemma_pairs_map(self.pairs@);
        }
        let ghost old_pairs = self.pairs@;
        match self.position(key.as_str()) {
            Some(j) => {
                let mut pairs = Vec::new();
                std::mem::swap(&mut pairs, &mut self.pairs);
                let ghost k = key@;
                let ghost v = value@;
                pairs.set(j, (key, value));
                proof {
                    assert(pair_keys(pairs@) =~= pair_keys(old_pairs));
                    lemma_pairs_map(pairs@);
                    assert(pairs_map(pairs@) =~= pairs_map(old_pairs).insert(k, v)) by {
                        assert forall|x: Seq<char>| pairs_map(pairs@).dom().contains(x) <==> pairs_map(
                            old_pairs,
                        ).insert(k, v).dom().contains(x) by {
                            if x == k {
                                assert(pair_keys(pairs@)[j as int] == k);
                            }
                        }
                        assert forall|x: Seq<char>| #[trigger] pairs_map(pairs@).dom().contains(x)
                            implies pairs_map(pairs@)[x] == pairs_map(old_pairs).insert(k, v)[x] by {
                            let i = choose|i: int| 0 <= i < pair_keys(pairs@).len() && pair_keys(pairs@)[i] == x;
                            assert(pairs_map(pairs@)[pairs@[i].0@] == pairs@[i].1@);
                            if i != j {
                                assert(pairs_map(old_pairs)[old_pairs[i].0@] == old_pairs[i].1@);
                            }
                        }
                    }
                }
                self.pairs = pairs;
            },
            None => {
                let mut pairs = Vec::new();
                std::mem::swap(&mut pairs, &mut self.pairs);
                pairs.push((key, value));
                proof {
                    assert(pair_keys(pairs@) =~= pair_keys(old_pairs).push(key@));
                    assert(pairs@.drop_last() =~= old_pairs);
                }
                self.pairs = pairs;
            },
        }
    }
}

} // verus!
