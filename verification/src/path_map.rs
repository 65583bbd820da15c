//! A map from paths to values that is kept in path order. Two spellings of one path
//! are one key.

use vstd::prelude::*;
use vstd::string::*;

use crate::paths;
use crate::paths::{components, equal_paths, path_before};
use crate::text;

verus! {

/// Whether the keys of `pairs` ascend strictly in path order.
pub open spec fn ascending<V>(pairs: Seq<(String, V)>) -> bool {
    forall|i: int, j: int|
        #![trigger pairs[i], pairs[j]]
        0 <= i < j < pairs.len() ==> paths::path_lt(pairs[i].0@, pairs[j].0@)
}

/// Whether a pair with key `k` stands at index `i`.
pub open spec fn key_at<V>(pairs: Seq<(String, V)>, k: Seq<Seq<char>>, i: int) -> bool {
    0 <= i < pairs.len() && components(pairs[i].0@) == k
}

/// The map that a sequence of pairs with distinct keys denotes. A key is the
/// sequence of a path's components.
pub open spec fn map_of<V>(pairs: Seq<(String, V)>) -> Map<Seq<Seq<char>>, V> {
    Map::new(
        |k: Seq<Seq<char>>| exists|i: int| key_at(pairs, k, i),
        |k: Seq<Seq<char>>| pairs[choose|i: int| key_at(pairs, k, i)].1,
    )
}

proof fn lemma_one_index<V>(pairs: Seq<(String, V)>, k: Seq<Seq<char>>, i: int)
    requires
        ascending(pairs),
        key_at(pairs, k, i),
    ensures
        map_of(pairs).contains_key(k),
        map_of(pairs)[k] == pairs[i].1,
{
    let j = choose|j: int| key_at(pairs, k, j);
    assert(key_at(pairs, k, j));
    paths::lemma_components_lt_irreflexive(k);
    if i < j {
        assert(paths::path_lt(pairs[i].0@, pairs[j].0@));
    } else if j < i {
        assert(paths::path_lt(pairs[j].0@, pairs[i].0@));
    }
}

/// A map from paths to values in path order. Inserting a path that is there
/// replaces its value and keeps its spelling.
pub struct PathMap<V> {
    pairs: Vec<(String, V)>,
}

impl<V> View for PathMap<V> {
    type V = Map<Seq<Seq<char>>, V>;

    closed spec fn view(&self) -> Map<Seq<Seq<char>>, V> {
        map_of(self.pairs@)
    }
}

impl<V> PathMap<V> {
    #[verifier::type_invariant]
    spec fn in_order(self) -> bool {
        ascending(self.pairs@)
    }

    /// The pairs in path order.
    pub closed spec fn listed(&self) -> Seq<(String, V)> {
        self.pairs@
    }

    /// An empty map.
    pub fn new() -> (r: PathMap<V>)
        ensures
            r@ == Map::<Seq<Seq<char>>, V>::empty(),
    {
        let r = PathMap { pairs: Vec::new() };
        assert(r@ =~= Map::<Seq<Seq<char>>, V>::empty());
        r
    }

    /// How many paths there are.
    pub fn len(&self) -> (n: usize)
        ensures
            n == self.listed().len(),
            is_order_of(self.listed(), self@),
    {
        proof {
            use_type_invariant(self);
            assert forall|i: int| 0 <= i < self.pairs@.len() implies self@[components(
                (#[trigger] self.pairs@[i]).0@,
            )] == self.pairs@[i].1 by {
                let k = components(self.pairs@[i].0@);
                assert(key_at(self.pairs@, k, i));
                lemma_one_index(self.pairs@, k, i);
            }
        }
        self.pairs.len()
    }

    /// Whether there are no paths.
    pub fn is_empty(&self) -> (b: bool)
        ensures
            b == (self.listed().len() == 0),
    {
        self.pairs.len() == 0
    }

    /// The value of a path.
    pub fn get(&self, path: &str) -> (r: Option<&V>)
        ensures
            match r {
                Some(v) => self@.contains_key(components(path@)) && self@[components(path@)] == *v,
                None => !self@.contains_key(components(path@)),
            },
    {
        proof {
            use_type_invariant(self);
        }
        let ghost k = components(path@);
        let mut i: usize = 0;
        while i < self.pairs.len()
            invariant
                i <= self.pairs@.len(),
                k == components(path@),
                ascending(self.pairs@),
                forall|j: int| 0 <= j < i ==> !key_at(self.pairs@, k, j),
            decreases self.pairs@.len() - i,
        {
            if equal_paths(self.pairs[i].0.as_str(), path) {
                assert(key_at(self.pairs@, k, i as int));
                proof {
                    lemma_one_index(self.pairs@, k, i as int);
                }
                return Some(&self.pairs[i].1);
            }
            i = i + 1;
        }
        None
    }

    /// Whether a path is there.
    pub fn contains(&self, path: &str) -> (b: bool)
        ensures
            b == self@.contains_key(components(path@)),
    {
        match self.get(path) {
            Some(_) => true,
            None => false,
        }
    }

    /// Sets the value of a path.
    pub fn insert(&mut self, path: &str, value: V)
        ensures
            final(self)@ == old(self)@.insert(components(path@), value),
    {
        proof {
            use_type_invariant(&*self);
        }
        let ghost before = self.pairs@;
        let mut pairs: Vec<(String, V)> = Vec::new();
        std::mem::swap(&mut pairs, &mut self.pairs);
        let mut i: usize = 0;
        while i < pairs.len() && path_before(pairs[i].0.as_str(), path)
            invariant
                pairs@ == before,
                i <= pairs@.len(),
                forall|j: int| 0 <= j < i ==> paths::path_lt(#[trigger] pairs@[j].0@, path@),
            decreases pairs@.len() - i,
        {
            i = i + 1;
        }
        let here = i < pairs.len() && equal_paths(pairs[i].0.as_str(), path);
        if here {
            let pair = (pairs[i].0.clone(), value);
            pairs.set(i, pair);
            assert(pairs@ =~= before.update(i as int, pair));
            proof {
                lemma_inserted(before, pairs@, i as int, here, pair);
            }
        } else {
            let pair = (String::from_str(path), value);
            pairs.insert(i, pair);
            assert(pairs@ =~= before.insert(i as int, pair));
            proof {
                lemma_inserted(before, pairs@, i as int, here, pair);
            }
        }
        self.pairs = pairs;
    }

    /// The path at an index of the order.
    pub fn path(&self, i: usize) -> (r: &str)
        requires
            i < self.listed().len(),
        ensures
            r@ == self.listed()[i as int].0@,
            self@.contains_key(components(r@)),
    {
        proof {
            assert(key_at(self.pairs@, components(self.pairs@[i as int].0@), i as int));
        }
        self.pairs[i].0.as_str()
    }

    /// The value at an index of the order.
    pub fn value(&self, i: usize) -> (r: &V)
        requires
            i < self.listed().len(),
        ensures
            *r == self.listed()[i as int].1,
            self@[components(self.listed()[i as int].0@)] == *r,
    {
        proof {
            use_type_invariant(self);
            let k = components(self.pairs@[i as int].0@);
            assert(key_at(self.pairs@, k, i as int));
            lemma_one_index(self.pairs@, k, i as int);
        }
        &self.pairs[i].1
    }

    /// The paths in order.
    pub fn into_paths(&self) -> (r: Vec<String>)
        ensures
            is_listing(text::views(r@), self@.dom()),
            r@.len() == self.listed().len(),
    {
        proof {
            use_type_invariant(self);
        }
        let mut r: Vec<String> = Vec::new();
        let mut i: usize = 0;
        while i < self.pairs.len()
            invariant
                i <= self.pairs@.len(),
                r@.len() == i,
                forall|j: int| 0 <= j < i ==> (#[trigger] r@[j])@ == self.pairs@[j].0@,
            decreases self.pairs@.len() - i,
        {
            r.push(self.pairs[i].0.clone());
            i = i + 1;
        }
        let ghost vs = text::views(r@);
        assert forall|k: Seq<Seq<char>>| #[trigger]
            self@.dom().contains(k) <==> exists|j: int|
            0 <= j < vs.len() && components(#[trigger] vs[j]) == k by {
            if self@.contains_key(k) {
                let j = choose|j: int| key_at(self.pairs@, k, j);
                assert(components(vs[j]) == k);
            }
            if exists|j: int| 0 <= j < vs.len() && components(#[trigger] vs[j]) == k {
                let j = choose|j: int| 0 <= j < vs.len() && components(#[trigger] vs[j]) == k;
                assert(key_at(self.pairs@, k, j));
            }
        }
        r
    }
}

/// Whether `pairs` are the pairs of `m` in path order.
pub open spec fn is_order_of<V>(pairs: Seq<(String, V)>, m: Map<Seq<Seq<char>>, V>) -> bool {
    &&& ascending(pairs)
    &&& forall|k: Seq<Seq<char>>| m.contains_key(k) <==> exists|i: int| key_at(pairs, k, i)
    &&& forall|i: int|
        0 <= i < pairs.len() ==> m[components((#[trigger] pairs[i]).0@)] == pairs[i].1
}

/// Whether `r` lists the paths with the given components, each once, in path order.
pub open spec fn is_listing(r: Seq<Seq<char>>, keys: Set<Seq<Seq<char>>>) -> bool {
    &&& forall|i: int, j: int|
        #![trigger r[i], r[j]]
        0 <= i < j < r.len() ==> paths::path_lt(r[i], r[j])
    &&& forall|k: Seq<Seq<char>>| #[trigger]
        keys.contains(k) <==> exists|i: int| 0 <= i < r.len() && components(#[trigger] r[i]) == k
}

proof fn lemma_inserted<V>(
    before: Seq<(String, V)>,
    after: Seq<(String, V)>,
    i: int,
    here: bool,
    pair: (String, V),
)
    requires
        ascending(before),
        0 <= i <= before.len(),
        here ==> i < before.len() && components(before[i].0@) == components(pair.0@),
        !here && i < before.len() ==> components(before[i].0@) != components(pair.0@)
            && !paths::path_lt(before[i].0@, pair.0@),
        after == if here {
            before.update(i, pair)
        } else {
            before.insert(i, pair)
        },
        forall|j: int| 0 <= j < i ==> paths::path_lt(#[trigger] before[j].0@, pair.0@),
    ensures
        ascending(after),
        map_of(after) == map_of(before).insert(components(pair.0@), pair.1),
{
    let k = components(pair.0@);
    if !here {
        assert forall|j: int| i <= j < before.len() implies paths::path_lt(
            pair.0@,
            #[trigger] before[j].0@,
        ) by {
            paths::lemma_components_lt_total(components(before[i].0@), k);
            if i < j {
                assert(paths::path_lt(before[i].0@, before[j].0@));
                paths::lemma_components_lt_transitive(
                    k,
                    components(before[i].0@),
                    components(before[j].0@),
                );
            }
        }
    }
    assert forall|a: int, b: int|
        #![trigger after[a], after[b]]
        0 <= a < b < after.len() implies paths::path_lt(after[a].0@, after[b].0@) by {
        if here {
            assert(components(after[a].0@) == components(before[a].0@));
            assert(components(after[b].0@) == components(before[b].0@));
            assert(paths::path_lt(before[a].0@, before[b].0@));
        } else {
            let x = if a < i {
                a
            } else {
                a - 1
            };
            let y = if b < i {
                b
            } else {
                b - 1
            };
            if a != i {
                assert(after[a] == before[x]);
            }
            if b != i {
                assert(after[b] == before[y]);
            }
        }
    }
    let m = map_of(before).insert(k, pair.1);
    assert forall|q: Seq<Seq<char>>|
        #![trigger map_of(after).contains_key(q)]
        map_of(after).contains_key(q) == m.contains_key(q) && (map_of(after).contains_key(q)
            ==> map_of(after)[q] == m[q]) by {
        assert(after[i] == pair);
        assert(key_at(after, k, i));
        lemma_one_index(after, k, i);
        if q != k {
            if map_of(before).contains_key(q) {
                let j = choose|j: int| key_at(before, q, j);
                lemma_one_index(before, q, j);
                let t = if here || j < i {
                    j
                } else {
                    j + 1
                };
                assert(after[t] == before[j]);
                assert(key_at(after, q, t));
                lemma_one_index(after, q, t);
            }
            if map_of(after).contains_key(q) {
                let t = choose|t: int| key_at(after, q, t);
                let j = if here || t < i {
                    t
                } else {
                    t - 1
                };
                assert(after[t] == before[j]);
                assert(key_at(before, q, j));
            }
        }
    }
    assert(map_of(after) =~= m);
}

} // verus!
