//! A map from text to text that is kept in key order.

use vstd::prelude::*;
use vstd::string::*;

use crate::text;
use crate::text::{same_text, text_before};

verus! {

/// Whether the keys of `pairs` ascend strictly.
pub open spec fn ascending(pairs: Seq<(String, String)>) -> bool {
    forall|i: int, j: int|
        #![trigger pairs[i], pairs[j]]
        0 <= i < j < pairs.len() ==> text::text_lt(pairs[i].0@, pairs[j].0@)
}

/// Whether a pair with key `k` stands at index `i`.
pub open spec fn key_at(pairs: Seq<(String, String)>, k: Seq<char>, i: int) -> bool {
    0 <= i < pairs.len() && pairs[i].0@ == k
}

/// The map that a sequence of pairs with distinct keys denotes.
pub open spec fn map_of(pairs: Seq<(String, String)>) -> Map<Seq<char>, Seq<char>> {
    Map::new(
        |k: Seq<char>| exists|i: int| key_at(pairs, k, i),
        |k: Seq<char>| pairs[choose|i: int| key_at(pairs, k, i)].1@,
    )
}

/// A key of an ascending sequence stands at one index only.
proof fn lemma_one_index(pairs: Seq<(String, String)>, k: Seq<char>, i: int)
    requires
        ascending(pairs),
        key_at(pairs, k, i),
    ensures
        map_of(pairs).contains_key(k),
        map_of(pairs)[k] == pairs[i].1@,
{
    let j = choose|j: int| key_at(pairs, k, j);
    assert(key_at(pairs, k, j));
    text::lemma_text_lt_irreflexive(k);
    if i < j {
        assert(text::text_lt(pairs[i].0@, pairs[j].0@));
    } else if j < i {
        assert(text::text_lt(pairs[j].0@, pairs[i].0@));
    }
}

/// A map from text to text in key order. Inserting a key that is there replaces
/// its value.
#[derive(Debug)]
pub struct EnvMap {
    pairs: Vec<(String, String)>,
}

impl View for EnvMap {
    type V = Map<Seq<char>, Seq<char>>;

    closed spec fn view(&self) -> Map<Seq<char>, Seq<char>> {
        map_of(self.pairs@)
    }
}

impl EnvMap {
    #[verifier::type_invariant]
    spec fn in_order(self) -> bool {
        ascending(self.pairs@)
    }

    /// The pairs in key order.
    pub closed spec fn listed(&self) -> Seq<(String, String)> {
        self.pairs@
    }

    /// An empty map.
    pub fn new() -> (r: EnvMap)
        ensures
            r@ == Map::<Seq<char>, Seq<char>>::empty(),
            r.listed() == Seq::<(String, String)>::empty(),
    {
        let r = EnvMap { pairs: Vec::new() };
        assert(r@ =~= Map::<Seq<char>, Seq<char>>::empty());
        r
    }

    /// How many keys there are.
    pub fn len(&self) -> (n: usize)
        ensures
            n == self.listed().len(),
    {
        self.pairs.len()
    }

    /// Whether there are no keys.
    pub fn is_empty(&self) -> (b: bool)
        ensures
            b == (self.listed().len() == 0),
    {
        self.pairs.len() == 0
    }

    /// The value of a key.
    pub fn get(&self, key: &str) -> (r: Option<&str>)
        ensures
            match r {
                Some(v) => self@.contains_key(key@) && self@[key@] == v@,
                None => !self@.contains_key(key@),
            },
    {
        proof {
            use_type_invariant(self);
        }
        let mut i: usize = 0;
        while i < self.pairs.len()
            invariant
                i <= self.pairs@.len(),
                ascending(self.pairs@),
                forall|j: int| 0 <= j < i ==> !key_at(self.pairs@, key@, j),
            decreases self.pairs@.len() - i,
        {
            if same_text(self.pairs[i].0.as_str(), key) {
                assert(key_at(self.pairs@, key@, i as int));
                proof {
                    lemma_one_index(self.pairs@, key@, i as int);
                }
                return Some(self.pairs[i].1.as_str());
            }
            i = i + 1;
        }
        None
    }

    /// Sets the value of a key.
    pub fn insert(&mut self, key: &str, value: &str)
        ensures
            final(self)@ == old(self)@.insert(key@, value@),
    {
        proof {
            use_type_invariant(&*self);
        }
        let ghost before = self.pairs@;
        let mut pairs: Vec<(String, String)> = Vec::new();
        std::mem::swap(&mut pairs, &mut self.pairs);
        let mut i: usize = 0;
        while i < pairs.len() && text_before(pairs[i].0.as_str(), key)
            invariant
                pairs@ == before,
                i <= pairs@.len(),
                forall|j: int| 0 <= j < i ==> text::text_lt(#[trigger] pairs@[j].0@, key@),
            decreases pairs@.len() - i,
        {
            i = i + 1;
        }
        let here = i < pairs.len() && same_text(pairs[i].0.as_str(), key);
        let pair = (String::from_str(key), String::from_str(value));
        if here {
            pairs.set(i, pair);
            assert(pairs@ =~= before.update(i as int, pair));
        } else {
            pairs.insert(i, pair);
            assert(pairs@ =~= before.insert(i as int, pair));
        }
        proof {
            lemma_inserted(before, pairs@, i as int, here, pair);
        }
        self.pairs = pairs;
    }

    /// Takes a key out.
    pub fn remove(&mut self, key: &str)
        ensures
            final(self)@ == old(self)@.remove(key@),
    {
        proof {
            use_type_invariant(&*self);
        }
        let ghost before = self.pairs@;
        let mut pairs: Vec<(String, String)> = Vec::new();
        std::mem::swap(&mut pairs, &mut self.pairs);
        let mut i: usize = 0;
        while i < pairs.len() && !same_text(pairs[i].0.as_str(), key)
            invariant
                pairs@ == before,
                i <= pairs@.len(),
                forall|j: int| 0 <= j < i ==> !key_at(before, key@, j),
            decreases pairs@.len() - i,
        {
            i = i + 1;
        }
        if i < pairs.len() {
            assert(key_at(before, key@, i as int));
            pairs.remove(i);
            assert(pairs@ =~= before.remove(i as int));
            proof {
                lemma_removed(before, i as int, key@);
            }
        } else {
            assert(map_of(before).remove(key@) =~= map_of(before));
        }
        self.pairs = pairs;
    }

    /// The keys in order.
    pub fn keys(&self) -> (r: Vec<&str>)
        ensures
            r@.len() == self.listed().len(),
            forall|i: int| 0 <= i < r@.len() ==> (#[trigger] r@[i])@ == self.listed()[i].0@,
            forall|i: int, j: int|
                #![trigger r@[i], r@[j]]
                0 <= i < j < r@.len() ==> text::text_lt(r@[i]@, r@[j]@),
            forall|k: Seq<char>|
                self@.contains_key(k) <==> exists|i: int|
                    0 <= i < r@.len() && (#[trigger] r@[i])@ == k,
    {
        proof {
            use_type_invariant(self);
        }
        let mut r: Vec<&str> = Vec::new();
        let mut i: usize = 0;
        while i < self.pairs.len()
            invariant
                i <= self.pairs@.len(),
                r@.len() == i,
                forall|j: int| 0 <= j < i ==> (#[trigger] r@[j])@ == self.pairs@[j].0@,
            decreases self.pairs@.len() - i,
        {
            r.push(self.pairs[i].0.as_str());
            i = i + 1;
        }
        assert forall|k: Seq<char>| self@.contains_key(k) <==> exists|j: int|
            0 <= j < r@.len() && (#[trigger] r@[j])@ == k by {
            if self@.contains_key(k) {
                let j = choose|j: int| key_at(self.pairs@, k, j);
                assert(r@[j]@ == k);
            }
            if exists|j: int| 0 <= j < r@.len() && (#[trigger] r@[j])@ == k {
                let j = choose|j: int| 0 <= j < r@.len() && (#[trigger] r@[j])@ == k;
                assert(key_at(self.pairs@, k, j));
            }
        }
        r
    }

    /// The key and the value at an index of the order.
    pub fn pair(&self, i: usize) -> (r: (&str, &str))
        requires
            i < self.listed().len(),
        ensures
            r.0@ == self.listed()[i as int].0@,
            r.1@ == self.listed()[i as int].1@,
            self@.contains_key(r.0@),
            self@[r.0@] == r.1@,
    {
        proof {
            use_type_invariant(self);
            assert(key_at(self.pairs@, self.pairs@[i as int].0@, i as int));
            lemma_one_index(self.pairs@, self.pairs@[i as int].0@, i as int);
        }
        (self.pairs[i].0.as_str(), self.pairs[i].1.as_str())
    }
}

proof fn lemma_inserted(
    before: Seq<(String, String)>,
    after: Seq<(String, String)>,
    i: int,
    here: bool,
    pair: (String, String),
)
    requires
        ascending(before),
        0 <= i <= before.len(),
        here ==> i < before.len() && before[i].0@ == pair.0@,
        !here && i < before.len() ==> before[i].0@ != pair.0@ && !text::text_lt(
            before[i].0@,
            pair.0@,
        ),
        after == if here {
            before.update(i, pair)
        } else {
            before.insert(i, pair)
        },
        forall|j: int| 0 <= j < i ==> text::text_lt(#[trigger] before[j].0@, pair.0@),
    ensures
        ascending(after),
        map_of(after) == map_of(before).insert(pair.0@, pair.1@),
{
    let k = pair.0@;
    if !here {
        assert forall|j: int| i <= j < before.len() implies text::text_lt(
            k,
            #[trigger] before[j].0@,
        ) by {
            text::lemma_text_lt_total(before[i].0@, k);
            if i < j {
                text::lemma_text_lt_transitive(k, before[i].0@, before[j].0@);
            }
        }
    }
    assert forall|a: int, b: int|
        #![trigger after[a], after[b]]
        0 <= a < b < after.len() implies text::text_lt(after[a].0@, after[b].0@) by {
        if here {
            assert(after[a].0@ == before[a].0@);
            assert(after[b].0@ == before[b].0@);
        } else {
            let x = if a < i {
                a
            } else {
                a - 1
            };
            let y = if b < i {
                b
            } else {
                b - 1
            };
            if a != i {
                assert(after[a] == before[x]);
            }
            if b != i {
                assert(after[b] == before[y]);
            }
        }
    }
    let m = map_of(before).insert(k, pair.1@);
    assert forall|q: Seq<char>|
        #![trigger map_of(after).contains_key(q)]
        map_of(after).contains_key(q) == m.contains_key(q) && (map_of(after).contains_key(q)
            ==> map_of(after)[q] == m[q]) by {
        assert(after[i] == pair);
        assert(key_at(after, k, i));
        lemma_one_index(after, k, i);
        if q != k {
            if map_of(before).contains_key(q) {
                let j = choose|j: int| key_at(before, q, j);
                lemma_one_index(before, q, j);
                let t = if here || j < i {
                    j
                } else {
                    j + 1
                };
                assert(after[t] == before[j]);
                assert(key_at(after, q, t));
                lemma_one_index(after, q, t);
            }
            if map_of(after).contains_key(q) {
                let t = choose|t: int| key_at(after, q, t);
                let j = if here || t < i {
                    t
                } else {
                    t - 1
                };
                assert(after[t] == before[j]);
                assert(key_at(before, q, j));
            }
        }
    }
    assert(map_of(after) =~= m);
}

proof fn lemma_removed(before: Seq<(String, String)>, i: int, k: Seq<char>)
    requires
        ascending(before),
        key_at(before, k, i),
    ensures
        ascending(before.remove(i)),
        map_of(before.remove(i)) == map_of(before).remove(k),
{
    let after = before.remove(i);
    assert forall|a: int, b: int|
        #![trigger after[a], after[b]]
        0 <= a < b < after.len() implies text::text_lt(after[a].0@, after[b].0@) by {
        let x = if a < i {
            a
        } else {
            a + 1
        };
        let y = if b < i {
            b
        } else {
            b + 1
        };
        assert(after[a] == before[x]);
        assert(after[b] == before[y]);
    }
    let m = map_of(before).remove(k);
    assert forall|q: Seq<char>|
        #![trigger map_of(after).contains_key(q)]
        map_of(after).contains_key(q) == m.contains_key(q) && (map_of(after).contains_key(q)
            ==> map_of(after)[q] == m[q]) by {
        if map_of(after).contains_key(q) {
            let t = choose|t: int| key_at(after, q, t);
            let j = if t < i {
                t
            } else {
                t + 1
            };
            assert(after[t] == before[j]);
            assert(key_at(before, q, j));
            lemma_one_index(before, q, j);
            lemma_one_index(after, q, t);
            text::lemma_text_lt_irreflexive(k);
            if q == k {
                if j < i {
                    assert(text::text_lt(before[j].0@, before[i].0@));
                } else {
                    assert(text::text_lt(before[i].0@, before[j].0@));
                }
            }
        }
        if m.contains_key(q) {
            let j = choose|j: int| key_at(before, q, j);
            let t = if j < i {
                j
            } else {
                j - 1
            };
            assert(after[t] == before[j]);
            assert(key_at(after, q, t));
        }
    }
    assert(map_of(after) =~= m);
}

} // verus!
