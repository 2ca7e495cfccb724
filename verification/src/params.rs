//! A small string-keyed map with unique keys, kept as a vector of pairs in
//! insertion order. It carries the parameters of a request or of a reverse
//! URL generation call, and the route-identifier-to-glob table.

use vstd::prelude::*;

use crate::strutil::str_eq;

verus! {

/// Whether `ps` holds a pair whose key is `k`.
pub open spec fn has_key(ps: Seq<(Seq<char>, Seq<char>)>, k: Seq<char>) -> bool
    decreases ps.len(),
{
    if ps.len() == 0 {
        false
    } else {
        ps[0].0 == k || has_key(ps.skip(1), k)
    }
}

/// The value of the first pair of `ps` whose key is `k`.
pub open spec fn value_of(ps: Seq<(Seq<char>, Seq<char>)>, k: Seq<char>) -> Seq<char>
    decreases ps.len(),
{
    if ps.len() == 0 {
        Seq::empty()
    } else if ps[0].0 == k {
        ps[0].1
    } else {
        value_of(ps.skip(1), k)
    }
}

/// `ps` without the first pair whose key is `k`.
pub open spec fn remove_key(ps: Seq<(Seq<char>, Seq<char>)>, k: Seq<char>) -> Seq<
    (Seq<char>, Seq<char>),
>
    decreases ps.len(),
{
    if ps.len() == 0 {
        ps
    } else if ps[0].0 == k {
        ps.skip(1)
    } else {
        seq![ps[0]] + remove_key(ps.skip(1), k)
    }
}

/// No two pairs of `ps` share a key.
pub open spec fn keys_unique(ps: Seq<(Seq<char>, Seq<char>)>) -> bool
    decreases ps.len(),
{
    if ps.len() == 0 {
        true
    } else {
        !has_key(ps.skip(1), ps[0].0) && keys_unique(ps.skip(1))
    }
}

/// The pairs of `ps` as a map; a later pair wins over an earlier one.
pub open spec fn map_of_pairs(ps: Seq<(Seq<char>, Seq<char>)>) -> Map<Seq<char>, Seq<char>>
    decreases ps.len(),
{
    if ps.len() == 0 {
        Map::empty()
    } else {
        map_of_pairs(ps.skip(1)).insert(ps[0].0, ps[0].1)
    }
}

/// If no pair of `ps` has key `k`, `ps` has no such key and removal is the
/// identity.
pub proof fn lemma_key_absent(ps: Seq<(Seq<char>, Seq<char>)>, k: Seq<char>)
    requires
        forall|j: int| 0 <= j < ps.len() ==> ps[j].0 != k,
    ensures
        !has_key(ps, k),
        remove_key(ps, k) == ps,
    decreases ps.len(),
{
    if ps.len() > 0 {
        assert(forall|j: int| 0 <= j < ps.skip(1).len() ==> ps.skip(1)[j] == ps[j + 1]);
        lemma_key_absent(ps.skip(1), k);
        assert(remove_key(ps, k) =~~= ps);
    }
}

/// Where the first pair with key `k` stands at index `i`, removal drops that
/// index and the value is that pair's.
pub proof fn lemma_key_found_at(ps: Seq<(Seq<char>, Seq<char>)>, k: Seq<char>, i: int)
    requires
        0 <= i < ps.len(),
        ps[i].0 == k,
        forall|j: int| 0 <= j < i ==> ps[j].0 != k,
    ensures
        has_key(ps, k),
        value_of(ps, k) == ps[i].1,
        remove_key(ps, k) == ps.subrange(0, i) + ps.skip(i + 1),
    decreases i,
{
    if i == 0 {
        assert(remove_key(ps, k) == ps.skip(1));
        assert(ps.subrange(0, 0) + ps.skip(1) =~~= ps.skip(1));
    } else {
        assert(forall|j: int| 0 <= j < ps.skip(1).len() ==> ps.skip(1)[j] == ps[j + 1]);
        lemma_key_found_at(ps.skip(1), k, i - 1);
        assert(ps.skip(1).skip(i) =~~= ps.skip(i + 1));
        assert(remove_key(ps, k) == seq![ps[0]] + remove_key(ps.skip(1), k));
        assert(seq![ps[0]] + (ps.skip(1).subrange(0, i - 1) + ps.skip(1).skip(i)) =~~= ps.subrange(
            0,
            i,
        ) + ps.skip(i + 1));
        assert(has_key(ps, k));
        assert(value_of(ps, k) == ps[i].1);
    }
}

/// A key stands in `ps.push(p)` exactly when it is `p`'s key or stands in
/// `ps`.
pub proof fn lemma_has_key_push(
    ps: Seq<(Seq<char>, Seq<char>)>,
    p: (Seq<char>, Seq<char>),
    k: Seq<char>,
)
    ensures
        has_key(ps.push(p), k) == (has_key(ps, k) || p.0 == k),
    decreases ps.len(),
{
    let w = ps.push(p);
    assert(has_key(w, k) == (w[0].0 == k || has_key(w.skip(1), k)));
    if ps.len() == 0 {
        assert(w[0] == p);
        assert(w.skip(1) =~~= Seq::<(Seq<char>, Seq<char>)>::empty());
        assert(!has_key(w.skip(1), k));
        assert(!has_key(ps, k));
    } else {
        assert(w[0] == ps[0]);
        assert(w.skip(1) =~~= ps.skip(1).push(p));
        lemma_has_key_push(ps.skip(1), p, k);
        assert(has_key(ps, k) == (ps[0].0 == k || has_key(ps.skip(1), k)));
    }
}

/// Appending a fresh key keeps the keys unique.
pub proof fn lemma_push_unique(ps: Seq<(Seq<char>, Seq<char>)>, p: (Seq<char>, Seq<char>))
    requires
        keys_unique(ps),
        !has_key(ps, p.0),
    ensures
        keys_unique(ps.push(p)),
    decreases ps.len(),
{
    let w = ps.push(p);
    assert(keys_unique(w) == (!has_key(w.skip(1), w[0].0) && keys_unique(w.skip(1))));
    if ps.len() == 0 {
        assert(w[0] == p);
        assert(w.skip(1) =~~= Seq::<(Seq<char>, Seq<char>)>::empty());
        assert(!has_key(w.skip(1), w[0].0));
        assert(keys_unique(w.skip(1)));
    } else {
        assert(w[0] == ps[0]);
        assert(w.skip(1) =~~= ps.skip(1).push(p));
        lemma_push_unique(ps.skip(1), p);
        lemma_has_key_push(ps.skip(1), p, ps[0].0);
        assert(!has_key(w.skip(1), w[0].0));
    }
}

/// Removing a key keeps the keys unique, removes that key, and introduces no
/// other.
pub proof fn lemma_remove_key_props(ps: Seq<(Seq<char>, Seq<char>)>, k: Seq<char>)
    requires
        keys_unique(ps),
    ensures
        keys_unique(remove_key(ps, k)),
        !has_key(remove_key(ps, k), k),
        forall|k2: Seq<char>| has_key(remove_key(ps, k), k2) ==> has_key(ps, k2),
    decreases ps.len(),
{
    if ps.len() == 0 {
    } else if ps[0].0 == k {
        assert(forall|k2: Seq<char>| has_key(ps.skip(1), k2) ==> has_key(ps, k2));
    } else {
        lemma_remove_key_props(ps.skip(1), k);
        let r = remove_key(ps.skip(1), k);
        let whole = seq![ps[0]] + r;
        assert(whole[0] == ps[0]);
        assert(whole.skip(1) =~~= r);
        assert(!has_key(r, ps[0].0));
        assert(keys_unique(whole));
        assert(!has_key(whole, k));
        assert forall|k2: Seq<char>| has_key(whole, k2) implies has_key(ps, k2) by {
            assert(has_key(whole, k2) == (whole[0].0 == k2 || has_key(whole.skip(1), k2)));
            assert(has_key(ps, k2) == (ps[0].0 == k2 || has_key(ps.skip(1), k2)));
        }
    }
}

/// A map of parameter names to string values, or of route identifiers to
/// glob patterns. Keys are unique; pairs keep insertion order.
pub struct ParamMap {
    pairs: Vec<(String, String)>,
}

impl View for ParamMap {
    type V = Seq<(Seq<char>, Seq<char>)>;

    closed spec fn view(&self) -> Seq<(Seq<char>, Seq<char>)> {
        self.pairs.deep_view()
    }
}

impl ParamMap {
    /// The keys of the map never repeat.
    pub open spec fn wf(&self) -> bool {
        keys_unique(self@)
    }

    /// An empty map.
    pub fn new() -> (r: ParamMap)
        ensures
            r@ == Seq::<(Seq<char>, Seq<char>)>::empty(),
            r.wf(),
    {
        let r = ParamMap { pairs: Vec::new() };
        proof {
            assert(r@ =~~= Seq::<(Seq<char>, Seq<char>)>::empty());
        }
        r
    }

    /// How many pairs the map holds.
    pub fn len(&self) -> (r: usize)
        ensures
            r == self@.len(),
    {
        proof {
            assert(self@.len() == self.pairs@.len());
        }
        self.pairs.len()
    }

    /// Whether the map holds no pair.
    pub fn is_empty(&self) -> (r: bool)
        ensures
            r == (self@.len() == 0),
    {
        self.len() == 0
    }

    /// Removes the pair keyed `k`, handing its value back, or `None` where
    /// no pair has that key.
    pub fn remove(&mut self, k: &str) -> (r: Option<String>)
        requires
            old(self).wf(),
        ensures
            final(self).wf(),
            final(self)@ == remove_key(old(self)@, k@),
            r is Some <==> has_key(old(self)@, k@),
            r is Some ==> r.unwrap()@ == value_of(old(self)@, k@),
    {
        let ghost ps = self@;
        let mut i: usize = 0;
        while i < self.pairs.len()
            invariant
                0 <= i <= self.pairs.len(),
                self@ == ps,
                ps == old(self)@,
                ps.len() == self.pairs@.len(),
                keys_unique(ps),
                forall|j: int| 0 <= j < i ==> ps[j].0 != k@,
            decreases self.pairs.len() - i,
        {
            proof {
                assert(ps[i as int] == (self.pairs@[i as int].0@, self.pairs@[i as int].1@));
            }
            if str_eq(self.pairs[i].0.as_str(), k) {
                proof {
                    lemma_key_found_at(ps, k@, i as int);
                    lemma_remove_key_props(ps, k@);
                }
                let pair = self.pairs.remove(i);
                proof {
                    assert(self.pairs.deep_view() =~~= ps.subrange(0, i as int) + ps.skip(
                        i as int + 1,
                    ));
                }
                return Some(pair.1);
            }
            i = i + 1;
        }
        proof {
            lemma_key_absent(ps, k@);
        }
        None
    }

    /// The value stored under `k`, cloned, or `None` where no pair has that
    /// key.
    pub fn get(&self, k: &str) -> (r: Option<String>)
        ensures
            r is Some <==> has_key(self@, k@),
            r is Some ==> r.unwrap()@ == value_of(self@, k@),
    {
        let ghost ps = self@;
        let mut i: usize = 0;
        while i < self.pairs.len()
            invariant
                0 <= i <= self.pairs.len(),
                self@ == ps,
                ps.len() == self.pairs@.len(),
                forall|j: int| 0 <= j < i ==> ps[j].0 != k@,
            decreases self.pairs.len() - i,
        {
            proof {
                assert(ps[i as int] == (self.pairs@[i as int].0@, self.pairs@[i as int].1@));
            }
            if str_eq(self.pairs[i].0.as_str(), k) {
                proof {
                    lemma_key_found_at(ps, k@, i as int);
                }
                return Some(self.pairs[i].1.clone());
            }
            i = i + 1;
        }
        proof {
            lemma_key_absent(ps, k@);
        }
        None
    }

    /// Binds `v` to `k`: an earlier pair keyed `k` is dropped and the new
    /// pair goes to the end.
    pub fn insert(&mut self, k: &str, v: &str)
        requires
            old(self).wf(),
        ensures
            final(self).wf(),
            final(self)@ == remove_key(old(self)@, k@).push((k@, v@)),
    {
        let ghost ps = self@;
        let _ = self.remove(k);
        let ghost mid = self.pairs;
        self.pairs.push((k.to_owned(), v.to_owned()));
        proof {
            assert(self.pairs.deep_view() =~~= mid.deep_view().push((k@, v@)));
            lemma_remove_key_props(ps, k@);
            lemma_push_unique(remove_key(ps, k@), (k@, v@));
        }
    }

    /// The pairs of the map, in their stored order.
    pub fn into_pairs(self) -> (r: Vec<(String, String)>)
        ensures
            r.deep_view() == self@,
    {
        self.pairs
    }
}

} // verus!
