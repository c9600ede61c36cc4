//! Association containers keyed by `String`, with mathematical views.
//!
//! `StrMap<V>` is a finite map from strings to `V`, backed by a vector of
//! pairs with pairwise-distinct keys; its view is a `Map<Seq<char>, V>`.
//! `StrSet` is a finite set of strings with view `Set<Seq<char>>`.
//! Both also expose their backing order (`kv_seq` / `elem_seq`), so callers
//! can state exactly what an iteration over the container produces.

use vstd::prelude::*;

verus! {

/// The map denoted by a sequence of key/value pairs; later pairs win.
pub open spec fn pairs_to_map<V>(s: Seq<(String, V)>) -> Map<Seq<char>, V>
    decreases s.len(),
{
    if s.len() == 0 {
        Map::empty()
    } else {
        pairs_to_map(s.drop_last()).insert(s.last().0@, s.last().1)
    }
}

/// Key views of a pair sequence are pairwise distinct.
pub open spec fn distinct_keys<V>(s: Seq<(String, V)>) -> bool {
    forall|i: int, j: int| 0 <= i < j < s.len() ==> s[i].0@ != s[j].0@
}

pub proof fn lemma_pairs_to_map_dom<V>(s: Seq<(String, V)>)
    ensures
        forall|k: Seq<char>|
            pairs_to_map(s).dom().contains(k) <==> exists|i: int|
                0 <= i < s.len() && s[i].0@ == k,
    decreases s.len(),
{
    if s.len() > 0 {
        lemma_pairs_to_map_dom(s.drop_last());
        assert forall|k: Seq<char>| pairs_to_map(s).dom().contains(k) implies exists|i: int|
            0 <= i < s.len() && s[i].0@ == k by {
            if k == s.last().0@ {
                assert(s[s.len() - 1].0@ == k);
            } else {
                assert(pairs_to_map(s.drop_last()).dom().contains(k));
                let i = choose|i: int| 0 <= i < s.drop_last().len() && s.drop_last()[i].0@ == k;
                assert(s[i].0@ == k);
            }
        }
        assert forall|k: Seq<char>|
            (exists|i: int| 0 <= i < s.len() && s[i].0@ == k) implies pairs_to_map(
            s,
        ).dom().contains(k) by {
            let i = choose|i: int| 0 <= i < s.len() && s[i].0@ == k;
            if i < s.len() - 1 {
                assert(s.drop_last()[i].0@ == k);
                assert(pairs_to_map(s.drop_last()).dom().contains(k));
                assert(pairs_to_map(s) == pairs_to_map(s.drop_last()).insert(s.last().0@, s.last().1));
            }
        }
    }
}

pub proof fn lemma_pairs_to_map_get<V>(s: Seq<(String, V)>, i: int)
    requires
        distinct_keys(s),
        0 <= i < s.len(),
    ensures
        pairs_to_map(s).dom().contains(s[i].0@),
        pairs_to_map(s)[s[i].0@] == s[i].1,
    decreases s.len(),
{
    if i == s.len() - 1 {
    } else {
        assert(distinct_keys(s.drop_last()));
        lemma_pairs_to_map_get(s.drop_last(), i);
        assert(s.drop_last()[i] == s[i]);
        assert(s[i].0@ != s.last().0@);
    }
}

proof fn lemma_pairs_to_map_update<V>(s: Seq<(String, V)>, i: int, p: (String, V))
    requires
        distinct_keys(s),
        0 <= i < s.len(),
        p.0@ == s[i].0@,
    ensures
        pairs_to_map(s.update(i, p)) == pairs_to_map(s).insert(p.0@, p.1),
    decreases s.len(),
{
    lemma_pairs_to_map_dom(s);
    lemma_pairs_to_map_dom(s.update(i, p));
    if i == s.len() - 1 {
        assert(s.update(i, p).drop_last() =~= s.drop_last());
        assert(pairs_to_map(s.update(i, p)) =~= pairs_to_map(s).insert(p.0@, p.1));
    } else {
        assert(s.update(i, p).drop_last() =~= s.drop_last().update(i, p));
        assert(distinct_keys(s.drop_last()));
        lemma_pairs_to_map_update(s.drop_last(), i, p);
        assert(s.last().0@ != p.0@);
        assert(s.update(i, p).last() == s.last());
        assert(pairs_to_map(s.update(i, p)) =~= pairs_to_map(s).insert(p.0@, p.1));
    }
}

proof fn lemma_pairs_to_map_remove<V>(s: Seq<(String, V)>, i: int)
    requires
        distinct_keys(s),
        0 <= i < s.len(),
    ensures
        pairs_to_map(s.remove(i)) == pairs_to_map(s).remove(s[i].0@),
    decreases s.len(),
{
    lemma_pairs_to_map_dom(s);
    lemma_pairs_to_map_dom(s.remove(i));
    if i == s.len() - 1 {
        assert(s.remove(i) =~= s.drop_last());
        assert forall|k: Seq<char>| #[trigger] pairs_to_map(s.drop_last()).dom().contains(k) implies
            pairs_to_map(s.drop_last())[k] == pairs_to_map(s).remove(s[i].0@)[k] by {
            let j = choose|j: int| 0 <= j < s.drop_last().len() && s.drop_last()[j].0@ == k;
            assert(distinct_keys(s.drop_last()));
            lemma_pairs_to_map_get(s.drop_last(), j);
            lemma_pairs_to_map_get(s, j);
            assert(s[j].0@ != s[i].0@);
        }
        lemma_pairs_to_map_dom(s.drop_last());
        assert(pairs_to_map(s.remove(i)) =~= pairs_to_map(s).remove(s[i].0@));
    } else {
        assert(s.remove(i).drop_last() =~= s.drop_last().remove(i));
        assert(distinct_keys(s.drop_last()));
        lemma_pairs_to_map_remove(s.drop_last(), i);
        assert(s.remove(i).last() == s.last());
        assert(s.last().0@ != s[i].0@);
        assert(pairs_to_map(s.remove(i)) =~= pairs_to_map(s).remove(s[i].0@));
    }
}

/// A finite map from `String` keys to values, with view `Map<Seq<char>, V>`.
pub struct StrMap<V> {
    pairs: Vec<(String, V)>,
}

impl<V> View for StrMap<V> {
    type V = Map<Seq<char>, V>;

    closed spec fn view(&self) -> Map<Seq<char>, V> {
        pairs_to_map(self.pairs@)
    }
}

impl<V> StrMap<V> {
    /// Holds of every reachable value (it is the type invariant): key views
    /// of the backing pairs are pairwise distinct. Obtain it in a proof with
    /// `use_type_invariant`.
    #[verifier::type_invariant]
    pub closed spec fn wf(self) -> bool {
        distinct_keys(self.pairs@)
    }

    /// The backing key/value pairs, in storage order.
    pub closed spec fn kv_seq(self) -> Seq<(String, V)> {
        self.pairs@
    }

    /// Relates the view to the backing order: every pair is in the map, every
    /// key of the map comes from some pair, and key views are distinct.
    pub proof fn lemma_kv(&self)
        requires
            self.wf(),
        ensures
            distinct_keys(self.kv_seq()),
            forall|i: int|
                0 <= i < self.kv_seq().len() ==> self@.dom().contains(#[trigger] self.kv_seq()[i].0@)
                    && self@[self.kv_seq()[i].0@] == self.kv_seq()[i].1,
            forall|k: Seq<char>|
                self@.dom().contains(k) ==> exists|i: int|
                    0 <= i < self.kv_seq().len() && self.kv_seq()[i].0@ == k,
    {
        lemma_pairs_to_map_dom(self.pairs@);
        assert forall|i: int| 0 <= i < self.kv_seq().len() implies self@.dom().contains(
            #[trigger] self.kv_seq()[i].0@,
        ) && self@[self.kv_seq()[i].0@] == self.kv_seq()[i].1 by {
            lemma_pairs_to_map_get(self.pairs@, i);
        }
        assert forall|k: Seq<char>| self@.dom().contains(k) implies exists|i: int|
            0 <= i < self.kv_seq().len() && self.kv_seq()[i].0@ == k by {
            let i = choose|i: int| 0 <= i < self.pairs@.len() && self.pairs@[i].0@ == k;
            assert(self.kv_seq()[i].0@ == k);
        }
    }

    pub fn new() -> (r: Self)
        ensures
            r@ == Map::<Seq<char>, V>::empty(),
            r.kv_seq() == Seq::<(String, V)>::empty(),
    {
        StrMap { pairs: Vec::new() }
    }

    pub fn len(&self) -> (r: usize)
        ensures
            r == self.kv_seq().len(),
    {
        self.pairs.len()
    }

    /// The backing pairs, for iteration in storage order.
    pub fn entries(&self) -> (r: &Vec<(String, V)>)
        ensures
            r@ == self.kv_seq(),
    {
        &self.pairs
    }

    fn index_of(&self, key: &String) -> (r: Option<usize>)
        ensures
            match r {
                Some(i) => i < self.kv_seq().len() && self.kv_seq()[i as int].0@ == key@,
                None => forall|i: int|
                    0 <= i < self.kv_seq().len() ==> (#[trigger] self.kv_seq()[i]).0@ != key@,
            },
    {
        let n = self.pairs.len();
        for i in 0..n
            invariant
                n == self.kv_seq().len(),
                forall|j: int| 0 <= j < i ==> (#[trigger] self.kv_seq()[j]).0@ != key@,
        {
            if self.pairs[i].0 == *key {
                return Some(i);
            }
        }
        None
    }

    pub fn contains_key(&self, key: &String) -> (r: bool)
        ensures
            r == self@.dom().contains(key@),
    {
        proof {
            use_type_invariant(self);
            self.lemma_kv();
        }
        self.index_of(key).is_some()
    }

    pub fn get<'a>(&'a self, key: &String) -> (r: Option<&'a V>)
        ensures
            match r {
                Some(v) => self@.dom().contains(key@) && *v == self@[key@],
                None => !self@.dom().contains(key@),
            },
    {
        proof {
            use_type_invariant(self);
            self.lemma_kv();
        }
        match self.index_of(key) {
            Some(i) => Some(&self.pairs[i].1),
            None => None,
        }
    }

    /// Inserts, replacing in place when the key is present and appending
    /// otherwise; the backing order of other pairs is kept.
    pub fn insert(&mut self, key: String, value: V)
        ensures
            final(self)@ == old(self)@.insert(key@, value),
            old(self)@.dom().contains(key@) ==> exists|i: int|
                0 <= i < old(self).kv_seq().len() && old(self).kv_seq()[i].0@ == key@
                    && final(self).kv_seq() == old(self).kv_seq().update(i, (key, value)),
            !old(self)@.dom().contains(key@) ==> final(self).kv_seq() == old(self).kv_seq().push(
                (key, value),
            ),
    {
        proof {
            use_type_invariant(&*self);
            self.lemma_kv();
        }
        let idx = self.index_of(&key);
        let mut pairs: Vec<(String, V)> = Vec::new();
        std::mem::swap(&mut pairs, &mut self.pairs);
        match idx {
            Some(i) => {
                proof {
                    lemma_pairs_to_map_get(pairs@, i as int);
                    lemma_pairs_to_map_update(pairs@, i as int, (key, value));
                }
                pairs.set(i, (key, value));
            },
            None => {
                proof {
                    assert(pairs@.push((key, value)).drop_last() =~= pairs@);
                }
                pairs.push((key, value));
            },
        }
        self.pairs = pairs;
    }

    /// Removes the pair for `key` if present, keeping the order of the rest.
    pub fn remove(&mut self, key: &String) -> (r: Option<V>)
        ensures
            final(self)@ == old(self)@.remove(key@),
            match r {
                Some(v) => old(self)@.dom().contains(key@) && v == old(self)@[key@]
                    && exists|i: int|
                    0 <= i < old(self).kv_seq().len() && old(self).kv_seq()[i].0@ == key@
                        && final(self).kv_seq() == old(self).kv_seq().remove(i),
                None => !old(self)@.dom().contains(key@) && *final(self) == *old(self),
            },
    {
        proof {
            use_type_invariant(&*self);
            self.lemma_kv();
        }
        let idx = self.index_of(key);
        match idx {
            Some(i) => {
                let mut pairs: Vec<(String, V)> = Vec::new();
                std::mem::swap(&mut pairs, &mut self.pairs);
                proof {
                    lemma_pairs_to_map_get(pairs@, i as int);
                    lemma_pairs_to_map_remove(pairs@, i as int);
                }
                let pair = pairs.remove(i);
                self.pairs = pairs;
                Some(pair.1)
            },
            None => {
                proof {
                    lemma_pairs_to_map_dom(self.pairs@);
                    assert(pairs_to_map(self.pairs@).remove(key@) =~= pairs_to_map(self.pairs@));
                }
                None
            },
        }
    }
}

impl StrMap<String> {
    /// A copy with the same view and backing order.
    pub fn duplicate(&self) -> (r: Self)
        ensures
            r@ == self@,
            r.kv_seq().len() == self.kv_seq().len(),
            forall|i: int|
                0 <= i < self.kv_seq().len() ==> (#[trigger] r.kv_seq()[i]).0@
                    == self.kv_seq()[i].0@ && r.kv_seq()[i].1@ == self.kv_seq()[i].1@,
    {
        proof {
            use_type_invariant(self);
        }
        let n = self.pairs.len();
        let mut pairs: Vec<(String, String)> = Vec::new();
        for i in 0..n
            invariant
                n == self.pairs@.len(),
                pairs@.len() == i,
                forall|j: int| 0 <= j < i ==> #[trigger] pairs@[j] == self.pairs@[j],
        {
            let k = self.pairs[i].0.clone();
            let v = self.pairs[i].1.clone();
            pairs.push((k, v));
        }
        proof {
            assert(pairs@ =~= self.pairs@);
        }
        StrMap { pairs }
    }
}

/// A finite set of strings, with view `Set<Seq<char>>`.
pub struct StrSet {
    elems: Vec<String>,
}

/// The set of views of a string sequence.
pub open spec fn strings_to_set(s: Seq<String>) -> Set<Seq<char>> {
    Set::new(|k: Seq<char>| exists|i: int| 0 <= i < s.len() && s[i]@ == k)
}

/// String views of a sequence are pairwise distinct.
pub open spec fn distinct_strings(s: Seq<String>) -> bool {
    forall|i: int, j: int| 0 <= i < j < s.len() ==> s[i]@ != s[j]@
}

impl View for StrSet {
    type V = Set<Seq<char>>;

    closed spec fn view(&self) -> Set<Seq<char>> {
        strings_to_set(self.elems@)
    }
}

impl StrSet {
    /// Holds of every reachable value (it is the type invariant): element
    /// views are pairwise distinct.
    #[verifier::type_invariant]
    pub closed spec fn wf(self) -> bool {
        distinct_strings(self.elems@)
    }

    /// The backing elements, in storage order.
    pub closed spec fn elem_seq(self) -> Seq<String> {
        self.elems@
    }

    pub proof fn lemma_elems(&self)
        requires
            self.wf(),
        ensures
            distinct_strings(self.elem_seq()),
            forall|i: int|
                0 <= i < self.elem_seq().len() ==> self@.contains(#[trigger] self.elem_seq()[i]@),
            forall|k: Seq<char>|
                self@.contains(k) ==> exists|i: int|
                    0 <= i < self.elem_seq().len() && self.elem_seq()[i]@ == k,
    {
    }

    pub fn new() -> (r: Self)
        ensures
            r@ == Set::<Seq<char>>::empty(),
            r.elem_seq() == Seq::<String>::empty(),
    {
        let r = StrSet { elems: Vec::new() };
        proof {
            assert(r@ =~= Set::<Seq<char>>::empty());
        }
        r
    }

    pub fn len(&self) -> (r: usize)
        ensures
            r == self.elem_seq().len(),
    {
        self.elems.len()
    }

    /// The backing elements, for iteration in storage order.
    pub fn elems(&self) -> (r: &Vec<String>)
        ensures
            r@ == self.elem_seq(),
    {
        &self.elems
    }

    fn index_of(&self, s: &String) -> (r: Option<usize>)
        ensures
            match r {
                Some(i) => i < self.elem_seq().len() && self.elem_seq()[i as int]@ == s@,
                None => forall|i: int|
                    0 <= i < self.elem_seq().len() ==> (#[trigger] self.elem_seq()[i])@ != s@,
            },
    {
        let n = self.elems.len();
        for i in 0..n
            invariant
                n == self.elem_seq().len(),
                forall|j: int| 0 <= j < i ==> (#[trigger] self.elem_seq()[j])@ != s@,
        {
            if self.elems[i] == *s {
                return Some(i);
            }
        }
        None
    }

    pub fn contains(&self, s: &String) -> (r: bool)
        ensures
            r == self@.contains(s@),
    {
        proof {
            use_type_invariant(self);
            self.lemma_elems();
        }
        self.index_of(s).is_some()
    }

    /// Inserts, appending when absent; the backing order is kept.
    pub fn insert(&mut self, s: String)
        ensures
            final(self)@ == old(self)@.insert(s@),
            old(self)@.contains(s@) ==> final(self).elem_seq() == old(self).elem_seq(),
            !old(self)@.contains(s@) ==> final(self).elem_seq() == old(self).elem_seq().push(s),
    {
        proof {
            use_type_invariant(&*self);
        }
        match self.index_of(&s) {
            Some(i) => {
                proof {
                    assert(old(self).elem_seq()[i as int]@ == s@);
                    assert(old(self)@.contains(s@));
                    assert(final(self)@ =~= old(self)@.insert(s@));
                }
            },
            None => {
                let ghost oe = self.elems@;
                let ghost sv = s@;
                proof {
                    assert forall|i: int| 0 <= i < oe.len() implies (#[trigger] oe[i])@ != sv by {
                        assert(self.elem_seq()[i]@ != sv);
                    }
                }
                let mut elems: Vec<String> = Vec::new();
                std::mem::swap(&mut elems, &mut self.elems);
                elems.push(s);
                proof {
                    assert forall|i: int, j: int| 0 <= i < j < elems@.len() implies elems@[i]@
                        != elems@[j]@ by {
                        if j == oe.len() {
                            assert(elems@[i] == oe[i]);
                            assert(oe[i]@ != sv);
                        } else {
                            assert(elems@[i] == oe[i] && elems@[j] == oe[j]);
                        }
                    }
                }
                self.elems = elems;
                proof {
                    assert forall|k: Seq<char>| final(self)@.contains(k) implies old(self)@.insert(s@).contains(k) by {
                        let j = choose|j: int|
                            0 <= j < self.elems@.len() && self.elems@[j]@ == k;
                        if j < oe.len() {
                            assert(oe[j]@ == k);
                        }
                    }
                    assert forall|k: Seq<char>| old(self)@.insert(s@).contains(k) implies final(self)@.contains(k) by {
                        if k == s@ {
                            assert(self.elems@[oe.len() as int]@ == k);
                        } else {
                            let j = choose|j: int| 0 <= j < oe.len() && oe[j]@ == k;
                            assert(self.elems@[j]@ == k);
                        }
                    }
                    assert(final(self)@ =~= old(self)@.insert(s@));
                }
            },
        }
    }

    /// Removes `s` if present, keeping the order of the rest.
    pub fn remove(&mut self, s: &String)
        ensures
            final(self)@ == old(self)@.remove(s@),
            old(self)@.contains(s@) ==> exists|i: int|
                0 <= i < old(self).elem_seq().len() && old(self).elem_seq()[i]@ == s@
                    && final(self).elem_seq() == old(self).elem_seq().remove(i),
            !old(self)@.contains(s@) ==> *final(self) == *old(self),
    {
        proof {
            use_type_invariant(&*self);
        }
        match self.index_of(s) {
            Some(i) => {
                let mut elems: Vec<String> = Vec::new();
                std::mem::swap(&mut elems, &mut self.elems);
                elems.remove(i);
                self.elems = elems;
                proof {
                    let oe = old(self).elem_seq();
                    assert forall|k: Seq<char>| final(self)@.contains(k) implies old(self)@.remove(s@).contains(k) by {
                        let j = choose|j: int|
                            0 <= j < self.elems@.len() && self.elems@[j]@ == k;
                        if j < i {
                            assert(oe[j]@ == k);
                            assert(oe[j]@ != oe[i as int]@);
                        } else {
                            assert(oe[j + 1]@ == k);
                            assert(oe[j + 1]@ != oe[i as int]@);
                        }
                    }
                    assert forall|k: Seq<char>|
                        old(self)@.remove(s@).contains(k) implies final(self)@.contains(k) by {
                        let j = choose|j: int| 0 <= j < oe.len() && oe[j]@ == k;
                        if j < i {
                            assert(self.elems@[j]@ == k);
                        } else {
                            assert(j != i) by {
                                assert(oe[i as int]@ == s@);
                            }
                            assert(self.elems@[j - 1]@ == k);
                        }
                    }
                    assert(final(self)@ =~= old(self)@.remove(s@));
                }
            },
            None => {
                proof {
                    assert forall|k: Seq<char>| final(self)@.contains(k) implies old(self)@.remove(s@).contains(k) by {
                        let j = choose|j: int|
                            0 <= j < self.elems@.len() && self.elems@[j]@ == k;
                        assert(self.elem_seq()[j]@ != s@);
                    }
                    assert(final(self)@ =~= old(self)@.remove(s@));
                }
            },
        }
    }

    /// A copy with the same view and backing order.
    pub fn duplicate(&self) -> (r: Self)
        ensures
            r@ == self@,
            r.elem_seq().len() == self.elem_seq().len(),
            forall|i: int|
                0 <= i < self.elem_seq().len() ==> (#[trigger] r.elem_seq()[i])@
                    == self.elem_seq()[i]@,
    {
        proof {
            use_type_invariant(self);
        }
        let n = self.elems.len();
        let mut elems: Vec<String> = Vec::new();
        for i in 0..n
            invariant
                n == self.elems@.len(),
                elems@.len() == i,
                forall|j: int| 0 <= j < i ==> #[trigger] elems@[j] == self.elems@[j],
        {
            elems.push(self.elems[i].clone());
        }
        proof {
            assert(elems@ =~= self.elems@);
        }
        let r = StrSet { elems };
        proof {
            assert(r@ =~= self@);
        }
        r
    }
}

} // verus!
