//! Series of one metric family: values keyed by their label values, viewed as a map
//! from label tuples to values.
use crate::text::str_eq;
use vstd::prelude::*;

verus! {

/// Label values of a series, as character sequences.
pub open spec fn labels_view(k: Vec<String>) -> Seq<Seq<char>> {
    k@.map_values(|s: String| s@)
}

/// Whether two label tuples are equal.
pub fn labels_eq(a: &Vec<String>, b: &Vec<String>) -> (r: bool)
    ensures
        r == (labels_view(*a) == labels_view(*b)),
{
    if a.len() != b.len() {
        return false;
    }
    let mut i: usize = 0;
    while i < a.len()
        invariant
            a@.len() == b@.len(),
            i <= a@.len(),
            forall|j: int| 0 <= j < i ==> a@[j]@ == b@[j]@,
        decreases a@.len() - i,
    {
        if !str_eq(a[i].as_str(), b[i].as_str()) {
            assert(labels_view(*a)[i as int] != labels_view(*b)[i as int]);
            return false;
        }
        i += 1;
    }
    assert(labels_view(*a) =~= labels_view(*b));
    true
}

/// A copy of a label tuple.
pub fn clone_labels(a: &Vec<String>) -> (r: Vec<String>)
    ensures
        labels_view(r) == labels_view(*a),
{
    let mut out: Vec<String> = Vec::new();
    let mut i: usize = 0;
    while i < a.len()
        invariant
            i <= a@.len(),
            out@.len() == i,
            forall|j: int| 0 <= j < i ==> out@[j]@ == a@[j]@,
        decreases a@.len() - i,
    {
        out.push(a[i].clone());
        i += 1;
    }
    assert(labels_view(out) =~= labels_view(*a));
    out
}

/// The series of one family.
pub struct Table<V> {
    pub keys: Vec<Vec<String>>,
    pub vals: Vec<V>,
}

impl<V> Table<V> {
    pub open spec fn key_at(&self, i: int) -> Seq<Seq<char>> {
        labels_view(self.keys@[i])
    }

    /// The keys are distinct and each has a value.
    pub open spec fn wf(&self) -> bool {
        &&& self.keys@.len() == self.vals@.len()
        &&& forall|i: int, j: int|
            0 <= i < j < self.keys@.len() ==> self.key_at(i) != self.key_at(j)
    }

    pub open spec fn has(&self, k: Seq<Seq<char>>) -> bool {
        exists|i: int| 0 <= i < self.keys@.len() && self.key_at(i) == k
    }

    /// The series as a map from label tuples to values.
    pub open spec fn view(&self) -> Map<Seq<Seq<char>>, V> {
        Map::new(
            |k: Seq<Seq<char>>| self.has(k),
            |k: Seq<Seq<char>>|
                self.vals@[choose|i: int| 0 <= i < self.keys@.len() && self.key_at(i) == k],
        )
    }

    pub proof fn lemma_view_at(&self, i: int)
        requires
            self.wf(),
            0 <= i < self.keys@.len(),
        ensures
            self.view().contains_key(self.key_at(i)),
            self.view()[self.key_at(i)] == self.vals@[i],
    {
        let k = self.key_at(i);
        assert(self.has(k));
        let c = choose|c: int| 0 <= c < self.keys@.len() && self.key_at(c) == k;
        assert(c == i);
    }

    pub fn new() -> (r: Table<V>)
        ensures
            r.wf(),
            r.keys@.len() == 0,
            r.view() == Map::<Seq<Seq<char>>, V>::empty(),
    {
        let r = Table { keys: Vec::new(), vals: Vec::new() };
        assert(r.view() =~= Map::<Seq<Seq<char>>, V>::empty());
        r
    }

    pub fn len(&self) -> (r: usize)
        ensures
            r == self.keys@.len(),
    {
        self.keys.len()
    }

    /// Index of the series with label values `key`.
    pub fn find(&self, key: &Vec<String>) -> (r: Option<usize>)
        requires
            self.wf(),
        ensures
            r matches Some(j) ==> j < self.keys@.len() && self.key_at(j as int) == labels_view(
                *key,
            ),
            r is None ==> !self.view().contains_key(labels_view(*key)),
    {
        let mut j: usize = 0;
        while j < self.keys.len()
            invariant
                self.wf(),
                j <= self.keys@.len(),
                forall|i: int| 0 <= i < j ==> self.key_at(i) != labels_view(*key),
            decreases self.keys@.len() - j,
        {
            if labels_eq(&self.keys[j], key) {
                return Some(j);
            }
            j += 1;
        }
        None
    }

    /// Sets the value of the series `key`, creating the series where needed.
    pub fn set(&mut self, key: Vec<String>, v: V)
        requires
            old(self).wf(),
        ensures
            final(self).wf(),
            final(self).view() == old(self).view().insert(labels_view(key), v),
    {
        let ghost k = labels_view(key);
        match self.find(&key) {
            Some(j) => {
                self.vals.set(j, v);
                proof {
                    assert forall|i: int| 0 <= i < self.keys@.len() implies self.key_at(i)
                        == old(self).key_at(i) by {}
                    assert(self.view() =~= old(self).view().insert(k, v)) by {
                        assert forall|kk: Seq<Seq<char>>|
                            self.view().contains_key(kk) implies self.view()[kk] == old(
                                self,
                            ).view().insert(k, v)[kk] by {
                            let c = choose|c: int|
                                0 <= c < self.keys@.len() && self.key_at(c) == kk;
                            self.lemma_view_at(c);
                            old(self).lemma_view_at(c);
                        }
                        assert forall|kk: Seq<Seq<char>>|
                            old(self).view().insert(k, v).contains_key(
                                kk,
                            ) implies self.view().contains_key(kk) by {
                            if kk != k {
                                let c = choose|c: int|
                                    0 <= c < old(self).keys@.len() && old(self).key_at(c) == kk;
                                assert(self.key_at(c) == kk);
                            } else {
                                assert(self.key_at(j as int) == kk);
                            }
                        }
                    }
                }
            },
            None => {
                self.keys.push(key);
                self.vals.push(v);
                proof {
                    let n = old(self).keys@.len() as int;
                    assert forall|i: int| 0 <= i < n implies self.key_at(i) == old(self).key_at(
                        i,
                    ) by {}
                    assert(self.key_at(n) == k);
                    assert forall|i: int, jj: int|
                        0 <= i < jj < self.keys@.len() implies self.key_at(i) != self.key_at(
                        jj,
                    ) by {
                        if jj == n {
                            assert(old(self).has(self.key_at(i)) ==> old(self).view().contains_key(self.key_at(i)));
                        }
                    }
                    assert(self.view() =~= old(self).view().insert(k, v)) by {
                        assert forall|kk: Seq<Seq<char>>|
                            self.view().contains_key(kk) implies self.view()[kk] == old(
                                self,
                            ).view().insert(k, v)[kk] by {
                            let c = choose|c: int|
                                0 <= c < self.keys@.len() && self.key_at(c) == kk;
                            self.lemma_view_at(c);
                            if c < n {
                                old(self).lemma_view_at(c);
                            }
                        }
                        assert forall|kk: Seq<Seq<char>>|
                            old(self).view().insert(k, v).contains_key(
                                kk,
                            ) implies self.view().contains_key(kk) by {
                            if kk != k {
                                let c = choose|c: int|
                                    0 <= c < old(self).keys@.len() && old(self).key_at(c) == kk;
                                assert(self.key_at(c) == kk);
                            }
                        }
                    }
                }
            },
        }
    }

    /// Removes the series at index `j`.
    pub fn remove_at(&mut self, j: usize)
        requires
            old(self).wf(),
            j < old(self).keys@.len(),
        ensures
            final(self).wf(),
            final(self).view() == old(self).view().remove(old(self).key_at(j as int)),
            final(self).keys@.len() == old(self).keys@.len() - 1,
            forall|i: int| 0 <= i < j ==> #[trigger] final(self).keys@[i] == old(self).keys@[i] && final(self).vals@[i] == old(self).vals@[i],
            forall|i: int| j <= i < final(self).keys@.len() ==> #[trigger] final(self).keys@[i] == old(self).keys@[i + 1] && final(self).vals@[i] == old(self).vals@[i + 1],
    {
        let ghost k = old(self).key_at(j as int);
        let _k = self.keys.remove(j);
        let _v = self.vals.remove(j);
        proof {
            let o = *old(self);
            assert forall|i: int| 0 <= i < self.keys@.len() implies self.key_at(i) == o.key_at(
                if i < j {
                    i
                } else {
                    i + 1
                },
            ) by {}
            assert forall|i: int, jj: int|
                0 <= i < jj < self.keys@.len() implies self.key_at(i) != self.key_at(jj) by {
                let oi = if i < j {
                    i
                } else {
                    i + 1
                };
                let oj = if jj < j {
                    jj
                } else {
                    jj + 1
                };
                assert(self.key_at(i) == o.key_at(oi));
                assert(self.key_at(jj) == o.key_at(oj));
            }
            assert(self.view() =~= o.view().remove(k)) by {
                assert forall|kk: Seq<Seq<char>>|
                    self.view().contains_key(kk) implies o.view().remove(k).contains_key(kk)
                    && self.view()[kk] == o.view().remove(k)[kk] by {
                    let c = choose|c: int| 0 <= c < self.keys@.len() && self.key_at(c) == kk;
                    let oc = if c < j {
                        c
                    } else {
                        c + 1
                    };
                    assert(self.key_at(c) == o.key_at(oc));
                    self.lemma_view_at(c);
                    o.lemma_view_at(oc);
                    assert(kk != k);
                }
                assert forall|kk: Seq<Seq<char>>|
                    o.view().remove(k).contains_key(kk) implies self.view().contains_key(kk) by {
                    let c = choose|c: int| 0 <= c < o.keys@.len() && o.key_at(c) == kk;
                    assert(c != j);
                    let nc = if c < j {
                        c
                    } else {
                        c - 1
                    };
                    assert(self.key_at(nc) == kk);
                }
            }
        }
    }

    /// Removes the series `key`, if present.
    pub fn remove(&mut self, key: &Vec<String>)
        requires
            old(self).wf(),
        ensures
            final(self).wf(),
            final(self).view() == old(self).view().remove(labels_view(*key)),
    {
        match self.find(key) {
            Some(j) => {
                self.remove_at(j);
            },
            None => {
                assert(self.view() =~= old(self).view().remove(labels_view(*key)));
            },
        }
    }
}

impl<V: Copy> Table<V> {
    /// Keys among the first `n` positions that `keep` marks.
    pub open spec fn marked_keys(&self, keep: Seq<bool>, n: int) -> Set<Seq<Seq<char>>> {
        Set::new(
            |k: Seq<Seq<char>>| exists|o: int| 0 <= o < n && keep[o] && self.key_at(o) == k,
        )
    }

    /// The series whose position `keep` marks; the others are dropped.
    pub fn retain_marked(&mut self, keep: &Vec<bool>)
        requires
            old(self).wf(),
            keep@.len() == old(self).keys@.len(),
        ensures
            final(self).wf(),
            final(self).view() == old(self).view().restrict(
                old(self).marked_keys(keep@, keep@.len() as int),
            ),
    {
        let mut out: Table<V> = Table::new();
        let mut i: usize = 0;
        while i < self.keys.len()
            invariant
                self.wf(),
                keep@.len() == self.keys@.len(),
                i <= self.keys@.len(),
                out.wf(),
                out.view() == self.view().restrict(self.marked_keys(keep@, i as int)),
            decreases self.keys@.len() - i,
        {
            if keep[i] {
                let k = clone_labels(&self.keys[i]);
                let v = self.vals[i];
                out.set(k, v);
                proof {
                    self.lemma_view_at(i as int);
                    let ki = self.key_at(i as int);
                    assert(self.marked_keys(keep@, i + 1) =~= self.marked_keys(keep@, i as int).insert(ki));
                    assert(out.view() =~= self.view().restrict(self.marked_keys(keep@, i + 1)));
                }
            } else {
                proof {
                    assert(self.marked_keys(keep@, i + 1) =~= self.marked_keys(keep@, i as int));
                }
            }
            i += 1;
        }
        *self = out;
    }

    /// Two tables with the same keys: each key's value is the value at its position.
    pub proof fn lemma_same_keys(&self, other: &Table<V>, k: Seq<Seq<char>>)
        requires
            self.wf(),
            other.wf(),
            self.keys@ == other.keys@,
            self.view().contains_key(k),
        ensures
            other.view().contains_key(k),
            exists|c: int|
                0 <= c < self.keys@.len() && self.key_at(c) == k && self.view()[k] == self.vals@[c]
                    && other.view()[k] == other.vals@[c],
    {
        let c = choose|c: int| 0 <= c < self.keys@.len() && self.key_at(c) == k;
        self.lemma_view_at(c);
        assert(other.key_at(c) == k);
        other.lemma_view_at(c);
    }

    /// Restricting to the marked keys is restricting to `p` when `keep` marks exactly
    /// the keys in `p`.
    pub proof fn lemma_marked_restrict(&self, keep: Seq<bool>, p: Set<Seq<Seq<char>>>)
        requires
            self.wf(),
            keep.len() == self.keys@.len(),
            forall|o: int| 0 <= o < keep.len() ==> #[trigger] keep[o] == p.contains(self.key_at(o)),
        ensures
            self.view().restrict(self.marked_keys(keep, keep.len() as int)) == self.view().restrict(p),
    {
        let a = self.view().restrict(self.marked_keys(keep, keep.len() as int));
        let b = self.view().restrict(p);
        assert forall|k: Seq<Seq<char>>| #[trigger] a.contains_key(k) implies b.contains_key(k) by {
            let o = choose|o: int| 0 <= o < keep.len() && keep[o] && self.key_at(o) == k;
        }
        assert forall|k: Seq<Seq<char>>| #[trigger] b.contains_key(k) implies a.contains_key(k) by {
            let o = choose|o: int| 0 <= o < self.keys@.len() && self.key_at(o) == k;
            assert(keep[o]);
        }
        assert(a =~= b);
    }

    /// Sets the value at index `j`; the keys stay as they are.
    pub fn update_at(&mut self, j: usize, v: V)
        requires
            old(self).wf(),
            j < old(self).keys@.len(),
        ensures
            final(self).wf(),
            final(self).keys@ == old(self).keys@,
            final(self).vals@ == old(self).vals@.update(j as int, v),
            final(self).view() == old(self).view().insert(old(self).key_at(j as int), v),
    {
        let ghost k = self.key_at(j as int);
        self.vals.set(j, v);
        proof {
            assert(self.keys@ == old(self).keys@);
            assert forall|i: int| 0 <= i < self.keys@.len() implies self.key_at(i) == old(self).key_at(i) by {}
            assert(self.wf());
            assert(self.view() =~= old(self).view().insert(k, v)) by {
                assert forall|kk: Seq<Seq<char>>|
                    self.view().contains_key(kk) implies self.view()[kk] == old(self).view().insert(
                        k,
                        v,
                    )[kk] by {
                    let c = choose|c: int| 0 <= c < self.keys@.len() && self.key_at(c) == kk;
                    self.lemma_view_at(c);
                    old(self).lemma_view_at(c);
                }
                assert forall|kk: Seq<Seq<char>>|
                    old(self).view().insert(k, v).contains_key(kk) implies self.view().contains_key(
                        kk,
                    ) by {
                    if kk != k {
                        let c = choose|c: int|
                            0 <= c < old(self).keys@.len() && old(self).key_at(c) == kk;
                        assert(self.key_at(c) == kk);
                    } else {
                        assert(self.key_at(j as int) == kk);
                    }
                }
            }
        }
    }

    /// The value of the series `key`, if present.
    pub fn get(&self, key: &Vec<String>) -> (r: Option<V>)
        requires
            self.wf(),
        ensures
            r matches Some(v) ==> self.view().contains_key(labels_view(*key)) && v
                == self.view()[labels_view(*key)],
            r is None ==> !self.view().contains_key(labels_view(*key)),
    {
        match self.find(key) {
            Some(j) => {
                proof {
                    self.lemma_view_at(j as int);
                }
                Some(self.vals[j])
            },
            None => None,
        }
    }
}

} // verus!
