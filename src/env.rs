use vstd::prelude::*;

verus! {

/// Index `i` of `s` holds the key `k`.
pub open spec fn key_at(s: Seq<(Seq<char>, Seq<char>)>, k: Seq<char>, i: int) -> bool {
    0 <= i < s.len() && s[i].0 == k
}

/// Some entry of `s` holds the key `k`.
pub open spec fn has_key(s: Seq<(Seq<char>, Seq<char>)>, k: Seq<char>) -> bool {
    exists|i: int| key_at(s, k, i)
}

/// No key occurs twice in `s`.
pub open spec fn keys_unique(s: Seq<(Seq<char>, Seq<char>)>) -> bool {
    forall|i: int, j: int| 0 <= i < s.len() && 0 <= j < s.len() && i != j ==> s[i].0 != s[j].0
}

/// The value stored under `k`, if any.
pub open spec fn lookup(s: Seq<(Seq<char>, Seq<char>)>, k: Seq<char>) -> Option<Seq<char>> {
    if has_key(s, k) {
        Some(s[choose|i: int| key_at(s, k, i)].1)
    } else {
        None
    }
}

/// The mapping that the entries of `s` describe.
pub open spec fn as_map(s: Seq<(Seq<char>, Seq<char>)>) -> Map<Seq<char>, Seq<char>> {
    Map::new(|k: Seq<char>| has_key(s, k), |k: Seq<char>| lookup(s, k)->0)
}

proof fn lemma_lookup_at(s: Seq<(Seq<char>, Seq<char>)>, k: Seq<char>, i: int)
    requires
        keys_unique(s),
        key_at(s, k, i),
    ensures
        lookup(s, k) == Some(s[i].1),
{
    let j = choose|j: int| key_at(s, k, j);
    assert(key_at(s, k, j));
}

proof fn lemma_as_map_push(s: Seq<(Seq<char>, Seq<char>)>, kv: (Seq<char>, Seq<char>))
    requires
        keys_unique(s.push(kv)),
    ensures
        as_map(s.push(kv)) == as_map(s).insert(kv.0, kv.1),
{
    let t = s.push(kv);
    let n = s.len() as int;
    assert(keys_unique(s)) by {
        assert forall|i: int, j: int| 0 <= i < s.len() && 0 <= j < s.len() && i != j implies s[i].0 != s[j].0 by {
            assert(t[i] == s[i] && t[j] == s[j]);
        }
    }
    lemma_lookup_at(t, kv.0, n);
    assert forall|q: Seq<char>| #[trigger] as_map(t).contains_key(q) == as_map(s).insert(kv.0, kv.1).contains_key(q)
        && (as_map(t).contains_key(q) ==> as_map(t)[q] == as_map(s).insert(kv.0, kv.1)[q]) by {
        if q != kv.0 && has_key(t, q) {
            let j = choose|j: int| key_at(t, q, j);
            assert(j != n);
            assert(key_at(s, q, j));
            lemma_lookup_at(t, q, j);
            lemma_lookup_at(s, q, j);
        }
        if q != kv.0 && has_key(s, q) {
            let j = choose|j: int| key_at(s, q, j);
            assert(key_at(t, q, j));
        }
    }
    assert(as_map(t) =~= as_map(s).insert(kv.0, kv.1));
}

/// A set of environment variables: names mapped to values, each name at most once.
#[derive(Debug, Clone)]
pub struct EnvVars {
    entries: Vec<(String, String)>,
}

impl EnvVars {
    pub closed spec fn entries_view(&self) -> Seq<(Seq<char>, Seq<char>)> {
        self.entries@.map_values(|e: (String, String)| (e.0@, e.1@))
    }

    /// The variables as a map from name to value.
    pub open spec fn view(&self) -> Map<Seq<char>, Seq<char>> {
        as_map(self.entries_view())
    }

    pub open spec fn wf(&self) -> bool {
        keys_unique(self.entries_view())
    }

    /// An independent copy.
    pub fn snapshot(&self) -> (r: EnvVars)
        ensures
            r.entries_view() == self.entries_view(),
            r@ == self@,
            r.wf() == self.wf(),
    {
        let mut entries: Vec<(String, String)> = Vec::new();
        let mut i: usize = 0;
        while i < self.entries.len()
            invariant
                i <= self.entries@.len(),
                entries@.len() == i,
                forall|j: int| 0 <= j < i ==> (#[trigger] entries@[j]).0@ == self.entries@[j].0@
                    && entries@[j].1@ == self.entries@[j].1@,
            decreases self.entries.len() - i,
        {
            entries.push((self.entries[i].0.clone(), self.entries[i].1.clone()));
            i = i + 1;
        }
        let r = EnvVars { entries };
        assert(r.entries_view() =~= self.entries_view());
        r
    }

    /// Every variable as a (name, value) pair, each name once.
    pub fn pairs(&self) -> (r: Vec<(String, String)>)
        ensures
            r@.map_values(|e: (String, String)| (e.0@, e.1@)) == self.entries_view(),
    {
        let copy = self.snapshot();
        copy.entries
    }

    /// No variables.
    pub fn new() -> (r: EnvVars)
        ensures
            r.wf(),
            r@ == Map::<Seq<char>, Seq<char>>::empty(),
    {
        let r = EnvVars { entries: Vec::new() };
        assert(r@ =~= Map::<Seq<char>, Seq<char>>::empty());
        r
    }

    pub fn len(&self) -> (r: usize)
        requires
            self.wf(),
        ensures
            r as nat == self@.len(),
    {
        proof {
            self.lemma_len();
        }
        self.entries.len()
    }

    pub fn is_empty(&self) -> (r: bool)
        requires
            self.wf(),
        ensures
            r == (self@.len() == 0),
    {
        self.len() == 0
    }

    proof fn lemma_len(&self)
        requires
            self.wf(),
        ensures
            self@.len() == self.entries@.len(),
            self@.dom().finite(),
        decreases self.entries@.len(),
    {
        let s = self.entries_view();
        let n = s.len();
        // The domain is the image of the index range under the key projection.
        let keys = Seq::new(n, |i: int| s[i].0);
        assert(keys.no_duplicates());
        assert(self@.dom() =~= keys.to_set()) by {
            assert forall|k: Seq<char>| self@.dom().contains(k) <==> keys.to_set().contains(k) by {
                if has_key(s, k) {
                    let i = choose|i: int| key_at(s, k, i);
                    assert(keys[i] == k);
                }
                if keys.to_set().contains(k) {
                    let i = choose|i: int| 0 <= i < keys.len() && keys[i] == k;
                    assert(key_at(s, k, i));
                }
            }
        }
        keys.unique_seq_to_set();
    }

    /// Index of the entry named `k`, if any.
    fn find(&self, k: &str) -> (r: Option<usize>)
        requires
            self.wf(),
        ensures
            r is Some ==> key_at(self.entries_view(), k@, r->0 as int),
            r is None ==> !has_key(self.entries_view(), k@),
    {
        let key = String::from_str(k);
        let mut i: usize = 0;
        while i < self.entries.len()
            invariant
                key@ == k@,
                forall|j: int| 0 <= j < i ==> !key_at(self.entries_view(), k@, j),
            decreases self.entries.len() - i,
        {
            assert(self.entries_view()[i as int] == (self.entries@[i as int].0@, self.entries@[i as int].1@));
            if self.entries[i].0 == key {
                return Some(i);
            }
            i = i + 1;
        }
        None
    }

    /// The value of the variable named `k`, if set.
    pub fn get(&self, k: &str) -> (r: Option<&String>)
        requires
            self.wf(),
        ensures
            r is Some <==> self@.contains_key(k@),
            r is Some ==> r->0@ == self@[k@],
    {
        match self.find(k) {
            Some(i) => {
                proof {
                    lemma_lookup_at(self.entries_view(), k@, i as int);
                }
                Some(&self.entries[i].1)
            },
            None => None,
        }
    }

    /// Sets `k` to `v`, replacing any earlier value.
    pub fn set(&mut self, k: String, v: String)
        requires
            old(self).wf(),
        ensures
            final(self).wf(),
            final(self)@ == old(self)@.insert(k@, v@),
    {
        let ghost old_s = self.entries_view();
        let ghost kv = k@;
        let ghost vv = v@;
        match self.find(k.as_str()) {
            Some(i) => {
                self.entries.set(i, (k, v));
                proof {
                    let s = self.entries_view();
                    assert(s =~= old_s.update(i as int, (kv, vv)));
                    assert(keys_unique(s));
                    lemma_lookup_at(s, kv, i as int);
                    assert forall|q: Seq<char>| #[trigger] self@.contains_key(q) == old(self)@.insert(kv, vv).contains_key(q)
                        && (self@.contains_key(q) ==> self@[q] == old(self)@.insert(kv, vv)[q]) by {
                        if q != kv && has_key(s, q) {
                            let j = choose|j: int| key_at(s, q, j);
                            assert(key_at(old_s, q, j));
                            lemma_lookup_at(s, q, j);
                            lemma_lookup_at(old_s, q, j);
                        }
                        if q != kv && has_key(old_s, q) {
                            let j = choose|j: int| key_at(old_s, q, j);
                            assert(key_at(s, q, j));
                        }
                    }
                    assert(self@ =~= old(self)@.insert(kv, vv));
                }
            },
            None => {
                self.entries.push((k, v));
                proof {
                    let s = self.entries_view();
                    let n = old_s.len() as int;
                    assert(s =~= old_s.push((kv, vv)));
                    assert(keys_unique(s)) by {
                        assert forall|j: int| 0 <= j < n implies s[j].0 != kv by {
                            assert(!key_at(old_s, kv, j));
                        }
                    }
                    lemma_lookup_at(s, kv, n);
                    assert forall|q: Seq<char>| #[trigger] self@.contains_key(q) == old(self)@.insert(kv, vv).contains_key(q)
                        && (self@.contains_key(q) ==> self@[q] == old(self)@.insert(kv, vv)[q]) by {
                        if q != kv && has_key(s, q) {
                            let j = choose|j: int| key_at(s, q, j);
                            assert(key_at(old_s, q, j));
                            lemma_lookup_at(s, q, j);
                            lemma_lookup_at(old_s, q, j);
                        }
                        if q != kv && has_key(old_s, q) {
                            let j = choose|j: int| key_at(old_s, q, j);
                            assert(key_at(s, q, j));
                        }
                    }
                    assert(self@ =~= old(self)@.insert(kv, vv));
                }
            },
        }
    }

    /// Unsets `k`, handing back its value if it was set.
    pub fn remove(&mut self, k: &str) -> (r: Option<String>)
        requires
            old(self).wf(),
        ensures
            final(self).wf(),
            final(self)@ == old(self)@.remove(k@),
            r is Some <==> old(self)@.contains_key(k@),
            r is Some ==> r->0@ == old(self)@[k@],
    {
        let ghost old_s = self.entries_view();
        match self.find(k) {
            Some(i) => {
                proof {
                    lemma_lookup_at(old_s, k@, i as int);
                }
                let (_, v) = self.entries.remove(i);
                proof {
                    let s = self.entries_view();
                    assert(s =~= old_s.remove(i as int));
                    assert(keys_unique(s));
                    assert forall|q: Seq<char>| #[trigger] self@.contains_key(q) == old(self)@.remove(k@).contains_key(q)
                        && (self@.contains_key(q) ==> self@[q] == old(self)@.remove(k@)[q]) by {
                        if has_key(s, q) {
                            let j = choose|j: int| key_at(s, q, j);
                            let oj = if j < i { j } else { j + 1 };
                            assert(key_at(old_s, q, oj));
                            lemma_lookup_at(s, q, j);
                            lemma_lookup_at(old_s, q, oj);
                        }
                        if q != k@ && has_key(old_s, q) {
                            let j = choose|j: int| key_at(old_s, q, j);
                            assert(j != i);
                            let nj = if j < i { j } else { j - 1 };
                            assert(key_at(s, q, nj));
                        }
                    }
                    assert(self@ =~= old(self)@.remove(k@));
                }
                Some(v)
            },
            None => {
                assert(old(self)@.remove(k@) =~= old(self)@);
                None
            },
        }
    }

    /// Adds every variable of `other`; on a shared name the value of `other` wins.
    pub fn merge(&mut self, other: EnvVars)
        requires
            old(self).wf(),
            other.wf(),
        ensures
            final(self).wf(),
            final(self)@ == old(self)@.union_prefer_right(other@),
    {
        let ghost start = self@;
        let mut i: usize = 0;
        let ghost os = other.entries_view();
        while i < other.entries.len()
            invariant
                self.wf(),
                other.wf(),
                os == other.entries_view(),
                i <= other.entries.len(),
                self@ == start.union_prefer_right(as_map(os.take(i as int))),
            decreases other.entries.len() - i,
        {
            let k = other.entries[i].0.clone();
            let v = other.entries[i].1.clone();
            proof {
                assert(os.take(i + 1) =~= os.take(i as int).push(os[i as int]));
                lemma_as_map_push(os.take(i as int), os[i as int]);
            }
            self.set(k, v);
            proof {
                assert(self@ =~= start.union_prefer_right(as_map(os.take(i + 1))));
            }
            i = i + 1;
        }
        proof {
            assert(os.take(other.entries.len() as int) =~= os);
        }
    }
}

} // verus!
