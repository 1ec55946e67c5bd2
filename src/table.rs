use vstd::prelude::*;

verus! {

/// The map that a list of key-value pairs stands for, read front to back:
/// a later pair for the same key wins.
pub open spec fn map_of<V>(s: Seq<(Seq<char>, V)>) -> Map<Seq<char>, V>
    decreases s.len(),
{
    if s.len() == 0 {
        Map::empty()
    } else {
        map_of(s.drop_last()).insert(s.last().0, s.last().1)
    }
}

/// No key stands in two pairs.
pub open spec fn keys_unique<V>(s: Seq<(Seq<char>, V)>) -> bool {
    forall|i: int, j: int| 0 <= i < j < s.len() ==> s[i].0 != s[j].0
}

/// A key is in the map exactly when some pair holds it.
pub proof fn lemma_map_of_dom<V>(s: Seq<(Seq<char>, V)>)
    ensures
        forall|k: Seq<char>|
            #![trigger map_of(s).contains_key(k)]
            map_of(s).contains_key(k) <==> exists|i: int| 0 <= i < s.len() && s[i].0 == k,
    decreases s.len(),
{
    if s.len() > 0 {
        let init = s.drop_last();
        lemma_map_of_dom(init);
        assert forall|k: Seq<char>| map_of(s).contains_key(k) implies exists|i: int|
            0 <= i < s.len() && s[i].0 == k by {
            if k != s.last().0 {
                assert(map_of(init).contains_key(k));
                let i = choose|i: int| 0 <= i < init.len() && init[i].0 == k;
                assert(s[i] == init[i]);
            } else {
                assert(s[s.len() - 1].0 == k);
            }
        }
        assert forall|k: Seq<char>| (exists|i: int| 0 <= i < s.len() && s[i].0 == k) implies map_of(
            s,
        ).contains_key(k) by {
            let i = choose|i: int| 0 <= i < s.len() && s[i].0 == k;
            if i < s.len() - 1 {
                assert(init[i] == s[i]);
                assert(map_of(init).contains_key(k));
            } else {
                assert(s.last().0 == k);
            }
        }
    }
}

/// With unique keys, the map holds each pair.
pub proof fn lemma_map_of_at<V>(s: Seq<(Seq<char>, V)>, i: int)
    requires
        keys_unique(s),
        0 <= i < s.len(),
    ensures
        map_of(s).contains_key(s[i].0),
        map_of(s)[s[i].0] == s[i].1,
    decreases s.len(),
{
    let init = s.drop_last();
    if i < s.len() - 1 {
        assert(init[i] == s[i]);
        assert(keys_unique(init)) by {
            assert forall|a: int, b: int| 0 <= a < b < init.len() implies init[a].0 != init[b].0 by {
                assert(init[a] == s[a] && init[b] == s[b]);
            }
        }
        lemma_map_of_at(init, i);
    }
}

/// Whether two strings hold the same characters.
pub fn same_text(a: &str, b: &str) -> (r: bool)
    ensures
        r == (a@ == b@),
{
    let n = a.unicode_len();
    if n != b.unicode_len() {
        return false;
    }
    let mut i: usize = 0;
    while i < n
        invariant
            n == a@.len() == b@.len(),
            i <= n,
            a@.subrange(0, i as int) == b@.subrange(0, i as int),
        decreases n - i,
    {
        if a.get_char(i) != b.get_char(i) {
            assert(a@[i as int] != b@[i as int]);
            return false;
        }
        assert(a@.subrange(0, i as int + 1) =~= a@.subrange(0, i as int).push(a@[i as int]));
        assert(b@.subrange(0, i as int + 1) =~= b@.subrange(0, i as int).push(b@[i as int]));
        i = i + 1;
    }
    assert(a@ =~= a@.subrange(0, n as int));
    assert(b@ =~= b@.subrange(0, n as int));
    true
}

/// Pairs seen through the views of their keys and values.
pub open spec fn pairs_of<V: View>(s: Seq<(String, V)>) -> Seq<(Seq<char>, V::V)> {
    Seq::new(s.len(), |i: int| (s[i].0@, s[i].1@))
}

/// A map from strings to values, kept as a list of pairs with unique keys.
pub struct Table<V> {
    pub entries: Vec<(String, V)>,
}

impl<V: View> View for Table<V> {
    type V = Map<Seq<char>, V::V>;

    open spec fn view(&self) -> Map<Seq<char>, V::V> {
        map_of(self.pairs())
    }
}

impl<V: View> Table<V> {
    /// The entries, keys and values seen through their views.
    pub open spec fn pairs(&self) -> Seq<(Seq<char>, V::V)> {
        pairs_of(self.entries@)
    }

    pub open spec fn wf(&self) -> bool {
        keys_unique(self.pairs())
    }

    pub fn new() -> (r: Self)
        ensures
            r.wf(),
            r@ == Map::<Seq<char>, V::V>::empty(),
            r.pairs().len() == 0,
    {
        let r = Table { entries: Vec::new() };
        assert(r.pairs() =~= Seq::<(Seq<char>, V::V)>::empty());
        r
    }

    pub fn len(&self) -> (r: usize)
        ensures
            r == self.pairs().len(),
    {
        self.entries.len()
    }

    /// The position of `key`, if it is present.
    pub fn find(&self, key: &str) -> (r: Option<usize>)
        ensures
            r matches Some(i) ==> i < self.pairs().len() && self.pairs()[i as int].0 == key@,
            r is None ==> !self@.contains_key(key@),
    {
        let mut i: usize = 0;
        while i < self.entries.len()
            invariant
                i <= self.entries@.len(),
                forall|j: int| 0 <= j < i ==> self.pairs()[j].0 != key@,
            decreases self.entries@.len() - i,
        {
            if same_text(self.entries[i].0.as_str(), key) {
                return Some(i);
            }
            i = i + 1;
        }
        proof {
            lemma_map_of_dom(self.pairs());
        }
        None
    }

    pub fn contains_key(&self, key: &str) -> (r: bool)
        ensures
            r == self@.contains_key(key@),
    {
        proof {
            lemma_map_of_dom(self.pairs());
        }
        self.find(key).is_some()
    }

    pub fn get(&self, key: &str) -> (r: Option<&V>)
        requires
            self.wf(),
        ensures
            r is Some <==> self@.contains_key(key@),
            r matches Some(v) ==> v@ == self@[key@],
    {
        match self.find(key) {
            Some(i) => {
                proof {
                    lemma_map_of_at(self.pairs(), i as int);
                }
                Some(&self.entries[i].1)
            },
            None => None,
        }
    }

    /// Sets the value of `key`, replacing the one it had.
    pub fn insert(&mut self, key: String, value: V)
        requires
            old(self).wf(),
        ensures
            final(self).wf(),
            final(self)@ == old(self)@.insert(key@, value@),
    {
        let ghost s = self.pairs();
        let ghost k = key@;
        let ghost v = value@;
        match self.find(key.as_str()) {
            Some(i) => {
                self.entries.set(i, (key, value));
                proof {
                    let t = self.pairs();
                    assert(t =~= s.update(i as int, (k, v)));
                    assert(keys_unique(t)) by {
                        assert forall|a: int, b: int| 0 <= a < b < t.len() implies t[a].0 != t[b].0 by {
                            assert(t[a].0 == s[a].0 && t[b].0 == s[b].0);
                        }
                    }
                    lemma_map_of_dom(s);
                    lemma_map_of_dom(t);
                    lemma_map_of_at(t, i as int);
                    assert forall|x: Seq<char>| x != k && #[trigger] map_of(s).contains_key(x) implies map_of(
                        t,
                    ).contains_key(x) && map_of(t)[x] == map_of(s)[x] by {
                        let j = choose|j: int| 0 <= j < s.len() && s[j].0 == x;
                        lemma_map_of_at(s, j);
                        lemma_map_of_at(t, j);
                    }
                    assert(map_of(t) =~= map_of(s).insert(k, v));
                }
            },
            None => {
                self.entries.push((key, value));
                proof {
                    let t = self.pairs();
                    assert(t =~= s.push((k, v)));
                    assert(t.drop_last() =~= s);
                    lemma_map_of_dom(s);
                    assert(keys_unique(t)) by {
                        assert forall|a: int, b: int| 0 <= a < b < t.len() implies t[a].0 != t[b].0 by {
                            if b == t.len() - 1 {
                                assert(s[a].0 == t[a].0);
                            } else {
                                assert(t[a] == s[a] && t[b] == s[b]);
                            }
                        }
                    }
                }
            },
        }
    }

    pub fn is_empty(&self) -> (r: bool)
        ensures
            r == (self@ == Map::<Seq<char>, V::V>::empty()),
    {
        proof {
            lemma_map_of_dom(self.pairs());
            if self.pairs().len() > 0 {
                let k = self.pairs()[0].0;
                assert(self@.contains_key(k));
                assert(!Map::<Seq<char>, V::V>::empty().contains_key(k));
            } else {
                assert(self@ =~= Map::<Seq<char>, V::V>::empty());
            }
        }
        self.entries.len() == 0
    }

    /// Keeps the entries for which `f` holds, each unchanged.
    pub fn retain<F: Fn(&String, &V) -> bool>(&mut self, f: F)
        requires
            old(self).wf(),
            forall|k: &String, v: &V| f.requires((k, v)),
        ensures
            final(self).wf(),
            final(self)@.submap_of(old(self)@),
            forall|i: int|
                #![trigger old(self).entries@[i]]
                0 <= i < old(self).entries@.len() ==> {
                    let e = old(self).entries@[i];
                    &&& final(self)@.contains_key(e.0@) ==> f.ensures((&e.0, &e.1), true)
                    &&& !final(self)@.contains_key(e.0@) ==> f.ensures((&e.0, &e.1), false)
                },
    {
        let ghost orig = self.entries@;
        let ghost p = pairs_of(orig);
        let mut rest: Vec<(String, V)> = Vec::new();
        std::mem::swap(&mut rest, &mut self.entries);
        let mut out: Table<V> = Table::new();
        let n = rest.len();
        let mut i: usize = 0;
        proof {
            lemma_prefix_full(p);
            lemma_map_of_dom(p);
        }
        while i < n
            invariant
                n == orig.len(),
                p == pairs_of(orig),
                keys_unique(p),
                forall|k: &String, v: &V| f.requires((k, v)),
                i <= n,
                rest@ == orig.subrange(i as int, n as int),
                out.wf(),
                forall|k: Seq<char>|
                    #[trigger] out@.contains_key(k) ==> map_of(p.subrange(0, i as int)).contains_key(k)
                        && map_of(p).contains_key(k) && out@[k] == map_of(p)[k],
                forall|j: int|
                    #![trigger orig[j]]
                    0 <= j < i ==> {
                        let e = orig[j];
                        &&& out@.contains_key(e.0@) ==> f.ensures((&e.0, &e.1), true)
                        &&& !out@.contains_key(e.0@) ==> f.ensures((&e.0, &e.1), false)
                    },
            decreases n - i,
        {
            let ghost prev = out@;
            let entry = rest.remove(0);
            assert(entry == orig[i as int]);
            proof {
                lemma_prefix_step(p, i as int);
                lemma_map_of_at(p, i as int);
                lemma_map_of_dom(p.subrange(0, i as int + 1));
            }
            let keep = f(&entry.0, &entry.1);
            if keep {
                out.insert(entry.0, entry.1);
            }
            proof {
                assert forall|j: int| 0 <= j < i implies p[j].0 != p[i as int].0 by {}
                assert forall|j: int| 0 <= j < i implies #[trigger] orig[j].0@ == p[j].0 by {}
                assert(orig[i as int].0@ == p[i as int].0);
                assert forall|k: Seq<char>| #[trigger] out@.contains_key(k) implies map_of(
                    p.subrange(0, i as int + 1),
                ).contains_key(k) && map_of(p).contains_key(k) && out@[k] == map_of(p)[k] by {
                    if k != p[i as int].0 {
                        assert(prev.contains_key(k));
                    }
                }
            }
            i = i + 1;
        }
        proof {
            lemma_prefix_full(p);
            assert(out@.submap_of(map_of(p)));
        }
        *self = out;
    }

    pub fn clear(&mut self)
        ensures
            final(self).wf(),
            final(self)@ == Map::<Seq<char>, V::V>::empty(),
    {
        self.entries.clear();
        assert(self.pairs() =~= Seq::<(Seq<char>, V::V)>::empty());
    }
}

} // verus!

verus! {

/// Reading one more pair of a list adds it to the map; with unique keys,
/// its key was not there before.
pub proof fn lemma_prefix_step<V>(s: Seq<(Seq<char>, V)>, i: int)
    requires
        0 <= i < s.len(),
    ensures
        map_of(s.subrange(0, i + 1)) == map_of(s.subrange(0, i)).insert(s[i].0, s[i].1),
        keys_unique(s) ==> !map_of(s.subrange(0, i)).contains_key(s[i].0),
{
    assert(s.subrange(0, i + 1).drop_last() =~= s.subrange(0, i));
    lemma_map_of_dom(s.subrange(0, i));
    if keys_unique(s) && map_of(s.subrange(0, i)).contains_key(s[i].0) {
        let j = choose|j: int| 0 <= j < i && s.subrange(0, i)[j].0 == s[i].0;
        assert(s[j].0 == s[i].0);
    }
}

/// The whole list stands for the map of the table.
pub proof fn lemma_prefix_full<V>(s: Seq<(Seq<char>, V)>)
    ensures
        map_of(s.subrange(0, s.len() as int)) == map_of(s),
        map_of(s.subrange(0, 0)) == Map::<Seq<char>, V>::empty(),
{
    assert(s.subrange(0, s.len() as int) =~= s);
    assert(s.subrange(0, 0) =~= Seq::<(Seq<char>, V)>::empty());
}

} // verus!
