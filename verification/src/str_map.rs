//! A string-keyed map stored as an association list, with a
//! `Map<Seq<char>, V>` view and unique keys as its invariant.

use vstd::prelude::*;

use crate::text::{chars_eq, chars_of};

verus! {

/// The map described by an entry list; a later entry wins.
pub open spec fn entries_map<V>(s: Seq<(String, V)>) -> Map<Seq<char>, V>
    decreases s.len(),
{
    if s.len() == 0 {
        Map::empty()
    } else {
        entries_map(s.drop_last()).insert(s.last().0@, s.last().1)
    }
}

/// Whether the keys of an entry list are pairwise distinct.
pub open spec fn distinct_keys<V>(s: Seq<(String, V)>) -> bool {
    forall|i: int, j: int| 0 <= i < j < s.len() ==> s[i].0@ != s[j].0@
}

/// A map from strings to values, keyed by character content.
#[derive(Debug)]
pub struct StrMap<V> {
    entries: Vec<(String, V)>,
}

/// Every key of the list is in the described map, with its value.
proof fn lemma_entries_map_chr<V>(s: Seq<(String, V)>)
    requires
        distinct_keys(s),
    ensures
        forall|k: Seq<char>| #![trigger entries_map(s).dom().contains(k)]
            entries_map(s).contains_key(k) <==> exists|i: int|
                0 <= i < s.len() && (#[trigger] s[i]).0@ == k,
        forall|i: int|
            0 <= i < s.len() ==> entries_map(s).contains_key(#[trigger] s[i].0@) && entries_map(s)[
                s[i].0@
            ] == s[i].1,
    decreases s.len(),
{
    if s.len() > 0 {
        let t = s.drop_last();
        lemma_entries_map_chr(t);
        assert forall|i: int|
            0 <= i < s.len() implies entries_map(s).contains_key(#[trigger] s[i].0@)
            && entries_map(s)[s[i].0@] == s[i].1 by {
            if i < s.len() - 1 {
                assert(t[i] == s[i]);
                assert(s[i].0@ != s.last().0@);
            }
        }
        assert forall|k: Seq<char>| entries_map(s).contains_key(k) implies exists|i: int|
            0 <= i < s.len() && (#[trigger] s[i]).0@ == k by {
            if k == s.last().0@ {
                assert(s[s.len() - 1].0@ == k);
            } else {
                assert(entries_map(t).contains_key(k));
                let i = choose|i: int| 0 <= i < t.len() && (#[trigger] t[i]).0@ == k;
                assert(t[i] == s[i]);
                assert(s[i].0@ == k);
            }
        }
    }
}

impl<V> StrMap<V> {
    /// The entry list, oldest first.
    pub closed spec fn kv_seq(&self) -> Seq<(String, V)> {
        self.entries@
    }

    #[verifier::type_invariant]
    spec fn wf(self) -> bool {
        distinct_keys(self.entries@)
    }

    /// The view of the map is the map its entry list describes.
    pub closed spec fn view(&self) -> Map<Seq<char>, V> {
        entries_map(self.entries@)
    }

    /// An empty map.
    pub fn new() -> (r: Self)
        ensures
            r@ == Map::<Seq<char>, V>::empty(),
            r.kv_seq().len() == 0,
    {
        StrMap { entries: Vec::new() }
    }

    /// Number of entries.
    pub fn len(&self) -> (n: usize)
        ensures
            n == self.kv_seq().len(),
    {
        self.entries.len()
    }

    /// Whether the map holds no key.
    pub fn is_empty(&self) -> (r: bool)
        ensures
            r == (self@ =~= Map::<Seq<char>, V>::empty()),
            r == (self.kv_seq().len() == 0),
    {
        proof {
            use_type_invariant(self);
            lemma_entries_map_chr(self.entries@);
            if self.kv_seq().len() > 0 {
                assert(self@.contains_key(self.kv_seq()[0].0@));
            } else {
                assert(self@ =~= Map::<Seq<char>, V>::empty());
            }
        }
        self.entries.len() == 0
    }

    /// The entry list itself, for iteration; its keys are distinct and
    /// describe exactly the view.
    pub fn entries(&self) -> (r: &Vec<(String, V)>)
        ensures
            r@ == self.kv_seq(),
            distinct_keys(self.kv_seq()),
            self@ == entries_map(self.kv_seq()),
            forall|i: int|
                0 <= i < self.kv_seq().len() ==> self@.contains_key(
                    (#[trigger] self.kv_seq()[i]).0@,
                ) && self@[self.kv_seq()[i].0@] == self.kv_seq()[i].1,
            forall|k: Seq<char>| #![trigger self@.dom().contains(k)]
                self@.contains_key(k) <==> exists|i: int|
                    0 <= i < self.kv_seq().len() && (#[trigger] self.kv_seq()[i]).0@ == k,
    {
        proof {
            use_type_invariant(self);
            lemma_entries_map_chr(self.entries@);
        }
        &self.entries
    }

    /// Index of the entry with key `k`, if one exists.
    fn find_index(&self, k: &Vec<char>) -> (r: Option<usize>)
        ensures
            match r {
                Some(i) => i < self.kv_seq().len() && self.kv_seq()[i as int].0@ == k@,
                None => forall|i: int|
                    0 <= i < self.kv_seq().len() ==> (#[trigger] self.kv_seq()[i]).0@ != k@,
            },
    {
        let n = self.entries.len();
        let mut i: usize = 0;
        while i < n
            invariant
                0 <= i <= n,
                n == self.entries@.len(),
                forall|j: int| 0 <= j < i ==> (#[trigger] self.entries@[j]).0@ != k@,
            decreases n - i,
        {
            let key_chars = chars_of(self.entries[i].0.as_str());
            if chars_eq(key_chars.as_slice(), k.as_slice()) {
                return Some(i);
            }
            i = i + 1;
        }
        None
    }

    /// Looks a key up.
    pub fn get(&self, k: &str) -> (r: Option<&V>)
        ensures
            match r {
                Some(v) => self@.contains_key(k@) && *v == self@[k@],
                None => !self@.contains_key(k@),
            },
    {
        proof {
            use_type_invariant(self);
            lemma_entries_map_chr(self.entries@);
        }
        let kc = chars_of(k);
        match self.find_index(&kc) {
            Some(i) => {
                proof {
                    assert(self.entries@[i as int].0@ == k@);
                    assert(self@[k@] == self.entries@[i as int].1);
                }
                Some(&self.entries[i].1)
            },
            None => {
                proof {
                    if self@.contains_key(k@) {
                        let a = choose|a: int|
                            0 <= a < self.entries@.len() && (#[trigger] self.entries@[a]).0@ == k@;
                        assert(self.kv_seq()[a].0@ == k@);
                        assert(self.kv_seq()[a].0@ != kc@);
                        assert(kc@ == k@);
                        assert(false);
                    }
                }
                None
            },
        }
    }

    /// Whether a key is present.
    pub fn contains_key(&self, k: &str) -> (r: bool)
        ensures
            r == self@.contains_key(k@),
    {
        match self.get(k) {
            Some(_) => true,
            None => false,
        }
    }

    /// Inserts a key, replacing any earlier entry for it.
    pub fn insert(&mut self, k: String, v: V)
        ensures
            final(self)@ == old(self)@.insert(k@, v),
    {
        proof {
            use_type_invariant(&*self);
            lemma_entries_map_chr(self.entries@);
        }
        let kc = chars_of(k.as_str());
        let idx = self.find_index(&kc);
        let mut es: Vec<(String, V)> = Vec::new();
        core::mem::swap(&mut self.entries, &mut es);
        let ghost pre = es@;
        match idx {
            Some(i) => {
                let _old_entry = es.remove(i);
                let ghost mid = es@;
                proof {
                    assert(mid =~= pre.subrange(0, i as int) + pre.subrange(
                        i + 1,
                        pre.len() as int,
                    ));
                    assert(forall|a: int| 0 <= a < i ==> mid[a] == pre[a]);
                    assert(forall|a: int| i <= a < mid.len() ==> mid[a] == pre[a + 1]);
                }
                es.push((k, v));
                proof {
                    let now = es@;
                    assert(now == mid.push((k, v)));
                    assert(forall|a: int| 0 <= a < i ==> now[a] == pre[a]);
                    assert(forall|a: int| i <= a < now.len() - 1 ==> now[a] == pre[a + 1]);
                    assert(now[now.len() - 1] == (k, v));
                    assert(pre[i as int].0@ == k@);
                    assert(distinct_keys(now)) by {
                        assert forall|a: int, b: int| 0 <= a < b < now.len() implies now[a].0@
                            != now[b].0@ by {
                            if b < now.len() - 1 {
                                let pa: int = if a < i {
                                    a
                                } else {
                                    a + 1
                                };
                                let pb: int = if b < i {
                                    b
                                } else {
                                    b + 1
                                };
                                assert(now[a] == pre[pa] && now[b] == pre[pb]);
                                assert(pre[pa].0@ != pre[pb].0@);
                                assert(now[a].0@ != now[b].0@);
                            } else {
                                let pa: int = if a < i {
                                    a
                                } else {
                                    a + 1
                                };
                                assert(now[a] == pre[pa]);
                                assert(pa != i);
                                if pa < i {
                                    assert(pre[pa].0@ != pre[i as int].0@);
                                } else {
                                    assert(pre[i as int].0@ != pre[pa].0@);
                                }
                                assert(now[b] == (k, v));
                                assert(now[b].0@ == k@);
                                assert(now[a].0@ == pre[pa].0@);
                                assert(now[a].0@ != now[b].0@);
                            }
                        }
                    }
                    lemma_entries_map_chr(now);
                    assert(entries_map(now) =~= entries_map(pre).insert(k@, v)) by {
                        lemma_entries_map_chr(pre);
                        assert forall|key: Seq<char>|
                            entries_map(now).contains_key(key) == entries_map(pre).insert(
                                k@,
                                v,
                            ).contains_key(key) by {
                            if key == k@ {
                                assert(now[now.len() - 1].0@ == key);
                            } else {
                                if entries_map(now).contains_key(key) {
                                    let a = choose|a: int|
                                        0 <= a < now.len() && (#[trigger] now[a]).0@ == key;
                                    let pa: int = if a < i {
                                        a
                                    } else {
                                        a + 1
                                    };
                                    assert(pre[pa].0@ == key);
                                }
                                if entries_map(pre).contains_key(key) {
                                    let pa = choose|pa: int|
                                        0 <= pa < pre.len() && (#[trigger] pre[pa]).0@ == key;
                                    assert(pa != i);
                                    let a: int = if pa < i {
                                        pa
                                    } else {
                                        pa - 1
                                    };
                                    assert(now[a] == pre[pa]);
                                    assert(entries_map(now).contains_key(key));
                                }
                            }
                        }
                        assert forall|key: Seq<char>|
                            entries_map(now).contains_key(key) implies entries_map(now)[key]
                            == entries_map(pre).insert(k@, v)[key] by {
                            if key == k@ {
                                assert(now[now.len() - 1].0@ == key);
                                assert(entries_map(now)[key] == v);
                            } else {
                                let a = choose|a: int|
                                    0 <= a < now.len() && (#[trigger] now[a]).0@ == key;
                                assert(a < now.len() - 1);
                                let pa: int = if a < i {
                                    a
                                } else {
                                    a + 1
                                };
                                assert(now[a] == pre[pa]);
                                assert(entries_map(now)[key] == now[a].1);
                                assert(entries_map(pre)[key] == pre[pa].1);
                            }
                        }
                    }
                }
            },
            None => {
                es.push((k, v));
                proof {
                    let now = es@;
                    assert(distinct_keys(now)) by {
                        assert forall|a: int, b: int| 0 <= a < b < now.len() implies now[a].0@
                            != now[b].0@ by {
                            if b < now.len() - 1 {
                                assert(now[a] == pre[a] && now[b] == pre[b]);
                                assert(pre[a].0@ != pre[b].0@);
                            } else {
                                assert(now[a] == pre[a]);
                                assert(pre == old(self).kv_seq());
                                assert(old(self).kv_seq()[a].0@ != kc@);
                                assert(now[b] == (k, v));
                                assert(now[a].0@ != now[b].0@);
                            }
                        }
                    }
                    assert(now.drop_last() =~= pre);
                    assert(entries_map(now) == entries_map(pre).insert(k@, v));
                }
            },
        }
        self.entries = es;
    }

    /// Removes a key, returning its value if it was present.
    pub fn remove(&mut self, k: &str) -> (r: Option<V>)
        ensures
            final(self)@ == old(self)@.remove(k@),
            match r {
                Some(v) => old(self)@.contains_key(k@) && v == old(self)@[k@],
                None => !old(self)@.contains_key(k@),
            },
    {
        proof {
            use_type_invariant(&*self);
            lemma_entries_map_chr(self.entries@);
        }
        let kc = chars_of(k);
        let idx = self.find_index(&kc);
        let mut es: Vec<(String, V)> = Vec::new();
        core::mem::swap(&mut self.entries, &mut es);
        let ghost pre = es@;
        match idx {
            Some(i) => {
                let entry = es.remove(i);
                proof {
                    let now = es@;
                    assert(now =~= pre.subrange(0, i as int) + pre.subrange(
                        i + 1,
                        pre.len() as int,
                    ));
                    assert(distinct_keys(now)) by {
                        assert forall|a: int, b: int| 0 <= a < b < now.len() implies now[a].0@
                            != now[b].0@ by {
                            let pa: int = if a < i {
                                a
                            } else {
                                a + 1
                            };
                            let pb: int = if b < i {
                                b
                            } else {
                                b + 1
                            };
                            assert(now[a] == pre[pa] && now[b] == pre[pb]);
                        }
                    }
                    lemma_entries_map_chr(now);
                    assert(entries_map(now) =~= entries_map(pre).remove(k@)) by {
                        assert forall|key: Seq<char>|
                            entries_map(now).contains_key(key) == entries_map(pre).remove(
                                k@,
                            ).contains_key(key) by {
                            if entries_map(now).contains_key(key) {
                                let a = choose|a: int|
                                    0 <= a < now.len() && (#[trigger] now[a]).0@ == key;
                                let pa: int = if a < i {
                                    a
                                } else {
                                    a + 1
                                };
                                assert(pre[pa].0@ == key);
                                assert(pa != i ==> key != k@);
                                if pa < i {
                                    assert(pre[pa].0@ != pre[i as int].0@);
                                } else {
                                    assert(pre[i as int].0@ != pre[pa].0@);
                                }
                            }
                            if entries_map(pre).remove(k@).contains_key(key) {
                                let pa = choose|pa: int|
                                    0 <= pa < pre.len() && (#[trigger] pre[pa]).0@ == key;
                                assert(pa != i);
                                let a: int = if pa < i {
                                    pa
                                } else {
                                    pa - 1
                                };
                                assert(now[a] == pre[pa]);
                            }
                        }
                        assert forall|key: Seq<char>|
                            entries_map(now).contains_key(key) implies entries_map(now)[key]
                            == entries_map(pre).remove(k@)[key] by {
                            let a = choose|a: int|
                                0 <= a < now.len() && (#[trigger] now[a]).0@ == key;
                            let pa: int = if a < i {
                                a
                            } else {
                                a + 1
                            };
                            assert(now[a] == pre[pa]);
                            assert(entries_map(now)[key] == now[a].1);
                            assert(entries_map(pre)[key] == pre[pa].1);
                        }
                    }
                    assert(entry == pre[i as int]);
                }
                self.entries = es;
                Some(entry.1)
            },
            None => {
                self.entries = es;
                proof {
                    assert(!old(self)@.contains_key(k@)) by {
                        if old(self)@.contains_key(k@) {
                            let a = choose|a: int|
                                0 <= a < pre.len() && (#[trigger] pre[a]).0@ == k@;
                            assert(pre == old(self).kv_seq());
                            assert(old(self).kv_seq()[a].0@ == k@);
                            assert(old(self).kv_seq()[a].0@ != kc@);
                            assert(kc@ == k@);
                        }
                    }
                    assert(final(self)@ =~= old(self)@.remove(k@));
                }
                None
            },
        }
    }
}

} // verus!
