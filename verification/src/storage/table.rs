//! A table of values under string keys, each key at most once.

use vstd::prelude::*;
use crate::text::{str_eq, str_starts_with, string_views};

verus! {

/// Some entry of `p` has key `k`.
pub open spec fn has_key<V>(p: Seq<(String, V)>, k: Seq<char>) -> bool {
    exists|i: int| 0 <= i < p.len() && (#[trigger] p[i]).0@ == k
}

/// No key occurs twice in `p`.
pub open spec fn keys_distinct<V>(p: Seq<(String, V)>) -> bool {
    forall|i: int, j: int| 0 <= i < p.len() && 0 <= j < p.len() && i != j ==> (#[trigger] p[i]).0@ != (#[trigger] p[j]).0@
}

/// The entries of `p` as a map from key to value.
pub open spec fn table_of<V>(p: Seq<(String, V)>) -> Map<Seq<char>, V> {
    Map::new(
        |k: Seq<char>| has_key(p, k),
        |k: Seq<char>| p[choose|i: int| 0 <= i < p.len() && (#[trigger] p[i]).0@ == k].1,
    )
}

/// With distinct keys, the entry at `i` is what the table holds under its key.
proof fn lemma_table_at<V>(p: Seq<(String, V)>, i: int)
    requires
        keys_distinct(p),
        0 <= i < p.len(),
    ensures
        table_of(p).contains_key(p[i].0@),
        table_of(p)[p[i].0@] == p[i].1,
{
    assert(has_key(p, p[i].0@));
    let c = choose|c: int| 0 <= c < p.len() && (#[trigger] p[c]).0@ == p[i].0@;
    assert(c == i);
}

/// Values under string keys, each key at most once.
pub struct StringTable<V> {
    entries: Vec<(String, V)>,
}

impl<V> View for StringTable<V> {
    type V = Map<Seq<char>, V>;

    closed spec fn view(&self) -> Map<Seq<char>, V> {
        table_of(self.entries@)
    }
}

impl<V> StringTable<V> {
    /// No key is stored twice.
    pub closed spec fn wf(&self) -> bool {
        keys_distinct(self.entries@)
    }

    pub fn new() -> (r: Self)
        ensures
            r.wf(),
            r@ == Map::<Seq<char>, V>::empty(),
    {
        let r = StringTable { entries: Vec::new() };
        assert(r@ =~= Map::<Seq<char>, V>::empty());
        r
    }

    fn index_of(&self, k: &str) -> (r: Option<usize>)
        ensures
            match r {
                Some(i) => i < self.entries@.len() && self.entries@[i as int].0@ == k@,
                None => !has_key(self.entries@, k@),
            },
    {
        let mut i: usize = 0;
        while i < self.entries.len()
            invariant
                i <= self.entries@.len(),
                forall|j: int| 0 <= j < i ==> (#[trigger] self.entries@[j]).0@ != k@,
            decreases self.entries@.len() - i,
        {
            if str_eq(self.entries[i].0.as_str(), k) {
                return Some(i);
            }
            i = i + 1;
        }
        None
    }

    /// The value under `k`, if any.
    pub fn get(&self, k: &str) -> (r: Option<&V>)
        requires
            self.wf(),
        ensures
            match r {
                Some(v) => self@.contains_key(k@) && *v == self@[k@],
                None => !self@.contains_key(k@),
            },
    {
        match self.index_of(k) {
            Some(i) => {
                proof {
                    lemma_table_at(self.entries@, i as int);
                }
                Some(&self.entries[i].1)
            },
            None => None,
        }
    }

    /// Whether some value is stored under `k`.
    pub fn contains_key(&self, k: &str) -> (r: bool)
        ensures
            r == self@.contains_key(k@),
    {
        self.index_of(k).is_some()
    }

    /// Store `v` under `k`, replacing what was there.
    pub fn insert(&mut self, k: String, v: V)
        requires
            old(self).wf(),
        ensures
            final(self).wf(),
            final(self)@ == old(self)@.insert(k@, v),
    {
        let ghost before = self.entries@;
        let ghost key = k@;
        let ghost val = v;
        match self.index_of(k.as_str()) {
            Some(i) => {
                self.entries.set(i, (k, v));
                proof {
                    let now = self.entries@;
                    assert(now == before.update(i as int, now[i as int]));
                    assert forall|a: int, b: int| 0 <= a < now.len() && 0 <= b < now.len() && a != b implies (
                    #[trigger] now[a]).0@ != (#[trigger] now[b]).0@ by {
                        assert(now[a].0@ == before[a].0@);
                        assert(now[b].0@ == before[b].0@);
                    }
                    assert forall|kk: Seq<char>| #[trigger] table_of(now).contains_key(kk)
                        == table_of(before).insert(key, val).contains_key(kk) by {
                        if has_key(now, kk) {
                            let j = choose|j: int| 0 <= j < now.len() && (#[trigger] now[j]).0@ == kk;
                            assert(before[j].0@ == kk);
                        }
                        if has_key(before, kk) {
                            let j = choose|j: int| 0 <= j < before.len() && (#[trigger] before[j]).0@ == kk;
                            assert(now[j].0@ == kk);
                        }
                        if kk == key {
                            assert(now[i as int].0@ == kk);
                        }
                    }
                    assert forall|kk: Seq<char>| #[trigger] table_of(now).contains_key(kk) implies table_of(now)[kk]
                        == table_of(before).insert(key, val)[kk] by {
                        let j = choose|j: int| 0 <= j < now.len() && (#[trigger] now[j]).0@ == kk;
                        lemma_table_at(now, j);
                        if j != i {
                            lemma_table_at(before, j);
                        }
                    }
                    assert(table_of(now) =~= table_of(before).insert(key, val));
                }
            },
            None => {
                self.entries.push((k, v));
                proof {
                    let now = self.entries@;
                    let n = before.len() as int;
                    assert forall|a: int, b: int| 0 <= a < now.len() && 0 <= b < now.len() && a != b implies (
                    #[trigger] now[a]).0@ != (#[trigger] now[b]).0@ by {
                        if a < n {
                            assert(now[a] == before[a]);
                        }
                        if b < n {
                            assert(now[b] == before[b]);
                        }
                    }
                    assert forall|kk: Seq<char>| #[trigger] table_of(now).contains_key(kk)
                        == table_of(before).insert(key, val).contains_key(kk) by {
                        if has_key(now, kk) {
                            let j = choose|j: int| 0 <= j < now.len() && (#[trigger] now[j]).0@ == kk;
                            if j < n {
                                assert(now[j] == before[j]);
                            }
                        }
                        if has_key(before, kk) {
                            let j = choose|j: int| 0 <= j < before.len() && (#[trigger] before[j]).0@ == kk;
                            assert(now[j] == before[j]);
                        }
                        if kk == key {
                            assert(now[n].0@ == kk);
                        }
                    }
                    assert forall|kk: Seq<char>| #[trigger] table_of(now).contains_key(kk) implies table_of(now)[kk]
                        == table_of(before).insert(key, val)[kk] by {
                        let j = choose|j: int| 0 <= j < now.len() && (#[trigger] now[j]).0@ == kk;
                        lemma_table_at(now, j);
                        if j < n {
                            assert(now[j] == before[j]);
                            lemma_table_at(before, j);
                        }
                    }
                    assert(table_of(now) =~= table_of(before).insert(key, val));
                }
            },
        }
    }

    /// Remove what is stored under `k`, if anything.
    pub fn remove(&mut self, k: &str)
        requires
            old(self).wf(),
        ensures
            final(self).wf(),
            final(self)@ == old(self)@.remove(k@),
    {
        let ghost before = self.entries@;
        match self.index_of(k) {
            Some(i) => {
                self.entries.remove(i);
                proof {
                    let now = self.entries@;
                    assert forall|a: int, b: int| 0 <= a < now.len() && 0 <= b < now.len() && a != b implies (
                    #[trigger] now[a]).0@ != (#[trigger] now[b]).0@ by {
                        let a0 = if a < i { a } else { a + 1 };
                        let b0 = if b < i { b } else { b + 1 };
                        assert(now[a] == before[a0]);
                        assert(now[b] == before[b0]);
                    }
                    assert forall|kk: Seq<char>| #[trigger] table_of(now).contains_key(kk)
                        == table_of(before).remove(k@).contains_key(kk) by {
                        if has_key(now, kk) {
                            let j = choose|j: int| 0 <= j < now.len() && (#[trigger] now[j]).0@ == kk;
                            let j0 = if j < i { j } else { j + 1 };
                            assert(now[j] == before[j0]);
                            assert(j0 != i);
                        }
                        if has_key(before, kk) && kk != k@ {
                            let j = choose|j: int| 0 <= j < before.len() && (#[trigger] before[j]).0@ == kk;
                            assert(j != i);
                            let j1 = if j < i { j } else { j - 1 };
                            assert(now[j1] == before[j]);
                        }
                    }
                    assert forall|kk: Seq<char>| #[trigger] table_of(now).contains_key(kk) implies table_of(now)[kk]
                        == table_of(before).remove(k@)[kk] by {
                        let j = choose|j: int| 0 <= j < now.len() && (#[trigger] now[j]).0@ == kk;
                        let j0 = if j < i { j } else { j + 1 };
                        assert(now[j] == before[j0]);
                        lemma_table_at(now, j);
                        lemma_table_at(before, j0);
                    }
                    assert(table_of(now) =~= table_of(before).remove(k@));
                }
            },
            None => {
                assert(table_of(before) =~= table_of(before).remove(k@));
            },
        }
    }

    /// The keys that start with `p`, each once.
    pub fn keys_with_prefix(&self, p: &str) -> (r: Vec<String>)
        requires
            self.wf(),
        ensures
            string_views(r@).no_duplicates(),
            forall|k: Seq<char>|
                #[trigger] string_views(r@).contains(k) <==> (self@.contains_key(k) && p@.is_prefix_of(k)),
    {
        let mut r: Vec<String> = Vec::new();
        let mut i: usize = 0;
        while i < self.entries.len()
            invariant
                self.wf(),
                i <= self.entries@.len(),
                string_views(r@).no_duplicates(),
                forall|k: Seq<char>|
                    #[trigger] string_views(r@).contains(k) <==> (exists|j: int|
                        0 <= j < i && (#[trigger] self.entries@[j]).0@ == k && p@.is_prefix_of(k)),
            decreases self.entries@.len() - i,
        {
            let ghost before = string_views(r@);
            if str_starts_with(self.entries[i].0.as_str(), p) {
                let ghost ki = self.entries@[i as int].0@;
                proof {
                    if before.contains(ki) {
                        let j = choose|j: int|
                            0 <= j < i && (#[trigger] self.entries@[j]).0@ == ki && p@.is_prefix_of(ki);
                        assert(self.entries@[j].0@ == self.entries@[i as int].0@);
                    }
                }
                r.push(self.entries[i].0.clone());
                proof {
                    let now = string_views(r@);
                    assert(now =~= before.push(ki));
                    assert(self.entries@[i as int].0@ == ki);
                    assert forall|k: Seq<char>|
                        now.contains(k) <==> (exists|j: int|
                            0 <= j < i + 1 && (#[trigger] self.entries@[j]).0@ == k && p@.is_prefix_of(k)) by {
                        if now.contains(k) && k != ki {
                            let q = choose|q: int| 0 <= q < now.len() && now[q] == k;
                            assert(before[q] == k);
                            assert(before.contains(k));
                        }
                        if now.contains(k) && k == ki {
                            assert(self.entries@[i as int].0@ == k && p@.is_prefix_of(k));
                        }
                        if exists|j: int|
                            0 <= j < i + 1 && (#[trigger] self.entries@[j]).0@ == k && p@.is_prefix_of(k) {
                            if k != ki {
                                let j = choose|j: int|
                                    0 <= j < i + 1 && (#[trigger] self.entries@[j]).0@ == k && p@.is_prefix_of(k);
                                assert(j < i);
                                assert(before.contains(k));
                                let q = choose|q: int| 0 <= q < before.len() && before[q] == k;
                                assert(now[q] == k);
                            } else {
                                assert(now[before.len() as int] == k);
                            }
                        }
                    }
                }
            } else {
                proof {
                    assert forall|k: Seq<char>|
                        before.contains(k) <==> (exists|j: int|
                            0 <= j < i + 1 && (#[trigger] self.entries@[j]).0@ == k && p@.is_prefix_of(k)) by {
                        if exists|j: int|
                            0 <= j < i + 1 && (#[trigger] self.entries@[j]).0@ == k && p@.is_prefix_of(k) {
                            let j = choose|j: int|
                                0 <= j < i + 1 && (#[trigger] self.entries@[j]).0@ == k && p@.is_prefix_of(k);
                            assert(j < i);
                        }
                    }
                }
            }
            i = i + 1;
        }
        proof {
            assert forall|k: Seq<char>|
                string_views(r@).contains(k) <==> (self@.contains_key(k) && p@.is_prefix_of(k)) by {
                if self@.contains_key(k) && p@.is_prefix_of(k) {
                    assert(has_key(self.entries@, k));
                    let j = choose|j: int| 0 <= j < self.entries@.len() && (#[trigger] self.entries@[j]).0@ == k;
                    assert(self.entries@[j].0@ == k);
                }
            }
        }
        r
    }

    /// Remove every entry whose key starts with `p`.
    pub fn remove_prefixed(&mut self, p: &str)
        requires
            old(self).wf(),
        ensures
            final(self).wf(),
            final(self)@ == old(self)@.restrict(old(self)@.dom().filter(|k: Seq<char>| !p@.is_prefix_of(k))),
    {
        let ghost before = self.entries@;
        let ghost target = table_of(before).restrict(table_of(before).dom().filter(|k: Seq<char>| !p@.is_prefix_of(k)));
        let mut i: usize = 0;
        let ghost mut j: int = 0;
        while i < self.entries.len()
            invariant
                keys_distinct(before),
                keys_distinct(self.entries@),
                0 <= i <= j <= before.len(),
                self.entries@.len() == i + (before.len() - j),
                forall|q: int| j <= q < before.len() ==> self.entries@[i + (q - j)] == #[trigger] before[q],
                forall|q: int|
                    0 <= q < i ==> !p@.is_prefix_of((#[trigger] self.entries@[q]).0@)
                        && table_of(before)[self.entries@[q].0@] == self.entries@[q].1,
                forall|k: Seq<char>|
                    has_key(before, k) && !p@.is_prefix_of(k) ==> #[trigger] has_key(self.entries@, k),
                forall|q: int| 0 <= q < self.entries@.len() ==> has_key(before, #[trigger] self.entries@[q].0@),
            decreases self.entries@.len() - i,
        {
            if str_starts_with(self.entries[i].0.as_str(), p) {
                let ghost cur = self.entries@;
                self.entries.remove(i);
                proof {
                    let now = self.entries@;
                    assert(cur[i as int] == before[j]);
                    assert forall|q: int| j + 1 <= q < before.len() implies now[i + (q - (j + 1))]
                        == #[trigger] before[q] by {
                        assert(now[i + (q - (j + 1))] == cur[i + (q - j)]);
                    }
                    assert forall|a: int, b: int| 0 <= a < now.len() && 0 <= b < now.len() && a != b implies (
                    #[trigger] now[a]).0@ != (#[trigger] now[b]).0@ by {
                        let a0 = if a < i { a } else { a + 1 };
                        let b0 = if b < i { b } else { b + 1 };
                        assert(now[a] == cur[a0]);
                        assert(now[b] == cur[b0]);
                    }
                    assert forall|q: int| 0 <= q < now.len() implies has_key(before, #[trigger] now[q].0@) by {
                        let q0 = if q < i { q } else { q + 1 };
                        assert(now[q] == cur[q0]);
                    }
                    assert forall|k: Seq<char>|
                        has_key(before, k) && !p@.is_prefix_of(k) implies #[trigger] has_key(now, k) by {
                        assert(has_key(cur, k));
                        let w = choose|w: int| 0 <= w < cur.len() && (#[trigger] cur[w]).0@ == k;
                        assert(w != i);
                        let w1 = if w < i { w } else { w - 1 };
                        assert(now[w1] == cur[w]);
                    }
                    assert forall|q: int| 0 <= q < i implies !p@.is_prefix_of((#[trigger] now[q]).0@)
                        && table_of(before)[now[q].0@] == now[q].1 by {
                        assert(now[q] == cur[q]);
                    }
                    j = j + 1;
                }
            } else {
                proof {
                    let e = self.entries@[i as int];
                    assert(e == before[j]);
                    lemma_table_at(before, j);
                    assert forall|q: int| j + 1 <= q < before.len() implies self.entries@[(i + 1) + (q - (j + 1))]
                        == #[trigger] before[q] by {
                        assert(self.entries@[i + (q - j)] == before[q]);
                    }
                    j = j + 1;
                }
                i = i + 1;
            }
        }
        proof {
            let now = self.entries@;
            assert(j == before.len());
            assert forall|k: Seq<char>| #[trigger] table_of(now).contains_key(k) == target.contains_key(k) by {
                if has_key(now, k) {
                    let q = choose|q: int| 0 <= q < now.len() && (#[trigger] now[q]).0@ == k;
                    assert(now[q].0@ == k);
                }
            }
            assert forall|k: Seq<char>| #[trigger] table_of(now).contains_key(k) implies table_of(now)[k] == target[k] by {
                let q = choose|q: int| 0 <= q < now.len() && (#[trigger] now[q]).0@ == k;
                lemma_table_at(now, q);
            }
            assert(table_of(now) =~= target);
        }
    }
}

} // verus!
