//! A map keyed by path strings, kept as a list of entries with distinct keys,
//! with the positions of the entries bucketed by a hash of their key.
use std::collections::hash_map::DefaultHasher;
use std::collections::HashMap;
use std::hash::Hasher;
use vstd::prelude::*;
use vstd::std_specs::hash::DefaultHasherAdditionalSpecFns;
use vstd::utf8::encode_utf8;

verus! {

/// The map that a list of entries stands for: a later entry wins over an
/// earlier one with the same key.
pub open spec fn map_of<V>(s: Seq<(String, V)>) -> Map<Seq<char>, V>
    decreases s.len(),
{
    if s.len() == 0 {
        Map::empty()
    } else {
        map_of(s.drop_last()).insert(s.last().0@, s.last().1)
    }
}

/// No two entries share a key.
pub open spec fn keys_distinct<V>(s: Seq<(String, V)>) -> bool {
    forall|i: int, j: int| 0 <= i < j < s.len() ==> s[i].0@ != s[j].0@
}

pub proof fn lemma_map_of_contains<V>(s: Seq<(String, V)>, k: Seq<char>)
    ensures
        map_of(s).contains_key(k) <==> exists|i: int| 0 <= i < s.len() && s[i].0@ == k,
    decreases s.len(),
{
    if s.len() > 0 {
        lemma_map_of_contains(s.drop_last(), k);
        if map_of(s).contains_key(k) && k != s.last().0@ {
            let i = choose|i: int| 0 <= i < s.drop_last().len() && s.drop_last()[i].0@ == k;
            assert(s[i].0@ == k);
        }
        if exists|i: int| 0 <= i < s.len() && s[i].0@ == k {
            let i = choose|i: int| 0 <= i < s.len() && s[i].0@ == k;
            if i < s.len() - 1 {
                assert(s.drop_last()[i].0@ == k);
            }
        }
    }
}

pub proof fn lemma_map_of_value<V>(s: Seq<(String, V)>, i: int)
    requires
        keys_distinct(s),
        0 <= i < s.len(),
    ensures
        map_of(s).contains_key(s[i].0@),
        map_of(s)[s[i].0@] == s[i].1,
    decreases s.len(),
{
    if i < s.len() - 1 {
        assert(keys_distinct(s.drop_last()));
        lemma_map_of_value(s.drop_last(), i);
        assert(s.drop_last()[i] == s[i]);
    }
}

pub proof fn lemma_map_of_len<V>(s: Seq<(String, V)>)
    requires
        keys_distinct(s),
    ensures
        map_of(s).dom().finite(),
        map_of(s).dom().len() == s.len(),
    decreases s.len(),
{
    if s.len() > 0 {
        let d = s.drop_last();
        assert(keys_distinct(d));
        lemma_map_of_len(d);
        if map_of(d).contains_key(s.last().0@) {
            lemma_map_of_contains(d, s.last().0@);
            let i = choose|i: int| 0 <= i < d.len() && d[i].0@ == s.last().0@;
            assert(s[i].0@ == s[s.len() - 1].0@);
        }
    }
}

/// The hash that a key's bucket is found by.
pub open spec fn key_hash(k: Seq<char>) -> u64 {
    DefaultHasher::spec_finish(seq![encode_utf8(k)])
}

fn hash_key(key: &String) -> (r: u64)
    ensures
        r == key_hash(key@),
{
    let mut h = DefaultHasher::new();
    h.write(key.as_str().as_bytes());
    proof {
        assert(h@ =~= seq![encode_utf8(key@)]);
    }
    h.finish()
}

/// Every entry's position is in the bucket of its key's hash.
pub open spec fn bucketed<V>(s: Seq<(String, V)>, buckets: Map<u64, Vec<usize>>) -> bool {
    forall|i: int|
        0 <= i < s.len() ==> buckets.contains_key(key_hash((#[trigger] s[i]).0@)) && buckets[key_hash(
            s[i].0@,
        )]@.contains(i as usize)
}

/// Entries keyed by path strings, at most one per key.
pub struct PathMap<V> {
    entries: Vec<(String, V)>,
    buckets: HashMap<u64, Vec<usize>>,
}

impl<V> PathMap<V> {
    pub closed spec fn entries_view(&self) -> Seq<(String, V)> {
        self.entries@
    }

    pub open spec fn view(&self) -> Map<Seq<char>, V> {
        map_of(self.entries_view())
    }

    pub closed spec fn wf(&self) -> bool {
        &&& keys_distinct(self.entries@)
        &&& bucketed(self.entries@, self.buckets@)
    }

    /// The key of the `i`-th entry.
    pub open spec fn key_at(&self, i: int) -> Seq<char> {
        self.entries_view()[i].0@
    }

    pub open spec fn len_spec(&self) -> nat {
        self.entries_view().len()
    }

    pub proof fn lemma_wf_facts(&self)
        requires
            self.wf(),
        ensures
            self@.dom().finite(),
            self@.dom().len() == self.len_spec(),
            forall|i: int| 0 <= i < self.len_spec() ==> #[trigger] self@.contains_key(self.key_at(i)),
            forall|k: Seq<char>| #[trigger] self@.contains_key(k) ==>
                exists|i: int| 0 <= i < self.len_spec() && self.key_at(i) == k,
    {
        lemma_map_of_len(self.entries_view());
        assert forall|i: int| 0 <= i < self.len_spec() implies #[trigger] self@.contains_key(self.key_at(i)) by {
            lemma_map_of_value(self.entries_view(), i);
        }
        assert forall|k: Seq<char>| #[trigger] self@.contains_key(k) implies
            exists|i: int| 0 <= i < self.len_spec() && self.key_at(i) == k by {
            lemma_map_of_contains(self.entries_view(), k);
            let i = choose|i: int| 0 <= i < self.entries_view().len() && self.entries_view()[i].0@ == k;
            assert(self.key_at(i) == k);
        }
    }

    pub fn new() -> (r: Self)
        ensures
            r.wf(),
            r@ == Map::<Seq<char>, V>::empty(),
    {
        PathMap { entries: Vec::new(), buckets: HashMap::new() }
    }

    pub fn len(&self) -> (r: usize)
        requires
            self.wf(),
        ensures
            r == self@.dom().len(),
            r == self.len_spec(),
    {
        proof {
            lemma_map_of_len(self.entries_view());
        }
        self.entries.len()
    }

    pub fn is_empty(&self) -> (r: bool)
        requires
            self.wf(),
        ensures
            r == (self@.dom().len() == 0),
    {
        self.len() == 0
    }

    fn find(&self, key: &String) -> (r: Option<usize>)
        requires
            self.wf(),
        ensures
            match r {
                Some(i) => i < self.len_spec() && self.key_at(i as int) == key@,
                None => !self@.contains_key(key@),
            },
    {
        broadcast use vstd::std_specs::hash::group_hash_axioms;
        let n = self.entries.len();
        let h = hash_key(key);
        let bucket = match self.buckets.get(&h) {
            None => {
                proof {
                    lemma_map_of_contains(self.entries@, key@);
                    if self@.contains_key(key@) {
                        let i = choose|i: int| 0 <= i < self.entries@.len() && self.entries@[i].0@ == key@;
                        assert(self.buckets@.contains_key(key_hash(self.entries@[i].0@)));
                    }
                }
                return None;
            },
            Some(b) => b,
        };
        let mut j: usize = 0;
        while j < bucket.len()
            invariant
                self.wf(),
                n == self.entries@.len(),
                h == key_hash(key@),
                self.buckets@.contains_key(h),
                *bucket == self.buckets@[h],
                j <= bucket@.len(),
                forall|t: int| 0 <= t < j ==> !((bucket@[t] as int) < self.entries@.len() && self.entries@[bucket@[t] as int].0@ == key@),
            decreases bucket.len() - j,
        {
            let p = bucket[j];
            if p < self.entries.len() && self.entries[p].0 == *key {
                return Some(p);
            }
            j += 1;
        }
        proof {
            lemma_map_of_contains(self.entries@, key@);
            if self@.contains_key(key@) {
                let i = choose|i: int| 0 <= i < self.entries@.len() && self.entries@[i].0@ == key@;
                assert(key_hash(self.entries@[i].0@) == h);
                assert(self.buckets@[h]@.contains(i as usize));
                assert(bucket@ == self.buckets@[h]@);
                let t = choose|t: int| 0 <= t < bucket@.len() && bucket@[t] == i as usize;
                assert(j == bucket@.len());
                assert((bucket@[t] as int) == i);
                assert(!((bucket@[t] as int) < self.entries@.len() && self.entries@[bucket@[t] as int].0@ == key@));
                assert(false);
            }
        }
        None
    }

    fn add_to_bucket(&mut self, h: u64, pos: usize)
        requires
            old(self).wf(),
        ensures
            final(self).entries@ == old(self).entries@,
            final(self).wf(),
            final(self).buckets@.contains_key(h),
            final(self).buckets@[h]@.contains(pos),
    {
        broadcast use vstd::std_specs::hash::group_hash_axioms;
        let ghost b0 = self.buckets@;
        let mut b = match self.buckets.remove(&h) {
            Some(b) => b,
            None => Vec::new(),
        };
        let ghost old_b = b@;
        b.push(pos);
        self.buckets.insert(h, b);
        proof {
            assert(self.buckets@[h]@.contains(pos)) by {
                assert(self.buckets@[h]@[old_b.len() as int] == pos);
            }
            assert forall|i: int| 0 <= i < self.entries@.len() implies self.buckets@.contains_key(key_hash((#[trigger] self.entries@[i]).0@))
                && self.buckets@[key_hash(self.entries@[i].0@)]@.contains(i as usize) by {
                let hi = key_hash(self.entries@[i].0@);
                assert(b0.contains_key(hi) && b0[hi]@.contains(i as usize));
                if hi == h {
                    let t = choose|t: int| 0 <= t < b0[hi]@.len() && b0[hi]@[t] == i as usize;
                    assert(old_b == b0[h]@);
                    assert(self.buckets@[h]@[t] == i as usize);
                }
            }
        }
    }

    /// Whether an entry has the given key.
    pub fn contains_key(&self, key: &String) -> (r: bool)
        requires
            self.wf(),
        ensures
            r == self@.contains_key(key@),
    {
        match self.find(key) {
            Some(i) => {
                proof {
                    lemma_map_of_value(self.entries_view(), i as int);
                }
                true
            },
            None => false,
        }
    }

    /// The value under the given key.
    pub fn get(&self, key: &String) -> (r: Option<&V>)
        requires
            self.wf(),
        ensures
            match r {
                Some(v) => self@.contains_key(key@) && *v == self@[key@],
                None => !self@.contains_key(key@),
            },
    {
        match self.find(key) {
            Some(i) => {
                proof {
                    lemma_map_of_value(self.entries_view(), i as int);
                }
                Some(&self.entries[i].1)
            },
            None => None,
        }
    }

    /// The key of the `i`-th entry.
    pub fn key(&self, i: usize) -> (r: &String)
        requires
            i < self.len_spec(),
        ensures
            r@ == self.key_at(i as int),
    {
        &self.entries[i].0
    }

    /// The value of the `i`-th entry.
    pub fn value(&self, i: usize) -> (r: &V)
        requires
            self.wf(),
            i < self.len_spec(),
        ensures
            self@.contains_key(self.key_at(i as int)),
            *r == self@[self.key_at(i as int)],
    {
        proof {
            lemma_map_of_value(self.entries_view(), i as int);
        }
        &self.entries[i].1
    }

    /// Puts `value` under `key`, replacing what was there.
    pub fn insert(&mut self, key: String, value: V)
        requires
            old(self).wf(),
        ensures
            final(self).wf(),
            final(self)@ == old(self)@.insert(key@, value),
    {
        match self.find(&key) {
            Some(i) => {
                let ghost s0 = self.entries@;
                self.entries.set(i, (key, value));
                proof {
                    let s1 = self.entries@;
                    assert(keys_distinct(s1)) by {
                        assert forall|a: int, b: int| 0 <= a < b < s1.len() implies s1[a].0@ != s1[b].0@ by {
                            assert(s1[a].0@ == s0[a].0@);
                            assert(s1[b].0@ == s0[b].0@);
                        }
                    }
                    assert forall|k: Seq<char>| true implies
                        (map_of(s1).contains_key(k) == old(self)@.insert(key@, value).contains_key(k)) by {
                        lemma_map_of_contains(s1, k);
                        lemma_map_of_contains(s0, k);
                        if exists|j: int| 0 <= j < s0.len() && s0[j].0@ == k {
                            let j = choose|j: int| 0 <= j < s0.len() && s0[j].0@ == k;
                            assert(s1[j].0@ == k);
                        }
                        if exists|j: int| 0 <= j < s1.len() && s1[j].0@ == k {
                            let j = choose|j: int| 0 <= j < s1.len() && s1[j].0@ == k;
                            assert(s0[j].0@ == k);
                        }
                    }
                    assert forall|k: Seq<char>| map_of(s1).contains_key(k) implies
                        map_of(s1)[k] == old(self)@.insert(key@, value)[k] by {
                        lemma_map_of_contains(s1, k);
                        let j = choose|j: int| 0 <= j < s1.len() && s1[j].0@ == k;
                        lemma_map_of_value(s1, j);
                        if j != i {
                            lemma_map_of_value(s0, j);
                        }
                    }
                    assert(map_of(s1) =~= old(self)@.insert(key@, value));
                }
            },
            None => {
                let n = self.entries.len();
                let h = hash_key(&key);
                self.add_to_bucket(h, n);
                let ghost s0 = self.entries@;
                self.entries.push((key, value));
                proof {
                    let s1 = self.entries@;
                    assert forall|i: int| 0 <= i < s1.len() implies self.buckets@.contains_key(key_hash((#[trigger] s1[i]).0@))
                        && self.buckets@[key_hash(s1[i].0@)]@.contains(i as usize) by {
                        if i < s0.len() {
                            assert(s1[i] == s0[i]);
                        }
                    }
                    assert(s1.drop_last() == s0);
                    assert forall|a: int, b: int| 0 <= a < b < s1.len() implies s1[a].0@ != s1[b].0@ by {
                        if b == s1.len() - 1 {
                            lemma_map_of_contains(s0, key@);
                            assert(s0[a].0@ == s1[a].0@);
                        } else {
                            assert(s0[a] == s1[a] && s0[b] == s1[b]);
                        }
                    }
                }
            },
        }
    }

    /// Adds every entry of `other`, whose entries win over those already here.
    pub fn extend(&mut self, other: Self)
        requires
            old(self).wf(),
            other.wf(),
        ensures
            final(self).wf(),
            final(self)@ == old(self)@.union_prefer_right(other@),
    {
        let mut rest = other.entries;
        while rest.len() > 0
            invariant
                self.wf(),
                keys_distinct(rest@),
                old(self)@.union_prefer_right(other@) == self@.union_prefer_right(map_of(rest@)),
            decreases rest.len(),
        {
            let ghost r0 = rest@;
            let (k, v) = rest.pop().unwrap();
            proof {
                assert(r0.drop_last() == rest@);
                assert(keys_distinct(rest@));
                lemma_map_of_contains(rest@, k@);
                assert forall|i: int| 0 <= i < rest@.len() implies rest@[i].0@ != k@ by {
                    assert(r0[i] == rest@[i]);
                }
                assert(self@.union_prefer_right(map_of(r0)) =~= self@.insert(k@, v).union_prefer_right(
                    map_of(rest@),
                ));
            }
            self.insert(k, v);
        }
        proof {
            assert(self@.union_prefer_right(map_of(rest@)) =~= self@);
        }
    }

    fn rebuild_buckets(&mut self)
        requires
            keys_distinct(old(self).entries@),
        ensures
            final(self).entries@ == old(self).entries@,
            final(self).wf(),
    {
        broadcast use vstd::std_specs::hash::group_hash_axioms;
        self.buckets = HashMap::new();
        let mut i: usize = 0;
        while i < self.entries.len()
            invariant
                self.entries@ == old(self).entries@,
                keys_distinct(self.entries@),
                i <= self.entries@.len(),
                bucketed(self.entries@.subrange(0, i as int), self.buckets@),
            decreases self.entries.len() - i,
        {
            let h = hash_key(&self.entries[i].0);
            let ghost b0 = self.buckets@;
            let mut b = match self.buckets.remove(&h) {
                Some(b) => b,
                None => Vec::new(),
            };
            let ghost old_b = b@;
            b.push(i);
            self.buckets.insert(h, b);
            proof {
                let sub = self.entries@.subrange(0, i as int + 1);
                assert(self.buckets@[h]@[old_b.len() as int] == i);
                assert forall|t: int| 0 <= t < sub.len() implies self.buckets@.contains_key(key_hash((#[trigger] sub[t]).0@))
                    && self.buckets@[key_hash(sub[t].0@)]@.contains(t as usize) by {
                    if t < i {
                        let prev = self.entries@.subrange(0, i as int);
                        assert(prev[t] == sub[t]);
                        let ht = key_hash(sub[t].0@);
                        assert(b0.contains_key(ht) && b0[ht]@.contains(t as usize));
                        if ht == h {
                            let u = choose|u: int| 0 <= u < b0[ht]@.len() && b0[ht]@[u] == t as usize;
                            assert(old_b == b0[h]@);
                            assert(self.buckets@[h]@[u] == t as usize);
                        }
                    }
                }
            }
            i += 1;
        }
        proof {
            assert(self.entries@.subrange(0, self.entries@.len() as int) == self.entries@);
        }
    }

    /// Takes out the entry with the given key, if there is one.
    pub fn remove(&mut self, key: &String) -> (r: Option<V>)
        requires
            old(self).wf(),
        ensures
            final(self).wf(),
            final(self)@ == old(self)@.remove(key@),
            match r {
                Some(v) => old(self)@.contains_key(key@) && v == old(self)@[key@],
                None => !old(self)@.contains_key(key@),
            },
    {
        match self.find(key) {
            Some(i) => {
                let ghost s0 = self.entries@;
                proof {
                    lemma_map_of_value(s0, i as int);
                }
                let (_, v) = self.entries.remove(i);
                proof {
                    let s1 = self.entries@;
                    assert(s1 == s0.remove(i as int));
                    assert forall|a: int, b: int| 0 <= a < b < s1.len() implies s1[a].0@ != s1[b].0@ by {
                        let a0 = if a < i { a } else { a + 1 };
                        let b0 = if b < i { b } else { b + 1 };
                        assert(s1[a] == s0[a0] && s1[b] == s0[b0]);
                    }
                }
                self.rebuild_buckets();
                proof {
                    let s1 = self.entries@;
                    assert forall|k: Seq<char>| true implies
                        (map_of(s1).contains_key(k) == old(self)@.remove(key@).contains_key(k)) by {
                        lemma_map_of_contains(s1, k);
                        lemma_map_of_contains(s0, k);
                        if exists|j: int| 0 <= j < s0.len() && s0[j].0@ == k {
                            let j = choose|j: int| 0 <= j < s0.len() && s0[j].0@ == k;
                            if j < i {
                                assert(s1[j].0@ == k);
                            } else if j > i {
                                assert(s1[j - 1].0@ == k);
                            }
                        }
                        if exists|j: int| 0 <= j < s1.len() && s1[j].0@ == k {
                            let j = choose|j: int| 0 <= j < s1.len() && s1[j].0@ == k;
                            let j0 = if j < i { j } else { j + 1 };
                            assert(s0[j0].0@ == k);
                        }
                    }
                    assert forall|k: Seq<char>| map_of(s1).contains_key(k) implies
                        map_of(s1)[k] == old(self)@.remove(key@)[k] by {
                        lemma_map_of_contains(s1, k);
                        let j = choose|j: int| 0 <= j < s1.len() && s1[j].0@ == k;
                        let j0 = if j < i { j } else { j + 1 };
                        lemma_map_of_value(s1, j);
                        lemma_map_of_value(s0, j0);
                        assert(s1[j] == s0[j0]);
                    }
                    assert(map_of(s1) =~= old(self)@.remove(key@));
                }
                Some(v)
            },
            None => {
                proof {
                    assert(old(self)@.remove(key@) =~= old(self)@);
                }
                None
            },
        }
    }

    /// Takes out the entries whose flag, by position, is true, and returns how
    /// many were taken out.
    pub fn remove_flagged(&mut self, flags: &Vec<bool>) -> (removed: usize)
        requires
            old(self).wf(),
        ensures
            final(self).wf(),
            final(self)@ == old(self)@.remove_keys(flagged_keys(*old(self), flags@)),
            removed == old(self)@.dom().len() - final(self)@.dom().len(),
    {
        let ghost gone = flagged_keys(*self, flags@);
        let mut doomed: Vec<String> = Vec::new();
        let mut i: usize = 0;
        while i < self.entries.len()
            invariant
                i <= self.entries@.len(),
                forall|k: Seq<char>| #[trigger] listed(doomed@, k) == flagged_before(self.entries@, flags@, i as int, k),
            decreases self.entries.len() - i,
        {
            let ghost d0 = doomed@;
            if i < flags.len() && flags[i] {
                let k = self.entries[i].0.clone();
                doomed.push(k);
            }
            proof {
                assert forall|kk: Seq<char>| #[trigger] listed(doomed@, kk) == flagged_before(self.entries@, flags@, i + 1, kk) by {
                    if flagged_before(self.entries@, flags@, i + 1, kk) {
                        let j = choose|j: int| 0 <= j < i + 1 && j < flags@.len() && flags@[j] && self.entries@[j].0@ == kk;
                        if j == i {
                            assert(doomed@[d0.len() as int]@ == kk);
                        } else {
                            assert(flagged_before(self.entries@, flags@, i as int, kk));
                            assert(listed(d0, kk));
                            let j2 = choose|j2: int| 0 <= j2 < d0.len() && d0[j2]@ == kk;
                            assert(doomed@[j2] == d0[j2]);
                        }
                    }
                    if listed(doomed@, kk) {
                        let j = choose|j: int| 0 <= j < doomed@.len() && doomed@[j]@ == kk;
                        if j < d0.len() {
                            assert(d0[j] == doomed@[j]);
                            assert(listed(d0, kk));
                        }
                    }
                }
            }
            i += 1;
        }
        let ghost m0 = self@;
        proof {
            lemma_map_of_len(self.entries@);
            assert(self.entries@.len() <= usize::MAX);
            assert forall|k: Seq<char>| gone.contains(k) <==> #[trigger] listed(doomed@, k) by {}
        }
        let mut removed: usize = 0;
        let mut n: usize = 0;
        while n < doomed.len()
            invariant
                self.wf(),
                n <= doomed@.len(),
                m0.dom().finite(),
                m0.dom().len() <= usize::MAX,
                self@ == m0.remove_keys(Set::new(|k: Seq<char>| listed(doomed@.subrange(0, n as int), k))),
                removed + self@.dom().len() == m0.dom().len(),
            decreases doomed.len() - n,
        {
            let ghost before = self@;
            let r = self.remove(&doomed[n]);
            proof {
                lemma_map_of_len(self.entries@);
                lemma_map_of_len(self.entries_view());
                let pre = doomed@.subrange(0, n as int);
                let post = doomed@.subrange(0, n as int + 1);
                assert forall|k: Seq<char>| listed(post, k) == (listed(pre, k) || k == doomed@[n as int]@) by {
                    if listed(post, k) {
                        let j = choose|j: int| 0 <= j < post.len() && post[j]@ == k;
                        if j < n {
                            assert(pre[j] == post[j]);
                        }
                    }
                    if listed(pre, k) {
                        let j = choose|j: int| 0 <= j < pre.len() && pre[j]@ == k;
                        assert(pre[j] == post[j]);
                    }
                    if k == doomed@[n as int]@ {
                        assert(post[n as int]@ == k);
                    }
                }
                assert(self@ =~= m0.remove_keys(Set::new(|k: Seq<char>| listed(post, k))));
                if r.is_some() {
                    assert(before.dom().len() == self@.dom().len() + 1) by {
                        assert(self@.dom() =~= before.dom().remove(doomed@[n as int]@));
                    }
                } else {
                    assert(self@.dom() =~= before.dom());
                }
            }
            if r.is_some() {
                removed += 1;
            }
            n += 1;
        }
        proof {
            assert(doomed@.subrange(0, n as int) == doomed@);
            assert(self@ =~= m0.remove_keys(gone));
        }
        removed
    }
}

/// Some string of `v` has the characters `k`.
pub open spec fn listed(v: Seq<String>, k: Seq<char>) -> bool {
    exists|j: int| 0 <= j < v.len() && v[j]@ == k
}

/// One of the first `n` entries has key `k` and a true flag.
pub open spec fn flagged_before<V>(s: Seq<(String, V)>, flags: Seq<bool>, n: int, k: Seq<char>) -> bool {
    exists|j: int| 0 <= j < n && j < flags.len() && flags[j] && s[j].0@ == k
}

/// The keys of the entries whose flag, by position, is true.
pub open spec fn flagged_keys<V>(m: PathMap<V>, flags: Seq<bool>) -> Set<Seq<char>> {
    Set::new(|k: Seq<char>| flagged_before(m.entries_view(), flags, m.len_spec() as int, k))
}

} // verus!
