//! The corpus: a mapping from example ids to examples.
//!
//! Keys are unique; `insert` overwrites the value of an existing key. The
//! corpus is built once by the loader and then only read by the partition
//! rules; a derived split is itself a corpus built by one rule.

use vstd::prelude::*;
use crate::record::{Example, ExampleView};

verus! {

/// A mapping from id (byte string) to [`Example`], with unique keys and a
/// stable insertion order.
#[derive(Debug)]
pub struct Corpus {
    keys: Vec<Vec<u8>>,
    vals: Vec<Example>,
}

/// No two entries of `s` are equal.
pub open spec fn unique_keys(s: Seq<Seq<u8>>) -> bool {
    forall|i: int, j: int| 0 <= i < s.len() && 0 <= j < s.len() && i != j ==> s[i] != s[j]
}

impl Corpus {
    /// The ids, in insertion order.
    pub closed spec fn key_seq(self) -> Seq<Seq<u8>> {
        self.keys.deep_view()
    }

    /// The examples, co-indexed with `key_seq`.
    pub closed spec fn val_seq(self) -> Seq<ExampleView> {
        Seq::new(self.vals@.len() as nat, |i: int| self.vals@[i]@)
    }

    /// Keys and values are co-indexed and no id occurs twice.
    pub open spec fn wf(self) -> bool {
        &&& self.key_seq().len() == self.val_seq().len()
        &&& unique_keys(self.key_seq())
    }

    /// The corpus holds an entry for id `k`.
    pub open spec fn has(self, k: Seq<u8>) -> bool {
        exists|i: int| 0 <= i < self.key_seq().len() && self.key_seq()[i] == k
    }

    /// The position of id `k` (meaningful only when `has(k)` and `wf()`).
    pub open spec fn idx_of(self, k: Seq<u8>) -> int {
        choose|i: int| 0 <= i < self.key_seq().len() && self.key_seq()[i] == k
    }

    /// The example stored under id `k` (meaningful only when `has(k)` and
    /// `wf()`).
    pub open spec fn val_of(self, k: Seq<u8>) -> ExampleView {
        self.val_seq()[self.idx_of(k)]
    }

    /// In a well-formed corpus, the entry at position `i` is found again by
    /// its own key.
    pub proof fn lemma_at_index(self, i: int)
        requires
            self.wf(),
            0 <= i < self.key_seq().len(),
        ensures
            self.has(self.key_seq()[i]),
            self.idx_of(self.key_seq()[i]) == i,
            self.val_of(self.key_seq()[i]) == self.val_seq()[i],
    {
        let k = self.key_seq()[i];
        assert(self.has(k));
        let j = self.idx_of(k);
        assert(0 <= j < self.key_seq().len() && self.key_seq()[j] == k);
        assert(j == i);
    }

    /// Returns the empty corpus.
    pub fn new() -> (c: Corpus)
        ensures
            c.wf(),
            c.key_seq().len() == 0,
            forall|k: Seq<u8>| !c.has(k),
    {
        Corpus { keys: Vec::new(), vals: Vec::new() }
    }

    /// Number of entries.
    pub fn len(&self) -> (n: usize)
        ensures
            n == self.key_seq().len(),
    {
        self.keys.len()
    }

    /// The id at position `i`.
    pub fn key_at(&self, i: usize) -> (k: &Vec<u8>)
        requires
            i < self.key_seq().len(),
            self.wf(),
        ensures
            k@ == self.key_seq()[i as int],
    {
        proof {
            assert(self.keys@[i as int].deep_view() =~= self.keys@[i as int]@);
        }
        &self.keys[i]
    }

    /// The example at position `i`.
    pub fn val_at(&self, i: usize) -> (v: &Example)
        requires
            i < self.key_seq().len(),
            self.wf(),
        ensures
            v@ == self.val_seq()[i as int],
    {
        &self.vals[i]
    }

    /// Finds the position of id `k`, if present.
    fn find(&self, k: &Vec<u8>) -> (r: Option<usize>)
        ensures
            match r {
                Some(i) => i < self.key_seq().len() && self.key_seq()[i as int] == k@,
                None => !self.has(k@),
            },
    {
        let n = self.keys.len();
        let mut i: usize = 0;
        while i < n
            invariant
                0 <= i <= n,
                n == self.key_seq().len(),
                n == self.keys@.len(),
                forall|j: int| 0 <= j < i ==> self.key_seq()[j] != k@,
            decreases n - i,
        {
            if bytes_eq(&self.keys[i], k) {
                assert(self.key_seq()[i as int] == self.keys@[i as int].deep_view());
                assert(self.keys@[i as int].deep_view() =~= self.keys@[i as int]@);
                return Some(i);
            }
            proof {
                assert(self.key_seq()[i as int] =~= self.keys@[i as int]@);
            }
            i = i + 1;
        }
        None
    }

    /// Reports whether the corpus holds an entry for id `k`.
    pub fn contains(&self, k: &Vec<u8>) -> (r: bool)
        ensures
            r == self.has(k@),
    {
        match self.find(k) {
            Some(i) => {
                proof {
                    let ii = i as int;
                    assert(0 <= ii < self.key_seq().len() && self.key_seq()[ii] == k@);
                }
                true
            },
            None => false,
        }
    }

    /// Returns the example stored under id `k`, if present.
    pub fn get<'a>(&'a self, k: &Vec<u8>) -> (r: Option<&'a Example>)
        requires
            self.wf(),
        ensures
            match r {
                Some(v) => self.has(k@) && v@ == self.val_of(k@),
                None => !self.has(k@),
            },
    {
        match self.find(k) {
            Some(i) => {
                proof {
                    self.lemma_at_index(i as int);
                }
                Some(&self.vals[i])
            },
            None => None,
        }
    }

    /// Inserts `v` under id `k`, overwriting any existing entry for `k`.
    pub fn insert(&mut self, k: Vec<u8>, v: Example)
        requires
            old(self).wf(),
        ensures
            final(self).wf(),
            forall|j: Seq<u8>| final(self).has(j) <==> old(self).has(j) || j == k@,
            final(self).val_of(k@) == v@,
            forall|j: Seq<u8>|
                old(self).has(j) && j != k@ ==> final(self).val_of(j) == old(self).val_of(j),
            final(self).key_seq().len() == if old(self).has(k@) {
                old(self).key_seq().len()
            } else {
                old(self).key_seq().len() + 1
            },
    {
        let ghost kv = k@;
        match self.find(&k) {
            Some(i) => {
                let ghost pre = *self;
                self.vals.set(i, v);
                proof {
                    assert(self.key_seq() == pre.key_seq());
                    assert(self.val_seq() =~= pre.val_seq().update(i as int, v@));
                    assert forall|j: Seq<u8>| self.has(j) <==> pre.has(j) || j == kv by {
                        if pre.has(j) || j == kv {
                            if j == kv {
                                assert(self.key_seq()[i as int] == j);
                            }
                            assert(self.has(j));
                        }
                    }
                    pre.lemma_at_index(i as int);
                    assert(pre.idx_of(kv) == i);
                    self.lemma_at_index(i as int);
                    assert(self.val_of(kv) == v@);
                    assert forall|j: Seq<u8>|
                        pre.has(j) && j != kv implies self.val_of(j) == pre.val_of(j) by {
                        let jj = pre.idx_of(j);
                        assert(0 <= jj < pre.key_seq().len() && pre.key_seq()[jj] == j);
                        assert(jj != i);
                        self.lemma_at_index(jj);
                    }
                }
            },
            None => {
                let ghost pre = *self;
                self.keys.push(k);
                self.vals.push(v);
                proof {
                    assert forall|i: int|
                        0 <= i < self.keys@.len()
                        implies self.key_seq()[i] == pre.key_seq().push(kv)[i] by {
                        if i < pre.keys@.len() {
                            assert(self.keys@[i] == pre.keys@[i]);
                        } else {
                            assert(self.keys@[i].deep_view() =~= kv);
                        }
                    }
                    assert(self.key_seq() =~= pre.key_seq().push(kv));
                    assert(self.val_seq() =~= pre.val_seq().push(v@));
                    let n = pre.key_seq().len() as int;
                    assert forall|i: int, j: int|
                        0 <= i < self.key_seq().len() && 0 <= j < self.key_seq().len() && i != j
                        implies self.key_seq()[i] != self.key_seq()[j] by {
                        if i < n && j < n {
                            assert(pre.key_seq()[i] != pre.key_seq()[j]);
                        } else if i == n {
                            assert(self.key_seq()[j] == pre.key_seq()[j]);
                            assert(!pre.has(kv));
                            assert(pre.key_seq()[j] != kv);
                        } else {
                            assert(self.key_seq()[i] == pre.key_seq()[i]);
                            assert(!pre.has(kv));
                            assert(pre.key_seq()[i] != kv);
                        }
                    }
                    assert(self.wf());
                    assert forall|j: Seq<u8>| self.has(j) <==> pre.has(j) || j == kv by {
                        if self.has(j) {
                            let i = choose|i: int|
                                0 <= i < self.key_seq().len() && self.key_seq()[i] == j;
                            if i < n {
                                assert(pre.key_seq()[i] == j);
                                assert(pre.has(j));
                            } else {
                                assert(j == kv);
                            }
                        }
                        if pre.has(j) {
                            let i = choose|i: int|
                                0 <= i < pre.key_seq().len() && pre.key_seq()[i] == j;
                            assert(self.key_seq()[i] == j);
                            assert(self.has(j));
                        }
                        if j == kv {
                            assert(self.key_seq()[n] == j);
                            assert(self.has(j));
                        }
                    }
                    self.lemma_at_index(n);
                    assert(self.val_of(kv) == v@);
                    assert forall|j: Seq<u8>|
                        pre.has(j) && j != kv implies self.val_of(j) == pre.val_of(j) by {
                        let jj = pre.idx_of(j);
                        assert(0 <= jj < pre.key_seq().len() && pre.key_seq()[jj] == j);
                        assert(self.key_seq()[jj] == j);
                        self.lemma_at_index(jj);
                    }
                }
            },
        }
    }
}

/// Value equality of two byte strings.
pub fn bytes_eq(a: &Vec<u8>, b: &Vec<u8>) -> (r: bool)
    ensures
        r == (a@ == b@),
{
    let n = a.len();
    if n != b.len() {
        return false;
    }
    let mut i: usize = 0;
    while i < n
        invariant
            0 <= i <= n,
            n == a@.len(),
            n == b@.len(),
            forall|j: int| 0 <= j < i ==> a@[j] == b@[j],
        decreases n - i,
    {
        if a[i] != b[i] {
            return false;
        }
        i = i + 1;
    }
    proof {
        assert(a@ =~= b@);
    }
    true
}

} // verus!
