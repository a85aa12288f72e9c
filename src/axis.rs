//! Per-coordinate counts of occupied cells along one axis of funge space.

use vstd::prelude::*;

verus! {

/// The keys of `s` strictly increase and every count is positive.
pub open spec fn sorted_counts(s: Seq<(i32, u64)>) -> bool {
    &&& forall|i: int, j: int| 0 <= i < j < s.len() ==> (#[trigger] s[i]).0 < (#[trigger] s[j]).0
    &&& forall|i: int| 0 <= i < s.len() ==> (#[trigger] s[i]).1 > 0
}

/// The count that `s` holds for the key `k`; 0 where `k` is absent.
pub open spec fn count_in(s: Seq<(i32, u64)>, k: i32) -> nat {
    if exists|j: int| 0 <= j < s.len() && (#[trigger] s[j]).0 == k {
        s[choose|j: int| 0 <= j < s.len() && (#[trigger] s[j]).0 == k].1 as nat
    } else {
        0
    }
}

/// In a sorted sequence the count of a present key is the one stored beside it.
proof fn lemma_count_at(s: Seq<(i32, u64)>, j: int)
    requires
        sorted_counts(s),
        0 <= j < s.len(),
    ensures
        count_in(s, s[j].0) == s[j].1 as nat,
{
    let k = s[j].0;
    assert(exists|i: int| 0 <= i < s.len() && (#[trigger] s[i]).0 == k) by {
        assert(s[j].0 == k);
    }
    let c = choose|i: int| 0 <= i < s.len() && (#[trigger] s[i]).0 == k;
    if c < j {
        assert(s[c].0 < s[j].0);
    } else if c > j {
        assert(s[j].0 < s[c].0);
    }
}

/// A key that no entry holds has count 0.
proof fn lemma_count_absent(s: Seq<(i32, u64)>, k: i32)
    requires
        forall|j: int| 0 <= j < s.len() ==> (#[trigger] s[j]).0 != k,
    ensures
        count_in(s, k) == 0,
{
}

/// Counts of occupied cells, keyed by coordinate, kept as a sorted list of
/// the coordinates whose count is positive.
pub struct Axis {
    entries: Vec<(i32, u64)>,
}

impl Axis {
    /// The entries are sorted by coordinate and hold positive counts.
    pub closed spec fn wf(&self) -> bool {
        sorted_counts(self.entries@)
    }

    /// The count for coordinate `k`.
    pub closed spec fn count(&self, k: i32) -> nat {
        count_in(self.entries@, k)
    }

    /// The least coordinate with a positive count, or 0 when there is none.
    pub closed spec fn low(&self) -> i32 {
        if self.entries@.len() == 0 {
            0
        } else {
            self.entries@[0].0
        }
    }

    /// The greatest coordinate with a positive count, or 0 when there is none.
    pub closed spec fn high(&self) -> i32 {
        if self.entries@.len() == 0 {
            0
        } else {
            self.entries@.last().0
        }
    }

    /// `low` and `high` are the extremes of the coordinates with positive counts.
    pub proof fn lemma_extremes(&self)
        requires
            self.wf(),
        ensures
            (forall|k: i32| #[trigger] self.count(k) == 0) ==> self.low() == 0 && self.high() == 0,
            !(forall|k: i32| #[trigger] self.count(k) == 0) ==> {
                &&& self.count(self.low()) > 0
                &&& self.count(self.high()) > 0
                &&& forall|k: i32| #[trigger] self.count(k) > 0 ==> self.low() <= k <= self.high()
            },
    {
        let s = self.entries@;
        let n = s.len();
        if n == 0 {
            assert forall|k: i32| #[trigger] self.count(k) == 0 by {
                lemma_count_absent(s, k);
            }
        } else {
            lemma_count_at(s, 0);
            lemma_count_at(s, n - 1);
            assert(self.count(self.low()) > 0);
            assert(self.count(self.high()) > 0);
            assert forall|k: i32| #[trigger] self.count(k) > 0 implies self.low() <= k <= self.high() by {
                let j = choose|j: int| 0 <= j < s.len() && (#[trigger] s[j]).0 == k;
                if j > 0 {
                    assert(s[0].0 < s[j].0);
                }
                if j < n - 1 {
                    assert(s[j].0 < s[n - 1].0);
                }
            }
        }
    }

    /// Creates an axis on which every count is 0.
    pub fn new() -> (r: Axis)
        ensures
            r.wf(),
            forall|k: i32| #[trigger] r.count(k) == 0,
    {
        Axis { entries: Vec::new() }
    }

    /// The index of the first entry whose coordinate is not below `k`.
    fn position(&self, k: i32) -> (i: usize)
        requires
            self.wf(),
        ensures
            i <= self.entries@.len(),
            forall|j: int| 0 <= j < i ==> (#[trigger] self.entries@[j]).0 < k,
            i < self.entries@.len() ==> self.entries@[i as int].0 >= k,
    {
        let mut i: usize = 0;
        while i < self.entries.len() && self.entries[i].0 < k
            invariant
                i <= self.entries@.len(),
                forall|j: int| 0 <= j < i ==> (#[trigger] self.entries@[j]).0 < k,
            decreases self.entries@.len() - i,
        {
            i = i + 1;
        }
        i
    }

    /// Adds one to the count of `k`.
    pub fn increment(&mut self, k: i32)
        requires
            old(self).wf(),
            old(self).count(k) < u64::MAX,
        ensures
            final(self).wf(),
            forall|q: i32| #[trigger]
                final(self).count(q) == old(self).count(q) + if q == k {
                    1nat
                } else {
                    0nat
                },
    {
        let i = self.position(k);
        let ghost s = self.entries@;
        if i < self.entries.len() && self.entries[i].0 == k {
            let c = self.entries[i].1;
            proof {
                lemma_count_at(s, i as int);
            }
            self.entries.set(i, (k, c + 1));
            let ghost t = self.entries@;
            assert(sorted_counts(t));
            assert forall|q: i32| #[trigger]
                count_in(t, q) == count_in(s, q) + if q == k {
                    1nat
                } else {
                    0nat
                } by {
                if q == k {
                    lemma_count_at(t, i as int);
                } else if exists|j: int| 0 <= j < s.len() && (#[trigger] s[j]).0 == q {
                    let j = choose|j: int| 0 <= j < s.len() && (#[trigger] s[j]).0 == q;
                    lemma_count_at(s, j);
                    lemma_count_at(t, j);
                } else {
                    assert forall|j: int| 0 <= j < t.len() implies (#[trigger] t[j]).0 != q by {
                        assert(j != i ==> t[j] == s[j]);
                    }
                }
            }
        } else {
            self.entries.insert(i, (k, 1));
            let ghost t = self.entries@;
            assert(t =~= s.insert(i as int, (k, 1)));
            assert forall|a: int, b: int| 0 <= a < b < t.len() implies (#[trigger] t[a]).0 < (
            #[trigger] t[b]).0 by {
                if a < i && b > i {
                    assert(t[b] == s[b - 1]);
                    if b - 1 > a {
                        assert(s[a].0 < s[b - 1].0);
                    }
                } else if b < i {
                    assert(s[a].0 < s[b].0);
                } else if a > i {
                    assert(s[a - 1].0 < s[b - 1].0);
                } else if a == i {
                    assert(t[b] == s[b - 1]);
                    assert(s[i as int].0 >= k);
                    if b - 1 > i {
                        assert(s[i as int].0 < s[b - 1].0);
                    }
                }
            }
            assert(sorted_counts(t));
            assert forall|j: int| 0 <= j < s.len() implies (#[trigger] s[j]).0 != k by {
                if j >= i {
                    assert(s[i as int].0 != k);
                    if j > i {
                        assert(s[i as int].0 < s[j].0);
                    }
                }
            }
            assert forall|q: i32| #[trigger]
                count_in(t, q) == count_in(s, q) + if q == k {
                    1nat
                } else {
                    0nat
                } by {
                if q == k {
                    lemma_count_absent(s, k);
                    lemma_count_at(t, i as int);
                } else if exists|j: int| 0 <= j < s.len() && (#[trigger] s[j]).0 == q {
                    let j = choose|j: int| 0 <= j < s.len() && (#[trigger] s[j]).0 == q;
                    lemma_count_at(s, j);
                    if j < i {
                        lemma_count_at(t, j);
                    } else {
                        assert(t[j + 1] == s[j]);
                        lemma_count_at(t, j + 1);
                    }
                } else {
                    assert forall|j: int| 0 <= j < t.len() implies (#[trigger] t[j]).0 != q by {
                        if j < i {
                            assert(t[j] == s[j]);
                        } else if j > i {
                            assert(t[j] == s[j - 1]);
                        }
                    }
                }
            }
        }
    }

    /// Takes one from the count of `k`.
    pub fn decrement(&mut self, k: i32)
        requires
            old(self).wf(),
            old(self).count(k) > 0,
        ensures
            final(self).wf(),
            forall|q: i32| #[trigger]
                final(self).count(q) == if q == k {
                    (old(self).count(q) - 1) as nat
                } else {
                    old(self).count(q)
                },
    {
        let i = self.position(k);
        let ghost s = self.entries@;
        proof {
            if i >= s.len() || s[i as int].0 != k {
                assert forall|j: int| 0 <= j < s.len() implies (#[trigger] s[j]).0 != k by {
                    if j > i {
                        assert(s[i as int].0 < s[j].0);
                    }
                }
                lemma_count_absent(s, k);
            }
            lemma_count_at(s, i as int);
        }
        let c = self.entries[i].1;
        if c == 1 {
            self.entries.remove(i);
            let ghost t = self.entries@;
            assert(t =~= s.remove(i as int));
            assert forall|a: int, b: int| 0 <= a < b < t.len() implies (#[trigger] t[a]).0 < (
            #[trigger] t[b]).0 by {
                if a < i && b >= i {
                    assert(s[a].0 < s[b + 1].0);
                } else if b < i {
                    assert(s[a].0 < s[b].0);
                } else {
                    assert(s[a + 1].0 < s[b + 1].0);
                }
            }
            assert(sorted_counts(t));
            assert forall|q: i32| #[trigger]
                count_in(t, q) == if q == k {
                    (count_in(s, q) - 1) as nat
                } else {
                    count_in(s, q)
                } by {
                if q == k {
                    assert forall|j: int| 0 <= j < t.len() implies (#[trigger] t[j]).0 != k by {
                        if j < i {
                            assert(s[j].0 < s[i as int].0);
                        } else {
                            assert(t[j] == s[j + 1]);
                            assert(s[i as int].0 < s[j + 1].0);
                        }
                    }
                } else if exists|j: int| 0 <= j < s.len() && (#[trigger] s[j]).0 == q {
                    let j = choose|j: int| 0 <= j < s.len() && (#[trigger] s[j]).0 == q;
                    lemma_count_at(s, j);
                    if j < i {
                        lemma_count_at(t, j);
                    } else {
                        assert(j != i);
                        assert(t[j - 1] == s[j]);
                        lemma_count_at(t, j - 1);
                    }
                } else {
                    assert forall|j: int| 0 <= j < t.len() implies (#[trigger] t[j]).0 != q by {
                        if j < i {
                            assert(t[j] == s[j]);
                        } else {
                            assert(t[j] == s[j + 1]);
                        }
                    }
                }
            }
        } else {
            self.entries.set(i, (k, c - 1));
            let ghost t = self.entries@;
            assert(sorted_counts(t));
            assert forall|q: i32| #[trigger]
                count_in(t, q) == if q == k {
                    (count_in(s, q) - 1) as nat
                } else {
                    count_in(s, q)
                } by {
                if q == k {
                    lemma_count_at(t, i as int);
                } else if exists|j: int| 0 <= j < s.len() && (#[trigger] s[j]).0 == q {
                    let j = choose|j: int| 0 <= j < s.len() && (#[trigger] s[j]).0 == q;
                    lemma_count_at(s, j);
                    lemma_count_at(t, j);
                } else {
                    assert forall|j: int| 0 <= j < t.len() implies (#[trigger] t[j]).0 != q by {
                        assert(j != i ==> t[j] == s[j]);
                    }
                }
            }
        }
    }

    /// The count for coordinate `k`.
    pub fn get(&self, k: i32) -> (r: u64)
        requires
            self.wf(),
        ensures
            r == self.count(k),
    {
        let i = self.position(k);
        if i < self.entries.len() && self.entries[i].0 == k {
            proof {
                lemma_count_at(self.entries@, i as int);
            }
            self.entries[i].1
        } else {
            proof {
                assert forall|j: int| 0 <= j < self.entries@.len() implies (#[trigger] self.entries@[j]).0 != k by {
                    if j > i {
                        assert(self.entries@[i as int].0 < self.entries@[j].0);
                    }
                }
                lemma_count_absent(self.entries@, k);
            }
            0
        }
    }

    /// The least coordinate with a positive count, or 0 when there is none.
    pub fn least(&self) -> (r: i32)
        requires
            self.wf(),
        ensures
            r == self.low(),
    {
        if self.entries.len() == 0 {
            0
        } else {
            self.entries[0].0
        }
    }

    /// The greatest coordinate with a positive count, or 0 when there is none.
    pub fn greatest(&self) -> (r: i32)
        requires
            self.wf(),
        ensures
            r == self.high(),
    {
        let n = self.entries.len();
        if n == 0 {
            0
        } else {
            self.entries[n - 1].0
        }
    }
}

} // verus!
