//! Permutations of the indices `0..n`.

use vstd::prelude::*;
use vstd::set_lib::lemma_int_range;
use vstd::set_lib::lemma_subset_equality;
use vstd::set_lib::set_int_range;

verus! {

/// Every entry of `idxs` is an index into it, and no entry occurs twice.
pub open spec fn is_permutation(idxs: Seq<usize>) -> bool {
    &&& forall|i: int| 0 <= i < idxs.len() ==> #[trigger] idxs[i] < idxs.len()
    &&& forall|i: int, j: int|
        0 <= i < idxs.len() && 0 <= j < idxs.len() && i != j ==> idxs[i] != idxs[j]
}

/// The entries of `idxs` before position `k`, as a set.
pub open spec fn entries_before(idxs: Seq<usize>, k: int) -> Set<int> {
    Set::new(|v: int| exists|j: int| 0 <= j < k && #[trigger] idxs[j] == v)
}

/// Whether `v` is an entry of `idxs`.
pub open spec fn takes(idxs: Seq<usize>, v: int) -> bool {
    exists|j: int| 0 <= j < idxs.len() && #[trigger] idxs[j] == v
}

/// A permutation takes every index as a value.
pub proof fn lemma_permutation_onto(idxs: Seq<usize>)
    requires
        is_permutation(idxs),
    ensures
        forall|v: int| 0 <= v < idxs.len() ==> #[trigger] takes(idxs, v),
{
    let n = idxs.len() as int;
    lemma_entries_counted(idxs, n);
    lemma_int_range(0, n);
    let all = entries_before(idxs, n);
    assert(all.subset_of(set_int_range(0, n)));
    lemma_subset_equality(all, set_int_range(0, n));
    assert forall|v: int| 0 <= v < n implies #[trigger] takes(idxs, v) by {
        assert(set_int_range(0, n).contains(v));
        assert(all.contains(v));
    }
}

/// The first `k` entries of a permutation are `k` different values.
proof fn lemma_entries_counted(idxs: Seq<usize>, k: int)
    requires
        is_permutation(idxs),
        0 <= k <= idxs.len(),
    ensures
        entries_before(idxs, k).finite(),
        entries_before(idxs, k).len() == k,
    decreases k,
{
    if k == 0 {
        assert(entries_before(idxs, 0) =~= Set::<int>::empty());
    } else {
        lemma_entries_counted(idxs, k - 1);
        let less = entries_before(idxs, k - 1);
        let v = idxs[k - 1] as int;
        assert(!less.contains(v));
        assert(entries_before(idxs, k) =~= less.insert(v)) by {
            assert forall|w: int| entries_before(idxs, k).contains(w) <==> less.insert(
                v,
            ).contains(w) by {
                if entries_before(idxs, k).contains(w) {
                    let j = choose|j: int| 0 <= j < k && #[trigger] idxs[j] == w;
                    if j < k - 1 {
                        assert(less.contains(w));
                    }
                }
                if less.contains(w) {
                    let j = choose|j: int| 0 <= j < k - 1 && #[trigger] idxs[j] == w;
                    assert(0 <= j < k && idxs[j] == w);
                }
                if w == v {
                    assert(idxs[k - 1] == w);
                }
            }
        }
    }
}

/// A permutation of the indices `0..n`: index `i` goes to position `self@[i]`.
pub struct Permutation {
    idxs: Vec<usize>,
}

impl View for Permutation {
    type V = Seq<usize>;

    closed spec fn view(&self) -> Seq<usize> {
        self.idxs@
    }
}

impl Permutation {
    #[verifier::type_invariant]
    spec fn inv(self) -> bool {
        is_permutation(self.idxs@)
    }

    /// The permutation that sends index `i` to position `idxs[i]`, where `idxs` is
    /// one: every entry an index, none twice.
    pub fn new(idxs: Vec<usize>) -> (p: Option<Permutation>)
        ensures
            is_permutation(idxs@) <==> p is Some,
            p matches Some(q) ==> q@ == idxs@,
    {
        let n: usize = idxs.len();
        let mut seen: Vec<bool> = vec![false; n];
        let mut i: usize = 0;
        while i < n
            invariant
                i <= n,
                n == idxs@.len(),
                seen@.len() == n,
                forall|j: int| 0 <= j < i ==> #[trigger] idxs@[j] < n,
                forall|j: int, k: int| 0 <= j < i && 0 <= k < i && j != k ==> idxs@[j] != idxs@[k],
                forall|v: int|
                    0 <= v < n ==> (#[trigger] seen@[v] <==> exists|j: int|
                        0 <= j < i && #[trigger] idxs@[j] == v),
            decreases n - i,
        {
            let v: usize = idxs[i];
            if v >= n {
                return None;
            }
            if seen[v] {
                proof {
                    let j = choose|j: int| 0 <= j < i && #[trigger] idxs@[j] == v;
                    assert(idxs@[j] == idxs@[i as int]);
                }
                return None;
            }
            let ghost before = seen@;
            seen[v] = true;
            proof {
                assert forall|w: int| 0 <= w < n implies (#[trigger] seen@[w] <==> exists|j: int|
                    0 <= j < i + 1 && #[trigger] idxs@[j] == w) by {
                    if w == v {
                        assert(idxs@[i as int] == w);
                    } else {
                        if before[w] {
                            let j = choose|j: int| 0 <= j < i && #[trigger] idxs@[j] == w;
                            assert(0 <= j < i + 1 && idxs@[j] == w);
                        }
                        if exists|j: int| 0 <= j < i + 1 && #[trigger] idxs@[j] == w {
                            let j = choose|j: int| 0 <= j < i + 1 && #[trigger] idxs@[j] == w;
                            assert(j < i);
                        }
                    }
                }
            }
            i += 1;
        }
        Some(Permutation { idxs: idxs })
    }

    /// The number of indices that are permuted.
    pub fn size(&self) -> (n: usize)
        ensures
            n == self@.len(),
            is_permutation(self@),
    {
        proof {
            use_type_invariant(self);
        }
        self.idxs.len()
    }

    /// The positions, index by index.
    pub fn indices(&self) -> (idxs: &Vec<usize>)
        ensures
            idxs@ == self@,
    {
        &self.idxs
    }

    /// The position that index `i` goes to.
    pub fn index(&self, i: usize) -> (pos: usize)
        requires
            i < self@.len(),
        ensures
            pos == self@[i as int],
            pos < self@.len(),
    {
        proof {
            use_type_invariant(self);
        }
        self.idxs[i]
    }

    /// The inverse permutation: it sends each position back to the index that goes
    /// there.
    pub fn inverse(&self) -> (q: Permutation)
        ensures
            q@.len() == self@.len(),
            is_permutation(q@),
            forall|i: int| 0 <= i < self@.len() ==> q@[#[trigger] self@[i] as int] == i,
            forall|j: int| 0 <= j < self@.len() ==> self@[#[trigger] q@[j] as int] == j,
    {
        proof {
            use_type_invariant(self);
        }
        let n: usize = self.idxs.len();
        let mut inv: Vec<usize> = vec![0; n];
        let mut i: usize = 0;
        while i < n
            invariant
                i <= n,
                n == self.idxs@.len(),
                inv@.len() == n,
                is_permutation(self.idxs@),
                forall|j: int| 0 <= j < n ==> #[trigger] inv@[j] < n,
                forall|k: int| 0 <= k < i ==> inv@[#[trigger] self.idxs@[k] as int] == k,
            decreases n - i,
        {
            inv[self.idxs[i]] = i;
            i += 1;
        }
        proof {
            lemma_permutation_onto(self.idxs@);
            assert forall|j: int| 0 <= j < n implies self.idxs@[#[trigger] inv@[j] as int]
                == j by {
                assert(takes(self.idxs@, j));
                let k = choose|k: int| 0 <= k < n && #[trigger] self.idxs@[k] == j;
                assert(inv@[self.idxs@[k] as int] == k);
            }
            assert forall|a: int, b: int| 0 <= a < n && 0 <= b < n && a != b implies inv@[a]
                != inv@[b] by {
                assert(self.idxs@[inv@[a] as int] == a);
                assert(self.idxs@[inv@[b] as int] == b);
            }
        }
        Permutation { idxs: inv }
    }

    /// Move the entries of `v` to their positions: the entry at index `i` goes to
    /// position `self@[i]`.
    pub fn apply<A: Copy>(&self, v: &[A]) -> (w: Vec<A>)
        requires
            v@.len() == self@.len(),
        ensures
            w@.len() == v@.len(),
            forall|i: int| 0 <= i < v@.len() ==> w@[#[trigger] self@[i] as int] == v@[i],
    {
        proof {
            use_type_invariant(self);
        }
        let n: usize = self.idxs.len();
        let mut w: Vec<A> = Vec::new();
        let mut k: usize = 0;
        while k < n
            invariant
                k <= n,
                n == v@.len(),
                w@.len() == k,
                forall|j: int| 0 <= j < k ==> w@[j] == v@[j],
            decreases n - k,
        {
            w.push(v[k]);
            k += 1;
        }
        let mut i: usize = 0;
        while i < n
            invariant
                i <= n,
                n == self.idxs@.len(),
                n == v@.len(),
                w@.len() == n,
                is_permutation(self.idxs@),
                forall|k: int| 0 <= k < i ==> w@[#[trigger] self.idxs@[k] as int] == v@[k],
            decreases n - i,
        {
            w[self.idxs[i]] = v[i];
            i += 1;
        }
        w
    }

    /// Move the entries of `v` back from their positions: the entry at position
    /// `self@[i]` goes to index `i`.
    pub fn apply_inverse<A: Copy>(&self, v: &[A]) -> (w: Vec<A>)
        requires
            v@.len() == self@.len(),
        ensures
            w@.len() == v@.len(),
            forall|i: int| 0 <= i < v@.len() ==> w@[i] == v@[self@[i] as int],
    {
        proof {
            use_type_invariant(self);
        }
        let n: usize = self.idxs.len();
        let mut w: Vec<A> = Vec::new();
        let mut i: usize = 0;
        while i < n
            invariant
                i <= n,
                n == self.idxs@.len(),
                n == v@.len(),
                w@.len() == i,
                is_permutation(self.idxs@),
                forall|k: int| 0 <= k < i ==> w@[k] == v@[self.idxs@[k] as int],
            decreases n - i,
        {
            w.push(v[self.idxs[i]]);
            i += 1;
        }
        w
    }
}

} // verus!
