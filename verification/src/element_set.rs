//! A set of domain elements, held as the list of its elements, and its
//! encoding as a Bloom filter.
use vstd::prelude::*;
use crate::trusted::{bloom_filter_indices, bloom_indices};

verus! {

/// Whether `element` hashes to cell `bin` under one of the hash functions.
pub open spec fn hashes_to(element: usize, bin: int, bin_count: usize, hash_count: usize) -> bool {
    exists|k: int|
        0 <= k < hash_count && #[trigger] bloom_indices(element, bin_count, hash_count)[k] == bin
}

/// Whether some element of `elements` hashes to cell `bin`.
pub open spec fn bloom_bit(elements: Seq<usize>, bin: int, bin_count: usize, hash_count: usize) -> bool {
    exists|e: int|
        0 <= e < elements.len() && hashes_to(#[trigger] elements[e], bin, bin_count, hash_count)
}

/// The Bloom filter of `elements`: cell `bin` is set where some element
/// hashes to it.
pub open spec fn bloom_filter_of(elements: Seq<usize>, bin_count: usize, hash_count: usize) -> Seq<
    bool,
> {
    Seq::new(bin_count as nat, |bin: int| bloom_bit(elements, bin, bin_count, hash_count))
}

/// A set of elements of the domain. The list may name an element more than
/// once; the set it stands for is what the list holds.
#[derive(Debug, Clone)]
pub struct ElementSet {
    pub elements: Vec<usize>,
}

impl View for ElementSet {
    type V = Set<usize>;

    open spec fn view(&self) -> Set<usize> {
        self.elements@.to_set()
    }
}

impl ElementSet {
    /// The set of the given elements.
    pub fn new(elements: &[usize]) -> (result: ElementSet)
        ensures
            result.elements@ == elements@,
    {
        let mut copy: Vec<usize> = Vec::with_capacity(elements.len());
        let mut k: usize = 0;
        while k < elements.len()
            invariant
                k <= elements@.len(),
                copy@ == elements@.take(k as int),
            decreases elements@.len() - k,
        {
            copy.push(elements[k]);
            assert(copy@ =~= elements@.take(k + 1));
            k += 1;
        }
        assert(elements@.take(k as int) =~= elements@);
        ElementSet { elements: copy }
    }

    /// Whether `element` is in the set.
    pub fn contains(&self, element: usize) -> (result: bool)
        ensures
            result == self@.contains(element),
    {
        let mut k: usize = 0;
        while k < self.elements.len()
            invariant
                k <= self.elements@.len(),
                forall|i: int| 0 <= i < k ==> self.elements@[i] != element,
            decreases self.elements@.len() - k,
        {
            if self.elements[k] == element {
                return true;
            }
            k += 1;
        }
        false
    }

    /// Whether every element of `self` is in `other`.
    pub fn is_subset_of(&self, other: &ElementSet) -> (result: bool)
        ensures
            result == self@.subset_of(other@),
    {
        let mut k: usize = 0;
        while k < self.elements.len()
            invariant
                k <= self.elements@.len(),
                forall|i: int| 0 <= i < k ==> other@.contains(#[trigger] self.elements@[i]),
            decreases self.elements@.len() - k,
        {
            if !other.contains(self.elements[k]) {
                return false;
            }
            k += 1;
        }
        true
    }

    /// Whether `self` and `other` are the same set.
    pub fn same_set(&self, other: &ElementSet) -> (result: bool)
        ensures
            result == (self@ == other@),
    {
        let result = self.is_subset_of(other) && other.is_subset_of(self);
        assert(result == (self@ =~= other@));
        result
    }

    /// Encodes the set as a Bloom filter of `bin_count` cells, of which there
    /// is at least one, with `hash_count` hash functions: a cell is set where
    /// some element hashes to it.
    pub fn to_bloom_filter(&self, bin_count: usize, hash_count: usize) -> (bins: Vec<bool>)
        requires
            bin_count > 0,
        ensures
            bins@ == bloom_filter_of(self.elements@, bin_count, hash_count),
    {
        let mut bins: Vec<bool> = vec![false; bin_count];
        let mut e: usize = 0;
        proof {
            assert forall|bin: int| 0 <= bin < bin_count implies !bloom_bit(
                self.elements@.take(0),
                bin,
                bin_count,
                hash_count,
            ) by {}
        }
        while e < self.elements.len()
            invariant
                e <= self.elements@.len(),
                bin_count > 0,
                bins@.len() == bin_count,
                forall|bin: int|
                    0 <= bin < bin_count ==> #[trigger] bins@[bin] == bloom_bit(
                        self.elements@.take(e as int),
                        bin,
                        bin_count,
                        hash_count,
                    ),
            decreases self.elements@.len() - e,
        {
            let element: usize = self.elements[e];
            let indices = bloom_filter_indices(element, bin_count, hash_count);
            let ghost before = bins@;
            let mut k: usize = 0;
            while k < indices.len()
                invariant
                    k <= indices@.len(),
                    indices@.len() == hash_count,
                    bins@.len() == bin_count,
                    before.len() == bin_count,
                    forall|i: int| 0 <= i < hash_count ==> (#[trigger] indices@[i]) < bin_count,
                    forall|bin: int|
                        0 <= bin < bin_count ==> #[trigger] bins@[bin] == (before[bin] || among(
                            indices@,
                            k as int,
                            bin,
                        )),
                decreases indices@.len() - k,
            {
                let ghost earlier = bins@;
                bins[indices[k]] = true;
                assert forall|bin: int| 0 <= bin < bin_count implies #[trigger] bins@[bin] == (
                before[bin] || among(indices@, k + 1, bin)) by {
                    if bin == indices@[k as int] {
                        assert(among(indices@, k + 1, bin));
                    } else {
                        assert(bins@[bin] == earlier[bin]);
                        if among(indices@, k + 1, bin) {
                            let i = choose|i: int| 0 <= i < k + 1 && #[trigger] indices@[i] == bin;
                            assert(i < k);
                        }
                        if among(indices@, k as int, bin) {
                            let i = choose|i: int| 0 <= i < k && #[trigger] indices@[i] == bin;
                            assert(i < k + 1);
                        }
                    }
                }
                k += 1;
            }
            assert forall|bin: int| 0 <= bin < bin_count implies #[trigger] bins@[bin]
                == bloom_bit(self.elements@.take(e + 1), bin, bin_count, hash_count) by {
                let shorter = self.elements@.take(e as int);
                let longer = self.elements@.take(e + 1);
                assert(before[bin] == bloom_bit(shorter, bin, bin_count, hash_count));
                assert(longer[e as int] == element);
                if before[bin] {
                    let w = choose|w: int|
                        0 <= w < shorter.len() && hashes_to(
                            #[trigger] shorter[w],
                            bin,
                            bin_count,
                            hash_count,
                        );
                    assert(longer[w] == shorter[w]);
                    assert(bloom_bit(longer, bin, bin_count, hash_count));
                }
                if among(indices@, hash_count as int, bin) {
                    let i = choose|i: int| 0 <= i < hash_count && #[trigger] indices@[i] == bin;
                    assert(bloom_indices(element, bin_count, hash_count)[i] == bin);
                    assert(hashes_to(longer[e as int], bin, bin_count, hash_count));
                    assert(bloom_bit(longer, bin, bin_count, hash_count));
                }
                if bloom_bit(longer, bin, bin_count, hash_count) {
                    let w = choose|w: int|
                        0 <= w < longer.len() && hashes_to(
                            #[trigger] longer[w],
                            bin,
                            bin_count,
                            hash_count,
                        );
                    if w < e {
                        assert(shorter[w] == longer[w]);
                        assert(bloom_bit(shorter, bin, bin_count, hash_count));
                    } else {
                        let i = choose|i: int|
                            0 <= i < hash_count && #[trigger] bloom_indices(
                                element,
                                bin_count,
                                hash_count,
                            )[i] == bin;
                        assert(indices@[i] == bin);
                        assert(among(indices@, hash_count as int, bin));
                    }
                }
            }
            e += 1;
        }
        proof {
            assert(self.elements@.take(e as int) =~= self.elements@);
            assert(bins@ =~= bloom_filter_of(self.elements@, bin_count, hash_count));
        }
        bins
    }
}

/// Whether `bin` is among the first `k` of `indices`.
spec fn among(indices: Seq<usize>, k: int, bin: int) -> bool {
    exists|i: int| 0 <= i < k && #[trigger] indices[i] == bin
}

} // verus!
