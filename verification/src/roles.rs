//! What each role computes between two messages: a client's share, the
//! querier's patterns and output, the server's answers.
use vstd::prelude::*;
use crate::approx_mpsi::{ApproximateMpsiParty, ProtocolError};
use crate::byte_algebra::{lemma_xor_all_len, xor_all, xor_bytes, zero_bytes};
use crate::element_set::{bloom_filter_of, ElementSet};
use crate::secret_sharing::{
    cell, conditionally_corrupt_share, corrupted, create_zero_share, zero_share,
};
use crate::trusted::{bloom_filter_indices, bloom_indices};
use crate::SHARE_BYTE_COUNT;

verus! {

/// The conditions under which a client corrupts its share: a cell is
/// corrupted where the Bloom filter is clear, and kept where it is set.
pub open spec fn absent(bloom_filter: Seq<bool>) -> Seq<bool> {
    Seq::new(bloom_filter.len(), |bin: int| !bloom_filter[bin])
}

/// Whether `payload` is a share that a client with these seeds and elements
/// may send: its zero share, with the cells that none of its elements
/// hashes to replaced by some other bytes.
pub open spec fn is_client_share(
    payload: Seq<u8>,
    seeds: Seq<[u8; 16]>,
    elements: Seq<usize>,
    bin_count: usize,
    hash_count: usize,
) -> bool {
    exists|randomness: Seq<u8>|
        randomness.len() == 5 * bin_count && payload == #[trigger] corrupted(
            zero_share(seeds, (5 * bin_count) as nat),
            absent(bloom_filter_of(elements, bin_count, hash_count)),
            randomness,
        )
}

/// The query pattern of each element: the cells it hashes to.
pub open spec fn patterns_of(elements: Seq<usize>, bin_count: usize, hash_count: usize) -> Seq<
    Seq<usize>,
> {
    Seq::new(elements.len(), |e: int| bloom_indices(elements[e], bin_count, hash_count))
}

/// The cells of `aggregate` that `pattern` names, in its order.
pub open spec fn cells_of(aggregate: Seq<u8>, pattern: Seq<usize>) -> Seq<Seq<u8>> {
    Seq::new(pattern.len(), |t: int| cell(aggregate, pattern[t] as int))
}

/// The XOR of the cells of `aggregate` that `pattern` names.
pub open spec fn pattern_xor(aggregate: Seq<u8>, pattern: Seq<usize>) -> Seq<u8> {
    xor_all(cells_of(aggregate, pattern), 5)
}

/// Whether every index of `pattern` names one of `cell_count` cells.
pub open spec fn pattern_in_range(pattern: Seq<usize>, cell_count: int) -> bool {
    forall|t: int| 0 <= t < pattern.len() ==> (#[trigger] pattern[t]) < cell_count
}

/// Whether every pattern of `patterns` is in range.
pub open spec fn patterns_in_range(patterns: Seq<Seq<usize>>, cell_count: int) -> bool {
    forall|q: int| 0 <= q < patterns.len() ==> pattern_in_range(#[trigger] patterns[q], cell_count)
}

/// The server's answer to each pattern: whether the cells it names cancel.
pub open spec fn answers_to(aggregate: Seq<u8>, patterns: Seq<Seq<usize>>) -> Seq<bool> {
    Seq::new(patterns.len(), |q: int| pattern_xor(aggregate, patterns[q]) == zero_bytes(5))
}

/// The elements whose answer is true, in the order of `elements`.
pub open spec fn answered(elements: Seq<usize>, answers: Seq<bool>) -> Seq<usize>
    decreases elements.len(),
{
    if elements.len() == 0 {
        Seq::empty()
    } else if answers.last() {
        answered(elements.drop_last(), answers.drop_last()).push(elements.last())
    } else {
        answered(elements.drop_last(), answers.drop_last())
    }
}

impl ApproximateMpsiParty {
    /// The share that this party sends the server for its set `input`: its
    /// zero share, with every cell that no element of the set hashes to
    /// replaced by fresh random bytes. The party holds at least one seed.
    pub fn client_share(&self, input: &ElementSet) -> (payload: Vec<u8>)
        requires
            self.spec_seeds().len() >= 1,
        ensures
            payload@.len() == 5 * self.bin_count(),
            is_client_share(
                payload@,
                self.spec_seeds(),
                input.elements@,
                self.bin_count(),
                self.hash_count(),
            ),
    {
        let bin_count: usize = self.bin_count();
        let bloom_filter = input.to_bloom_filter(bin_count, self.hash_count());
        let mut conditions: Vec<bool> = Vec::with_capacity(bin_count);
        let mut bin: usize = 0;
        while bin < bin_count
            invariant
                bin <= bin_count,
                bloom_filter@.len() == bin_count,
                conditions@.len() == bin,
                forall|i: int| 0 <= i < bin ==> conditions@[i] == !bloom_filter@[i],
            decreases bin_count - bin,
        {
            conditions.push(!bloom_filter[bin]);
            bin += 1;
        }
        assert(conditions@ =~= absent(
            bloom_filter_of(input.elements@, bin_count, self.hash_count()),
        ));
        let share = create_zero_share(self.seeds().as_slice(), SHARE_BYTE_COUNT * bin_count);
        let corrupted_share = conditionally_corrupt_share(share, conditions.as_slice());
        corrupted_share.to_bytes()
    }

    /// The query pattern of each element of `input`, in the order of its
    /// list: the cells that the element hashes to.
    pub fn query_patterns(&self, input: &ElementSet) -> (patterns: Vec<Vec<usize>>)
        ensures
            patterns.deep_view() == patterns_of(
                input.elements@,
                self.bin_count(),
                self.hash_count(),
            ),
    {
        patterns_for(&input.elements, self.bin_count(), self.hash_count())
    }
}

/// The query pattern of each of `elements`, for a Bloom filter of
/// `bin_count` cells, of which there is at least one.
pub(crate) fn patterns_for(elements: &Vec<usize>, bin_count: usize, hash_count: usize) -> (patterns:
    Vec<Vec<usize>>)
    requires
        bin_count > 0,
    ensures
        patterns.deep_view() == patterns_of(elements@, bin_count, hash_count),
{
    let mut patterns: Vec<Vec<usize>> = Vec::with_capacity(elements.len());
    let mut e: usize = 0;
    while e < elements.len()
        invariant
            e <= elements@.len(),
            bin_count > 0,
            patterns@.len() == e,
            forall|i: int|
                0 <= i < e ==> (#[trigger] patterns@[i])@ == bloom_indices(
                    elements@[i],
                    bin_count,
                    hash_count,
                ),
        decreases elements@.len() - e,
    {
        patterns.push(bloom_filter_indices(elements[e], bin_count, hash_count));
        e += 1;
    }
    proof {
        let expected = patterns_of(elements@, bin_count, hash_count);
        assert forall|i: int| 0 <= i < e implies patterns.deep_view()[i] == expected[i] by {
            assert(patterns.deep_view()[i] == patterns@[i].deep_view());
            assert(patterns@[i].deep_view() =~= patterns@[i]@);
        }
        assert(patterns.deep_view() =~= expected);
    }
    patterns
}

/// Answers each pattern against the aggregate of all shares: true where the
/// XOR of the cells that the pattern names is zero. A pattern that names a
/// cell beyond the aggregate is malformed.
pub fn evaluate_patterns(aggregate: &[u8], patterns: &Vec<Vec<usize>>) -> (result: Result<
    Vec<bool>,
    ProtocolError,
>)
    ensures
        match result {
            Ok(answers) => patterns_in_range(patterns.deep_view(), aggregate@.len() as int / 5)
                && answers@ == answers_to(aggregate@, patterns.deep_view()),
            Err(error) => error == ProtocolError::WireMalformed && !patterns_in_range(
                patterns.deep_view(),
                aggregate@.len() as int / 5,
            ),
        },
{
    let cell_count: usize = aggregate.len() / SHARE_BYTE_COUNT;
    let mut answers: Vec<bool> = Vec::with_capacity(patterns.len());
    let mut q: usize = 0;
    while q < patterns.len()
        invariant
            q <= patterns@.len(),
            cell_count == aggregate@.len() as int / 5,
            aggregate@.len() <= usize::MAX,
            answers@.len() == q,
            forall|i: int|
                0 <= i < q ==> pattern_in_range(#[trigger] patterns.deep_view()[i], cell_count as int),
            forall|i: int|
                0 <= i < q ==> (#[trigger] answers@[i]) == (pattern_xor(
                    aggregate@,
                    patterns.deep_view()[i],
                ) == zero_bytes(5)),
        decreases patterns@.len() - q,
    {
        let pattern: &Vec<usize> = &patterns[q];
        proof {
            assert(patterns.deep_view()[q as int] == patterns@[q as int].deep_view());
            assert(patterns@[q as int].deep_view() =~= pattern@);
        }
        let mut sum: [u8; 5] = [0u8; 5];
        assert(sum@ =~= zero_bytes(5));
        let mut t: usize = 0;
        while t < pattern.len()
            invariant
                t <= pattern@.len(),
                cell_count == aggregate@.len() as int / 5,
                aggregate@.len() <= usize::MAX,
                patterns.deep_view()[q as int] == pattern@,
                0 <= q < patterns.deep_view().len(),
                forall|i: int| 0 <= i < t ==> (#[trigger] pattern@[i]) < cell_count,
                sum@ == xor_all(cells_of(aggregate@, pattern@).take(t as int), 5),
            decreases pattern@.len() - t,
        {
            let index: usize = pattern[t];
            if index >= cell_count {
                proof {
                    assert(!pattern_in_range(patterns.deep_view()[q as int], cell_count as int));
                }
                return Err(ProtocolError::WireMalformed);
            }
            let ghost before = sum@;
            let mut j: usize = 0;
            while j < 5
                invariant
                    j <= 5,
                    index < cell_count,
                    cell_count == aggregate@.len() as int / 5,
                    aggregate@.len() <= usize::MAX,
                    before.len() == 5,
                    forall|i: int|
                        0 <= i < j ==> sum@[i] == before[i] ^ aggregate@[5 * index + i],
                    forall|i: int| j <= i < 5 ==> sum@[i] == before[i],
                decreases 5 - j,
            {
                sum[j] = sum[j] ^ aggregate[SHARE_BYTE_COUNT * index + j];
                j += 1;
            }
            proof {
                let cells = cells_of(aggregate@, pattern@);
                assert(cells.take(t + 1).drop_last() =~= cells.take(t as int));
                assert(cells.take(t + 1).last() == cell(aggregate@, index as int));
                lemma_xor_all_len(cells.take(t as int), 5);
                assert(sum@ =~= xor_bytes(before, cell(aggregate@, index as int)));
            }
            t += 1;
        }
        proof {
            assert(cells_of(aggregate@, pattern@).take(t as int) =~= cells_of(
                aggregate@,
                pattern@,
            ));
        }
        let mut is_zero: bool = true;
        let mut j: usize = 0;
        while j < 5
            invariant
                j <= 5,
                is_zero <==> forall|i: int| 0 <= i < j ==> sum@[i] == 0u8,
            decreases 5 - j,
        {
            if sum[j] != 0 {
                is_zero = false;
            }
            j += 1;
        }
        proof {
            if is_zero {
                assert(sum@ =~= zero_bytes(5));
            } else {
                let i = choose|i: int| 0 <= i < 5 && sum@[i] != 0u8;
                assert(zero_bytes(5)[i] == 0u8);
            }
        }
        answers.push(is_zero);
        q += 1;
    }
    proof {
        assert(answers@ =~= answers_to(aggregate@, patterns.deep_view()));
    }
    Ok(answers)
}

/// The querier's output: those of its elements whose answer is true, in
/// their order. A list of answers of another length than the list of
/// elements is malformed.
pub fn select_answered(elements: &[usize], answers: &[bool]) -> (result: Result<
    ElementSet,
    ProtocolError,
>)
    ensures
        match result {
            Ok(output) => answers@.len() == elements@.len() && output.elements@ == answered(
                elements@,
                answers@,
            ),
            Err(error) => error == ProtocolError::WireMalformed && answers@.len()
                != elements@.len(),
        },
{
    if answers.len() != elements.len() {
        return Err(ProtocolError::WireMalformed);
    }
    let mut chosen: Vec<usize> = Vec::new();
    let mut k: usize = 0;
    while k < elements.len()
        invariant
            k <= elements@.len(),
            answers@.len() == elements@.len(),
            chosen@ == answered(elements@.take(k as int), answers@.take(k as int)),
        decreases elements@.len() - k,
    {
        proof {
            assert(elements@.take(k + 1).drop_last() =~= elements@.take(k as int));
            assert(answers@.take(k + 1).drop_last() =~= answers@.take(k as int));
        }
        if answers[k] {
            chosen.push(elements[k]);
        }
        k += 1;
    }
    proof {
        assert(elements@.take(k as int) =~= elements@);
        assert(answers@.take(k as int) =~= answers@);
    }
    Ok(ElementSet { elements: chosen })
}

} // verus!
