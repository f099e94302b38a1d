//! Share vectors in 64-byte lanes, keyed expansion of seeds, zero shares and
//! their conditional corruption.
use vstd::prelude::*;
use crate::byte_algebra::{
    byte_at, lemma_symmetric_square_cancels, lemma_xor_all_at, lemma_xor_all_len,
    lemma_xor_bytes_cancels, lemma_xor_sum_agrees, lemma_xor_sum_skips, xor_all, xor_bytes,
    xor_square, xor_sum, zero_bytes,
};
use crate::trusted::{blake3_xof, fill_random, fill_xof};
use crate::SHARE_BYTE_COUNT;

verus! {

/// The `T`s of `lanes` laid end to end.
pub open spec fn flatten_lanes<T>(lanes: Seq<[T; 64]>) -> Seq<T> {
    Seq::new(lanes.len() * 64, |i: int| lanes[i / 64]@[i % 64])
}

/// Byte `i` comes from `true_values` where `mask[i]` is set and from
/// `false_values` elsewhere; the result is as long as `mask`.
pub open spec fn select_bytes(mask: Seq<bool>, true_values: Seq<u8>, false_values: Seq<u8>) -> Seq<
    u8,
> {
    Seq::new(
        mask.len(),
        |i: int|
            if mask[i] {
                true_values[i]
            } else {
                false_values[i]
            },
    )
}

/// A byte vector held in lanes of 64 bytes, for bulk XOR and masked select.
pub struct SimdBytes {
    pub bytes: Vec<[u8; 64]>,
}

impl View for SimdBytes {
    type V = Seq<u8>;

    /// The bytes of all lanes, in order.
    open spec fn view(&self) -> Seq<u8> {
        flatten_lanes(self.bytes@)
    }
}

impl SimdBytes {
    /// Splits `bytes`, whose length is a multiple of 64, into lanes.
    pub fn from_bytes(bytes: &[u8]) -> (result: SimdBytes)
        requires
            bytes@.len() % 64 == 0,
        ensures
            result@ == bytes@,
    {
        let lane_count: usize = bytes.len() / 64;
        let mut lanes: Vec<[u8; 64]> = Vec::with_capacity(lane_count);
        let mut k: usize = 0;
        while k < lane_count
            invariant
                k <= lane_count,
                lane_count * 64 == bytes@.len(),
                bytes@.len() <= usize::MAX,
                lanes@.len() == k,
                forall|i: int| 0 <= i < k * 64 ==> flatten_lanes(lanes@)[i] == bytes@[i],
            decreases lane_count - k,
        {
            let mut lane: [u8; 64] = [0u8; 64];
            let mut j: usize = 0;
            while j < 64
                invariant
                    j <= 64,
                    k < lane_count,
                    lane_count * 64 == bytes@.len(),
                    bytes@.len() <= usize::MAX,
                    forall|i: int| 0 <= i < j ==> lane@[i] == bytes@[k * 64 + i],
                decreases 64 - j,
            {
                lane[j] = bytes[k * 64 + j];
                j += 1;
            }
            let ghost before = lanes@;
            lanes.push(lane);
            assert forall|i: int| 0 <= i < (k + 1) * 64 implies flatten_lanes(lanes@)[i]
                == bytes@[i] by {
                if i < k * 64 {
                    assert(flatten_lanes(before)[i] == bytes@[i]);
                    assert(lanes@[i / 64] == before[i / 64]);
                } else {
                    assert(i / 64 == k);
                    assert(i == k * 64 + i % 64);
                }
            }
            k += 1;
        }
        let result = SimdBytes { bytes: lanes };
        assert(result@ =~= bytes@);
        result
    }

    /// For each byte position, takes the byte of `true_values` where the mask
    /// is set and the byte of `false_values` where it is clear. All three
    /// hold the same number of lanes.
    pub fn select(masks: &[[bool; 64]], true_values: SimdBytes, false_values: SimdBytes) -> (result:
        SimdBytes)
        requires
            masks@.len() == true_values.bytes@.len(),
            masks@.len() == false_values.bytes@.len(),
        ensures
            result@ == select_bytes(flatten_lanes(masks@), true_values@, false_values@),
    {
        let lane_count: usize = masks.len();
        let mut lanes: Vec<[u8; 64]> = Vec::with_capacity(lane_count);
        let mut k: usize = 0;
        while k < lane_count
            invariant
                k <= lane_count,
                lane_count == masks@.len(),
                lane_count == true_values.bytes@.len(),
                lane_count == false_values.bytes@.len(),
                lanes@.len() == k,
                forall|l: int, i: int|
                    0 <= l < k && 0 <= i < 64 ==> (#[trigger] lanes@[l]@[i]) == if masks@[l]@[i] {
                        true_values.bytes@[l]@[i]
                    } else {
                        false_values.bytes@[l]@[i]
                    },
            decreases lane_count - k,
        {
            let mask: &[bool; 64] = &masks[k];
            let t: &[u8; 64] = &true_values.bytes[k];
            let f: &[u8; 64] = &false_values.bytes[k];
            let mut lane: [u8; 64] = [0u8; 64];
            let mut j: usize = 0;
            while j < 64
                invariant
                    j <= 64,
                    forall|i: int|
                        0 <= i < j ==> lane@[i] == if mask@[i] {
                            t@[i]
                        } else {
                            f@[i]
                        },
                decreases 64 - j,
            {
                lane[j] = if mask[j] {
                    t[j]
                } else {
                    f[j]
                };
                j += 1;
            }
            lanes.push(lane);
            k += 1;
        }
        let result = SimdBytes { bytes: lanes };
        assert(result@ =~= select_bytes(flatten_lanes(masks@), true_values@, false_values@));
        result
    }

    /// The bytes of all lanes, in order, as one vector.
    pub fn to_bytes(&self) -> (result: Vec<u8>)
        ensures
            result@ == self@,
    {
        let lane_count: usize = self.bytes.len();
        let mut out: Vec<u8> = Vec::new();
        let mut k: usize = 0;
        while k < lane_count
            invariant
                k <= lane_count,
                lane_count == self.bytes@.len(),
                out@.len() == k * 64,
                forall|i: int| 0 <= i < k * 64 ==> out@[i] == self.bytes@[i / 64]@[i % 64],
            decreases lane_count - k,
        {
            let lane: &[u8; 64] = &self.bytes[k];
            let mut j: usize = 0;
            while j < 64
                invariant
                    j <= 64,
                    k < lane_count,
                    lane_count == self.bytes@.len(),
                    *lane == self.bytes@[k as int],
                    out@.len() == k * 64 + j,
                    forall|i: int|
                        0 <= i < k * 64 + j ==> out@[i] == self.bytes@[i / 64]@[i % 64],
                decreases 64 - j,
            {
                out.push(lane[j]);
                j += 1;
            }
            k += 1;
        }
        assert(out@ =~= self@);
        out
    }

}

impl core::ops::BitXorAssign for SimdBytes {
    /// XORs `rhs` into `self`, lane by lane. Lanes of `self` beyond the end
    /// of `rhs` stay as they are.
    fn bitxor_assign(&mut self, rhs: SimdBytes)
        ensures
            final(self)@ == xor_bytes(old(self)@, rhs@),
    {
        let lane_count: usize = if self.bytes.len() <= rhs.bytes.len() {
            self.bytes.len()
        } else {
            rhs.bytes.len()
        };
        let mut k: usize = 0;
        while k < lane_count
            invariant
                k <= lane_count,
                lane_count <= rhs.bytes@.len(),
                lane_count <= self.bytes@.len(),
                self.bytes@.len() == old(self).bytes@.len(),
                forall|l: int, i: int|
                    0 <= l < k && 0 <= i < 64 ==> (#[trigger] self.bytes@[l]@[i]) == old(
                        self,
                    ).bytes@[l]@[i] ^ rhs.bytes@[l]@[i],
                forall|l: int|
                    k <= l < self.bytes@.len() ==> self.bytes@[l] == old(self).bytes@[l],
            decreases lane_count - k,
        {
            let mut lane: [u8; 64] = self.bytes[k];
            let other: &[u8; 64] = &rhs.bytes[k];
            let ghost before = lane;
            let mut j: usize = 0;
            while j < 64
                invariant
                    j <= 64,
                    forall|i: int| 0 <= i < j ==> lane@[i] == before@[i] ^ other@[i],
                    forall|i: int| j <= i < 64 ==> lane@[i] == before@[i],
                decreases 64 - j,
            {
                lane[j] = lane[j] ^ other[j];
                j += 1;
            }
            self.bytes[k] = lane;
            k += 1;
        }
        assert(self@ =~= xor_bytes(old(self)@, rhs@));
    }
}

/// The expansion of each seed in `seeds` to `byte_count` bytes.
pub open spec fn expansions(seeds: Seq<[u8; 16]>, byte_count: nat) -> Seq<Seq<u8>> {
    Seq::new(seeds.len(), |i: int| blake3_xof(seeds[i]@, byte_count))
}

/// The zero share of a party that holds `seeds`: the XOR of the expansions
/// of all its seeds.
pub open spec fn zero_share(seeds: Seq<[u8; 16]>, byte_count: nat) -> Seq<u8> {
    xor_all(expansions(seeds, byte_count), byte_count)
}

/// The condition of each cell, repeated once for each of the cell's bytes.
pub open spec fn expand_conditions(conditions: Seq<bool>) -> Seq<bool> {
    Seq::new(conditions.len() * 5, |i: int| conditions[i / 5])
}

/// `share` with every cell whose condition is set replaced by the same cell
/// of `randomness`.
pub open spec fn corrupted(share: Seq<u8>, conditions: Seq<bool>, randomness: Seq<u8>) -> Seq<u8> {
    select_bytes(expand_conditions(conditions), randomness, share)
}

/// The five bytes of cell `index` of a share vector.
pub open spec fn cell(share: Seq<u8>, index: int) -> Seq<u8> {
    share.subrange(5 * index, 5 * index + 5)
}

/// Expands `seed` to `byte_count` pseudorandom bytes, a multiple of 64, with
/// BLAKE3 in extendable-output mode.
pub fn xof(seed: &[u8], byte_count: usize) -> (result: SimdBytes)
    requires
        byte_count % 64 == 0,
    ensures
        result@ == blake3_xof(seed@, byte_count as nat),
        result@.len() == byte_count,
{
    let mut expanded_bytes: Vec<u8> = vec![0u8; byte_count];
    fill_xof(seed, &mut expanded_bytes);
    SimdBytes::from_bytes(expanded_bytes.as_slice())
}

/// Builds the zero share of a party from the seeds it holds with its peers:
/// the XOR of every seed's expansion to `byte_count` bytes. There is at
/// least one seed, and `byte_count` is a multiple of 64.
pub fn create_zero_share(seeds: &[[u8; 16]], byte_count: usize) -> (result: SimdBytes)
    requires
        seeds@.len() >= 1,
        byte_count % 64 == 0,
    ensures
        result@ == zero_share(seeds@, byte_count as nat),
        result@.len() == byte_count,
{
    let mut share = xof(seeds[0].as_slice(), byte_count);
    proof {
        let first = expansions(seeds@, byte_count as nat).take(1);
        reveal_with_fuel(xor_all, 2);
        assert(first.drop_last() =~= Seq::<Seq<u8>>::empty());
        lemma_xor_bytes_cancels(first.last());
        assert(first.last() == blake3_xof(seeds@[0]@, byte_count as nat));
        assert(share@ == xor_all(first, byte_count as nat));
    }
    let mut k: usize = 1;
    while k < seeds.len()
        invariant
            1 <= k <= seeds@.len(),
            byte_count % 64 == 0,
            share@ == xor_all(expansions(seeds@, byte_count as nat).take(k as int), byte_count as nat),
        decreases seeds@.len() - k,
    {
        let expanded = xof(seeds[k].as_slice(), byte_count);
        proof {
            let all = expansions(seeds@, byte_count as nat);
            assert(all.take(k + 1).drop_last() =~= all.take(k as int));
            assert(all.take(k + 1).last() == expanded@);
            lemma_xor_all_len(all.take(k as int), byte_count as nat);
        }
        core::ops::BitXorAssign::bitxor_assign(&mut share, expanded);
        k += 1;
    }
    proof {
        let all = expansions(seeds@, byte_count as nat);
        assert(all.take(seeds@.len() as int) =~= all);
        lemma_xor_all_len(all, byte_count as nat);
    }
    share
}

/// Replaces every cell of `share` whose condition is set by the same cell of
/// `randomness`, and keeps the others. `share` holds one cell of five bytes
/// for each condition, and `randomness` is as long as `share`.
pub fn corrupt_share_with(share: SimdBytes, conditions: &[bool], randomness: &[u8]) -> (result:
    SimdBytes)
    requires
        share@.len() == 5 * conditions@.len(),
        randomness@.len() == share@.len(),
    ensures
        result@ == corrupted(share@, conditions@, randomness@),
{
    let lane_count: usize = share.bytes.len();
    let byte_count: usize = randomness.len();
    assert(lane_count * 64 == byte_count);
    let mut masks: Vec<[bool; 64]> = Vec::with_capacity(lane_count);
    let mut k: usize = 0;
    while k < lane_count
        invariant
            k <= lane_count,
            lane_count * 64 == 5 * conditions@.len(),
            lane_count * 64 <= usize::MAX,
            masks@.len() == k,
            forall|l: int, i: int|
                0 <= l < k && 0 <= i < 64 ==> (#[trigger] masks@[l]@[i]) == conditions@[(l * 64
                    + i) / 5],
        decreases lane_count - k,
    {
        let mut mask: [bool; 64] = [false; 64];
        let mut j: usize = 0;
        while j < 64
            invariant
                j <= 64,
                k < lane_count,
                lane_count * 64 == 5 * conditions@.len(),
                lane_count * 64 <= usize::MAX,
                forall|i: int| 0 <= i < j ==> mask@[i] == conditions@[(k * 64 + i) / 5],
            decreases 64 - j,
        {
            mask[j] = conditions[(k * 64 + j) / SHARE_BYTE_COUNT];
            j += 1;
        }
        masks.push(mask);
        k += 1;
    }
    assert(flatten_lanes(masks@) =~= expand_conditions(conditions@));
    let randomness_simd = SimdBytes::from_bytes(randomness);
    SimdBytes::select(masks.as_slice(), randomness_simd, share)
}

/// Replaces every cell of `share` whose condition is set by five fresh
/// random bytes, drawn anew at each call, and keeps the others. `share`
/// holds one cell of five bytes for each condition.
pub fn conditionally_corrupt_share(share: SimdBytes, conditions: &[bool]) -> (result: SimdBytes)
    requires
        share@.len() == 5 * conditions@.len(),
        share@.len() <= usize::MAX,
    ensures
        result@.len() == share@.len(),
        exists|randomness: Seq<u8>|
            randomness.len() == share@.len() && result@ == #[trigger] corrupted(
                share@,
                conditions@,
                randomness,
            ),
        forall|i: int|
            0 <= i < conditions@.len() && !conditions@[i] ==> #[trigger] cell(result@, i) == cell(
                share@,
                i,
            ),
{
    let mut randomness: Vec<u8> = vec![0u8; SHARE_BYTE_COUNT * conditions.len()];
    fill_random(&mut randomness);
    let ghost before = share@;
    let result = corrupt_share_with(share, conditions, randomness.as_slice());
    proof {
        lemma_corrupted_keeps_clear_cells(before, conditions@, randomness@);
    }
    result
}

/// Corruption is local: a cell whose condition is clear is left as it was,
/// and a cell whose condition is set holds what `randomness` holds there.
pub proof fn lemma_corrupted_keeps_clear_cells(
    share: Seq<u8>,
    conditions: Seq<bool>,
    randomness: Seq<u8>,
)
    requires
        share.len() == 5 * conditions.len(),
        randomness.len() == share.len(),
    ensures
        corrupted(share, conditions, randomness).len() == share.len(),
        forall|i: int|
            0 <= i < conditions.len() ==> #[trigger] cell(
                corrupted(share, conditions, randomness),
                i,
            ) == if conditions[i] {
                cell(randomness, i)
            } else {
                cell(share, i)
            },
{
    let out = corrupted(share, conditions, randomness);
    assert forall|i: int| 0 <= i < conditions.len() implies #[trigger] cell(out, i) == if conditions[i] {
        cell(randomness, i)
    } else {
        cell(share, i)
    } by {
        let expected = if conditions[i] {
            cell(randomness, i)
        } else {
            cell(share, i)
        };
        assert forall|j: int| 0 <= j < 5 implies cell(out, i)[j] == expected[j] by {
            assert((5 * i + j) / 5 == i);
        }
        assert(cell(out, i) =~= expected);
    }
}

/// The place of the seed shared with `peer` in the seed list of `owner`,
/// which has no place for `owner` itself. Both count from zero.
pub open spec fn peer_slot(owner: int, peer: int) -> int {
    if peer < owner {
        peer
    } else {
        peer - 1
    }
}

/// Whether `lists` are the seed lists of parties that share one seed per
/// pair: each list has a seed for every other party, and two parties hold
/// the same seed for each other.
pub open spec fn pairwise_seeded(lists: Seq<Seq<[u8; 16]>>) -> bool {
    &&& forall|a: int| 0 <= a < lists.len() ==> (#[trigger] lists[a]).len() == lists.len() - 1
    &&& forall|a: int, b: int|
        0 <= a < lists.len() && 0 <= b < lists.len() && a != b ==> #[trigger] lists[a][peer_slot(
            a,
            b,
        )] == lists[b][peer_slot(b, a)]
}

/// The zero share of each party, from its seed list.
pub open spec fn zero_shares(lists: Seq<Seq<[u8; 16]>>, byte_count: nat) -> Seq<Seq<u8>> {
    Seq::new(lists.len(), |a: int| zero_share(lists[a], byte_count))
}

/// Zero shares cancel: when every pair of parties shares one seed, the XOR
/// of all parties' zero shares is the zero vector, because the expansion of
/// each seed enters it twice.
pub proof fn lemma_zero_shares_cancel(lists: Seq<Seq<[u8; 16]>>, byte_count: nat)
    requires
        pairwise_seeded(lists),
    ensures
        xor_all(zero_shares(lists, byte_count), byte_count) == zero_bytes(byte_count),
{
    let k = lists.len();
    let shares = zero_shares(lists, byte_count);
    let total = xor_all(shares, byte_count);
    lemma_xor_all_len(shares, byte_count);
    assert forall|i: int| 0 <= i < byte_count implies total[i] == 0u8 by {
        // What the seed that `a` shares with `b` adds at byte `i`.
        let m = |a: int, b: int|
            if a == b || !(0 <= a < k) || !(0 <= b < k) {
                0u8
            } else {
                byte_at(blake3_xof(lists[a][peer_slot(a, b)]@, byte_count), i)
            };
        lemma_symmetric_square_cancels(m, k);
        let per_party = |a: int| byte_at(shares[a], i);
        let per_row = |a: int| xor_sum(|b: int| m(a, b), k);
        lemma_xor_all_at(shares, byte_count, i, per_party);
        assert forall|a: int| 0 <= a < k implies #[trigger] per_party(a) == per_row(a) by {
            let expanded = expansions(lists[a], byte_count);
            let g = |s: int| byte_at(expanded[s], i);
            let h = |b: int| m(a, b);
            lemma_xor_all_at(expanded, byte_count, i, g);
            assert forall|b: int| 0 <= b < k implies #[trigger] h(b) == if b == a {
                0u8
            } else if b < a {
                g(b)
            } else {
                g(b - 1)
            } by {
                if b != a {
                    assert(0 <= peer_slot(a, b) < lists[a].len());
                }
            }
            lemma_xor_sum_skips(g, h, a, k);
        }
        lemma_xor_sum_agrees(per_party, per_row, k);
        assert(xor_square(m, k, k) == xor_sum(per_row, k));
    }
    assert(total =~= zero_bytes(byte_count));
}

} // verus!
