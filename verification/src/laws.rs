//! What holds of a run of the protocol among honest parties.
use vstd::prelude::*;
use vstd::seq_lib::{to_multiset_contains, to_multiset_len};
use crate::byte_algebra::{
    byte_at, lemma_xor_all_at, lemma_xor_all_ignores_order, lemma_xor_all_len,
    lemma_xor_all_of_zeros, lemma_xor_sum_agrees, xor_all, zero_bytes,
};
use crate::element_set::{bloom_bit, bloom_filter_of, hashes_to};
use crate::roles::{
    absent, answered, answers_to, cells_of, is_client_share, pattern_in_range, patterns_of,
};
use crate::secret_sharing::{
    cell, corrupted, expand_conditions, expansions, lemma_zero_shares_cancel, pairwise_seeded,
    zero_share, zero_shares,
};
use crate::session::{transition, ActionView, EventView, Phase, SessionView};
use crate::approx_mpsi::ProtocolError;
use crate::trusted::{answers_decoding, answers_encoding, bloom_indices, patterns_decoding};

verus! {

/// Whether `shares` are what clients with the seed lists `lists` and the
/// element lists `inputs` may send: one share for each client.
pub open spec fn honest_shares(
    shares: Seq<Seq<u8>>,
    lists: Seq<Seq<[u8; 16]>>,
    inputs: Seq<Seq<usize>>,
    bin_count: usize,
    hash_count: usize,
) -> bool {
    &&& shares.len() == lists.len()
    &&& inputs.len() == lists.len()
    &&& forall|a: int|
        0 <= a < lists.len() ==> is_client_share(
            #[trigger] shares[a],
            lists[a],
            inputs[a],
            bin_count,
            hash_count,
        )
}

/// Whether `element` hashes to `hash_count` cells, each one of `bin_count`.
pub open spec fn hashed_in_range(element: usize, bin_count: usize, hash_count: usize) -> bool {
    &&& bloom_indices(element, bin_count, hash_count).len() == hash_count
    &&& pattern_in_range(bloom_indices(element, bin_count, hash_count), bin_count as int)
}

/// The querier's output after an honest run: those of its elements, the
/// first of `inputs`, whose pattern the server answers with true against the
/// XOR of all `shares`.
pub open spec fn honest_output(
    shares: Seq<Seq<u8>>,
    inputs: Seq<Seq<usize>>,
    bin_count: usize,
    hash_count: usize,
) -> Seq<usize> {
    answered(
        inputs[0],
        answers_to(
            xor_all(shares, (5 * bin_count) as nat),
            patterns_of(inputs[0], bin_count, hash_count),
        ),
    )
}

/// In the XOR of honest clients' shares, a cell that some element of every
/// client hashes to is zero: no client corrupts it, and the zero shares
/// cancel.
pub proof fn lemma_common_cells_cancel(
    shares: Seq<Seq<u8>>,
    lists: Seq<Seq<[u8; 16]>>,
    inputs: Seq<Seq<usize>>,
    bin_count: usize,
    hash_count: usize,
    bin: int,
)
    requires
        pairwise_seeded(lists),
        honest_shares(shares, lists, inputs, bin_count, hash_count),
        0 <= bin < bin_count,
        forall|a: int|
            0 <= a < inputs.len() ==> bloom_bit(#[trigger] inputs[a], bin, bin_count, hash_count),
    ensures
        cell(xor_all(shares, (5 * bin_count) as nat), bin) == zero_bytes(5),
{
    let n = (5 * bin_count) as nat;
    let plain = zero_shares(lists, n);
    let total = xor_all(shares, n);
    lemma_zero_shares_cancel(lists, n);
    lemma_xor_all_len(shares, n);
    assert forall|j: int| 0 <= j < 5 implies cell(total, bin)[j] == 0u8 by {
        let i = 5 * bin + j;
        let sent = |a: int| byte_at(shares[a], i);
        let kept = |a: int| byte_at(plain[a], i);
        lemma_xor_all_at(shares, n, i, sent);
        lemma_xor_all_at(plain, n, i, kept);
        assert forall|a: int| 0 <= a < lists.len() implies #[trigger] sent(a) == kept(a) by {
            let conditions = absent(bloom_filter_of(inputs[a], bin_count, hash_count));
            let share = zero_share(lists[a], n);
            let randomness = choose|randomness: Seq<u8>|
                randomness.len() == 5 * bin_count && shares[a] == #[trigger] corrupted(
                    share,
                    conditions,
                    randomness,
                );
            assert(i / 5 == bin);
            assert(expand_conditions(conditions)[i] == conditions[bin]);
            assert(!conditions[bin]);
            lemma_xor_all_len(expansions(lists[a], n), n);
        }
        lemma_xor_sum_agrees(sent, kept, lists.len());
    }
    assert(cell(total, bin) =~= zero_bytes(5));
}

/// The querier's output holds exactly those of its elements whose answer is
/// true.
pub proof fn lemma_answered_membership(elements: Seq<usize>, answers: Seq<bool>)
    requires
        answers.len() == elements.len(),
    ensures
        forall|x: usize|
            answered(elements, answers).contains(x) <==> exists|i: int|
                0 <= i < elements.len() && #[trigger] elements[i] == x && answers[i],
    decreases elements.len(),
{
    let out = answered(elements, answers);
    if elements.len() > 0 {
        let init = answered(elements.drop_last(), answers.drop_last());
        lemma_answered_membership(elements.drop_last(), answers.drop_last());
        assert forall|x: usize|
            out.contains(x) <==> exists|i: int|
                0 <= i < elements.len() && #[trigger] elements[i] == x && answers[i] by {
            if out.contains(x) {
                let w = choose|w: int| 0 <= w < out.len() && out[w] == x;
                if answers.last() && w == init.len() {
                    assert(elements[elements.len() - 1] == x);
                } else {
                    assert(init[w] == x);
                    assert(init.contains(x));
                    let i = choose|i: int|
                        0 <= i < elements.len() - 1 && #[trigger] elements.drop_last()[i] == x
                            && answers.drop_last()[i];
                    assert(elements[i] == x && answers[i]);
                }
            }
            if exists|i: int| 0 <= i < elements.len() && #[trigger] elements[i] == x && answers[i] {
                let i = choose|i: int|
                    0 <= i < elements.len() && #[trigger] elements[i] == x && answers[i];
                if i == elements.len() - 1 {
                    assert(out[init.len() as int] == x);
                } else {
                    assert(elements.drop_last()[i] == x && answers.drop_last()[i]);
                    assert(init.contains(x));
                    let w = choose|w: int| 0 <= w < init.len() && init[w] == x;
                    assert(out[w] == x);
                }
            }
        }
    }
}

/// After an honest run the querier's output lies between the intersection
/// of all clients' sets and the querier's own set: it holds every element
/// that every client has, and only elements of the querier. What it holds
/// beyond the intersection is what the Bloom filters and the random bytes
/// let through.
pub proof fn lemma_output_bounds(
    shares: Seq<Seq<u8>>,
    lists: Seq<Seq<[u8; 16]>>,
    inputs: Seq<Seq<usize>>,
    bin_count: usize,
    hash_count: usize,
)
    requires
        lists.len() >= 1,
        pairwise_seeded(lists),
        honest_shares(shares, lists, inputs, bin_count, hash_count),
        forall|i: int|
            0 <= i < inputs[0].len() ==> hashed_in_range(
                #[trigger] inputs[0][i],
                bin_count,
                hash_count,
            ),
    ensures
        forall|x: usize|
            (forall|a: int| 0 <= a < inputs.len() ==> (#[trigger] inputs[a]).contains(x))
                ==> honest_output(shares, inputs, bin_count, hash_count).contains(x),
        forall|x: usize|
            honest_output(shares, inputs, bin_count, hash_count).contains(x) ==> inputs[0].contains(
                x,
            ),
{
    let elements = inputs[0];
    let aggregate = xor_all(shares, (5 * bin_count) as nat);
    let patterns = patterns_of(elements, bin_count, hash_count);
    let answers = answers_to(aggregate, patterns);
    lemma_answered_membership(elements, answers);
    assert forall|x: usize|
        (forall|a: int|
            0 <= a < inputs.len() ==> (#[trigger] inputs[a]).contains(
                x,
            )) implies honest_output(shares, inputs, bin_count, hash_count).contains(x) by {
        assert(inputs[0].contains(x));
        let i = choose|i: int| 0 <= i < elements.len() && elements[i] == x;
        let pattern = patterns[i];
        assert(hashed_in_range(elements[i], bin_count, hash_count));
        let cells = cells_of(aggregate, pattern);
        assert forall|t: int| 0 <= t < cells.len() implies #[trigger] cells[t] == zero_bytes(5) by {
            let bin = pattern[t] as int;
            assert(hashes_to(x, bin, bin_count, hash_count));
            assert forall|a: int| 0 <= a < inputs.len() implies bloom_bit(
                #[trigger] inputs[a],
                bin,
                bin_count,
                hash_count,
            ) by {
                assert(inputs[a].contains(x));
                let e = choose|e: int| 0 <= e < inputs[a].len() && inputs[a][e] == x;
                assert(hashes_to(inputs[a][e], bin, bin_count, hash_count));
            }
            lemma_common_cells_cancel(shares, lists, inputs, bin_count, hash_count, bin);
        }
        lemma_xor_all_of_zeros(cells, 5);
        assert(answers[i]);
        assert(elements[i] == x && answers[i]);
    }
}

/// The state of a party after it has received `shares`, one after the
/// other, or the error that ended its run.
pub open spec fn after_shares(s: SessionView, shares: Seq<Seq<u8>>) -> Result<
    SessionView,
    ProtocolError,
>
    decreases shares.len(),
{
    if shares.len() == 0 {
        Ok(s)
    } else {
        match after_shares(s, shares.drop_last()) {
            Err(error) => Err(error),
            Ok(t) => match transition(t, EventView::Received(shares.last())) {
                Ok((u, _)) => Ok(u),
                Err(error) => Err(error),
            },
        }
    }
}

/// Whether `s` is the state of a server that awaits the first of the shares
/// `shares`, one of each other party, each of five bytes for each bin.
pub open spec fn awaits_all(s: SessionView, shares: Seq<Seq<u8>>) -> bool {
    &&& s.phase == Phase::AwaitingShares
    &&& s.next_sender == 1
    &&& s.aggregate == zero_bytes((5 * s.bin_count) as nat)
    &&& shares.len() >= 1
    &&& shares.len() == s.n_parties - 1
    &&& forall|j: int| 0 <= j < shares.len() ==> (#[trigger] shares[j]).len() == 5 * s.bin_count
}

/// The state of the server `s` when it has the first `k` of `shares`, and
/// more are to come.
spec fn with_shares(s: SessionView, shares: Seq<Seq<u8>>, k: int) -> SessionView {
    SessionView {
        next_sender: (k + 1) as usize,
        aggregate: xor_all(shares.take(k), (5 * s.bin_count) as nat),
        ..s
    }
}

proof fn lemma_server_aggregates_prefix(s: SessionView, shares: Seq<Seq<u8>>, k: int)
    requires
        awaits_all(s, shares),
        0 <= k < shares.len(),
    ensures
        after_shares(s, shares.take(k)) == Ok::<SessionView, ProtocolError>(
            with_shares(s, shares, k),
        ),
    decreases k,
{
    if k == 0 {
        assert(shares.take(0) =~= Seq::<Seq<u8>>::empty());
        assert(xor_all(shares.take(0), (5 * s.bin_count) as nat) == s.aggregate);
    } else {
        lemma_server_aggregates_prefix(s, shares, k - 1);
        assert(shares.take(k).drop_last() =~= shares.take(k - 1));
        assert(shares.take(k).last() == shares[k - 1]);
    }
}

/// A server that takes in the shares of all other parties ends up awaiting
/// the querier's patterns, with the XOR of all the shares as its aggregate.
pub proof fn lemma_server_aggregates(s: SessionView, shares: Seq<Seq<u8>>)
    requires
        awaits_all(s, shares),
    ensures
        after_shares(s, shares) == Ok::<SessionView, ProtocolError>(
            SessionView {
                phase: Phase::AwaitingPatterns,
                next_sender: s.n_parties,
                aggregate: xor_all(shares, (5 * s.bin_count) as nat),
                ..s
            },
        ),
{
    let k = shares.len() - 1;
    lemma_server_aggregates_prefix(s, shares, k);
    assert(shares.drop_last() =~= shares.take(k));
}

/// The order in which the clients' shares reach the server does not matter:
/// after the same shares in another order the server is in the same state,
/// so it gives the same answers, and the querier has the same output.
pub proof fn lemma_server_ignores_order(
    s: SessionView,
    shares: Seq<Seq<u8>>,
    reordered: Seq<Seq<u8>>,
)
    requires
        awaits_all(s, shares),
        reordered.to_multiset() == shares.to_multiset(),
    ensures
        after_shares(s, reordered) == after_shares(s, shares),
{
    to_multiset_len(reordered);
    to_multiset_len(shares);
    assert forall|j: int| 0 <= j < reordered.len() implies (#[trigger] reordered[j]).len() == 5
        * s.bin_count by {
        to_multiset_contains(reordered, reordered[j]);
        to_multiset_contains(shares, reordered[j]);
        assert(reordered.contains(reordered[j]));
    }
    lemma_server_aggregates(s, shares);
    lemma_server_aggregates(s, reordered);
    lemma_xor_all_ignores_order(reordered, shares, (5 * s.bin_count) as nat);
}

/// Whether the querier `querier`, with the elements `elements`, awaits the
/// reply of a server with the same Bloom filter parameters.
pub open spec fn awaits_reply_of(querier: SessionView, server: SessionView, elements: Seq<usize>) -> bool {
    &&& querier.phase == Phase::AwaitingReply
    &&& querier.elements == elements
    &&& querier.bin_count == server.bin_count
    &&& querier.hash_count == server.hash_count
}

/// A run in which the messages decode to what was encoded ends with the
/// output that the bounds above speak of: the server takes in the shares,
/// answers the querier's patterns, and the querier keeps the elements
/// answered with true.
pub proof fn lemma_faithful_run(
    server: SessionView,
    querier: SessionView,
    shares: Seq<Seq<u8>>,
    inputs: Seq<Seq<usize>>,
    pattern_bytes: Seq<u8>,
    reply_bytes: Seq<u8>,
)
    requires
        awaits_all(server, shares),
        awaits_reply_of(querier, server, inputs[0]),
        forall|i: int|
            0 <= i < inputs[0].len() ==> hashed_in_range(
                #[trigger] inputs[0][i],
                server.bin_count,
                server.hash_count,
            ),
        patterns_decoding(pattern_bytes) == Some(
            patterns_of(inputs[0], server.bin_count, server.hash_count),
        ),
        answers_encoding(
            answers_to(
                xor_all(shares, (5 * server.bin_count) as nat),
                patterns_of(inputs[0], server.bin_count, server.hash_count),
            ),
        ) == Some(reply_bytes),
        answers_decoding(reply_bytes) == Some(
            answers_to(
                xor_all(shares, (5 * server.bin_count) as nat),
                patterns_of(inputs[0], server.bin_count, server.hash_count),
            ),
        ),
    ensures
        after_shares(server, shares) is Ok,
        transition(after_shares(server, shares).unwrap(), EventView::Received(pattern_bytes)) == Ok::<
            (SessionView, ActionView),
            ProtocolError,
        >(
            (
                SessionView { phase: Phase::Responded, ..after_shares(server, shares).unwrap() },
                ActionView::Send { to: 1, payload: reply_bytes },
            ),
        ),
        transition(querier, EventView::Received(reply_bytes)) == Ok::<
            (SessionView, ActionView),
            ProtocolError,
        >(
            (
                SessionView { phase: Phase::Done, ..querier },
                ActionView::Finish {
                    output: Some(
                        honest_output(shares, inputs, server.bin_count, server.hash_count),
                    ),
                },
            ),
        ),
{
    let n = (5 * server.bin_count) as nat;
    let patterns = patterns_of(inputs[0], server.bin_count, server.hash_count);
    lemma_server_aggregates(server, shares);
    lemma_xor_all_len(shares, n);
    assert forall|q: int| 0 <= q < patterns.len() implies pattern_in_range(
        #[trigger] patterns[q],
        n as int / 5,
    ) by {
        assert(hashed_in_range(inputs[0][q], server.bin_count, server.hash_count));
    }
}

} // verus!
