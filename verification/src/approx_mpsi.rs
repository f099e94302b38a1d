//! The protocol's parameters, the parties' setup and the checks around a run.
use vstd::prelude::*;
use crate::element_set::ElementSet;
use crate::secret_sharing::{pairwise_seeded, peer_slot};
use crate::trusted::fill_random;

verus! {

/// What ends a protocol instance. None of these is recovered from.
#[derive(Clone, Copy, Debug, PartialEq, Eq, Structural)]
pub enum ProtocolError {
    /// Fewer than three parties, or parameters that do not fit together.
    SetupInvalid,
    /// The channels failed, or delivered what was not asked for.
    ChannelBroken,
    /// A structured message could not be encoded or decoded, or names cells
    /// that do not exist.
    WireMalformed,
    /// A received share does not hold five bytes for each bin.
    ShareSizeMismatch,
}

/// The least multiple of 64 that is no less than `count`.
pub open spec fn round_up_to_lanes(count: int) -> int {
    (count + 63) / 64 * 64
}

/// The parameters of the protocol.
#[derive(Debug, Clone, Copy)]
pub struct ApproximateMpsi {
    bin_count: usize,
    hash_count: usize,
    domain_size: usize,
    set_size: usize,
}

/// One party of the protocol: the seeds it shares with its peers, and the
/// Bloom filter parameters.
pub struct ApproximateMpsiParty {
    seeds: Vec<[u8; 16]>,
    bin_count: usize,
    hash_count: usize,
}

/// The seed lists of all parties but the first, which is the server.
pub open spec fn client_seed_lists(parties: Seq<ApproximateMpsiParty>) -> Seq<Seq<[u8; 16]>> {
    Seq::new((parties.len() - 1) as nat, |a: int| parties[a + 1].spec_seeds())
}

impl ApproximateMpsiParty {
    #[verifier::type_invariant]
    spec fn well_formed(self) -> bool {
        &&& self.bin_count > 0
        &&& self.bin_count % 64 == 0
        &&& 5 * self.bin_count <= usize::MAX
    }

    /// The seeds this party shares with its peers, in the order of the
    /// peers' ids.
    pub closed spec fn spec_seeds(&self) -> Seq<[u8; 16]> {
        self.seeds@
    }

    /// The number of cells of the Bloom filter.
    pub closed spec fn spec_bin_count(&self) -> usize {
        self.bin_count
    }

    /// The number of hash functions of the Bloom filter.
    pub closed spec fn spec_hash_count(&self) -> usize {
        self.hash_count
    }

    /// The seeds this party shares with its peers.
    pub fn seeds(&self) -> (result: &Vec<[u8; 16]>)
        ensures
            result@ == self.spec_seeds(),
    {
        &self.seeds
    }

    /// The number of cells of the Bloom filter: positive, and a multiple of
    /// 64 small enough that a share vector can be held.
    #[verifier::when_used_as_spec(spec_bin_count)]
    pub fn bin_count(&self) -> (result: usize)
        ensures
            result == self.spec_bin_count(),
            result > 0,
            result % 64 == 0,
            5 * result <= usize::MAX,
    {
        proof {
            use_type_invariant(self);
        }
        self.bin_count
    }

    /// The number of hash functions of the Bloom filter.
    #[verifier::when_used_as_spec(spec_hash_count)]
    pub fn hash_count(&self) -> (result: usize)
        ensures
            result == self.spec_hash_count(),
    {
        self.hash_count
    }
}

impl ApproximateMpsi {
    #[verifier::type_invariant]
    spec fn well_formed(self) -> bool {
        &&& self.bin_count % 64 == 0
        &&& 5 * self.bin_count <= usize::MAX
    }

    /// The number of cells of the Bloom filter.
    pub closed spec fn spec_bin_count(&self) -> usize {
        self.bin_count
    }

    /// The number of hash functions of the Bloom filter.
    pub closed spec fn spec_hash_count(&self) -> usize {
        self.hash_count
    }

    /// The number of elements that a set is drawn from.
    pub closed spec fn spec_domain_size(&self) -> usize {
        self.domain_size
    }

    /// The number of elements of each party's set.
    pub closed spec fn spec_set_size(&self) -> usize {
        self.set_size
    }

    /// The parameters of a protocol with at least `minimum_bin_count` bins,
    /// rounded up to a multiple of 64. A share vector of five bytes for each
    /// bin must fit the address space.
    pub fn new(minimum_bin_count: usize, hash_count: usize, domain_size: usize, set_size: usize) -> (result:
        Self)
        requires
            5 * round_up_to_lanes(minimum_bin_count as int) <= usize::MAX,
        ensures
            result.bin_count() == round_up_to_lanes(minimum_bin_count as int),
            result.bin_count() % 64 == 0,
            result.hash_count() == hash_count,
            result.domain_size() == domain_size,
            result.set_size() == set_size,
    {
        let lane_count: usize = if minimum_bin_count % 64 == 0 {
            minimum_bin_count / 64
        } else {
            minimum_bin_count / 64 + 1
        };
        ApproximateMpsi { bin_count: lane_count * 64, hash_count, domain_size, set_size }
    }

    /// The number of cells of the Bloom filter.
    #[verifier::when_used_as_spec(spec_bin_count)]
    pub fn bin_count(&self) -> (result: usize)
        ensures
            result == self.spec_bin_count(),
            result % 64 == 0,
            5 * result <= usize::MAX,
    {
        proof {
            use_type_invariant(self);
        }
        self.bin_count
    }

    /// The number of hash functions of the Bloom filter.
    #[verifier::when_used_as_spec(spec_hash_count)]
    pub fn hash_count(&self) -> (result: usize)
        ensures
            result == self.spec_hash_count(),
    {
        self.hash_count
    }

    /// The number of elements that a set is drawn from.
    #[verifier::when_used_as_spec(spec_domain_size)]
    pub fn domain_size(&self) -> (result: usize)
        ensures
            result == self.spec_domain_size(),
    {
        self.domain_size
    }

    /// The number of elements of each party's set.
    #[verifier::when_used_as_spec(spec_set_size)]
    pub fn set_size(&self) -> (result: usize)
        ensures
            result == self.spec_set_size(),
    {
        self.set_size
    }

    /// Whether `parties` are `n_parties` parties set up for this protocol:
    /// the server first, with no seed, then the clients, each pair of which
    /// shares one seed.
    pub open spec fn set_up(self, parties: Seq<ApproximateMpsiParty>, n_parties: usize) -> bool {
        &&& parties.len() == n_parties
        &&& parties[0].spec_seeds().len() == 0
        &&& forall|p: int|
            0 <= p < parties.len() ==> (#[trigger] parties[p]).bin_count() == self.bin_count()
                && parties[p].hash_count() == self.hash_count()
        &&& pairwise_seeded(client_seed_lists(parties))
    }

    /// Sets up `n_parties` parties: the server, then the querier and the
    /// other clients. Each pair of clients gets a fresh random seed of its
    /// own. Fewer than three parties, or no bins, cannot be set up.
    pub fn setup_parties(&self, n_parties: usize) -> (result: Result<
        Vec<ApproximateMpsiParty>,
        ProtocolError,
    >)
        ensures
            match result {
                Ok(parties) => n_parties >= 3 && self.bin_count() > 0 && self.set_up(
                    parties@,
                    n_parties,
                ),
                Err(error) => error == ProtocolError::SetupInvalid && (n_parties < 3
                    || self.bin_count() == 0),
            },
    {
        proof {
            use_type_invariant(self);
        }
        if n_parties < 3 || self.bin_count == 0 {
            return Err(ProtocolError::SetupInvalid);
        }
        let client_count: usize = n_parties - 1;
        let mut parties: Vec<ApproximateMpsiParty> = Vec::with_capacity(n_parties);
        parties.push(
            ApproximateMpsiParty {
                seeds: Vec::new(),
                bin_count: self.bin_count,
                hash_count: self.hash_count,
            },
        );
        let mut a: usize = 0;
        while a < client_count
            invariant
                a <= client_count,
                client_count == n_parties - 1,
                parties@.len() == a + 1,
                parties@[0].spec_seeds().len() == 0,
                forall|p: int|
                    0 <= p < parties@.len() ==> (#[trigger] parties@[p]).bin_count()
                        == self.bin_count() && parties@[p].hash_count() == self.hash_count(),
                forall|p: int|
                    1 <= p <= a ==> (#[trigger] parties@[p]).spec_seeds().len() == client_count
                        - 1,
                forall|x: int, y: int|
                    0 <= x < a && 0 <= y < a && x != y ==> #[trigger] parties@[x
                        + 1].spec_seeds()[peer_slot(x, y)] == parties@[y + 1].spec_seeds()[peer_slot(
                        y,
                        x,
                    )],
                self.bin_count > 0,
                self.bin_count % 64 == 0,
                5 * self.bin_count <= usize::MAX,
            decreases client_count - a,
        {
            let mut row: Vec<[u8; 16]> = Vec::with_capacity(client_count - 1);
            let mut b: usize = 0;
            while b < a
                invariant
                    b <= a,
                    a < client_count,
                    parties@.len() == a + 1,
                    row@.len() == b,
                    forall|p: int|
                        1 <= p <= a ==> (#[trigger] parties@[p]).spec_seeds().len() == client_count
                            - 1,
                    forall|y: int|
                        0 <= y < b ==> #[trigger] row@[y] == parties@[y + 1].spec_seeds()[a - 1],
                decreases a - b,
            {
                row.push(parties[b + 1].seeds[a - 1]);
                b += 1;
            }
            b = a + 1;
            while b < client_count
                invariant
                    a < b <= client_count,
                    row@.len() == b - 1,
                    forall|y: int|
                        0 <= y < a ==> #[trigger] row@[y] == parties@[y + 1].spec_seeds()[a - 1],
                decreases client_count - b,
            {
                row.push(fresh_seed());
                b += 1;
            }
            let ghost before = parties@;
            parties.push(
                ApproximateMpsiParty {
                    seeds: row,
                    bin_count: self.bin_count,
                    hash_count: self.hash_count,
                },
            );
            assert forall|x: int, y: int| 0 <= x < a + 1 && 0 <= y < a + 1 && x != y implies #[trigger] parties@[x
                + 1].spec_seeds()[peer_slot(x, y)] == parties@[y + 1].spec_seeds()[peer_slot(
                y,
                x,
            )] by {
                if x < a && y < a {
                    assert(parties@[x + 1] == before[x + 1]);
                    assert(parties@[y + 1] == before[y + 1]);
                } else if x == a {
                    assert(parties@[y + 1] == before[y + 1]);
                    assert(row@[y] == before[y + 1].spec_seeds()[a - 1]);
                } else {
                    assert(parties@[x + 1] == before[x + 1]);
                    assert(row@[x] == before[x + 1].spec_seeds()[a - 1]);
                }
            }
            a += 1;
        }
        proof {
            let lists = client_seed_lists(parties@);
            assert forall|x: int, y: int|
                0 <= x < lists.len() && 0 <= y < lists.len() && x != y implies #[trigger] lists[x][peer_slot(
                x,
                y,
            )] == lists[y][peer_slot(y, x)] by {
                assert(parties@[x + 1].spec_seeds()[peer_slot(x, y)] == parties@[y
                    + 1].spec_seeds()[peer_slot(y, x)]);
            }
        }
        Ok(parties)
    }
}

/// The elements that every set of `inputs` but the first holds; the first
/// input is the server's, which has none.
pub open spec fn common_elements(inputs: Seq<Option<ElementSet>>) -> Set<usize> {
    Set::new(
        |x: usize|
            forall|i: int| 1 <= i < inputs.len() ==> (#[trigger] inputs[i]).unwrap()@.contains(x),
    )
}

impl ApproximateMpsi {
    /// Lays out the parties' inputs: none for the server, then one set for
    /// each client, the querier's first.
    pub fn party_inputs(&self, sets: Vec<ElementSet>) -> (result: Vec<Option<ElementSet>>)
        ensures
            result@.len() == sets@.len() + 1,
            result@[0] is None,
            forall|i: int| 0 <= i < sets@.len() ==> (#[trigger] result@[i + 1]) == Some(sets@[i]),
    {
        let mut inputs: Vec<Option<ElementSet>> = Vec::new();
        inputs.push(None);
        for set in iter: sets
            invariant
                inputs@.len() == iter.index() + 1,
                inputs@[0] is None,
                forall|i: int|
                    0 <= i < iter.index() ==> (#[trigger] inputs@[i + 1]) == Some(sets@[i]),
        {
            inputs.push(Some(set));
        }
        inputs
    }

    /// Whether the querier's output, `outputs[1]`, is the intersection of
    /// the clients' inputs, `inputs[1..]`. There are at least two clients,
    /// each with an input, and the querier has an output.
    pub fn validate_outputs(&self, inputs: &[Option<ElementSet>], outputs: &[Option<ElementSet>]) -> (result:
        bool)
        requires
            inputs@.len() >= 3,
            forall|i: int| 1 <= i < inputs@.len() ==> (#[trigger] inputs@[i]) is Some,
            outputs@.len() >= 2,
            outputs@[1] is Some,
        ensures
            result == (outputs@[1].unwrap()@ == common_elements(inputs@)),
    {
        let candidates: &ElementSet = inputs[1].as_ref().unwrap();
        let mut common: Vec<usize> = Vec::new();
        let mut c: usize = 0;
        while c < candidates.elements.len()
            invariant
                c <= candidates.elements@.len(),
                inputs@.len() >= 3,
                forall|i: int| 1 <= i < inputs@.len() ==> (#[trigger] inputs@[i]) is Some,
                *candidates == inputs@[1].unwrap(),
                forall|x: usize|
                    common@.contains(x) <==> (exists|j: int|
                        0 <= j < c && candidates.elements@[j] == x) && common_elements(
                        inputs@,
                    ).contains(x),
            decreases candidates.elements@.len() - c,
        {
            let element: usize = candidates.elements[c];
            let mut in_all: bool = true;
            let mut i: usize = 2;
            while i < inputs.len()
                invariant
                    2 <= i <= inputs@.len(),
                    forall|i: int| 1 <= i < inputs@.len() ==> (#[trigger] inputs@[i]) is Some,
                    in_all <==> forall|l: int|
                        2 <= l < i ==> (#[trigger] inputs@[l]).unwrap()@.contains(element),
                decreases inputs@.len() - i,
            {
                if !inputs[i].as_ref().unwrap().contains(element) {
                    in_all = false;
                }
                i += 1;
            }
            proof {
                assert(candidates@.contains(element));
                assert(in_all <==> common_elements(inputs@).contains(element)) by {
                    if in_all {
                        assert forall|l: int| 1 <= l < inputs@.len() implies (#[trigger] inputs@[l]).unwrap()@.contains(
                            element,
                        ) by {
                            if l == 1 {
                            }
                        }
                    }
                }
            }
            let ghost before = common@;
            if in_all {
                common.push(element);
            }
            proof {
                assert forall|x: usize|
                    common@.contains(x) <==> (exists|j: int|
                        0 <= j < c + 1 && candidates.elements@[j] == x) && common_elements(
                        inputs@,
                    ).contains(x) by {
                    if in_all {
                        assert(common@ == before.push(element));
                        if common@.contains(x) {
                            let j = choose|j: int| 0 <= j < common@.len() && common@[j] == x;
                            if j < before.len() {
                                assert(before.contains(x));
                            } else {
                                assert(candidates.elements@[c as int] == x);
                            }
                        }
                        if (exists|j: int| 0 <= j < c + 1 && candidates.elements@[j] == x)
                            && common_elements(inputs@).contains(x) {
                            let j = choose|j: int| 0 <= j < c + 1 && candidates.elements@[j] == x;
                            if j < c {
                                assert(before.contains(x));
                                let w = choose|w: int| 0 <= w < before.len() && before[w] == x;
                                assert(common@[w] == x);
                            } else {
                                assert(common@[before.len() as int] == x);
                            }
                        }
                    } else {
                        if (exists|j: int| 0 <= j < c + 1 && candidates.elements@[j] == x)
                            && common_elements(inputs@).contains(x) {
                            let j = choose|j: int| 0 <= j < c + 1 && candidates.elements@[j] == x;
                            assert(j < c);
                        }
                    }
                }
            }
            c += 1;
        }
        let expected = ElementSet { elements: common };
        proof {
            assert forall|x: usize| expected@.contains(x) <==> common_elements(inputs@).contains(
                x,
            ) by {
                if common_elements(inputs@).contains(x) {
                    assert(inputs@[1].unwrap()@.contains(x));
                    assert(candidates.elements@.contains(x));
                }
            }
            assert(expected@ =~= common_elements(inputs@));
        }
        outputs[1].as_ref().unwrap().same_set(&expected)
    }
}

/// A fresh random seed: sixteen bytes of which nothing is known beforehand.
fn fresh_seed() -> [u8; 16] {
    let mut buffer: Vec<u8> = vec![0u8; 16];
    fill_random(&mut buffer);
    seed_of_bytes(&buffer)
}

/// The seed that holds the sixteen bytes of `bytes`, in their order.
fn seed_of_bytes(bytes: &Vec<u8>) -> (seed: [u8; 16])
    requires
        bytes@.len() == 16,
    ensures
        seed@ == bytes@,
{
    let mut seed: [u8; 16] = [0u8; 16];
    let mut t: usize = 0;
    while t < 16
        invariant
            t <= 16,
            bytes@.len() == 16,
            forall|i: int| 0 <= i < t ==> seed@[i] == bytes@[i],
        decreases 16 - t,
    {
        seed[t] = bytes[t];
        t += 1;
    }
    assert(seed@ =~= bytes@);
    seed
}

} // verus!
