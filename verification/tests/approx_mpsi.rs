use delegated_mpsi::approx_mpsi::{ApproximateMpsi, ProtocolError};
use delegated_mpsi::element_set::ElementSet;
use delegated_mpsi::roles::{evaluate_patterns, select_answered};
use delegated_mpsi::secret_sharing::create_zero_share;

fn sorted(set: &ElementSet) -> Vec<usize> {
    let mut elements = set.elements.clone();
    elements.sort();
    elements.dedup();
    elements
}

#[test]
fn new_rounds_the_bin_count_up_to_a_multiple_of_64() {
    assert_eq!(ApproximateMpsi::new(0, 3, 16, 3).bin_count(), 0);
    assert_eq!(ApproximateMpsi::new(1, 3, 16, 3).bin_count(), 64);
    assert_eq!(ApproximateMpsi::new(63, 3, 16, 3).bin_count(), 64);
    assert_eq!(ApproximateMpsi::new(64, 3, 16, 3).bin_count(), 64);
    assert_eq!(ApproximateMpsi::new(65, 3, 16, 3).bin_count(), 128);
    assert_eq!(ApproximateMpsi::new(1000, 3, 16, 3).bin_count(), 1024);
}

#[test]
fn new_keeps_the_other_parameters() {
    let protocol = ApproximateMpsi::new(100, 7, 256, 32);
    assert_eq!(protocol.bin_count(), 128);
    assert_eq!(protocol.hash_count(), 7);
    assert_eq!(protocol.domain_size(), 256);
    assert_eq!(protocol.set_size(), 32);
}

#[test]
fn setup_needs_three_parties_and_some_bins() {
    let protocol = ApproximateMpsi::new(64, 3, 16, 3);
    assert_eq!(protocol.setup_parties(0).err(), Some(ProtocolError::SetupInvalid));
    assert_eq!(protocol.setup_parties(1).err(), Some(ProtocolError::SetupInvalid));
    assert_eq!(protocol.setup_parties(2).err(), Some(ProtocolError::SetupInvalid));
    assert!(protocol.setup_parties(3).is_ok());
    let no_bins = ApproximateMpsi::new(0, 3, 16, 3);
    assert_eq!(no_bins.setup_parties(3).err(), Some(ProtocolError::SetupInvalid));
}

#[test]
fn setup_of_three_parties_shares_one_seed() {
    let protocol = ApproximateMpsi::new(64, 3, 16, 3);
    let parties = protocol.setup_parties(3).unwrap();
    assert_eq!(parties.len(), 3);
    assert_eq!(parties[0].seeds().len(), 0);
    assert_eq!(parties[1].seeds().len(), 1);
    assert_eq!(parties[2].seeds().len(), 1);
    assert_eq!(parties[1].seeds()[0], parties[2].seeds()[0]);
    for party in &parties {
        assert_eq!(party.bin_count(), 64);
        assert_eq!(party.hash_count(), 3);
    }
}

#[test]
fn setup_gives_each_pair_of_clients_a_seed_of_its_own() {
    let protocol = ApproximateMpsi::new(64, 3, 16, 3);
    let n_parties = 6;
    let parties = protocol.setup_parties(n_parties).unwrap();
    assert_eq!(parties.len(), n_parties);
    assert_eq!(parties[0].seeds().len(), 0);
    let slot = |owner: usize, peer: usize| if peer < owner { peer - 1 } else { peer - 2 };
    let mut seen: Vec<[u8; 16]> = Vec::new();
    for i in 1..n_parties {
        assert_eq!(parties[i].seeds().len(), n_parties - 2);
        for j in (i + 1)..n_parties {
            let seed = parties[i].seeds()[slot(i, j)];
            assert_eq!(seed, parties[j].seeds()[slot(j, i)]);
            assert!(!seen.contains(&seed));
            assert_ne!(seed, [0u8; 16]);
            seen.push(seed);
        }
    }
    assert_eq!(seen.len(), 10);
}

#[test]
fn zero_shares_of_set_up_parties_cancel() {
    let protocol = ApproximateMpsi::new(128, 3, 16, 3);
    for n_parties in 3..7 {
        let parties = protocol.setup_parties(n_parties).unwrap();
        let mut aggregated = create_zero_share(parties[1].seeds(), 640);
        assert_ne!(aggregated.to_bytes(), [0u8; 640]);
        for party in &parties[2..] {
            aggregated ^= create_zero_share(party.seeds(), 640);
        }
        assert_eq!(aggregated.to_bytes(), [0u8; 640]);
    }
}

#[test]
fn party_inputs_puts_the_server_first() {
    let protocol = ApproximateMpsi::new(64, 3, 16, 3);
    let inputs = protocol.party_inputs(vec![
        ElementSet::new(&[1, 2, 3]),
        ElementSet::new(&[2, 3, 5]),
    ]);
    assert_eq!(inputs.len(), 3);
    assert!(inputs[0].is_none());
    assert_eq!(inputs[1].as_ref().unwrap().elements, vec![1, 2, 3]);
    assert_eq!(inputs[2].as_ref().unwrap().elements, vec![2, 3, 5]);
    assert_eq!(protocol.party_inputs(Vec::new()).len(), 1);
}

#[test]
fn validate_outputs_compares_with_the_intersection() {
    let protocol = ApproximateMpsi::new(64, 3, 16, 3);
    let inputs = vec![
        None,
        Some(ElementSet::new(&[1, 3, 4])),
        Some(ElementSet::new(&[1, 2, 4, 5])),
        Some(ElementSet::new(&[4, 3, 2])),
    ];
    let right = vec![None, Some(ElementSet::new(&[4])), None, None];
    let too_much = vec![None, Some(ElementSet::new(&[4, 3])), None, None];
    let too_little = vec![None, Some(ElementSet::new(&[])), None, None];
    let repeated = vec![None, Some(ElementSet::new(&[4, 4])), None, None];
    assert!(protocol.validate_outputs(&inputs, &right));
    assert!(!protocol.validate_outputs(&inputs, &too_much));
    assert!(!protocol.validate_outputs(&inputs, &too_little));
    assert!(protocol.validate_outputs(&inputs, &repeated));
}

#[test]
fn validate_outputs_of_two_clients() {
    let protocol = ApproximateMpsi::new(64, 3, 16, 3);
    let inputs = vec![
        None,
        Some(ElementSet::new(&[1, 2, 3])),
        Some(ElementSet::new(&[2, 3, 5])),
    ];
    let outputs = vec![None, Some(ElementSet::new(&[3, 2])), None];
    assert!(protocol.validate_outputs(&inputs, &outputs));
    let disjoint = vec![None, Some(ElementSet::new(&[1])), Some(ElementSet::new(&[2]))];
    assert!(protocol.validate_outputs(&disjoint, &vec![None, Some(ElementSet::new(&[]))]));
}

#[test]
fn element_set_membership_and_equality() {
    let set = ElementSet::new(&[3, 1, 3, 7]);
    assert!(set.contains(3));
    assert!(set.contains(7));
    assert!(!set.contains(2));
    assert!(set.same_set(&ElementSet::new(&[7, 3, 1])));
    assert!(!set.same_set(&ElementSet::new(&[7, 3])));
    assert!(ElementSet::new(&[7, 3]).is_subset_of(&set));
    assert!(!set.is_subset_of(&ElementSet::new(&[7, 3])));
    assert_eq!(sorted(&set), vec![1, 3, 7]);
}

#[test]
fn evaluate_patterns_tests_the_xor_of_the_named_cells() {
    let mut aggregate = vec![0u8; 20];
    aggregate[5..10].copy_from_slice(&[1, 2, 3, 4, 5]);
    aggregate[10..15].copy_from_slice(&[1, 2, 3, 4, 5]);
    aggregate[15..20].copy_from_slice(&[0, 0, 0, 0, 9]);
    let patterns = vec![
        vec![0],
        vec![1],
        vec![1, 2],
        vec![0, 1, 2],
        vec![1, 2, 3],
        vec![3, 3],
        vec![],
        vec![2, 1, 0, 0],
    ];
    assert_eq!(
        evaluate_patterns(&aggregate, &patterns),
        Ok(vec![true, false, true, true, false, true, true, true])
    );
    assert_eq!(evaluate_patterns(&aggregate, &Vec::new()), Ok(Vec::new()));
}

#[test]
fn evaluate_patterns_refuses_a_cell_beyond_the_aggregate() {
    let aggregate = vec![0u8; 20];
    assert_eq!(
        evaluate_patterns(&aggregate, &vec![vec![0], vec![3, 4]]),
        Err(ProtocolError::WireMalformed)
    );
    assert_eq!(
        evaluate_patterns(&aggregate, &vec![vec![usize::MAX]]),
        Err(ProtocolError::WireMalformed)
    );
    assert_eq!(evaluate_patterns(&aggregate, &vec![vec![3]]), Ok(vec![true]));
    assert_eq!(
        evaluate_patterns(&[0u8; 4], &vec![vec![0]]),
        Err(ProtocolError::WireMalformed)
    );
}

#[test]
fn select_answered_keeps_the_elements_answered_with_true() {
    let output = select_answered(&[10, 20, 30, 40], &[true, false, false, true]).unwrap();
    assert_eq!(output.elements, vec![10, 40]);
    let none = select_answered(&[10, 20], &[false, false]).unwrap();
    assert_eq!(none.elements, Vec::<usize>::new());
    let empty = select_answered(&[], &[]).unwrap();
    assert_eq!(empty.elements, Vec::<usize>::new());
}

#[test]
fn select_answered_refuses_another_number_of_answers() {
    assert_eq!(
        select_answered(&[10, 20, 30], &[true, false]).err(),
        Some(ProtocolError::WireMalformed)
    );
    assert_eq!(
        select_answered(&[], &[true]).err(),
        Some(ProtocolError::WireMalformed)
    );
}
