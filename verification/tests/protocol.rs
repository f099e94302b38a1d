use std::collections::VecDeque;

use delegated_mpsi::approx_mpsi::{ApproximateMpsi, ApproximateMpsiParty, ProtocolError};
use delegated_mpsi::element_set::ElementSet;
use delegated_mpsi::secret_sharing::create_zero_share;
use delegated_mpsi::session::{Action, Event, Phase, Role, Session};
use sets_multisets::bloom_filters::bloom_filter_indices;
use sets_multisets::sets::gen_sets_with_intersection;

fn sorted_elements(set: &ElementSet) -> Vec<usize> {
    let mut elements = set.elements.clone();
    elements.sort();
    elements.dedup();
    elements
}

fn payload_of(action: Action) -> Vec<u8> {
    match action {
        Action::Send { to, payload } => {
            assert_eq!(to, 0);
            payload
        }
        other => panic!("expected a send, got {:?}", other),
    }
}

/// Runs all parties to the end over channels held in memory, and returns
/// each party's output.
fn run_parties(
    parties: &[ApproximateMpsiParty],
    inputs: &[Option<ElementSet>],
) -> Vec<Option<ElementSet>> {
    let n_parties = parties.len();
    let mut mail: Vec<Vec<VecDeque<Vec<u8>>>> = (0..n_parties)
        .map(|_| (0..n_parties).map(|_| VecDeque::new()).collect())
        .collect();
    let mut running: Vec<Option<(Session, Action)>> = Vec::new();
    for id in 0..n_parties {
        running.push(Some(parties[id].begin(id, n_parties, &inputs[id]).unwrap()));
    }
    let mut outputs: Vec<Option<ElementSet>> = (0..n_parties).map(|_| None).collect();
    let mut finished = 0;
    while finished < n_parties {
        let mut progress = false;
        for id in 0..n_parties {
            let (session, action) = match running[id].take() {
                Some(state) => state,
                None => continue,
            };
            match action {
                Action::Send { to, payload } => {
                    mail[to][id].push_back(payload);
                    running[id] = Some(session.step(Event::Sent).unwrap());
                    progress = true;
                }
                Action::Receive { from } => match mail[id][from].pop_front() {
                    Some(message) => {
                        running[id] = Some(session.step(Event::Received(message)).unwrap());
                        progress = true;
                    }
                    None => running[id] = Some((session, Action::Receive { from })),
                },
                Action::Finish { output } => {
                    outputs[id] = output;
                    finished += 1;
                    progress = true;
                }
            }
        }
        assert!(progress);
    }
    outputs
}

fn intersect(protocol: &ApproximateMpsi, sets: &[Vec<usize>]) -> Vec<usize> {
    let n_parties = sets.len() + 1;
    let parties = protocol.setup_parties(n_parties).unwrap();
    let inputs = protocol.party_inputs(sets.iter().map(|set| ElementSet::new(set)).collect());
    let outputs = run_parties(&parties, &inputs);
    for id in 0..n_parties {
        assert_eq!(outputs[id].is_some(), id == 1);
    }
    sorted_elements(outputs[1].as_ref().unwrap())
}

#[test]
fn tiny_mpsi() {
    let protocol = ApproximateMpsi::new(64, 3, 16, 3);
    assert_eq!(protocol.bin_count(), 64);
    assert_eq!(
        intersect(&protocol, &[vec![1, 2, 3], vec![2, 3, 5]]),
        vec![2, 3]
    );
}

#[test]
fn disjoint_sets() {
    let protocol = ApproximateMpsi::new(64, 3, 16, 3);
    assert_eq!(
        intersect(&protocol, &[vec![1, 2], vec![3], vec![4]]),
        Vec::<usize>::new()
    );
}

#[test]
fn uniform_intersection() {
    let protocol = ApproximateMpsi::new(4096, 10, 256, 32);
    let sets = gen_sets_with_intersection(4, 32, 256, 4);
    let lists: Vec<Vec<usize>> = sets
        .iter()
        .map(|set| set.elements.iter().copied().collect())
        .collect();
    let mut expected: Vec<usize> = sets_multisets::sets::Set::intersection(&sets).elements.into_iter().collect();
    expected.sort();
    assert_eq!(expected.len(), 4);

    let parties = protocol.setup_parties(5).unwrap();
    let inputs = protocol.party_inputs(lists.iter().map(|list| ElementSet::new(list)).collect());
    let outputs = run_parties(&parties, &inputs);
    assert_eq!(sorted_elements(outputs[1].as_ref().unwrap()), expected);
    assert!(protocol.validate_outputs(&inputs, &outputs));
}

#[test]
fn output_lies_between_the_intersection_and_the_queriers_set() {
    // So few bins that the Bloom filters let elements through.
    let protocol = ApproximateMpsi::new(64, 2, 256, 40);
    let querier: Vec<usize> = (0..40).collect();
    let first: Vec<usize> = (20..60).collect();
    let second: Vec<usize> = (30..70).collect();
    let output = intersect(&protocol, &[querier, first, second]);
    for element in 30..40 {
        assert!(output.contains(&element));
    }
    for element in &output {
        assert!(*element < 40);
    }
}

#[test]
fn identical_sets_intersect_to_themselves() {
    let protocol = ApproximateMpsi::new(256, 4, 1000, 5);
    let set = vec![5, 900, 17, 333, 42];
    assert_eq!(
        intersect(&protocol, &[set.clone(), set.clone(), set.clone(), set]),
        vec![5, 17, 42, 333, 900]
    );
}

#[test]
fn empty_querier_set_gives_an_empty_output() {
    let protocol = ApproximateMpsi::new(64, 3, 16, 3);
    assert_eq!(
        intersect(&protocol, &[vec![], vec![1, 2, 3]]),
        Vec::<usize>::new()
    );
}

#[test]
fn begin_refuses_what_was_not_set_up() {
    let protocol = ApproximateMpsi::new(64, 3, 16, 3);
    let parties = protocol.setup_parties(4).unwrap();
    let input = Some(ElementSet::new(&[1, 2]));
    // too few parties, an id beyond them, another number of parties than at setup
    assert_eq!(parties[0].begin(0, 2, &None).err(), Some(ProtocolError::SetupInvalid));
    assert_eq!(parties[1].begin(4, 4, &input).err(), Some(ProtocolError::SetupInvalid));
    assert_eq!(parties[1].begin(1, 5, &input).err(), Some(ProtocolError::SetupInvalid));
    // a client without input, the server with clients' seeds missing
    assert_eq!(parties[2].begin(2, 4, &None).err(), Some(ProtocolError::SetupInvalid));
    assert_eq!(parties[0].begin(1, 4, &input).err(), Some(ProtocolError::SetupInvalid));
    assert!(parties[0].begin(0, 4, &None).is_ok());
    assert!(parties[1].begin(1, 4, &input).is_ok());
    assert!(parties[3].begin(3, 4, &input).is_ok());
}

#[test]
fn each_role_goes_through_its_phases() {
    let protocol = ApproximateMpsi::new(64, 3, 16, 3);
    let parties = protocol.setup_parties(3).unwrap();
    let querier_set = Some(ElementSet::new(&[1, 2, 3]));
    let client_set = Some(ElementSet::new(&[2, 3, 5]));

    let (client, action) = parties[2].begin(2, 3, &client_set).unwrap();
    assert_eq!(client.role(), Role::Client);
    assert_eq!(client.phase(), Phase::SendingShare);
    let client_share = payload_of(action);
    assert_eq!(client_share.len(), 320);
    let (client, action) = client.step(Event::Sent).unwrap();
    assert_eq!(client.phase(), Phase::Done);
    assert!(matches!(action, Action::Finish { output: None }));

    let (querier, action) = parties[1].begin(1, 3, &querier_set).unwrap();
    assert_eq!(querier.role(), Role::Querier);
    assert_eq!(querier.phase(), Phase::SendingShare);
    let querier_share = payload_of(action);
    let (querier, action) = querier.step(Event::Sent).unwrap();
    assert_eq!(querier.phase(), Phase::SendingPattern);
    let patterns = payload_of(action);
    let (querier, action) = querier.step(Event::Sent).unwrap();
    assert_eq!(querier.phase(), Phase::AwaitingReply);
    assert!(matches!(action, Action::Receive { from: 0 }));

    let (server, action) = parties[0].begin(0, 3, &None).unwrap();
    assert_eq!(server.role(), Role::Server);
    assert_eq!(server.phase(), Phase::AwaitingShares);
    assert!(matches!(action, Action::Receive { from: 1 }));
    let (server, action) = server.step(Event::Received(querier_share)).unwrap();
    assert_eq!(server.phase(), Phase::AwaitingShares);
    assert!(matches!(action, Action::Receive { from: 2 }));
    let (server, action) = server.step(Event::Received(client_share)).unwrap();
    assert_eq!(server.phase(), Phase::AwaitingPatterns);
    assert!(matches!(action, Action::Receive { from: 1 }));
    let (server, action) = server.step(Event::Received(patterns)).unwrap();
    assert_eq!(server.phase(), Phase::Responded);
    let reply = match action {
        Action::Send { to, payload } => {
            assert_eq!(to, 1);
            payload
        }
        other => panic!("expected a send, got {:?}", other),
    };
    let (server, action) = server.step(Event::Sent).unwrap();
    assert_eq!(server.phase(), Phase::Responded);
    assert!(matches!(action, Action::Finish { output: None }));

    let (querier, action) = querier.step(Event::Received(reply)).unwrap();
    assert_eq!(querier.phase(), Phase::Done);
    match action {
        Action::Finish { output: Some(output) } => assert_eq!(output.elements, vec![2, 3]),
        other => panic!("expected an output, got {:?}", other),
    }
    assert_eq!(querier.step(Event::Sent).err(), Some(ProtocolError::ChannelBroken));
    assert_eq!(client.step(Event::Sent).err(), Some(ProtocolError::ChannelBroken));
}

#[test]
fn querier_sends_the_bloom_indices_of_its_elements_in_order() {
    let protocol = ApproximateMpsi::new(100, 4, 1000, 3);
    let parties = protocol.setup_parties(3).unwrap();
    let set = ElementSet::new(&[700, 3, 41]);
    let expected: Vec<Vec<usize>> = [700usize, 3, 41]
        .iter()
        .map(|element| bloom_filter_indices(element, 128, 4).collect())
        .collect();
    let patterns = parties[1].query_patterns(&set);
    assert_eq!(patterns, expected);
    for pattern in &patterns {
        assert_eq!(pattern.len(), 4);
        assert!(pattern.iter().all(|index| *index < 128));
    }
    assert_ne!(patterns[0], patterns[1]);

    let (querier, _) = parties[1].begin(1, 3, &Some(set)).unwrap();
    let (_, action) = querier.step(Event::Sent).unwrap();
    assert_eq!(payload_of(action), bincode::serialize(&expected).unwrap());
}

#[test]
fn bloom_filter_sets_the_cells_that_the_elements_hash_to() {
    let elements = [5usize, 77, 123, 999, 77];
    let bins = ElementSet::new(&elements).to_bloom_filter(128, 3);
    assert_eq!(
        bins,
        sets_multisets::sets::Set::new(&elements).to_bloom_filter(128, 3)
    );
    let mut expected = vec![false; 128];
    for element in &elements {
        for index in bloom_filter_indices(element, 128, 3) {
            expected[index] = true;
        }
    }
    assert_eq!(bins, expected);
    assert!(bins.iter().filter(|bit| **bit).count() <= 12);
    assert!(bins.iter().any(|bit| *bit));
    assert_eq!(ElementSet::new(&[]).to_bloom_filter(64, 3), vec![false; 64]);
    assert_eq!(ElementSet::new(&[1, 2]).to_bloom_filter(64, 0), vec![false; 64]);
}

#[test]
fn client_share_keeps_the_cells_of_its_bloom_filter() {
    let protocol = ApproximateMpsi::new(128, 3, 1000, 4);
    let parties = protocol.setup_parties(4).unwrap();
    let elements = [5usize, 77, 123, 999];
    let bloom_filter = sets_multisets::sets::Set::new(&elements).to_bloom_filter(128, 3);
    assert!(bloom_filter.iter().any(|bit| *bit));
    assert!(bloom_filter.iter().any(|bit| !*bit));
    let zero_share = create_zero_share(parties[2].seeds(), 640).to_bytes();
    let share = parties[2].client_share(&ElementSet::new(&elements));
    assert_eq!(share.len(), 640);
    for bin in 0..128 {
        let range = 5 * bin..5 * bin + 5;
        if bloom_filter[bin] {
            assert_eq!(share[range.clone()], zero_share[range]);
        } else {
            assert_ne!(share[range.clone()], zero_share[range]);
        }
    }
}

#[test]
fn server_answers_with_the_encoded_booleans() {
    let protocol = ApproximateMpsi::new(64, 3, 16, 3);
    let parties = protocol.setup_parties(3).unwrap();
    let (server, _) = parties[0].begin(0, 3, &None).unwrap();
    let mut first = vec![0u8; 320];
    let mut second = vec![0u8; 320];
    first[0..5].copy_from_slice(&[9, 9, 9, 9, 9]);
    second[0..5].copy_from_slice(&[9, 9, 9, 9, 8]);
    first[10..15].copy_from_slice(&[1, 2, 3, 4, 5]);
    second[10..15].copy_from_slice(&[1, 2, 3, 4, 5]);
    first[315..320].copy_from_slice(&[0, 0, 7, 0, 0]);
    let (server, _) = server.step(Event::Received(first)).unwrap();
    let (server, _) = server.step(Event::Received(second)).unwrap();
    let patterns: Vec<Vec<usize>> = vec![vec![0], vec![2], vec![1, 2], vec![63], vec![63, 63]];
    let (_, action) = server
        .step(Event::Received(bincode::serialize(&patterns).unwrap()))
        .unwrap();
    match action {
        Action::Send { to, payload } => {
            assert_eq!(to, 1);
            let expected = vec![false, true, true, false, true];
            assert_eq!(payload, bincode::serialize(&expected).unwrap());
        }
        other => panic!("expected a send, got {:?}", other),
    }
}

#[test]
fn server_gives_the_same_answers_whatever_the_order_of_the_shares() {
    let protocol = ApproximateMpsi::new(64, 3, 16, 3);
    let parties = protocol.setup_parties(4).unwrap();
    let sets = [vec![1, 2, 3], vec![2, 3, 5], vec![3, 2, 9]];
    let shares: Vec<Vec<u8>> = (1..4)
        .map(|id| parties[id].client_share(&ElementSet::new(&sets[id - 1])))
        .collect();
    let patterns =
        bincode::serialize(&parties[1].query_patterns(&ElementSet::new(&sets[0]))).unwrap();
    let mut replies: Vec<Vec<u8>> = Vec::new();
    for order in [[0, 1, 2], [0, 2, 1], [2, 1, 0], [1, 2, 0]] {
        let (mut server, _) = parties[0].begin(0, 4, &None).unwrap();
        for index in order {
            server = server.step(Event::Received(shares[index].clone())).unwrap().0;
        }
        assert_eq!(server.phase(), Phase::AwaitingPatterns);
        let (_, action) = server.step(Event::Received(patterns.clone())).unwrap();
        match action {
            Action::Send { payload, .. } => replies.push(payload),
            other => panic!("expected a send, got {:?}", other),
        }
    }
    assert_eq!(replies[0], bincode::serialize(&vec![false, true, true]).unwrap());
    for reply in &replies {
        assert_eq!(*reply, replies[0]);
    }
}

#[test]
fn server_refuses_a_share_of_another_size() {
    let protocol = ApproximateMpsi::new(64, 3, 16, 3);
    let parties = protocol.setup_parties(3).unwrap();
    for size in [0, 64, 319, 321, 640] {
        let (server, _) = parties[0].begin(0, 3, &None).unwrap();
        assert_eq!(
            server.step(Event::Received(vec![0u8; size])).err(),
            Some(ProtocolError::ShareSizeMismatch)
        );
    }
    let (server, _) = parties[0].begin(0, 3, &None).unwrap();
    let (server, _) = server.step(Event::Received(vec![0u8; 320])).unwrap();
    assert_eq!(
        server.step(Event::Received(vec![0u8; 325])).err(),
        Some(ProtocolError::ShareSizeMismatch)
    );
}

fn server_awaiting_patterns() -> Session {
    let protocol = ApproximateMpsi::new(64, 3, 16, 3);
    let parties = protocol.setup_parties(3).unwrap();
    let (server, _) = parties[0].begin(0, 3, &None).unwrap();
    let (server, _) = server.step(Event::Received(vec![1u8; 320])).unwrap();
    let (server, _) = server.step(Event::Received(vec![1u8; 320])).unwrap();
    assert_eq!(server.phase(), Phase::AwaitingPatterns);
    server
}

#[test]
fn server_refuses_patterns_that_do_not_decode() {
    for bytes in [vec![], vec![1, 2, 3], vec![2, 0, 0, 0, 0, 0, 0, 0, 1]] {
        assert_eq!(
            server_awaiting_patterns().step(Event::Received(bytes)).err(),
            Some(ProtocolError::WireMalformed)
        );
    }
}

#[test]
fn server_refuses_patterns_that_name_no_cell() {
    let beyond: Vec<Vec<usize>> = vec![vec![0, 63], vec![64]];
    assert_eq!(
        server_awaiting_patterns()
            .step(Event::Received(bincode::serialize(&beyond).unwrap()))
            .err(),
        Some(ProtocolError::WireMalformed)
    );
    let within: Vec<Vec<usize>> = vec![vec![0, 63], vec![63]];
    assert!(server_awaiting_patterns()
        .step(Event::Received(bincode::serialize(&within).unwrap()))
        .is_ok());
}

fn querier_awaiting_reply() -> Session {
    let protocol = ApproximateMpsi::new(64, 3, 16, 3);
    let parties = protocol.setup_parties(3).unwrap();
    let input = Some(ElementSet::new(&[11, 12, 13]));
    let (querier, _) = parties[1].begin(1, 3, &input).unwrap();
    let (querier, _) = querier.step(Event::Sent).unwrap();
    let (querier, _) = querier.step(Event::Sent).unwrap();
    assert_eq!(querier.phase(), Phase::AwaitingReply);
    querier
}

#[test]
fn querier_keeps_the_elements_answered_with_true() {
    let reply = bincode::serialize(&vec![true, false, true]).unwrap();
    let (_, action) = querier_awaiting_reply().step(Event::Received(reply)).unwrap();
    match action {
        Action::Finish { output: Some(output) } => assert_eq!(output.elements, vec![11, 13]),
        other => panic!("expected an output, got {:?}", other),
    }
}

#[test]
fn querier_refuses_a_reply_that_does_not_fit() {
    let too_short = bincode::serialize(&vec![true, false]).unwrap();
    let too_long = bincode::serialize(&vec![true, false, true, true]).unwrap();
    for bytes in [too_short, too_long, vec![], vec![3, 0, 0, 0, 0, 0, 0, 0, 1, 0, 2]] {
        assert_eq!(
            querier_awaiting_reply().step(Event::Received(bytes)).err(),
            Some(ProtocolError::WireMalformed)
        );
    }
}

#[test]
fn a_failure_of_the_channels_ends_the_run() {
    assert_eq!(
        server_awaiting_patterns().step(Event::Failed).err(),
        Some(ProtocolError::ChannelBroken)
    );
    assert_eq!(
        querier_awaiting_reply().step(Event::Failed).err(),
        Some(ProtocolError::ChannelBroken)
    );
}

#[test]
fn an_event_that_answers_no_action_ends_the_run() {
    assert_eq!(
        server_awaiting_patterns().step(Event::Sent).err(),
        Some(ProtocolError::ChannelBroken)
    );
    assert_eq!(
        querier_awaiting_reply().step(Event::Sent).err(),
        Some(ProtocolError::ChannelBroken)
    );
    let protocol = ApproximateMpsi::new(64, 3, 16, 3);
    let parties = protocol.setup_parties(3).unwrap();
    let input = Some(ElementSet::new(&[1]));
    let (client, _) = parties[2].begin(2, 3, &input).unwrap();
    assert_eq!(
        client.step(Event::Received(vec![0u8; 320])).err(),
        Some(ProtocolError::ChannelBroken)
    );
}
