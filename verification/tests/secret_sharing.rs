use delegated_mpsi::secret_sharing::{
    conditionally_corrupt_share, corrupt_share_with, create_zero_share, xof, SimdBytes,
};

#[test]
fn test_secret_shares() {
    let share_1 = create_zero_share(&vec![[1; 16], [2; 16]], 128);
    let share_2 = create_zero_share(&vec![[1; 16], [3; 16]], 128);
    let share_3 = create_zero_share(&vec![[2; 16], [3; 16]], 128);

    assert_ne!(share_1.to_bytes(), [0; 128]);
    assert_eq!(share_1.to_bytes().len(), 128);
    assert_ne!(share_2.to_bytes(), [0; 128]);
    assert_eq!(share_2.to_bytes().len(), 128);
    assert_ne!(share_3.to_bytes(), [0; 128]);
    assert_eq!(share_3.to_bytes().len(), 128);

    let mut aggregated = share_1;
    aggregated ^= share_2;
    aggregated ^= share_3;

    assert_eq!(aggregated.to_bytes(), [0; 128]);
}

#[test]
fn test_corrupt_shares() {
    let share = SimdBytes::from_bytes(&[0u8; 320]);
    let mut conditions = [false; 64];
    conditions[1] = true;
    conditions[4] = true;
    conditions[30] = true;
    conditions[31] = true;
    let corrupted = conditionally_corrupt_share(
        SimdBytes {
            bytes: share.bytes.clone(),
        },
        &conditions,
    );

    assert_eq!(share.to_bytes()[0..5], corrupted.to_bytes()[0..5]);
    assert_ne!(share.to_bytes()[5..10], corrupted.to_bytes()[5..10]);
    assert_eq!(share.to_bytes()[10..15], corrupted.to_bytes()[10..15]);
    assert_eq!(share.to_bytes()[15..20], corrupted.to_bytes()[15..20]);
    assert_ne!(share.to_bytes()[20..25], corrupted.to_bytes()[20..25]);
    assert_eq!(share.to_bytes()[25..30], corrupted.to_bytes()[25..30]);
    assert_eq!(share.to_bytes()[30..35], corrupted.to_bytes()[30..35]);
    assert_eq!(share.to_bytes()[35..40], corrupted.to_bytes()[35..40]);
}

#[test]
fn from_bytes_and_to_bytes_round_trip() {
    let bytes: Vec<u8> = (0..192).map(|i| (i * 7 % 251) as u8).collect();
    let simd = SimdBytes::from_bytes(&bytes);
    assert_eq!(simd.bytes.len(), 3);
    assert_eq!(simd.bytes[1][0], bytes[64]);
    assert_eq!(simd.bytes[2][63], bytes[191]);
    assert_eq!(simd.to_bytes(), bytes);
}

#[test]
fn from_bytes_of_nothing_is_empty() {
    let simd = SimdBytes::from_bytes(&[]);
    assert_eq!(simd.bytes.len(), 0);
    assert_eq!(simd.to_bytes(), Vec::<u8>::new());
}

#[test]
fn select_takes_true_values_where_the_mask_is_set() {
    let true_values = SimdBytes::from_bytes(&[0xAAu8; 128]);
    let false_values = SimdBytes::from_bytes(&[0x55u8; 128]);
    let mut masks = [[false; 64]; 2];
    masks[0][0] = true;
    masks[0][63] = true;
    masks[1][5] = true;
    let selected = SimdBytes::select(&masks, true_values, false_values).to_bytes();
    assert_eq!(selected.len(), 128);
    for (i, byte) in selected.iter().enumerate() {
        let expected = if i == 0 || i == 63 || i == 64 + 5 { 0xAA } else { 0x55 };
        assert_eq!(*byte, expected);
    }
}

#[test]
fn xor_assign_is_byte_wise() {
    let left: Vec<u8> = (0..64).map(|i| i as u8).collect();
    let right: Vec<u8> = (0..64).map(|i| (3 * i + 1) as u8).collect();
    let mut simd = SimdBytes::from_bytes(&left);
    simd ^= SimdBytes::from_bytes(&right);
    let expected: Vec<u8> = left.iter().zip(&right).map(|(x, y)| x ^ y).collect();
    assert_eq!(simd.to_bytes(), expected);
}

#[test]
fn xor_assign_leaves_lanes_beyond_the_other_alone() {
    let mut simd = SimdBytes::from_bytes(&[0x0Fu8; 128]);
    simd ^= SimdBytes::from_bytes(&[0xFFu8; 64]);
    let bytes = simd.to_bytes();
    assert_eq!(bytes[..64], [0xF0u8; 64]);
    assert_eq!(bytes[64..], [0x0Fu8; 64]);
}

#[test]
fn xor_assign_with_itself_gives_zero() {
    let bytes: Vec<u8> = (0..128).map(|i| (i * 5 + 3) as u8).collect();
    let mut simd = SimdBytes::from_bytes(&bytes);
    simd ^= SimdBytes::from_bytes(&bytes);
    assert_eq!(simd.to_bytes(), [0u8; 128]);
}

#[test]
fn xof_is_the_blake3_output_stream() {
    let seed = [9u8; 16];
    let mut expected = vec![0u8; 192];
    blake3::Hasher::new()
        .update(&seed)
        .finalize_xof()
        .fill(&mut expected);
    assert_eq!(xof(&seed, 192).to_bytes(), expected);
    assert_eq!(xof(&seed, 192).to_bytes(), xof(&seed, 192).to_bytes());
    assert_ne!(xof(&seed, 64).to_bytes(), xof(&[8u8; 16], 64).to_bytes());
    assert_eq!(xof(&seed, 0).to_bytes().len(), 0);
}

#[test]
fn zero_share_of_one_seed_is_its_expansion() {
    let share = create_zero_share(&[[4; 16]], 64);
    assert_eq!(share.to_bytes(), xof(&[4; 16], 64).to_bytes());
}

#[test]
fn zero_share_is_the_xor_of_the_expansions() {
    let share = create_zero_share(&[[1; 16], [2; 16], [3; 16]], 128).to_bytes();
    let one = xof(&[1; 16], 128).to_bytes();
    let two = xof(&[2; 16], 128).to_bytes();
    let three = xof(&[3; 16], 128).to_bytes();
    for i in 0..128 {
        assert_eq!(share[i], one[i] ^ two[i] ^ three[i]);
    }
}

#[test]
fn corrupt_share_with_replaces_exactly_the_chosen_cells() {
    let share: Vec<u8> = (0..320).map(|i| (i % 200) as u8).collect();
    let randomness: Vec<u8> = (0..320).map(|i| 255 - (i % 200) as u8).collect();
    let mut conditions = [false; 64];
    conditions[0] = true;
    conditions[13] = true;
    conditions[63] = true;
    let corrupted =
        corrupt_share_with(SimdBytes::from_bytes(&share), &conditions, &randomness).to_bytes();
    assert_eq!(corrupted.len(), 320);
    for cell in 0..64 {
        let range = 5 * cell..5 * cell + 5;
        if conditions[cell] {
            assert_eq!(corrupted[range.clone()], randomness[range]);
        } else {
            assert_eq!(corrupted[range.clone()], share[range]);
        }
    }
}

#[test]
fn corruption_with_no_condition_set_changes_nothing() {
    let share: Vec<u8> = (0..320).map(|i| (i % 251) as u8).collect();
    let corrupted = conditionally_corrupt_share(SimdBytes::from_bytes(&share), &[false; 64]);
    assert_eq!(corrupted.to_bytes(), share);
}

#[test]
fn corruption_draws_fresh_bytes_at_each_call() {
    let first = conditionally_corrupt_share(SimdBytes::from_bytes(&[0u8; 320]), &[true; 64]);
    let second = conditionally_corrupt_share(SimdBytes::from_bytes(&[0u8; 320]), &[true; 64]);
    assert_eq!(first.to_bytes().len(), 320);
    assert_ne!(first.to_bytes(), [0u8; 320]);
    assert_ne!(first.to_bytes(), second.to_bytes());
}
