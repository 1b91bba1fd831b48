use ministark::channel::{advance, ProverChannel, Stage, Step};
use ministark::coin::{
    accepts, count_leading_zero_bits, count_leading_zeros_of_byte, holds, meets_threshold,
    PublicCoin,
};
use ministark::encoding::{felts_to_bytes, optional_root_to_bytes, prefixed_felts_to_bytes};
use ministark::error::ProvingError;
use ministark::field::{Felt, MODULUS};
use ministark::hash::{join_bytes, draw, hash_pair};
use ministark::merkle::{
    commit_to_rows, copy_bytes, row_bytes, same_bytes, verify_path, MerkleTree,
};
use ministark::prover::next_step;

fn f(v: u64) -> Felt {
    Felt::new(v)
}

fn hex(bytes: &Vec<u8>) -> String {
    bytes.iter().map(|b| format!("{:02x}", b)).collect::<Vec<String>>().join("")
}

#[test]
fn digest_of_hello_world() {
    let digest = hash_pair(&b"hello ".to_vec(), &b"world".to_vec());
    assert_eq!(digest.len(), 32);
    assert_eq!(hex(&digest), "b94d27b9934d3e08a52e52d7da7dabfac484efe37a5380ee9088f7ace2efcde9");
}

#[test]
fn digest_of_nothing() {
    let digest = hash_pair(&vec![], &vec![]);
    assert_eq!(hex(&digest), "e3b0c44298fc1c149afbf4c8996fb92427ae41e4649b934ca495991b7852b855");
}

#[test]
fn concat_joins_and_copy_copies() {
    assert_eq!(join_bytes(&vec![1, 2], &vec![3]), vec![1, 2, 3]);
    assert_eq!(join_bytes(&vec![], &vec![]), Vec::<u8>::new());
    assert_eq!(copy_bytes(&vec![7, 8]), vec![7, 8]);
    assert!(same_bytes(&vec![1, 2], &vec![1, 2]));
    assert!(!same_bytes(&vec![1, 2], &vec![1, 3]));
    assert!(!same_bytes(&vec![1, 2], &vec![1]));
}

#[test]
fn draw_reads_the_head_of_the_digest() {
    let seed = b"seed".to_vec();
    let digest = hash_pair(&seed, &5u64.to_le_bytes().to_vec());
    let mut head = [0u8; 8];
    head.copy_from_slice(&digest[0..8]);
    assert_eq!(draw(&seed, 5), u64::from_le_bytes(head));
    assert_ne!(draw(&seed, 5), draw(&seed, 6));
}

#[test]
fn only_canonical_words_are_accepted() {
    assert!(accepts(0));
    assert!(accepts(MODULUS - 1));
    assert!(!accepts(MODULUS));
    assert!(!accepts(u64::MAX));
}

#[test]
fn leading_zero_bits_are_counted() {
    assert_eq!(count_leading_zeros_of_byte(0), 8);
    assert_eq!(count_leading_zeros_of_byte(1), 7);
    assert_eq!(count_leading_zeros_of_byte(0x10), 3);
    assert_eq!(count_leading_zeros_of_byte(0xff), 0);
    assert_eq!(count_leading_zero_bits(&vec![]), 0);
    assert_eq!(count_leading_zero_bits(&vec![0, 0, 0x20, 0]), 18);
    assert_eq!(count_leading_zero_bits(&vec![0, 0]), 16);
    assert_eq!(count_leading_zero_bits(&vec![0x80, 0]), 0);
    assert!(meets_threshold(&vec![0, 0x0f], 12));
    assert!(!meets_threshold(&vec![0, 0x1f], 12));
    assert!(meets_threshold(&vec![0xff], 0));
}

#[test]
fn coin_is_a_function_of_what_it_absorbed() {
    let mut a = PublicCoin::new(&b"context".to_vec());
    let mut b = PublicCoin::new(&b"context".to_vec());
    a.reseed(&vec![1, 2, 3]);
    b.reseed(&vec![1, 2, 3]);
    assert_eq!(a.seed, b.seed);
    assert_eq!(a.draw_felts(20), b.draw_felts(20));
    assert_eq!(a.counter, b.counter);
    let mut c = PublicCoin::new(&b"context".to_vec());
    c.reseed(&vec![1, 2, 4]);
    assert_ne!(a.seed, c.seed);
}

#[test]
fn reseed_hashes_seed_and_data() {
    let mut coin = PublicCoin::new(&vec![]);
    assert_eq!(hex(&coin.seed), "e3b0c44298fc1c149afbf4c8996fb92427ae41e4649b934ca495991b7852b855");
    let before = coin.seed.clone();
    coin.draw_felt().unwrap();
    assert!(coin.counter >= 1);
    coin.reseed(&vec![9, 9]);
    assert_eq!(coin.seed, hash_pair(&before, &vec![9, 9]));
    assert_eq!(coin.counter, 0);
}

#[test]
fn drawn_elements_are_the_accepted_words() {
    let mut coin = PublicCoin::new(&b"draws".to_vec());
    let seed = coin.seed.clone();
    let drawn = coin.draw_felts(8).unwrap();
    let mut expected = Vec::new();
    let mut counter = 0u64;
    while expected.len() < 8 {
        counter += 1;
        let word = draw(&seed, counter);
        if word < MODULUS {
            expected.push(Felt { raw: word });
        }
    }
    assert_eq!(drawn, expected);
    assert_eq!(coin.counter, counter);
    assert_eq!(coin.seed, seed);
}

#[test]
fn exhausted_coin_fails() {
    let mut coin = PublicCoin { seed: vec![0; 32], counter: u64::MAX };
    assert_eq!(coin.draw_felt(), Err(ProvingError::Fail));
    assert_eq!(coin.draw_felts(1), Err(ProvingError::Fail));
    assert_eq!(coin.draw_felts(0), Ok(vec![]));
    assert_eq!(coin.draw_positions(1, 8), Err(ProvingError::Fail));
    assert_eq!(coin.draw_outside(8, &f(7)), Err(ProvingError::Fail));
}

#[test]
fn out_of_domain_point_is_outside_the_coset() {
    let mut coin = PublicCoin::new(&b"ood".to_vec());
    let offset = f(7);
    let z = coin.draw_outside(64, &offset).unwrap();
    assert_ne!(z.pow(64), offset.pow(64));
    // With a subgroup of order 1 and offset 1 the coset is {1}.
    let mut other = PublicCoin::new(&b"ood".to_vec());
    assert_eq!(other.draw_outside(1, &f(1)), Ok(z));
}

#[test]
fn grinding_factor_zero_searches_nothing() {
    let mut coin = PublicCoin::new(&b"grind".to_vec());
    let seed = coin.seed.clone();
    assert_eq!(coin.grind(0), Ok(0));
    assert_eq!(coin.seed, hash_pair(&seed, &0u64.to_le_bytes().to_vec()));
    assert_eq!(coin.counter, 0);
}

#[test]
fn grinding_finds_the_least_nonce() {
    let mut coin = PublicCoin::new(&b"grind".to_vec());
    let seed = coin.seed.clone();
    let nonce = coin.grind(8).unwrap();
    let digest = hash_pair(&seed, &nonce.to_le_bytes().to_vec());
    assert!(count_leading_zero_bits(&digest) >= 8);
    assert_eq!(digest[0], 0);
    for smaller in 0..nonce {
        let d = hash_pair(&seed, &smaller.to_le_bytes().to_vec());
        assert!(count_leading_zero_bits(&d) < 8);
    }
    assert_eq!(coin.seed, digest);
    assert_eq!(coin.counter, 0);
}

#[test]
fn positions_are_distinct_and_in_range() {
    let mut coin = PublicCoin::new(&b"queries".to_vec());
    let seed = coin.seed.clone();
    let positions = coin.draw_positions(128, 64).unwrap();
    assert_eq!(coin.counter, 128);
    assert!(positions.len() <= 64);
    let mut expected: Vec<usize> = Vec::new();
    for j in 1..=128u64 {
        let p = (draw(&seed, j) % 64) as usize;
        if !expected.contains(&p) {
            expected.push(p);
        }
    }
    assert_eq!(positions, expected);
    for (i, p) in positions.iter().enumerate() {
        assert!(*p < 64);
        assert!(!positions[..i].contains(p));
    }
    assert!(holds(&positions, positions[0]));
    assert!(!holds(&positions, 64));
}

#[test]
fn positions_in_a_large_domain() {
    let mut coin = PublicCoin::new(&b"queries".to_vec());
    let positions = coin.draw_positions(32, 1 << 16).unwrap();
    assert!(positions.len() <= 32);
    assert!(positions.iter().all(|p| *p < (1 << 16)));
    assert_eq!(PublicCoin::new(&b"queries".to_vec()).draw_positions(0, 8), Ok(vec![]));
}

#[test]
fn field_elements_are_encoded_little_endian() {
    assert_eq!(felts_to_bytes(&vec![]), Vec::<u8>::new());
    assert_eq!(
        felts_to_bytes(&vec![f(1), f(0x0102)]),
        vec![1, 0, 0, 0, 0, 0, 0, 0, 2, 1, 0, 0, 0, 0, 0, 0]
    );
    assert_eq!(felts_to_bytes(&vec![Felt { raw: MODULUS + 1 }]), vec![1, 0, 0, 0, 0, 0, 0, 0]);
    assert_eq!(
        prefixed_felts_to_bytes(&vec![f(5)]),
        vec![1, 0, 0, 0, 0, 0, 0, 0, 5, 0, 0, 0, 0, 0, 0, 0]
    );
    assert_eq!(prefixed_felts_to_bytes(&vec![]), vec![0; 8]);
}

#[test]
fn absent_root_is_the_flag_zero() {
    assert_eq!(optional_root_to_bytes(&None), vec![0]);
    assert_eq!(optional_root_to_bytes(&Some(vec![7, 8])), vec![7, 8, 1]);
}

#[test]
fn tree_of_one_leaf_is_the_leaf() {
    let tree = MerkleTree::new(vec![vec![1, 2, 3]]).ok().unwrap();
    assert_eq!(tree.root(), vec![1, 2, 3]);
    assert_eq!(tree.open(0), Ok(vec![]));
    assert_eq!(tree.open(1), Err(ProvingError::Fail));
}

#[test]
fn tree_of_no_leaf_is_refused() {
    assert!(matches!(MerkleTree::new(vec![]), Err(ProvingError::ConfigError)));
}

#[test]
fn root_of_two_and_four_leaves() {
    let l: Vec<Vec<u8>> = (0..4u8).map(|i| vec![i; 32]).collect();
    let two = MerkleTree::new(vec![l[0].clone(), l[1].clone()]).ok().unwrap();
    assert_eq!(two.root(), hash_pair(&l[0], &l[1]));
    let four = MerkleTree::new(l.clone()).ok().unwrap();
    assert_eq!(four.root(), hash_pair(&hash_pair(&l[0], &l[1]), &hash_pair(&l[2], &l[3])));
    assert_eq!(four.open(2), Ok(vec![l[3].clone(), hash_pair(&l[0], &l[1])]));
}

#[test]
fn every_opened_path_verifies() {
    for n in [1usize, 2, 3, 5, 8, 16] {
        let leaves: Vec<Vec<u8>> = (0..n).map(|i| vec![i as u8; 32]).collect();
        let tree = MerkleTree::new(leaves.clone()).ok().unwrap();
        let root = tree.root();
        for i in 0..n {
            let path = tree.open(i).unwrap();
            assert!(verify_path(&root, n + i, &leaves[i], &path));
            if n > 1 {
                assert!(!verify_path(&root, n + i, &vec![0xee; 32], &path));
                let mut bad = root.clone();
                bad[0] ^= 1;
                assert!(!verify_path(&bad, n + i, &leaves[i], &path));
            }
        }
    }
}

#[test]
fn rows_are_committed_as_their_bytes() {
    let columns = vec![vec![f(1), f(2)], vec![f(3), f(4)]];
    assert_eq!(row_bytes(&columns, 1), vec![2, 0, 0, 0, 0, 0, 0, 0, 4, 0, 0, 0, 0, 0, 0, 0]);
    let tree = commit_to_rows(&columns, 2).ok().unwrap();
    let leaf0 = hash_pair(&row_bytes(&columns, 0), &vec![]);
    let leaf1 = hash_pair(&row_bytes(&columns, 1), &vec![]);
    assert_eq!(tree.root(), hash_pair(&leaf0, &leaf1));
    assert!(matches!(commit_to_rows(&vec![], 0), Err(ProvingError::ConfigError)));
}

#[test]
fn steps_out_of_order_are_refused() {
    assert_eq!(advance(Stage::Init, Step::CommitBaseTrace), Some(Stage::BaseCommitted));
    assert_eq!(advance(Stage::Init, Step::DrawChallenges), None);
    assert_eq!(advance(Stage::BaseCommitted, Step::DrawChallenges), Some(Stage::ChallengesDrawn));
    assert_eq!(
        advance(Stage::BaseCommitted, Step::CommitExtensionTrace),
        Some(Stage::ExtensionCommitted)
    );
    assert_eq!(advance(Stage::ExtensionCommitted, Step::CommitExtensionTrace), None);
    assert_eq!(advance(Stage::Grinded, Step::Grind), None);
    assert_eq!(advance(Stage::ProofBuilt, Step::BuildProof), None);
    assert_eq!(advance(Stage::QueriesDrawn, Step::BuildProof), Some(Stage::ProofBuilt));
}

#[test]
fn the_plan_reaches_the_proof() {
    for (has_extension, steps) in [(true, 11), (false, 10)] {
        let mut stage = Stage::Init;
        let mut taken = 0;
        while let Some(step) = next_step(stage, has_extension) {
            stage = advance(stage, step).unwrap();
            taken += 1;
        }
        assert_eq!(stage, Stage::ProofBuilt);
        assert_eq!(taken, steps);
    }
}

#[test]
fn channel_absorbs_in_order() {
    let mut channel = ProverChannel::new(&b"air".to_vec());
    assert_eq!(channel.stage, Stage::Init);
    let seed0 = channel.coin.seed.clone();
    let root = vec![0xab; 32];
    channel.commit_base_trace(&root);
    assert_eq!(channel.stage, Stage::BaseCommitted);
    assert_eq!(channel.coin.seed, hash_pair(&seed0, &root));
    assert_eq!(channel.base_trace_root, root);
    let challenges = channel.get_challenges(11).unwrap();
    assert_eq!(challenges.len(), 11);
    assert_eq!(channel.stage, Stage::BaseCommitted);
    let coeffs = channel.get_constraint_composition_coeffs(4).unwrap();
    assert_eq!(coeffs.len(), 4);
    assert_eq!(channel.stage, Stage::ChallengesDrawn);
    assert!(channel.extension_trace_root.is_none());
    channel.commit_composition_trace(&vec![0xcd; 32]);
    assert_eq!(channel.stage, Stage::CompositionCommitted);
    let z = channel.get_ood_point(16, &f(7)).unwrap();
    assert_ne!(z.pow(16), f(7).pow(16));
    assert_eq!(channel.stage, Stage::OodDrawn);
    let seed1 = channel.coin.seed.clone();
    channel.send_ood_evals(vec![f(1)], vec![f(2)], vec![f(3)]);
    assert_eq!(channel.stage, Stage::OodEvalsSent);
    let states = felts_to_bytes(&vec![f(1), f(2)]);
    assert_eq!(
        channel.coin.seed,
        hash_pair(&hash_pair(&seed1, &states), &felts_to_bytes(&vec![f(3)]))
    );
    channel.get_deep_composition_coeffs(3).unwrap();
    assert_eq!(channel.stage, Stage::DeepCoeffsDrawn);
    channel.commit_fri_layer(&vec![1; 32]);
    channel.draw_fri_alpha().unwrap();
    channel.commit_fri_remainder(vec![f(4), f(5)]);
    assert_eq!(channel.stage, Stage::FriCommitted);
    assert_eq!(channel.fri_layer_roots, vec![vec![1u8; 32]]);
    let nonce = channel.grind_fri_commitments(4).unwrap();
    assert_eq!(channel.nonce, nonce);
    assert_eq!(channel.stage, Stage::Grinded);
    let positions = channel.get_fri_query_positions(32, 128).unwrap();
    assert!(positions.iter().all(|p| *p < 128));
    assert_eq!(channel.stage, Stage::QueriesDrawn);
}

#[test]
fn two_channels_with_the_same_messages_agree() {
    let run = || {
        let mut channel = ProverChannel::new(&b"air".to_vec());
        channel.commit_base_trace(&vec![1; 32]);
        let a = channel.get_challenges(5).unwrap();
        channel.commit_extension_trace(&vec![2; 32]);
        let b = channel.get_constraint_composition_coeffs(6).unwrap();
        (a, b, channel.coin.seed.clone(), channel.extension_trace_root.clone())
    };
    assert_eq!(run(), run());
    assert_eq!(run().3, Some(vec![2; 32]));
}
