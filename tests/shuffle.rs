use raw_ipa::field::Field;
use raw_ipa::fp::Fp31;
use raw_ipa::helpers::{Direction, Role};
use raw_ipa::shuffle::{
    apply, apply_inv, get_two_of_three_random_permutations, permutation_valid,
    permutations_from_randoms, permute_for_round, rounds, shuffle_for_helper, SharedRandomness,
    ShuffleOrUnshuffle, ShuffleStep,
};
use std::collections::HashSet;

/// Deterministic stand-in for the PRSS endpoint: each neighbour pair shares a key.
struct Endpoint {
    left: u64,
    right: u64,
}

fn mix(key: u64, index: u128) -> u128 {
    let mut x = key ^ (index as u64).wrapping_mul(0x9E37_79B9_7F4A_7C15) ^ ((index >> 64) as u64);
    let mut out: u128 = 0;
    for _ in 0..2 {
        x = x.wrapping_add(0x9E37_79B9_7F4A_7C15);
        let mut z = x;
        z = (z ^ (z >> 30)).wrapping_mul(0xBF58_476D_1CE4_E5B9);
        z = (z ^ (z >> 27)).wrapping_mul(0x94D0_49BB_1331_11EB);
        z ^= z >> 31;
        out = (out << 64) | u128::from(z);
    }
    out
}

impl SharedRandomness for Endpoint {
    fn generate_values(&self, index: u128) -> (u128, u128) {
        (mix(self.left, index), mix(self.right, index))
    }
}

/// Helper `k` shares key `k` with its right neighbour.
fn make_participants() -> [Endpoint; 3] {
    let keys = [0x1111_2222_3333_4444u64, 0x5555_6666_7777_8888, 0x9999_aaaa_bbbb_cccc];
    [
        Endpoint { left: keys[2], right: keys[0] },
        Endpoint { left: keys[0], right: keys[1] },
        Endpoint { left: keys[1], right: keys[2] },
    ]
}

fn role_index(r: Role) -> usize {
    match r {
        Role::H1 => 0,
        Role::H2 => 1,
        Role::H3 => 2,
    }
}

#[test]
fn random_sequence_generated() {
    const BATCH_SIZE: usize = 10000;

    let [p1, p2, p3] = make_participants();
    let perm1 = get_two_of_three_random_permutations(BATCH_SIZE, &p1);
    let perm2 = get_two_of_three_random_permutations(BATCH_SIZE, &p2);
    let perm3 = get_two_of_three_random_permutations(BATCH_SIZE, &p3);

    assert_eq!(perm1.1, perm2.0);
    assert_eq!(perm2.1, perm3.0);
    assert_eq!(perm3.1, perm1.0);

    assert_ne!(perm1.0, perm1.1);
    assert_ne!(perm2.0, perm2.1);
    assert_ne!(perm3.0, perm3.1);

    assert!(permutation_valid(&perm1.0, BATCH_SIZE));
    assert!(permutation_valid(&perm2.0, BATCH_SIZE));
    assert!(permutation_valid(&perm3.0, BATCH_SIZE));
}

#[test]
fn permutations_depend_on_seed() {
    let a = permutations_from_randoms(50, (1, 2), (3, 4));
    let b = permutations_from_randoms(50, (1, 2), (3, 4));
    assert_eq!(a, b);
    assert_ne!(a.0, a.1);
    let c = permutations_from_randoms(50, (1, 5), (3, 4));
    assert_eq!(a.0, c.0);
    assert_ne!(a.1, c.1);
    assert!(permutations_from_randoms(0, (1, 2), (3, 4)).0.is_empty());
    assert_eq!(permutations_from_randoms(1, (1, 2), (3, 4)).1, vec![0]);
}

#[test]
fn permutation_validity() {
    assert!(permutation_valid(&[2, 0, 1], 3));
    assert!(permutation_valid(&[], 0));
    assert!(!permutation_valid(&[0, 0, 1], 3));
    assert!(!permutation_valid(&[0, 1, 3], 3));
    assert!(!permutation_valid(&[0, 1], 3));
}

#[test]
fn apply_and_apply_inv() {
    let perm = [2u32, 0, 3, 1];
    let mut v = vec!['a', 'b', 'c', 'd'];
    apply(&perm, &mut v);
    assert_eq!(v, vec!['c', 'a', 'd', 'b']);
    let mut w = vec!['a', 'b', 'c', 'd'];
    apply_inv(&perm, &mut w);
    assert_eq!(w, vec!['b', 'd', 'a', 'c']);
    apply(&perm, &mut w);
    assert_eq!(w, vec!['a', 'b', 'c', 'd']);
}

#[test]
fn recipients_and_round_order() {
    assert_eq!(shuffle_for_helper(ShuffleStep::Step1), Role::H1);
    assert_eq!(shuffle_for_helper(ShuffleStep::Step2), Role::H2);
    assert_eq!(shuffle_for_helper(ShuffleStep::Step3), Role::H3);
    assert_eq!(
        rounds(ShuffleOrUnshuffle::Shuffle),
        [ShuffleStep::Step1, ShuffleStep::Step2, ShuffleStep::Step3]
    );
    assert_eq!(
        rounds(ShuffleOrUnshuffle::Unshuffle),
        [ShuffleStep::Step3, ShuffleStep::Step2, ShuffleStep::Step1]
    );
    assert_eq!(Role::H1.peer(Direction::Left), Role::H3);
    assert_eq!(Role::H1.peer(Direction::Right), Role::H2);
}

/// Replicated shares: helper `k` holds components `k` and `k + 1` of each value.
type Shares = Vec<(Fp31, Fp31)>;

fn share(values: &[u128], round: u128) -> [Shares; 3] {
    let mut out: [Shares; 3] = [Vec::new(), Vec::new(), Vec::new()];
    for (i, v) in values.iter().enumerate() {
        let x0 = Fp31::from_u128(mix(round as u64 + 1, i as u128));
        let x1 = Fp31::from_u128(mix(round as u64 + 101, i as u128));
        let x2 = Fp31::from_u128(*v).sub(x0).sub(x1);
        let comps = [x0, x1, x2];
        for k in 0..3 {
            out[k].push((comps[k], comps[(k + 1) % 3]));
        }
    }
    out
}

fn reconstruct(shares: &[Shares; 3]) -> Vec<u128> {
    (0..shares[0].len())
        .map(|i| {
            assert_eq!(shares[0][i].1, shares[1][i].0);
            assert_eq!(shares[1][i].1, shares[2][i].0);
            assert_eq!(shares[2][i].1, shares[0][i].0);
            shares[0][i].0.add(shares[1][i].0).add(shares[2][i].0).as_u128()
        })
        .collect()
}

/// Runs the rounds of a shuffle or unshuffle; resharing is modelled by the two
/// actors, who together hold every component, sharing the value afresh.
fn run(
    shares: [Shares; 3],
    perms: &[(Vec<u32>, Vec<u32>); 3],
    mode: ShuffleOrUnshuffle,
    salt: u128,
) -> [Shares; 3] {
    let mut shares = shares;
    for (r, step) in rounds(mode).into_iter().enumerate() {
        let roles = [Role::H1, Role::H2, Role::H3];
        let mut permuted: Vec<Shares> = Vec::new();
        for role in roles {
            let k = role_index(role);
            let (out, to) = permute_for_round(
                shares[k].clone(),
                (perms[k].0.as_slice(), perms[k].1.as_slice()),
                mode,
                role,
                step,
            );
            assert_eq!(to, shuffle_for_helper(step));
            permuted.push(out);
        }
        let to = role_index(shuffle_for_helper(step));
        let a = (to + 1) % 3;
        let b = (to + 2) % 3;
        let values: Vec<u128> = (0..permuted[a].len())
            .map(|i| permuted[a][i].0.add(permuted[a][i].1).add(permuted[b][i].1).as_u128())
            .collect();
        shares = share(&values, salt * 10 + r as u128);
    }
    shares
}

fn perms_for(n: usize) -> [(Vec<u32>, Vec<u32>); 3] {
    let [p1, p2, p3] = make_participants();
    [
        get_two_of_three_random_permutations(n, &p1),
        get_two_of_three_random_permutations(n, &p2),
        get_two_of_three_random_permutations(n, &p3),
    ]
}

#[test]
fn semi_honest() {
    const BATCHSIZE: u8 = 25;
    let input: Vec<u8> = (0..BATCHSIZE).collect();
    let hashed_input: HashSet<u8> = input.iter().copied().collect();
    let input_u128: Vec<u128> = input.iter().map(|x| u128::from(*x)).collect();

    let perms = perms_for(BATCHSIZE.into());
    let result = run(share(&input_u128, 0), &perms, ShuffleOrUnshuffle::Shuffle, 1);
    let output_secret: Vec<u8> =
        reconstruct(&result).into_iter().map(|v| u8::try_from(v).unwrap()).collect();
    let hashed_output_secret: HashSet<u8> = output_secret.iter().copied().collect();

    assert_ne!(output_secret, input);
    assert_eq!(hashed_output_secret, hashed_input);
}

#[test]
fn shuffle_unshuffle() {
    const BATCHSIZE: usize = 5;
    let input: Vec<u128> = (0..u128::try_from(BATCHSIZE).unwrap()).collect();
    let perms = perms_for(BATCHSIZE);
    let shuffled = run(share(&input, 0), &perms, ShuffleOrUnshuffle::Shuffle, 1);
    let restored = run(shuffled, &perms, ShuffleOrUnshuffle::Unshuffle, 2);
    assert_eq!(reconstruct(&restored), input);
}
