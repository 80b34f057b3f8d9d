use permute_mmo::advance::{Advance, AdvanceType};
use permute_mmo::calculations::{
    get_entity_seed, get_generate_seed, get_group_seed, get_group_seed_from_advances,
};
use permute_mmo::xoroshiro::Xoroshiro;

#[test]
fn new_sets_both_words() {
    let x = Xoroshiro::new(0x1234);
    assert_eq!(x.seed0, 0x1234);
    assert_eq!(x.seed1, 0x82A2B175229D6A5B);
}

#[test]
fn next_u64_exact_values() {
    let mut x = Xoroshiro::new(0x1234);
    assert_eq!(x.next_u64(), 0x82a2b175229d7c8f);
    assert_eq!(x.next_u64(), 0x8786a1eac348a713);
    assert_eq!(x.next_u64(), 0x58a730421270429f);
    let mut z = Xoroshiro::new(0);
    assert_eq!(z.next_u64(), 0x82a2b175229d6a5b);
    assert_eq!(z.next(), 0x9d1c98ff);
}

#[test]
fn next_max_rejection_sampling_exact_values() {
    let mut x = Xoroshiro::new(0xA5D779D8831721FD);
    let drawn: Vec<u64> = (0..5).map(|_| x.next_max(6)).collect();
    assert_eq!(drawn, vec![0, 3, 4, 5, 0]);
    let mut y = Xoroshiro::new(99);
    for _ in 0..200 {
        assert!(y.next_max(25) < 25);
        assert_eq!(y.next_max(1), 0);
    }
}

#[test]
fn determinism_same_seed_same_draws() {
    let mut a = Xoroshiro::new(0xDEADBEEF);
    let mut b = Xoroshiro::new(0xDEADBEEF);
    for _ in 0..100 {
        assert_eq!(a.next_u64(), b.next_u64());
    }
    assert_eq!(get_entity_seed(0xA5D779D8831721FD, 3), get_entity_seed(0xA5D779D8831721FD, 3));
}

#[test]
fn group_seed_exact_values() {
    assert_eq!(get_group_seed(0xA5D779D8831721FD, 4), 0xb7b46d3d1349d055);
    assert_eq!(get_group_seed(1, 0), 0x82a2b175229d6a5c);
}

#[test]
fn generate_and_entity_seeds_exact_values() {
    let (sub, alpha) = get_generate_seed(0xA5D779D8831721FD, 2);
    assert_eq!(sub, 0x30d8a7cf71ae2a74);
    assert_eq!(alpha, 0xbb28a0378d382efd);
    assert_eq!(get_entity_seed(0xA5D779D8831721FD, 2), 0xd219f199b66f6fd2);
}

#[test]
fn group_seed_from_advances_chains_each_advance() {
    let seed = 0xA5D779D8831721FD;
    let path = vec![
        Advance { advance_type: AdvanceType::A2, raw: true },
        Advance { advance_type: AdvanceType::CR, raw: true },
        Advance { advance_type: AdvanceType::B3, raw: false },
    ];
    let mut expected = get_group_seed(seed, 4);
    expected = get_group_seed(expected, 2);
    expected = get_group_seed(expected, 0);
    expected = get_group_seed(expected, 3);
    assert_eq!(get_group_seed_from_advances(seed, &path), expected);
    assert_eq!(get_group_seed_from_advances(seed, &[]), get_group_seed(seed, 4));
}
