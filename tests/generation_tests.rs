use permute_mmo::generation::{
    generate, generate_pokemon, get_fake_outbreak, get_level, get_shiny_xor, EntityResult,
    SlotDetail, SpawnType, BASCULIN,
};
use permute_mmo::xoroshiro::Xoroshiro;

/// The weighted pick the game makes from a slot draw.
fn slot_roll(draw: u64, slots: &Vec<SlotDetail>, no_alpha: bool) -> usize {
    let mut sum = 0.0f32;
    for s in slots {
        if no_alpha && s.is_alpha {
            continue;
        }
        sum += s.rate as f32;
    }
    let mut roll = (sum * (draw as f32 * 5.421e-20f32)) + 0.0f32;
    for (i, s) in slots.iter().enumerate() {
        if no_alpha && s.is_alpha {
            continue;
        }
        roll -= s.rate as f32;
        if roll <= 0.0 {
            return i;
        }
    }
    slots.len()
}

fn slot(rate: usize, species: u16, alpha: bool, levels: [usize; 2], flawless: usize) -> SlotDetail {
    SlotDetail {
        rate,
        name: format!("S{species}"),
        is_alpha: alpha,
        level: Some(levels),
        flawless_ivs: flawless,
        species,
        form: 0,
        gender_ratio: 127,
    }
}

#[test]
fn generate_pokemon_exact_roll() {
    let mut e = EntityResult::default();
    generate_pokemon(&mut e, 0xDEADBEEF, 19, 3, 127);
    assert_eq!(e.ec, 21702986);
    assert_eq!(e.fake_tid, 467338099);
    assert_eq!(e.pid, 2946134638);
    assert!(!e.is_shiny);
    assert_eq!(e.roll_count_used, 0);
    assert_eq!(e.ivs, [2, 7, 12, 31, 31, 31]);
    assert_eq!(e.ability, 1);
    assert_eq!(e.gender, 1);
    assert_eq!(e.nature, 13);
    assert_eq!(e.height, 45);
    assert_eq!(e.weight, 200);
}

#[test]
fn alpha_sizes_and_fixed_gender() {
    let mut e = EntityResult::default();
    e.is_alpha = true;
    generate_pokemon(&mut e, 0xDEADBEEF, 19, 3, 255);
    assert_eq!(e.pid, 2946134638);
    assert_eq!(e.gender, 2);
    assert_eq!(e.height, 255);
    assert_eq!(e.weight, 255);
    let mut f = EntityResult::default();
    generate_pokemon(&mut f, 1, 1, 0, 254);
    assert_eq!(f.gender, 1);
    let mut m = EntityResult::default();
    generate_pokemon(&mut m, 1, 1, 0, 0);
    assert_eq!(m.gender, 0);
}

#[test]
fn shiny_roll_exact_and_rule() {
    let mut e = EntityResult::default();
    generate_pokemon(&mut e, 234, 32, 0, 127);
    assert!(e.is_shiny);
    assert_eq!(e.pid, 2703085251);
    assert_eq!(e.fake_tid, 4135754069);
    assert_eq!(e.shiny_xor, 9);
    assert_eq!(e.roll_count_used, 7);
    assert_eq!(e.roll_count_allowed, 32);
    assert_eq!(get_shiny_xor(e.pid, e.fake_tid), 9);
    let mut few = EntityResult::default();
    generate_pokemon(&mut few, 234, 6, 0, 127);
    assert!(!few.is_shiny);
}

#[test]
fn shiny_iff_xor_below_sixteen_and_within_budget() {
    for seed in 0..3000u64 {
        let mut e = EntityResult::default();
        generate_pokemon(&mut e, seed, 19, 0, 127);
        let x = e.pid ^ e.fake_tid;
        assert_eq!(e.is_shiny, ((x ^ (x >> 16)) & 0xFFFF) < 16);
        if e.is_shiny {
            assert!(e.roll_count_used >= 1 && e.roll_count_used <= 19);
        }
        assert!(e.ivs.iter().all(|v| *v <= 31));
        assert!(e.nature < 25 && e.ability < 2);
    }
}

#[test]
fn levels_are_drawn_within_range() {
    let s = slot(10, 1, false, [10, 20], 0);
    for seed in 0..50u64 {
        let l = get_level(&s, Xoroshiro::new(seed));
        assert!((10..=20).contains(&l));
    }
    let fixed = slot(10, 1, false, [7, 7], 0);
    assert_eq!(get_level(&fixed, Xoroshiro::new(5)), 7);
    let none = SlotDetail::default();
    assert_eq!(none.min_level(), 0);
    assert_eq!(none.max_level(), 0);
}

#[test]
fn generate_is_deterministic_and_keeps_provenance() {
    let slots = vec![slot(100, 1, false, [10, 20], 0), slot(1, 1, true, [30, 30], 3)];
    let a = generate(7, 2, 0xABCDEF, 99, &slots, SpawnType::MMO, false, &slot_roll).unwrap();
    let b = generate(7, 2, 0xABCDEF, 99, &slots, SpawnType::MMO, false, &slot_roll).unwrap();
    assert_eq!(a.pid, b.pid);
    assert_eq!(a.ec, b.ec);
    assert_eq!(a.ivs, b.ivs);
    assert_eq!(a.group_seed, 7);
    assert_eq!(a.index, 2);
    assert_eq!(a.slot_seed, 0xABCDEF);
    assert_eq!(a.alpha_seed, 99);
    let mut r = Xoroshiro::new(0xABCDEF);
    r.next_u64();
    assert_eq!(a.gen_seed, r.next_u64());
}

#[test]
fn zero_weight_or_bad_pick_gives_nothing() {
    let empty: Vec<SlotDetail> = vec![];
    assert!(generate(1, 1, 2, 3, &empty, SpawnType::MMO, false, &slot_roll).is_none());
    let only_alpha = vec![slot(5, 1, true, [1, 1], 3)];
    assert!(generate(1, 1, 2, 3, &only_alpha, SpawnType::MMO, true, &slot_roll).is_none());
    let zero = vec![slot(0, 1, false, [1, 1], 0)];
    assert!(generate(1, 1, 2, 3, &zero, SpawnType::MMO, false, &slot_roll).is_none());
    let ok = vec![slot(5, 1, false, [1, 1], 0)];
    let far = |_: u64, _: &Vec<SlotDetail>, _: bool| 9usize;
    assert!(generate(1, 1, 2, 3, &ok, SpawnType::MMO, false, &far).is_none());
    let alpha_pick = |_: u64, _: &Vec<SlotDetail>, _: bool| 0usize;
    assert!(generate(1, 1, 2, 3, &vec![slot(5, 1, true, [1, 1], 3), slot(5, 2, false, [1, 1], 0)], SpawnType::MMO, true, &alpha_pick).is_none());
}

#[test]
fn fake_outbreak_has_common_and_alpha_slots() {
    let slots = get_fake_outbreak(25, "Pikachu".to_string(), 127);
    assert_eq!(slots.len(), 2);
    assert_eq!(slots[0].rate, 100);
    assert!(!slots[0].is_alpha);
    assert_eq!(slots[1].rate, 1);
    assert!(slots[1].is_alpha);
    assert_eq!(slots[1].flawless_ivs, 3);
    assert_eq!(slots[0].species, 25);
    assert_eq!(slots[0].form, 0);
    let b = get_fake_outbreak(BASCULIN, "Basculin-2".to_string(), 127);
    assert_eq!(b[0].form, 2);
}

#[test]
fn behaviour_lists_classify_species() {
    let mut e = EntityResult::default();
    e.species = 3;
    let skittish = vec![2u16];
    let oblivious = vec![3u16];
    assert!(e.is_oblivious(&oblivious));
    assert!(!e.is_skittish(&skittish));
    assert!(!e.is_aggressive(&skittish, &oblivious));
    e.is_alpha = true;
    assert!(e.is_aggressive(&skittish, &oblivious));
    assert!(slot(1, 2, false, [1, 1], 0).is_skittish(&skittish));
    assert_eq!(SpawnType::MMO.shiny_rolls(), 19);
    assert_eq!(SpawnType::Regular.shiny_rolls(), 7);
    assert_eq!(SpawnType::Outbreak.shiny_rolls(), 32);
}
