use permute_mmo::advance::AdvanceType::{A1, A2, A3, B1, B2, B3, CR, O2, S2, S3};
use permute_mmo::advance::{Advance, AdvanceType};
use permute_mmo::generation::{EntityResult, SlotDetail, SpawnType};
use permute_mmo::permuter::{
    default_criteria, permute, run_forwards, PermuteMeta, PermuteResult, SlotTable, SpawnData,
    SpawnStep,
};
use permute_mmo::results::is_subset;
use permute_mmo::spawn_info::MassiveOutbreakSpawnerStatus as S;
use permute_mmo::spawn_info::{SpawnCount, SpawnInfo, SpawnSet};
use permute_mmo::spawn_state::SpawnState;

/// The weighted pick the game makes from a slot draw.
fn slot_roll(draw: u64, slots: &Vec<SlotDetail>, no_alpha: bool) -> usize {
    let mut sum = 0.0f32;
    for s in slots {
        if no_alpha && s.is_alpha {
            continue;
        }
        sum += s.rate as f32;
    }
    let mut roll = (sum * (draw as f32 * 5.421e-20f32)) + 0.0f32;
    for (i, s) in slots.iter().enumerate() {
        if no_alpha && s.is_alpha {
            continue;
        }
        roll -= s.rate as f32;
        if roll <= 0.0 {
            return i;
        }
    }
    slots.len()
}

fn slot(rate: usize, species: u16, alpha: bool) -> SlotDetail {
    SlotDetail {
        rate,
        name: format!("S{species}"),
        is_alpha: alpha,
        level: Some([10, 20]),
        flawless_ivs: if alpha { 3 } else { 0 },
        species,
        form: 0,
        gender_ratio: 127,
    }
}

const BASE: u64 = 0x7FA3A1DE69BD271E;
const BONUS: u64 = 0x44182B854CD3745D;

fn data() -> SpawnData {
    SpawnData {
        tables: vec![
            SlotTable {
                table: BASE,
                slots: vec![slot(100, 1, false), slot(40, 2, false), slot(30, 3, false), slot(4, 1, true)],
            },
            SlotTable { table: BONUS, slots: vec![slot(100, 4, false), slot(6, 4, true)] },
        ],
        skittish: vec![2],
        oblivious: vec![3],
    }
}

fn accept_all(_: &EntityResult, _: &Vec<Advance>) -> bool {
    true
}

fn accept_none(_: &EntityResult, _: &Vec<Advance>) -> bool {
    false
}

fn fresh_meta() -> PermuteMeta {
    PermuteMeta {
        spawners: SpawnInfo::get_mmo(BASE, 5, BONUS, 3),
        current: 0,
        max_depth: 15,
        data: data(),
        results: vec![],
        advances: vec![],
    }
}

fn replay_match(seed: u64, target: &PermuteResult) -> Option<PermuteResult> {
    let mut meta = fresh_meta();
    let steps = run_forwards(&mut meta, &target.advances, seed, &accept_all, &slot_roll);
    assert!(!steps.is_empty());
    assert!(meta.advances.is_empty());
    meta.results
        .iter()
        .find(|r| Advance::sequence_eq(&r.advances, &target.advances) && r.entity.index == target.entity.index)
        .cloned()
}

#[test]
fn search_records_every_spawn_when_everything_matches() {
    let seed = 0xA5D779D8831721FD;
    let meta = permute(SpawnInfo::get_mmo(BASE, 5, BONUS, 3), data(), seed, 15, &accept_all, &slot_roll);
    assert!(meta.has_results());
    assert!(meta.advances.is_empty());
    assert_eq!(meta.current, 0);
    assert!(meta.results[0].advances.is_empty());
    assert!(meta.results.iter().any(|r| r.advances.iter().any(|a| a.advance_type == AdvanceType::CR)));
    assert!(meta.results.iter().any(|r| r.advances.iter().any(|a| a.advance_type == AdvanceType::G1)));
    let none = permute(SpawnInfo::get_mmo(BASE, 5, BONUS, 3), data(), seed, 15, &accept_none, &slot_roll);
    assert!(!none.has_results());
}

#[test]
fn replay_reproduces_each_match() {
    let seed = 0xA5D779D8831721FD;
    let meta = permute(SpawnInfo::get_mmo(BASE, 5, BONUS, 3), data(), seed, 15, &accept_all, &slot_roll);
    let step = (meta.results.len() / 40).max(1);
    for found in meta.results.iter().step_by(step) {
        let again = replay_match(seed, found).expect("replayed match");
        assert_eq!(again.entity.slot_seed, found.entity.slot_seed);
        assert_eq!(again.entity.pid, found.entity.pid);
        assert_eq!(again.entity.group_seed, found.entity.group_seed);
    }
}

#[test]
fn default_criteria_keeps_shiny_alphas_only() {
    let seed = 1911689355633755303;
    let meta = permute(SpawnInfo::get_mmo(BASE, 5, BONUS, 3), data(), seed, 15, &default_criteria, &slot_roll);
    for r in meta.results.iter() {
        assert!(r.entity.is_shiny && r.entity.is_alpha);
        let again = replay_match(seed, r).expect("replayed match");
        assert_eq!(again.entity.slot_seed, r.entity.slot_seed);
    }
}

#[test]
fn depth_bound_limits_waves() {
    let seed = 42;
    let meta = permute(SpawnInfo::get_mmo(BASE, 5, BONUS, 3), data(), seed, 0, &accept_all, &slot_roll);
    assert!(meta.results.iter().all(|r| r.advances.iter().all(|a| a.advance_type != AdvanceType::CR)));
}

#[test]
fn replay_steps_follow_the_path() {
    let mut meta = fresh_meta();
    let path = vec![
        Advance { advance_type: AdvanceType::A1, raw: true },
        Advance { advance_type: AdvanceType::CR, raw: true },
    ];
    let steps: Vec<SpawnStep> = run_forwards(&mut meta, &path, 7, &accept_none, &slot_roll);
    assert_eq!(steps[0].step.advance_type, AdvanceType::RG);
    assert!(steps.len() >= 2);
    assert_eq!(steps[0].state.count, 1);
    let summary = steps[0].step_summary();
    assert!(summary.starts_with("RG "));
    assert_eq!(summary.len(), 2 + 1 + 4 + 1 + 1 + 1 + 16 + 1 + 16);
    let bad = vec![Advance { advance_type: AdvanceType::A4, raw: true }; 3];
    let short = run_forwards(&mut meta, &bad, 7, &accept_none, &slot_roll);
    assert!(short.len() < 7);
}

#[test]
fn step_summary_exact_text() {
    let step = SpawnStep {
        step: Advance { advance_type: AdvanceType::A2, raw: true },
        state: SpawnState::get(6, 4).add(4, 1, 2, 1, 0),
        seed: 0x1234,
        count_seed: 0xABCDEF0123456789,
    };
    assert_eq!(step.step_summary(), "A2 aAB? 2 0000000000001234 ABCDEF0123456789");
}

fn path(types: &[AdvanceType]) -> Vec<Advance> {
    types.iter().map(|t| Advance { advance_type: *t, raw: true }).collect()
}

fn result_with(types: &[AdvanceType]) -> PermuteResult {
    PermuteResult { advances: path(types), entity: EntityResult::default() }
}

#[test]
fn chain_relations_between_matches() {
    assert!(is_subset(&path(&[A1]), &path(&[A1, A2])));
    assert!(!is_subset(&path(&[A1, A2]), &path(&[A1, A2])));
    assert!(!is_subset(&path(&[A2]), &path(&[A1, A2])));
    let mut meta = fresh_meta();
    meta.results = vec![
        result_with(&[A1]),
        result_with(&[A1]),
        result_with(&[A1, A2]),
        result_with(&[A1, A2, CR]),
        result_with(&[B1]),
    ];
    assert!(meta.is_action_multi_result(0, &path(&[A1])));
    assert!(!meta.is_action_multi_result(2, &path(&[A1, A2])));
    assert!(meta.has_child_chain(1, &path(&[A1])));
    assert!(!meta.has_child_chain(3, &path(&[A1, A2, CR])));
    assert!(!meta.has_child_chain(4, &path(&[B1])));
    assert_eq!(meta.find_nearest_parent_index(3, &path(&[A1, A2, CR])), Some(2));
    assert!(meta.find_nearest_parent_advance_result(3, &path(&[A1, A2, CR])).is_some());
    assert_eq!(meta.find_nearest_parent_index(1, &path(&[A1, A2])), None);
    assert_eq!(meta.find_nearest_parent_index(4, &path(&[B1, A1])), Some(4));
    assert_eq!(meta.find_nearest_parent_index(4, &path(&[A3, A1])), None);
}

#[test]
fn path_families_differ_by_type_only() {
    let a = result_with(&[A1, A2]);
    let mut b = result_with(&[A1, A2]);
    b.advances[0].raw = false;
    let c = result_with(&[A1, A3]);
    assert!(Advance::sequence_eq(&a.advances, &b.advances));
    assert!(!Advance::sequence_eq(&a.advances, &c.advances));
}

#[test]
fn wave_and_feasibility_notes() {
    let r = result_with(&[A1, CR, A2, CR]);
    assert_eq!(r.wave_index(), 2);
    assert!(r.is_bonus());
    assert!(!result_with(&[A1]).is_bonus());
    assert_eq!(r.get_feasibility(&path(&[S2, B2])), " -- Skittish: Multi scaring with aggressive!");
    assert_eq!(r.get_feasibility(&path(&[S3])), " -- Skittish: Multi scaring!");
    assert_eq!(r.get_feasibility(&path(&[B3])), " -- Skittish: Aggressive!");
    assert_eq!(r.get_feasibility(&path(&[B1, A1])), " -- Skittish: Single advances!");
    assert_eq!(r.get_feasibility(&path(&[B1, A3])), " -- Skittish: Mostly aggressive!");
    assert_eq!(r.get_feasibility(&path(&[O2])), " -- Oblivious: Aggressive!");
    assert_eq!(r.get_feasibility(&path(&[A2])), "");
    assert_eq!(r.get_feasibility(&path(&[A1, CR])), " -- Single Advances!");
}

#[test]
fn spawn_chain_constructors() {
    let mmo = SpawnInfo::get_mmo(BASE, 10, BONUS, 6);
    assert_eq!(mmo.len(), 2);
    assert_eq!(mmo[0].get_next_wave(), Some(1));
    assert_eq!(mmo[1].get_next_wave(), None);
    assert_eq!(mmo[1].parent, Some(0));
    assert!(mmo[0].allow_ghosts());
    assert!(!mmo[0].no_multi_alpha());
    let mut base = mmo[0];
    let s = base.get_starting_state();
    assert_eq!(s.count, 10);
    assert_eq!(s.max_alive, 4);
    assert_eq!(s.dead, 4);
    let mo = SpawnInfo::get_mo(25, 8);
    assert_eq!(mo[0].spawn_type, SpawnType::Outbreak);
    assert!(mo[0].no_multi_alpha());
    let count = SpawnCount { max_alive: 6, min_alive: 3, count_seed: 0x1234 };
    let looped = SpawnInfo::get_loop(count, SpawnSet { table: BASE, count: 0 }, SpawnType::Regular);
    assert_eq!(looped[0].parent, Some(0));
    assert!(looped[0].retain_existing());
    assert!(!looped[0].allow_ghosts());
}

#[test]
fn count_policy_draws_and_peeks() {
    let fixed = SpawnCount { max_alive: 4, min_alive: 4, count_seed: 9 };
    assert!(fixed.is_fixed_count());
    assert!(!fixed.can_spawn_more(1));
    let mut c = SpawnCount { max_alive: 6, min_alive: 3, count_seed: 0x1234 };
    assert!(!c.is_fixed_count());
    let before = c;
    let drawn = c.get_next_count();
    assert!((3..=6).contains(&drawn));
    assert_ne!(c.count_seed, before.count_seed);
    assert_eq!(before.can_spawn_more(drawn - 1), true);
    let mut d = before;
    assert_eq!(d.get_next_count(), drawn);
}

#[test]
fn regular_spawner_search_and_replay() {
    let count = SpawnCount { max_alive: 4, min_alive: 2, count_seed: 0x5555 };
    let chain = SpawnInfo::get_loop(count, SpawnSet { table: BASE, count: 0 }, SpawnType::Regular);
    let meta = permute(chain, data(), 3, 6, &accept_all, &slot_roll);
    assert!(meta.has_results());
    assert!(meta.results.iter().all(|r| r.advances.iter().all(|a| a.advance_type != AdvanceType::CR)));
}

#[test]
fn wave_steps_respect_the_depth_bound() {
    let seed = 0xA5D779D8831721FD;
    for max_depth in [1usize, 2, 3] {
        let meta = permute(SpawnInfo::get_mmo(BASE, 5, BONUS, 3), data(), seed, max_depth, &accept_all, &slot_roll);
        for r in meta.results.iter() {
            for (i, a) in r.advances.iter().enumerate() {
                if matches!(a.advance_type, AdvanceType::CR | AdvanceType::G1 | AdvanceType::G2 | AdvanceType::G3) {
                    assert!(i < max_depth);
                }
            }
        }
    }
}

#[test]
fn matches_carry_their_seed_provenance() {
    let seed = 0x0123456789ABCDEF;
    let meta = permute(SpawnInfo::get_mmo(BASE, 5, BONUS, 3), data(), seed, 15, &accept_all, &slot_roll);
    assert!(meta.has_results());
    for r in meta.results.iter().take(200) {
        assert!(r.entity.index >= 1);
        let (sub, alpha) = permute_mmo::calculations::get_generate_seed(r.entity.group_seed, r.entity.index);
        assert_eq!(sub, r.entity.slot_seed);
        assert_eq!(alpha, r.entity.alpha_seed);
    }
}

#[test]
fn spawner_status_from_byte() {

    assert_eq!(S::from(0u8), S::Empty);
    assert_eq!(S::from(1u8), S::Unrevealed);
    assert_eq!(S::from(2u8), S::Normal);
    assert_eq!(S::from(3u8), S::Star);
    assert_eq!(S::from(4u8), S::Aguav);
    assert_eq!(S::from(9u8), S::Empty);
    assert_eq!(S::default(), S::Empty);
}

#[test]
fn first_respawn_offers_every_spawn() {
    let seed = 0xA5D779D8831721FD;
    let meta = permute(SpawnInfo::get_mmo(BASE, 5, BONUS, 3), data(), seed, 15, &accept_all, &slot_roll);
    let mut first: Vec<usize> = meta
        .results
        .iter()
        .filter(|r| r.advances.is_empty())
        .map(|r| {
            assert_eq!(r.entity.group_seed, seed);
            r.entity.index
        })
        .collect();
    first.sort();
    assert_eq!(first, vec![1, 2, 3, 4]);
}

#[test]
fn recorded_paths_are_raw_and_start_with_a_branch() {
    let meta = permute(SpawnInfo::get_mmo(BASE, 5, BONUS, 3), data(), 77, 15, &accept_all, &slot_roll);
    for r in meta.results.iter() {
        assert!(r.advances.iter().all(|a| a.raw));
        if let Some(a) = r.advances.first() {
            assert!(a.advance_type != AdvanceType::RG);
        }
    }
    assert!(meta.results.iter().any(|r| r.advances.len() == 1 && r.advances[0].advance_type == AdvanceType::A1));
}

#[test]
fn replay_takes_two_steps_per_advance() {
    let seed = 0xA5D779D8831721FD;
    let meta = permute(SpawnInfo::get_mmo(BASE, 5, BONUS, 3), data(), seed, 15, &accept_all, &slot_roll);
    for found in meta.results.iter().step_by(97).take(20) {
        let mut fresh = fresh_meta();
        let steps = run_forwards(&mut fresh, &found.advances, seed, &accept_none, &slot_roll);
        assert_eq!(steps.len(), 2 * found.advances.len() + 1);
        for (j, a) in found.advances.iter().enumerate() {
            assert_eq!(steps[2 * j + 1].step.advance_type, a.advance_type);
            assert_eq!(steps[2 * j + 2].step.advance_type, AdvanceType::RG);
        }
        assert_eq!(fresh.spawners[0].count.count_seed, 0);
    }
}

#[test]
fn outbreak_respawns_hold_at_most_one_alpha() {
    const ALPHAS: u64 = 0x1111;
    let data = SpawnData {
        tables: vec![SlotTable { table: ALPHAS, slots: vec![slot(100, 5, true), slot(1, 6, false)] }],
        skittish: vec![],
        oblivious: vec![],
    };
    let meta = permute(SpawnInfo::get_mo(ALPHAS, 8), data, 5, 15, &accept_all, &slot_roll);
    assert!(meta.has_results());
    let mut groups: std::collections::HashMap<(Vec<AdvanceType>, u64), usize> = std::collections::HashMap::new();
    for r in meta.results.iter() {
        let key = (r.advances.iter().map(|a| a.advance_type).collect::<Vec<_>>(), r.entity.group_seed);
        if r.entity.is_alpha {
            *groups.entry(key).or_insert(0) += 1;
        }
    }
    assert!(groups.values().all(|n| *n <= 1));
}
