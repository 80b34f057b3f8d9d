use permute_mmo::spawn_state::SpawnState;

fn filled(aggressive: usize, alpha: usize, beta: usize, oblivious: usize) -> SpawnState {
    let s = SpawnState::get(10, 4);
    s.add(4, alpha, aggressive, beta, oblivious)
}

#[test]
fn fresh_state_has_every_slot_empty() {
    let s = SpawnState::get(10, 4);
    assert_eq!(s.count, 10);
    assert_eq!(s.max_alive, 4);
    assert_eq!(s.dead, 4);
    assert_eq!(s.ghosts, 0);
    assert_eq!(s.alive(), 0);
    assert_eq!(s.get_state(), "XXXX");
    let b = SpawnState::get_basic(3);
    assert_eq!(b.count, 3);
    assert_eq!(b.max_alive, 3);
}

#[test]
fn add_refills_empty_slots() {
    let s = filled(2, 1, 1, 1);
    assert_eq!(s.count, 6);
    assert_eq!(s.dead, 0);
    assert_eq!(s.ghosts, 0);
    assert_eq!(s.alive_alpha, 1);
    assert_eq!(s.alive_aggressive, 2);
    assert_eq!(s.get_state(), "aABO");
}

#[test]
fn remove_takes_alphas_with_aggressive() {
    let s = filled(2, 1, 1, 1);
    let r = s.remove(1, 0, 0);
    assert_eq!(r.alive_aggressive, 1);
    assert_eq!(r.alive_alpha, 0);
    assert_eq!(r.dead, 1);
    assert_eq!(r.get_state(), "ABOX");
    let k = s.knockout_beta(2);
    assert_eq!(k.alive_aggressive, 1);
    assert_eq!(k.alive_beta, 0);
    assert_eq!(k.dead, 2);
    let o = s.knockout_oblivious(1);
    assert_eq!(o.alive_oblivious, 0);
    assert_eq!(o.dead, 1);
    let c = s.scare(1);
    assert_eq!(c.alive_beta, 0);
}

#[test]
fn knockout_any_prefers_aggressive_then_beta() {
    let s = filled(2, 0, 1, 1);
    let r = s.knockout_any(3);
    assert_eq!(r.alive_aggressive, 0);
    assert_eq!(r.alive_beta, 0);
    assert_eq!(r.alive_oblivious, 1);
    assert_eq!(r.dead, 3);
    let all = s.knockout_any(10);
    assert_eq!(all.dead, 4);
}

#[test]
fn respawn_info_splits_slots_into_respawns_and_ghosts() {
    let s = SpawnState::get(2, 4);
    assert_eq!(s.get_respawn_info(), (4, 2, 2));
    let t = SpawnState::get(9, 4);
    assert_eq!(t.get_respawn_info(), (4, 4, 0));
    let a = s.add(2, 0, 2, 0, 0);
    assert_eq!(a.ghosts, 2);
    assert_eq!(a.dead, 2);
    assert_eq!(a.count, 0);
    assert_eq!(a.get_state(), "AA~~");
}

#[test]
fn ghosts_replace_live_entities() {
    let s = SpawnState::get(2, 4).add(2, 0, 2, 0, 0);
    assert!(s.can_add_ghosts());
    assert_eq!(s.max_ghosts(), 3);
    assert_eq!(s.empty_ghost_slots(), 1);
    let g = s.add_ghosts(1);
    assert_eq!(g.ghosts, 3);
    assert_eq!(g.dead, 3);
    assert_eq!(g.alive_aggressive, 0);
    assert!(!g.can_add_ghosts());
}

#[test]
fn adjust_count_never_shrinks_below_alive() {
    let s = filled(3, 0, 0, 0).remove(1, 0, 0);
    assert_eq!(s.alive(), 3);
    let grown = s.adjust_count(5);
    assert_eq!(grown.max_alive, 5);
    assert_eq!(grown.dead, 2);
    assert_eq!(grown.count, 2);
    let kept = s.adjust_count(1);
    assert_eq!(kept.max_alive, 3);
    assert_eq!(kept.dead, 0);
    assert_eq!(kept.count, 0);
}

#[test]
fn conservation_holds_along_a_transition_sequence() {
    let mut s = SpawnState::get(12, 4);
    let steps: Vec<Box<dyn Fn(&SpawnState) -> SpawnState>> = vec![
        Box::new(|s: &SpawnState| s.add(4, 1, 2, 1, 1)),
        Box::new(|s: &SpawnState| s.knockout_aggressive(2)),
        Box::new(|s: &SpawnState| s.add(2, 0, 1, 0, 1)),
        Box::new(|s: &SpawnState| s.knockout_oblivious(2)),
        Box::new(|s: &SpawnState| s.add(2, 0, 2, 0, 0)),
        Box::new(|s: &SpawnState| s.knockout_any(4)),
    ];
    for f in steps.iter() {
        s = f(&s);
        let sum = s.alive_aggressive + s.alive_beta + s.alive_oblivious;
        assert!(s.dead + sum <= s.max_alive);
        assert!(s.alive_alpha <= s.alive_aggressive);
    }
}
