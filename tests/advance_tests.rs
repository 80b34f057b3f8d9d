use permute_mmo::advance::{Advance, AdvanceType};
use permute_mmo::spawn_state::SpawnState;

fn adv(t: AdvanceType, raw: bool) -> Advance {
    Advance { advance_type: t, raw }
}

#[test]
fn names_raw_and_humanized() {
    assert_eq!(adv(AdvanceType::A3, true).get_name(), "A3");
    assert_eq!(adv(AdvanceType::A3, false).get_name(), "3 Aggressive");
    assert_eq!(adv(AdvanceType::B2, false).get_name(), "1 Beta + 1 Aggressive");
    assert_eq!(adv(AdvanceType::O4, false).get_name(), "1 Oblivious + 3 Aggressive");
    assert_eq!(adv(AdvanceType::S2, false).get_name(), "Multi Scare 2 + Leave");
    assert_eq!(adv(AdvanceType::G3, false).get_name(), "De-spawn 3 + Leave");
    assert_eq!(adv(AdvanceType::CR, false).get_name(), "Clear Remaining");
    assert_eq!(adv(AdvanceType::RG, true).get_name(), "RG");
    assert_eq!(AdvanceType::G1.to_string(), "G1");
}

#[test]
fn catalogue_positions() {
    assert_eq!(AdvanceType::from(0usize), AdvanceType::RG);
    assert_eq!(AdvanceType::from(4usize), AdvanceType::A3);
    assert_eq!(AdvanceType::from(14usize), AdvanceType::S2);
    assert_eq!(AdvanceType::from(19usize), AdvanceType::G3);
    assert_eq!(AdvanceType::from(400usize), AdvanceType::G3);
    assert_eq!(AdvanceType::from_index(10), AdvanceType::O1);
}

#[test]
fn counts_and_removals() {
    assert_eq!(adv(AdvanceType::RG, true).advance_count(), 0);
    assert_eq!(adv(AdvanceType::CR, true).advance_count(), 0);
    assert_eq!(adv(AdvanceType::A4, true).advance_count(), 4);
    assert_eq!(adv(AdvanceType::S3, true).advance_count(), 3);
    assert_eq!(adv(AdvanceType::G2, true).advance_count(), 2);
    assert_eq!(adv(AdvanceType::A2, true).get_removals(), (2, 0, 0));
    assert_eq!(adv(AdvanceType::B3, true).get_removals(), (2, 1, 0));
    assert_eq!(adv(AdvanceType::O1, true).get_removals(), (0, 0, 1));
    assert_eq!(adv(AdvanceType::S4, true).get_removals(), (0, 4, 0));
    assert!(adv(AdvanceType::A3, true).is_multi_aggressive());
    assert!(!adv(AdvanceType::A1, true).is_multi_aggressive());
    assert!(adv(AdvanceType::B2, true).is_multi_beta());
    assert!(adv(AdvanceType::O3, true).is_multi_oblivious());
    assert!(adv(AdvanceType::S2, true).is_multi_scare());
}

#[test]
fn advance_state_applies_removals() {
    let s = SpawnState::get(10, 4).add(4, 0, 2, 1, 1);
    let r = adv(AdvanceType::B2, true).advance_state(s);
    assert_eq!(r.alive_aggressive, 1);
    assert_eq!(r.alive_beta, 0);
    assert_eq!(r.alive_oblivious, 1);
    assert_eq!(r.dead, 2);
}

#[test]
fn sequence_eq_ignores_display_flag() {
    let a = vec![adv(AdvanceType::A1, true), adv(AdvanceType::CR, false)];
    let b = vec![adv(AdvanceType::A1, false), adv(AdvanceType::CR, true)];
    let c = vec![adv(AdvanceType::A1, true), adv(AdvanceType::A2, true)];
    assert!(Advance::sequence_eq(&a, &b));
    assert!(!Advance::sequence_eq(&a, &c));
    assert!(!Advance::sequence_eq(&a, &a[..1]));
    assert!(Advance::sequence_eq(&[], &[]));
}
