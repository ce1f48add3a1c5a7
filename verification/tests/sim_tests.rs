use bus_sim::SimState;

#[test]
fn new_state_defaults() {
    let s = SimState::new();
    assert_eq!(s.balance(), 0);
    assert_eq!(s.speed(), 1);
    assert_eq!(s.refresh_rate(), 20);
    assert_eq!(s.bus_count(), 0);
    assert!(s.get_bus(1).is_none());
}

#[test]
fn first_toggle_creates_active_at_zero() {
    let mut s = SimState::new();
    s.toggle_bus(42);
    let b = s.get_bus(42).expect("bus must exist after a toggle");
    assert_eq!(b.id, 42);
    assert_eq!(b.percent, 0);
    assert!(b.is_active);
}

#[test]
fn second_toggle_deactivates() {
    let mut s = SimState::new();
    s.toggle_bus(42);
    s.toggle_bus(42);
    let b = s.get_bus(42).unwrap();
    assert_eq!(b.percent, 0);
    assert!(!b.is_active);
}

#[test]
fn toggle_parity_is_never_lost() {
    let mut s = SimState::new();
    for _ in 0..5 {
        s.toggle_bus(9);
    }
    assert!(s.get_bus(9).unwrap().is_active);
    let mut t = SimState::new();
    for _ in 0..8 {
        t.toggle_bus(9);
    }
    assert!(!t.get_bus(9).unwrap().is_active);
}

#[test]
fn tick_creates_active_and_advances() {
    let mut s = SimState::new();
    let inc = s.tick_bus(5, true);
    assert!(inc);
    let b = s.get_bus(5).unwrap();
    assert!(b.is_active);
    assert_eq!(b.percent, 1);
}

#[test]
fn oscillation_reaches_the_boundaries_exactly() {
    let mut s = SimState::new();
    s.update_simulation_speed(100);
    let id: u128 = 3;
    let mut inc = true;
    for k in 1..=10 {
        inc = s.tick_bus(id, inc);
        let p = s.get_bus(id).unwrap().percent;
        assert!(p <= 1000);
        if k < 10 {
            assert_eq!(p, 100 * k);
            assert!(inc);
        }
    }
    assert_eq!(s.get_bus(id).unwrap().percent, 1000);
    assert!(!inc);
    for k in 1..=10 {
        inc = s.tick_bus(id, inc);
        let p = s.get_bus(id).unwrap().percent;
        assert!(p <= 1000);
        if k < 10 {
            assert_eq!(p, 1000 - 100 * k);
            assert!(!inc);
        }
    }
    assert_eq!(s.get_bus(id).unwrap().percent, 0);
    assert!(!inc);
    inc = s.tick_bus(id, inc);
    assert_eq!(s.get_bus(id).unwrap().percent, 0);
    assert!(inc);
    inc = s.tick_bus(id, inc);
    assert_eq!(s.get_bus(id).unwrap().percent, 100);
    assert!(inc);
}

#[test]
fn inactive_bus_freezes_and_resumes_in_direction() {
    let mut s = SimState::new();
    s.update_simulation_speed(10);
    let id: u128 = 77;
    let mut inc = true;
    for _ in 0..4 {
        inc = s.tick_bus(id, inc);
    }
    assert_eq!(s.get_bus(id).unwrap().percent, 40);
    s.toggle_bus(id);
    assert!(!s.get_bus(id).unwrap().is_active);
    for _ in 0..25 {
        inc = s.tick_bus(id, inc);
    }
    let frozen = s.get_bus(id).unwrap();
    assert_eq!(frozen.percent, 40);
    assert!(!frozen.is_active);
    assert!(inc);
    s.toggle_bus(id);
    inc = s.tick_bus(id, inc);
    assert_eq!(s.get_bus(id).unwrap().percent, 50);
    assert!(inc);
}

#[test]
fn speed_zero_freezes_without_deactivating() {
    let mut s = SimState::new();
    s.update_simulation_speed(7);
    let id: u128 = 11;
    let mut inc = true;
    for _ in 0..3 {
        inc = s.tick_bus(id, inc);
    }
    assert_eq!(s.get_bus(id).unwrap().percent, 21);
    s.update_simulation_speed(0);
    assert_eq!(s.speed(), 0);
    for _ in 0..50 {
        inc = s.tick_bus(id, inc);
    }
    let b = s.get_bus(id).unwrap();
    assert_eq!(b.percent, 21);
    assert!(b.is_active);
}

#[test]
fn snapshot_holds_exactly_the_seen_buses() {
    let mut s = SimState::new();
    s.tick_bus(1, true);
    s.toggle_bus(2);
    s.toggle_bus(2);
    let snap = s.get_global_state();
    assert_eq!(snap.bus_count(), 2);
    assert_eq!(snap.balance(), 0);
    assert_eq!(snap.speed(), 1);
    assert_eq!(snap.refresh_rate(), 20);
    let b1 = snap.get_bus(1).unwrap();
    assert!(b1.is_active);
    assert_eq!(b1.percent, 1);
    let b2 = snap.get_bus(2).unwrap();
    assert!(!b2.is_active);
    assert_eq!(b2.percent, 0);
    assert!(snap.get_bus(3).is_none());
    for b in snap.buses() {
        assert!(b.percent <= 1000);
    }
}

#[test]
fn snapshot_is_a_deep_copy() {
    let mut s = SimState::new();
    s.toggle_bus(6);
    let snap = s.get_global_state();
    s.tick_bus(6, true);
    s.update_simulation_speed(99);
    assert_eq!(snap.speed(), 1);
    assert_eq!(snap.get_bus(6).unwrap().percent, 0);
    assert_eq!(s.get_bus(6).unwrap().percent, 1);
}

#[test]
fn setters_overwrite_unconditionally() {
    let mut s = SimState::new();
    s.update_simulation_speed(123456);
    assert_eq!(s.speed(), 123456);
    s.update_refresh_rate(999);
    assert_eq!(s.refresh_rate(), 999);
    assert_eq!(s.speed(), 123456);
    s.update_simulation_speed(0);
    assert_eq!(s.speed(), 0);
}

#[test]
fn huge_speed_clamps_without_overflow() {
    let mut s = SimState::new();
    s.update_simulation_speed(4_000_000_000);
    let id: u128 = 1;
    let mut inc = s.tick_bus(id, true);
    assert_eq!(s.get_bus(id).unwrap().percent, 1000);
    assert!(!inc);
    inc = s.tick_bus(id, inc);
    assert_eq!(s.get_bus(id).unwrap().percent, 0);
    assert!(inc);
}

#[test]
fn speed_exactly_1000_swings_end_to_end() {
    let mut s = SimState::new();
    s.update_simulation_speed(1000);
    let id: u128 = 4;
    let mut inc = s.tick_bus(id, true);
    assert_eq!(s.get_bus(id).unwrap().percent, 1000);
    assert!(!inc);
    inc = s.tick_bus(id, inc);
    assert_eq!(s.get_bus(id).unwrap().percent, 0);
    assert!(!inc);
    inc = s.tick_bus(id, inc);
    assert_eq!(s.get_bus(id).unwrap().percent, 0);
    assert!(inc);
}

#[test]
fn listing_matches_lookup() {
    let mut s = SimState::new();
    s.toggle_bus(10);
    s.tick_bus(20, true);
    s.toggle_bus(30);
    let listed = s.buses();
    assert_eq!(listed.len(), 3);
    for b in listed {
        let looked = s.get_bus(b.id).unwrap();
        assert_eq!(looked.percent, b.percent);
        assert_eq!(looked.is_active, b.is_active);
    }
}

#[test]
fn uuid_identifiers_fit_the_registry() {
    let a = uuid::Uuid::parse_str("67e55044-10b1-426f-9247-bb680e5fe0c8").unwrap();
    let b = uuid::Uuid::new_v4();
    let mut s = SimState::new();
    s.toggle_bus(a.as_u128());
    s.tick_bus(b.as_u128(), true);
    if a != b {
        assert_eq!(s.bus_count(), 2);
    }
    let got = s.get_bus(a.as_u128()).unwrap();
    assert_eq!(uuid::Uuid::from_u128(got.id), a);
}
