use sm_executor::scheduler::Limits;

#[test]
fn without_caps_every_machine_is_driven() {
    let limits = Limits::unbounded();
    assert_eq!(limits.pick_drivers(&vec![1, 1, 2], &vec![1, 2, 3]), vec![true, true, true]);
    assert_eq!(limits.pick_drivers(&vec![], &vec![]), Vec::<bool>::new());
    assert_eq!(limits.module_cap(1), None);
}

#[test]
fn global_cap_bounds_the_drivers() {
    let limits = Limits { global: Some(3), per_module: vec![] };
    assert_eq!(limits.pick_drivers(&vec![9], &vec![1, 2, 3, 4]), vec![true, true, false, false]);
    assert_eq!(limits.pick_drivers(&vec![9, 9, 9], &vec![1]), vec![false]);
    assert_eq!(limits.pick_drivers(&vec![9, 9, 9, 9], &vec![1]), vec![false]);
    let none = Limits { global: Some(0), per_module: vec![] };
    assert_eq!(none.pick_drivers(&vec![], &vec![1, 2]), vec![false, false]);
}

#[test]
fn module_cap_bounds_the_drivers_of_a_module() {
    let limits = Limits { global: None, per_module: vec![(1, 2), (2, 0), (1, 100)] };
    assert_eq!(limits.module_cap(1), Some(2));
    assert_eq!(limits.module_cap(2), Some(0));
    assert_eq!(limits.module_cap(3), None);
    assert_eq!(
        limits.pick_drivers(&vec![1], &vec![1, 1, 3, 2, 3, 1]),
        vec![true, false, true, false, true, false]
    );
}

#[test]
fn both_caps_hold_together() {
    let limits = Limits { global: Some(3), per_module: vec![(1, 1)] };
    assert_eq!(
        limits.pick_drivers(&vec![], &vec![1, 1, 2, 2, 2]),
        vec![true, false, true, true, false]
    );
}
