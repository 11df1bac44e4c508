use himeno::driver::{is_final_sweep, sweep_plan, BufferRoles};

#[test]
fn plan_has_one_step_per_sweep() {
    for count in [1u32, 2, 5, 9] {
        let plan = sweep_plan(count);
        assert_eq!(plan.len(), count as usize);
        for (n, step) in plan.iter().enumerate() {
            assert_eq!(step.index as usize, n);
            assert_eq!(step.is_final, n as u32 == count - 1);
            assert_eq!(step.read_first, n % 2 == 0);
        }
        // Exactly the last step is final.
        assert_eq!(plan.iter().filter(|s| s.is_final).count(), 1);
        assert!(plan[count as usize - 1].is_final);
    }
}

#[test]
fn zero_sweeps_has_empty_plan() {
    let plan = sweep_plan(0);
    assert_eq!(plan.len(), 0);
}

#[test]
fn is_final_sweep_marks_last_only() {
    assert!(is_final_sweep(4, 5));
    assert!(!is_final_sweep(3, 5));
    assert!(is_final_sweep(0, 1));
}

#[test]
fn buffer_roles_alternate() {
    let mut roles = BufferRoles::new();
    assert!(roles.cur_is_first);
    roles.swap();
    assert!(!roles.cur_is_first);
    roles.swap();
    assert!(roles.cur_is_first);
}
