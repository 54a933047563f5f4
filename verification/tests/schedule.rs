use nbody::schedule::{substeps, SUBSTEP_CAP};

#[test]
fn cap_is_four() {
    assert_eq!(SUBSTEP_CAP, 4);
}

#[test]
fn ten_steps_take_three_substeps() {
    // 0.04 s of wall-clock time at double speed, with the base timestep
    // 0.008: ten whole base timesteps fit.
    let desired_steps = 10;
    let count = substeps(desired_steps);
    assert_eq!(count, 3);
    // The frame's simulated time is spread evenly over the substeps.
    let total: f64 = 0.04 * 2.0;
    let adjusted_dt = total / count as f64;
    assert!((count as f64 * adjusted_dt - 0.08).abs() < 1e-12);
}

#[test]
fn no_steps_no_substeps() {
    assert_eq!(substeps(0), 0);
}

#[test]
fn substeps_round_up() {
    assert_eq!(substeps(1), 1);
    assert_eq!(substeps(2), 1);
    assert_eq!(substeps(3), 1);
    assert_eq!(substeps(4), 1);
    assert_eq!(substeps(5), 2);
    assert_eq!(substeps(8), 2);
    assert_eq!(substeps(9), 3);
    assert_eq!(substeps(400), 100);
    assert_eq!(substeps(401), 101);
}

#[test]
fn substeps_of_the_largest_count() {
    assert_eq!(substeps(usize::MAX), usize::MAX / 4 + 1);
    assert_eq!(substeps(usize::MAX - 3), usize::MAX / 4);
}

#[test]
fn substeps_cover_the_steps_with_none_to_spare() {
    for desired in 0usize..1000 {
        let count = substeps(desired);
        assert!(count * SUBSTEP_CAP >= desired);
        if count > 0 {
            assert!((count - 1) * SUBSTEP_CAP < desired);
        }
        assert_eq!(count == 0, desired == 0);
        assert!(count <= substeps(desired + 1));
    }
}
