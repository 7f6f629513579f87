use dnd_cli::domain::hit_points::HitPoints;

fn pools(hit_points: &HitPoints) -> (isize, isize, isize) {
    (hit_points.current(), hit_points.max(), hit_points.temporary())
}

#[test]
fn hit_points_start_empty() {
    assert_eq!(pools(&HitPoints::default()), (0, 0, 0));
    assert!(!HitPoints::default().is_conscious());
}

#[test]
fn add_temporary_heals_by_the_same_amount() {
    let mut hit_points = HitPoints::new(5, 10, 0);
    hit_points.add_temporary(5);
    assert_eq!(hit_points.temporary(), 5);
    assert_eq!(hit_points.current(), 10);
    assert_eq!(hit_points.max(), 10);
    assert_eq!(hit_points.get_modified_max(), 15);
}

#[test]
fn add_temporary_is_clamped_to_the_new_limit() {
    let mut hit_points = HitPoints::new(10, 10, 0);
    hit_points.add_temporary(3);
    assert_eq!(pools(&hit_points), (13, 10, 3));
    hit_points.add_temporary(-3);
    assert_eq!(pools(&hit_points), (10, 10, 0));
}

#[test]
fn reset_restores_the_maximum() {
    let cases: Vec<(isize, isize, isize)> =
        vec![(5, 10, 0), (0, 10, 5), (15, 10, 5), (-3, 7, -2), (100, 0, 0), (3, -4, 9)];
    for (current, max, temporary) in cases {
        let mut hit_points = HitPoints::new(current, max, temporary);
        hit_points.reset();
        assert_eq!(hit_points.current(), max);
        assert_eq!(hit_points.max(), max);
        assert_eq!(hit_points.temporary(), 0);
    }
}

#[test]
fn reset_temporary_lowers_current_to_the_maximum() {
    let mut hit_points = HitPoints::new(13, 10, 5);
    hit_points.reset_temporary();
    assert_eq!(pools(&hit_points), (10, 10, 0));

    let mut hit_points = HitPoints::new(4, 10, 5);
    hit_points.reset_temporary();
    assert_eq!(pools(&hit_points), (4, 10, 0));
}

#[test]
fn add_current_stops_at_the_modified_maximum() {
    let mut hit_points = HitPoints::new(5, 10, 2);
    assert!(hit_points.add_current(4));
    assert_eq!(hit_points.current(), 9);
    assert!(hit_points.add_current(100));
    assert_eq!(hit_points.current(), 12);
}

#[test]
fn add_current_stops_at_zero() {
    let mut hit_points = HitPoints::new(5, 10, 0);
    assert!(hit_points.add_current(-4));
    assert_eq!(hit_points.current(), 1);
    assert!(!hit_points.add_current(-4));
    assert_eq!(hit_points.current(), 0);
    assert!(!hit_points.is_conscious());
}

#[test]
fn add_current_takes_sums_beyond_the_machine_range() {
    let mut hit_points = HitPoints::new(isize::MAX - 1, isize::MAX, 0);
    assert!(hit_points.can_add_current(isize::MAX));
    assert!(hit_points.add_current(isize::MAX));
    assert_eq!(hit_points.current(), isize::MAX);

    let mut hit_points = HitPoints::new(-5, 10, 0);
    assert!(hit_points.can_add_current(isize::MIN));
    assert!(!hit_points.add_current(isize::MIN));
    assert_eq!(hit_points.current(), 0);
}

#[test]
fn add_current_with_a_negative_limit_goes_below_zero() {
    let mut hit_points = HitPoints::new(0, -3, 0);
    assert!(!hit_points.add_current(5));
    assert_eq!(hit_points.current(), -3);
}

#[test]
fn increase_max_has_no_floor() {
    let mut hit_points = HitPoints::new(5, 10, 0);
    hit_points.increase_max(7);
    assert_eq!(pools(&hit_points), (5, 17, 0));
    hit_points.increase_max(-20);
    assert_eq!(pools(&hit_points), (5, -3, 0));
}

#[test]
fn range_checks_of_hit_points() {
    let hit_points = HitPoints::new(0, isize::MAX, 1);
    assert!(!hit_points.can_increase_max(1));
    assert!(hit_points.can_increase_max(-1));
    assert!(hit_points.can_increase_max(0));
    assert!(hit_points.can_add_current(5));
    assert!(!hit_points.can_add_temporary(isize::MAX));
    assert!(hit_points.can_add_temporary(-1));

    let hit_points = HitPoints::new(0, isize::MAX, isize::MAX);
    assert!(hit_points.can_add_current(5));
    assert!(hit_points.can_add_current(isize::MAX));

    let hit_points = HitPoints::new(0, isize::MIN, -1);
    assert!(!hit_points.can_add_current(1));
}

#[test]
fn conscious_means_current_above_zero() {
    assert!(HitPoints::new(1, 1, 0).is_conscious());
    assert!(!HitPoints::new(0, 1, 0).is_conscious());
    assert!(!HitPoints::new(-1, 1, 0).is_conscious());
}
