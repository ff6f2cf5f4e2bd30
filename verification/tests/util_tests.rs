use ride_dispatch::util::{cmp_i32, manhattan_dist, Coord, Counter, COORD_LIMIT};
use std::cmp::Ordering;

#[test]
fn distance_is_city_block() {
    let a = Coord::new(1, 2);
    let b = Coord::new(4, -2);
    assert_eq!(a.dist(&b), 7);
    assert_eq!(b.dist(&a), 7);
    assert_eq!(manhattan_dist(&a, &b), 7);
    assert_eq!(a.dist(&a), 0);
}

#[test]
fn distance_between_far_corners_fits() {
    let a = Coord::new(COORD_LIMIT, COORD_LIMIT);
    let b = Coord::new(-COORD_LIMIT, -COORD_LIMIT);
    assert!(a.is_in_range());
    assert!(b.is_in_range());
    assert_eq!(a.dist(&b), 2147483644);
}

#[test]
fn range_ends_at_the_limit() {
    assert!(Coord::new(COORD_LIMIT, 0).is_in_range());
    assert!(!Coord::new(COORD_LIMIT + 1, 0).is_in_range());
    assert!(!Coord::new(0, -COORD_LIMIT - 1).is_in_range());
}

#[test]
fn origin_is_the_default() {
    assert_eq!(Coord::default(), Coord::new(0, 0));
    assert!(Coord::default().is_origin());
    assert!(!Coord::new(0, 1).is_origin());
    assert!(!Coord::new(-1, 0).is_origin());
}

#[test]
fn coordinates_compare_by_components() {
    assert_eq!(Coord::new(3, 4), Coord::new(3, 4));
    assert_ne!(Coord::new(3, 4), Coord::new(4, 3));
}

#[test]
fn three_way_comparison() {
    assert_eq!(cmp_i32(1, 2), Ordering::Less);
    assert_eq!(cmp_i32(2, 1), Ordering::Greater);
    assert_eq!(cmp_i32(-5, -5), Ordering::Equal);
    assert_eq!(cmp_i32(i32::MIN, i32::MAX), Ordering::Less);
}

#[test]
fn counter_from_zero() {
    let mut c = Counter::start_zero();
    assert_eq!(c.cur(), 0);
    assert!(c.is_start());
    c.inc();
    assert_eq!(c.cur(), 1);
    assert!(!c.is_start());
}

#[test]
fn counter_from_one() {
    let mut c = Counter::start_one();
    assert_eq!(c.cur(), 1);
    assert!(c.is_start());
    c.inc();
    c.inc();
    assert_eq!(c.cur(), 3);
    assert!(!c.is_start());
}
