//! Geometry tests. Coordinates are fixed-point thousandths of a unit:
//! `4000` stands for `4.0`. An area multiplies two lengths, so it carries
//! six fractional digits: `24_000_000` stands for `24.0`.

use game::world::{Area, Point};

#[test]
fn area_new() {
    let area = Area::new(4000, 5000, 3000, 8000);
    assert_eq!(area.x, 4000);
    assert_eq!(area.y, 5000);
    assert_eq!(area.width, 3000);
    assert_eq!(area.height, 8000);
    assert_eq!(area.top, 5000);
    assert_eq!(area.bottom, 13000);
    assert_eq!(area.left, 4000);
    assert_eq!(area.right, 7000);
}

#[test]
fn area_area() {
    let area = Area::new(4000, 5000, 3000, 8000);
    assert_eq!(area.area(), 24_000_000);
}

#[test]
fn area_contains_point() {
    let area = Area::new(4000, 5000, 3000, 8000);

    let p = Point(1000, 1000);
    assert!(!area.contains(&p));

    let p = Point(5000, 1000);
    assert!(!area.contains(&p));

    let p = Point(11000, 1000);
    assert!(!area.contains(&p));

    let p = Point(1000, 6000);
    assert!(!area.contains(&p));

    let p = Point(5000, 6000);
    assert!(area.contains(&p));

    let p = Point(11000, 6000);
    assert!(!area.contains(&p));

    let p = Point(1000, 14000);
    assert!(!area.contains(&p));

    let p = Point(5000, 14000);
    assert!(!area.contains(&p));

    let p = Point(11000, 14000);
    assert!(!area.contains(&p));
}

#[test]
fn area_collision() {
    let area = Area::new(4000, 5000, 3000, 8000);
    let other = Area::new(14000, 15000, 3000, 8000);
    assert_eq!(area.collision(&other), false);

    let other = Area::new(14000, 15000, 3000, 8000);
    assert_eq!(area.collision(&other), false);

    let other = Area::new(3000, 4000, 3000, 8000);
    assert_eq!(area.collision(&other), true);
}

#[test]
fn area_enlarge() {
    let area = Area::new(4000, 5000, 3000, 8000);
    let enlarged = area.enlarge(500);
    let expected = Area::new(3500, 4500, 4000, 9000);
    assert_eq!(enlarged, expected);
}

#[test]
fn area_shrink() {
    let area = Area::new(4000, 5000, 3000, 8000);
    let shrinked = area.shrink(500);
    let expected = Area::new(4500, 5500, 2000, 7000);
    assert_eq!(shrinked, expected);
}

#[test]
fn area_scale() {
    // scaling keeps the center (6.0, 9.0) and multiplies the size
    let area = Area::new(4000, 5000, 4000, 8000);
    let scaled = area.scale(500);
    let expected = Area::new(5000, 7000, 2000, 4000);
    assert_eq!(scaled, expected);

    let scaled = area.scale(2000);
    let expected = Area::new(2000, 1000, 8000, 16000);
    assert_eq!(scaled, expected);
}

#[test]
fn area_construction_invariant() {
    // right - left == width, bottom - top == height, area == width * height
    let area = Area::new(-2500, 1250, 7750, 333);
    assert_eq!(area.right - area.left, area.width);
    assert_eq!(area.bottom - area.top, area.height);
    assert_eq!(area.area(), area.width * area.height);
}

#[test]
fn area_boundary_points_contained() {
    let area = Area::new(4000, 5000, 3000, 8000);
    assert!(area.contains(&Point(area.left, 6000)));
    assert!(area.contains(&Point(area.right, 6000)));
    assert!(area.contains(&Point(5000, area.top)));
    assert!(area.contains(&Point(5000, area.bottom)));
    // the four corners lie on two bounds at once
    assert!(area.contains(&Point(area.left, area.top)));
    assert!(area.contains(&Point(area.right, area.bottom)));
}

#[test]
fn area_collision_misses_enclosing_box() {
    // the corner-sampling heuristic: a box strictly inside another sees no
    // corner of the larger box, so it reports no collision even though the
    // boxes overlap; the reverse direction does see a corner
    let inner = Area::new(4000, 4000, 2000, 2000);
    let outer = Area::new(0, 0, 100_000, 100_000);
    assert_eq!(inner.collision(&outer), false);
    assert_eq!(outer.collision(&inner), true);
}

#[test]
fn area_touching_edges_do_not_collide() {
    // zero-area overlap: the boxes share only an edge
    let a = Area::new(0, 0, 4000, 4000);
    let b = Area::new(4000, 0, 4000, 4000);
    assert_eq!(a.collision(&b), false);
}

#[test]
fn area_enlarge_zero_is_identity() {
    let area = Area::new(4000, 5000, 3000, 8000);
    assert_eq!(area.enlarge(0), area);
}

#[test]
fn area_shrink_is_enlarge_negated() {
    let area = Area::new(4000, 5000, 3000, 8000);
    assert_eq!(area.shrink(700), area.enlarge(-700));
    assert_eq!(area.shrink(-700), area.enlarge(700));
}

#[test]
fn area_scale_one_is_identity() {
    let area = Area::new(4000, 5000, 4000, 8000);
    assert_eq!(area.scale(1000), area);
    let odd = Area::new(-2500, 1250, 7751, 333);
    assert_eq!(odd.scale(1000), odd);
}

#[test]
fn area_scale_keeps_center() {
    // center (6.0, 9.0), doubled: (12000, 18000)
    let area = Area::new(4000, 5000, 4000, 8000);
    for factor in [250, 500, 1500, 2000, 3000] {
        let scaled = area.scale(factor);
        assert_eq!(2 * scaled.x + scaled.width, 2 * area.x + area.width);
        assert_eq!(2 * scaled.y + scaled.height, 2 * area.y + area.height);
    }
}

#[test]
fn area_intersect_region() {
    let a = Area::new(0, 0, 6000, 6000);
    let b = Area::new(4000, 4000, 6000, 6000);
    let region = a.intersect(&b).unwrap();
    assert_eq!(region, Area::new(4000, 4000, 2000, 2000));
    assert_eq!(a.intersect(&Area::new(20000, 20000, 1000, 1000)), None);
}
