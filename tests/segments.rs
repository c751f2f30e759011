use tree_cycles::edge::Edge;
use tree_cycles::vec::Vec2;

fn seg(ax: i32, ay: i32, bx: i32, by: i32) -> Edge {
    Edge(Vec2::new(ax, ay), Vec2::new(bx, by))
}

#[test]
fn perpendicular_segments_cross_at_origin() {
    assert!(seg(-1, 0, 1, 0).intersects(seg(0, -1, 0, 1)));
}

#[test]
fn collinear_disjoint_segments_do_not_intersect() {
    assert!(!seg(-1, 0, 1, 0).intersects(seg(2, 0, 3, 0)));
}

#[test]
fn segment_intersects_itself() {
    let diagonal = seg(1, 2, 7, -3);
    assert!(diagonal.intersects(diagonal));
    let horizontal = seg(-4, 5, 9, 5);
    assert!(horizontal.intersects(horizontal));
    let vertical = seg(3, -2, 3, 8);
    assert!(vertical.intersects(vertical));
}

#[test]
fn point_segment_does_not_intersect_itself() {
    let point = seg(1, 1, 1, 1);
    assert!(!point.intersects(point));
}

#[test]
fn intersection_is_symmetric_for_crossing_pairs() {
    let pairs = [
        (seg(-1, 0, 1, 0), seg(0, -1, 0, 1)),
        (seg(0, 0, 10, 10), seg(0, 10, 10, 0)),
        (seg(0, 0, 4, 1), seg(5, 5, 6, -7)),
        (seg(0, 0, 2, 2), seg(3, 0, 5, 2)),
    ];
    for (a, b) in pairs {
        assert_eq!(a.intersects(b), b.intersects(a));
    }
}

#[test]
fn collinear_test_projects_only_the_second_start() {
    let short = seg(0, 0, 1, 0);
    let long = seg(-1, 0, 2, 0);
    assert!(!short.intersects(long));
    assert!(long.intersects(short));
}

#[test]
fn shared_endpoint_counts_as_intersection() {
    assert!(seg(0, 0, 1, 0).intersects(seg(1, 0, 1, 1)));
    assert!(seg(0, 0, 1, 0).intersects(seg(0, 0, -3, 4)));
    assert!(seg(0, 0, 2, 3).intersects(seg(5, 1, 2, 3)));
    assert!(seg(4, 4, 2, 3).intersects(seg(5, 1, 2, 3)));
}

#[test]
fn parallel_segments_do_not_intersect() {
    assert!(!seg(0, 0, 10, 0).intersects(seg(0, 1, 10, 1)));
    assert!(!seg(0, 0, 3, 3).intersects(seg(1, 0, 4, 3)));
}

#[test]
fn collinear_overlap_on_each_axis() {
    assert!(seg(0, 0, 2, 0).intersects(seg(1, 0, 3, 0)));
    assert!(seg(0, 0, 0, 2).intersects(seg(0, 1, 0, 3)));
    assert!(seg(0, 0, 4, 4).intersects(seg(2, 2, 9, 9)));
    assert!(!seg(0, 0, 0, 2).intersects(seg(0, 3, 0, 5)));
}

#[test]
fn crossing_outside_either_segment_is_no_intersection() {
    assert!(!seg(0, 0, 1, 0).intersects(seg(5, -1, 5, 1)));
    assert!(!seg(0, 0, 10, 0).intersects(seg(5, 1, 5, 3)));
}

#[test]
fn large_coordinates_do_not_overflow() {
    let a = seg(i32::MIN, i32::MIN, i32::MAX, i32::MAX);
    let b = seg(i32::MIN, i32::MAX, i32::MAX, i32::MIN);
    assert!(a.intersects(b));
    assert!(b.intersects(a));
}

#[test]
fn vec2_from_a_pair() {
    let v = Vec2::from((3, -4));
    assert_eq!(v, Vec2::new(3, -4));
    assert_eq!(v.x, 3);
    assert_eq!(v.y, -4);
}
