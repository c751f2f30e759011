use tree_cycles::node::Node;
use tree_cycles::tree::Tree;
use tree_cycles::tree_enum::TreesEnum;
use tree_cycles::tree_index::TreeIndex;

const CENTER: TreeIndex = TreeIndex(TreesEnum::Center, 0);

fn first(i: usize) -> TreeIndex {
    TreeIndex(TreesEnum::First, i)
}
fn second(i: usize) -> TreeIndex {
    TreeIndex(TreesEnum::Second, i)
}
fn third(i: usize) -> TreeIndex {
    TreeIndex(TreesEnum::Third, i)
}

fn demo() -> Tree {
    let mut t = Tree::empty();
    let offsets = [0, 35, 71, 106];
    for i in 0..4 {
        let step = 50 * i as i32;
        t.add_node(TreesEnum::First, Node::from_pos(0, -50 - step));
        t.add_node(TreesEnum::Second, Node::from_pos(-50 - offsets[i], 50 + offsets[i]));
        t.add_node(TreesEnum::Third, Node::from_pos(50 + offsets[i], 50 + offsets[i]));
    }
    t
}

fn one_per_branch(a: (i32, i32), b: (i32, i32), c: (i32, i32)) -> Tree {
    let mut t = Tree::empty();
    t.add_node(TreesEnum::First, Node::from_pos(a.0, a.1));
    t.add_node(TreesEnum::Second, Node::from_pos(b.0, b.1));
    t.add_node(TreesEnum::Third, Node::from_pos(c.0, c.1));
    t
}

#[test]
fn target_four_returns_the_seed() {
    let t = one_per_branch((0, 10), (-10, -5), (10, -5));
    assert_eq!(t.find_cycle(4), Ok(vec![CENTER, first(0), second(0), third(0)]));
}

#[test]
fn target_below_the_seed_is_unreachable() {
    let t = one_per_branch((0, 10), (-10, -5), (10, -5));
    assert_eq!(t.find_cycle(3), Err(()));
    assert_eq!(t.find_cycle(0), Err(()));
    assert_eq!(demo().find_cycle(2), Err(()));
}

#[test]
fn target_beyond_the_points_is_unreachable() {
    let t = one_per_branch((0, 10), (-10, -5), (10, -5));
    assert_eq!(t.find_cycle(5), Err(()));
    assert_eq!(demo().find_cycle(14), Err(()));
    assert_eq!(demo().find_cycle(40), Err(()));
}

#[test]
fn seed_keeps_the_first_arrangement_when_simple() {
    let t = demo();
    assert_eq!(t.center_triangle(), vec![CENTER, first(0), second(0), third(0)]);
    assert!(t.verify_valid_4th(&t.center_triangle()));
}

#[test]
fn seed_swaps_the_first_two() {
    let t = one_per_branch((10, 0), (0, 10), (10, 10));
    assert!(!t.verify_valid_4th(&[CENTER, first(0), second(0), third(0)]));
    assert_eq!(t.center_triangle(), vec![first(0), CENTER, second(0), third(0)]);
}

#[test]
fn seed_swaps_twice() {
    let t = one_per_branch((10, 10), (0, 10), (10, 0));
    assert_eq!(t.center_triangle(), vec![first(0), second(0), CENTER, third(0)]);
    assert!(t.verify_valid_4th(&t.center_triangle()));
}

#[test]
fn start_cycle_takes_the_last_points() {
    let t = demo();
    assert_eq!(t.start_cycle(), vec![CENTER, first(3), second(3), third(3)]);
}

#[test]
fn special_nodes() {
    assert!(demo().find_special_nodes().is_empty());
    let t = one_per_branch((0, 10), (-10, -5), (10, -5));
    assert_eq!(t.find_special_nodes(), vec![CENTER, first(0), second(0), third(0)]);
}

#[test]
fn growth_on_the_demo_structure() {
    let t = demo();
    assert_eq!(t.find_cycle(5), Ok(vec![CENTER, first(0), first(1), second(0), third(0)]));
    assert_eq!(
        t.find_cycle(8),
        Ok(vec![CENTER, first(0), third(1), first(3), first(2), first(1), second(0), third(0)])
    );
    assert_eq!(
        t.find_cycle(13),
        Ok(vec![
            CENTER,
            first(0),
            third(1),
            second(1),
            second(2),
            second(3),
            third(3),
            third(2),
            first(3),
            first(2),
            first(1),
            second(0),
            third(0),
        ])
    );
}

#[test]
fn grown_cycles_have_no_repeated_vertex() {
    let t = demo();
    for length in 4..14 {
        let cycle = t.find_cycle(length).unwrap();
        assert_eq!(cycle.len(), length);
        for i in 0..cycle.len() {
            for j in i + 1..cycle.len() {
                assert_ne!(cycle[i], cycle[j]);
            }
        }
    }
}

#[test]
fn smallest_triangle_on_the_demo_structure() {
    assert_eq!(demo().find_smallest_triangle(), vec![first(0), CENTER, second(0), third(0)]);
}

#[test]
fn smallest_triangle_takes_the_nearest_of_each_branch() {
    let mut t = Tree::empty();
    t.add_node(TreesEnum::First, Node::from_pos(0, 30));
    t.add_node(TreesEnum::First, Node::from_pos(0, 10));
    t.add_node(TreesEnum::Second, Node::from_pos(-20, -5));
    t.add_node(TreesEnum::Second, Node::from_pos(-10, -5));
    t.add_node(TreesEnum::Third, Node::from_pos(10, -5));
    assert_eq!(t.find_smallest_triangle(), vec![first(1), CENTER, second(1), third(0)]);
}

#[test]
fn smallest_triangle_keeps_a_crossing_order() {
    let t = one_per_branch((0, 10), (-10, -5), (-20, -10));
    assert_eq!(t.find_smallest_triangle(), vec![CENTER, first(0), second(0), third(0)]);
    let u = one_per_branch((10, 0), (0, 10), (10, 10));
    assert_eq!(u.find_smallest_triangle(), vec![CENTER, first(0), second(0), third(0)]);
}

#[test]
fn smallest_triangle_is_empty_when_a_branch_is_hidden() {
    let mut t = Tree::empty();
    t.add_node(TreesEnum::First, Node::from_pos(5, 5));
    t.add_node(TreesEnum::First, Node::from_pos(5, -5));
    t.add_node(TreesEnum::Second, Node::from_pos(-10, 0));
    t.add_node(TreesEnum::Third, Node::from_pos(10, 0));
    assert!(t.find_smallest_triangle().is_empty());
}

fn two_per_branch() -> Tree {
    let mut t = Tree::empty();
    for (b, x, y) in [
        (TreesEnum::First, 1, -2),
        (TreesEnum::First, 2, -3),
        (TreesEnum::Second, -3, 5),
        (TreesEnum::Second, 1, 2),
        (TreesEnum::Third, 2, 1),
        (TreesEnum::Third, 0, 4),
    ] {
        t.add_node(b, Node::from_pos(x, y));
    }
    t
}

#[test]
fn special_nodes_are_taken_first() {
    let t = two_per_branch();
    assert_eq!(t.find_special_nodes(), vec![first(1), third(1)]);
    assert_eq!(t.find_cycle(5), Ok(vec![CENTER, first(1), first(0), second(0), third(0)]));
    assert_eq!(
        t.find_cycle(6),
        Ok(vec![CENTER, first(1), first(0), second(0), third(1), third(0)])
    );
    assert_eq!(
        t.find_cycle(7),
        Ok(vec![CENTER, first(1), first(0), second(0), second(1), third(1), third(0)])
    );
    assert_eq!(t.find_cycle(8), Err(()));
}

#[test]
fn seed_is_a_simple_quadrilateral_in_general_position() {
    let configs = [
        ((0, 10), (-10, -5), (10, -5)),
        ((10, 0), (0, 10), (10, 10)),
        ((10, 10), (0, 10), (10, 0)),
        ((3, 1), (-2, 7), (5, -4)),
        ((-1, -1), (1, -3), (2, 5)),
    ];
    for (a, b, c) in configs {
        let t = one_per_branch(a, b, c);
        let seed = t.center_triangle();
        assert_eq!(seed.len(), 4);
        assert!(t.verify_valid_4th(&seed));
        for index in [CENTER, first(0), second(0), third(0)] {
            assert!(seed.contains(&index));
        }
    }
}

#[test]
fn seed_on_a_line_need_not_be_simple() {
    let t = one_per_branch((0, 1), (0, 3), (0, 2));
    let seed = t.center_triangle();
    assert_eq!(seed, vec![first(0), second(0), CENTER, third(0)]);
    assert!(!t.verify_valid_4th(&seed));
}
