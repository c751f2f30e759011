use tree_cycles::node::Node;
use tree_cycles::tree::{Tree, Triangle};
use tree_cycles::tree_enum::TreesEnum;
use tree_cycles::tree_index::TreeIndex;
use tree_cycles::edge::Edge;
use tree_cycles::vec::Vec2;

const CENTER: TreeIndex = TreeIndex(TreesEnum::Center, 0);

fn first(i: usize) -> TreeIndex {
    TreeIndex(TreesEnum::First, i)
}
fn second(i: usize) -> TreeIndex {
    TreeIndex(TreesEnum::Second, i)
}
fn third(i: usize) -> TreeIndex {
    TreeIndex(TreesEnum::Third, i)
}

fn demo() -> Tree {
    let mut t = Tree::empty();
    let offsets = [0, 35, 71, 106];
    for i in 0..4 {
        let step = 50 * i as i32;
        t.add_node(TreesEnum::First, Node::from_pos(0, -50 - step));
        t.add_node(TreesEnum::Second, Node::from_pos(-50 - offsets[i], 50 + offsets[i]));
        t.add_node(TreesEnum::Third, Node::from_pos(50 + offsets[i], 50 + offsets[i]));
    }
    t
}

#[test]
fn node_constructors_and_squared_distance() {
    assert_eq!(Node::default().pos, Vec2::new(0, 0));
    let a = Node::from_pos(1, 2);
    assert_eq!(a.pos, Vec2::new(1, 2));
    assert_eq!(a.dist_squared(&Node::from_pos(4, 6)), 25);
    assert_eq!(Node::from_pos(i32::MIN, i32::MIN).dist_squared(&Node::from_pos(i32::MAX, i32::MAX)), 2 * (u32::MAX as u128) * (u32::MAX as u128));
}

#[test]
fn branch_order() {
    assert_eq!(TreesEnum::iterator(), vec![TreesEnum::First, TreesEnum::Second, TreesEnum::Third]);
}

#[test]
fn colours() {
    assert!(first(0).same_color(first(3)));
    assert!(first(0).same_color(CENTER));
    assert!(CENTER.same_color(third(2)));
    assert!(!first(0).same_color(second(0)));
}

#[test]
fn triangle_legality() {
    assert_eq!(first(1).makes_triangle((first(0), first(2))), Triangle::AllSame);
    assert_eq!(first(1).makes_triangle((CENTER, first(2))), Triangle::AllSame);
    assert_eq!(CENTER.makes_triangle((first(0), second(2))), Triangle::OneOdd);
    assert_eq!(first(1).makes_triangle((second(0), first(2))), Triangle::OneOdd);
    assert_eq!(first(1).makes_triangle((second(0), second(2))), Triangle::OneOdd);
    assert_eq!(first(1).makes_triangle((second(0), CENTER)), Triangle::OneOdd);
    assert_eq!(first(1).makes_triangle((second(0), third(2))), Triangle::Illegal);
}

#[test]
fn enumeration_counts_and_order() {
    let t = demo();
    let ids = t.iter();
    assert_eq!(ids.len(), 1 + 4 + 4 + 4);
    assert_eq!(ids[0], CENTER);
    assert_eq!(ids[1], first(0));
    assert_eq!(ids[4], first(3));
    assert_eq!(ids[5], second(0));
    assert_eq!(ids[12], third(3));
    let empty = Tree::empty();
    assert_eq!(empty.iter(), vec![CENTER]);
}

#[test]
fn empty_structure_finds_only_the_center() {
    let t = Tree::empty();
    assert_eq!(t.find_node_at_pos(Vec2::new(5, 0), 5), None);
    assert_eq!(t.find_node_at_pos(Vec2::new(100, 100), 3), None);
    assert_eq!(t.find_node_at_pos(Vec2::new(4, 0), 5), Some(CENTER));
}

#[test]
fn find_node_takes_the_first_in_enumeration_order() {
    let t = demo();
    assert_eq!(t.find_node_at_pos(Vec2::new(1, -101), 2), Some(first(1)));
    assert_eq!(t.find_node_at_pos(Vec2::new(0, -75), 30), Some(first(0)));
    assert_eq!(t.find_node_at_pos(Vec2::new(0, -75), 25), None);
    assert_eq!(t.find_node_at_pos(Vec2::new(0, 0), 1000), Some(CENTER));
}

#[test]
fn add_node_appends_and_center_slot_means_first_branch() {
    let mut t = Tree::empty();
    t.add_node(TreesEnum::Third, Node::from_pos(1, 1));
    t.add_node(TreesEnum::Center, Node::from_pos(2, 2));
    t.add_node(TreesEnum::Third, Node::from_pos(3, 3));
    assert_eq!(t.tree1, vec![Node::from_pos(2, 2)]);
    assert!(t.tree2.is_empty());
    assert_eq!(t.tree3, vec![Node::from_pos(1, 1), Node::from_pos(3, 3)]);
}

#[test]
fn move_node_repositions_one_point() {
    let mut t = demo();
    t.move_node(second(2), Vec2::new(7, 8));
    assert_eq!(t.node(second(2)).pos, Vec2::new(7, 8));
    assert_eq!(t.node(second(1)).pos, Vec2::new(-85, 85));
    t.move_node(CENTER, Vec2::new(-1, -1));
    assert_eq!(t.node(CENTER).pos, Vec2::new(-1, -1));
    assert_eq!(t.center.pos, Vec2::new(-1, -1));
}

#[test]
fn structural_edges() {
    let t = demo();
    let e = t.get_tree_edges(TreesEnum::Second);
    assert_eq!(
        e,
        vec![
            Edge(Vec2::new(-50, 50), Vec2::new(-85, 85)),
            Edge(Vec2::new(-85, 85), Vec2::new(-121, 121)),
            Edge(Vec2::new(-121, 121), Vec2::new(-156, 156)),
            Edge(Vec2::new(-50, 50), Vec2::new(0, 0)),
        ]
    );
    let all = t.get_all_edges();
    assert_eq!(all.len(), 12);
    assert_eq!(all[3], Edge(Vec2::new(0, -50), Vec2::new(0, 0)));
    assert_eq!(all[11], Edge(Vec2::new(50, 50), Vec2::new(0, 0)));
}

#[test]
fn single_point_branch_has_only_its_center_edge() {
    let mut t = Tree::empty();
    t.add_node(TreesEnum::First, Node::from_pos(3, 4));
    assert_eq!(t.get_tree_edges(TreesEnum::First), vec![Edge(Vec2::new(3, 4), Vec2::new(0, 0))]);
}

#[test]
fn cycle_edges_close_the_polygon() {
    let t = demo();
    let e = t.get_cycle_edges(&[CENTER, first(0), second(0)]);
    assert_eq!(
        e,
        vec![
            Edge(Vec2::new(0, 0), Vec2::new(0, -50)),
            Edge(Vec2::new(0, -50), Vec2::new(-50, 50)),
            Edge(Vec2::new(-50, 50), Vec2::new(0, 0)),
        ]
    );
    assert!(t.get_cycle_edges(&[]).is_empty());
}

#[test]
fn structural_visibility() {
    let t = demo();
    assert_eq!(
        t.check_node_vis(CENTER),
        vec![first(0), first(1), second(0), second(1), third(0), third(1)]
    );
    assert_eq!(
        t.check_node_vis(first(3)),
        vec![first(1), first(2), second(0), second(1), second(2), second(3), third(0), third(1), third(2), third(3)]
    );
}

#[test]
fn visibility_never_holds_the_source() {
    let t = demo();
    for index in t.iter() {
        assert!(!t.check_node_vis(index).contains(&index));
        assert!(!t.check_node_vis_from_edge(index, vec![]).contains(&index));
    }
}

#[test]
fn visibility_against_cycle_edges() {
    let t = demo();
    let seed = t.center_triangle();
    assert_eq!(
        t.check_node_vis_cycle(first(0), &seed),
        vec![CENTER, first(1), first(2), first(3), second(0), second(1), second(2), second(3), third(0), third(1), third(2), third(3)]
    );
    assert_eq!(
        t.check_node_vis_cycle_org(first(0), &seed),
        vec![CENTER, first(1), first(2), second(0), second(1), second(2), second(3), third(0), third(1), third(2), third(3)]
    );
}

#[test]
fn visibility_with_no_obstacles_is_everything_else() {
    let t = demo();
    let v = t.check_node_vis_from_edge(second(1), vec![]);
    assert_eq!(v.len(), 12);
    assert!(!v.contains(&second(1)));
}
