use barnes_hut::body::Body;
use barnes_hut::bound::Bound;
use barnes_hut::quadtree::{Cluster, Node, QuadTree};
use barnes_hut::traversal::Theta;
use barnes_hut::vec_2d::Vec2D;

fn tree_of(bound: Bound, bodies: &[Body]) -> QuadTree {
    let mut tree = QuadTree::new(bound);
    for b in bodies {
        tree.insert(*b);
    }
    tree
}

fn pm(x: i32, y: i32, mass: u64) -> Cluster {
    Cluster::from_body(&Body::new(x, y, mass))
}

/// True iff the point mass sits exactly at `p`.
fn at(c: &Cluster, p: Vec2D) -> bool {
    c.moment_x == c.mass as i128 * p.x as i128 && c.moment_y == c.mass as i128 * p.y as i128
}

#[test]
fn quadtree_create_and_insert() {
    let mut tree = QuadTree::new(Bound::new(0, 0, 10, 10));
    let bodies = vec![
        Body::new(1, 1, 1),
        Body::new(8, 2, 1),
        Body::new(8, 4, 1),
        Body::new(8, 8, 1),
    ];
    bodies.iter().for_each(|b| tree.insert(*b));
    assert_eq!(tree.leaf_bodies(), bodies);
    assert_eq!(tree.mass(), 4);
    println!("{:#?}", tree)
}

#[test]
fn mod_create_and_insert() {
    // Five bodies with positions and masses in tenths of a unit.
    let bodies = vec![
        Body::new(540, 260, 157),
        Body::new(470, 210, 56),
        Body::new(80, 970, 625),
        Body::new(517, 523, 10000),
        Body::new(640, 720, 10),
    ];
    let mut tree = QuadTree::new(Bound::new(0, 0, 1000, 1000));
    bodies.iter().for_each(|b| tree.insert_rec(*b));
    assert_eq!(tree.leaf_bodies().len(), 5);
    assert_eq!(tree.mass(), 157 + 56 + 625 + 10000 + 10);
    for b in &bodies {
        let close = tree.close_bodies(b, Theta::half());
        assert!(!close.is_empty());
        assert!(close.iter().all(|c| !at(c, b.position)));
    }
    println!("{:#?}", tree);
}

#[test]
fn bench() {
    // Bodies at (i / 350, i / 600) in a 350 x 600 region, in units of 1/4200.
    let items: i32 = 10000;
    let mut bodies = Vec::new();
    for i in 0..items {
        bodies.push(Body::new(12 * i, 7 * i, 1));
    }
    let mut tree = QuadTree::new(Bound::new(0, 0, 350 * 4200, 600 * 4200));
    bodies.iter().for_each(|b| tree.insert_rec(*b));
    // The first body sits on the corner of the region and is left out.
    assert_eq!(tree.leaf_bodies().len(), (items - 1) as usize);
    let mut visited = 0usize;
    for body in bodies.iter() {
        visited += tree.close_bodies(body, Theta::half()).len();
    }
    assert!(visited > 0);
}

#[test]
fn test_distance_between_bodies() {
    // (-7, -4) and (17, 6.5), in half units.
    let a = Body::new(-14, -8, 1);
    let b = Body::new(34, 13, 1);
    // sqrt(48² + 21²) = sqrt(2745) = 52.39...
    assert_eq!(a.dist(&b), 52);
    assert_eq!(b.dist(&a), 52);
}

#[test]
fn empty_world_exerts_nothing() {
    let tree = QuadTree::new(Bound::new(0, 0, 100, 100));
    assert!(matches!(tree.node, Node::Empty));
    for (x, y) in [(50, 50), (1, 99), (-20, 300)] {
        assert!(tree.close_bodies(&Body::new(x, y, 1), Theta::half()).is_empty());
    }
    assert_eq!(tree.mass(), 0);
}

#[test]
fn single_body_becomes_external() {
    let b = Body::new(50, 50, 1);
    let tree = tree_of(Bound::new(0, 0, 100, 100), &[b]);
    match tree.node {
        Node::External(ref c) => assert_eq!(*c, b),
        _ => panic!("expected a leaf"),
    }
    assert!(tree.close_bodies(&b, Theta::half()).is_empty());
    assert!(tree.close_bodies(&b, Theta::exact()).is_empty());
}

#[test]
fn two_far_bodies_see_each_other() {
    let a = Body::new(0, 0, 10_000_000_000);
    let b = Body::new(50, 0, 1);
    let tree = tree_of(Bound::new(-100, -100, 200, 200), &[a, b]);
    assert_eq!(tree.close_bodies(&b, Theta::half()), vec![pm(0, 0, 10_000_000_000)]);
    assert_eq!(tree.close_bodies(&a, Theta::half()), vec![pm(50, 0, 1)]);
    // The kernel with no softening gives G·1e10·1/50² on B, along -x.
    let g = 6.674e-11_f64;
    let f: f64 = tree
        .close_bodies(&b, Theta::half())
        .iter()
        .map(|c| {
            let cx = c.moment_x as f64 / c.mass as f64;
            let dx = cx - b.position.x as f64;
            let r = dx.abs();
            g * (b.mass as f64) * (c.mass as f64) / (r * r) * dx / r
        })
        .sum();
    let expected = g * 1e10 / 2500.0;
    assert!((f + expected).abs() < 1e-12 * expected);
    let v = 1e-3 * f / (b.mass as f64);
    assert!((v + 1e-3 * expected).abs() < 1e-12 * expected);
}

#[test]
fn opening_criterion_descends_below_root() {
    let group = [
        Body::new(1, 1, 1),
        Body::new(2, 1, 1),
        Body::new(1, 2, 1),
        Body::new(2, 2, 1),
    ];
    let tree = tree_of(Bound::new(0, 0, 64, 64), &group);
    let group_cluster = Cluster { mass: 4, moment_x: 6, moment_y: 6 };
    match tree.node {
        Node::Internal { ref cluster, ref nw, .. } => {
            assert_eq!(*cluster, group_cluster);
            match nw.node {
                Node::Internal { ref cluster, .. } => assert_eq!(*cluster, group_cluster),
                _ => panic!("expected the group to be subdivided"),
            }
        }
        _ => panic!("expected an internal root"),
    }
    // Seen from (50, 50), the centre of mass (1.5, 1.5) is 68.59 away. At the
    // root s/d = 64/68.59 is not below θ = 1/2 and the traversal descends; the
    // NW quadrant (s = 32, 32/68.59 < 1/2) stands for the group: mass 4 at
    // (6/4, 6/4) = (1.5, 1.5).
    let probe = Body::new(50, 50, 1);
    assert_eq!(tree.close_bodies(&probe, Theta::half()), vec![group_cluster]);
    // With θ = 0 every body acts on its own, quadrants in the order NW, NE,
    // SW, SE.
    assert_eq!(
        tree.close_bodies(&probe, Theta::exact()),
        vec![pm(1, 1, 1), pm(2, 1, 1), pm(1, 2, 1), pm(2, 2, 1)]
    );
}

#[test]
fn opening_uses_the_exact_centre_of_mass() {
    // Two bodies at (0, 1) and (1, 1): centre of mass (0.5, 1), at distance
    // 2.5 from (3, 1); the centre rounded to the grid would be 3 away.
    let tree = tree_of(
        Bound::new(-1, -1, 4, 4),
        &[Body::new(0, 1, 1), Body::new(1, 1, 1)],
    );
    let probe = Body::new(3, 1, 1);
    let both = Cluster { mass: 2, moment_x: 1, moment_y: 2 };
    // s/d = 4/2.5 = 1.6 at the root: far for θ = 17/10, not for θ = 8/5
    // (4/3 would be far for both).
    assert_eq!(tree.close_bodies(&probe, Theta { num: 17, den: 10 }), vec![both]);
    assert_eq!(tree.close_bodies(&probe, Theta { num: 8, den: 5 }).len(), 2);
}

#[test]
fn coincident_bodies_merge_into_one_leaf() {
    let tree = tree_of(
        Bound::new(0, 0, 20, 20),
        &[Body::new(10, 10, 2), Body::new(10, 10, 3)],
    );
    match tree.node {
        Node::External(ref c) => assert_eq!(*c, Body::new(10, 10, 5)),
        _ => panic!("expected a single leaf"),
    }
    let single = tree_of(Bound::new(0, 0, 20, 20), &[Body::new(10, 10, 5)]);
    let probe = Body::new(15, 15, 1);
    assert_eq!(
        tree.close_bodies(&probe, Theta::half()),
        single.close_bodies(&probe, Theta::half())
    );
    assert_eq!(tree.close_bodies(&probe, Theta::half()), vec![pm(10, 10, 5)]);
}

#[test]
fn coincident_bodies_inside_a_subdivided_tree_merge() {
    let tree = tree_of(
        Bound::new(0, 0, 64, 64),
        &[Body::new(3, 3, 2), Body::new(40, 40, 1), Body::new(3, 3, 3)],
    );
    let leaves = tree.leaf_bodies();
    assert_eq!(leaves, vec![Body::new(3, 3, 5), Body::new(40, 40, 1)]);
    assert_eq!(tree.mass(), 6);
}

#[test]
fn cluster_is_total_mass_and_centroid() {
    let bodies = [
        Body::new(10, 20, 3),
        Body::new(-30, 5, 1),
        Body::new(44, -17, 6),
        Body::new(-2, -90, 2),
    ];
    let tree = tree_of(Bound::new(-100, -100, 200, 200), &bodies);
    let mass: u64 = bodies.iter().map(|b| b.mass).sum();
    let mx: i128 = bodies.iter().map(|b| b.mass as i128 * b.position.x as i128).sum();
    let my: i128 = bodies.iter().map(|b| b.mass as i128 * b.position.y as i128).sum();
    match tree.node {
        Node::Internal { ref cluster, .. } => {
            assert_eq!(cluster.mass, mass);
            assert_eq!(cluster.moment_x, mx);
            assert_eq!(cluster.moment_y, my);
            // Centre of mass (260/12, -217/12).
            assert_eq!((cluster.moment_x, cluster.moment_y, cluster.mass), (260, -217, 12));
        }
        _ => panic!("expected an internal root"),
    }
}

#[test]
fn every_leaf_lies_in_the_root() {
    let bound = Bound::new(0, 0, 100, 100);
    let bodies = [
        Body::new(50, 50, 1),
        Body::new(25, 75, 1),
        Body::new(99, 1, 1),
        Body::new(0, 10, 1),
        Body::new(100, 100, 1),
        Body::new(12, 13, 1),
    ];
    let tree = tree_of(bound, &bodies);
    let leaves = tree.leaf_bodies();
    // (0, 10) and (100, 100) lie on the edge of the root and are left out.
    assert_eq!(leaves.len(), 4);
    assert!(leaves.iter().all(|b| bound.contains(b)));
}

#[test]
fn distinct_bodies_give_one_leaf_each() {
    let mut bodies = Vec::new();
    for i in 1..60 {
        bodies.push(Body::new(i, (i * 7) % 59 + 1, 1));
    }
    let tree = tree_of(Bound::new(0, 0, 64, 64), &bodies);
    let mut leaves = tree.leaf_bodies();
    assert_eq!(leaves.len(), bodies.len());
    leaves.sort_by_key(|b| (b.position.x, b.position.y));
    let mut sorted = bodies.clone();
    sorted.sort_by_key(|b| (b.position.x, b.position.y));
    assert_eq!(leaves, sorted);
    assert!(matches!(tree.node, Node::Internal { .. }));
}

#[test]
fn body_on_a_midline_is_kept() {
    // (50, 50) lies on both midlines of the root: it goes to the quadrant
    // east and south of them, SE.
    let tree = tree_of(
        Bound::new(0, 0, 100, 100),
        &[Body::new(50, 50, 1), Body::new(20, 20, 1)],
    );
    assert_eq!(tree.leaf_bodies(), vec![Body::new(20, 20, 1), Body::new(50, 50, 1)]);
    match tree.node {
        Node::Internal { ref se, .. } => {
            assert!(matches!(se.node, Node::External(_)));
        }
        _ => panic!("expected an internal root"),
    }
}

#[test]
fn body_outside_the_root_is_left_out() {
    let mut tree = QuadTree::new(Bound::new(0, 0, 10, 10));
    tree.insert(Body::new(11, 5, 1));
    tree.insert_rec(Body::new(5, -1, 1));
    assert!(matches!(tree.node, Node::Empty));
}

#[test]
fn iterative_and_recursive_insertion_agree() {
    let mut bodies = Vec::new();
    for i in 0..200 {
        bodies.push(Body::new((i * 37) % 997 - 498, (i * 91) % 991 - 495, (i % 5 + 1) as u64));
    }
    bodies.push(Body::new(3, 3, 2));
    bodies.push(Body::new(3, 3, 4));
    let bound = Bound::new(-500, -500, 1000, 1000);
    let mut a = QuadTree::new(bound);
    let mut b = QuadTree::new(bound);
    for body in &bodies {
        a.insert(*body);
        b.insert_rec(*body);
    }
    assert_eq!(format!("{:?}", a), format!("{:?}", b));
    assert_eq!(a.get_rectangles(), b.get_rectangles());
}

#[test]
fn singleton_exerts_no_force_on_itself() {
    let b = Body::new(-7, 12, 9);
    let tree = tree_of(Bound::new(-50, -50, 100, 100), &[b]);
    for theta in [Theta::exact(), Theta::half(), Theta { num: 3, den: 1 }] {
        assert!(tree.close_bodies(&b, theta).is_empty());
    }
}

#[test]
fn exact_theta_is_the_direct_sum() {
    let bodies = [
        Body::new(1, 1, 2),
        Body::new(60, 3, 1),
        Body::new(30, 31, 5),
        Body::new(31, 30, 1),
        Body::new(8, 50, 7),
    ];
    let tree = tree_of(Bound::new(0, 0, 64, 64), &bodies);
    let leaves = tree.leaf_bodies();
    for b in &bodies {
        let close = tree.close_bodies(b, Theta::exact());
        let direct: Vec<Cluster> = leaves
            .iter()
            .filter(|c| c.position != b.position)
            .map(|c| Cluster::from_body(c))
            .collect();
        assert_eq!(close, direct);
        assert_eq!(close.len(), bodies.len() - 1);
        for o in &bodies {
            if o.position != b.position {
                assert!(tree.close_bodies(o, Theta::exact()).contains(&Cluster::from_body(b)));
            }
        }
    }
}

#[test]
fn far_cluster_is_approximated() {
    let tree = tree_of(
        Bound::new(0, 0, 64, 64),
        &[Body::new(1, 1, 1), Body::new(3, 1, 1)],
    );
    // From (1000, 1000) the root (s = 64) is far for θ = 1/2.
    let probe = Body::new(1000, 1000, 1);
    assert_eq!(
        tree.close_bodies(&probe, Theta::half()),
        vec![Cluster { mass: 2, moment_x: 4, moment_y: 2 }]
    );
    assert_eq!(tree.close_bodies(&probe, Theta::exact()).len(), 2);
}

#[test]
fn rectangles_list_every_node() {
    let tree = tree_of(
        Bound::new(0, 0, 8, 8),
        &[Body::new(1, 1, 1), Body::new(6, 6, 1)],
    );
    let rects = tree.get_rectangles();
    assert_eq!(rects.len(), 5);
    assert_eq!(rects[0], Bound::new(0, 0, 8, 8));
    assert_eq!(rects[1], Bound { x: 0, y: 0, w: 8, h: 8, unit: 2 });
    assert_eq!(rects[4], Bound { x: 8, y: 8, w: 8, h: 8, unit: 2 });
}

#[test]
fn update_cluster_folds_a_body() {
    let mut c = Cluster { mass: 2, moment_x: 10, moment_y: -4 };
    QuadTree::update_cluster(&mut c, &Body::new(3, 7, 4));
    assert_eq!(c.mass, 6);
    assert_eq!(c.moment_x, 22);
    assert_eq!(c.moment_y, 24);
    assert_eq!(pm(3, 7, 4), Cluster { mass: 4, moment_x: 12, moment_y: 28 });
}
