use barnes_hut::body::Body;
use barnes_hut::bound::Bound;
use barnes_hut::quadtree::{Cluster, Node};
use barnes_hut::simulation::{
    build_tree, interaction_lists, is_in_world, retained, total_mass_fits, world_bound,
};
use barnes_hut::traversal::Theta;
use barnes_hut::vec_2d::Vec2D;

fn pm(x: i32, y: i32, mass: u64) -> Cluster {
    Cluster::from_body(&Body::new(x, y, mass))
}

#[test]
fn world_bound_is_the_square() {
    // [-100, 100]² widened by half a unit, in half units.
    let b = world_bound(-100, 100);
    assert_eq!(b, Bound { x: -201, y: -201, w: 402, h: 402, unit: 2 });
    assert!(b.contains(&Body::new(100, -100, 1)));
    assert!(b.contains(&Body::new(-100, 0, 1)));
    assert!(!b.contains(&Body::new(101, 0, 1)));
}

#[test]
fn escaped_body_is_culled() {
    let bodies = vec![
        Body::new(0, 0, 5),
        Body::new(101, 0, 1),
        Body::new(100, -100, 1),
        Body::new(-40, -250, 1),
        Body::new(30, 30, 2),
    ];
    assert!(is_in_world(Vec2D::new(100, -100), -100, 100));
    assert!(!is_in_world(Vec2D::new(101, 0), -100, 100));
    let keep = retained(&bodies, -100, 100);
    assert_eq!(keep, vec![0, 2, 4]);
    let kept: Vec<Body> = keep.iter().map(|&i| bodies[i]).collect();
    let tree = build_tree(world_bound(-100, 100), &kept);
    // Every kept body, the one on the world's edge included, is in the tree.
    assert_eq!(tree.leaf_bodies().len(), 3);
    let lists = interaction_lists(&tree, &kept, Theta::exact());
    assert_eq!(lists.len(), 3);
    assert_eq!(lists[0], vec![pm(100, -100, 1), pm(30, 30, 2)]);
    assert_eq!(lists[1], vec![pm(0, 0, 5), pm(30, 30, 2)]);
    assert_eq!(lists[2], vec![pm(100, -100, 1), pm(0, 0, 5)]);
    assert!(lists.iter().all(|l| !l.contains(&pm(101, 0, 1))));
}

#[test]
fn build_tree_holds_every_body() {
    let bodies = vec![Body::new(-10, -10, 1), Body::new(10, 10, 2), Body::new(10, -10, 3)];
    let tree = build_tree(world_bound(-50, 50), &bodies);
    match tree.node {
        Node::Internal { ref cluster, .. } => {
            assert_eq!(cluster.mass, 6);
            assert_eq!(cluster.moment_x, -10 + 20 + 30);
            assert_eq!(cluster.moment_y, -10 + 20 - 30);
        }
        _ => panic!("expected an internal root"),
    }
    let lists = interaction_lists(&tree, &bodies, Theta::exact());
    for (i, list) in lists.iter().enumerate() {
        assert_eq!(list.len(), 2);
        assert!(!list.contains(&Cluster::from_body(&bodies[i])));
    }
}

#[test]
fn total_mass_fits_detects_overflow() {
    assert!(total_mass_fits(&vec![Body::new(0, 0, u64::MAX)]));
    assert!(!total_mass_fits(&vec![Body::new(0, 0, u64::MAX), Body::new(1, 1, 1)]));
    assert!(total_mass_fits(&vec![]));
}
