use vstd::multiset::Multiset;
use vstd::prelude::*;

use crate::body::Body;
use crate::bound::{
    Bound, MAX_UNIT, lemma_child_wf, lemma_distinct_points_room, lemma_quadrant_covers,
};
use crate::quadtree::{Cluster, Node, QuadTree, leaf, pair_child, pair_tree};
use crate::vec_2d::Vec2D;

verus! {

/// A point that quadrant `i` covers is owned by quadrant `i` and covered by
/// the parent.
pub proof fn lemma_child_covers(bd: Bound, p: Vec2D, i: int)
    requires
        bd.wf(),
        0 <= i < 4,
        bd.child(i).covers(p),
    ensures
        bd.quadrant(p) == i,
        bd.covers(p),
{
    let (x, y, u) = (p.x as int, p.y as int, bd.unit as int);
    assert(x * (2 * u) == 2 * (x * u)) by (nonlinear_arith);
    assert(y * (2 * u) == 2 * (y * u)) by (nonlinear_arith);
}

/// A body of `m` at coordinate `c` has a moment within `m` times the
/// coordinate range.
pub proof fn lemma_body_moment(m: int, c: int)
    requires
        0 <= m,
        i32::MIN <= c <= i32::MAX,
    ensures
        i32::MIN * m <= m * c <= i32::MAX * m,
{
    assert(i32::MIN * m <= m * c <= i32::MAX * m) by (nonlinear_arith)
        requires
            0 <= m,
            -0x8000_0000 <= c <= 0x7fff_ffff,
    ;
}

/// The masses and moments of a well-formed tree fit their machine types.
pub proof fn lemma_moments(t: QuadTree)
    requires
        t.wf(),
    ensures
        0 <= t.total_mass() <= u64::MAX,
        i32::MIN * t.total_mass() <= t.moment_x() <= i32::MAX * t.total_mass(),
        i32::MIN * t.total_mass() <= t.moment_y() <= i32::MAX * t.total_mass(),
    decreases t,
{
    match t.node {
        Node::Empty => {},
        Node::External(b) => {
            lemma_body_moment(b.mass as int, b.position.x as int);
            lemma_body_moment(b.mass as int, b.position.y as int);
        },
        Node::Internal { nw, ne, sw, se, .. } => {
            lemma_moments(*nw);
            lemma_moments(*ne);
            lemma_moments(*sw);
            lemma_moments(*se);
        },
    }
}

/// Every position held in a well-formed tree lies in its boundary's cell.
pub proof fn lemma_positions_covered(t: QuadTree, p: Vec2D)
    requires
        t.wf(),
        t.positions().contains(p),
    ensures
        t.boundary.covers(p),
    decreases t,
{
    match t.node {
        Node::Empty => {},
        Node::External(b) => {},
        Node::Internal { nw, ne, sw, se, .. } => {
            if nw.positions().contains(p) {
                lemma_positions_covered(*nw, p);
                lemma_child_covers(t.boundary, p, 0);
            } else if ne.positions().contains(p) {
                lemma_positions_covered(*ne, p);
                lemma_child_covers(t.boundary, p, 1);
            } else if sw.positions().contains(p) {
                lemma_positions_covered(*sw, p);
                lemma_child_covers(t.boundary, p, 2);
            } else {
                lemma_positions_covered(*se, p);
                lemma_child_covers(t.boundary, p, 3);
            }
        },
    }
}

/// A position held by quadrant `i` of a well-formed internal node is owned
/// by quadrant `i`.
pub proof fn lemma_sub_positions(t: QuadTree, p: Vec2D, i: int)
    requires
        t.wf(),
        t.rank() == 0,
        0 <= i < 4,
        t.sub(i).positions().contains(p),
    ensures
        t.boundary.quadrant(p) == i,
{
    lemma_positions_covered(t.sub(i), p);
    lemma_child_covers(t.boundary, p, i);
}

/// Folding a body into a cluster adds its mass and moments exactly.
pub proof fn lemma_cluster_with(c: Cluster, b: Body, m: int)
    requires
        c.mass == m,
        c.mass + b.mass <= u64::MAX,
        i32::MIN * m <= c.moment_x <= i32::MAX * m,
        i32::MIN * m <= c.moment_y <= i32::MAX * m,
    ensures
        c.with(b).mass == c.mass + b.mass,
        c.with(b).moment_x == c.moment_x + b.mass * b.position.x,
        c.with(b).moment_y == c.moment_y + b.mass * b.position.y,
{
    lemma_body_moment(b.mass as int, b.position.x as int);
    lemma_body_moment(b.mass as int, b.position.y as int);
}

/// The tree that holds two bodies at different positions is well formed and
/// holds exactly those two.
pub proof fn lemma_pair_tree(bd: Bound, o: Body, b: Body)
    requires
        bd.wf(),
        bd.covers(o.position),
        bd.covers(b.position),
        o.position != b.position,
        o.mass > 0,
        b.mass > 0,
        o.mass + b.mass <= u64::MAX,
    ensures
        pair_tree(bd, o, b).wf(),
        pair_tree(bd, o, b).boundary == bd,
        pair_tree(bd, o, b).rank() == 0,
        pair_tree(bd, o, b).total_mass() == o.mass + b.mass,
        pair_tree(bd, o, b).moment_x() == o.mass * o.position.x + b.mass * b.position.x,
        pair_tree(bd, o, b).moment_y() == o.mass * o.position.y + b.mass * b.position.y,
        pair_tree(bd, o, b).positions() == set![o.position, b.position],
        pair_tree(bd, o, b).leaf_count() == 2,
    decreases MAX_UNIT - bd.unit,
{
    lemma_distinct_points_room(bd, o.position, b.position);
    lemma_quadrant_covers(bd, o.position);
    lemma_quadrant_covers(bd, b.position);
    lemma_cluster_with(Cluster::empty(), o, 0);
    lemma_body_moment(o.mass as int, o.position.x as int);
    lemma_body_moment(o.mass as int, o.position.y as int);
    lemma_cluster_with(Cluster::empty().with(o), b, o.mass as int);
    let qo = bd.quadrant(o.position);
    let qb = bd.quadrant(b.position);
    let r = pair_tree(bd, o, b);
    assert forall|i: int| 0 <= i < 4 implies {
        let c = #[trigger] pair_child(bd, o, b, i);
        &&& c.wf()
        &&& c.boundary == bd.child(i)
        &&& c.total_mass() == (if i == qo { o.mass as int } else { 0 }) + (if i == qb {
            b.mass as int
        } else {
            0
        })
        &&& c.moment_x() == (if i == qo { o.mass * o.position.x } else { 0 }) + (if i == qb {
            b.mass * b.position.x
        } else {
            0
        })
        &&& c.moment_y() == (if i == qo { o.mass * o.position.y } else { 0 }) + (if i == qb {
            b.mass * b.position.y
        } else {
            0
        })
        &&& c.leaf_count() == (if i == qo { 1nat } else { 0nat }) + (if i == qb {
            1nat
        } else {
            0nat
        })
        &&& c.positions() == (if i == qo { set![o.position] } else { Set::empty() }) + (if i
            == qb {
            set![b.position]
        } else {
            Set::empty()
        })
    } by {
        lemma_child_wf(bd, i);
        let c = pair_child(bd, o, b, i);
        if i == qo && i == qb {
            lemma_pair_tree(bd.child(i), o, b);
            assert(c.positions() =~= set![o.position] + set![b.position]);
        } else if i == qo {
            assert(c.positions() =~= set![o.position] + Set::empty());
        } else if i == qb {
            assert(c.positions() =~= Set::empty() + set![b.position]);
        } else {
            assert(c.positions() =~= Set::<Vec2D>::empty() + Set::empty());
        }
    }
    let c0 = pair_child(bd, o, b, 0);
    let c1 = pair_child(bd, o, b, 1);
    let c2 = pair_child(bd, o, b, 2);
    let c3 = pair_child(bd, o, b, 3);
    assert(r.total_mass() == c0.total_mass() + c1.total_mass() + c2.total_mass()
        + c3.total_mass());
    assert(r.moment_x() == c0.moment_x() + c1.moment_x() + c2.moment_x() + c3.moment_x());
    assert(r.moment_y() == c0.moment_y() + c1.moment_y() + c2.moment_y() + c3.moment_y());
    assert(r.positions() == c0.positions() + c1.positions() + c2.positions() + c3.positions());
    assert(r.positions() =~= set![o.position, b.position]);
}

/// What placing a body does to a well-formed tree: the tree stays well
/// formed over the same boundary, gains the body's mass and moments, and
/// holds one more leaf unless a leaf already stood at that position.
pub proof fn lemma_inserted(t: QuadTree, b: Body)
    requires
        t.wf(),
        t.boundary.covers(b.position),
        b.mass > 0,
        t.total_mass() + b.mass <= u64::MAX,
    ensures
        t.inserted(b).wf(),
        t.inserted(b).boundary == t.boundary,
        t.inserted(b).total_mass() == t.total_mass() + b.mass,
        t.inserted(b).moment_x() == t.moment_x() + b.mass * b.position.x,
        t.inserted(b).moment_y() == t.moment_y() + b.mass * b.position.y,
        t.inserted(b).positions() == t.positions().insert(b.position),
        t.inserted(b).leaf_count() == t.leaf_count() + if t.positions().contains(b.position) {
            0nat
        } else {
            1nat
        },
    decreases t,
{
    lemma_moments(t);
    match t.node {
        Node::Empty => {
            let r = leaf(t.boundary, b);
            assert(t.inserted(b) == r);
            assert(r.moment_x() == b.mass * b.position.x);
            assert(r.moment_y() == b.mass * b.position.y);
            assert(r.positions() =~= t.positions().insert(b.position));
            assert(t.moment_x() == 0);
        },
        Node::External(o) => {
            if o.position == b.position {
                let (m1, m2) = (o.mass as int, b.mass as int);
                let (x, y) = (o.position.x as int, o.position.y as int);
                assert((m1 + m2) * x == m1 * x + m2 * x) by (nonlinear_arith);
                assert((m1 + m2) * y == m1 * y + m2 * y) by (nonlinear_arith);
                assert(t.inserted(b).positions() =~= t.positions().insert(b.position));
            } else {
                lemma_pair_tree(t.boundary, o, b);
                assert(t.inserted(b).positions() =~= t.positions().insert(b.position));
            }
        },
        Node::Internal { cluster, nw, ne, sw, se } => {
            let q = t.boundary.quadrant(b.position);
            lemma_quadrant_covers(t.boundary, b.position);
            lemma_cluster_with(cluster, b, t.total_mass());
            let c = t.sub(q);
            lemma_moments(c);
            lemma_moments(*nw);
            lemma_moments(*ne);
            lemma_moments(*sw);
            lemma_moments(*se);
            lemma_inserted(c, b);
            assert forall|j: int| 0 <= j < 4 && j != q implies !(#[trigger] t.sub(j)).positions().contains(
                b.position,
            ) by {
                if t.sub(j).positions().contains(b.position) {
                    lemma_sub_positions(t, b.position, j);
                }
            }
            assert(t.sub(0) == *nw && t.sub(1) == *ne && t.sub(2) == *sw && t.sub(3) == *se);
            let r = t.inserted(b);
            assert(r.sub(q) == c.inserted(b));
            assert forall|j: int| 0 <= j < 4 && j != q implies #[trigger] r.sub(j) == t.sub(j) by {}
            assert(r.moment_x() == r.sub(0).moment_x() + r.sub(1).moment_x() + r.sub(2).moment_x()
                + r.sub(3).moment_x());
            assert(r.moment_y() == r.sub(0).moment_y() + r.sub(1).moment_y() + r.sub(2).moment_y()
                + r.sub(3).moment_y());
            assert(t.moment_x() == t.sub(0).moment_x() + t.sub(1).moment_x() + t.sub(2).moment_x()
                + t.sub(3).moment_x());
            assert(t.moment_y() == t.sub(0).moment_y() + t.sub(1).moment_y() + t.sub(2).moment_y()
                + t.sub(3).moment_y());
            assert(r.positions() =~= t.positions().insert(b.position));
            if t.positions().contains(b.position) {
                assert(c.positions().contains(b.position));
            }
        },
    }
}

/// The leaves of a four-way node, as a multiset, are those of its quadrants.
pub proof fn lemma_leaves_multiset(t: QuadTree)
    requires
        t.rank() == 0,
    ensures
        t.leaves().to_multiset() == t.sub(0).leaves().to_multiset().add(
            t.sub(1).leaves().to_multiset(),
        ).add(t.sub(2).leaves().to_multiset()).add(t.sub(3).leaves().to_multiset()),
{
    let (l0, l1, l2, l3) = (
        t.sub(0).leaves(),
        t.sub(1).leaves(),
        t.sub(2).leaves(),
        t.sub(3).leaves(),
    );
    assert(t.leaves() == l0 + l1 + l2 + l3);
    vstd::seq_lib::lemma_multiset_commutative(l0 + l1 + l2, l3);
    vstd::seq_lib::lemma_multiset_commutative(l0 + l1, l2);
    vstd::seq_lib::lemma_multiset_commutative(l0, l1);
}

/// A one-body sequence as a multiset.
pub proof fn lemma_singleton_multiset(b: Body)
    ensures
        seq![b].to_multiset() == Multiset::<Body>::empty().insert(b),
{
    vstd::seq_lib::to_multiset_build(Seq::<Body>::empty(), b);
    assert(Seq::<Body>::empty().push(b) =~= seq![b]);
    assert(Seq::<Body>::empty().to_multiset() =~= Multiset::<Body>::empty()) by {
        broadcast use vstd::seq_lib::to_multiset_len;
        broadcast use vstd::multiset::group_multiset_axioms;

        assert(Seq::<Body>::empty().to_multiset().len() == 0);
    }
}

/// The tree of two bodies at different positions holds exactly those two.
pub proof fn lemma_pair_leaves(bd: Bound, o: Body, b: Body)
    requires
        bd.wf(),
        bd.covers(o.position),
        bd.covers(b.position),
        o.position != b.position,
    ensures
        pair_tree(bd, o, b).leaves().to_multiset() == Multiset::<Body>::empty().insert(o).insert(
            b,
        ),
    decreases MAX_UNIT - bd.unit,
{
    broadcast use vstd::multiset::group_multiset_axioms;

    lemma_distinct_points_room(bd, o.position, b.position);
    lemma_quadrant_covers(bd, o.position);
    lemma_quadrant_covers(bd, b.position);
    let qo = bd.quadrant(o.position);
    let qb = bd.quadrant(b.position);
    let r = pair_tree(bd, o, b);
    lemma_singleton_multiset(o);
    lemma_singleton_multiset(b);
    assert forall|i: int| 0 <= i < 4 implies (#[trigger] r.sub(i)).leaves().to_multiset() == (if i
        == qo {
        Multiset::<Body>::empty().insert(o)
    } else {
        Multiset::<Body>::empty()
    }).add(
        if i == qb {
            Multiset::<Body>::empty().insert(b)
        } else {
            Multiset::<Body>::empty()
        },
    ) by {
        assert(r.sub(i) == pair_child(bd, o, b, i));
        lemma_child_wf(bd, i);
        if i == qo && i == qb {
            lemma_pair_leaves(bd.child(i), o, b);
            assert(Multiset::<Body>::empty().insert(o).insert(b) =~= Multiset::<Body>::empty().insert(
                o,
            ).add(Multiset::<Body>::empty().insert(b)));
        } else if i == qo {
            assert(r.sub(i).leaves() == seq![o]);
            assert(Multiset::<Body>::empty().insert(o) =~= Multiset::<Body>::empty().insert(o).add(
                Multiset::<Body>::empty(),
            ));
        } else if i == qb {
            assert(r.sub(i).leaves() == seq![b]);
            assert(Multiset::<Body>::empty().insert(b) =~= Multiset::<Body>::empty().add(
                Multiset::<Body>::empty().insert(b),
            ));
        } else {
            assert(r.sub(i).leaves() =~= Seq::<Body>::empty());
            lemma_singleton_multiset(o);
            assert(Seq::<Body>::empty().to_multiset() =~= Multiset::<Body>::empty()) by {
                broadcast use vstd::seq_lib::to_multiset_len;

                assert(Seq::<Body>::empty().to_multiset().len() == 0);
            }
            assert(Multiset::<Body>::empty() =~= Multiset::<Body>::empty().add(
                Multiset::<Body>::empty(),
            ));
        }
    }
    lemma_leaves_multiset(r);
    let e = Multiset::<Body>::empty();
    let f = |i: int|
        (if i == qo {
            e.insert(o)
        } else {
            e
        }).add(
            if i == qb {
                e.insert(b)
            } else {
                e
            },
        );
    assert(r.sub(0).leaves().to_multiset() == f(0));
    assert(r.sub(1).leaves().to_multiset() == f(1));
    assert(r.sub(2).leaves().to_multiset() == f(2));
    assert(r.sub(3).leaves().to_multiset() == f(3));
    assert(f(0).add(f(1)).add(f(2)).add(f(3)) =~= e.insert(o).insert(b));
}

/// Placing a body at a new position adds exactly that body to the leaves.
pub proof fn lemma_inserted_leaves(t: QuadTree, b: Body)
    requires
        t.wf(),
        t.boundary.covers(b.position),
        b.mass > 0,
        t.total_mass() + b.mass <= u64::MAX,
        !t.positions().contains(b.position),
    ensures
        t.inserted(b).leaves().to_multiset() == t.leaves().to_multiset().insert(b),
    decreases t,
{
    broadcast use vstd::multiset::group_multiset_axioms;

    match t.node {
        Node::Empty => {
            lemma_singleton_multiset(b);
            assert(t.leaves() =~= Seq::<Body>::empty());
            assert(Seq::<Body>::empty().to_multiset() =~= Multiset::<Body>::empty()) by {
                broadcast use vstd::seq_lib::to_multiset_len;

                assert(Seq::<Body>::empty().to_multiset().len() == 0);
            }
        },
        Node::External(o) => {
            assert(t.positions().contains(o.position));
            lemma_pair_leaves(t.boundary, o, b);
            lemma_singleton_multiset(o);
        },
        Node::Internal { nw, ne, sw, se, .. } => {
            let q = t.boundary.quadrant(b.position);
            lemma_quadrant_covers(t.boundary, b.position);
            lemma_moments(*nw);
            lemma_moments(*ne);
            lemma_moments(*sw);
            lemma_moments(*se);
            let c = t.sub(q);
            assert(t.sub(0) == *nw && t.sub(1) == *ne && t.sub(2) == *sw && t.sub(3) == *se);
            assert(!c.positions().contains(b.position));
            lemma_inserted_leaves(c, b);
            let r = t.inserted(b);
            assert(r.sub(q) == c.inserted(b));
            assert forall|j: int| 0 <= j < 4 && j != q implies #[trigger] r.sub(j) == t.sub(j) by {}
            lemma_leaves_multiset(t);
            lemma_leaves_multiset(r);
            let (m0, m1, m2, m3) = (
                t.sub(0).leaves().to_multiset(),
                t.sub(1).leaves().to_multiset(),
                t.sub(2).leaves().to_multiset(),
                t.sub(3).leaves().to_multiset(),
            );
            if q == 0 {
                assert(m0.insert(b).add(m1).add(m2).add(m3) =~= m0.add(m1).add(m2).add(m3).insert(b));
            } else if q == 1 {
                assert(m0.add(m1.insert(b)).add(m2).add(m3) =~= m0.add(m1).add(m2).add(m3).insert(b));
            } else if q == 2 {
                assert(m0.add(m1).add(m2.insert(b)).add(m3) =~= m0.add(m1).add(m2).add(m3).insert(b));
            } else {
                assert(m0.add(m1).add(m2).add(m3.insert(b)) =~= m0.add(m1).add(m2).add(m3).insert(b));
            }
        },
    }
}

} // verus!
