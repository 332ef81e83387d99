use vstd::prelude::*;

use crate::body::Body;
use crate::bound::Bound;
use crate::lemmas::{lemma_inserted, lemma_positions_covered};
use crate::quadtree::{Node, QuadTree, empty_tree, leaf};
use crate::simulation::{all_massive, built, lemma_built, mass_sum};
use crate::quadtree::Cluster;
use crate::traversal::{Theta, point_mass};
use crate::vec_2d::Vec2D;

verus! {

/// Sum of `mass * x` over the bodies of `s`.
pub open spec fn moment_sum_x(s: Seq<Body>) -> int
    decreases s.len(),
{
    if s.len() == 0 {
        0
    } else {
        moment_sum_x(s.drop_last()) + s.last().mass * s.last().position.x
    }
}

/// Sum of `mass * y` over the bodies of `s`.
pub open spec fn moment_sum_y(s: Seq<Body>) -> int
    decreases s.len(),
{
    if s.len() == 0 {
        0
    } else {
        moment_sum_y(s.drop_last()) + s.last().mass * s.last().position.y
    }
}

/// Every body of `s` lies strictly inside `bd`.
pub open spec fn all_inside(bd: Bound, s: Seq<Body>) -> bool {
    forall|i: int| 0 <= i < s.len() ==> bd.strictly_inside(#[trigger] s[i].position)
}

/// No two bodies of `s` share a position.
pub open spec fn distinct_positions(s: Seq<Body>) -> bool {
    forall|i: int, j: int|
        0 <= i < j < s.len() ==> (#[trigger] s[i]).position != (#[trigger] s[j]).position
}

/// The positions of the bodies of `s`.
pub open spec fn position_set(s: Seq<Body>) -> Set<Vec2D> {
    Set::new(|p: Vec2D| exists|i: int| 0 <= i < s.len() && (#[trigger] s[i]).position == p)
}

/// The cluster of an internal node of a well-formed tree holds the total mass
/// of the bodies below it and their first moments, so its centre of mass,
/// `moment / mass`, is exactly their mass-weighted centroid. Each quadrant is
/// well formed again, so this holds at every internal node.
pub proof fn cluster_matches_descendants(t: QuadTree)
    requires
        t.wf(),
    ensures
        match t.node {
            Node::Internal { cluster, nw, ne, sw, se } => {
                &&& cluster.mass == t.total_mass()
                &&& cluster.moment_x == t.moment_x()
                &&& cluster.moment_y == t.moment_y()
                &&& nw.wf() && ne.wf() && sw.wf() && se.wf()
            },
            _ => true,
        },
{
}

/// Every body held in a well-formed tree lies in the cell of the node that
/// holds it: on or right of its left edge, left of its right edge, and alike
/// vertically.
pub proof fn bodies_lie_in_their_cell(t: QuadTree, p: Vec2D)
    requires
        t.wf(),
        t.positions().contains(p),
    ensures
        t.boundary.covers(p),
{
    lemma_positions_covered(t, p);
}

/// Every body that a built tree holds lies strictly inside the root boundary.
pub proof fn built_bodies_inside_root(bd: Bound, s: Seq<Body>, p: Vec2D)
    requires
        bd.wf(),
        all_massive(s),
        mass_sum(s) <= u64::MAX,
        built(bd, s).positions().contains(p),
    ensures
        bd.strictly_inside(p),
    decreases s.len(),
{
    lemma_built(bd, s);
    if s.len() > 0 {
        let q = s.drop_last();
        lemma_prefix_props(s);
        lemma_built(bd, q);
        let t = built(bd, q);
        let b = s.last();
        if t.boundary.strictly_inside(b.position) {
            lemma_inserted(t, b);
            if p != b.position {
                built_bodies_inside_root(bd, q, p);
            }
        } else {
            built_bodies_inside_root(bd, q, p);
        }
    }
}

/// Dropping the last body keeps the hypotheses of the laws on sequences.
proof fn lemma_prefix_props(s: Seq<Body>)
    requires
        s.len() > 0,
    ensures
        all_massive(s) ==> all_massive(s.drop_last()),
        mass_sum(s.drop_last()) + s.last().mass == mass_sum(s),
        forall|bd: Bound| all_inside(bd, s) ==> all_inside(bd, #[trigger] s.drop_last()),
        distinct_positions(s) ==> distinct_positions(s.drop_last()),
        s.last() == s[s.len() - 1],
{
    let q = s.drop_last();
    assert forall|i: int| 0 <= i < q.len() implies #[trigger] q[i] == s[i] by {}
    if all_massive(s) {
        assert forall|i: int| 0 <= i < q.len() implies (#[trigger] q[i]).mass > 0 by {
            assert(q[i] == s[i]);
        }
    }
    assert forall|bd: Bound| all_inside(bd, s) implies all_inside(bd, #[trigger] s.drop_last()) by {
        assert forall|i: int| 0 <= i < q.len() implies bd.strictly_inside(
            #[trigger] q[i].position,
        ) by {
            assert(q[i] == s[i]);
        }
    }
    if distinct_positions(s) {
        assert forall|i: int, j: int| 0 <= i < j < q.len() implies (#[trigger] q[i]).position
            != (#[trigger] q[j]).position by {
            assert(q[i] == s[i] && q[j] == s[j]);
        }
    }
}

/// Inserting bodies at pairwise different positions, all inside the root,
/// gives a tree with exactly one leaf per body: its leaves are exactly the
/// inserted bodies, none lost and none duplicated.
pub proof fn distinct_bodies_fill_distinct_leaves(bd: Bound, s: Seq<Body>)
    requires
        bd.wf(),
        all_massive(s),
        mass_sum(s) <= u64::MAX,
        all_inside(bd, s),
        distinct_positions(s),
    ensures
        built(bd, s).leaf_count() == s.len(),
        built(bd, s).positions() == position_set(s),
        built(bd, s).leaves().to_multiset() == s.to_multiset(),
    decreases s.len(),
{
    if s.len() == 0 {
        assert(position_set(s) =~= Set::<Vec2D>::empty());
        assert(built(bd, s).leaves() =~= s);
    } else {
        let q = s.drop_last();
        lemma_prefix_props(s);
        distinct_bodies_fill_distinct_leaves(bd, q);
        lemma_built(bd, q);
        let t = built(bd, q);
        let b = s.last();
        assert(bd.strictly_inside(s[s.len() - 1].position));
        lemma_inserted(t, b);
        if position_set(q).contains(b.position) {
            let i = choose|i: int| 0 <= i < q.len() && (#[trigger] q[i]).position == b.position;
            assert(s[i] == q[i]);
            assert(s[i].position != s[s.len() - 1].position);
        }
        crate::lemmas::lemma_inserted_leaves(t, b);
        vstd::seq_lib::to_multiset_build(q, b);
        assert(q.push(b) =~= s);
        assert(position_set(s) =~= position_set(q).insert(b.position)) by {
            assert forall|p: Vec2D| position_set(s).contains(p) implies position_set(
                q,
            ).insert(b.position).contains(p) by {
                let i = choose|i: int| 0 <= i < s.len() && (#[trigger] s[i]).position == p;
                if i < q.len() {
                    assert(q[i] == s[i]);
                }
            }
            assert forall|p: Vec2D| position_set(q).insert(b.position).contains(p) implies position_set(
                s,
            ).contains(p) by {
                if p == b.position {
                    assert(s[s.len() - 1].position == p);
                } else {
                    let i = choose|i: int| 0 <= i < q.len() && (#[trigger] q[i]).position == p;
                    assert(s[i] == q[i]);
                }
            }
        }
    }
}

/// The root of a tree built from bodies all inside its boundary carries the
/// total mass and the first moments of all of them; when the root is
/// internal, its cluster is that global summary.
pub proof fn root_summarises_all_bodies(bd: Bound, s: Seq<Body>)
    requires
        bd.wf(),
        all_massive(s),
        mass_sum(s) <= u64::MAX,
        all_inside(bd, s),
    ensures
        built(bd, s).total_mass() == mass_sum(s),
        built(bd, s).moment_x() == moment_sum_x(s),
        built(bd, s).moment_y() == moment_sum_y(s),
        match built(bd, s).node {
            Node::Internal { cluster, .. } => {
                &&& cluster.mass == mass_sum(s)
                &&& cluster.moment_x == moment_sum_x(s)
                &&& cluster.moment_y == moment_sum_y(s)
            },
            _ => true,
        },
    decreases s.len(),
{
    lemma_built(bd, s);
    if s.len() > 0 {
        let q = s.drop_last();
        lemma_prefix_props(s);
        root_summarises_all_bodies(bd, q);
        lemma_built(bd, q);
        let t = built(bd, q);
        assert(bd.strictly_inside(s[s.len() - 1].position));
        lemma_inserted(t, s.last());
    }
}

/// Inserting two bodies at the same position ends with one leaf that holds
/// their summed mass: the node is not subdivided at all.
pub proof fn coincident_bodies_merge(bd: Bound, a: Body, b: Body)
    requires
        bd.wf(),
        bd.strictly_inside(a.position),
        a.position == b.position,
        a.mass + b.mass <= u64::MAX,
    ensures
        empty_tree(bd).admitted(a).admitted(b) == leaf(
            bd,
            Body { position: a.position, mass: (a.mass + b.mass) as u64 },
        ),
{
}

/// A tree that holds a single body exerts nothing on that body.
pub proof fn singleton_exerts_no_force(bd: Bound, b: Body, theta: Theta)
    requires
        bd.wf(),
        bd.strictly_inside(b.position),
    ensures
        empty_tree(bd).admitted(b).interactions(b.position, theta) == Seq::<Cluster>::empty(),
{
    assert(empty_tree(bd).admitted(b) == leaf(bd, b));
}

/// Holds of a body not at `p`.
pub open spec fn not_at(p: Vec2D) -> spec_fn(Body) -> bool {
    |c: Body| c.position != p
}

/// The point masses of the bodies of `s`, in order.
pub open spec fn point_masses(s: Seq<Body>) -> Seq<Cluster> {
    s.map_values(|b: Body| point_mass(b))
}

/// With θ = 0 no cluster is ever approximated: what acts on a body at `p`
/// is exactly the bodies of the tree not at `p`, as in the direct pairwise
/// sum.
pub proof fn exact_theta_is_direct_sum(t: QuadTree, p: Vec2D, theta: Theta)
    requires
        t.wf(),
        theta.num == 0,
    ensures
        t.interactions(p, theta) == point_masses(t.leaves().filter(not_at(p))),
    decreases t,
{
    let f = not_at(p);
    match t.node {
        Node::Empty => {
            assert(t.leaves().filter(f) =~= Seq::<Body>::empty());
            assert(point_masses(t.leaves().filter(f)) =~= Seq::<Cluster>::empty());
        },
        Node::External(b) => {
            reveal_with_fuel(Seq::filter, 2);
            assert(seq![b].drop_last() =~= Seq::<Body>::empty());
            if b.position == p {
                assert(t.leaves().filter(f) =~= Seq::<Body>::empty());
            } else {
                assert(t.leaves().filter(f) =~= seq![b]);
            }
            assert(point_masses(t.leaves().filter(f)) =~= t.interactions(p, theta));
        },
        Node::Internal { cluster, nw, ne, sw, se } => {
            exact_theta_is_direct_sum(*nw, p, theta);
            exact_theta_is_direct_sum(*ne, p, theta);
            exact_theta_is_direct_sum(*sw, p, theta);
            exact_theta_is_direct_sum(*se, p, theta);
            let w = t.boundary.w * theta.den * cluster.mass;
            let a = theta.num * t.boundary.unit;
            let dx = cluster.moment_x - cluster.mass * p.x;
            let dy = cluster.moment_y - cluster.mass * p.y;
            let d2 = dx * dx + dy * dy;
            assert(w * w >= 0) by (nonlinear_arith);
            assert(a == 0);
            assert(a * a * d2 == 0) by (nonlinear_arith)
                requires
                    a == 0,
            ;
            assert(!crate::traversal::far(t.boundary, cluster, p, theta));
            let (l0, l1, l2, l3) = (nw.leaves(), ne.leaves(), sw.leaves(), se.leaves());
            Seq::filter_distributes_over_add(l0, l1, f);
            Seq::filter_distributes_over_add(l0 + l1, l2, f);
            Seq::filter_distributes_over_add(l0 + l1 + l2, l3, f);
            let (f0, f1, f2, f3) = (l0.filter(f), l1.filter(f), l2.filter(f), l3.filter(f));
            assert(point_masses(f0 + f1 + f2 + f3) =~= point_masses(f0) + point_masses(f1)
                + point_masses(f2) + point_masses(f3));
        },
    }
}

/// With θ = 0 the interaction between two bodies held at different
/// positions is mutual: each acts on the other.
pub proof fn exact_theta_pairs_are_mutual(t: QuadTree, a: Body, b: Body, theta: Theta)
    requires
        t.wf(),
        theta.num == 0,
        t.leaves().contains(a),
        t.leaves().contains(b),
        a.position != b.position,
    ensures
        t.interactions(a.position, theta).contains(point_mass(b)),
        t.interactions(b.position, theta).contains(point_mass(a)),
{
    exact_theta_is_direct_sum(t, a.position, theta);
    exact_theta_is_direct_sum(t, b.position, theta);
    let l = t.leaves();
    let i = choose|i: int| 0 <= i < l.len() && l[i] == a;
    let j = choose|j: int| 0 <= j < l.len() && l[j] == b;
    l.lemma_filter_contains(not_at(a.position), j);
    l.lemma_filter_contains(not_at(b.position), i);
    let fa = l.filter(not_at(a.position));
    let fb = l.filter(not_at(b.position));
    let ja = choose|k: int| 0 <= k < fa.len() && fa[k] == b;
    let ib = choose|k: int| 0 <= k < fb.len() && fb[k] == a;
    assert(point_masses(fa)[ja] == point_mass(b));
    assert(point_masses(fb)[ib] == point_mass(a));
}

/// A tree built from bodies all inside its root holds exactly their
/// positions, none lost and none added.
pub proof fn built_positions(bd: Bound, s: Seq<Body>)
    requires
        bd.wf(),
        all_massive(s),
        mass_sum(s) <= u64::MAX,
        all_inside(bd, s),
    ensures
        built(bd, s).positions() == position_set(s),
    decreases s.len(),
{
    if s.len() == 0 {
        assert(position_set(s) =~= Set::<Vec2D>::empty());
    } else {
        let q = s.drop_last();
        lemma_prefix_props(s);
        built_positions(bd, q);
        lemma_built(bd, q);
        let t = built(bd, q);
        let b = s.last();
        assert(bd.strictly_inside(s[s.len() - 1].position));
        lemma_inserted(t, b);
        assert(position_set(s) =~= position_set(q).insert(b.position)) by {
            assert forall|p: Vec2D| position_set(s).contains(p) implies position_set(
                q,
            ).insert(b.position).contains(p) by {
                let i = choose|i: int| 0 <= i < s.len() && (#[trigger] s[i]).position == p;
                if i < q.len() {
                    assert(q[i] == s[i]);
                }
            }
            assert forall|p: Vec2D| position_set(q).insert(b.position).contains(p) implies position_set(
                s,
            ).contains(p) by {
                if p == b.position {
                    assert(s[s.len() - 1].position == p);
                } else {
                    let i = choose|i: int| 0 <= i < q.len() && (#[trigger] q[i]).position == p;
                    assert(s[i] == q[i]);
                }
            }
        }
    }
}

/// Once two bodies inside the root lie at different positions, the root of
/// the built tree is internal (and so carries the global summary, see
/// [`root_summarises_all_bodies`]).
pub proof fn root_is_internal_once_positions_differ(bd: Bound, s: Seq<Body>, i: int, j: int)
    requires
        bd.wf(),
        all_massive(s),
        mass_sum(s) <= u64::MAX,
        all_inside(bd, s),
        0 <= i < s.len(),
        0 <= j < s.len(),
        s[i].position != s[j].position,
    ensures
        built(bd, s).node is Internal,
{
    built_positions(bd, s);
    let t = built(bd, s);
    assert(position_set(s).contains(s[i].position));
    assert(position_set(s).contains(s[j].position));
    match t.node {
        Node::Empty => {
            assert(t.positions().contains(s[i].position));
        },
        Node::External(b) => {
            assert(t.positions() == set![b.position]);
        },
        _ => {},
    }
}

/// Inserting a body at a position that the tree already holds merges it
/// into that leaf: no leaf is added, the positions stay the same, and only
/// the mass grows.
pub proof fn insert_at_held_position_merges(t: QuadTree, b: Body)
    requires
        t.wf(),
        t.boundary.strictly_inside(b.position),
        t.positions().contains(b.position),
        b.mass > 0,
        t.total_mass() + b.mass <= u64::MAX,
    ensures
        t.admitted(b).leaf_count() == t.leaf_count(),
        t.admitted(b).positions() == t.positions(),
        t.admitted(b).total_mass() == t.total_mass() + b.mass,
{
    lemma_inserted(t, b);
    assert(t.positions().insert(b.position) =~= t.positions());
}

} // verus!
